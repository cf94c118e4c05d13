//! What clients and server exchange, and which paths may name a file.
use vstd::prelude::*;
use vstd::utf8::*;

use crate::text::{begins_with, byte_len, contains_char, pieces, same_text, split_text, texts};

verus! {

/// Largest body of one upload request; larger files go in several.
pub const UPLOAD_CHUNK_BYTES: i64 = 8388608;

/// A request to open an upload session.
pub struct BeginUpload {
    pub path: String,
    pub base_revision: i64,
    pub size: i64,
    pub sha256: String,
}

/// How much of an upload the server holds.
pub struct UploadProgress {
    pub id: String,
    pub offset: i64,
}

/// One path as the server knows it. A deleted path keeps its revision.
pub struct Entry {
    pub path: String,
    pub revision: i64,
    pub sha256: Option<String>,
    pub size: Option<i64>,
    pub deleted: bool,
}

/// Everything the server knows of the tree.
pub struct Manifest {
    pub generation: i64,
    pub entries: Vec<Entry>,
}

/// A deleted file that can still be restored.
pub struct TrashItem {
    pub id: i64,
    pub path: String,
    pub size: i64,
    pub deleted_at: i64,
    pub expires_at: i64,
}

/// A request to restore one trash item.
pub struct RestoreRequest {
    pub id: i64,
}

/// A name that may stand between two slashes of a path.
pub open spec fn component_ok(name: Seq<char>) -> bool {
    &&& name.len() > 0
    &&& encode_utf8(name).len() <= 255
    &&& name != "."@
    &&& name != ".."@
    &&& name != ".mysync-conflicts"@
    &&& name != ".mysync-staging"@
}

/// A relative path that stays below the synchronization root and clear of the
/// client's own directories.
pub open spec fn path_ok(path: Seq<char>) -> bool {
    &&& path.len() > 0
    &&& encode_utf8(path).len() <= 4096
    &&& path[0] != '/'
    &&& !path.contains('\\')
    &&& !path.contains('\0')
    &&& forall|i: int|
        0 <= i < pieces(path, '/').len() ==> component_ok(#[trigger] pieces(path, '/')[i])
}

/// Whether `path` names something inside the directory `directory`, at any depth.
pub open spec fn is_below(path: Seq<char>, directory: Seq<char>) -> bool {
    &&& directory.len() < path.len()
    &&& path[directory.len() as int] == '/'
    &&& path.take(directory.len() as int) == directory
}

fn valid_component(name: &str) -> (ok: bool)
    ensures
        ok == component_ok(name@),
{
    !name.is_empty() && byte_len(name) <= 255 && !same_text(name, ".") && !same_text(name, "..")
        && !same_text(name, ".mysync-conflicts") && !same_text(name, ".mysync-staging")
}

/// Reject paths that could escape a synchronization root or collide with client-owned data.
pub fn valid_path(path: &str) -> (ok: bool)
    ensures
        ok == path_ok(path@),
{
    if path.is_empty() || byte_len(path) > 4096 || contains_char(path, '\\') || contains_char(
        path,
        '\0',
    ) {
        return false;
    }
    if path.get_char(0) == '/' {
        return false;
    }
    let names = split_text(path, '/');
    let mut i: usize = 0;
    while i < names.len()
        invariant
            i <= names.len(),
            texts(names@) == pieces(path@, '/'),
            forall|j: int| 0 <= j < i ==> component_ok(#[trigger] pieces(path@, '/')[j]),
        decreases names.len() - i,
    {
        assert(pieces(path@, '/')[i as int] == names@[i as int]@);
        if !valid_component(names[i].as_str()) {
            return false;
        }
        i += 1;
    }
    true
}

/// Whether `path` names something inside the directory `directory`, at any depth.
pub fn below(path: &str, directory: &str) -> (yes: bool)
    ensures
        yes == is_below(path@, directory@),
{
    let n = directory.unicode_len();
    let m = path.unicode_len();
    if n >= m || !begins_with(path, directory) {
        proof {
            if n < m {
                assert(path@.take(n as int) =~= path@.subrange(0, n as int));
            }
        }
        return false;
    }
    assert(path@.take(n as int) =~= path@.subrange(0, n as int));
    path.get_char(n) == '/'
}

proof fn lemma_single_piece(s: Seq<char>)
    requires
        !s.contains('/'),
    ensures
        pieces(s, '/') == seq![s],
    decreases s.len(),
{
    if s.len() > 0 {
        let front = s.drop_last();
        assert(s[s.len() - 1] != '/');
        assert(!front.contains('/')) by {
            if front.contains('/') {
                let i = choose|i: int| 0 <= i < front.len() && front[i] == '/';
                assert(s[i] == '/');
            }
        }
        lemma_single_piece(front);
        assert(front.push(s.last()) =~= s);
        assert(pieces(s, '/') =~= seq![s]);
    } else {
        assert(s =~= Seq::<char>::empty());
        assert(pieces(s, '/') =~= seq![s]);
    }
}

proof fn lemma_joined_pieces(directory: Seq<char>, name: Seq<char>)
    requires
        !name.contains('/'),
    ensures
        pieces(directory + seq!['/'] + name, '/') == pieces(directory, '/').push(name),
    decreases name.len(),
{
    let path = directory + seq!['/'] + name;
    if name.len() == 0 {
        assert(path.drop_last() =~= directory);
        assert(path.last() == '/');
        assert(name =~= Seq::<char>::empty());
    } else {
        let front = name.drop_last();
        assert(name[name.len() - 1] != '/');
        assert(!front.contains('/')) by {
            if front.contains('/') {
                let i = choose|i: int| 0 <= i < front.len() && front[i] == '/';
                assert(name[i] == '/');
            }
        }
        lemma_joined_pieces(directory, front);
        assert(path.drop_last() =~= directory + seq!['/'] + front);
        assert(path.last() == name.last());
        assert(front.push(name.last()) =~= name);
        assert(pieces(path, '/') =~= pieces(directory, '/').push(name));
    }
}

proof fn lemma_bytes_of_both(a: Seq<char>, b: Seq<char>)
    ensures
        encode_utf8(a + b) == encode_utf8(a) + encode_utf8(b),
    decreases a.len(),
{
    if a.len() == 0 {
        assert(a + b =~= b);
        assert(encode_utf8(a) + encode_utf8(b) =~= encode_utf8(b));
    } else {
        assert((a + b).drop_first() =~= a.drop_first() + b);
        assert((a + b).first() == a.first());
        lemma_bytes_of_both(a.drop_first(), b);
        assert(encode_utf8(a + b) =~= encode_utf8(a) + encode_utf8(b));
    }
}

/// A name by itself is an acceptable path exactly where it is not empty, takes at most 255
/// bytes, is none of the four reserved names, and holds no backslash and no zero.
pub proof fn law_plain_name_is_a_path(name: Seq<char>)
    requires
        !name.contains('/'),
    ensures
        path_ok(name) <==> 0 < name.len() && encode_utf8(name).len() <= 255 && name != "."@ && name
            != ".."@ && name != ".mysync-conflicts"@ && name != ".mysync-staging"@
            && !name.contains('\\') && !name.contains('\0'),
{
    lemma_single_piece(name);
    assert(pieces(name, '/')[0] == name);
    if name.len() > 0 {
        assert(name.contains(name[0]));
    }
}

/// A name in a directory is an acceptable path exactly where both are acceptable and the whole
/// takes at most 4096 bytes. With the law on plain names this settles every path.
pub proof fn law_name_in_a_directory_is_a_path(directory: Seq<char>, name: Seq<char>)
    requires
        !name.contains('/'),
    ensures
        path_ok(directory + seq!['/'] + name) <==> path_ok(directory) && path_ok(name)
            && encode_utf8(directory + seq!['/'] + name).len() <= 4096,
{
    let path = directory + seq!['/'] + name;
    let before = pieces(directory, '/');
    let all = pieces(path, '/');
    lemma_joined_pieces(directory, name);
    lemma_single_piece(name);
    lemma_bytes_of_both(directory + seq!['/'], name);
    lemma_bytes_of_both(directory, seq!['/']);
    assert(all[before.len() as int] == name);
    assert(pieces(name, '/')[0] == name);
    assert forall|i: int| 0 <= i < before.len() implies all[i] == before[i] by {}
    assert forall|c: char| c != '/' implies (path.contains(c) <==> directory.contains(c)
        || name.contains(c)) by {
        if path.contains(c) {
            let i = choose|i: int| 0 <= i < path.len() && path[i] == c;
            if i < directory.len() {
                assert(directory[i] == c);
            } else if i > directory.len() {
                assert(name[i - directory.len() - 1] == c);
            }
        }
        if directory.contains(c) {
            let i = choose|i: int| 0 <= i < directory.len() && directory[i] == c;
            assert(path[i] == c);
        }
        if name.contains(c) {
            let i = choose|i: int| 0 <= i < name.len() && name[i] == c;
            assert(path[directory.len() + 1 + i] == c);
        }
    }
    if directory.len() > 0 {
        assert(path[0] == directory[0]);
    } else {
        assert(path[0] == '/');
    }
    if name.len() > 0 {
        assert(name.contains(name[0]));
    }
    if path_ok(path) {
        assert(component_ok(all[before.len() as int]));
        assert forall|i: int| 0 <= i < before.len() implies component_ok(#[trigger] before[i]) by {
            assert(component_ok(all[i]));
        }
    }
    if path_ok(directory) && path_ok(name) {
        assert(component_ok(pieces(name, '/')[0]));
        assert forall|i: int| 0 <= i < all.len() implies component_ok(#[trigger] all[i]) by {
            if i < before.len() {
                assert(component_ok(before[i]));
            }
        }
    }
}

/// A path lies below a directory exactly where it is the directory, a slash, and more.
pub proof fn law_below_means_inside(path: Seq<char>, directory: Seq<char>)
    ensures
        is_below(path, directory) <==> exists|rest: Seq<char>|
            path == #[trigger] (directory + seq!['/'] + rest),
{
    if is_below(path, directory) {
        let rest = path.skip(directory.len() as int + 1);
        assert forall|i: int| 0 <= i < directory.len() implies path[i] == directory[i] by {
            assert(path.take(directory.len() as int)[i] == directory[i]);
        }
        assert(path =~= directory + seq!['/'] + rest);
    }
    if exists|rest: Seq<char>| path == #[trigger] (directory + seq!['/'] + rest) {
        let rest = choose|rest: Seq<char>| path == #[trigger] (directory + seq!['/'] + rest);
        assert(path.take(directory.len() as int) =~= directory);
    }
}

} // verus!
