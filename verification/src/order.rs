//! Lexicographic order of texts by code point, which is also the order of
//! their UTF-8 bytes.
use vstd::prelude::*;

use crate::text::chars_of;

verus! {

/// The first position at or after `from` at which `a` and `b` part, provided
/// that they agree before it.
pub open spec fn parting_from(a: Seq<char>, b: Seq<char>, from: nat) -> nat
    decreases a.len() - from,
{
    if from < a.len() && from < b.len() && a[from as int] == b[from as int] {
        parting_from(a, b, from + 1)
    } else {
        from
    }
}

/// The length of the longest common prefix.
pub open spec fn parting(a: Seq<char>, b: Seq<char>) -> nat {
    parting_from(a, b, 0)
}

/// Whether `a` comes strictly before `b`.
pub open spec fn precedes(a: Seq<char>, b: Seq<char>) -> bool {
    let k = parting(a, b) as int;
    if k < a.len() && k < b.len() {
        (a[k] as int) < (b[k] as int)
    } else {
        a.len() < b.len()
    }
}

proof fn lemma_parting_from(a: Seq<char>, b: Seq<char>, from: nat)
    requires
        from <= a.len(),
        from <= b.len(),
        forall|i: int| 0 <= i < from ==> a[i] == b[i],
    ensures
        ({
            let k = parting_from(a, b, from) as int;
            &&& from <= k <= a.len()
            &&& k <= b.len()
            &&& forall|i: int| 0 <= i < k ==> a[i] == b[i]
            &&& (k < a.len() && k < b.len() ==> a[k] != b[k])
        }),
    decreases a.len() - from,
{
    if from < a.len() && from < b.len() && a[from as int] == b[from as int] {
        lemma_parting_from(a, b, from + 1);
    }
}

pub proof fn lemma_parting(a: Seq<char>, b: Seq<char>)
    ensures
        ({
            let k = parting(a, b) as int;
            &&& 0 <= k <= a.len()
            &&& k <= b.len()
            &&& forall|i: int| 0 <= i < k ==> a[i] == b[i]
            &&& (k < a.len() && k < b.len() ==> a[k] != b[k])
        }),
{
    lemma_parting_from(a, b, 0);
}

proof fn lemma_parting_is(a: Seq<char>, b: Seq<char>, k: int)
    requires
        0 <= k <= a.len(),
        k <= b.len(),
        forall|i: int| 0 <= i < k ==> a[i] == b[i],
        k < a.len() && k < b.len() ==> a[k] != b[k],
    ensures
        parting(a, b) == k,
{
    lemma_parting(a, b);
    let m = parting(a, b) as int;
    if m < k {
        assert(a[m] == b[m]);
    }
    if k < m {
        assert(a[k] == b[k]);
    }
}

/// Of two different texts exactly one comes first.
pub proof fn lemma_precedes_total(a: Seq<char>, b: Seq<char>)
    ensures
        a == b <==> !precedes(a, b) && !precedes(b, a),
        !(precedes(a, b) && precedes(b, a)),
{
    lemma_parting(a, b);
    let k = parting(a, b) as int;
    lemma_parting_is(b, a, k);
    if a == b {
        lemma_parting_is(a, b, a.len() as int);
    } else if k == a.len() && k == b.len() {
        assert(a =~= b);
    } else if k < a.len() && k < b.len() {
        assert(a[k] != b[k]);
        assert(a[k] as int != b[k] as int);
    }
}

/// The order is transitive.
pub proof fn lemma_precedes_transitive(a: Seq<char>, b: Seq<char>, c: Seq<char>)
    requires
        precedes(a, b),
        precedes(b, c),
    ensures
        precedes(a, c),
{
    lemma_parting(a, b);
    lemma_parting(b, c);
    let i = parting(a, b) as int;
    let j = parting(b, c) as int;
    let k = if i < j { i } else { j };
    if k < a.len() && k < c.len() {
        if i < j {
            assert(b[i] == c[i]);
        } else if j < i {
            assert(a[j] == b[j]);
        }
    }
    lemma_parting_is(a, c, k);
}

/// Whether `a` comes strictly before `b`.
pub fn text_precedes(a: &str, b: &str) -> (before: bool)
    ensures
        before == precedes(a@, b@),
{
    let x = chars_of(a);
    let y = chars_of(b);
    let mut i: usize = 0;
    while i < x.len() && i < y.len() && x[i] == y[i]
        invariant
            i <= x.len(),
            i <= y.len(),
            x@ == a@,
            y@ == b@,
            forall|j: int| 0 <= j < i ==> x@[j] == y@[j],
        decreases x.len() - i,
    {
        i += 1;
    }
    proof {
        lemma_parting_is(a@, b@, i as int);
    }
    if i < x.len() && i < y.len() {
        x[i] < y[i]
    } else {
        x.len() < y.len()
    }
}

/// Of two texts the one comes first that has the lower character where they part, or that ends
/// there.
pub proof fn law_first_difference_decides(a: Seq<char>, b: Seq<char>, k: int)
    requires
        0 <= k <= a.len(),
        k <= b.len(),
        forall|i: int| 0 <= i < k ==> a[i] == b[i],
        k < a.len() && k < b.len() ==> a[k] != b[k],
    ensures
        k < a.len() && k < b.len() ==> (precedes(a, b) <==> (a[k] as int) < (b[k] as int)),
        k == a.len() || k == b.len() ==> (precedes(a, b) <==> a.len() < b.len()),
{
    lemma_parting_is(a, b, k);
}

} // verus!
