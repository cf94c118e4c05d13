//! The code that a client shows and an administrator types: 100 random bits as
//! twenty characters in four groups, read back in any case and with the usual
//! confusions.
use vstd::arithmetic::div_mod::lemma_fundamental_div_mod_converse;
use vstd::prelude::*;

use crate::catalog::lemma_filter_step;
use crate::digest::random_bytes;
use crate::registry::{gives, DeviceError};
use crate::text::{chars_of, is_digit, text_of};

verus! {

/// The characters of a code: digits and upper-case letters without I, L, O and U.
pub open spec fn is_base32(c: char) -> bool {
    is_digit(c) || ('A' <= c <= 'Z' && c != 'I' && c != 'L' && c != 'O' && c != 'U')
}

/// The character of a value below 32.
pub open spec fn base32_char(v: int) -> char {
    if v < 10 {
        (48 + v) as char
    } else if v < 18 {
        (55 + v) as char
    } else if v < 20 {
        (56 + v) as char
    } else if v < 22 {
        (57 + v) as char
    } else if v < 27 {
        (58 + v) as char
    } else {
        (59 + v) as char
    }
}

/// Two to the power of `11 - shift`, for a shift below eight.
pub open spec fn window(shift: int) -> int {
    if shift == 0 {
        2048
    } else if shift == 1 {
        1024
    } else if shift == 2 {
        512
    } else if shift == 3 {
        256
    } else if shift == 4 {
        128
    } else if shift == 5 {
        64
    } else if shift == 6 {
        32
    } else {
        16
    }
}

/// The five bits of `bytes` from bit `5 * k` on, counted from the highest bit of the
/// first byte.
pub open spec fn five_bits(bytes: Seq<u8>, k: int) -> int {
    let i = 5 * k / 8;
    ((256 * bytes[i] + bytes[i + 1]) / window(5 * k % 8)) % 32
}

/// The twenty characters of a code.
pub open spec fn code_digits(bytes: Seq<u8>) -> Seq<char> {
    Seq::new(20, |k: int| base32_char(five_bits(bytes, k)))
}

/// The code as it is shown: four groups of five.
pub open spec fn code_text(bytes: Seq<u8>) -> Seq<char> {
    Seq::new(
        23,
        |p: int|
            if p % 6 == 5 {
                '-'
            } else {
                code_digits(bytes)[5 * (p / 6) + p % 6]
            },
    )
}

/// How a typed character is read.
pub open spec fn fold(c: char) -> char {
    let u = if 'a' <= c <= 'z' {
        (c as int - 32) as char
    } else {
        c
    };
    if u == 'O' {
        '0'
    } else if u == 'I' || u == 'L' {
        '1'
    } else {
        u
    }
}

/// What was typed, without hyphens and with each character read.
pub open spec fn folded(code: Seq<char>) -> Seq<char> {
    code.filter(|c: char| c != '-').map_values(|c: char| fold(c))
}

/// Twenty characters of the alphabet.
pub open spec fn code_ok(code: Seq<char>) -> bool {
    code.len() == 20 && forall|i: int| 0 <= i < 20 ==> is_base32(#[trigger] code[i])
}

fn base32(v: u8) -> (c: char)
    requires
        v < 32,
    ensures
        c == base32_char(v as int),
{
    if v < 10 {
        (48 + v) as char
    } else if v < 18 {
        (55 + v) as char
    } else if v < 20 {
        (56 + v) as char
    } else if v < 22 {
        (57 + v) as char
    } else if v < 27 {
        (58 + v) as char
    } else {
        (59 + v) as char
    }
}

fn digit_at(bytes: &Vec<u8>, k: usize) -> (c: char)
    requires
        bytes@.len() == 13,
        k < 20,
    ensures
        c == code_digits(bytes@)[k as int],
{
    let i: usize = 5 * k / 8;
    let shift: usize = 5 * k % 8;
    let word: u32 = 256 * (bytes[i] as u32) + bytes[i + 1] as u32;
    let divisor: u32 = if shift == 0 {
        2048
    } else if shift == 1 {
        1024
    } else if shift == 2 {
        512
    } else if shift == 3 {
        256
    } else if shift == 4 {
        128
    } else if shift == 5 {
        64
    } else if shift == 6 {
        32
    } else {
        16
    };
    let value: u32 = (word / divisor) % 32;
    assert(value as int == five_bits(bytes@, k as int));
    base32(value as u8)
}

/// The code of 13 random bytes.
pub fn pairing_code_of(bytes: &Vec<u8>) -> (code: String)
    requires
        bytes@.len() == 13,
    ensures
        code@ == code_text(bytes@),
{
    let ghost whole = code_text(bytes@);
    let mut text: Vec<char> = Vec::new();
    let mut p: usize = 0;
    while p < 23
        invariant
            p <= 23,
            bytes@.len() == 13,
            whole == code_text(bytes@),
            text@ == whole.take(p as int),
        decreases 23 - p,
    {
        if p % 6 == 5 {
            text.push('-');
        } else {
            let c = digit_at(bytes, 5 * (p / 6) + p % 6);
            text.push(c);
        }
        p += 1;
        assert(whole.take(p as int) =~= whole.take(p as int - 1).push(whole[p as int - 1]));
    }
    assert(whole.take(23) =~= whole);
    text_of(&text)
}

/// A fresh code. It opens nothing until an administrator has typed it in.
pub fn pairing_code() -> (result: Result<String, DeviceError>)
    ensures
        match result {
            Ok(code) => exists|bytes: Seq<u8>| bytes.len() == 13 && code@ == #[trigger] code_text(bytes),
            Err(e) => e == DeviceError::RandomSource,
        },
{
    match random_bytes(13) {
        Some(bytes) => {
            let code = pairing_code_of(&bytes);
            assert(code@ == code_text(bytes@));
            Ok(code)
        },
        None => Err(DeviceError::RandomSource),
    }
}

/// What was typed, as it is compared: without hyphens, in upper case, with O read as
/// zero and I and L as one.
pub fn normalize_pairing_code(code: &str) -> (result: Result<String, DeviceError>)
    ensures
        gives(
            result,
            if code_ok(folded(code@)) {
                None
            } else {
                Some(DeviceError::InvalidPairingCode)
            },
        ),
        result matches Ok(text) ==> text@ == folded(code@),
{
    let typed = chars_of(code);
    let ghost keep = |c: char| c != '-';
    let ghost read = |c: char| fold(c);
    let mut text: Vec<char> = Vec::new();
    let mut ok = true;
    let mut i: usize = 0;
    proof {
        reveal(Seq::filter);
        assert(text@ =~= code@.take(0).filter(keep).map_values(read));
    }
    while i < typed.len()
        invariant
            i <= typed.len(),
            typed@ == code@,
            keep == (|c: char| c != '-'),
            read == (|c: char| fold(c)),
            text@ == code@.take(i as int).filter(keep).map_values(read),
            ok == forall|j: int| 0 <= j < text@.len() ==> is_base32(#[trigger] text@[j]),
        decreases typed.len() - i,
    {
        let c = typed[i];
        let ghost before = code@.take(i as int).filter(keep);
        let ghost old_text = text@;
        proof {
            lemma_filter_step(code@, i as int, keep);
        }
        if c != '-' {
            let upper: char = if 'a' <= c && c <= 'z' {
                ((c as u8) - 32) as char
            } else {
                c
            };
            let r: char = if upper == 'O' {
                '0'
            } else if upper == 'I' || upper == 'L' {
                '1'
            } else {
                upper
            };
            assert(r == fold(c));
            if !(('0' <= r && r <= '9') || ('A' <= r && r <= 'Z' && r != 'I' && r != 'L' && r != 'O'
                && r != 'U')) {
                ok = false;
            }
            text.push(r);
            assert(before.push(c).map_values(read) =~= before.map_values(read).push(r));
            proof {
                assert(text@.last() == r);
                if ok {
                    assert forall|j: int| 0 <= j < text@.len() implies is_base32(
                        #[trigger] text@[j],
                    ) by {
                        if j < old_text.len() {
                            assert(old_text[j] == text@[j]);
                        }
                    }
                } else if is_base32(r) {
                    let j = choose|j: int| 0 <= j < old_text.len() && !is_base32(
                        #[trigger] old_text[j],
                    );
                    assert(!is_base32(text@[j]));
                }
            }
        }
        i += 1;
    }
    assert(code@.take(code@.len() as int) =~= code@);
    if text.len() != 20 || !ok {
        return Err(DeviceError::InvalidPairingCode);
    }
    Ok(text_of(&text))
}

proof fn lemma_code_prefix(bytes: Seq<u8>, p: int)
    requires
        bytes.len() == 13,
        0 <= p <= 23,
    ensures
        code_text(bytes).take(p).filter(|c: char| c != '-') == code_digits(bytes).take(p - p / 6),
    decreases p,
{
    let text = code_text(bytes);
    let digits = code_digits(bytes);
    let keep = |c: char| c != '-';
    if p == 0 {
        reveal(Seq::filter);
        assert(text.take(0).filter(keep) =~= digits.take(0));
    } else {
        lemma_code_prefix(bytes, p - 1);
        lemma_filter_step(text, p - 1, keep);
        let q = p - 1;
        if q % 6 == 5 {
            assert(p - p / 6 == q - q / 6);
        } else {
            assert(p - p / 6 == q - q / 6 + 1);
            let k = 5 * (q / 6) + q % 6;
            assert(q - q / 6 == k);
            lemma_base32_char(five_bits(bytes, k));
            assert(text[q] == digits[k]);
            assert(digits.take(k + 1) =~= digits.take(k).push(digits[k]));
        }
    }
}

proof fn lemma_base32_char(v: int)
    requires
        0 <= v < 32,
    ensures
        is_base32(base32_char(v)),
        fold(base32_char(v)) == base32_char(v),
        base32_char(v) != '-',
{
}

proof fn lemma_five_bits(bytes: Seq<u8>, k: int)
    ensures
        0 <= five_bits(bytes, k) < 32,
{
}

/// Every code that is shown is accepted when it is typed as shown, and is read as its
/// twenty characters.
pub proof fn law_shown_code_is_accepted(bytes: Seq<u8>)
    requires
        bytes.len() == 13,
    ensures
        folded(code_text(bytes)) == code_digits(bytes),
        code_ok(folded(code_text(bytes))),
{
    lemma_code_prefix(bytes, 23);
    let text = code_text(bytes);
    let digits = code_digits(bytes);
    assert(text.take(23) =~= text);
    assert(digits.take(20) =~= digits);
    assert forall|k: int| 0 <= k < 20 implies fold(#[trigger] digits[k]) == digits[k] && is_base32(
        digits[k],
    ) by {
        lemma_five_bits(bytes, k);
        lemma_base32_char(five_bits(bytes, k));
    }
    assert(folded(text) =~= digits);
}

/// Reading a code twice is reading it once.
pub proof fn law_folding_twice_changes_nothing(code: Seq<char>)
    requires
        code_ok(folded(code)),
    ensures
        folded(folded(code)) == folded(code),
{
    let text = folded(code);
    let keep = |c: char| c != '-';
    assert forall|i: int| 0 <= i < text.len() implies keep(#[trigger] text[i]) by {
        assert(is_base32(text[i]));
    }
    crate::catalog::lemma_filter_all(text, keep);
    assert(folded(text) =~= text);
}

/// Case does not matter, nor the letters that look like digits.
pub proof fn law_look_alikes_are_read_alike(c: char)
    ensures
        'A' <= c <= 'Z' ==> fold((c as int + 32) as char) == fold(c),
        fold('o') == '0' && fold('O') == '0',
        fold('i') == '1' && fold('I') == '1',
        fold('l') == '1' && fold('L') == '1',
{
}

/// Hyphens do not matter, wherever they stand.
pub proof fn law_hyphens_are_ignored(a: Seq<char>, b: Seq<char>)
    ensures
        folded(a + seq!['-'] + b) == folded(a + b),
{
    let keep = |c: char| c != '-';
    lemma_filter_join(a + seq!['-'], b, keep);
    lemma_filter_join(a, seq!['-'], keep);
    lemma_filter_join(a, b, keep);
    let hyphen = seq!['-'];
    lemma_filter_step(hyphen, 0, keep);
    assert(hyphen.take(1) =~= hyphen);
    assert(hyphen.take(0).filter(keep) =~= Seq::<char>::empty()) by {
        reveal(Seq::filter);
    }
    assert(hyphen.filter(keep) =~= Seq::<char>::empty());
    assert(a.filter(keep) + Seq::<char>::empty() =~= a.filter(keep));
}

proof fn lemma_filter_join(a: Seq<char>, b: Seq<char>, keep: spec_fn(char) -> bool)
    ensures
        (a + b).filter(keep) == a.filter(keep) + b.filter(keep),
    decreases b.len(),
{
    reveal(Seq::filter);
    if b.len() == 0 {
        assert(a + b =~= a);
        assert(a.filter(keep) + b.filter(keep) =~= a.filter(keep));
    } else {
        lemma_filter_join(a, b.drop_last(), keep);
        assert((a + b).drop_last() =~= a + b.drop_last());
        assert((a + b).last() == b.last());
        assert((a + b).filter(keep) =~= a.filter(keep) + b.filter(keep));
    }
}

/// A code is 20 characters of an alphabet of 32: the digits, and the capital letters without
/// I, L, O and U.
pub proof fn law_code_has_20_characters(code: Seq<char>, i: int)
    requires
        code_ok(code),
        0 <= i < 20,
    ensures
        code.len() == 20,
        ('0' <= code[i] <= '9') || ('A' <= code[i] <= 'Z'),
        code[i] != 'I' && code[i] != 'L' && code[i] != 'O' && code[i] != 'U',
{
    assert(is_base32(code[i]));
}

/// Twenty characters of that alphabet are a code.
pub proof fn law_characters_make_a_code(code: Seq<char>)
    requires
        code.len() == 20,
        forall|i: int|
            0 <= i < 20 ==> (('0' <= #[trigger] code[i] <= '9') || ('A' <= code[i] <= 'Z' && code[i]
                != 'I' && code[i] != 'L' && code[i] != 'O' && code[i] != 'U')),
    ensures
        code_ok(code),
{
    assert forall|i: int| 0 <= i < 20 implies is_base32(#[trigger] code[i]) by {
        assert(('0' <= code[i] <= '9') || ('A' <= code[i] <= 'Z'));
    }
}

/// Each of the 32 values has a character of its own, in the order of the alphabet.
pub proof fn law_characters_stand_in_order(v: int, w: int)
    requires
        0 <= v < w < 32,
    ensures
        base32_char(v) < base32_char(w),
        is_base32(base32_char(v)),
        is_base32(base32_char(w)),
        v < 10 ==> base32_char(v) as int == '0' as int + v,
{
}

/// The bits of one character in the block of five bytes that it belongs to.
proof fn lemma_block(bytes: Seq<u8>, j: int)
    requires
        0 <= j,
    ensures
        five_bits(bytes, 8 * j) == (256 * bytes[5 * j] + bytes[5 * j + 1]) / 2048 % 32,
        five_bits(bytes, 8 * j + 1) == (256 * bytes[5 * j] + bytes[5 * j + 1]) / 64 % 32,
        five_bits(bytes, 8 * j + 2) == (256 * bytes[5 * j + 1] + bytes[5 * j + 2]) / 512 % 32,
        five_bits(bytes, 8 * j + 3) == (256 * bytes[5 * j + 1] + bytes[5 * j + 2]) / 16 % 32,
        five_bits(bytes, 8 * j + 4) == (256 * bytes[5 * j + 2] + bytes[5 * j + 3]) / 128 % 32,
        five_bits(bytes, 8 * j + 5) == (256 * bytes[5 * j + 3] + bytes[5 * j + 4]) / 1024 % 32,
        five_bits(bytes, 8 * j + 6) == (256 * bytes[5 * j + 3] + bytes[5 * j + 4]) / 32 % 32,
        five_bits(bytes, 8 * j + 7) == (256 * bytes[5 * j + 4] + bytes[5 * j + 5]) / 256 % 32,
{
    assert(5 * (8 * j) / 8 == 5 * j && 5 * (8 * j) % 8 == 0);
    assert(5 * (8 * j + 1) / 8 == 5 * j && 5 * (8 * j + 1) % 8 == 5);
    assert(5 * (8 * j + 2) / 8 == 5 * j + 1 && 5 * (8 * j + 2) % 8 == 2);
    assert(5 * (8 * j + 3) / 8 == 5 * j + 1 && 5 * (8 * j + 3) % 8 == 7);
    assert(5 * (8 * j + 4) / 8 == 5 * j + 2 && 5 * (8 * j + 4) % 8 == 4);
    assert(5 * (8 * j + 5) / 8 == 5 * j + 3 && 5 * (8 * j + 5) % 8 == 1);
    assert(5 * (8 * j + 6) / 8 == 5 * j + 3 && 5 * (8 * j + 6) % 8 == 6);
    assert(5 * (8 * j + 7) / 8 == 5 * j + 4 && 5 * (8 * j + 7) % 8 == 3);
}

/// Eight characters of five bits each spell five bytes, the highest bits first, so that the code
/// gives the bytes back. The code spells twelve bytes and the higher half of the last one.
pub proof fn law_code_spells_the_bytes(bytes: Seq<u8>, j: int)
    requires
        bytes.len() == 13,
        0 <= j < 2,
    ensures
        bytes[5 * j] == 8 * five_bits(bytes, 8 * j) + five_bits(bytes, 8 * j + 1) / 4,
        bytes[5 * j + 1] == 64 * (five_bits(bytes, 8 * j + 1) % 4) + 2 * five_bits(bytes, 8 * j + 2)
            + five_bits(bytes, 8 * j + 3) / 16,
        bytes[5 * j + 2] == 16 * (five_bits(bytes, 8 * j + 3) % 16) + five_bits(bytes, 8 * j + 4)
            / 2,
        bytes[5 * j + 3] == 128 * (five_bits(bytes, 8 * j + 4) % 2) + 4 * five_bits(
            bytes,
            8 * j + 5,
        ) + five_bits(bytes, 8 * j + 6) / 8,
        bytes[5 * j + 4] == 32 * (five_bits(bytes, 8 * j + 6) % 8) + five_bits(bytes, 8 * j + 7),
        bytes[10] == 8 * five_bits(bytes, 16) + five_bits(bytes, 17) / 4,
        bytes[11] == 64 * (five_bits(bytes, 17) % 4) + 2 * five_bits(bytes, 18) + five_bits(
            bytes,
            19,
        ) / 16,
        bytes[12] / 16 == five_bits(bytes, 19) % 16,
{
    lemma_block(bytes, j);
    lemma_spelled(
        bytes[5 * j],
        bytes[5 * j + 1],
        bytes[5 * j + 2],
        bytes[5 * j + 3],
        bytes[5 * j + 4],
        bytes[5 * j + 5],
    );
    lemma_block(bytes, 2);
    lemma_spelled(bytes[10], bytes[11], bytes[12], 0, 0, 0);
}

proof fn lemma_cut_128(a: int, b: int)
    requires
        0 <= a < 256,
        0 <= b < 256,
    ensures
        (256 * a + b) / 128 % 32 == 2 * (a % 16) + b / 128,
        0 <= b / 128 < 2,
        0 <= a % 16 < 16,
        (2 * (a % 16) + b / 128) / 2 == a % 16,
        (2 * (a % 16) + b / 128) % 2 == b / 128,
{
    let q = 2 * a + b / 128;
    lemma_fundamental_div_mod_converse(256 * a + b, 128, q, b % 128);
    lemma_fundamental_div_mod_converse(q, 32, a / 16, 2 * (a % 16) + b / 128);
    lemma_fundamental_div_mod_converse(
        2 * (a % 16) + b / 128,
        2,
        a % 16,
        b / 128,
    );
}

proof fn lemma_cut_64(a: int, b: int)
    requires
        0 <= a < 256,
        0 <= b < 256,
    ensures
        (256 * a + b) / 64 % 32 == 4 * (a % 8) + b / 64,
        0 <= b / 64 < 4,
        0 <= a % 8 < 8,
        (4 * (a % 8) + b / 64) / 4 == a % 8,
        (4 * (a % 8) + b / 64) % 4 == b / 64,
{
    let q = 4 * a + b / 64;
    lemma_fundamental_div_mod_converse(256 * a + b, 64, q, b % 64);
    lemma_fundamental_div_mod_converse(q, 32, a / 8, 4 * (a % 8) + b / 64);
    lemma_fundamental_div_mod_converse(
        4 * (a % 8) + b / 64,
        4,
        a % 8,
        b / 64,
    );
}

proof fn lemma_cut_32(a: int, b: int)
    requires
        0 <= a < 256,
        0 <= b < 256,
    ensures
        (256 * a + b) / 32 % 32 == 8 * (a % 4) + b / 32,
        0 <= b / 32 < 8,
        0 <= a % 4 < 4,
        (8 * (a % 4) + b / 32) / 8 == a % 4,
        (8 * (a % 4) + b / 32) % 8 == b / 32,
{
    let q = 8 * a + b / 32;
    lemma_fundamental_div_mod_converse(256 * a + b, 32, q, b % 32);
    lemma_fundamental_div_mod_converse(q, 32, a / 4, 8 * (a % 4) + b / 32);
    lemma_fundamental_div_mod_converse(
        8 * (a % 4) + b / 32,
        8,
        a % 4,
        b / 32,
    );
}

proof fn lemma_cut_16(a: int, b: int)
    requires
        0 <= a < 256,
        0 <= b < 256,
    ensures
        (256 * a + b) / 16 % 32 == 16 * (a % 2) + b / 16,
        0 <= b / 16 < 16,
        0 <= a % 2 < 2,
        (16 * (a % 2) + b / 16) / 16 == a % 2,
        (16 * (a % 2) + b / 16) % 16 == b / 16,
{
    let q = 16 * a + b / 16;
    lemma_fundamental_div_mod_converse(256 * a + b, 16, q, b % 16);
    lemma_fundamental_div_mod_converse(q, 32, a / 2, 16 * (a % 2) + b / 16);
    lemma_fundamental_div_mod_converse(
        16 * (a % 2) + b / 16,
        16,
        a % 2,
        b / 16,
    );
}

proof fn lemma_cut_high(a: int, b: int)
    requires
        0 <= a < 256,
        0 <= b < 256,
    ensures
        (256 * a + b) / 2048 % 32 == a / 8,
        (256 * a + b) / 1024 % 32 == a / 4 % 32,
        (256 * a + b) / 512 % 32 == a / 2 % 32,
        (256 * a + b) / 256 % 32 == a % 32,
{
    lemma_fundamental_div_mod_converse(256 * a + b, 2048, a / 8, 256 * (a % 8) + b);
    lemma_fundamental_div_mod_converse(256 * a + b, 1024, a / 4, 256 * (a % 4) + b);
    lemma_fundamental_div_mod_converse(256 * a + b, 512, a / 2, 256 * (a % 2) + b);
    lemma_fundamental_div_mod_converse(256 * a + b, 256, a, b);
}

proof fn lemma_joined(a: int)
    requires
        0 <= a < 256,
    ensures
        a == 8 * (a / 8) + a % 8,
        a == 64 * (a / 64) + 2 * (a / 2 % 32) + a % 2,
        a == 16 * (a / 16) + a % 16,
        a == 128 * (a / 128) + 4 * (a / 4 % 32) + a % 4,
        a == 32 * (a / 32) + a % 32,
{
    lemma_fundamental_div_mod_converse(a / 2, 32, a / 64, (a % 64) / 2);
    lemma_fundamental_div_mod_converse(a / 4, 32, a / 128, (a % 128) / 4);
}

proof fn lemma_spelled(a: u8, b: u8, c: u8, d: u8, e: u8, f: u8)
    ensures
        a == 8 * ((256 * a + b) / 2048 % 32) + (256 * a + b) / 64 % 32 / 4,
        b == 64 * ((256 * a + b) / 64 % 32 % 4) + 2 * ((256 * b + c) / 512 % 32) + (256 * b + c)
            / 16 % 32 / 16,
        c == 16 * ((256 * b + c) / 16 % 32 % 16) + (256 * c + d) / 128 % 32 / 2,
        d == 128 * ((256 * c + d) / 128 % 32 % 2) + 4 * ((256 * d + e) / 1024 % 32) + (256 * d + e)
            / 32 % 32 / 8,
        e == 32 * ((256 * d + e) / 32 % 32 % 8) + (256 * e + f) / 256 % 32,
        c / 16 == (256 * b + c) / 16 % 32 % 16,
{
    lemma_cut_64(a as int, b as int);
    lemma_cut_16(b as int, c as int);
    lemma_cut_128(c as int, d as int);
    lemma_cut_32(d as int, e as int);
    lemma_cut_high(a as int, b as int);
    lemma_cut_high(b as int, c as int);
    lemma_cut_high(d as int, e as int);
    lemma_cut_high(e as int, f as int);
    lemma_joined(a as int);
    lemma_joined(b as int);
    lemma_joined(c as int);
    lemma_joined(d as int);
    lemma_joined(e as int);
}

/// What is shown are the characters in groups of five, with hyphens between them.
pub proof fn law_code_is_shown_in_groups(bytes: Seq<u8>, i: int)
    requires
        0 <= i < 20,
    ensures
        code_text(bytes).len() == 23,
        code_text(bytes)[5] == '-' && code_text(bytes)[11] == '-' && code_text(bytes)[17] == '-',
        code_text(bytes)[i + i / 5] == code_digits(bytes)[i],
        code_digits(bytes)[i] == base32_char(five_bits(bytes, i)),
{
    let p = i + i / 5;
    assert(p % 6 == i % 5 && p / 6 == i / 5);
}

/// What is not a letter, and a letter that is in the alphabet, is read as it stands.
pub proof fn law_other_characters_stay(c: char)
    requires
        !('a' <= c <= 'z'),
        c != 'O' && c != 'I' && c != 'L',
    ensures
        fold(c) == c,
{
}

} // verus!
