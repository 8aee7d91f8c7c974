//! Text as bytes: the case of ASCII letters, splitting UTF-8 text after an
//! ASCII prefix, and numbers written in decimal.

use vstd::prelude::*;
use vstd::string::*;
use vstd::utf8::*;

verus! {

/// An ASCII upper-case letter becomes its lower-case form; any other byte
/// stays as it is.
pub open spec fn fold_case(b: u8) -> u8 {
    if 'A' as u8 <= b && b <= 'Z' as u8 {
        (b + 0x20) as u8
    } else {
        b
    }
}

/// Folds the case of an ASCII letter.
pub fn lower(b: u8) -> (r: u8)
    ensures
        r == fold_case(b),
{
    if 'A' as u8 <= b && b <= 'Z' as u8 {
        b + 0x20
    } else {
        b
    }
}

/// `b` is an ASCII byte: in UTF-8 it is a whole character by itself.
pub open spec fn is_ascii_byte(b: u8) -> bool {
    b < 0x80
}

/// The first `k` bytes of `bytes` are ASCII.
pub open spec fn ascii_prefix(bytes: Seq<u8>, k: int) -> bool {
    &&& 0 <= k <= bytes.len()
    &&& forall|i: int| 0 <= i < k ==> is_ascii_byte(#[trigger] bytes[i])
}

/// In UTF-8 text a character begins right after an ASCII prefix.
pub proof fn lemma_ascii_prefix_is_boundary(bytes: Seq<u8>, k: int)
    requires
        valid_utf8(bytes),
        ascii_prefix(bytes, k),
    ensures
        is_char_boundary(bytes, k),
    decreases k,
{
    if k > 0 {
        assert(is_ascii_byte(bytes[0]));
        let rest = pop_first_scalar(bytes);
        assert(length_of_first_scalar(bytes) == 1);
        assert forall|i: int| 0 <= i < k - 1 implies is_ascii_byte(#[trigger] rest[i]) by {
            assert(rest[i] == bytes[i + 1]);
        }
        lemma_ascii_prefix_is_boundary(rest, k - 1);
    }
}

/// Splits `input` after its first `k` bytes, which are ASCII.
pub fn split_ascii_prefix<'a>(input: &'a str, k: usize) -> (r: (&'a str, &'a str))
    requires
        ascii_prefix(input.spec_bytes(), k as int),
    ensures
        r.0.spec_bytes() == input.spec_bytes().take(k as int),
        r.1.spec_bytes() == input.spec_bytes().skip(k as int),
{
    proof {
        encode_utf8_valid_utf8(input@);
        lemma_ascii_prefix_is_boundary(input.spec_bytes(), k as int);
    }
    input.split_at(k)
}

/// The bytes of a text that is ASCII throughout.
pub open spec fn ascii_bytes(text: Seq<char>) -> Seq<u8> {
    text.map_values(|c: char| c as u8)
}

/// The character for a decimal digit.
pub open spec fn digit_char(d: nat) -> char {
    ('0' as u8 + d) as char
}

/// The decimal digits of `n`, most significant first, with no leading
/// zero but for zero itself.
pub open spec fn decimal_digits(n: nat) -> Seq<char>
    decreases n,
{
    if n < 10 {
        seq![digit_char(n)]
    } else {
        decimal_digits(n / 10).push(digit_char(n % 10))
    }
}

fn digit_str(d: u64) -> (s: &'static str)
    requires
        d < 10,
    ensures
        s@ == seq![digit_char(d as nat)],
{
    proof {
        reveal_strlit("0");
        reveal_strlit("1");
        reveal_strlit("2");
        reveal_strlit("3");
        reveal_strlit("4");
        reveal_strlit("5");
        reveal_strlit("6");
        reveal_strlit("7");
        reveal_strlit("8");
        reveal_strlit("9");
    }
    let s = match d {
        0 => "0",
        1 => "1",
        2 => "2",
        3 => "3",
        4 => "4",
        5 => "5",
        6 => "6",
        7 => "7",
        8 => "8",
        _ => "9",
    };
    assert(s@ =~= seq![digit_char(d as nat)]);
    s
}

/// Writes `n` in decimal.
pub fn decimal(n: u64) -> (s: String)
    ensures
        s@ == decimal_digits(n as nat),
    decreases n,
{
    if n < 10 {
        digit_str(n).to_owned()
    } else {
        let mut s = decimal(n / 10);
        s.append(digit_str(n % 10));
        assert(s@ =~= decimal_digits(n as nat));
        s
    }
}

} // verus!
