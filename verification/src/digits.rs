//! Digit runs: the digits of a numeric literal, with the grouping character
//! `_` allowed anywhere after the first digit.
//!
//! Text is read as bytes. A run is ASCII throughout, so in UTF-8 text no byte
//! of a run is part of a longer character.

use vstd::prelude::*;

verus! {

/// The base in which a digit run is written.
#[derive(Debug, Clone, Copy, PartialEq, Eq, Structural)]
pub enum Radix {
    Decimal,
    Hex,
}

impl Radix {
    pub open spec fn base(self) -> nat {
        match self {
            Radix::Decimal => 10,
            Radix::Hex => 16,
        }
    }
}

/// The grouping character: it may stand between digits and counts for
/// nothing.
pub open spec fn is_grouping(b: u8) -> bool {
    b == '_' as u8
}

/// `b` is a digit of the base; hex digits may be in either case.
pub open spec fn is_digit(b: u8, radix: Radix) -> bool {
    ||| '0' as u8 <= b <= '9' as u8
    ||| radix == Radix::Hex && 'a' as u8 <= b <= 'f' as u8
    ||| radix == Radix::Hex && 'A' as u8 <= b <= 'F' as u8
}

/// What a digit counts for. Anything but a digit counts for nothing.
pub open spec fn digit_value(b: u8) -> nat {
    if '0' as u8 <= b <= '9' as u8 {
        (b - '0' as u8) as nat
    } else if 'a' as u8 <= b <= 'f' as u8 {
        (b - 'a' as u8 + 10) as nat
    } else if 'A' as u8 <= b <= 'F' as u8 {
        (b - 'A' as u8 + 10) as nat
    } else {
        0
    }
}

/// `b` may stand inside a digit run.
pub open spec fn in_run(b: u8, radix: Radix) -> bool {
    is_digit(b, radix) || is_grouping(b)
}

/// The number that a sequence of digits denotes in positional notation,
/// most significant digit first.
pub open spec fn positional(digits: Seq<u8>, radix: Radix) -> nat
    decreases digits.len(),
{
    if digits.len() == 0 {
        0
    } else {
        positional(digits.drop_last(), radix) * radix.base() + digit_value(digits.last())
    }
}

/// The run without its grouping characters.
pub open spec fn strip(run: Seq<u8>) -> Seq<u8> {
    run.filter(|b: u8| !is_grouping(b))
}

/// The number that a digit run denotes: that of its digits, grouping
/// characters left out.
pub open spec fn run_value(run: Seq<u8>, radix: Radix) -> nat {
    positional(strip(run), radix)
}

/// `run` is a digit run: a digit, then digits and grouping characters in
/// any order and number.
pub open spec fn is_run(run: Seq<u8>, radix: Radix) -> bool {
    &&& run.len() > 0
    &&& is_digit(run[0], radix)
    &&& forall|i: int| 0 <= i < run.len() ==> in_run(#[trigger] run[i], radix)
}

/// How many bytes at the head of `text` may stand inside a digit run.
pub open spec fn body_len(text: Seq<u8>, radix: Radix) -> nat
    decreases text.len(),
{
    if text.len() > 0 && in_run(text[0], radix) {
        1 + body_len(text.skip(1), radix)
    } else {
        0
    }
}

/// The length of the longest digit run at the head of `text`; zero where
/// `text` does not begin with a digit.
pub open spec fn run_len(text: Seq<u8>, radix: Radix) -> nat {
    if text.len() > 0 && is_digit(text[0], radix) {
        body_len(text, radix)
    } else {
        0
    }
}

/// `value` as a `u64`, where it is one.
pub open spec fn fit(value: nat) -> Option<u64> {
    if value <= u64::MAX {
        Some(value as u64)
    } else {
        None
    }
}

/// A grouping character at the end of a run changes nothing; a digit
/// shifts the value by one place and adds its own.
pub proof fn lemma_run_value_push(run: Seq<u8>, b: u8, radix: Radix)
    ensures
        is_grouping(b) ==> run_value(run.push(b), radix) == run_value(run, radix),
        !is_grouping(b) ==> run_value(run.push(b), radix) == run_value(run, radix) * radix.base()
            + digit_value(b),
{
    let longer = run.push(b);
    run.lemma_filter_push(b, |b: u8| !is_grouping(b));
    if !is_grouping(b) {
        assert(strip(longer).drop_last() =~= strip(run));
    }
}

/// The bytes counted by `body_len` may all stand inside a run, and the byte
/// after them, if there is one, may not.
pub proof fn lemma_body_len(text: Seq<u8>, radix: Radix)
    ensures
        body_len(text, radix) <= text.len(),
        forall|i: int| 0 <= i < body_len(text, radix) ==> in_run(#[trigger] text[i], radix),
        body_len(text, radix) < text.len() ==> !in_run(text[body_len(text, radix) as int], radix),
    decreases text.len(),
{
    if text.len() > 0 && in_run(text[0], radix) {
        let rest = text.skip(1);
        lemma_body_len(rest, radix);
        assert forall|i: int| 0 <= i < body_len(text, radix) implies in_run(
            #[trigger] text[i],
            radix,
        ) by {
            if i > 0 {
                assert(text[i] == rest[i - 1]);
            }
        }
        if body_len(text, radix) < text.len() {
            assert(text[body_len(text, radix) as int] == rest[body_len(rest, radix) as int]);
        }
    }
}

/// The longest run at the head of `text` is a run, unless it is empty, and
/// cannot be made longer.
pub proof fn lemma_run_len(text: Seq<u8>, radix: Radix)
    ensures
        run_len(text, radix) <= text.len(),
        run_len(text, radix) > 0 ==> is_run(text.take(run_len(text, radix) as int), radix),
        run_len(text, radix) == 0 ==> text.len() == 0 || !is_digit(text[0], radix),
        0 < run_len(text, radix) < text.len() ==> !in_run(
            text[run_len(text, radix) as int],
            radix,
        ),
{
    lemma_body_len(text, radix);
}

fn is_digit_byte(b: u8, radix: Radix) -> (r: bool)
    ensures
        r == is_digit(b, radix),
{
    let decimal = '0' as u8 <= b && b <= '9' as u8;
    let lower = 'a' as u8 <= b && b <= 'f' as u8;
    let upper = 'A' as u8 <= b && b <= 'F' as u8;
    match radix {
        Radix::Decimal => decimal,
        Radix::Hex => decimal || lower || upper,
    }
}

fn digit_of(b: u8, radix: Radix) -> (d: u64)
    requires
        is_digit(b, radix),
    ensures
        d == digit_value(b),
        d < radix.base(),
{
    if '0' as u8 <= b && b <= '9' as u8 {
        (b - '0' as u8) as u64
    } else if 'a' as u8 <= b && b <= 'f' as u8 {
        (b - 'a' as u8) as u64 + 10
    } else {
        (b - 'A' as u8) as u64 + 10
    }
}

/// Reads the longest digit run that begins at `from`. Returns where it ends
/// and the number it denotes, or `None` for a number that does not fit in 64
/// bits. Where no run begins at `from`, the end is `from` itself.
pub fn scan_run(text: &[u8], from: usize, radix: Radix) -> (r: (usize, Option<u64>))
    requires
        from <= text@.len(),
    ensures
        r.0 == from + run_len(text@.skip(from as int), radix),
        r.0 <= text@.len(),
        r.1 == fit(run_value(text@.subrange(from as int, r.0 as int), radix)),
{
    let n = text.len();
    let ghost tail = text@.skip(from as int);
    if from >= n || !is_digit_byte(text[from], radix) {
        proof {
            if from < n {
                assert(tail[0] == text@[from as int]);
            }
            assert(text@.subrange(from as int, from as int) =~= Seq::<u8>::empty());
            assert(strip(Seq::<u8>::empty()) =~= Seq::<u8>::empty());
        }
        return (from, Some(0));
    }
    let base: u64 = match radix {
        Radix::Decimal => 10,
        Radix::Hex => 16,
    };
    let mut i = from;
    let mut acc: u64 = 0;
    let mut fits = true;
    proof {
        assert(text@.skip(i as int) =~= tail);
        assert(text@.subrange(from as int, i as int) =~= Seq::<u8>::empty());
        assert(strip(Seq::<u8>::empty()) =~= Seq::<u8>::empty());
        assert(tail[0] == text@[from as int]);
    }
    while i < n && (is_digit_byte(text[i], radix) || text[i] == '_' as u8)
        invariant
            from <= i <= n,
            n == text@.len(),
            base == radix.base(),
            body_len(tail, radix) == (i - from) + body_len(text@.skip(i as int), radix),
            fits ==> acc == run_value(text@.subrange(from as int, i as int), radix),
            !fits ==> run_value(text@.subrange(from as int, i as int), radix) > u64::MAX,
        decreases n - i,
    {
        let b = text[i];
        let ghost seen = text@.subrange(from as int, i as int);
        let ghost before = run_value(seen, radix);
        proof {
            lemma_run_value_push(seen, b, radix);
            assert(text@.subrange(from as int, i + 1) =~= seen.push(b));
            assert(text@.skip(i as int)[0] == b);
            assert(text@.skip(i as int).skip(1) =~= text@.skip(i + 1));
            assert(before * base >= before) by (nonlinear_arith)
                requires
                    base >= 1,
            ;
        }
        if b != '_' as u8 {
            let d = digit_of(b, radix);
            if fits {
                match acc.checked_mul(base) {
                    Some(shifted) => match shifted.checked_add(d) {
                        Some(v) => {
                            acc = v;
                        },
                        None => {
                            fits = false;
                        },
                    },
                    None => {
                        fits = false;
                    },
                }
            }
        }
        i += 1;
    }
    proof {
        if i < n {
            assert(text@.skip(i as int)[0] == text@[i as int]);
        }
        assert(body_len(text@.skip(i as int), radix) == 0);
    }
    if fits {
        (i, Some(acc))
    } else {
        (i, None)
    }
}

} // verus!
