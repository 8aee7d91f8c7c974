//! What the readers of `range` make of each form of range expression,
//! stated for every literal.

use crate::digits::{
    body_len, in_run, is_digit, is_grouping, is_run, positional, run_len, run_value, strip, Radix,
};
use crate::range::{
    has_hex_prefix, hex_len, number_len, number_value, pieces_of, separator, Range, RangeFault,
    RangePieces, Side,
};
use crate::text::{ascii_bytes, decimal_digits, digit_char, fold_case};
use vstd::prelude::*;

verus! {

/// `text` is a numeric literal from its first byte to its last: a decimal
/// digit run, or `0x` or `0X` and a hex digit run.
pub open spec fn is_literal(text: Seq<u8>) -> bool {
    is_run(text, Radix::Decimal) || (has_hex_prefix(text) && is_run(text.skip(2), Radix::Hex))
}

/// The number that the literal `text` denotes: the standard conversion of
/// its digits in base 10 or 16, grouping characters left out.
pub open spec fn literal_value(text: Seq<u8>) -> nat {
    if has_hex_prefix(text) {
        positional(strip(text.skip(2)), Radix::Hex)
    } else {
        positional(strip(text), Radix::Decimal)
    }
}

/// A literal that is left out is written as the empty text.
pub open spec fn literal_or_nothing(text: Seq<u8>) -> bool {
    text.len() == 0 || is_literal(text)
}

/// What the parts of an expression hold for the literal `text`, where it
/// fits in 64 bits.
pub open spec fn piece(text: Seq<u8>) -> Option<u64> {
    if text.len() == 0 {
        None
    } else {
        Some(literal_value(text) as u64)
    }
}

/// The text that follows a literal cannot be taken for more of it: there
/// is none, or it begins with a separator.
pub open spec fn ends_literal(rest: Seq<u8>) -> bool {
    rest.len() == 0 || separator(rest[0]) is Some
}

proof fn lemma_body_len_before(run: Seq<u8>, rest: Seq<u8>, radix: Radix)
    requires
        forall|i: int| 0 <= i < run.len() ==> in_run(#[trigger] run[i], radix),
        rest.len() == 0 || !in_run(rest[0], radix),
    ensures
        body_len(run + rest, radix) == run.len(),
    decreases run.len(),
{
    let text = run + rest;
    if run.len() == 0 {
        assert(text =~= rest);
    } else {
        assert(text[0] == run[0]);
        let shorter = run.skip(1);
        assert(text.skip(1) =~= shorter + rest);
        assert forall|i: int| 0 <= i < shorter.len() implies in_run(
            #[trigger] shorter[i],
            radix,
        ) by {
            assert(shorter[i] == run[i + 1]);
        }
        lemma_body_len_before(shorter, rest, radix);
    }
}

/// A digit run is read whole, whatever follows it that is no part of a
/// run.
pub proof fn lemma_run_before(run: Seq<u8>, rest: Seq<u8>, radix: Radix)
    requires
        is_run(run, radix),
        rest.len() == 0 || !in_run(rest[0], radix),
    ensures
        run_len(run + rest, radix) == run.len(),
{
    lemma_body_len_before(run, rest, radix);
    assert((run + rest)[0] == run[0]);
}

/// A literal is read whole where the text ends after it or goes on with a
/// separator, and denotes what its digits say.
pub proof fn law_literal_is_read_whole(literal: Seq<u8>, rest: Seq<u8>)
    requires
        is_literal(literal),
        ends_literal(rest),
    ensures
        number_len(literal + rest) == literal.len(),
        number_value(literal + rest) == literal_value(literal),
{
    let text = literal + rest;
    if has_hex_prefix(literal) && is_run(literal.skip(2), Radix::Hex) {
        let run = literal.skip(2);
        assert(text[0] == literal[0] && text[1] == literal[1]);
        assert(text.skip(2) =~= run + rest);
        lemma_run_before(run, rest, Radix::Hex);
        assert(text.subrange(2, literal.len() as int) =~= run);
    } else {
        assert(is_run(literal, Radix::Decimal));
        assert(text[0] == literal[0]);
        if literal.len() >= 2 {
            assert(text[1] == literal[1]);
            assert(in_run(literal[1], Radix::Decimal));
        } else if rest.len() > 0 {
            assert(text[1] == rest[0]);
        }
        assert(!has_hex_prefix(text));
        assert(!has_hex_prefix(literal));
        lemma_run_before(literal, rest, Radix::Decimal);
        assert(text.take(literal.len() as int) =~= literal);
    }
}

/// What is read at the head of a text is a literal, and is given the value
/// that its digits say.
pub proof fn law_what_is_read_is_a_literal(text: Seq<u8>)
    requires
        number_len(text) > 0,
    ensures
        number_len(text) <= text.len(),
        is_literal(text.take(number_len(text) as int)),
        literal_value(text.take(number_len(text) as int)) == number_value(text),
{
    crate::range::lemma_number_len(text);
    let head = text.take(number_len(text) as int);
    if hex_len(text) > 0 {
        let tail = text.skip(2);
        crate::digits::lemma_run_len(tail, Radix::Hex);
        assert(head[0] == text[0] && head[1] == text[1]);
        assert(head.skip(2) =~= tail.take(run_len(tail, Radix::Hex) as int));
        assert(head.skip(2) =~= text.subrange(2, hex_len(text) as int));
    } else {
        crate::digits::lemma_run_len(text, Radix::Decimal);
        assert(is_run(head, Radix::Decimal));
        assert(head[0] == text[0]);
        if head.len() >= 2 {
            assert(in_run(head[1], Radix::Decimal));
        }
        assert(!has_hex_prefix(head));
    }
}

/// A decimal digit string is a literal, and denotes the number that the
/// standard base-10 conversion gives for its digits once the grouping
/// characters are taken out.
pub proof fn law_decimal_conversion(digits: Seq<u8>)
    requires
        is_run(digits, Radix::Decimal),
    ensures
        number_len(digits) == digits.len(),
        number_value(digits) == positional(strip(digits), Radix::Decimal),
{
    law_literal_is_read_whole(digits, Seq::empty());
    assert(digits + Seq::<u8>::empty() =~= digits);
    if digits.len() >= 2 {
        assert(in_run(digits[1], Radix::Decimal));
    }
}

/// A hex digit string after `0x` or `0X` is a literal, and denotes the
/// number that the standard base-16 conversion gives for its digits once
/// the grouping characters are taken out.
pub proof fn law_hex_conversion(x: u8, digits: Seq<u8>)
    requires
        x == 'x' as u8 || x == 'X' as u8,
        is_run(digits, Radix::Hex),
    ensures
        number_len(seq!['0' as u8, x] + digits) == digits.len() + 2,
        number_value(seq!['0' as u8, x] + digits) == positional(strip(digits), Radix::Hex),
{
    let literal = seq!['0' as u8, x] + digits;
    assert(literal.skip(2) =~= digits);
    law_literal_is_read_whole(literal, Seq::empty());
    assert(literal + Seq::<u8>::empty() =~= literal);
}

/// A number written in decimal is a decimal literal, and is read back as
/// the same number.
pub proof fn law_decimal_is_read_back(n: nat)
    ensures
        is_run(ascii_bytes(decimal_digits(n)), Radix::Decimal),
        literal_value(ascii_bytes(decimal_digits(n))) == n,
    decreases n,
{
    let text = ascii_bytes(decimal_digits(n));
    let last = digit_char(n % 10) as u8;
    assert(last == '0' as u8 + n % 10);
    if n < 10 {
        assert(text =~= Seq::<u8>::empty().push(last));
        assert(strip(Seq::<u8>::empty()) =~= Seq::<u8>::empty());
        crate::digits::lemma_run_value_push(Seq::empty(), last, Radix::Decimal);
    } else {
        let front = ascii_bytes(decimal_digits(n / 10));
        law_decimal_is_read_back(n / 10);
        assert(text =~= front.push(last));
        crate::digits::lemma_run_value_push(front, last, Radix::Decimal);
        assert(text[0] == front[0]);
        assert forall|i: int| 0 <= i < text.len() implies in_run(
            #[trigger] text[i],
            Radix::Decimal,
        ) by {
            if i < front.len() {
                assert(text[i] == front[i]);
            }
        }
        if front.len() >= 2 {
            assert(in_run(front[1], Radix::Decimal));
        }
        assert(!has_hex_prefix(front));
    }
    if text.len() >= 2 {
        assert(in_run(text[1], Radix::Decimal));
    }
    assert(!has_hex_prefix(text));
}

/// Two bytes that are the same letter in either case, or the same byte.
pub open spec fn same_but_case(a: u8, b: u8) -> bool {
    fold_case(a) == fold_case(b)
}

/// The case of its hex digits does not change what a digit run is or
/// denotes.
pub proof fn law_hex_case_is_ignored(a: Seq<u8>, b: Seq<u8>)
    requires
        a.len() == b.len(),
        forall|i: int| 0 <= i < a.len() ==> same_but_case(#[trigger] a[i], b[i]),
    ensures
        is_run(a, Radix::Hex) <==> is_run(b, Radix::Hex),
        run_value(a, Radix::Hex) == run_value(b, Radix::Hex),
    decreases a.len(),
{
    assert forall|i: int| 0 <= i < a.len() implies (in_run(#[trigger] a[i], Radix::Hex) <==> in_run(
        b[i],
        Radix::Hex,
    )) && (is_digit(a[i], Radix::Hex) <==> is_digit(b[i], Radix::Hex)) by {
        assert(same_but_case(a[i], b[i]));
    }
    if is_run(a, Radix::Hex) {
        assert forall|i: int| 0 <= i < b.len() implies in_run(#[trigger] b[i], Radix::Hex) by {
            assert(in_run(a[i], Radix::Hex));
        }
    }
    if is_run(b, Radix::Hex) {
        assert forall|i: int| 0 <= i < a.len() implies in_run(#[trigger] a[i], Radix::Hex) by {
            assert(in_run(b[i], Radix::Hex));
        }
    }
    if a.len() > 0 {
        let a0 = a.drop_last();
        let b0 = b.drop_last();
        assert forall|i: int| 0 <= i < a0.len() implies same_but_case(#[trigger] a0[i], b0[i]) by {
            assert(same_but_case(a[i], b[i]));
        }
        law_hex_case_is_ignored(a0, b0);
        assert(same_but_case(a.last(), b.last()));
        assert(a =~= a0.push(a.last()));
        assert(b =~= b0.push(b.last()));
        crate::digits::lemma_run_value_push(a0, a.last(), Radix::Hex);
        crate::digits::lemma_run_value_push(b0, b.last(), Radix::Hex);
    } else {
        assert(a =~= b);
    }
}

/// A grouping character put anywhere after the first digit of a run, also
/// beside another one or at the end, leaves a run that denotes the same
/// number.
pub proof fn law_grouping_is_ignored(run: Seq<u8>, at: int, radix: Radix)
    requires
        is_run(run, radix),
        0 < at <= run.len(),
    ensures
        is_run(run.insert(at, '_' as u8), radix),
        run_value(run.insert(at, '_' as u8), radix) == run_value(run, radix),
{
    let mark = '_' as u8;
    let grouped = run.insert(at, mark);
    let keep = |b: u8| !is_grouping(b);
    assert forall|i: int| 0 <= i < grouped.len() implies in_run(#[trigger] grouped[i], radix) by {
        if i < at {
            assert(grouped[i] == run[i]);
        } else if i > at {
            assert(grouped[i] == run[i - 1]);
        }
    }
    assert(grouped[0] == run[0]);
    let head = run.take(at);
    let tail = run.skip(at);
    assert(run =~= head + tail);
    assert(grouped =~= head.push(mark) + tail);
    head.lemma_filter_push(mark, keep);
    Seq::filter_distributes_over_add(head.push(mark), tail, keep);
    Seq::filter_distributes_over_add(head, tail, keep);
    assert(strip(grouped) == strip(run));
}

/// The parts of an expression are its literals as written: a literal or
/// nothing, a separator, a literal or nothing. A literal that does not fit
/// in 64 bits is reported with its side and its text, the first one first.
pub proof fn law_parts_of_an_expression(first: Seq<u8>, sep: u8, second: Seq<u8>)
    requires
        literal_or_nothing(first),
        separator(sep) is Some,
        literal_or_nothing(second),
    ensures
        pieces_of(first.push(sep) + second) == if first.len() > 0 && literal_value(first)
            > u64::MAX {
            Err::<RangePieces, RangeFault>(
                RangeFault::InvalidNumber { side: Side::Start, text: first },
            )
        } else if second.len() > 0 && literal_value(second) > u64::MAX {
            Err::<RangePieces, RangeFault>(
                RangeFault::InvalidNumber { side: Side::End, text: second },
            )
        } else {
            Ok::<RangePieces, RangeFault>(
                RangePieces { start: piece(first), mode: separator(sep)->0, end: piece(second) },
            )
        },
{
    let text = first.push(sep) + second;
    let rest = seq![sep] + second;
    assert(text =~= first + rest);
    assert(rest[0] == sep);
    if first.len() > 0 {
        law_literal_is_read_whole(first, rest);
    } else {
        assert(text[0] == sep);
        assert(!has_hex_prefix(text));
        assert(run_len(text, Radix::Decimal) == 0);
    }
    assert(number_len(text) == first.len());
    assert(text[first.len() as int] == sep);
    assert(text.skip(first.len() as int + 1) =~= second);
    assert(text.take(first.len() as int) =~= first);
    if second.len() > 0 {
        law_literal_is_read_whole(second, Seq::empty());
        assert(second + Seq::<u8>::empty() =~= second);
    } else {
        assert(!has_hex_prefix(second));
        assert(run_len(second, Radix::Decimal) == 0);
    }
}

/// A separator by itself selects the whole input.
pub proof fn law_whole_input(sep: u8)
    requires
        separator(sep) is Some,
    ensures
        Range::parsed(seq![sep]) == Ok::<Range, RangeFault>(Range { start: 0, count: None }),
{
    law_parts_of_an_expression(Seq::empty(), sep, Seq::empty());
    assert(Seq::<u8>::empty().push(sep) + Seq::<u8>::empty() =~= seq![sep]);
}

/// `N-` and `N+` select from `N` to the end, for every `N` up to
/// `i64::MAX`; a larger start is refused.
pub proof fn law_from_start_to_end(first: Seq<u8>, sep: u8)
    requires
        is_literal(first),
        separator(sep) is Some,
        literal_value(first) <= u64::MAX,
    ensures
        Range::parsed(first.push(sep)) == if literal_value(first) <= i64::MAX {
            Ok::<Range, RangeFault>(Range { start: literal_value(first) as u64, count: None })
        } else {
            Err::<Range, RangeFault>(RangeFault::StartOutOfBounds)
        },
{
    law_parts_of_an_expression(first, sep, Seq::empty());
    assert(first.push(sep) + Seq::<u8>::empty() =~= first.push(sep));
}

/// `+M` selects the first `M` bytes, and `-M` the bytes up to offset `M`,
/// which is one more; that one more has to fit in 64 bits.
pub proof fn law_first_bytes(sep: u8, second: Seq<u8>)
    requires
        separator(sep) is Some,
        is_literal(second),
        literal_value(second) <= u64::MAX,
    ensures
        sep == '+' as u8 ==> Range::parsed(seq![sep] + second) == Ok::<Range, RangeFault>(
            Range { start: 0, count: Some(literal_value(second) as u64) },
        ),
        sep == '-' as u8 && literal_value(second) < u64::MAX ==> Range::parsed(seq![sep] + second)
            == Ok::<Range, RangeFault>(
            Range { start: 0, count: Some((literal_value(second) + 1) as u64) },
        ),
        sep == '-' as u8 && literal_value(second) == u64::MAX ==> Range::parsed(
            seq![sep] + second,
        ) == Err::<Range, RangeFault>(RangeFault::Overflow),
{
    law_parts_of_an_expression(Seq::empty(), sep, second);
    assert(Seq::<u8>::empty().push(sep) =~= seq![sep]);
}

/// `N-M` selects the bytes from offset `N` to offset `M`, both included:
/// `M - N + 1` of them. An end before the start is refused.
pub proof fn law_inclusive(first: Seq<u8>, second: Seq<u8>)
    requires
        is_literal(first),
        is_literal(second),
        literal_value(first) <= i64::MAX,
        literal_value(second) <= u64::MAX,
    ensures
        Range::parsed(first.push('-' as u8) + second) == if literal_value(second) < literal_value(
            first,
        ) {
            Err::<Range, RangeFault>(RangeFault::EndBeforeStart)
        } else if literal_value(second) - literal_value(first) + 1 > u64::MAX {
            Err::<Range, RangeFault>(RangeFault::Overflow)
        } else {
            Ok::<Range, RangeFault>(
                Range {
                    start: literal_value(first) as u64,
                    count: Some((literal_value(second) - literal_value(first) + 1) as u64),
                },
            )
        },
{
    law_parts_of_an_expression(first, '-' as u8, second);
}

/// `N+M` selects `M` bytes from offset `N`.
pub proof fn law_counted(first: Seq<u8>, second: Seq<u8>)
    requires
        is_literal(first),
        is_literal(second),
        literal_value(first) <= i64::MAX,
        literal_value(second) <= u64::MAX,
    ensures
        Range::parsed(first.push('+' as u8) + second) == Ok::<Range, RangeFault>(
            Range {
                start: literal_value(first) as u64,
                count: Some(literal_value(second) as u64),
            },
        ),
{
    law_parts_of_an_expression(first, '+' as u8, second);
}

/// A text is a range expression exactly when it is a literal or nothing, a
/// separator, and a literal or nothing; any other text is malformed.
pub proof fn law_form_of_an_expression(text: Seq<u8>)
    ensures
        pieces_of(text) != Err::<RangePieces, RangeFault>(RangeFault::Malformed { input: text })
            <==> exists|at: int|
            0 <= at < text.len() && separator(#[trigger] text[at]) is Some && literal_or_nothing(
                text.take(at),
            ) && literal_or_nothing(text.skip(at + 1)),
{
    let first = number_len(text) as int;
    crate::range::lemma_number_len(text);
    if pieces_of(text) != Err::<RangePieces, RangeFault>(RangeFault::Malformed { input: text }) {
        let tail = text.skip(first + 1);
        if first > 0 {
            law_what_is_read_is_a_literal(text);
        }
        if tail.len() > 0 {
            law_what_is_read_is_a_literal(tail);
            assert(tail.take(tail.len() as int) =~= tail);
        }
        assert(separator(text[first]) is Some);
    }
    if exists|at: int|
        0 <= at < text.len() && separator(#[trigger] text[at]) is Some && literal_or_nothing(
            text.take(at),
        ) && literal_or_nothing(text.skip(at + 1)) {
        let at = choose|at: int|
            0 <= at < text.len() && separator(#[trigger] text[at]) is Some && literal_or_nothing(
                text.take(at),
            ) && literal_or_nothing(text.skip(at + 1));
        let head = text.take(at);
        let tail = text.skip(at + 1);
        assert(text =~= head.push(text[at]) + tail);
        law_parts_of_an_expression(head, text[at], tail);
    }
}

} // verus!
