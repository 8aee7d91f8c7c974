//! Range expressions: `N-M`, `N+M`, `N-`, `N+`, `-M`, `+M`, `-` and `+`,
//! where a number is decimal or, after `0x`, hex.
//!
//! Text is read as the bytes of its UTF-8 encoding. The grammar is ASCII
//! throughout, so a byte outside ASCII never belongs to an expression.

use crate::digits::{run_len, run_value, scan_run, Radix};
use crate::text::split_ascii_prefix;
use vstd::prelude::*;
use vstd::string::*;

verus! {

/// `text` begins with `0x` or `0X`.
pub open spec fn has_hex_prefix(text: Seq<u8>) -> bool {
    &&& text.len() >= 2
    &&& text[0] == '0' as u8
    &&& (text[1] == 'x' as u8 || text[1] == 'X' as u8)
}

/// The length of the hex literal at the head of `text`: the prefix and the
/// longest digit run after it. Zero where there is none.
pub open spec fn hex_len(text: Seq<u8>) -> nat {
    if has_hex_prefix(text) && run_len(text.skip(2), Radix::Hex) > 0 {
        2 + run_len(text.skip(2), Radix::Hex)
    } else {
        0
    }
}

/// The number that the hex literal at the head of `text` denotes.
pub open spec fn hex_value(text: Seq<u8>) -> nat {
    run_value(text.subrange(2, hex_len(text) as int), Radix::Hex)
}

/// The length of the decimal literal at the head of `text`: the longest
/// digit run there. Zero where there is none.
pub open spec fn dec_len(text: Seq<u8>) -> nat {
    run_len(text, Radix::Decimal)
}

/// The number that the decimal literal at the head of `text` denotes.
pub open spec fn dec_value(text: Seq<u8>) -> nat {
    run_value(text.take(dec_len(text) as int), Radix::Decimal)
}

/// The length of the literal at the head of `text`: a hex literal where
/// there is one, else a decimal literal. Zero where there is neither.
pub open spec fn number_len(text: Seq<u8>) -> nat {
    if hex_len(text) > 0 {
        hex_len(text)
    } else {
        dec_len(text)
    }
}

/// The number that the literal at the head of `text` denotes.
pub open spec fn number_value(text: Seq<u8>) -> nat {
    if hex_len(text) > 0 {
        hex_value(text)
    } else {
        dec_value(text)
    }
}

/// Why no number was read at the head of a text.
#[derive(Debug, Clone, Copy, PartialEq, Eq)]
pub enum NumberError<'a> {
    /// The text does not begin with a literal.
    NoMatch,
    /// The literal `text` denotes a number that does not fit in 64 bits;
    /// `rest` is what follows it.
    TooLarge { text: &'a str, rest: &'a str },
}

/// What reading a literal of `len` bytes and of value `value` at the head
/// of `text` returns.
pub open spec fn reads<'a>(
    r: Result<(&'a str, u64), NumberError<'a>>,
    text: Seq<u8>,
    len: nat,
    value: nat,
) -> bool {
    match r {
        Ok((rest, v)) => {
            &&& len > 0
            &&& v == value
            &&& rest.spec_bytes() == text.skip(len as int)
        },
        Err(NumberError::NoMatch) => len == 0,
        Err(NumberError::TooLarge { text: literal, rest }) => {
            &&& len > 0
            &&& value > u64::MAX
            &&& literal.spec_bytes() == text.take(len as int)
            &&& rest.spec_bytes() == text.skip(len as int)
        },
    }
}

/// Reads a literal whose digits begin after `lead` bytes of ASCII.
fn literal<'a>(input: &'a str, lead: usize, radix: Radix) -> (r: Result<
    (&'a str, u64),
    NumberError<'a>,
>)
    requires
        crate::text::ascii_prefix(input.spec_bytes(), lead as int),
    ensures
        run_len(input.spec_bytes().skip(lead as int), radix) == 0 ==> r == Err::<
            (&'a str, u64),
            NumberError<'a>,
        >(NumberError::NoMatch),
        run_len(input.spec_bytes().skip(lead as int), radix) > 0 ==> reads(
            r,
            input.spec_bytes(),
            (lead + run_len(input.spec_bytes().skip(lead as int), radix)) as nat,
            run_value(
                input.spec_bytes().subrange(
                    lead as int,
                    lead + run_len(input.spec_bytes().skip(lead as int), radix),
                ),
                radix,
            ),
        ),
{
    let bytes = input.as_bytes();
    let (end, value) = scan_run(bytes, lead, radix);
    if end == lead {
        return Err(NumberError::NoMatch);
    }
    proof {
        let tail = bytes@.skip(lead as int);
        crate::digits::lemma_run_len(tail, radix);
        assert forall|i: int| 0 <= i < end implies crate::text::is_ascii_byte(
            #[trigger] bytes@[i],
        ) by {
            if i >= lead {
                let run = tail.take(end - lead);
                assert(bytes@[i] == run[i - lead]);
                assert(crate::digits::in_run(run[i - lead], radix));
            }
        }
    }
    let (head, rest) = split_ascii_prefix(input, end);
    match value {
        Some(v) => Ok((rest, v)),
        None => Err(NumberError::TooLarge { text: head, rest }),
    }
}

/// Reads a hex literal at the head of `input`: `0x` or `0X`, then the
/// longest digit run. Returns what follows the literal, and its value.
pub fn hex<'a>(input: &'a str) -> (r: Result<(&'a str, u64), NumberError<'a>>)
    ensures
        reads(r, input.spec_bytes(), hex_len(input.spec_bytes()), hex_value(input.spec_bytes())),
{
    let bytes = input.as_bytes();
    if bytes.len() >= 2 && bytes[0] == '0' as u8 && (bytes[1] == 'x' as u8 || bytes[1]
        == 'X' as u8) {
        literal(input, 2, Radix::Hex)
    } else {
        Err(NumberError::NoMatch)
    }
}

/// Reads a decimal literal at the head of `input`: the longest digit run.
/// Returns what follows the literal, and its value.
pub fn dec<'a>(input: &'a str) -> (r: Result<(&'a str, u64), NumberError<'a>>)
    ensures
        reads(r, input.spec_bytes(), dec_len(input.spec_bytes()), dec_value(input.spec_bytes())),
{
    proof {
        assert(input.spec_bytes().skip(0) =~= input.spec_bytes());
        assert(input.spec_bytes().subrange(0, dec_len(input.spec_bytes()) as int)
            =~= input.spec_bytes().take(dec_len(input.spec_bytes()) as int));
    }
    literal(input, 0, Radix::Decimal)
}

/// Reads a literal at the head of `input`: a hex literal where there is
/// one, else a decimal literal. A hex literal that does not fit in 64 bits
/// is too large; it is not read again as the decimal literal `0` before an
/// `x`.
pub fn number<'a>(input: &'a str) -> (r: Result<(&'a str, u64), NumberError<'a>>)
    ensures
        reads(
            r,
            input.spec_bytes(),
            number_len(input.spec_bytes()),
            number_value(input.spec_bytes()),
        ),
{
    match hex(input) {
        Err(NumberError::NoMatch) => dec(input),
        r => r,
    }
}

/// How the second number of an expression is meant.
#[derive(Debug, Clone, Copy, PartialEq, Eq, Structural)]
pub enum Mode {
    /// After `-`: the offset of the last byte selected.
    Through,
    /// After `+`: the count of bytes selected.
    Count,
}

/// The side of the separator on which a number stands.
#[derive(Debug, Clone, Copy, PartialEq, Eq, Structural)]
pub enum Side {
    Start,
    End,
}

/// The parts of a range expression, as written.
#[derive(Debug, Clone, Copy, PartialEq, Eq)]
pub struct RangePieces {
    /// The number before the separator, where there is one.
    pub start: Option<u64>,
    pub mode: Mode,
    /// The number after the separator, where there is one.
    pub end: Option<u64>,
}

/// A selection of bytes.
#[derive(Debug, Clone, Copy, PartialEq, Eq)]
pub struct Range {
    /// The offset of the first byte selected, from zero.
    pub start: u64,
    /// The count of bytes selected, or `None` to select up to the end.
    pub count: Option<u64>,
}

/// Why a text is not a range expression, or denotes no range.
#[derive(Debug, Clone, PartialEq, Eq)]
pub enum ParseRangeError {
    /// The text does not have the form of a range expression.
    Malformed { input: String },
    /// The literal `text` on the given side denotes a number that does not
    /// fit in 64 bits.
    InvalidNumber { side: Side, text: String },
    /// The start is larger than `i64::MAX`.
    StartOutOfBounds,
    /// In `N-M`, `M` is less than `N`.
    EndBeforeStart,
    /// The count of bytes does not fit in 64 bits.
    Overflow,
}

/// What a `ParseRangeError` says, with its texts as bytes.
pub enum RangeFault {
    Malformed { input: Seq<u8> },
    InvalidNumber { side: Side, text: Seq<u8> },
    StartOutOfBounds,
    EndBeforeStart,
    Overflow,
}

impl View for ParseRangeError {
    type V = RangeFault;

    open spec fn view(&self) -> RangeFault {
        match self {
            ParseRangeError::Malformed { input } => RangeFault::Malformed {
                input: vstd::utf8::encode_utf8(input@),
            },
            ParseRangeError::InvalidNumber { side, text } => RangeFault::InvalidNumber {
                side: *side,
                text: vstd::utf8::encode_utf8(text@),
            },
            ParseRangeError::StartOutOfBounds => RangeFault::StartOutOfBounds,
            ParseRangeError::EndBeforeStart => RangeFault::EndBeforeStart,
            ParseRangeError::Overflow => RangeFault::Overflow,
        }
    }
}

impl Side {
    /// The word for the side.
    pub open spec fn word(self) -> Seq<char> {
        match self {
            Side::Start => "start"@,
            Side::End => "end"@,
        }
    }

    pub fn as_str(&self) -> (s: &'static str)
        ensures
            s@ == self.word(),
    {
        match self {
            Side::Start => "start",
            Side::End => "end",
        }
    }
}

impl ParseRangeError {
    /// What the error says, in one line.
    pub open spec fn message(self) -> Seq<char> {
        match self {
            ParseRangeError::Malformed { input } => "malformed range '"@ + input@ + "'"@,
            ParseRangeError::InvalidNumber { side, text } => "range "@ + side.word()
                + " '"@ + text@ + "' does not fit in 64 bits"@,
            ParseRangeError::StartOutOfBounds => "range start exceeds i64::MAX"@,
            ParseRangeError::EndBeforeStart => "range end is less than start"@,
            ParseRangeError::Overflow => "byte count overflow"@,
        }
    }

    pub fn to_string(&self) -> (s: String)
        ensures
            s@ == self.message(),
    {
        match self {
            ParseRangeError::Malformed { input } => {
                let mut s = "malformed range '".to_owned();
                s.append(input.as_str());
                s.append("'");
                s
            },
            ParseRangeError::InvalidNumber { side, text } => {
                let mut s = "range ".to_owned();
                s.append(side.as_str());
                s.append(" '");
                s.append(text.as_str());
                s.append("' does not fit in 64 bits");
                s
            },
            ParseRangeError::StartOutOfBounds => "range start exceeds i64::MAX".to_owned(),
            ParseRangeError::EndBeforeStart => "range end is less than start".to_owned(),
            ParseRangeError::Overflow => "byte count overflow".to_owned(),
        }
    }
}

/// The separator that `b` is, if it is one.
pub open spec fn separator(b: u8) -> Option<Mode> {
    if b == '-' as u8 {
        Some(Mode::Through)
    } else if b == '+' as u8 {
        Some(Mode::Count)
    } else {
        None
    }
}

/// The parts of the range expression `text`: a literal or nothing, a
/// separator, a literal or nothing, and then the end of the text. A text of
/// another form is malformed, whatever its literals denote; in a text of
/// this form each literal has to fit in 64 bits, the first one first.
pub open spec fn pieces_of(text: Seq<u8>) -> Result<RangePieces, RangeFault> {
    let first = number_len(text) as int;
    let tail = text.skip(first + 1);
    if first >= text.len() || separator(text[first]) is None || number_len(tail) != tail.len() {
        Err(RangeFault::Malformed { input: text })
    } else if first > 0 && number_value(text) > u64::MAX {
        Err(RangeFault::InvalidNumber { side: Side::Start, text: text.take(first) })
    } else if tail.len() > 0 && number_value(tail) > u64::MAX {
        Err(RangeFault::InvalidNumber { side: Side::End, text: tail })
    } else {
        Ok(
            RangePieces {
                start: if first > 0 {
                    Some(number_value(text) as u64)
                } else {
                    None
                },
                mode: separator(text[first])->0,
                end: if tail.len() > 0 {
                    Some(number_value(tail) as u64)
                } else {
                    None
                },
            },
        )
    }
}

impl Range {
    /// A range that can be positioned at: its start is an offset that a
    /// relative seek can take.
    pub open spec fn wf(self) -> bool {
        self.start <= i64::MAX
    }

    /// The range that the parts of an expression denote. A start that is
    /// left out is zero. Without a second number the range is open-ended;
    /// after `+` the second number is the count; after `-` it is the last
    /// offset, so that the count is one more than the difference.
    pub open spec fn of_pieces(pieces: RangePieces) -> Result<Range, RangeFault> {
        let start = match pieces.start {
            Some(n) => n,
            None => 0,
        };
        if start > i64::MAX {
            Err(RangeFault::StartOutOfBounds)
        } else {
            match (pieces.mode, pieces.end) {
                (_, None) => Ok(Range { start, count: None }),
                (Mode::Count, Some(count)) => Ok(Range { start, count: Some(count) }),
                (Mode::Through, Some(end)) => if end < start {
                    Err(RangeFault::EndBeforeStart)
                } else if end - start + 1 > u64::MAX {
                    Err(RangeFault::Overflow)
                } else {
                    Ok(Range { start, count: Some((end - start + 1) as u64) })
                },
            }
        }
    }

    /// The range that the expression `text` denotes.
    pub open spec fn parsed(text: Seq<u8>) -> Result<Range, RangeFault> {
        match pieces_of(text) {
            Ok(pieces) => Range::of_pieces(pieces),
            Err(fault) => Err(fault),
        }
    }

    /// Works out the range that the parts of an expression denote.
    pub fn from_pieces(pieces: RangePieces) -> (r: Result<Range, ParseRangeError>)
        ensures
            match r {
                Ok(range) => Range::of_pieces(pieces) == Ok::<Range, RangeFault>(range)
                    && range.wf(),
                Err(e) => Range::of_pieces(pieces) == Err::<Range, RangeFault>(e@),
            },
    {
        let start = match pieces.start {
            Some(n) => n,
            None => 0,
        };
        if start > i64::MAX as u64 {
            return Err(ParseRangeError::StartOutOfBounds);
        }
        let count = match (pieces.mode, pieces.end) {
            (_, None) => None,
            (Mode::Count, Some(count)) => Some(count),
            (Mode::Through, Some(end)) => {
                let span = match end.checked_sub(start) {
                    Some(span) => span,
                    None => {
                        return Err(ParseRangeError::EndBeforeStart);
                    },
                };
                match span.checked_add(1) {
                    Some(count) => Some(count),
                    None => {
                        return Err(ParseRangeError::Overflow);
                    },
                }
            },
        };
        Ok(Range { start, count })
    }
}

/// Reads the parts of the range expression `input`.
pub fn parse_range_pieces(input: &str) -> (r: Result<RangePieces, ParseRangeError>)
    ensures
        match r {
            Ok(pieces) => pieces_of(input.spec_bytes()) == Ok::<RangePieces, RangeFault>(pieces),
            Err(e) => pieces_of(input.spec_bytes()) == Err::<RangePieces, RangeFault>(e@),
        },
{
    let ghost text = input.spec_bytes();
    let ghost first = number_len(text) as int;
    let mut bad_start: Option<&str> = None;
    let (start, rest) = match number(input) {
        Ok((rest, value)) => (Some(value), rest),
        Err(NumberError::NoMatch) => (None, input),
        Err(NumberError::TooLarge { text, rest }) => {
            bad_start = Some(text);
            (None, rest)
        },
    };
    assert(rest.spec_bytes() =~= text.skip(first));
    assert(first <= text.len()) by {
        lemma_number_len(text);
    }
    let tail = rest.as_bytes();
    if tail.len() == 0 {
        return Err(ParseRangeError::Malformed { input: input.to_owned() });
    }
    assert(tail@[0] == text[first]);
    let mode = if tail[0] == '-' as u8 {
        Mode::Through
    } else if tail[0] == '+' as u8 {
        Mode::Count
    } else {
        return Err(ParseRangeError::Malformed { input: input.to_owned() });
    };
    let (_, after) = split_ascii_prefix(rest, 1);
    assert(after.spec_bytes() =~= text.skip(first + 1));
    let mut bad_end: Option<&str> = None;
    let (end, last) = match number(after) {
        Ok((last, value)) => (Some(value), last),
        Err(NumberError::NoMatch) => (None, after),
        Err(NumberError::TooLarge { text, rest }) => {
            bad_end = Some(text);
            (None, rest)
        },
    };
    assert(last.spec_bytes() =~= after.spec_bytes().skip(number_len(after.spec_bytes()) as int));
    assert(number_len(after.spec_bytes()) <= after.spec_bytes().len()) by {
        lemma_number_len(after.spec_bytes());
    }
    if last.as_bytes().len() != 0 {
        return Err(ParseRangeError::Malformed { input: input.to_owned() });
    }
    assert(after.spec_bytes().take(after.spec_bytes().len() as int) =~= after.spec_bytes());
    if let Some(literal) = bad_start {
        return Err(ParseRangeError::InvalidNumber { side: Side::Start, text: literal.to_owned() });
    }
    if let Some(literal) = bad_end {
        return Err(ParseRangeError::InvalidNumber { side: Side::End, text: literal.to_owned() });
    }
    Ok(RangePieces { start, mode, end })
}

/// A literal ends within the text that it begins.
pub proof fn lemma_number_len(text: Seq<u8>)
    ensures
        number_len(text) <= text.len(),
{
    crate::digits::lemma_run_len(text, Radix::Decimal);
    if has_hex_prefix(text) {
        crate::digits::lemma_run_len(text.skip(2), Radix::Hex);
    }
}

impl std::str::FromStr for Range {
    type Err = ParseRangeError;

    /// Reads the range expression `input`.
    fn from_str(input: &str) -> (r: Result<Range, ParseRangeError>)
        ensures
            match r {
                Ok(range) => Range::parsed(input.spec_bytes()) == Ok::<Range, RangeFault>(range)
                    && range.wf(),
                Err(e) => Range::parsed(input.spec_bytes()) == Err::<Range, RangeFault>(e@),
            },
    {
        match parse_range_pieces(input) {
            Ok(pieces) => Range::from_pieces(pieces),
            Err(e) => Err(e),
        }
    }
}

} // verus!
