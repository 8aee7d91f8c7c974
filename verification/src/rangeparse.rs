//! Byte counts written with a unit suffix, such as `10MB` or `4KiB`.
//!
//! Text is read as the bytes of its UTF-8 encoding: every suffix is plain
//! ASCII, so a byte outside ASCII never belongs to one.

use crate::text::{ascii_bytes, decimal, decimal_digits, fold_case, lower};
use std::str::FromStr;
use vstd::prelude::*;
use vstd::string::*;

verus! {

/// A unit in which a byte count is written.
#[derive(Debug, Clone, Copy, PartialEq, Eq, Structural)]
pub enum Suffix {
    /// Plain bytes.
    B,
    /// Decimal units: powers of 1000.
    KB,
    MB,
    GB,
    TB,
    /// Binary units: powers of 1024.
    Ki,
    Mi,
    Gi,
    Ti,
}

/// `text` is `word`, letter for letter, when ASCII case is ignored.
/// `word` is meant to be in lower case.
pub open spec fn spells(text: Seq<u8>, word: Seq<char>) -> bool {
    &&& text.len() == word.len()
    &&& forall|i: int| 0 <= i < word.len() ==> fold_case(#[trigger] text[i]) == word[i] as u8
}

impl Suffix {
    /// The number of bytes in one unit.
    pub open spec fn scale(self) -> nat {
        match self {
            Suffix::B => 1,
            Suffix::KB => 1_000,
            Suffix::MB => 1_000_000,
            Suffix::GB => 1_000_000_000,
            Suffix::TB => 1_000_000_000_000,
            Suffix::Ki => 1_024,
            Suffix::Mi => 1_048_576,
            Suffix::Gi => 1_073_741_824,
            Suffix::Ti => 1_099_511_627_776,
        }
    }

    /// The canonical spelling of the unit; plain bytes are written without
    /// a suffix.
    pub open spec fn spelling(self) -> Seq<char> {
        match self {
            Suffix::B => seq![],
            Suffix::KB => seq!['K', 'B'],
            Suffix::MB => seq!['M', 'B'],
            Suffix::GB => seq!['G', 'B'],
            Suffix::TB => seq!['T', 'B'],
            Suffix::Ki => seq!['K', 'i', 'B'],
            Suffix::Mi => seq!['M', 'i', 'B'],
            Suffix::Gi => seq!['G', 'i', 'B'],
            Suffix::Ti => seq!['T', 'i', 'B'],
        }
    }

    /// The unit that `text` names, if it names one. Case is ignored. A
    /// binary unit may be written short (`k`), with its `i` (`ki`) or in
    /// full (`kib`); a decimal unit is always two letters (`kb`).
    pub open spec fn named(text: Seq<u8>) -> Option<Suffix> {
        if spells(text, seq![]) || spells(text, seq!['b']) {
            Some(Suffix::B)
        } else if spells(text, seq!['k', 'b']) {
            Some(Suffix::KB)
        } else if spells(text, seq!['m', 'b']) {
            Some(Suffix::MB)
        } else if spells(text, seq!['g', 'b']) {
            Some(Suffix::GB)
        } else if spells(text, seq!['t', 'b']) {
            Some(Suffix::TB)
        } else if spells(text, seq!['k']) || spells(text, seq!['k', 'i']) || spells(
            text,
            seq!['k', 'i', 'b'],
        ) {
            Some(Suffix::Ki)
        } else if spells(text, seq!['m']) || spells(text, seq!['m', 'i']) || spells(
            text,
            seq!['m', 'i', 'b'],
        ) {
            Some(Suffix::Mi)
        } else if spells(text, seq!['g']) || spells(text, seq!['g', 'i']) || spells(
            text,
            seq!['g', 'i', 'b'],
        ) {
            Some(Suffix::Gi)
        } else if spells(text, seq!['t']) || spells(text, seq!['t', 'i']) || spells(
            text,
            seq!['t', 'i', 'b'],
        ) {
            Some(Suffix::Ti)
        } else {
            None
        }
    }

    pub fn multiplier(&self) -> (m: u64)
        ensures
            m == self.scale(),
    {
        match self {
            Suffix::B => 1,
            Suffix::KB => 1_000,
            Suffix::MB => 1_000_000,
            Suffix::GB => 1_000_000_000,
            Suffix::TB => 1_000_000_000_000,
            Suffix::Ki => 1_024,
            Suffix::Mi => 1_048_576,
            Suffix::Gi => 1_073_741_824,
            Suffix::Ti => 1_099_511_627_776,
        }
    }

    /// The number of bytes in one unit, as a `usize`, where it is one.
    pub fn to_usize(self) -> (m: usize)
        requires
            self.scale() <= usize::MAX,
        ensures
            m == self.scale(),
    {
        self.multiplier() as usize
    }

    pub fn to_string(&self) -> (s: String)
        ensures
            s@ == self.spelling(),
    {
        self.as_str().to_owned()
    }

    pub fn as_str(&self) -> (s: &'static str)
        ensures
            s@ == self.spelling(),
    {
        proof {
            reveal_strlit("");
            reveal_strlit("KB");
            reveal_strlit("MB");
            reveal_strlit("GB");
            reveal_strlit("TB");
            reveal_strlit("KiB");
            reveal_strlit("MiB");
            reveal_strlit("GiB");
            reveal_strlit("TiB");
        }
        match self {
            Suffix::B => "",
            Suffix::KB => "KB",
            Suffix::MB => "MB",
            Suffix::GB => "GB",
            Suffix::TB => "TB",
            Suffix::Ki => "KiB",
            Suffix::Mi => "MiB",
            Suffix::Gi => "GiB",
            Suffix::Ti => "TiB",
        }
    }
}

impl From<Suffix> for u64 {
    fn from(s: Suffix) -> (m: u64) {
        s.multiplier()
    }
}

impl vstd::std_specs::convert::FromSpecImpl<Suffix> for u64 {
    open spec fn obeys_from_spec() -> bool {
        true
    }

    /// The number of bytes in one unit.
    open spec fn from_spec(s: Suffix) -> u64 {
        s.scale() as u64
    }
}

/// The text that was offered as a suffix and names no unit.
#[derive(Debug, Clone)]
pub struct InvalidSuffixError(String);

impl View for InvalidSuffixError {
    type V = Seq<char>;

    /// The rejected text.
    closed spec fn view(&self) -> Seq<char> {
        self.0@
    }
}

impl InvalidSuffixError {
    /// What the error says: `invalid suffix` and the rejected text in
    /// quotes.
    pub open spec fn message(self) -> Seq<char> {
        "invalid suffix '"@ + self@ + "'"@
    }

    pub fn to_string(&self) -> (s: String)
        ensures
            s@ == self.message(),
    {
        let mut s = "invalid suffix '".to_owned();
        s.append(self.0.as_str());
        s.append("'");
        s
    }
}

impl FromStr for Suffix {
    type Err = InvalidSuffixError;

    /// Looks up the unit that `s` names, ignoring case.
    fn from_str(s: &str) -> (r: Result<Suffix, InvalidSuffixError>)
        ensures
            match r {
                Ok(suffix) => Suffix::named(s.spec_bytes()) == Some(suffix),
                Err(e) => Suffix::named(s.spec_bytes()) is None && e@ == s@,
            },
    {
        let text = s.as_bytes();
        let n = text.len();
        let c0: u8 = if n > 0 { lower(text[0]) } else { 0 };
        let c1: u8 = if n > 1 { lower(text[1]) } else { 0 };
        let c2: u8 = if n > 2 { lower(text[2]) } else { 0 };
        let short = n == 1;
        let long = n == 2 && c1 == 'i' as u8 || n == 3 && c1 == 'i' as u8 && c2 == 'b' as u8;
        let decimal = n == 2 && c1 == 'b' as u8;
        if n == 0 || n == 1 && c0 == 'b' as u8 {
            Ok(Suffix::B)
        } else if decimal && c0 == 'k' as u8 {
            Ok(Suffix::KB)
        } else if decimal && c0 == 'm' as u8 {
            Ok(Suffix::MB)
        } else if decimal && c0 == 'g' as u8 {
            Ok(Suffix::GB)
        } else if decimal && c0 == 't' as u8 {
            Ok(Suffix::TB)
        } else if (short || long) && c0 == 'k' as u8 {
            Ok(Suffix::Ki)
        } else if (short || long) && c0 == 'm' as u8 {
            Ok(Suffix::Mi)
        } else if (short || long) && c0 == 'g' as u8 {
            Ok(Suffix::Gi)
        } else if (short || long) && c0 == 't' as u8 {
            Ok(Suffix::Ti)
        } else {
            Err(InvalidSuffixError(s.to_owned()))
        }
    }
}

/// The canonical spelling of a unit names that unit.
pub proof fn law_spelling_is_read_back(suffix: Suffix)
    ensures
        Suffix::named(ascii_bytes(suffix.spelling())) == Some(suffix),
{
    let text = ascii_bytes(suffix.spelling());
    assert(text.len() == suffix.spelling().len());
    assert forall|i: int| 0 <= i < text.len() implies text[i] == suffix.spelling()[i] as u8 by {}
    match suffix {
        Suffix::B => {},
        Suffix::KB => {
            assert(fold_case(text[0]) == 'k' as u8 && fold_case(text[1]) == 'b' as u8);
        },
        Suffix::MB => {
            assert(fold_case(text[0]) == 'm' as u8 && fold_case(text[1]) == 'b' as u8);
        },
        Suffix::GB => {
            assert(fold_case(text[0]) == 'g' as u8 && fold_case(text[1]) == 'b' as u8);
        },
        Suffix::TB => {
            assert(fold_case(text[0]) == 't' as u8 && fold_case(text[1]) == 'b' as u8);
        },
        Suffix::Ki => {
            assert(fold_case(text[0]) == 'k' as u8 && fold_case(text[1]) == 'i' as u8
                && fold_case(text[2]) == 'b' as u8);
        },
        Suffix::Mi => {
            assert(fold_case(text[0]) == 'm' as u8 && fold_case(text[1]) == 'i' as u8
                && fold_case(text[2]) == 'b' as u8);
        },
        Suffix::Gi => {
            assert(fold_case(text[0]) == 'g' as u8 && fold_case(text[1]) == 'i' as u8
                && fold_case(text[2]) == 'b' as u8);
        },
        Suffix::Ti => {
            assert(fold_case(text[0]) == 't' as u8 && fold_case(text[1]) == 'i' as u8
                && fold_case(text[2]) == 'b' as u8);
        },
    }
}

/// A byte count as it is written: a magnitude and the unit it is counted in.
///
/// Two numbers are equal when they stand for the same count of bytes,
/// however they are written: `1024` bytes equals `1Ki`.
#[derive(Debug, Clone, Copy, Eq)]
pub struct Number {
    value: u64,
    suffix: Suffix,
}

impl Number {
    /// The magnitude as written.
    pub closed spec fn spec_value(&self) -> u64 {
        self.value
    }

    /// The unit as written.
    pub closed spec fn spec_suffix(&self) -> Suffix {
        self.suffix
    }

    /// The count of bytes that the number stands for.
    pub open spec fn byte_count(self) -> nat {
        self.value() as nat * self.suffix().scale()
    }

    /// The unit of the most compact exact spelling of `bytes`: the first
    /// unit, from the largest down, that divides the count evenly. Zero is
    /// written in plain bytes.
    pub open spec fn best_unit(bytes: nat) -> Suffix {
        if bytes == 0 {
            Suffix::B
        } else if bytes % Suffix::Ti.scale() == 0 {
            Suffix::Ti
        } else if bytes % Suffix::TB.scale() == 0 {
            Suffix::TB
        } else if bytes % Suffix::Gi.scale() == 0 {
            Suffix::Gi
        } else if bytes % Suffix::GB.scale() == 0 {
            Suffix::GB
        } else if bytes % Suffix::Mi.scale() == 0 {
            Suffix::Mi
        } else if bytes % Suffix::MB.scale() == 0 {
            Suffix::MB
        } else if bytes % Suffix::Ki.scale() == 0 {
            Suffix::Ki
        } else if bytes % Suffix::KB.scale() == 0 {
            Suffix::KB
        } else {
            Suffix::B
        }
    }

    /// The most compact exact spelling of the same count of bytes.
    pub closed spec fn normal_form(self) -> Number {
        let unit = Number::best_unit(self.byte_count());
        Number { value: (self.byte_count() / unit.scale()) as u64, suffix: unit }
    }

    pub fn new(value: u64, suffix: Suffix) -> (n: Number)
        ensures
            n.value() == value,
            n.suffix() == suffix,
    {
        Number { value, suffix }
    }

    #[verifier::when_used_as_spec(spec_value)]
    pub fn value(&self) -> (v: u64)
        ensures
            v == self.value(),
    {
        self.value
    }

    #[verifier::when_used_as_spec(spec_suffix)]
    pub fn suffix(&self) -> (s: Suffix)
        ensures
            s == self.suffix(),
    {
        self.suffix
    }

    /// The number as it is written: the magnitude in decimal, then the
    /// spelling of the unit.
    pub open spec fn written(self) -> Seq<char> {
        decimal_digits(self.value() as nat) + self.suffix().spelling()
    }

    pub fn to_string(&self) -> (s: String)
        ensures
            s@ == self.written(),
    {
        let mut s = decimal(self.value);
        s.append(self.suffix.as_str());
        s
    }

    /// The count of bytes, for a number whose count fits in 64 bits.
    pub fn bytes(&self) -> (b: u64)
        requires
            self.byte_count() <= u64::MAX,
        ensures
            b == self.byte_count(),
    {
        self.value * self.suffix.multiplier()
    }

    /// The count of bytes, or `None` where it does not fit in 64 bits.
    pub fn try_bytes(&self) -> (b: Option<u64>)
        ensures
            self.byte_count() <= u64::MAX ==> b == Some(self.byte_count() as u64),
            self.byte_count() > u64::MAX ==> b is None,
    {
        self.value.checked_mul(self.suffix.multiplier())
    }

    /// The count of bytes, which always fits in 128 bits.
    pub fn bytes_u128(&self) -> (b: u128)
        ensures
            b == self.byte_count(),
    {
        let val = self.value as u128;
        let mul = self.suffix.multiplier() as u128;
        assert(val * mul <= 0xffff_ffff_ffff_ffff * 0x100_0000_0000) by (nonlinear_arith)
            requires
                val <= 0xffff_ffff_ffff_ffff,
                mul <= 0x100_0000_0000,
        ;
        val * mul
    }

    /// The most compact exact spelling of the same count of bytes: the
    /// largest unit that divides the count evenly, trying `Ti`, `TB`, `Gi`,
    /// `GB`, `Mi`, `MB`, `Ki`, `KB` in this order, and plain bytes where
    /// none does. Zero becomes `0` in plain bytes.
    pub fn normalize(&self) -> (n: Number)
        ensures
            n == self.normal_form(),
            n.byte_count() == self.byte_count(),
            n.suffix() == Number::best_unit(self.byte_count()),
    {
        proof {
            lemma_unit_divides(*self);
        }
        if self.value == 0 {
            return Number::new(0, Suffix::B);
        }
        let val = self.bytes_u128();
        let suffix = if val % 1_099_511_627_776 == 0 {
            Suffix::Ti
        } else if val % 1_000_000_000_000 == 0 {
            Suffix::TB
        } else if val % 1_073_741_824 == 0 {
            Suffix::Gi
        } else if val % 1_000_000_000 == 0 {
            Suffix::GB
        } else if val % 1_048_576 == 0 {
            Suffix::Mi
        } else if val % 1_000_000 == 0 {
            Suffix::MB
        } else if val % 1_024 == 0 {
            Suffix::Ki
        } else if val % 1_000 == 0 {
            Suffix::KB
        } else {
            Suffix::B
        };
        let unit = suffix.multiplier() as u128;
        proof {
            lemma_exact_quotient(*self, suffix);
        }
        let val64 = (val / unit) as u64;
        Number::new(val64, suffix)
    }
}

impl PartialEq for Number {
    fn eq(&self, other: &Number) -> (r: bool) {
        if self.suffix == other.suffix {
            proof {
                law_same_unit(*self, *other);
            }
            self.value == other.value
        } else {
            self.bytes_u128() == other.bytes_u128()
        }
    }
}

impl vstd::std_specs::cmp::PartialEqSpecImpl for Number {
    open spec fn obeys_eq_spec() -> bool {
        true
    }

    open spec fn eq_spec(&self, other: &Number) -> bool {
        self.byte_count() == other.byte_count()
    }
}

/// Numbers written in the same unit stand for the same count of bytes
/// exactly when their magnitudes are the same.
pub proof fn law_same_unit(a: Number, b: Number)
    requires
        a.suffix() == b.suffix(),
    ensures
        a.byte_count() == b.byte_count() <==> a.value() == b.value(),
{
    let m = a.suffix().scale() as int;
    let x = a.value() as int;
    let y = b.value() as int;
    assert(m > 0);
    assert(x * m == y * m ==> x == y) by (nonlinear_arith)
        requires
            m > 0,
    ;
}

impl Default for Number {
    /// Zero bytes.
    fn default() -> (n: Number)
        ensures
            n.value() == 0,
            n.suffix() == Suffix::B,
    {
        Number::new(0, Suffix::B)
    }
}

/// The count of a number is a multiple of its unit.
proof fn lemma_unit_divides(a: Number)
    ensures
        a.byte_count() % a.suffix().scale() == 0,
        a.value() > 0 <==> a.byte_count() > 0,
{
    let v = a.value() as int;
    let m = a.suffix().scale() as int;
    assert((v * m) % m == 0) by (nonlinear_arith)
        requires
            m > 0,
    ;
    assert(v > 0 <==> v * m > 0) by (nonlinear_arith)
        requires
            v >= 0,
            m > 0,
    ;
}

/// In the best unit for its count a number has a whole magnitude, no larger
/// than the magnitude it is written with.
proof fn lemma_exact_quotient(a: Number, unit: Suffix)
    requires
        unit == Number::best_unit(a.byte_count()),
    ensures
        (a.byte_count() / unit.scale()) * unit.scale() == a.byte_count(),
        a.byte_count() / unit.scale() <= a.value(),
{
    let bytes = a.byte_count() as int;
    let u = unit.scale() as int;
    let v = a.value() as int;
    let m = a.suffix().scale() as int;
    lemma_unit_divides(a);
    law_best_unit_is_largest(a.byte_count(), a.suffix());
    assert(bytes % u == 0);
    assert((bytes / u) * u == bytes) by (nonlinear_arith)
        requires
            bytes % u == 0,
            u > 0,
    ;
    if v > 0 {
        assert(u >= m);
        assert(bytes / u <= v) by (nonlinear_arith)
            requires
                bytes == v * m,
                v > 0,
                u >= m,
                m > 0,
        ;
    }
}

/// The unit of the normal form divides the count, and no unit that divides
/// a count other than zero is larger: where a binary and a decimal unit both
/// divide it, the larger of the two wins.
pub proof fn law_best_unit_is_largest(bytes: nat, other: Suffix)
    ensures
        bytes % Number::best_unit(bytes).scale() == 0,
        bytes > 0 && bytes % other.scale() == 0 ==> other.scale() <= Number::best_unit(
            bytes,
        ).scale(),
{
}

/// The normal form stands for the same count of bytes, in the best unit
/// for that count.
pub proof fn law_normal_form_keeps_count(a: Number)
    ensures
        a.normal_form().byte_count() == a.byte_count(),
        a.normal_form().suffix() == Number::best_unit(a.byte_count()),
{
    lemma_exact_quotient(a, Number::best_unit(a.byte_count()));
}

/// The normal form depends on the count of bytes alone: numbers that are
/// equal have the same normal form, field for field.
pub proof fn law_normal_form_is_canonical(a: Number, b: Number)
    requires
        a.byte_count() == b.byte_count(),
    ensures
        a.normal_form() == b.normal_form(),
{
}

/// Normalizing a second time changes nothing.
pub proof fn law_normal_form_is_idempotent(a: Number)
    ensures
        a.normal_form().normal_form() == a.normal_form(),
{
    law_normal_form_keeps_count(a);
    law_normal_form_keeps_count(a.normal_form());
    law_same_unit(a.normal_form().normal_form(), a.normal_form());
}

} // verus!
