//! Reading calculator input: which arithmetic expression to evaluate, or which
//! conversion between units of one dimension to perform. Input is never executed;
//! the arithmetic itself is done by the caller.
use vstd::prelude::*;
use vstd::utf8::{encode_utf8, is_ascii_chars, is_ascii_chars_encode_utf8};

use crate::text::{
    ascii_upper, chars_of, is_ascii_text, is_prefix, is_space, is_text, lemma_leading_spaces_props,
    lemma_lower_ignores_ascii_case, lemma_trailing_spaces_props, leading_spaces, trailing_spaces,
    lower, occurs_at, slice_range, starts_with, string_of, to_lowercase, trim,
    trim_bounds, trimmed, utf8_longer_than,
};

verus! {

/// Longest accepted input, in UTF-8 bytes.
pub const MAX_INPUT: usize = 512;

#[derive(Clone, Copy, Debug, PartialEq, Eq, Structural)]
pub enum Dimension {
    Length,
    Mass,
    Time,
    Volume,
    Temperature,
    Data,
    Angle,
}

#[derive(Clone, Copy, Debug, PartialEq, Eq, Structural)]
pub enum Unit {
    Millimetre,
    Centimetre,
    Metre,
    Kilometre,
    Inch,
    Foot,
    Yard,
    Mile,
    Milligram,
    Gram,
    Kilogram,
    Pound,
    Ounce,
    Millisecond,
    Second,
    Minute,
    Hour,
    Day,
    Millilitre,
    Litre,
    Gallon,
    Byte,
    Kilobyte,
    Megabyte,
    Gigabyte,
    Terabyte,
    Kibibyte,
    Mebibyte,
    Gibibyte,
    Celsius,
    Fahrenheit,
    Kelvin,
    Degree,
    Radian,
}

pub open spec fn dimension_of(u: Unit) -> Dimension {
    match u {
        Unit::Millimetre | Unit::Centimetre | Unit::Metre | Unit::Kilometre | Unit::Inch | Unit::Foot
        | Unit::Yard | Unit::Mile => Dimension::Length,
        Unit::Milligram | Unit::Gram | Unit::Kilogram | Unit::Pound | Unit::Ounce => Dimension::Mass,
        Unit::Millisecond | Unit::Second | Unit::Minute | Unit::Hour | Unit::Day => Dimension::Time,
        Unit::Millilitre | Unit::Litre | Unit::Gallon => Dimension::Volume,
        Unit::Byte | Unit::Kilobyte | Unit::Megabyte | Unit::Gigabyte | Unit::Terabyte
        | Unit::Kibibyte | Unit::Mebibyte | Unit::Gibibyte => Dimension::Data,
        Unit::Celsius | Unit::Fahrenheit | Unit::Kelvin => Dimension::Temperature,
        Unit::Degree | Unit::Radian => Dimension::Angle,
    }
}

impl Unit {
    /// What the unit measures.
    pub fn dimension(self) -> (r: Dimension)
        ensures
            r == dimension_of(self),
    {
        match self {
            Unit::Millimetre | Unit::Centimetre | Unit::Metre | Unit::Kilometre | Unit::Inch
            | Unit::Foot | Unit::Yard | Unit::Mile => Dimension::Length,
            Unit::Milligram | Unit::Gram | Unit::Kilogram | Unit::Pound | Unit::Ounce => {
                Dimension::Mass
            },
            Unit::Millisecond | Unit::Second | Unit::Minute | Unit::Hour | Unit::Day => {
                Dimension::Time
            },
            Unit::Millilitre | Unit::Litre | Unit::Gallon => Dimension::Volume,
            Unit::Byte | Unit::Kilobyte | Unit::Megabyte | Unit::Gigabyte | Unit::Terabyte
            | Unit::Kibibyte | Unit::Mebibyte | Unit::Gibibyte => Dimension::Data,
            Unit::Celsius | Unit::Fahrenheit | Unit::Kelvin => Dimension::Temperature,
            Unit::Degree | Unit::Radian => Dimension::Angle,
        }
    }
}

/// The unit a lowercased name denotes.
pub open spec fn unit_for(s: Seq<char>) -> Option<Unit> {
    if s == "mm"@ {
        Some(Unit::Millimetre)
    } else if s == "cm"@ {
        Some(Unit::Centimetre)
    } else if s == "m"@ || s == "meter"@ || s == "meters"@ || s == "metre"@ || s == "metres"@ {
        Some(Unit::Metre)
    } else if s == "km"@ {
        Some(Unit::Kilometre)
    } else if s == "in"@ || s == "inch"@ || s == "inches"@ {
        Some(Unit::Inch)
    } else if s == "ft"@ || s == "foot"@ || s == "feet"@ {
        Some(Unit::Foot)
    } else if s == "yd"@ || s == "yards"@ {
        Some(Unit::Yard)
    } else if s == "mi"@ || s == "mile"@ || s == "miles"@ {
        Some(Unit::Mile)
    } else if s == "mg"@ {
        Some(Unit::Milligram)
    } else if s == "g"@ {
        Some(Unit::Gram)
    } else if s == "kg"@ {
        Some(Unit::Kilogram)
    } else if s == "lb"@ || s == "lbs"@ {
        Some(Unit::Pound)
    } else if s == "oz"@ {
        Some(Unit::Ounce)
    } else if s == "ms"@ {
        Some(Unit::Millisecond)
    } else if s == "s"@ || s == "sec"@ || s == "seconds"@ {
        Some(Unit::Second)
    } else if s == "min"@ || s == "minutes"@ {
        Some(Unit::Minute)
    } else if s == "h"@ || s == "hr"@ || s == "hours"@ {
        Some(Unit::Hour)
    } else if s == "d"@ || s == "days"@ {
        Some(Unit::Day)
    } else if s == "ml"@ {
        Some(Unit::Millilitre)
    } else if s == "l"@ || s == "liters"@ || s == "litres"@ {
        Some(Unit::Litre)
    } else if s == "gal"@ {
        Some(Unit::Gallon)
    } else if s == "b"@ || s == "bytes"@ {
        Some(Unit::Byte)
    } else if s == "kb"@ {
        Some(Unit::Kilobyte)
    } else if s == "mb"@ {
        Some(Unit::Megabyte)
    } else if s == "gb"@ {
        Some(Unit::Gigabyte)
    } else if s == "tb"@ {
        Some(Unit::Terabyte)
    } else if s == "kib"@ {
        Some(Unit::Kibibyte)
    } else if s == "mib"@ {
        Some(Unit::Mebibyte)
    } else if s == "gib"@ {
        Some(Unit::Gibibyte)
    } else if s == "c"@ || s == "°c"@ || s == "celsius"@ {
        Some(Unit::Celsius)
    } else if s == "f"@ || s == "°f"@ || s == "fahrenheit"@ {
        Some(Unit::Fahrenheit)
    } else if s == "k"@ || s == "kelvin"@ {
        Some(Unit::Kelvin)
    } else if s == "deg"@ || s == "degrees"@ {
        Some(Unit::Degree)
    } else if s == "rad"@ || s == "radians"@ {
        Some(Unit::Radian)
    } else {
        None
    }
}

/// The unit a lowercased name denotes.
pub fn unit_named(s: &[char]) -> (r: Option<Unit>)
    ensures
        r == unit_for(s@),
{
    if is_text(s, "mm") {
        Some(Unit::Millimetre)
    } else if is_text(s, "cm") {
        Some(Unit::Centimetre)
    } else if is_text(s, "m") || is_text(s, "meter") || is_text(s, "meters") || is_text(s, "metre")
        || is_text(s, "metres") {
        Some(Unit::Metre)
    } else if is_text(s, "km") {
        Some(Unit::Kilometre)
    } else if is_text(s, "in") || is_text(s, "inch") || is_text(s, "inches") {
        Some(Unit::Inch)
    } else if is_text(s, "ft") || is_text(s, "foot") || is_text(s, "feet") {
        Some(Unit::Foot)
    } else if is_text(s, "yd") || is_text(s, "yards") {
        Some(Unit::Yard)
    } else if is_text(s, "mi") || is_text(s, "mile") || is_text(s, "miles") {
        Some(Unit::Mile)
    } else if is_text(s, "mg") {
        Some(Unit::Milligram)
    } else if is_text(s, "g") {
        Some(Unit::Gram)
    } else if is_text(s, "kg") {
        Some(Unit::Kilogram)
    } else if is_text(s, "lb") || is_text(s, "lbs") {
        Some(Unit::Pound)
    } else if is_text(s, "oz") {
        Some(Unit::Ounce)
    } else if is_text(s, "ms") {
        Some(Unit::Millisecond)
    } else if is_text(s, "s") || is_text(s, "sec") || is_text(s, "seconds") {
        Some(Unit::Second)
    } else if is_text(s, "min") || is_text(s, "minutes") {
        Some(Unit::Minute)
    } else if is_text(s, "h") || is_text(s, "hr") || is_text(s, "hours") {
        Some(Unit::Hour)
    } else if is_text(s, "d") || is_text(s, "days") {
        Some(Unit::Day)
    } else if is_text(s, "ml") {
        Some(Unit::Millilitre)
    } else if is_text(s, "l") || is_text(s, "liters") || is_text(s, "litres") {
        Some(Unit::Litre)
    } else if is_text(s, "gal") {
        Some(Unit::Gallon)
    } else if is_text(s, "b") || is_text(s, "bytes") {
        Some(Unit::Byte)
    } else if is_text(s, "kb") {
        Some(Unit::Kilobyte)
    } else if is_text(s, "mb") {
        Some(Unit::Megabyte)
    } else if is_text(s, "gb") {
        Some(Unit::Gigabyte)
    } else if is_text(s, "tb") {
        Some(Unit::Terabyte)
    } else if is_text(s, "kib") {
        Some(Unit::Kibibyte)
    } else if is_text(s, "mib") {
        Some(Unit::Mebibyte)
    } else if is_text(s, "gib") {
        Some(Unit::Gibibyte)
    } else if is_text(s, "c") || is_text(s, "°c") || is_text(s, "celsius") {
        Some(Unit::Celsius)
    } else if is_text(s, "f") || is_text(s, "°f") || is_text(s, "fahrenheit") {
        Some(Unit::Fahrenheit)
    } else if is_text(s, "k") || is_text(s, "kelvin") {
        Some(Unit::Kelvin)
    } else if is_text(s, "deg") || is_text(s, "degrees") {
        Some(Unit::Degree)
    } else if is_text(s, "rad") || is_text(s, "radians") {
        Some(Unit::Radian)
    } else {
        None
    }
}

/// The unit a name denotes, case-insensitively.
pub fn unit(name: &str) -> (r: Option<Unit>)
    ensures
        r == unit_for(lower(name@)),
{
    let n = chars_of(name);
    let l = to_lowercase(n.as_slice());
    unit_named(l.as_slice())
}

} // verus!

verus! {

/// What the calculator is asked to do.
#[derive(Debug, PartialEq, Eq)]
pub enum Request {
    /// Not a calculation (for example, a file name).
    Skip,
    /// Evaluate an arithmetic expression.
    Math { expression: String },
    /// Evaluate `expression` in unit `from` and convert it to unit `to`, named `target`.
    Convert { expression: String, from: Unit, to: Unit, target: String },
}

/// Why the input was refused.
#[derive(Debug, PartialEq, Eq)]
pub enum CalcError {
    TooLong,
    /// A conversion without a number before the source unit.
    Shape,
    UnknownUnit { name: String },
    DifferentDimensions,
}

pub enum RequestSpec {
    Skip,
    Math { expression: Seq<char> },
    Convert { expression: Seq<char>, from: Unit, to: Unit, target: Seq<char> },
}

pub enum CalcErrorSpec {
    TooLong,
    Shape,
    UnknownUnit { name: Seq<char> },
    DifferentDimensions,
}

impl View for Request {
    type V = RequestSpec;

    open spec fn view(&self) -> RequestSpec {
        match self {
            Request::Skip => RequestSpec::Skip,
            Request::Math { expression } => RequestSpec::Math { expression: expression@ },
            Request::Convert { expression, from, to, target } => RequestSpec::Convert {
                expression: expression@,
                from: *from,
                to: *to,
                target: target@,
            },
        }
    }
}

impl View for CalcError {
    type V = CalcErrorSpec;

    open spec fn view(&self) -> CalcErrorSpec {
        match self {
            CalcError::TooLong => CalcErrorSpec::TooLong,
            CalcError::Shape => CalcErrorSpec::Shape,
            CalcError::UnknownUnit { name } => CalcErrorSpec::UnknownUnit { name: name@ },
            CalcError::DifferentDimensions => CalcErrorSpec::DifferentDimensions,
        }
    }
}

pub open spec fn outcome_view(r: Result<Request, CalcError>) -> Result<RequestSpec, CalcErrorSpec> {
    match r {
        Ok(q) => Ok(q@),
        Err(e) => Err(e@),
    }
}

/// `s` without its leading `'='` characters.
pub open spec fn strip_equals(s: Seq<char>) -> Seq<char>
    decreases s.len(),
{
    if s.len() > 0 && s[0] == '=' {
        strip_equals(s.drop_first())
    } else {
        s
    }
}

/// The input with surrounding whitespace and leading `'='` signs removed.
pub open spec fn cleaned(input: Seq<char>) -> Seq<char> {
    trim(strip_equals(trim(input)))
}

/// `×`, `÷` and `−` written as `*`, `/` and `-`.
pub open spec fn normalize_char(c: char) -> char {
    if c == '×' {
        '*'
    } else if c == '÷' {
        '/'
    } else if c == '−' {
        '-'
    } else {
        c
    }
}

pub open spec fn normalized(s: Seq<char>) -> Seq<char> {
    s.map_values(|c: char| normalize_char(c))
}

/// `k` is the last position where `n` occurs in `h`.
pub open spec fn is_last_occurrence(h: Seq<char>, n: Seq<char>, k: int) -> bool {
    crate::text::occurs_at(h, n, k) && forall|j: int| k < j ==> !crate::text::occurs_at(h, n, j)
}

pub open spec fn last_occurrence(h: Seq<char>, n: Seq<char>) -> int {
    choose|k: int| is_last_occurrence(h, n, k)
}

/// A character that can end the number part of a conversion.
pub open spec fn ends_operand(c: char) -> bool {
    ('0' <= c && c <= '9') || c == ')' || c == '.'
}

pub open spec fn has_operand_end(s: Seq<char>) -> bool {
    exists|i: int| 0 <= i < s.len() && ends_operand(#[trigger] s[i])
}

/// Position of the last operand-ending character.
pub open spec fn last_operand_end(s: Seq<char>) -> int {
    choose|i: int|
        0 <= i < s.len() && ends_operand(s[i]) && forall|j: int| i < j < s.len() ==> !ends_operand(#[trigger] s[j])
}

/// Input that reads as arithmetic: it starts with a digit, `(`, `-`, `+` or `.`,
/// or with a function or constant name.
pub open spec fn looks_like_math(s: Seq<char>) -> bool {
    ||| (s.len() > 0 && (('0' <= s[0] && s[0] <= '9') || s[0] == '(' || s[0] == '-' || s[0] == '+'
        || s[0] == '.'))
    ||| is_prefix("sqrt("@, s)
    ||| is_prefix("sin("@, s)
    ||| is_prefix("cos("@, s)
    ||| is_prefix("tan("@, s)
    ||| is_prefix("ln("@, s)
    ||| is_prefix("log("@, s)
    ||| is_prefix("abs("@, s)
    ||| is_prefix("pi"@, s)
    ||| is_prefix("e^"@, s)
}

/// The conversion `n` asks for: split at the last " to " (or, failing that, the
/// last " in "), then split the left part after its last operand-ending character.
pub open spec fn conversion_of(n: Seq<char>) -> Result<RequestSpec, CalcErrorSpec> {
    let pat = if crate::text::contains(n, " to "@) { " to "@ } else { " in "@ };
    let k = last_occurrence(n, pat);
    let left = n.take(k);
    let target = trim(n.skip(k + 4));
    if !has_operand_end(left) {
        Err(CalcErrorSpec::Shape)
    } else {
        let i = last_operand_end(left);
        let expression = left.take(i + 1);
        let source = trim(left.skip(i + 1));
        match (unit_for(lower(source)), unit_for(lower(target))) {
            (None, _) => Err(CalcErrorSpec::UnknownUnit { name: source }),
            (Some(_), None) => Err(CalcErrorSpec::UnknownUnit { name: target }),
            (Some(from), Some(to)) => if dimension_of(from) != dimension_of(to) {
                Err(CalcErrorSpec::DifferentDimensions)
            } else {
                Ok(RequestSpec::Convert { expression, from, to, target })
            },
        }
    }
}

/// What the calculator makes of `input`.
pub open spec fn parse_spec(input: Seq<char>) -> Result<RequestSpec, CalcErrorSpec> {
    let t = cleaned(input);
    if t.len() == 0 {
        Ok(RequestSpec::Skip)
    } else if encode_utf8(t).len() > MAX_INPUT {
        Err(CalcErrorSpec::TooLong)
    } else {
        let n = normalized(t);
        if crate::text::contains(n, " to "@) || crate::text::contains(n, " in "@) {
            conversion_of(n)
        } else if looks_like_math(n) {
            Ok(RequestSpec::Math { expression: n })
        } else {
            Ok(RequestSpec::Skip)
        }
    }
}

/// The text shown for an error.
pub open spec fn message_of(e: CalcErrorSpec) -> Seq<char> {
    match e {
        CalcErrorSpec::TooLong => "Expression is too long (maximum 512 characters)."@,
        CalcErrorSpec::Shape => "Try a conversion like 10 km to mi."@,
        CalcErrorSpec::UnknownUnit { name } => "Unknown unit: "@ + name,
        CalcErrorSpec::DifferentDimensions => "These units measure different things."@,
    }
}

impl CalcError {
    pub fn message(&self) -> (r: String)
        ensures
            r@ == message_of(self@),
    {
        match self {
            CalcError::TooLong => string_of(
                chars_of("Expression is too long (maximum 512 characters).").as_slice(),
            ),
            CalcError::Shape => string_of(chars_of("Try a conversion like 10 km to mi.").as_slice()),
            CalcError::UnknownUnit { name } => {
                let mut m = chars_of("Unknown unit: ");
                let n = chars_of(name.as_str());
                crate::text::append(&mut m, n.as_slice());
                string_of(m.as_slice())
            },
            CalcError::DifferentDimensions => string_of(
                chars_of("These units measure different things.").as_slice(),
            ),
        }
    }
}

fn strip_equals_chars(s: &[char]) -> (r: Vec<char>)
    ensures
        r@ == strip_equals(s@),
{
    let mut i: usize = 0;
    assert(s@.skip(0) =~= s@);
    while i < s.len() && s[i] == '='
        invariant
            i <= s@.len(),
            strip_equals(s@) == strip_equals(s@.skip(i as int)),
        decreases s@.len() - i,
    {
        assert(s@.skip(i as int).drop_first() =~= s@.skip(i + 1));
        i = i + 1;
    }
    assert(s@.skip(0) =~= s@);
    let r = slice_range(s, i, s.len());
    assert(r@ =~= s@.skip(i as int));
    r
}

fn normalize_chars(s: &[char]) -> (r: Vec<char>)
    ensures
        r@ == normalized(s@),
{
    let mut r: Vec<char> = Vec::new();
    let mut i: usize = 0;
    while i < s.len()
        invariant
            i <= s@.len(),
            r@ == normalized(s@.take(i as int)),
        decreases s@.len() - i,
    {
        let c = s[i];
        let d = if c == '×' {
            '*'
        } else if c == '÷' {
            '/'
        } else if c == '−' {
            '-'
        } else {
            c
        };
        r.push(d);
        assert(r@ =~= normalized(s@.take(i + 1)));
        i = i + 1;
    }
    assert(s@.take(s@.len() as int) =~= s@);
    r
}

/// Where `n` last occurs in `h`, if anywhere.
fn last_match(h: &[char], n: &[char]) -> (r: Option<usize>)
    ensures
        r is None <==> !crate::text::contains(h@, n@),
        r matches Some(k) ==> is_last_occurrence(h@, n@, k as int),
{
    if n.len() > h.len() {
        return None;
    }
    let mut k: usize = h.len() - n.len();
    loop
        invariant
            k + n@.len() <= h@.len(),
            forall|j: int| k < j ==> !crate::text::occurs_at(h@, n@, j),
        decreases k,
    {
        if crate::text::matches_at(h, n, k) {
            return Some(k);
        }
        if k == 0 {
            return None;
        }
        k = k - 1;
    }
}

fn last_operand_end_index(s: &[char]) -> (r: Option<usize>)
    ensures
        r is None <==> !has_operand_end(s@),
        r matches Some(i) ==> i < s@.len() && ends_operand(s@[i as int]) && forall|j: int|
            i < j < s@.len() ==> !ends_operand(#[trigger] s@[j]),
{
    let mut i: usize = s.len();
    while i > 0
        invariant
            i <= s@.len(),
            forall|j: int| i <= j < s@.len() ==> !ends_operand(#[trigger] s@[j]),
        decreases i,
    {
        i = i - 1;
        let c = s[i];
        if ('0' <= c && c <= '9') || c == ')' || c == '.' {
            return Some(i);
        }
    }
    None
}

fn looks_like_math_chars(s: &[char]) -> (r: bool)
    ensures
        r == looks_like_math(s@),
{
    let first = s.len() > 0 && (('0' <= s[0] && s[0] <= '9') || s[0] == '(' || s[0] == '-' || s[0]
        == '+' || s[0] == '.');
    first || starts_with(s, chars_of("sqrt(").as_slice()) || starts_with(s, chars_of("sin(").as_slice())
        || starts_with(s, chars_of("cos(").as_slice()) || starts_with(s, chars_of("tan(").as_slice())
        || starts_with(s, chars_of("ln(").as_slice()) || starts_with(s, chars_of("log(").as_slice())
        || starts_with(s, chars_of("abs(").as_slice()) || starts_with(s, chars_of("pi").as_slice())
        || starts_with(s, chars_of("e^").as_slice())
}

fn conversion(n: &[char], k: usize, pat: &[char]) -> (r: Result<Request, CalcError>)
    requires
        pat@ == (if crate::text::contains(n@, " to "@) { " to "@ } else { " in "@ }),
        is_last_occurrence(n@, pat@, k as int),
    ensures
        outcome_view(r) == conversion_of(n@),
{
    let ghost kk = last_occurrence(n@, pat@);
    proof {
        reveal_strlit(" to ");
        reveal_strlit(" in ");
        assert(is_last_occurrence(n@, pat@, kk));
        if kk < k {
            assert(!crate::text::occurs_at(n@, pat@, k as int));
        }
        if k < kk {
        }
        assert(kk == k);
    }
    let left = slice_range(n, 0, k);
    assert(left@ =~= n@.take(k as int));
    let nl = n.len();
    assert(pat@.len() == 4 && k + 4 <= nl);
    let rest = slice_range(n, k + 4, nl);
    assert(rest@ =~= n@.skip(k + 4));
    let target = trimmed(rest.as_slice());
    match last_operand_end_index(left.as_slice()) {
        None => Err(CalcError::Shape),
        Some(i) => {
            proof {
                let ii = last_operand_end(left@);
                assert(0 <= ii < left@.len() && ends_operand(left@[ii]));
                if ii < i {
                    assert(!ends_operand(left@[i as int]));
                }
                if i < ii {
                }
                assert(ii == i);
            }
            let expression = slice_range(left.as_slice(), 0, i + 1);
            assert(expression@ =~= left@.take(i + 1));
            let after = slice_range(left.as_slice(), i + 1, left.len());
            assert(after@ =~= left@.skip(i + 1));
            let source = trimmed(after.as_slice());
            let from = unit_named(to_lowercase(source.as_slice()).as_slice());
            let to = unit_named(to_lowercase(target.as_slice()).as_slice());
            match from {
                None => Err(CalcError::UnknownUnit { name: string_of(source.as_slice()) }),
                Some(f) => match to {
                    None => Err(CalcError::UnknownUnit { name: string_of(target.as_slice()) }),
                    Some(t) => {
                        if f.dimension() != t.dimension() {
                            Err(CalcError::DifferentDimensions)
                        } else {
                            Ok(
                                Request::Convert {
                                    expression: string_of(expression.as_slice()),
                                    from: f,
                                    to: t,
                                    target: string_of(target.as_slice()),
                                },
                            )
                        }
                    },
                },
            }
        },
    }
}

/// Read calculator input: nothing to calculate, an expression, or a conversion.
pub fn parse(input: &str) -> (r: Result<Request, CalcError>)
    ensures
        outcome_view(r) == parse_spec(input@),
{
    let raw = chars_of(input);
    let t1 = trimmed(raw.as_slice());
    let t2 = strip_equals_chars(t1.as_slice());
    let t = trimmed(t2.as_slice());
    if t.len() == 0 {
        return Ok(Request::Skip);
    }
    if utf8_longer_than(t.as_slice(), MAX_INPUT) {
        return Err(CalcError::TooLong);
    }
    let n = normalize_chars(t.as_slice());
    let to_pat = chars_of(" to ");
    let in_pat = chars_of(" in ");
    match last_match(n.as_slice(), to_pat.as_slice()) {
        Some(k) => conversion(n.as_slice(), k, to_pat.as_slice()),
        None => match last_match(n.as_slice(), in_pat.as_slice()) {
            Some(k) => conversion(n.as_slice(), k, in_pat.as_slice()),
            None => {
                if looks_like_math_chars(n.as_slice()) {
                    Ok(Request::Math { expression: string_of(n.as_slice()) })
                } else {
                    Ok(Request::Skip)
                }
            },
        },
    }
}

/// Conversions are dimension-aware: a conversion is only ever accepted between
/// two units of one dimension, and accepted input is within the length limit.
pub proof fn lemma_accepted_conversions(input: Seq<char>)
    ensures
        parse_spec(input) matches Ok(RequestSpec::Convert { from, to, .. }) ==> dimension_of(from)
            == dimension_of(to),
        parse_spec(input) is Ok ==> encode_utf8(cleaned(input)).len() <= MAX_INPUT,
        parse_spec(input) == Err::<RequestSpec, CalcErrorSpec>(CalcErrorSpec::TooLong) <==> (
        cleaned(input).len() > 0 && encode_utf8(cleaned(input)).len() > MAX_INPUT),
{
    let n = normalized(cleaned(input));
    if crate::text::contains(n, " to "@) || crate::text::contains(n, " in "@) {
        let c = conversion_of(n);
        assert(c != Err::<RequestSpec, CalcErrorSpec>(CalcErrorSpec::TooLong));
    }
}

/// Unit names are case-insensitive: an ASCII name with its letters uppercased
/// denotes the same unit.
pub proof fn lemma_units_ignore_ascii_case(name: Seq<char>)
    requires
        is_ascii_text(name),
    ensures
        unit_for(lower(ascii_upper(name))) == unit_for(lower(name)),
{
    lemma_lower_ignores_ascii_case(name);
}

proof fn lemma_utf8_len_concat(a: Seq<char>, b: Seq<char>)
    ensures
        encode_utf8(a + b).len() == encode_utf8(a).len() + encode_utf8(b).len(),
    decreases a.len(),
{
    if a.len() == 0 {
        assert(a + b =~= b);
    } else {
        assert((a + b).drop_first() =~= a.drop_first() + b);
        assert((a + b)[0] == a[0]);
        lemma_utf8_len_concat(a.drop_first(), b);
    }
}

/// Normalizing keeps and creates no occurrence of a conversion keyword.
proof fn lemma_keyword_occurs(s: Seq<char>, pat: Seq<char>, k: int)
    requires
        pat == " to "@ || pat == " in "@,
    ensures
        occurs_at(normalized(s), pat, k) == occurs_at(s, pat, k),
{
    reveal_strlit(" to ");
    reveal_strlit(" in ");
    let n = normalized(s);
    if 0 <= k && k + 4 <= s.len() {
        if occurs_at(s, pat, k) {
            assert forall|i: int| 0 <= i < 4 implies n.subrange(k, k + 4)[i] == pat[i] by {
                assert(s.subrange(k, k + 4)[i] == pat[i]);
                assert(s[k + i] == pat[i]);
            }
            assert(n.subrange(k, k + 4) =~= pat);
        }
        if occurs_at(n, pat, k) {
            assert forall|i: int| 0 <= i < 4 implies s.subrange(k, k + 4)[i] == pat[i] by {
                assert(n.subrange(k, k + 4)[i] == pat[i]);
                assert(n[k + i] == normalize_char(s[k + i]));
            }
            assert(s.subrange(k, k + 4) =~= pat);
        }
    }
}

/// " to " and " in " are interchangeable: two inputs that clean to the same text
/// apart from the conversion keyword, each holding its keyword exactly once and
/// never the other one, are read alike.
pub proof fn lemma_to_and_in_interchangeable(
    a: Seq<char>,
    b: Seq<char>,
    left: Seq<char>,
    right: Seq<char>,
)
    requires
        cleaned(a) == left + " to "@ + right,
        cleaned(b) == left + " in "@ + right,
        forall|j: int| occurs_at(cleaned(a), " to "@, j) ==> j == left.len(),
        !crate::text::contains(cleaned(a), " in "@),
        forall|j: int| occurs_at(cleaned(b), " in "@, j) ==> j == left.len(),
        !crate::text::contains(cleaned(b), " to "@),
    ensures
        parse_spec(a) == parse_spec(b),
{
    reveal_strlit(" to ");
    reveal_strlit(" in ");
    let to = " to "@;
    let kin = " in "@;
    let ca = cleaned(a);
    let cb = cleaned(b);
    let na = normalized(ca);
    let nb = normalized(cb);
    let k = left.len() as int;
    // The lengths, in characters and in UTF-8 bytes, agree.
    lemma_utf8_len_concat(left + to, right);
    lemma_utf8_len_concat(left + kin, right);
    lemma_utf8_len_concat(left, to);
    lemma_utf8_len_concat(left, kin);
    assert(is_ascii_chars(to));
    assert(is_ascii_chars(kin));
    is_ascii_chars_encode_utf8(to);
    is_ascii_chars_encode_utf8(kin);
    // The keywords occur in the normalized texts exactly where they occur in the cleaned ones.
    assert(ca.subrange(k, k + 4) =~= to);
    assert(cb.subrange(k, k + 4) =~= kin);
    lemma_keyword_occurs(ca, to, k);
    lemma_keyword_occurs(cb, kin, k);
    assert(crate::text::contains(na, to));
    assert(crate::text::contains(nb, kin));
    assert(!crate::text::contains(nb, to)) by {
        if crate::text::contains(nb, to) {
            let j = choose|j: int| occurs_at(nb, to, j);
            lemma_keyword_occurs(cb, to, j);
        }
    }
    assert forall|j: int| k < j implies !occurs_at(na, to, j) by {
        lemma_keyword_occurs(ca, to, j);
    }
    assert forall|j: int| k < j implies !occurs_at(nb, kin, j) by {
        lemma_keyword_occurs(cb, kin, j);
    }
    assert(is_last_occurrence(na, to, k));
    assert(is_last_occurrence(nb, kin, k));
    let ka = last_occurrence(na, to);
    let kb = last_occurrence(nb, kin);
    assert(ka == k) by {
        lemma_keyword_occurs(ca, to, ka);
    }
    assert(kb == k) by {
        lemma_keyword_occurs(cb, kin, kb);
    }
    // What lies on either side of the keyword is the same.
    assert(na.take(k) =~= nb.take(k)) by {
        assert forall|i: int| 0 <= i < k implies #[trigger] na.take(k)[i] == nb.take(k)[i] by {
            assert(ca[i] == left[i] && cb[i] == left[i]);
        }
    }
    assert(na.skip(k + 4) =~= nb.skip(k + 4)) by {
        assert forall|i: int| 0 <= i < na.len() - (k + 4) implies #[trigger] na.skip(k + 4)[i] == nb.skip(k + 4)[i] by {
            assert(ca[k + 4 + i] == right[i] && cb[k + 4 + i] == right[i]);
        }
    }
    assert(conversion_of(na) == conversion_of(nb));
}

/// `a` and `b` have whitespace and `'='` at the same positions.
pub open spec fn same_shape(a: Seq<char>, b: Seq<char>) -> bool {
    &&& a.len() == b.len()
    &&& forall|i: int|
        0 <= i < a.len() ==> (is_space(#[trigger] a[i]) == is_space(b[i]) && (a[i] == '=') == (b[i]
            == '='))
}

/// Count of leading `'='` characters.
pub open spec fn equals_prefix(s: Seq<char>) -> nat
    decreases s.len(),
{
    if s.len() > 0 && s[0] == '=' {
        1 + equals_prefix(s.drop_first())
    } else {
        0
    }
}

proof fn lemma_shape_subrange(a: Seq<char>, b: Seq<char>, x: int, y: int)
    requires
        same_shape(a, b),
        0 <= x <= y <= a.len(),
    ensures
        same_shape(a.subrange(x, y), b.subrange(x, y)),
{
    assert forall|i: int| 0 <= i < y - x implies (is_space(#[trigger] a.subrange(x, y)[i]) == is_space(
        b.subrange(x, y)[i],
    ) && (a.subrange(x, y)[i] == '=') == (b.subrange(x, y)[i] == '=')) by {
        assert(a.subrange(x, y)[i] == a[x + i]);
        assert(b.subrange(x, y)[i] == b[x + i]);
    }
}

proof fn lemma_leading_shape(a: Seq<char>, b: Seq<char>)
    requires
        same_shape(a, b),
    ensures
        leading_spaces(a) == leading_spaces(b),
    decreases a.len(),
{
    if a.len() > 0 {
        lemma_shape_subrange(a, b, 1, a.len() as int);
        assert(a.drop_first() =~= a.subrange(1, a.len() as int));
        assert(b.drop_first() =~= b.subrange(1, b.len() as int));
        lemma_leading_shape(a.drop_first(), b.drop_first());
    }
}

proof fn lemma_trailing_shape(a: Seq<char>, b: Seq<char>)
    requires
        same_shape(a, b),
    ensures
        trailing_spaces(a) == trailing_spaces(b),
    decreases a.len(),
{
    if a.len() > 0 {
        lemma_shape_subrange(a, b, 0, a.len() - 1);
        assert(a.drop_last() =~= a.subrange(0, a.len() - 1));
        assert(b.drop_last() =~= b.subrange(0, b.len() - 1));
        lemma_trailing_shape(a.drop_last(), b.drop_last());
    }
}

proof fn lemma_equals_prefix(s: Seq<char>)
    ensures
        equals_prefix(s) <= s.len(),
        strip_equals(s) == s.skip(equals_prefix(s) as int),
        forall|i: int| 0 <= i < equals_prefix(s) ==> #[trigger] s[i] == '=',
    decreases s.len(),
{
    if s.len() > 0 && s[0] == '=' {
        lemma_equals_prefix(s.drop_first());
        assert(s.drop_first().skip(equals_prefix(s.drop_first()) as int) =~= s.skip(equals_prefix(s) as int));
        assert forall|i: int| 0 <= i < equals_prefix(s) implies #[trigger] s[i] == '=' by {
            if i > 0 {
                assert(s[i] == s.drop_first()[i - 1]);
            }
        }
    } else {
        assert(s.skip(0) =~= s);
    }
}

proof fn lemma_equals_prefix_shape(a: Seq<char>, b: Seq<char>)
    requires
        same_shape(a, b),
    ensures
        equals_prefix(a) == equals_prefix(b),
    decreases a.len(),
{
    if a.len() > 0 {
        lemma_shape_subrange(a, b, 1, a.len() as int);
        assert(a.drop_first() =~= a.subrange(1, a.len() as int));
        assert(b.drop_first() =~= b.subrange(1, b.len() as int));
        lemma_equals_prefix_shape(a.drop_first(), b.drop_first());
    }
}

/// Where `trim` cuts `s`: `trim(s) == s[start..end]`.
pub open spec fn trim_start(s: Seq<char>) -> int {
    leading_spaces(s) as int
}

pub open spec fn trim_end(s: Seq<char>) -> int {
    let t = s.skip(leading_spaces(s) as int);
    leading_spaces(s) + t.len() - trailing_spaces(t)
}

proof fn lemma_trim_cut(s: Seq<char>)
    ensures
        0 <= trim_start(s) <= trim_end(s) <= s.len(),
        trim(s) == s.subrange(trim_start(s), trim_end(s)),
        forall|i: int| 0 <= i < trim_start(s) ==> is_space(#[trigger] s[i]),
        forall|i: int| trim_end(s) <= i < s.len() ==> is_space(#[trigger] s[i]),
        trim_start(s) < trim_end(s) ==> !is_space(s[trim_start(s)]),
{
    lemma_leading_spaces_props(s);
    let l = leading_spaces(s) as int;
    let t = s.skip(l);
    lemma_trailing_spaces_props(t);
    assert(trim(s) =~= s.subrange(trim_start(s), trim_end(s)));
    assert forall|i: int| trim_end(s) <= i < s.len() implies is_space(#[trigger] s[i]) by {
        assert(s[i] == t[i - l]);
    }
    if trim_start(s) < trim_end(s) {
        assert(t.len() - trailing_spaces(t) > 0);
        if t.len() > 0 && trailing_spaces(t) < t.len() {
            assert(l < s.len());
        }
    }
}

proof fn lemma_trim_cut_shape(a: Seq<char>, b: Seq<char>)
    requires
        same_shape(a, b),
    ensures
        trim_start(a) == trim_start(b),
        trim_end(a) == trim_end(b),
{
    lemma_leading_shape(a, b);
    lemma_leading_spaces_props(a);
    let l = leading_spaces(a) as int;
    lemma_shape_subrange(a, b, l, a.len() as int);
    assert(a.skip(l) =~= a.subrange(l, a.len() as int));
    assert(b.skip(l) =~= b.subrange(l, b.len() as int));
    lemma_trailing_shape(a.skip(l), b.skip(l));
}

/// Where `cleaned` cuts `s`: `cleaned(s) == s[start..end]`.
pub open spec fn clean_bounds(s: Seq<char>) -> (int, int) {
    let p1 = trim_start(s);
    let e1 = trim_end(s);
    let k = equals_prefix(s.subrange(p1, e1)) as int;
    let y = s.subrange(p1 + k, e1);
    (p1 + k + trim_start(y), p1 + k + trim_end(y))
}

proof fn lemma_clean_cut(s: Seq<char>)
    ensures
        0 <= clean_bounds(s).0 <= clean_bounds(s).1 <= s.len(),
        cleaned(s) == s.subrange(clean_bounds(s).0, clean_bounds(s).1),
        forall|i: int| 0 <= i < clean_bounds(s).0 ==> is_space(#[trigger] s[i]) || s[i] == '=',
        forall|i: int| clean_bounds(s).1 <= i < s.len() ==> is_space(#[trigger] s[i]),
        clean_bounds(s).0 < clean_bounds(s).1 ==> !is_space(s[clean_bounds(s).0]),
{
    lemma_trim_cut(s);
    let p1 = trim_start(s);
    let e1 = trim_end(s);
    let x = s.subrange(p1, e1);
    lemma_equals_prefix(x);
    let k = equals_prefix(x) as int;
    let y = s.subrange(p1 + k, e1);
    assert(x.skip(k) =~= y);
    lemma_trim_cut(y);
    let (a, b) = clean_bounds(s);
    assert(cleaned(s) =~= s.subrange(a, b));
    assert forall|i: int| 0 <= i < a implies is_space(#[trigger] s[i]) || s[i] == '=' by {
        if i < p1 {
        } else if i < p1 + k {
            assert(s[i] == x[i - p1]);
        } else {
            assert(s[i] == y[i - p1 - k]);
        }
    }
    assert forall|i: int| b <= i < s.len() implies is_space(#[trigger] s[i]) by {
        if i < e1 {
            assert(s[i] == y[i - p1 - k]);
        }
    }
    if a < b {
        assert(s[a] == y[trim_start(y)]);
    }
}

proof fn lemma_clean_cut_shape(a: Seq<char>, b: Seq<char>)
    requires
        same_shape(a, b),
    ensures
        clean_bounds(a) == clean_bounds(b),
{
    lemma_trim_cut_shape(a, b);
    lemma_trim_cut(a);
    let p1 = trim_start(a);
    let e1 = trim_end(a);
    lemma_shape_subrange(a, b, p1, e1);
    lemma_equals_prefix_shape(a.subrange(p1, e1), b.subrange(p1, e1));
    lemma_equals_prefix(a.subrange(p1, e1));
    let k = equals_prefix(a.subrange(p1, e1)) as int;
    lemma_shape_subrange(a, b, p1 + k, e1);
    lemma_trim_cut_shape(a.subrange(p1 + k, e1), b.subrange(p1 + k, e1));
}

/// A cleaned text that starts with "to" or "in" does not read as arithmetic.
proof fn lemma_keyword_start_not_math(n: Seq<char>)
    requires
        n.len() >= 2,
        (n[0] == 't' && n[1] == 'o') || (n[0] == 'i' && n[1] == 'n'),
    ensures
        !looks_like_math(n),
{
    reveal_strlit("sqrt(");
    reveal_strlit("sin(");
    reveal_strlit("cos(");
    reveal_strlit("tan(");
    reveal_strlit("ln(");
    reveal_strlit("log(");
    reveal_strlit("abs(");
    reveal_strlit("pi");
    reveal_strlit("e^");
    assert(!is_prefix("tan("@, n)) by {
        if is_prefix("tan("@, n) {
            assert(n.take(4)[1] == n[1]);
        }
    }
    assert(!is_prefix("sqrt("@, n)) by {
        if is_prefix("sqrt("@, n) {
            assert(n.take(5)[0] == n[0]);
        }
    }
    assert(!is_prefix("sin("@, n)) by {
        if is_prefix("sin("@, n) {
            assert(n.take(4)[0] == n[0]);
        }
    }
    assert(!is_prefix("cos("@, n)) by {
        if is_prefix("cos("@, n) {
            assert(n.take(4)[0] == n[0]);
        }
    }
    assert(!is_prefix("ln("@, n)) by {
        if is_prefix("ln("@, n) {
            assert(n.take(3)[0] == n[0]);
        }
    }
    assert(!is_prefix("log("@, n)) by {
        if is_prefix("log("@, n) {
            assert(n.take(4)[0] == n[0]);
        }
    }
    assert(!is_prefix("abs("@, n)) by {
        if is_prefix("abs("@, n) {
            assert(n.take(4)[0] == n[0]);
        }
    }
    assert(!is_prefix("pi"@, n)) by {
        if is_prefix("pi"@, n) {
            assert(n.take(2)[0] == n[0]);
        }
    }
    assert(!is_prefix("e^"@, n)) by {
        if is_prefix("e^"@, n) {
            assert(n.take(2)[0] == n[0]);
        }
    }
}

/// The typed texts with either keyword cut alike, and the cut keeps the right part.
proof fn lemma_typed_cut(l: Seq<char>, r: Seq<char>)
    requires
        trim(r).len() > 0,
    ensures
        ({
            let a = l + " to "@ + r;
            let b = l + " in "@ + r;
            let (st, en) = clean_bounds(a);
            &&& clean_bounds(b) == clean_bounds(a)
            &&& cleaned(a) == a.subrange(st, en)
            &&& cleaned(b) == b.subrange(st, en)
            &&& 0 <= st <= l.len() + 1
            &&& st != l.len()
            &&& l.len() + 4 < en <= a.len()
            &&& a.len() == b.len()
        }),
{
    reveal_strlit(" to ");
    reveal_strlit(" in ");
    let a = l + " to "@ + r;
    let b = l + " in "@ + r;
    let n = l.len() as int;
    assert(a[n] == ' ' && a[n + 1] == 't' && a[n + 2] == 'o' && a[n + 3] == ' ');
    assert(b[n] == ' ' && b[n + 1] == 'i' && b[n + 2] == 'n' && b[n + 3] == ' ');
    assert(same_shape(a, b)) by {
        assert forall|i: int| 0 <= i < a.len() implies (is_space(#[trigger] a[i]) == is_space(b[i]) && (a[i]
            == '=') == (b[i] == '=')) by {
            if i < n {
                assert(a[i] == l[i] && b[i] == l[i]);
            } else if i >= n + 4 {
                assert(a[i] == r[i - n - 4] && b[i] == r[i - n - 4]);
            }
        }
    }
    lemma_clean_cut(a);
    lemma_clean_cut(b);
    lemma_clean_cut_shape(a, b);
    lemma_trim_cut(r);
    let i0 = trim_start(r);
    assert(!is_space(a[n + 4 + i0])) by {
        assert(a[n + 4 + i0] == r[i0]);
    }
}

/// A keyword occurrence in a piece `s[st..en]` is one in `s`.
proof fn lemma_occurs_in_piece(s: Seq<char>, st: int, en: int, pat: Seq<char>, j: int)
    requires
        0 <= st <= en <= s.len(),
        pat.len() == 4,
        occurs_at(s.subrange(st, en), pat, j),
    ensures
        occurs_at(s, pat, j + st),
{
    assert(s.subrange(st, en).subrange(j, j + 4) =~= s.subrange(j + st, j + st + 4));
}

proof fn lemma_typed_inner(l: Seq<char>, r: Seq<char>, st: int, en: int)
    requires
        0 <= st < l.len(),
        l.len() + 4 < en <= (l + " to "@ + r).len(),
        cleaned(l + " to "@ + r) == (l + " to "@ + r).subrange(st, en),
        cleaned(l + " in "@ + r) == (l + " in "@ + r).subrange(st, en),
        forall|j: int| occurs_at(l + " to "@ + r, " to "@, j) ==> j == l.len(),
        !crate::text::contains(l + " to "@ + r, " in "@),
        forall|j: int| occurs_at(l + " in "@ + r, " in "@, j) ==> j == l.len(),
        !crate::text::contains(l + " in "@ + r, " to "@),
    ensures
        parse_spec(l + " to "@ + r) == parse_spec(l + " in "@ + r),
{
    reveal_strlit(" to ");
    reveal_strlit(" in ");
    let to = " to "@;
    let kin = " in "@;
    let a = l + to + r;
    let b = l + kin + r;
    let n = l.len() as int;
    let ca = cleaned(a);
    let cb = cleaned(b);
    let left = l.subrange(st, n);
    let right = r.subrange(0, en - n - 4);
    assert(ca =~= left + to + right) by {
        assert forall|i: int| 0 <= i < ca.len() implies #[trigger] ca[i] == (left + to + right)[i] by {
            assert(ca[i] == a[st + i]);
        }
    }
    assert(cb =~= left + kin + right) by {
        assert forall|i: int| 0 <= i < cb.len() implies #[trigger] cb[i] == (left + kin + right)[i] by {
            assert(cb[i] == b[st + i]);
        }
    }
    assert forall|j: int| occurs_at(ca, to, j) implies j == left.len() by {
        lemma_occurs_in_piece(a, st, en, to, j);
    }
    assert(!crate::text::contains(ca, kin)) by {
        if crate::text::contains(ca, kin) {
            let j = choose|j: int| occurs_at(ca, kin, j);
            lemma_occurs_in_piece(a, st, en, kin, j);
        }
    }
    assert forall|j: int| occurs_at(cb, kin, j) implies j == left.len() by {
        lemma_occurs_in_piece(b, st, en, kin, j);
    }
    assert(!crate::text::contains(cb, to)) by {
        if crate::text::contains(cb, to) {
            let j = choose|j: int| occurs_at(cb, to, j);
            lemma_occurs_in_piece(b, st, en, to, j);
        }
    }
    lemma_to_and_in_interchangeable(a, b, left, right);
}

/// A cleaned text with neither keyword, starting with "to" or "in", is read as
/// nothing to calculate (or refused as too long).
proof fn lemma_keyword_start_reading(c: Seq<char>, rest: Seq<char>)
    requires
        c == seq!['t', 'o'] + rest || c == seq!['i', 'n'] + rest,
        !crate::text::contains(normalized(c), " to "@),
        !crate::text::contains(normalized(c), " in "@),
    ensures
        encode_utf8(c).len() == 2 + encode_utf8(rest).len(),
        looks_like_math(normalized(c)) == false,
{
    lemma_utf8_len_concat(seq!['t', 'o'], rest);
    lemma_utf8_len_concat(seq!['i', 'n'], rest);
    assert(is_ascii_chars(seq!['t', 'o']));
    assert(is_ascii_chars(seq!['i', 'n']));
    is_ascii_chars_encode_utf8(seq!['t', 'o']);
    is_ascii_chars_encode_utf8(seq!['i', 'n']);
    let nc = normalized(c);
    assert(nc[0] == normalize_char(c[0]) && nc[1] == normalize_char(c[1]));
    lemma_keyword_start_not_math(nc);
}

proof fn lemma_no_keyword_after(s: Seq<char>, st: int, en: int, pat: Seq<char>, k: int)
    requires
        pat == " to "@ || pat == " in "@,
        0 <= st <= en <= s.len(),
        k < st,
        forall|j: int| occurs_at(s, pat, j) ==> j == k,
    ensures
        !crate::text::contains(normalized(s.subrange(st, en)), pat),
{
    reveal_strlit(" to ");
    reveal_strlit(" in ");
    if crate::text::contains(normalized(s.subrange(st, en)), pat) {
        let j = choose|j: int| occurs_at(normalized(s.subrange(st, en)), pat, j);
        lemma_keyword_occurs(s.subrange(st, en), pat, j);
        lemma_occurs_in_piece(s, st, en, pat, j);
    }
}

proof fn lemma_typed_skip(l: Seq<char>, r: Seq<char>, en: int)
    requires
        l.len() + 4 < en <= (l + " to "@ + r).len(),
        cleaned(l + " to "@ + r) == (l + " to "@ + r).subrange(l.len() + 1int, en),
        cleaned(l + " in "@ + r) == (l + " in "@ + r).subrange(l.len() + 1int, en),
        forall|j: int| occurs_at(l + " to "@ + r, " to "@, j) ==> j == l.len(),
        !crate::text::contains(l + " to "@ + r, " in "@),
        forall|j: int| occurs_at(l + " in "@ + r, " in "@, j) ==> j == l.len(),
        !crate::text::contains(l + " in "@ + r, " to "@),
    ensures
        parse_spec(l + " to "@ + r) == parse_spec(l + " in "@ + r),
{
    reveal_strlit(" to ");
    reveal_strlit(" in ");
    let to = " to "@;
    let kin = " in "@;
    let a = l + to + r;
    let b = l + kin + r;
    let n = l.len() as int;
    let ca = cleaned(a);
    let cb = cleaned(b);
    let rest = r.subrange(0, en - n - 4);
    let rest2 = seq![' '] + rest;
    assert(ca =~= seq!['t', 'o'] + rest2) by {
        assert forall|i: int| 0 <= i < ca.len() implies #[trigger] ca[i] == (seq!['t', 'o'] + rest2)[i] by {
            assert(ca[i] == a[n + 1 + i]);
        }
    }
    assert(cb =~= seq!['i', 'n'] + rest2) by {
        assert forall|i: int| 0 <= i < cb.len() implies #[trigger] cb[i] == (seq!['i', 'n'] + rest2)[i] by {
            assert(cb[i] == b[n + 1 + i]);
        }
    }
    lemma_no_keyword_after(a, n + 1, en, to, n);
    lemma_no_keyword_after(b, n + 1, en, kin, n);
    assert(!crate::text::contains(normalized(ca), kin)) by {
        if crate::text::contains(normalized(ca), kin) {
            let j = choose|j: int| occurs_at(normalized(ca), kin, j);
            lemma_keyword_occurs(ca, kin, j);
            lemma_occurs_in_piece(a, n + 1, en, kin, j);
        }
    }
    assert(!crate::text::contains(normalized(cb), to)) by {
        if crate::text::contains(normalized(cb), to) {
            let j = choose|j: int| occurs_at(normalized(cb), to, j);
            lemma_keyword_occurs(cb, to, j);
            lemma_occurs_in_piece(b, n + 1, en, to, j);
        }
    }
    lemma_keyword_start_reading(ca, rest2);
    lemma_keyword_start_reading(cb, rest2);
}

/// " to " and " in " are interchangeable in what is typed: for a left and a right
/// part that are not blank, where the typed text holds its keyword exactly once
/// (just after the left part) and never the other keyword, writing " in " in
/// place of " to " gives the same reading.
pub proof fn lemma_typed_to_and_in_interchangeable(l: Seq<char>, r: Seq<char>)
    requires
        trim(l).len() > 0,
        trim(r).len() > 0,
        forall|j: int| occurs_at(l + " to "@ + r, " to "@, j) ==> j == l.len(),
        !crate::text::contains(l + " to "@ + r, " in "@),
        forall|j: int| occurs_at(l + " in "@ + r, " in "@, j) ==> j == l.len(),
        !crate::text::contains(l + " in "@ + r, " to "@),
    ensures
        parse_spec(l + " to "@ + r) == parse_spec(l + " in "@ + r),
{
    lemma_typed_cut(l, r);
    let (st, en) = clean_bounds(l + " to "@ + r);
    if st < l.len() {
        lemma_typed_inner(l, r, st, en);
    } else {
        lemma_typed_skip(l, r, en);
    }
}

/// Input that (once cleaned and normalized, and holding no " to " or " in ")
/// starts with a digit, `(`, `-`, `+`, `.`, a function call `sqrt(`, `sin(`,
/// `cos(`, `tan(`, `ln(`, `log(`, `abs(`, or the constant `pi` or `e^`, is read as
/// arithmetic on the normalized text; any other such input is nothing to calculate.
pub proof fn lemma_arithmetic_starts(input: Seq<char>)
    requires
        cleaned(input).len() > 0,
        encode_utf8(cleaned(input)).len() <= MAX_INPUT,
        !crate::text::contains(normalized(cleaned(input)), " to "@),
        !crate::text::contains(normalized(cleaned(input)), " in "@),
    ensures
        ({
            let n = normalized(cleaned(input));
            let starts = ('0' <= n[0] && n[0] <= '9') || n[0] == '(' || n[0] == '-' || n[0] == '+'
                || n[0] == '.' || (n.len() >= 5 && n.take(5) == "sqrt("@) || (n.len() >= 4 && (n.take(4)
                == "sin("@ || n.take(4) == "cos("@ || n.take(4) == "tan("@ || n.take(4) == "log("@
                || n.take(4) == "abs("@)) || (n.len() >= 3 && n.take(3) == "ln("@) || (n.len() >= 2
                && (n.take(2) == "pi"@ || n.take(2) == "e^"@));
            &&& starts ==> parse_spec(input) == Ok::<RequestSpec, CalcErrorSpec>(
                RequestSpec::Math { expression: n },
            )
            &&& !starts ==> parse_spec(input) == Ok::<RequestSpec, CalcErrorSpec>(RequestSpec::Skip)
        }),
{
    reveal_strlit("sqrt(");
    reveal_strlit("sin(");
    reveal_strlit("cos(");
    reveal_strlit("tan(");
    reveal_strlit("ln(");
    reveal_strlit("log(");
    reveal_strlit("abs(");
    reveal_strlit("pi");
    reveal_strlit("e^");
}

/// The names of each unit (lowercase), from the supported-units table.
pub open spec fn unit_names(u: Unit) -> Set<Seq<char>> {
    match u {
        Unit::Byte => set!["bytes"@, "b"@],
        Unit::Celsius => set!["celsius"@, "°c"@, "c"@],
        Unit::Centimetre => set!["cm"@],
        Unit::Day => set!["days"@, "d"@],
        Unit::Degree => set!["degrees"@, "deg"@],
        Unit::Fahrenheit => set!["fahrenheit"@, "°f"@, "f"@],
        Unit::Foot => set!["feet"@, "foot"@, "ft"@],
        Unit::Gallon => set!["gal"@],
        Unit::Gibibyte => set!["gib"@],
        Unit::Gigabyte => set!["gb"@],
        Unit::Gram => set!["g"@],
        Unit::Hour => set!["hours"@, "hr"@, "h"@],
        Unit::Inch => set!["inches"@, "inch"@, "in"@],
        Unit::Kelvin => set!["kelvin"@, "k"@],
        Unit::Kibibyte => set!["kib"@],
        Unit::Kilobyte => set!["kb"@],
        Unit::Kilogram => set!["kg"@],
        Unit::Kilometre => set!["km"@],
        Unit::Litre => set!["liters"@, "litres"@, "l"@],
        Unit::Mebibyte => set!["mib"@],
        Unit::Megabyte => set!["mb"@],
        Unit::Metre => set!["meters"@, "metres"@, "meter"@, "metre"@, "m"@],
        Unit::Mile => set!["miles"@, "mile"@, "mi"@],
        Unit::Milligram => set!["mg"@],
        Unit::Millilitre => set!["ml"@],
        Unit::Millimetre => set!["mm"@],
        Unit::Millisecond => set!["ms"@],
        Unit::Minute => set!["minutes"@, "min"@],
        Unit::Ounce => set!["oz"@],
        Unit::Pound => set!["lbs"@, "lb"@],
        Unit::Radian => set!["radians"@, "rad"@],
        Unit::Second => set!["seconds"@, "sec"@, "s"@],
        Unit::Terabyte => set!["tb"@],
        Unit::Yard => set!["yards"@, "yd"@],
    }
}

/// A lowercase name denotes a unit exactly when it is one of that unit's names:
/// "yd" is a yard and nothing else, "ft" a foot, and so on.
pub proof fn lemma_unit_names(name: Seq<char>, u: Unit)
    ensures
        unit_for(name) == Some(u) <==> unit_names(u).contains(name),
{
    if unit_names(u).contains(name) {
        lemma_unit_names_listed(u);
    }
}

proof fn lemma_unit_names_listed(u: Unit)
    ensures
        forall|name: Seq<char>| #[trigger] unit_names(u).contains(name) ==> unit_for(name) == Some(u),
{
    match u {
        Unit::Byte => lemma_names_of_byte(),
        Unit::Celsius => lemma_names_of_celsius(),
        Unit::Centimetre => lemma_names_of_centimetre(),
        Unit::Day => lemma_names_of_day(),
        Unit::Degree => lemma_names_of_degree(),
        Unit::Fahrenheit => lemma_names_of_fahrenheit(),
        Unit::Foot => lemma_names_of_foot(),
        Unit::Gallon => lemma_names_of_gallon(),
        Unit::Gibibyte => lemma_names_of_gibibyte(),
        Unit::Gigabyte => lemma_names_of_gigabyte(),
        Unit::Gram => lemma_names_of_gram(),
        Unit::Hour => lemma_names_of_hour(),
        Unit::Inch => lemma_names_of_inch(),
        Unit::Kelvin => lemma_names_of_kelvin(),
        Unit::Kibibyte => lemma_names_of_kibibyte(),
        Unit::Kilobyte => lemma_names_of_kilobyte(),
        Unit::Kilogram => lemma_names_of_kilogram(),
        Unit::Kilometre => lemma_names_of_kilometre(),
        Unit::Litre => lemma_names_of_litre(),
        Unit::Mebibyte => lemma_names_of_mebibyte(),
        Unit::Megabyte => lemma_names_of_megabyte(),
        Unit::Metre => lemma_names_of_metre(),
        Unit::Mile => lemma_names_of_mile(),
        Unit::Milligram => lemma_names_of_milligram(),
        Unit::Millilitre => lemma_names_of_millilitre(),
        Unit::Millimetre => lemma_names_of_millimetre(),
        Unit::Millisecond => lemma_names_of_millisecond(),
        Unit::Minute => lemma_names_of_minute(),
        Unit::Ounce => lemma_names_of_ounce(),
        Unit::Pound => lemma_names_of_pound(),
        Unit::Radian => lemma_names_of_radian(),
        Unit::Second => lemma_names_of_second(),
        Unit::Terabyte => lemma_names_of_terabyte(),
        Unit::Yard => lemma_names_of_yard(),
    }
}

proof fn lemma_names_of_byte()
    ensures
        forall|name: Seq<char>| #[trigger] unit_names(Unit::Byte).contains(name) ==> unit_for(name) == Some(Unit::Byte),
{
    lemma_unit_name_chars();
    assert(unit_for("b"@) == Some(Unit::Byte));
    assert(unit_for("bytes"@) == Some(Unit::Byte));
}

proof fn lemma_names_of_celsius()
    ensures
        forall|name: Seq<char>| #[trigger] unit_names(Unit::Celsius).contains(name) ==> unit_for(name) == Some(Unit::Celsius),
{
    lemma_unit_name_chars();
    assert(unit_for("c"@) == Some(Unit::Celsius));
    assert(unit_for("celsius"@) == Some(Unit::Celsius));
    assert(unit_for("°c"@) == Some(Unit::Celsius));
}

proof fn lemma_names_of_centimetre()
    ensures
        forall|name: Seq<char>| #[trigger] unit_names(Unit::Centimetre).contains(name) ==> unit_for(name) == Some(Unit::Centimetre),
{
    lemma_unit_name_chars();
    assert(unit_for("cm"@) == Some(Unit::Centimetre));
}

proof fn lemma_names_of_day()
    ensures
        forall|name: Seq<char>| #[trigger] unit_names(Unit::Day).contains(name) ==> unit_for(name) == Some(Unit::Day),
{
    lemma_unit_name_chars();
    assert(unit_for("d"@) == Some(Unit::Day));
    assert(unit_for("days"@) == Some(Unit::Day));
}

proof fn lemma_names_of_degree()
    ensures
        forall|name: Seq<char>| #[trigger] unit_names(Unit::Degree).contains(name) ==> unit_for(name) == Some(Unit::Degree),
{
    lemma_unit_name_chars();
    assert(unit_for("deg"@) == Some(Unit::Degree));
    assert(unit_for("degrees"@) == Some(Unit::Degree));
}

proof fn lemma_names_of_fahrenheit()
    ensures
        forall|name: Seq<char>| #[trigger] unit_names(Unit::Fahrenheit).contains(name) ==> unit_for(name) == Some(Unit::Fahrenheit),
{
    lemma_unit_name_chars();
    assert(unit_for("f"@) == Some(Unit::Fahrenheit));
    assert(unit_for("fahrenheit"@) == Some(Unit::Fahrenheit));
    assert(unit_for("°f"@) == Some(Unit::Fahrenheit));
}

proof fn lemma_names_of_foot()
    ensures
        forall|name: Seq<char>| #[trigger] unit_names(Unit::Foot).contains(name) ==> unit_for(name) == Some(Unit::Foot),
{
    lemma_unit_name_chars();
    assert(unit_for("feet"@) == Some(Unit::Foot));
    assert(unit_for("foot"@) == Some(Unit::Foot));
    assert(unit_for("ft"@) == Some(Unit::Foot));
}

proof fn lemma_names_of_gallon()
    ensures
        forall|name: Seq<char>| #[trigger] unit_names(Unit::Gallon).contains(name) ==> unit_for(name) == Some(Unit::Gallon),
{
    lemma_unit_name_chars();
    assert(unit_for("gal"@) == Some(Unit::Gallon));
}

proof fn lemma_names_of_gibibyte()
    ensures
        forall|name: Seq<char>| #[trigger] unit_names(Unit::Gibibyte).contains(name) ==> unit_for(name) == Some(Unit::Gibibyte),
{
    lemma_unit_name_chars();
    assert(unit_for("gib"@) == Some(Unit::Gibibyte));
}

proof fn lemma_names_of_gigabyte()
    ensures
        forall|name: Seq<char>| #[trigger] unit_names(Unit::Gigabyte).contains(name) ==> unit_for(name) == Some(Unit::Gigabyte),
{
    lemma_unit_name_chars();
    assert(unit_for("gb"@) == Some(Unit::Gigabyte));
}

proof fn lemma_names_of_gram()
    ensures
        forall|name: Seq<char>| #[trigger] unit_names(Unit::Gram).contains(name) ==> unit_for(name) == Some(Unit::Gram),
{
    lemma_unit_name_chars();
    assert(unit_for("g"@) == Some(Unit::Gram));
}

proof fn lemma_names_of_hour()
    ensures
        forall|name: Seq<char>| #[trigger] unit_names(Unit::Hour).contains(name) ==> unit_for(name) == Some(Unit::Hour),
{
    lemma_unit_name_chars();
    assert(unit_for("h"@) == Some(Unit::Hour));
    assert(unit_for("hours"@) == Some(Unit::Hour));
    assert(unit_for("hr"@) == Some(Unit::Hour));
}

proof fn lemma_names_of_inch()
    ensures
        forall|name: Seq<char>| #[trigger] unit_names(Unit::Inch).contains(name) ==> unit_for(name) == Some(Unit::Inch),
{
    lemma_unit_name_chars();
    assert(unit_for("in"@) == Some(Unit::Inch));
    assert(unit_for("inch"@) == Some(Unit::Inch));
    assert(unit_for("inches"@) == Some(Unit::Inch));
}

proof fn lemma_names_of_kelvin()
    ensures
        forall|name: Seq<char>| #[trigger] unit_names(Unit::Kelvin).contains(name) ==> unit_for(name) == Some(Unit::Kelvin),
{
    lemma_unit_name_chars();
    assert(unit_for("k"@) == Some(Unit::Kelvin));
    assert(unit_for("kelvin"@) == Some(Unit::Kelvin));
}

proof fn lemma_names_of_kibibyte()
    ensures
        forall|name: Seq<char>| #[trigger] unit_names(Unit::Kibibyte).contains(name) ==> unit_for(name) == Some(Unit::Kibibyte),
{
    lemma_unit_name_chars();
    assert(unit_for("kib"@) == Some(Unit::Kibibyte));
}

proof fn lemma_names_of_kilobyte()
    ensures
        forall|name: Seq<char>| #[trigger] unit_names(Unit::Kilobyte).contains(name) ==> unit_for(name) == Some(Unit::Kilobyte),
{
    lemma_unit_name_chars();
    assert(unit_for("kb"@) == Some(Unit::Kilobyte));
}

proof fn lemma_names_of_kilogram()
    ensures
        forall|name: Seq<char>| #[trigger] unit_names(Unit::Kilogram).contains(name) ==> unit_for(name) == Some(Unit::Kilogram),
{
    lemma_unit_name_chars();
    assert(unit_for("kg"@) == Some(Unit::Kilogram));
}

proof fn lemma_names_of_kilometre()
    ensures
        forall|name: Seq<char>| #[trigger] unit_names(Unit::Kilometre).contains(name) ==> unit_for(name) == Some(Unit::Kilometre),
{
    lemma_unit_name_chars();
    assert(unit_for("km"@) == Some(Unit::Kilometre));
}

proof fn lemma_names_of_litre()
    ensures
        forall|name: Seq<char>| #[trigger] unit_names(Unit::Litre).contains(name) ==> unit_for(name) == Some(Unit::Litre),
{
    lemma_unit_name_chars();
    assert(unit_for("l"@) == Some(Unit::Litre));
    assert(unit_for("liters"@) == Some(Unit::Litre));
    assert(unit_for("litres"@) == Some(Unit::Litre));
}

proof fn lemma_names_of_mebibyte()
    ensures
        forall|name: Seq<char>| #[trigger] unit_names(Unit::Mebibyte).contains(name) ==> unit_for(name) == Some(Unit::Mebibyte),
{
    lemma_unit_name_chars();
    assert(unit_for("mib"@) == Some(Unit::Mebibyte));
}

proof fn lemma_names_of_megabyte()
    ensures
        forall|name: Seq<char>| #[trigger] unit_names(Unit::Megabyte).contains(name) ==> unit_for(name) == Some(Unit::Megabyte),
{
    lemma_unit_name_chars();
    assert(unit_for("mb"@) == Some(Unit::Megabyte));
}

proof fn lemma_names_of_metre()
    ensures
        forall|name: Seq<char>| #[trigger] unit_names(Unit::Metre).contains(name) ==> unit_for(name) == Some(Unit::Metre),
{
    lemma_unit_name_chars();
    assert(unit_for("m"@) == Some(Unit::Metre));
    assert(unit_for("meter"@) == Some(Unit::Metre));
    assert(unit_for("meters"@) == Some(Unit::Metre));
    assert(unit_for("metre"@) == Some(Unit::Metre));
    assert(unit_for("metres"@) == Some(Unit::Metre));
}

proof fn lemma_names_of_mile()
    ensures
        forall|name: Seq<char>| #[trigger] unit_names(Unit::Mile).contains(name) ==> unit_for(name) == Some(Unit::Mile),
{
    lemma_unit_name_chars();
    assert(unit_for("mi"@) == Some(Unit::Mile));
    assert(unit_for("mile"@) == Some(Unit::Mile));
    assert(unit_for("miles"@) == Some(Unit::Mile));
}

proof fn lemma_names_of_milligram()
    ensures
        forall|name: Seq<char>| #[trigger] unit_names(Unit::Milligram).contains(name) ==> unit_for(name) == Some(Unit::Milligram),
{
    lemma_unit_name_chars();
    assert(unit_for("mg"@) == Some(Unit::Milligram));
}

proof fn lemma_names_of_millilitre()
    ensures
        forall|name: Seq<char>| #[trigger] unit_names(Unit::Millilitre).contains(name) ==> unit_for(name) == Some(Unit::Millilitre),
{
    lemma_unit_name_chars();
    assert(unit_for("ml"@) == Some(Unit::Millilitre));
}

proof fn lemma_names_of_millimetre()
    ensures
        forall|name: Seq<char>| #[trigger] unit_names(Unit::Millimetre).contains(name) ==> unit_for(name) == Some(Unit::Millimetre),
{
    lemma_unit_name_chars();
    assert(unit_for("mm"@) == Some(Unit::Millimetre));
}

proof fn lemma_names_of_millisecond()
    ensures
        forall|name: Seq<char>| #[trigger] unit_names(Unit::Millisecond).contains(name) ==> unit_for(name) == Some(Unit::Millisecond),
{
    lemma_unit_name_chars();
    assert(unit_for("ms"@) == Some(Unit::Millisecond));
}

proof fn lemma_names_of_minute()
    ensures
        forall|name: Seq<char>| #[trigger] unit_names(Unit::Minute).contains(name) ==> unit_for(name) == Some(Unit::Minute),
{
    lemma_unit_name_chars();
    assert(unit_for("min"@) == Some(Unit::Minute));
    assert(unit_for("minutes"@) == Some(Unit::Minute));
}

proof fn lemma_names_of_ounce()
    ensures
        forall|name: Seq<char>| #[trigger] unit_names(Unit::Ounce).contains(name) ==> unit_for(name) == Some(Unit::Ounce),
{
    lemma_unit_name_chars();
    assert(unit_for("oz"@) == Some(Unit::Ounce));
}

proof fn lemma_names_of_pound()
    ensures
        forall|name: Seq<char>| #[trigger] unit_names(Unit::Pound).contains(name) ==> unit_for(name) == Some(Unit::Pound),
{
    lemma_unit_name_chars();
    assert(unit_for("lb"@) == Some(Unit::Pound));
    assert(unit_for("lbs"@) == Some(Unit::Pound));
}

proof fn lemma_names_of_radian()
    ensures
        forall|name: Seq<char>| #[trigger] unit_names(Unit::Radian).contains(name) ==> unit_for(name) == Some(Unit::Radian),
{
    lemma_unit_name_chars();
    assert(unit_for("rad"@) == Some(Unit::Radian));
    assert(unit_for("radians"@) == Some(Unit::Radian));
}

proof fn lemma_names_of_second()
    ensures
        forall|name: Seq<char>| #[trigger] unit_names(Unit::Second).contains(name) ==> unit_for(name) == Some(Unit::Second),
{
    lemma_unit_name_chars();
    assert(unit_for("s"@) == Some(Unit::Second));
    assert(unit_for("sec"@) == Some(Unit::Second));
    assert(unit_for("seconds"@) == Some(Unit::Second));
}

proof fn lemma_names_of_terabyte()
    ensures
        forall|name: Seq<char>| #[trigger] unit_names(Unit::Terabyte).contains(name) ==> unit_for(name) == Some(Unit::Terabyte),
{
    lemma_unit_name_chars();
    assert(unit_for("tb"@) == Some(Unit::Terabyte));
}

proof fn lemma_names_of_yard()
    ensures
        forall|name: Seq<char>| #[trigger] unit_names(Unit::Yard).contains(name) ==> unit_for(name) == Some(Unit::Yard),
{
    lemma_unit_name_chars();
    assert(unit_for("yards"@) == Some(Unit::Yard));
    assert(unit_for("yd"@) == Some(Unit::Yard));
}

/// The characters of each unit name.
proof fn lemma_unit_name_chars()
    ensures
        "b"@.len() == 1 && "b"@[0] == 'b',
        "bytes"@.len() == 5 && "bytes"@[0] == 'b' && "bytes"@[1] == 'y' && "bytes"@[2] == 't' && "bytes"@[3] == 'e' && "bytes"@[4] == 's',
        "c"@.len() == 1 && "c"@[0] == 'c',
        "celsius"@.len() == 7 && "celsius"@[0] == 'c' && "celsius"@[1] == 'e' && "celsius"@[2] == 'l' && "celsius"@[3] == 's' && "celsius"@[4] == 'i' && "celsius"@[5] == 'u' && "celsius"@[6] == 's',
        "cm"@.len() == 2 && "cm"@[0] == 'c' && "cm"@[1] == 'm',
        "d"@.len() == 1 && "d"@[0] == 'd',
        "days"@.len() == 4 && "days"@[0] == 'd' && "days"@[1] == 'a' && "days"@[2] == 'y' && "days"@[3] == 's',
        "deg"@.len() == 3 && "deg"@[0] == 'd' && "deg"@[1] == 'e' && "deg"@[2] == 'g',
        "degrees"@.len() == 7 && "degrees"@[0] == 'd' && "degrees"@[1] == 'e' && "degrees"@[2] == 'g' && "degrees"@[3] == 'r' && "degrees"@[4] == 'e' && "degrees"@[5] == 'e' && "degrees"@[6] == 's',
        "f"@.len() == 1 && "f"@[0] == 'f',
        "fahrenheit"@.len() == 10 && "fahrenheit"@[0] == 'f' && "fahrenheit"@[1] == 'a' && "fahrenheit"@[2] == 'h' && "fahrenheit"@[3] == 'r' && "fahrenheit"@[4] == 'e' && "fahrenheit"@[5] == 'n' && "fahrenheit"@[6] == 'h' && "fahrenheit"@[7] == 'e' && "fahrenheit"@[8] == 'i' && "fahrenheit"@[9] == 't',
        "feet"@.len() == 4 && "feet"@[0] == 'f' && "feet"@[1] == 'e' && "feet"@[2] == 'e' && "feet"@[3] == 't',
        "foot"@.len() == 4 && "foot"@[0] == 'f' && "foot"@[1] == 'o' && "foot"@[2] == 'o' && "foot"@[3] == 't',
        "ft"@.len() == 2 && "ft"@[0] == 'f' && "ft"@[1] == 't',
        "g"@.len() == 1 && "g"@[0] == 'g',
        "gal"@.len() == 3 && "gal"@[0] == 'g' && "gal"@[1] == 'a' && "gal"@[2] == 'l',
        "gb"@.len() == 2 && "gb"@[0] == 'g' && "gb"@[1] == 'b',
        "gib"@.len() == 3 && "gib"@[0] == 'g' && "gib"@[1] == 'i' && "gib"@[2] == 'b',
        "h"@.len() == 1 && "h"@[0] == 'h',
        "hours"@.len() == 5 && "hours"@[0] == 'h' && "hours"@[1] == 'o' && "hours"@[2] == 'u' && "hours"@[3] == 'r' && "hours"@[4] == 's',
        "hr"@.len() == 2 && "hr"@[0] == 'h' && "hr"@[1] == 'r',
        "in"@.len() == 2 && "in"@[0] == 'i' && "in"@[1] == 'n',
        "inch"@.len() == 4 && "inch"@[0] == 'i' && "inch"@[1] == 'n' && "inch"@[2] == 'c' && "inch"@[3] == 'h',
        "inches"@.len() == 6 && "inches"@[0] == 'i' && "inches"@[1] == 'n' && "inches"@[2] == 'c' && "inches"@[3] == 'h' && "inches"@[4] == 'e' && "inches"@[5] == 's',
        "k"@.len() == 1 && "k"@[0] == 'k',
        "kb"@.len() == 2 && "kb"@[0] == 'k' && "kb"@[1] == 'b',
        "kelvin"@.len() == 6 && "kelvin"@[0] == 'k' && "kelvin"@[1] == 'e' && "kelvin"@[2] == 'l' && "kelvin"@[3] == 'v' && "kelvin"@[4] == 'i' && "kelvin"@[5] == 'n',
        "kg"@.len() == 2 && "kg"@[0] == 'k' && "kg"@[1] == 'g',
        "kib"@.len() == 3 && "kib"@[0] == 'k' && "kib"@[1] == 'i' && "kib"@[2] == 'b',
        "km"@.len() == 2 && "km"@[0] == 'k' && "km"@[1] == 'm',
        "l"@.len() == 1 && "l"@[0] == 'l',
        "lb"@.len() == 2 && "lb"@[0] == 'l' && "lb"@[1] == 'b',
        "lbs"@.len() == 3 && "lbs"@[0] == 'l' && "lbs"@[1] == 'b' && "lbs"@[2] == 's',
        "liters"@.len() == 6 && "liters"@[0] == 'l' && "liters"@[1] == 'i' && "liters"@[2] == 't' && "liters"@[3] == 'e' && "liters"@[4] == 'r' && "liters"@[5] == 's',
        "litres"@.len() == 6 && "litres"@[0] == 'l' && "litres"@[1] == 'i' && "litres"@[2] == 't' && "litres"@[3] == 'r' && "litres"@[4] == 'e' && "litres"@[5] == 's',
        "m"@.len() == 1 && "m"@[0] == 'm',
        "mb"@.len() == 2 && "mb"@[0] == 'm' && "mb"@[1] == 'b',
        "meter"@.len() == 5 && "meter"@[0] == 'm' && "meter"@[1] == 'e' && "meter"@[2] == 't' && "meter"@[3] == 'e' && "meter"@[4] == 'r',
        "meters"@.len() == 6 && "meters"@[0] == 'm' && "meters"@[1] == 'e' && "meters"@[2] == 't' && "meters"@[3] == 'e' && "meters"@[4] == 'r' && "meters"@[5] == 's',
        "metre"@.len() == 5 && "metre"@[0] == 'm' && "metre"@[1] == 'e' && "metre"@[2] == 't' && "metre"@[3] == 'r' && "metre"@[4] == 'e',
        "metres"@.len() == 6 && "metres"@[0] == 'm' && "metres"@[1] == 'e' && "metres"@[2] == 't' && "metres"@[3] == 'r' && "metres"@[4] == 'e' && "metres"@[5] == 's',
        "mg"@.len() == 2 && "mg"@[0] == 'm' && "mg"@[1] == 'g',
        "mi"@.len() == 2 && "mi"@[0] == 'm' && "mi"@[1] == 'i',
        "mib"@.len() == 3 && "mib"@[0] == 'm' && "mib"@[1] == 'i' && "mib"@[2] == 'b',
        "mile"@.len() == 4 && "mile"@[0] == 'm' && "mile"@[1] == 'i' && "mile"@[2] == 'l' && "mile"@[3] == 'e',
        "miles"@.len() == 5 && "miles"@[0] == 'm' && "miles"@[1] == 'i' && "miles"@[2] == 'l' && "miles"@[3] == 'e' && "miles"@[4] == 's',
        "min"@.len() == 3 && "min"@[0] == 'm' && "min"@[1] == 'i' && "min"@[2] == 'n',
        "minutes"@.len() == 7 && "minutes"@[0] == 'm' && "minutes"@[1] == 'i' && "minutes"@[2] == 'n' && "minutes"@[3] == 'u' && "minutes"@[4] == 't' && "minutes"@[5] == 'e' && "minutes"@[6] == 's',
        "ml"@.len() == 2 && "ml"@[0] == 'm' && "ml"@[1] == 'l',
        "mm"@.len() == 2 && "mm"@[0] == 'm' && "mm"@[1] == 'm',
        "ms"@.len() == 2 && "ms"@[0] == 'm' && "ms"@[1] == 's',
        "oz"@.len() == 2 && "oz"@[0] == 'o' && "oz"@[1] == 'z',
        "rad"@.len() == 3 && "rad"@[0] == 'r' && "rad"@[1] == 'a' && "rad"@[2] == 'd',
        "radians"@.len() == 7 && "radians"@[0] == 'r' && "radians"@[1] == 'a' && "radians"@[2] == 'd' && "radians"@[3] == 'i' && "radians"@[4] == 'a' && "radians"@[5] == 'n' && "radians"@[6] == 's',
        "s"@.len() == 1 && "s"@[0] == 's',
        "sec"@.len() == 3 && "sec"@[0] == 's' && "sec"@[1] == 'e' && "sec"@[2] == 'c',
        "seconds"@.len() == 7 && "seconds"@[0] == 's' && "seconds"@[1] == 'e' && "seconds"@[2] == 'c' && "seconds"@[3] == 'o' && "seconds"@[4] == 'n' && "seconds"@[5] == 'd' && "seconds"@[6] == 's',
        "tb"@.len() == 2 && "tb"@[0] == 't' && "tb"@[1] == 'b',
        "yards"@.len() == 5 && "yards"@[0] == 'y' && "yards"@[1] == 'a' && "yards"@[2] == 'r' && "yards"@[3] == 'd' && "yards"@[4] == 's',
        "yd"@.len() == 2 && "yd"@[0] == 'y' && "yd"@[1] == 'd',
        "°c"@.len() == 2 && "°c"@[0] == '°' && "°c"@[1] == 'c',
        "°f"@.len() == 2 && "°f"@[0] == '°' && "°f"@[1] == 'f',
{
    reveal_strlit("b");
    reveal_strlit("bytes");
    reveal_strlit("c");
    reveal_strlit("celsius");
    reveal_strlit("cm");
    reveal_strlit("d");
    reveal_strlit("days");
    reveal_strlit("deg");
    reveal_strlit("degrees");
    reveal_strlit("f");
    reveal_strlit("fahrenheit");
    reveal_strlit("feet");
    reveal_strlit("foot");
    reveal_strlit("ft");
    reveal_strlit("g");
    reveal_strlit("gal");
    reveal_strlit("gb");
    reveal_strlit("gib");
    reveal_strlit("h");
    reveal_strlit("hours");
    reveal_strlit("hr");
    reveal_strlit("in");
    reveal_strlit("inch");
    reveal_strlit("inches");
    reveal_strlit("k");
    reveal_strlit("kb");
    reveal_strlit("kelvin");
    reveal_strlit("kg");
    reveal_strlit("kib");
    reveal_strlit("km");
    reveal_strlit("l");
    reveal_strlit("lb");
    reveal_strlit("lbs");
    reveal_strlit("liters");
    reveal_strlit("litres");
    reveal_strlit("m");
    reveal_strlit("mb");
    reveal_strlit("meter");
    reveal_strlit("meters");
    reveal_strlit("metre");
    reveal_strlit("metres");
    reveal_strlit("mg");
    reveal_strlit("mi");
    reveal_strlit("mib");
    reveal_strlit("mile");
    reveal_strlit("miles");
    reveal_strlit("min");
    reveal_strlit("minutes");
    reveal_strlit("ml");
    reveal_strlit("mm");
    reveal_strlit("ms");
    reveal_strlit("oz");
    reveal_strlit("rad");
    reveal_strlit("radians");
    reveal_strlit("s");
    reveal_strlit("sec");
    reveal_strlit("seconds");
    reveal_strlit("tb");
    reveal_strlit("yards");
    reveal_strlit("yd");
    reveal_strlit("°c");
    reveal_strlit("°f");
}

/// What each unit measures, as the supported-units table groups them.
pub proof fn lemma_unit_dimensions(u: Unit)
    ensures
        (dimension_of(u) == Dimension::Length) <==> (u == Unit::Millimetre || u == Unit::Centimetre || u
            == Unit::Metre || u == Unit::Kilometre || u == Unit::Inch || u == Unit::Foot || u
            == Unit::Yard || u == Unit::Mile),
        (dimension_of(u) == Dimension::Mass) <==> (u == Unit::Milligram || u == Unit::Gram || u
            == Unit::Kilogram || u == Unit::Ounce || u == Unit::Pound),
        (dimension_of(u) == Dimension::Time) <==> (u == Unit::Millisecond || u == Unit::Second || u
            == Unit::Minute || u == Unit::Hour || u == Unit::Day),
        (dimension_of(u) == Dimension::Volume) <==> (u == Unit::Millilitre || u == Unit::Litre || u
            == Unit::Gallon),
        (dimension_of(u) == Dimension::Temperature) <==> (u == Unit::Celsius || u == Unit::Fahrenheit
            || u == Unit::Kelvin),
        (dimension_of(u) == Dimension::Data) <==> (u == Unit::Byte || u == Unit::Kilobyte || u
            == Unit::Megabyte || u == Unit::Gigabyte || u == Unit::Terabyte || u == Unit::Kibibyte
            || u == Unit::Mebibyte || u == Unit::Gibibyte),
        (dimension_of(u) == Dimension::Angle) <==> (u == Unit::Degree || u == Unit::Radian),
{
}

} // verus!
