//! The conversion-request front end: text of the shape
//! `<number><unit-abbrev> (-> | to) <unit-abbrev>` is resolved against the
//! known abbreviations into a structured conversion.

use vstd::prelude::*;

use crate::chars::str_eq;
use crate::converter_error::ConversionError;
use crate::numeric::{parse_deterministic, parse_oracle, parse_total};

verus! {

/// A unit, the abbreviation users type for it, and its category.
#[derive(Debug, Clone)]
pub struct UnitAbbreviation {
    pub unit: String,
    pub abbrev: String,
    pub unit_type: String,
}

/// The mathematical shadow of a unit abbreviation.
pub struct AbbrevView {
    pub unit: Seq<char>,
    pub abbrev: Seq<char>,
    pub unit_type: Seq<char>,
}

impl View for UnitAbbreviation {
    type V = AbbrevView;

    open spec fn view(&self) -> AbbrevView {
        AbbrevView { unit: self.unit@, abbrev: self.abbrev@, unit_type: self.unit_type@ }
    }
}

pub open spec fn abbrev_views(us: Seq<UnitAbbreviation>) -> Seq<AbbrevView> {
    us.map_values(|u: UnitAbbreviation| u@)
}

/// A parsed conversion request: the value and the resolved canonical unit
/// names with their shared category.
#[derive(Debug, PartialEq)]
pub struct UnitConversion {
    pub value: u64,
    pub from: String,
    pub to: String,
    pub unit_type: String,
}

/// The mathematical shadow of a parsed conversion request.
pub struct ConversionView {
    pub value: u64,
    pub from: Seq<char>,
    pub to: Seq<char>,
    pub unit_type: Seq<char>,
}

impl View for UnitConversion {
    type V = ConversionView;

    open spec fn view(&self) -> ConversionView {
        ConversionView {
            value: self.value,
            from: self.from@,
            to: self.to@,
            unit_type: self.unit_type@,
        }
    }
}

pub open spec fn ascii_digit(c: char) -> bool {
    '0' <= c && c <= '9'
}

pub open spec fn ascii_alpha(c: char) -> bool {
    ('a' <= c && c <= 'z') || ('A' <= c && c <= 'Z')
}

/// The first position at or after `i` that is not an ASCII digit.
pub open spec fn digits_end(s: Seq<char>, i: int) -> int
    decreases s.len() - i when 0 <= i <= s.len()
{
    if i >= s.len() || !ascii_digit(s[i]) {
        i
    } else {
        digits_end(s, i + 1)
    }
}

/// The first position at or after `i` that is not an ASCII letter.
pub open spec fn ascii_alpha_end(s: Seq<char>, i: int) -> int
    decreases s.len() - i when 0 <= i <= s.len()
{
    if i >= s.len() || !ascii_alpha(s[i]) {
        i
    } else {
        ascii_alpha_end(s, i + 1)
    }
}

/// The end of an exponent part starting at `p` (`e` or `E`, an optional
/// sign, then digits); `p` itself when no well-formed exponent starts
/// there.
pub open spec fn exponent_end(s: Seq<char>, p: int) -> int {
    if 0 <= p < s.len() && (s[p] == 'e' || s[p] == 'E') {
        let q = if p + 1 < s.len() && (s[p + 1] == '+' || s[p + 1] == '-') {
            p + 2
        } else {
            p + 1
        };
        if q < s.len() && ascii_digit(s[q]) {
            digits_end(s, q)
        } else {
            p
        }
    } else {
        p
    }
}

/// The end of a decimal number at the start of `s`: an optional sign,
/// digits with an optional fraction (or a bare fraction), and an optional
/// exponent. `None` when `s` does not begin with a number.
pub open spec fn float_end(s: Seq<char>) -> Option<int> {
    let i0: int = if s.len() > 0 && (s[0] == '+' || s[0] == '-') {
        1
    } else {
        0
    };
    let d1 = digits_end(s, i0);
    if d1 > i0 {
        let d2 = if d1 < s.len() && s[d1] == '.' {
            digits_end(s, d1 + 1)
        } else {
            d1
        };
        Some(exponent_end(s, d2))
    } else if i0 < s.len() && s[i0] == '.' && digits_end(s, i0 + 1) > i0 + 1 {
        Some(exponent_end(s, digits_end(s, i0 + 1)))
    } else {
        None
    }
}

/// The end of a conversion arrow at `i`: a spaced arrow, a bare arrow, or
/// the word `to` between spaces.
pub open spec fn arrow_end(s: Seq<char>, i: int) -> Option<int> {
    if i + 4 <= s.len() && s[i] == ' ' && s[i + 1] == '-' && s[i + 2] == '>' && s[i + 3] == ' ' {
        Some(i + 4)
    } else if i + 2 <= s.len() && s[i] == '-' && s[i + 1] == '>' {
        Some(i + 2)
    } else if i + 4 <= s.len() && s[i] == ' ' && s[i + 1] == 't' && s[i + 2] == 'o' && s[i + 3]
        == ' ' {
        Some(i + 4)
    } else {
        None
    }
}

/// The first abbreviation entry spelled exactly `ab`.
pub open spec fn find_abbrev(units: Seq<AbbrevView>, ab: Seq<char>) -> Option<int>
    decreases units.len(),
{
    if units.len() == 0 {
        None
    } else if units[0].abbrev == ab {
        Some(0)
    } else {
        match find_abbrev(units.subrange(1, units.len() as int), ab) {
            Some(i) => Some(i + 1),
            None => None,
        }
    }
}

pub proof fn lemma_find_abbrev(units: Seq<AbbrevView>, ab: Seq<char>)
    ensures
        match find_abbrev(units, ab) {
            Some(i) => 0 <= i < units.len() && units[i].abbrev == ab && (forall|j: int|
                0 <= j < i ==> (#[trigger] units[j]).abbrev != ab),
            None => forall|j: int| 0 <= j < units.len() ==> (#[trigger] units[j]).abbrev != ab,
        },
    decreases units.len(),
{
    if units.len() > 0 && units[0].abbrev != ab {
        let rest = units.subrange(1, units.len() as int);
        lemma_find_abbrev(rest, ab);
        assert forall|j: int| 0 <= j < rest.len() implies rest[j] == units[j + 1] by {
            assert(rest[j] == units.subrange(1, units.len() as int)[j]);
        }
        match find_abbrev(rest, ab) {
            Some(i) => {
                assert(units[i + 1].abbrev == ab);
                assert forall|j: int| 0 <= j < i + 1 implies (#[trigger] units[j]).abbrev != ab by {
                    if j >= 1 {
                        assert(rest[j - 1].abbrev != ab);
                    }
                }
            },
            None => {
                assert forall|j: int| 0 <= j < units.len() implies (#[trigger] units[j]).abbrev
                    != ab by {
                    if j >= 1 {
                        assert(rest[j - 1].abbrev != ab);
                    }
                }
            },
        }
    }
}

/// Why a conversion request could not be parsed.
pub enum ConvParseErr {
    BadNumber,
    BadUnitLexeme,
    BadStructure,
    UnknownUnit(Seq<char>),
    CategoryMismatch,
}

pub open spec fn conv_err_message(e: ConvParseErr) -> Seq<char> {
    match e {
        ConvParseErr::BadNumber => "Unable to parse a value to convert. Please ensure that the given value is a valid number."@,
        ConvParseErr::BadUnitLexeme => "Unable to parse unit(s)."@,
        ConvParseErr::BadStructure => "Expression is not using a valid structure."@,
        ConvParseErr::UnknownUnit(name) => "'"@ + name + "' is not a valid unit"@,
        ConvParseErr::CategoryMismatch => "Units are of different types"@,
    }
}

/// The structured conversion a request denotes, against the abbreviation
/// table, under the number parser's function `gp`.
pub open spec fn parse_conversion_spec(
    units: Seq<AbbrevView>,
    s: Seq<char>,
    gp: spec_fn(Seq<char>) -> Option<u64>,
) -> Result<ConversionView, ConvParseErr> {
    match float_end(s) {
        None => Err(ConvParseErr::BadNumber),
        Some(p) => match gp(s.subrange(0, p)) {
            None => Err(ConvParseErr::BadNumber),
            Some(bits) => {
                let a1 = ascii_alpha_end(s, p);
                if a1 == p {
                    Err(ConvParseErr::BadUnitLexeme)
                } else {
                    let from_ab = s.subrange(p, a1);
                    match arrow_end(s, a1) {
                        None => Err(ConvParseErr::BadStructure),
                        Some(q) => {
                            let a2 = ascii_alpha_end(s, q);
                            if a2 == q {
                                Err(ConvParseErr::BadUnitLexeme)
                            } else {
                                let to_ab = s.subrange(q, a2);
                                match find_abbrev(units, from_ab) {
                                    None => Err(ConvParseErr::UnknownUnit(from_ab)),
                                    Some(u1) => match find_abbrev(units, to_ab) {
                                        None => Err(ConvParseErr::UnknownUnit(to_ab)),
                                        Some(u2) => if units[u1].unit_type != units[u2].unit_type {
                                            Err(ConvParseErr::CategoryMismatch)
                                        } else {
                                            Ok(
                                                ConversionView {
                                                    value: bits,
                                                    from: units[u1].unit,
                                                    to: units[u2].unit,
                                                    unit_type: units[u1].unit_type,
                                                },
                                            )
                                        },
                                    },
                                }
                            }
                        },
                    }
                }
            },
        },
    }
}

fn scan_digits(s: &str, n: usize, i: usize) -> (j: usize)
    requires
        n == s@.len(),
        i <= n,
    ensures
        j == digits_end(s@, i as int),
        i <= j <= n,
    decreases n - i,
{
    if i == n {
        return i;
    }
    let c = s.get_char(i);
    if '0' <= c && c <= '9' {
        scan_digits(s, n, i + 1)
    } else {
        i
    }
}

fn scan_ascii_alpha(s: &str, n: usize, i: usize) -> (j: usize)
    requires
        n == s@.len(),
        i <= n,
    ensures
        j == ascii_alpha_end(s@, i as int),
        i <= j <= n,
    decreases n - i,
{
    if i == n {
        return i;
    }
    let c = s.get_char(i);
    if ('a' <= c && c <= 'z') || ('A' <= c && c <= 'Z') {
        scan_ascii_alpha(s, n, i + 1)
    } else {
        i
    }
}

fn scan_exponent(s: &str, n: usize, p: usize) -> (j: usize)
    requires
        n == s@.len(),
        p <= n,
    ensures
        j == exponent_end(s@, p as int),
        p <= j <= n,
    decreases n - p,
{
    if p < n {
        let c = s.get_char(p);
        if c == 'e' || c == 'E' {
            let q = if p + 1 < n {
                let c1 = s.get_char(p + 1);
                if c1 == '+' || c1 == '-' {
                    p + 2
                } else {
                    p + 1
                }
            } else {
                p + 1
            };
            if q < n {
                let cq = s.get_char(q);
                if '0' <= cq && cq <= '9' {
                    return scan_digits(s, n, q);
                }
            }
            return p;
        }
    }
    p
}

fn scan_float(s: &str, n: usize) -> (r: Option<usize>)
    requires
        n == s@.len(),
    ensures
        match float_end(s@) {
            Some(p) => 0 <= p <= n && r == Some(p as usize),
            None => r is None,
        },
{
    let i0: usize = if n > 0 {
        let c = s.get_char(0);
        if c == '+' || c == '-' {
            1
        } else {
            0
        }
    } else {
        0
    };
    let d1 = scan_digits(s, n, i0);
    if d1 > i0 {
        let d2 = if d1 < n && s.get_char(d1) == '.' {
            scan_digits(s, n, d1 + 1)
        } else {
            d1
        };
        Some(scan_exponent(s, n, d2))
    } else if i0 < n && s.get_char(i0) == '.' {
        let d2 = scan_digits(s, n, i0 + 1);
        if d2 > i0 + 1 {
            Some(scan_exponent(s, n, d2))
        } else {
            None
        }
    } else {
        None
    }
}

fn scan_arrow(s: &str, n: usize, i: usize) -> (r: Option<usize>)
    requires
        n == s@.len(),
        i <= n,
    ensures
        match arrow_end(s@, i as int) {
            Some(q) => 0 <= q <= n && r == Some(q as usize),
            None => r is None,
        },
{
    if n - i >= 4 && s.get_char(i) == ' ' && s.get_char(i + 1) == '-' && s.get_char(i + 2) == '>'
        && s.get_char(i + 3) == ' ' {
        Some(i + 4)
    } else if n - i >= 2 && s.get_char(i) == '-' && s.get_char(i + 1) == '>' {
        Some(i + 2)
    } else if n - i >= 4 && s.get_char(i) == ' ' && s.get_char(i + 1) == 't' && s.get_char(i + 2)
        == 'o' && s.get_char(i + 3) == ' ' {
        Some(i + 4)
    } else {
        None
    }
}

/// The first abbreviation entry spelled exactly `ab`, with its canonical
/// unit name and category.
fn lookup_abbrev<'u>(units: &'u Vec<UnitAbbreviation>, ab: &str) -> (r: Option<
    &'u UnitAbbreviation,
>)
    ensures
        match find_abbrev(abbrev_views(units@), ab@) {
            Some(i) => r is Some && *r->0 == units@[i],
            None => r is None,
        },
{
    proof {
        lemma_find_abbrev(abbrev_views(units@), ab@);
    }
    let mut i: usize = 0;
    while i < units.len()
        invariant
            0 <= i <= units@.len(),
            forall|j: int| 0 <= j < i ==> (#[trigger] abbrev_views(units@)[j]).abbrev != ab@,
        decreases units@.len() - i,
    {
        if str_eq(units[i].abbrev.as_str(), ab) {
            proof {
                assert(abbrev_views(units@)[i as int] == units@[i as int]@);
                assert(abbrev_views(units@)[i as int].abbrev == ab@);
                lemma_find_abbrev(abbrev_views(units@), ab@);
                assert(find_abbrev(abbrev_views(units@), ab@) == Some(i as int));
            }
            return Some(&units[i]);
        }
        i += 1;
    }
    None
}

/// Parses `<number><unit-abbrev> (-> | to) <unit-abbrev>` and resolves
/// both abbreviations against the table; both units must belong to the
/// same category. Each failure carries its diagnostic text.
pub fn parse_conversion<FP: Fn(String) -> Option<u64>>(
    abbreviations: &Vec<UnitAbbreviation>,
    input: &str,
    fp: &FP,
) -> (r: Result<UnitConversion, ConversionError>)
    requires
        parse_total(*fp),
        parse_deterministic(*fp),
    ensures
        match parse_conversion_spec(abbrev_views(abbreviations@), input@, parse_oracle(*fp)) {
            Ok(cv) => r is Ok && r->Ok_0@.value == cv.value && r->Ok_0@.from == cv.from
                && r->Ok_0@.to == cv.to && r->Ok_0@.unit_type == cv.unit_type,
            Err(e) => r is Err && r->Err_0.spec_message() == Some(conv_err_message(e)),
        },
{
    let n = input.unicode_len();
    let p = match scan_float(input, n) {
        Some(p) => p,
        None => {
            return Err(
                ConversionError::new(
                    "Unable to parse a value to convert. Please ensure that the given value is a valid number.",
                ),
            );
        },
    };
    let number_text: String = input.substring_char(0, p).to_owned();
    let ghost gnumber = number_text;
    let parsed = fp(number_text);
    proof {
        crate::numeric::lemma_parse_oracle_value(*fp, gnumber, parsed);
    }
    let bits = match parsed {
        Some(b) => b,
        None => {
            return Err(
                ConversionError::new(
                    "Unable to parse a value to convert. Please ensure that the given value is a valid number.",
                ),
            );
        },
    };
    let a1 = scan_ascii_alpha(input, n, p);
    if a1 == p {
        return Err(ConversionError::new("Unable to parse unit(s)."));
    }
    let from_ab = input.substring_char(p, a1);
    let q = match scan_arrow(input, n, a1) {
        Some(q) => q,
        None => {
            return Err(ConversionError::new("Expression is not using a valid structure."));
        },
    };
    let a2 = scan_ascii_alpha(input, n, q);
    if a2 == q {
        return Err(ConversionError::new("Unable to parse unit(s)."));
    }
    let to_ab = input.substring_char(q, a2);
    let from_entry = match lookup_abbrev(abbreviations, from_ab) {
        Some(u) => u,
        None => {
            let msg = unknown_unit_message(from_ab);
            return Err(ConversionError::new(msg.as_str()));
        },
    };
    let to_entry = match lookup_abbrev(abbreviations, to_ab) {
        Some(u) => u,
        None => {
            let msg = unknown_unit_message(to_ab);
            return Err(ConversionError::new(msg.as_str()));
        },
    };
    proof {
        let views = abbrev_views(abbreviations@);
        lemma_find_abbrev(views, from_ab@);
        lemma_find_abbrev(views, to_ab@);
        let f1 = find_abbrev(views, from_ab@);
        let f2 = find_abbrev(views, to_ab@);
        if f1 is Some {
            assert(views[f1.unwrap()] == abbreviations@[f1.unwrap()]@);
        }
        if f2 is Some {
            assert(views[f2.unwrap()] == abbreviations@[f2.unwrap()]@);
        }
    }
    if !str_eq(from_entry.unit_type.as_str(), to_entry.unit_type.as_str()) {
        return Err(ConversionError::new("Units are of different types"));
    }
    Ok(
        UnitConversion {
            value: bits,
            from: from_entry.unit.clone(),
            to: to_entry.unit.clone(),
            unit_type: from_entry.unit_type.clone(),
        },
    )
}

/// The diagnostic naming an unresolvable abbreviation.
fn unknown_unit_message(name: &str) -> (r: String)
    ensures
        r@ == "'"@ + name@ + "' is not a valid unit"@,
{
    let mut m: String = "'".to_owned();
    m.append(name);
    m.append("' is not a valid unit");
    m
}

} // verus!
