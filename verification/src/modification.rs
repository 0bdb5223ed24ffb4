//! Modifications: the expression trees that produce one output string from
//! field values, literals and numbers, used by assignments and aggregation.

use vstd::prelude::*;
use crate::numeric::{
    Number, MAG_LIMIT, UNIT, iabs, mul_units, div_units, pow_units, spec_parse_num,
    spec_render_num,
};
use crate::strutil::{spec_lookup, lookup_cell, upper_of, lower_of, to_upper, to_lower, str_eq};
use crate::value::{
    Value, ValueV, ParseResult, ParseOutcome, parse_field_name, parse_number, parse_literal,
    spec_parse_field_name, spec_parse_literal,
};

verus! {

/// The largest exponent the power modifier accepts.
pub const POW_CAP: u64 = 1_000_000;

/// The arithmetic modifiers.
#[derive(Debug, Clone, Copy, PartialEq, Eq, Structural)]
pub enum ArithmeticModifier {
    Plus,
    Minus,
    Multiply,
    Divide,
    Modulo,
    Power,
}

/// The string modifiers.
#[derive(Debug, Clone, Copy, PartialEq, Eq, Structural)]
pub enum StringModifier {
    Concatenate,
    ToUpperCase,
    ToLowerCase,
}

/// A modifier: arithmetic or string.
#[derive(Debug, Clone, Copy, PartialEq, Eq, Structural)]
pub enum Modifier {
    ArithmeticModifier(ArithmeticModifier),
    StringModifier(StringModifier),
}

/// One modification: a left-hand value, an optional modifier with its
/// right-nested chain, and for the postfix case conversions one optional
/// additional modifier applying the chain after the conversion.
#[derive(Debug)]
pub struct Modification {
    pub lhs: Value,
    pub modifier: Option<Modifier>,
    pub additional_modifier: Option<Modifier>,
    pub rhs: Option<Box<Modification>>,
}

/// The mathematical content of a modification.
pub struct ModificationV {
    pub lhs: ValueV,
    pub modifier: Option<Modifier>,
    pub additional_modifier: Option<Modifier>,
    pub rhs: Option<Box<ModificationV>>,
}

impl View for Modification {
    type V = ModificationV;

    open spec fn view(&self) -> ModificationV
        decreases self,
    {
        ModificationV {
            lhs: self.lhs@,
            modifier: self.modifier,
            additional_modifier: self.additional_modifier,
            rhs: match &self.rhs {
                Option::Some(b) => Some(Box::new((**b)@)),
                Option::None => Option::None,
            },
        }
    }
}

impl ModificationV {
    /// Well-formed: every held number is in range.
    pub open spec fn wf(self) -> bool
        decreases self,
    {
        self.lhs.wf() && match self.rhs {
            Some(b) => (*b).wf(),
            Option::None => true,
        }
    }
}

/// The canonical number for a value in units.
pub open spec fn num_from_units(u: int) -> Number {
    Number { neg: u < 0, mag: iabs(u) as u64 }
}

/// What one arithmetic modifier computes on two numbers: exact to the
/// 10^-9 resolution, `None` when the result leaves the representable
/// range. Division by zero hands the left operand back; the power
/// modifier takes whole exponents up to the cap, a negative exponent
/// meaning the reciprocal of the positive power.
pub open spec fn spec_arith(am: ArithmeticModifier, a: Number, b: Number) -> Option<Number> {
    match am {
        ArithmeticModifier::Plus => {
            let u = a.units() + b.units();
            if iabs(u) < MAG_LIMIT {
                Some(num_from_units(u))
            } else {
                Option::None
            }
        },
        ArithmeticModifier::Minus => {
            let u = a.units() - b.units();
            if iabs(u) < MAG_LIMIT {
                Some(num_from_units(u))
            } else {
                Option::None
            }
        },
        ArithmeticModifier::Multiply => {
            let u = mul_units(a.units(), b.units());
            if iabs(u) < MAG_LIMIT {
                Some(num_from_units(u))
            } else {
                Option::None
            }
        },
        ArithmeticModifier::Divide => {
            if b.units() == 0 {
                Some(a)
            } else {
                let u = div_units(a.units(), b.units());
                if iabs(u) < MAG_LIMIT {
                    Some(num_from_units(u))
                } else {
                    Option::None
                }
            }
        },
        ArithmeticModifier::Modulo => {
            if b.units() == 0 {
                Option::None
            } else {
                let m = (a.mag as int) % (b.mag as int);
                Some(num_from_units(
                    if a.neg {
                        -m
                    } else {
                        m
                    },
                ))
            }
        },
        ArithmeticModifier::Power => {
            if b.mag as int % (UNIT as int) != 0 {
                Option::None
            } else {
                let e = (b.mag / UNIT) as nat;
                if e > POW_CAP {
                    Option::None
                } else {
                    match pow_units(a.units(), e) {
                        Some(p) => if b.neg {
                            if p == 0 {
                                Option::None
                            } else {
                                let u = div_units(UNIT as int, p);
                                if iabs(u) < MAG_LIMIT {
                                    Some(num_from_units(u))
                                } else {
                                    Option::None
                                }
                            }
                        } else {
                            Some(num_from_units(p))
                        },
                        Option::None => Option::None,
                    }
                }
            }
        },
    }
}

/// The numeric left operand of an arithmetic modifier: the number itself,
/// or a field's cell read numerically.
pub open spec fn spec_arith_lhs(v: ValueV, fields: Seq<String>, row: Seq<String>) -> Option<
    Number,
> {
    match v {
        ValueV::Number(n) => Some(n),
        ValueV::FieldName(f) => match spec_lookup(fields, row, f) {
            Some(cell) => spec_parse_num(cell),
            Option::None => Option::None,
        },
        _ => Option::None,
    }
}

/// The text left operand of a string modifier: the literal itself, or a
/// field's cell.
pub open spec fn spec_str_lhs(v: ValueV, fields: Seq<String>, row: Seq<String>) -> Option<
    Seq<char>,
> {
    match v {
        ValueV::Literal(t) => Some(t),
        ValueV::FieldName(f) => spec_lookup(fields, row, f),
        _ => Option::None,
    }
}

/// The string a modification produces on one row, or `None` on failure:
/// with no modifier the value itself; an arithmetic modifier computes on
/// the numeric operands; `||` concatenates; the case conversions apply to
/// the left side and may carry one further concatenation.
pub open spec fn spec_eval_modification(
    m: ModificationV,
    fields: Seq<String>,
    row: Seq<String>,
) -> Option<Seq<char>>
    decreases m,
{
    match m.modifier {
        Some(Modifier::ArithmeticModifier(am)) => {
            match spec_arith_lhs(m.lhs, fields, row) {
                Some(a) => match m.rhs {
                    Some(rm) => match spec_eval_modification(*rm, fields, row) {
                        Some(s) => match spec_parse_num(s) {
                            Some(b) => match spec_arith(am, a, b) {
                                Some(c) => Some(spec_render_num(c)),
                                Option::None => Option::None,
                            },
                            Option::None => Option::None,
                        },
                        Option::None => Option::None,
                    },
                    Option::None => Option::None,
                },
                Option::None => Option::None,
            }
        },
        Some(Modifier::StringModifier(sm)) => {
            match spec_str_lhs(m.lhs, fields, row) {
                Some(a) => {
                    let rv = match m.rhs {
                        Some(rm) => spec_eval_modification(*rm, fields, row),
                        Option::None => Option::None,
                    };
                    match sm {
                        StringModifier::Concatenate => match rv {
                            Some(v) => Some(a + v),
                            Option::None => Option::None,
                        },
                        StringModifier::ToUpperCase => match rv {
                            Some(v) => match m.additional_modifier {
                                Option::None => Some(upper_of(a)),
                                Some(Modifier::StringModifier(StringModifier::Concatenate)) => Some(
                                    upper_of(a) + v,
                                ),
                                Some(_) => Option::None,
                            },
                            Option::None => Some(upper_of(a)),
                        },
                        StringModifier::ToLowerCase => match rv {
                            Some(v) => match m.additional_modifier {
                                Option::None => Some(lower_of(a)),
                                Some(Modifier::StringModifier(StringModifier::Concatenate)) => Some(
                                    lower_of(a) + v,
                                ),
                                Some(_) => Option::None,
                            },
                            Option::None => Some(lower_of(a)),
                        },
                    }
                },
                Option::None => Option::None,
            }
        },
        Option::None => match m.lhs {
            ValueV::FieldName(f) => spec_lookup(fields, row, f),
            ValueV::Literal(t) => Some(t),
            ValueV::Number(n) => Some(spec_render_num(n)),
            _ => Option::None,
        },
    }
}

/// Computes one arithmetic modifier on two numbers.
fn arith(am: &ArithmeticModifier, a: Number, b: Number) -> (r: Option<Number>)
    requires
        a.wf(),
        b.wf(),
    ensures
        r == spec_arith(*am, a, b),
        r is Some ==> r.unwrap().wf(),
{
    match am {
        ArithmeticModifier::Plus => a.add(b),
        ArithmeticModifier::Minus => a.sub(b),
        ArithmeticModifier::Multiply => a.mul(b),
        ArithmeticModifier::Divide => {
            if b.mag == 0 {
                Some(a)
            } else {
                a.div(b)
            }
        },
        ArithmeticModifier::Modulo => {
            if b.mag == 0 {
                None
            } else {
                Some(a.rem(b))
            }
        },
        ArithmeticModifier::Power => {
            if b.mag % UNIT != 0 {
                return None;
            }
            let e = b.mag / UNIT;
            if e > POW_CAP {
                return None;
            }
            match a.pow(e) {
                Some(p) => {
                    if b.neg {
                        if p.mag == 0 {
                            None
                        } else {
                            Number::one().div(p)
                        }
                    } else {
                        Some(p)
                    }
                },
                None => None,
            }
        },
    }
}

impl Modification {
    /// Produces the modification's output string on one row, or `None` when
    /// an operand fails to resolve or a result leaves the representable
    /// range.
    pub fn evaluate(&self, fields: &Vec<String>, row: &Vec<String>) -> (r: Option<String>)
        requires
            self@.wf(),
        ensures
            match r {
                Some(s) => spec_eval_modification(self@, fields@, row@) == Some(s@),
                Option::None => spec_eval_modification(self@, fields@, row@) is None,
            },
        decreases self,
    {
        match &self.modifier {
            Some(Modifier::ArithmeticModifier(am)) => {
                let a = match &self.lhs {
                    Value::Number(n) => *n,
                    Value::FieldName(f) => match lookup_cell(fields, row, f.as_str()) {
                        Some(cell) => match parse_number(&cell) {
                            Some(x) => x,
                            None => {
                                return None;
                            },
                        },
                        None => {
                            return None;
                        },
                    },
                    _ => {
                        return None;
                    },
                };
                let rs = match &self.rhs {
                    Some(rm) => match rm.evaluate(fields, row) {
                        Some(s) => s,
                        None => {
                            return None;
                        },
                    },
                    None => {
                        return None;
                    },
                };
                let b = match parse_number(&rs) {
                    Some(x) => x,
                    None => {
                        return None;
                    },
                };
                match arith(am, a, b) {
                    Some(c) => Some(c.render()),
                    None => None,
                }
            },
            Some(Modifier::StringModifier(sm)) => {
                let a = match &self.lhs {
                    Value::Literal(t) => t.clone(),
                    Value::FieldName(f) => match lookup_cell(fields, row, f.as_str()) {
                        Some(cell) => cell,
                        None => {
                            return None;
                        },
                    },
                    _ => {
                        return None;
                    },
                };
                let rv = match &self.rhs {
                    Some(rm) => rm.evaluate(fields, row),
                    None => None,
                };
                match sm {
                    StringModifier::Concatenate => match rv {
                        Some(v) => Some(a.concat(v.as_str())),
                        None => None,
                    },
                    StringModifier::ToUpperCase => match rv {
                        Some(v) => match &self.additional_modifier {
                            None => Some(to_upper(a.as_str())),
                            Some(Modifier::StringModifier(StringModifier::Concatenate)) => Some(
                                to_upper(a.as_str()).concat(v.as_str()),
                            ),
                            Some(_) => None,
                        },
                        None => Some(to_upper(a.as_str())),
                    },
                    StringModifier::ToLowerCase => match rv {
                        Some(v) => match &self.additional_modifier {
                            None => Some(to_lower(a.as_str())),
                            Some(Modifier::StringModifier(StringModifier::Concatenate)) => Some(
                                to_lower(a.as_str()).concat(v.as_str()),
                            ),
                            Some(_) => None,
                        },
                        None => Some(to_lower(a.as_str())),
                    },
                }
            },
            None => match &self.lhs {
                Value::FieldName(f) => lookup_cell(fields, row, f.as_str()),
                Value::Literal(t) => Some(t.clone()),
                Value::Number(n) => Some(n.render()),
                _ => None,
            },
        }
    }
}


/// The modifier a lexeme denotes, if any.
pub open spec fn spec_modifier_of(s: Seq<char>) -> Option<Modifier> {
    if s == "+"@ {
        Some(Modifier::ArithmeticModifier(ArithmeticModifier::Plus))
    } else if s == "-"@ {
        Some(Modifier::ArithmeticModifier(ArithmeticModifier::Minus))
    } else if s == "*"@ {
        Some(Modifier::ArithmeticModifier(ArithmeticModifier::Multiply))
    } else if s == "/"@ {
        Some(Modifier::ArithmeticModifier(ArithmeticModifier::Divide))
    } else if s == "%"@ {
        Some(Modifier::ArithmeticModifier(ArithmeticModifier::Modulo))
    } else if s == "^"@ {
        Some(Modifier::ArithmeticModifier(ArithmeticModifier::Power))
    } else if s == "||"@ {
        Some(Modifier::StringModifier(StringModifier::Concatenate))
    } else if s == "to-upper"@ {
        Some(Modifier::StringModifier(StringModifier::ToUpperCase))
    } else if s == "to-lower"@ {
        Some(Modifier::StringModifier(StringModifier::ToLowerCase))
    } else {
        Option::None
    }
}

/// Whether a lexeme is a modifier that takes a right-hand side.
pub open spec fn spec_is_binary_modifier(s: Seq<char>) -> bool {
    s == "+"@ || s == "-"@ || s == "*"@ || s == "/"@ || s == "%"@ || s == "^"@ || s == "||"@
}

impl Modifier {
    /// The modifier a lexeme names; the lexeme must be one of the nine.
    pub fn get_modifier_from_lexeme(lexeme: &String) -> (r: Modifier)
        requires
            spec_modifier_of(lexeme@) is Some,
        ensures
            Some(r) == spec_modifier_of(lexeme@),
    {
        let s = lexeme.as_str();
        if str_eq(s, "+") {
            Modifier::ArithmeticModifier(ArithmeticModifier::Plus)
        } else if str_eq(s, "-") {
            Modifier::ArithmeticModifier(ArithmeticModifier::Minus)
        } else if str_eq(s, "*") {
            Modifier::ArithmeticModifier(ArithmeticModifier::Multiply)
        } else if str_eq(s, "/") {
            Modifier::ArithmeticModifier(ArithmeticModifier::Divide)
        } else if str_eq(s, "%") {
            Modifier::ArithmeticModifier(ArithmeticModifier::Modulo)
        } else if str_eq(s, "^") {
            Modifier::ArithmeticModifier(ArithmeticModifier::Power)
        } else if str_eq(s, "||") {
            Modifier::StringModifier(StringModifier::Concatenate)
        } else if str_eq(s, "to-upper") {
            Modifier::StringModifier(StringModifier::ToUpperCase)
        } else {
            Modifier::StringModifier(StringModifier::ToLowerCase)
        }
    }
}

/// Tests whether a lexeme is a modifier that takes a right-hand side.
fn is_binary_modifier(lexeme: &String) -> (r: bool)
    ensures
        r == spec_is_binary_modifier(lexeme@),
{
    let s = lexeme.as_str();
    str_eq(s, "+") || str_eq(s, "-") || str_eq(s, "*") || str_eq(s, "/") || str_eq(s, "%")
        || str_eq(s, "^") || str_eq(s, "||")
}

/// The left-hand value of a modification: a field reference, a number, or
/// a quoted literal, tried in that order.
pub open spec fn spec_mod_lhs(s: Seq<char>) -> Option<ValueV> {
    match spec_parse_field_name(s) {
        Some(f) => Some(ValueV::FieldName(f)),
        Option::None => match spec_parse_num(s) {
            Some(x) => Some(ValueV::Number(x)),
            Option::None => match spec_parse_literal(s) {
                Some(lit) => Some(ValueV::Literal(lit)),
                Option::None => Option::None,
            },
        },
    }
}

/// The modification the lexemes denote at `idx`: a value, optionally
/// followed by a binary modifier and a nested modification, or by a case
/// conversion that may carry one further binary modifier and chain.
pub open spec fn spec_parse_modification(lex: Seq<String>, idx: int) -> ParseOutcome<
    ModificationV,
>
    decreases lex.len() - idx,
{
    if !(0 <= idx < lex.len()) {
        ParseOutcome::Absent
    } else {
        match spec_mod_lhs(lex[idx]@) {
            Option::None => ParseOutcome::SyntaxError,
            Some(lhs) => if !(idx + 1 < lex.len()) {
                ParseOutcome::Matched(
                    ModificationV {
                        lhs,
                        modifier: Option::None,
                        additional_modifier: Option::None,
                        rhs: Option::None,
                    },
                    idx + 1,
                )
            } else {
                let l2 = lex[idx + 1]@;
                if spec_is_binary_modifier(l2) {
                    if idx + 2 < lex.len() {
                        match spec_parse_modification(lex, idx + 2) {
                            ParseOutcome::Matched(m, nx) => ParseOutcome::Matched(
                                ModificationV {
                                    lhs,
                                    modifier: spec_modifier_of(l2),
                                    additional_modifier: Option::None,
                                    rhs: Some(Box::new(m)),
                                },
                                nx,
                            ),
                            ParseOutcome::Absent => ParseOutcome::SyntaxError,
                            ParseOutcome::SyntaxError => ParseOutcome::SyntaxError,
                        }
                    } else {
                        ParseOutcome::SyntaxError
                    }
                } else if l2 == "to-lower"@ || l2 == "to-upper"@ {
                    if idx + 2 < lex.len() && spec_is_binary_modifier(lex[idx + 2]@) {
                        match spec_parse_modification(lex, idx + 3) {
                            ParseOutcome::Matched(m, nx) => ParseOutcome::Matched(
                                ModificationV {
                                    lhs,
                                    modifier: spec_modifier_of(l2),
                                    additional_modifier: spec_modifier_of(lex[idx + 2]@),
                                    rhs: Some(Box::new(m)),
                                },
                                nx,
                            ),
                            ParseOutcome::Absent => ParseOutcome::SyntaxError,
                            ParseOutcome::SyntaxError => ParseOutcome::SyntaxError,
                        }
                    } else {
                        ParseOutcome::Matched(
                            ModificationV {
                                lhs,
                                modifier: spec_modifier_of(l2),
                                additional_modifier: Option::None,
                                rhs: Option::None,
                            },
                            idx + 2,
                        )
                    }
                } else {
                    ParseOutcome::Matched(
                        ModificationV {
                            lhs,
                            modifier: Option::None,
                            additional_modifier: Option::None,
                            rhs: Option::None,
                        },
                        idx + 1,
                    )
                }
            },
        }
    }
}

impl Modification {
    /// Parses one modification at `idx`; the index returned is the first
    /// unconsumed one on a match, and `idx` itself otherwise.
    pub fn parse(lexemes: &Vec<String>, idx: usize) -> (r: (ParseResult<Modification>, usize))
        ensures
            match spec_parse_modification(lexemes@, idx as int) {
                ParseOutcome::Matched(mv, nx) => r.0 is Matched && (r.0)->Matched_0@ == mv && (
                r.0)->Matched_0@.wf() && r.1 == nx && idx < r.1 <= lexemes@.len(),
                ParseOutcome::Absent => r.0 is Absent && r.1 == idx,
                ParseOutcome::SyntaxError => r.0 is SyntaxError && r.1 == idx,
            },
        decreases lexemes@.len() - idx,
    {
        if idx >= lexemes.len() {
            return (ParseResult::Absent, idx);
        }
        let lhs = match parse_field_name(&lexemes[idx]) {
            Some(f) => Value::FieldName(f),
            None => match parse_number(&lexemes[idx]) {
                Some(x) => Value::Number(x),
                None => match parse_literal(&lexemes[idx]) {
                    Some(lit) => Value::Literal(lit),
                    None => {
                        return (ParseResult::SyntaxError, idx);
                    },
                },
            },
        };
        if idx + 1 >= lexemes.len() {
            return (
                ParseResult::Matched(
                    Modification { lhs, modifier: None, additional_modifier: None, rhs: None },
                ),
                idx + 1,
            );
        }
        if is_binary_modifier(&lexemes[idx + 1]) {
            let modifier = Some(Modifier::get_modifier_from_lexeme(&lexemes[idx + 1]));
            if idx + 2 >= lexemes.len() {
                return (ParseResult::SyntaxError, idx);
            }
            let (mr, nx) = Modification::parse(lexemes, idx + 2);
            match mr {
                ParseResult::Matched(m) => (
                    ParseResult::Matched(
                        Modification {
                            lhs,
                            modifier,
                            additional_modifier: None,
                            rhs: Some(Box::new(m)),
                        },
                    ),
                    nx,
                ),
                ParseResult::Absent => (ParseResult::SyntaxError, idx),
                ParseResult::SyntaxError => (ParseResult::SyntaxError, idx),
            }
        } else if str_eq(lexemes[idx + 1].as_str(), "to-lower") || str_eq(
            lexemes[idx + 1].as_str(),
            "to-upper",
        ) {
            let modifier = Some(Modifier::get_modifier_from_lexeme(&lexemes[idx + 1]));
            if idx + 2 < lexemes.len() && is_binary_modifier(&lexemes[idx + 2]) {
                let additional = Some(Modifier::get_modifier_from_lexeme(&lexemes[idx + 2]));
                let (mr, nx) = Modification::parse(lexemes, idx + 3);
                match mr {
                    ParseResult::Matched(m) => (
                        ParseResult::Matched(
                            Modification {
                                lhs,
                                modifier,
                                additional_modifier: additional,
                                rhs: Some(Box::new(m)),
                            },
                        ),
                        nx,
                    ),
                    ParseResult::Absent => (ParseResult::SyntaxError, idx),
                    ParseResult::SyntaxError => (ParseResult::SyntaxError, idx),
                }
            } else {
                (
                    ParseResult::Matched(
                        Modification {
                            lhs,
                            modifier,
                            additional_modifier: None,
                            rhs: None,
                        },
                    ),
                    idx + 2,
                )
            }
        } else {
            (
                ParseResult::Matched(
                    Modification { lhs, modifier: None, additional_modifier: None, rhs: None },
                ),
                idx + 1,
            )
        }
    }
}

} // verus!
