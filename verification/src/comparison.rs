//! Comparisons: one relational test between a field's cell and a value,
//! with the numeric coercion and per-row degradation rules.

use vstd::prelude::*;
use crate::numeric::{Number, NumOrder, spec_parse_num};
use crate::strutil::{
    spec_lookup, lookup_cell, spec_empty_cell, empty_cell, spec_contains, spec_starts_with,
    spec_ends_with, str_eq, str_contains, str_starts_with, str_ends_with,
};
use crate::value::{
    Value, ValueV, ParseResult, ParseOutcome, parse_field_name, parse_number, parse_rhs_value,
    spec_parse_field_name, spec_rhs_value,
};

verus! {

/// The comparison operators; `between` carries its two bounds.
#[derive(Debug)]
pub enum ComparisonOps {
    Equal,
    NotEqual,
    LessThan,
    GreaterThan,
    LessThanOrEqual,
    GreaterThanOrEqual,
    BetweenOp(Value, Value),
    Is,
    IsNot,
    Contains,
    In,
    StartsWith,
    EndsWith,
}

/// One relational test: a field name, an operator, and a right-hand value.
#[derive(Debug)]
pub struct Comparison {
    pub field_name: String,
    pub comparison_op: ComparisonOps,
    pub rhs: Value,
}

/// The mathematical content of a comparison operator.
pub enum ComparisonOpsV {
    Equal,
    NotEqual,
    LessThan,
    GreaterThan,
    LessThanOrEqual,
    GreaterThanOrEqual,
    BetweenOp(ValueV, ValueV),
    Is,
    IsNot,
    Contains,
    In,
    StartsWith,
    EndsWith,
}

/// The mathematical content of a comparison.
pub struct ComparisonV {
    pub field_name: Seq<char>,
    pub comparison_op: ComparisonOpsV,
    pub rhs: ValueV,
}

impl View for ComparisonOps {
    type V = ComparisonOpsV;

    open spec fn view(&self) -> ComparisonOpsV {
        match self {
            ComparisonOps::Equal => ComparisonOpsV::Equal,
            ComparisonOps::NotEqual => ComparisonOpsV::NotEqual,
            ComparisonOps::LessThan => ComparisonOpsV::LessThan,
            ComparisonOps::GreaterThan => ComparisonOpsV::GreaterThan,
            ComparisonOps::LessThanOrEqual => ComparisonOpsV::LessThanOrEqual,
            ComparisonOps::GreaterThanOrEqual => ComparisonOpsV::GreaterThanOrEqual,
            ComparisonOps::BetweenOp(a, b) => ComparisonOpsV::BetweenOp(a@, b@),
            ComparisonOps::Is => ComparisonOpsV::Is,
            ComparisonOps::IsNot => ComparisonOpsV::IsNot,
            ComparisonOps::Contains => ComparisonOpsV::Contains,
            ComparisonOps::In => ComparisonOpsV::In,
            ComparisonOps::StartsWith => ComparisonOpsV::StartsWith,
            ComparisonOps::EndsWith => ComparisonOpsV::EndsWith,
        }
    }
}

impl View for Comparison {
    type V = ComparisonV;

    open spec fn view(&self) -> ComparisonV {
        ComparisonV {
            field_name: self.field_name@,
            comparison_op: self.comparison_op@,
            rhs: self.rhs@,
        }
    }
}

impl ComparisonV {
    /// Well-formed: every held number is in range.
    pub open spec fn wf(self) -> bool {
        &&& self.rhs.wf()
        &&& match self.comparison_op {
            ComparisonOpsV::BetweenOp(a, b) => a.wf() && b.wf(),
            _ => true,
        }
    }
}

/// The numeric value, in units, of the named field's cell, when the field
/// resolves and its cell parses as a number.
pub open spec fn cell_units(fields: Seq<String>, row: Seq<String>, name: Seq<char>) -> Option<
    int,
> {
    match spec_lookup(fields, row, name) {
        Some(cell) => match spec_parse_num(cell) {
            Some(x) => Some(x.units()),
            Option::None => Option::None,
        },
        Option::None => Option::None,
    }
}

/// The numeric value of a right-hand side: a number itself, or another
/// field's cell read numerically.
pub open spec fn val_units(v: ValueV, fields: Seq<String>, row: Seq<String>) -> Option<int> {
    match v {
        ValueV::Number(x) => Some(x.units()),
        ValueV::FieldName(f) => cell_units(fields, row, f),
        _ => Option::None,
    }
}

/// Both numeric operands of a comparison, when each resolves.
pub open spec fn spec_num_rel(
    name: Seq<char>,
    v: ValueV,
    fields: Seq<String>,
    row: Seq<String>,
) -> Option<(int, int)> {
    match cell_units(fields, row, name) {
        Some(a) => match val_units(v, fields, row) {
            Some(b) => Some((a, b)),
            Option::None => Option::None,
        },
        Option::None => Option::None,
    }
}

/// Numeric equality; comparing with the absent value asks instead whether
/// the cell is the empty string. Any failure to resolve gives `false`.
pub open spec fn spec_equal(
    name: Seq<char>,
    v: ValueV,
    fields: Seq<String>,
    row: Seq<String>,
) -> bool {
    match v {
        ValueV::Absent => spec_empty_cell(fields, row, name),
        _ => match spec_num_rel(name, v, fields, row) {
            Some(p) => p.0 == p.1,
            Option::None => false,
        },
    }
}

/// Numeric inequality: both sides must resolve numerically and differ;
/// comparing with the absent value asks instead whether the cell is
/// non-empty. Any failure to resolve gives `false`.
pub open spec fn spec_not_equal(
    name: Seq<char>,
    v: ValueV,
    fields: Seq<String>,
    row: Seq<String>,
) -> bool {
    match v {
        ValueV::Absent => match spec_lookup(fields, row, name) {
            Some(cell) => cell.len() != 0,
            Option::None => false,
        },
        _ => match spec_num_rel(name, v, fields, row) {
            Some(p) => p.0 != p.1,
            Option::None => false,
        },
    }
}

/// Numeric strict order, `false` whenever an operand fails to resolve.
pub open spec fn spec_less(
    name: Seq<char>,
    v: ValueV,
    fields: Seq<String>,
    row: Seq<String>,
) -> bool {
    match spec_num_rel(name, v, fields, row) {
        Some(p) => p.0 < p.1,
        Option::None => false,
    }
}

/// Numeric strict order, `false` whenever an operand fails to resolve.
pub open spec fn spec_greater(
    name: Seq<char>,
    v: ValueV,
    fields: Seq<String>,
    row: Seq<String>,
) -> bool {
    match spec_num_rel(name, v, fields, row) {
        Some(p) => p.0 > p.1,
        Option::None => false,
    }
}

/// The two texts a string operator compares: the cell and a literal, or
/// the cells of two fields.
pub open spec fn resolve_str_pair(
    name: Seq<char>,
    v: ValueV,
    fields: Seq<String>,
    row: Seq<String>,
) -> Option<(Seq<char>, Seq<char>)> {
    match v {
        ValueV::Literal(t) => match spec_lookup(fields, row, name) {
            Some(c) => Some((c, t)),
            Option::None => Option::None,
        },
        ValueV::FieldName(f) => match spec_lookup(fields, row, name) {
            Some(a) => match spec_lookup(fields, row, f) {
                Some(b) => Some((a, b)),
                Option::None => Option::None,
            },
            Option::None => Option::None,
        },
        _ => Option::None,
    }
}

/// `is`: raw string equality; against the absent value, the cell must be
/// empty.
pub open spec fn spec_is_op(
    name: Seq<char>,
    v: ValueV,
    fields: Seq<String>,
    row: Seq<String>,
) -> bool {
    match v {
        ValueV::Absent => spec_empty_cell(fields, row, name),
        _ => match resolve_str_pair(name, v, fields, row) {
            Some(p) => p.0 == p.1,
            Option::None => false,
        },
    }
}

/// `isnot`: raw string inequality; against the absent value, the cell must
/// be non-empty.
pub open spec fn spec_isnot_op(
    name: Seq<char>,
    v: ValueV,
    fields: Seq<String>,
    row: Seq<String>,
) -> bool {
    match v {
        ValueV::Absent => match spec_lookup(fields, row, name) {
            Some(cell) => cell.len() != 0,
            Option::None => false,
        },
        _ => match resolve_str_pair(name, v, fields, row) {
            Some(p) => p.0 != p.1,
            Option::None => false,
        },
    }
}

/// `contains`: raw substring test; against the absent value, the cell must
/// be empty.
pub open spec fn spec_contains_op(
    name: Seq<char>,
    v: ValueV,
    fields: Seq<String>,
    row: Seq<String>,
) -> bool {
    match v {
        ValueV::Absent => spec_empty_cell(fields, row, name),
        _ => match resolve_str_pair(name, v, fields, row) {
            Some(p) => spec_contains(p.0, p.1),
            Option::None => false,
        },
    }
}

/// `starts-with`: raw prefix test; against the absent value, the cell must
/// be empty.
pub open spec fn spec_starts_op(
    name: Seq<char>,
    v: ValueV,
    fields: Seq<String>,
    row: Seq<String>,
) -> bool {
    match v {
        ValueV::Absent => spec_empty_cell(fields, row, name),
        _ => match resolve_str_pair(name, v, fields, row) {
            Some(p) => spec_starts_with(p.0, p.1),
            Option::None => false,
        },
    }
}

/// `ends-with`: raw suffix test; against the absent value, the cell must
/// be empty.
pub open spec fn spec_ends_op(
    name: Seq<char>,
    v: ValueV,
    fields: Seq<String>,
    row: Seq<String>,
) -> bool {
    match v {
        ValueV::Absent => spec_empty_cell(fields, row, name),
        _ => match resolve_str_pair(name, v, fields, row) {
            Some(p) => spec_ends_with(p.0, p.1),
            Option::None => false,
        },
    }
}

/// `in`: the cell equals some element of the list.
pub open spec fn spec_in_op(
    name: Seq<char>,
    v: ValueV,
    fields: Seq<String>,
    row: Seq<String>,
) -> bool {
    match v {
        ValueV::List(items) => match spec_lookup(fields, row, name) {
            Some(cell) => exists|i: int| 0 <= i < items.len() && items[i] == cell,
            Option::None => false,
        },
        _ => false,
    }
}

/// What a comparison decides on one row: numeric operators coerce both
/// sides, string operators compare raw text, and every failure to resolve
/// degrades to `false`.
pub open spec fn spec_eval_comparison(c: ComparisonV, fields: Seq<String>, row: Seq<String>) -> bool {
    let name = c.field_name;
    match c.comparison_op {
        ComparisonOpsV::Equal => spec_equal(name, c.rhs, fields, row),
        ComparisonOpsV::NotEqual => spec_not_equal(name, c.rhs, fields, row),
        ComparisonOpsV::LessThan => spec_less(name, c.rhs, fields, row),
        ComparisonOpsV::GreaterThan => spec_greater(name, c.rhs, fields, row),
        ComparisonOpsV::LessThanOrEqual => spec_less(name, c.rhs, fields, row) || spec_equal(
            name,
            c.rhs,
            fields,
            row,
        ),
        ComparisonOpsV::GreaterThanOrEqual => spec_greater(name, c.rhs, fields, row) || spec_equal(
            name,
            c.rhs,
            fields,
            row,
        ),
        ComparisonOpsV::BetweenOp(v1, v2) => (spec_greater(name, v1, fields, row) || spec_equal(
            name,
            v1,
            fields,
            row,
        )) && (spec_less(name, v2, fields, row) || spec_equal(name, v2, fields, row)),
        ComparisonOpsV::Is => spec_is_op(name, c.rhs, fields, row),
        ComparisonOpsV::IsNot => spec_isnot_op(name, c.rhs, fields, row),
        ComparisonOpsV::Contains => spec_contains_op(name, c.rhs, fields, row),
        ComparisonOpsV::StartsWith => spec_starts_op(name, c.rhs, fields, row),
        ComparisonOpsV::EndsWith => spec_ends_op(name, c.rhs, fields, row),
        ComparisonOpsV::In => spec_in_op(name, c.rhs, fields, row),
    }
}

/// Reads the named field's cell as a number.
fn cell_number(fields: &Vec<String>, row: &Vec<String>, name: &str) -> (r: Option<Number>)
    ensures
        match r {
            Some(x) => x.wf() && cell_units(fields@, row@, name@) == Some(x.units()),
            Option::None => cell_units(fields@, row@, name@) is None,
        },
{
    match lookup_cell(fields, row, name) {
        Some(cell) => parse_number(&cell),
        None => None,
    }
}

/// Resolves both numeric operands of a comparison.
fn num_operands(name: &str, v: &Value, fields: &Vec<String>, row: &Vec<String>) -> (r: Option<
    (Number, Number),
>)
    requires
        v@.wf(),
    ensures
        match r {
            Some(p) => p.0.wf() && p.1.wf() && spec_num_rel(name@, v@, fields@, row@) == Some(
                (p.0.units(), p.1.units()),
            ),
            Option::None => spec_num_rel(name@, v@, fields@, row@) is None,
        },
{
    let a = match cell_number(fields, row, name) {
        Some(x) => x,
        None => {
            return None;
        },
    };
    match v {
        Value::Number(x) => Some((a, *x)),
        Value::FieldName(f) => match cell_number(fields, row, f.as_str()) {
            Some(b) => Some((a, b)),
            None => None,
        },
        _ => None,
    }
}

/// Decides numeric equality against the value; absent means an empty cell.
fn equal_eval(name: &str, v: &Value, fields: &Vec<String>, row: &Vec<String>) -> (r: bool)
    requires
        v@.wf(),
    ensures
        r == spec_equal(name@, v@, fields@, row@),
{
    match v {
        Value::Absent => empty_cell(fields, row, name),
        _ => match num_operands(name, v, fields, row) {
            Some(p) => p.0.cmp(p.1) == NumOrder::Equal,
            None => false,
        },
    }
}

/// Decides numeric inequality against the value; absent means a non-empty
/// cell.
fn not_equal_eval(name: &str, v: &Value, fields: &Vec<String>, row: &Vec<String>) -> (r: bool)
    requires
        v@.wf(),
    ensures
        r == spec_not_equal(name@, v@, fields@, row@),
{
    match v {
        Value::Absent => match lookup_cell(fields, row, name) {
            Some(cell) => cell.as_str().unicode_len() != 0,
            None => false,
        },
        _ => match num_operands(name, v, fields, row) {
            Some(p) => !(p.0.cmp(p.1) == NumOrder::Equal),
            None => false,
        },
    }
}

/// Decides the strict numeric less-than against the value.
fn less_eval(name: &str, v: &Value, fields: &Vec<String>, row: &Vec<String>) -> (r: bool)
    requires
        v@.wf(),
    ensures
        r == spec_less(name@, v@, fields@, row@),
{
    match num_operands(name, v, fields, row) {
        Some(p) => p.0.cmp(p.1) == NumOrder::Less,
        None => false,
    }
}

/// Decides the strict numeric greater-than against the value.
fn greater_eval(name: &str, v: &Value, fields: &Vec<String>, row: &Vec<String>) -> (r: bool)
    requires
        v@.wf(),
    ensures
        r == spec_greater(name@, v@, fields@, row@),
{
    match num_operands(name, v, fields, row) {
        Some(p) => p.0.cmp(p.1) == NumOrder::Greater,
        None => false,
    }
}

/// Resolves the two texts of a string comparison.
fn str_pair(name: &str, v: &Value, fields: &Vec<String>, row: &Vec<String>) -> (r: Option<
    (String, String),
>)
    ensures
        match r {
            Some(p) => resolve_str_pair(name@, v@, fields@, row@) == Some((p.0@, p.1@)),
            Option::None => resolve_str_pair(name@, v@, fields@, row@) is None,
        },
{
    match v {
        Value::Literal(t) => match lookup_cell(fields, row, name) {
            Some(c) => Some((c, t.clone())),
            None => None,
        },
        Value::FieldName(f) => match lookup_cell(fields, row, name) {
            Some(a) => match lookup_cell(fields, row, f.as_str()) {
                Some(b) => Some((a, b)),
                None => None,
            },
            None => None,
        },
        _ => None,
    }
}

/// Whether the cell equals some element of the list.
#[verifier::loop_isolation(false)]
fn list_has(items: &Vec<String>, cell: &String) -> (r: bool)
    ensures
        r == exists|i: int| 0 <= i < items.deep_view().len() && items.deep_view()[i] == cell@,
{
    let mut i: usize = 0;
    while i < items.len()
        invariant
            0 <= i <= items@.len(),
            forall|q: int| 0 <= q < i ==> items.deep_view()[q] != cell@,
        decreases items@.len() - i,
    {
        if str_eq(items[i].as_str(), cell.as_str()) {
            proof {
                assert(items.deep_view()[i as int] == cell@);
            }
            return true;
        }
        i = i + 1;
    }
    false
}

impl Comparison {
    /// Decides the comparison on one row; a missing field, a non-numeric
    /// cell under a numeric operator, or a mismatched value kind gives
    /// `false`, never an error.
    pub fn evaluate(&self, fields: &Vec<String>, row: &Vec<String>) -> (r: bool)
        requires
            self@.wf(),
        ensures
            r == spec_eval_comparison(self@, fields@, row@),
    {
        let name = self.field_name.as_str();
        match &self.comparison_op {
            ComparisonOps::Equal => equal_eval(name, &self.rhs, fields, row),
            ComparisonOps::NotEqual => not_equal_eval(name, &self.rhs, fields, row),
            ComparisonOps::LessThan => less_eval(name, &self.rhs, fields, row),
            ComparisonOps::GreaterThan => greater_eval(name, &self.rhs, fields, row),
            ComparisonOps::LessThanOrEqual => less_eval(name, &self.rhs, fields, row) || equal_eval(
                name,
                &self.rhs,
                fields,
                row,
            ),
            ComparisonOps::GreaterThanOrEqual => greater_eval(name, &self.rhs, fields, row)
                || equal_eval(name, &self.rhs, fields, row),
            ComparisonOps::BetweenOp(v1, v2) => (greater_eval(name, v1, fields, row) || equal_eval(
                name,
                v1,
                fields,
                row,
            )) && (less_eval(name, v2, fields, row) || equal_eval(name, v2, fields, row)),
            ComparisonOps::Is => match &self.rhs {
                Value::Absent => empty_cell(fields, row, name),
                _ => match str_pair(name, &self.rhs, fields, row) {
                    Some(p) => str_eq(p.0.as_str(), p.1.as_str()),
                    None => false,
                },
            },
            ComparisonOps::IsNot => match &self.rhs {
                Value::Absent => match lookup_cell(fields, row, name) {
                    Some(cell) => cell.as_str().unicode_len() != 0,
                    None => false,
                },
                _ => match str_pair(name, &self.rhs, fields, row) {
                    Some(p) => !str_eq(p.0.as_str(), p.1.as_str()),
                    None => false,
                },
            },
            ComparisonOps::Contains => match &self.rhs {
                Value::Absent => empty_cell(fields, row, name),
                _ => match str_pair(name, &self.rhs, fields, row) {
                    Some(p) => str_contains(p.0.as_str(), p.1.as_str()),
                    None => false,
                },
            },
            ComparisonOps::StartsWith => match &self.rhs {
                Value::Absent => empty_cell(fields, row, name),
                _ => match str_pair(name, &self.rhs, fields, row) {
                    Some(p) => str_starts_with(p.0.as_str(), p.1.as_str()),
                    None => false,
                },
            },
            ComparisonOps::EndsWith => match &self.rhs {
                Value::Absent => empty_cell(fields, row, name),
                _ => match str_pair(name, &self.rhs, fields, row) {
                    Some(p) => str_ends_with(p.0.as_str(), p.1.as_str()),
                    None => false,
                },
            },
            ComparisonOps::In => match &self.rhs {
                Value::List(items) => match lookup_cell(fields, row, name) {
                    Some(cell) => list_has(items, &cell),
                    None => false,
                },
                _ => false,
            },
        }
    }
}


/// The operator a lexeme denotes, apart from `between`.
pub open spec fn spec_comparison_op(s: Seq<char>) -> Option<ComparisonOpsV> {
    if s == "=="@ {
        Some(ComparisonOpsV::Equal)
    } else if s == "!="@ {
        Some(ComparisonOpsV::NotEqual)
    } else if s == ">="@ {
        Some(ComparisonOpsV::GreaterThanOrEqual)
    } else if s == "<="@ {
        Some(ComparisonOpsV::LessThanOrEqual)
    } else if s == ">"@ {
        Some(ComparisonOpsV::GreaterThan)
    } else if s == "<"@ {
        Some(ComparisonOpsV::LessThan)
    } else if s == "is"@ {
        Some(ComparisonOpsV::Is)
    } else if s == "isnot"@ {
        Some(ComparisonOpsV::IsNot)
    } else if s == "contains"@ {
        Some(ComparisonOpsV::Contains)
    } else if s == "starts-with"@ {
        Some(ComparisonOpsV::StartsWith)
    } else if s == "ends-with"@ {
        Some(ComparisonOpsV::EndsWith)
    } else if s == "in"@ {
        Some(ComparisonOpsV::In)
    } else {
        Option::None
    }
}

/// A `between` bound: a field reference or a number.
pub open spec fn spec_between_param(lex: Seq<String>, i: int) -> Option<ValueV> {
    if 0 <= i < lex.len() {
        match spec_parse_field_name(lex[i]@) {
            Some(f) => Some(ValueV::FieldName(f)),
            Option::None => match spec_parse_num(lex[i]@) {
                Some(x) => Some(ValueV::Number(x)),
                Option::None => Option::None,
            },
        }
    } else {
        Option::None
    }
}

/// The comparison the lexemes denote at `idx`: a field name, an operator,
/// and a right-hand value (`between` takes two bounds joined by `and`).
/// Absent when the lexemes are exhausted; a syntax error when a part is
/// missing or malformed.
pub open spec fn spec_parse_comparison(lex: Seq<String>, idx: int) -> ParseOutcome<ComparisonV> {
    if !(0 <= idx < lex.len()) {
        ParseOutcome::Absent
    } else {
        match spec_parse_field_name(lex[idx]@) {
            Option::None => ParseOutcome::SyntaxError,
            Some(name) => if !(idx + 1 < lex.len()) {
                ParseOutcome::SyntaxError
            } else {
                let ops = lex[idx + 1]@;
                if ops == "between"@ {
                    match spec_between_param(lex, idx + 2) {
                        Option::None => ParseOutcome::SyntaxError,
                        Some(v1) => if idx + 3 < lex.len() && lex[idx + 3]@ == "and"@ {
                            match spec_between_param(lex, idx + 4) {
                                Option::None => ParseOutcome::SyntaxError,
                                Some(v2) => ParseOutcome::Matched(
                                    ComparisonV {
                                        field_name: name,
                                        comparison_op: ComparisonOpsV::BetweenOp(v1, v2),
                                        rhs: ValueV::Absent,
                                    },
                                    idx + 5,
                                ),
                            }
                        } else {
                            ParseOutcome::SyntaxError
                        },
                    }
                } else {
                    match spec_comparison_op(ops) {
                        Option::None => ParseOutcome::SyntaxError,
                        Some(op) => match spec_rhs_value(lex, idx + 2) {
                            Option::None => ParseOutcome::SyntaxError,
                            Some(p) => ParseOutcome::Matched(
                                ComparisonV { field_name: name, comparison_op: op, rhs: p.0 },
                                p.1,
                            ),
                        },
                    }
                }
            },
        }
    }
}

/// Reads a `between` bound at `i`.
fn parse_between_param(lexemes: &Vec<String>, i: usize) -> (r: Option<Value>)
    ensures
        match r {
            Some(v) => spec_between_param(lexemes@, i as int) == Some(v@) && v@.wf(),
            Option::None => spec_between_param(lexemes@, i as int) is None,
        },
{
    if i >= lexemes.len() {
        return None;
    }
    match parse_field_name(&lexemes[i]) {
        Some(f) => Some(Value::FieldName(f)),
        None => match parse_number(&lexemes[i]) {
            Some(x) => Some(Value::Number(x)),
            None => None,
        },
    }
}

impl Comparison {
    /// Parses one comparison at `idx`; the index returned is the first
    /// unconsumed one on a match, and `idx` itself otherwise.
    pub fn parse(lexemes: &Vec<String>, idx: usize) -> (r: (ParseResult<Comparison>, usize))
        ensures
            match spec_parse_comparison(lexemes@, idx as int) {
                ParseOutcome::Matched(cv, nx) => r.0 is Matched && (r.0)->Matched_0@ == cv && (
                r.0)->Matched_0@.wf() && r.1 == nx && idx < r.1 <= lexemes@.len(),
                ParseOutcome::Absent => r.0 is Absent && r.1 == idx,
                ParseOutcome::SyntaxError => r.0 is SyntaxError && r.1 == idx,
            },
    {
        if idx >= lexemes.len() {
            return (ParseResult::Absent, idx);
        }
        let field_name = match parse_field_name(&lexemes[idx]) {
            Some(f) => f,
            None => {
                return (ParseResult::SyntaxError, idx);
            },
        };
        if idx + 1 >= lexemes.len() {
            return (ParseResult::SyntaxError, idx);
        }
        let op_lex = &lexemes[idx + 1];
        if str_eq(op_lex.as_str(), "between") {
            let v1 = match parse_between_param(lexemes, idx + 2) {
                Some(v) => v,
                None => {
                    return (ParseResult::SyntaxError, idx);
                },
            };
            if idx + 3 < lexemes.len() && str_eq(lexemes[idx + 3].as_str(), "and") {
                let v2 = match parse_between_param(lexemes, idx + 4) {
                    Some(v) => v,
                    None => {
                        return (ParseResult::SyntaxError, idx);
                    },
                };
                return (
                    ParseResult::Matched(
                        Comparison {
                            field_name,
                            comparison_op: ComparisonOps::BetweenOp(v1, v2),
                            rhs: Value::Absent,
                        },
                    ),
                    idx + 5,
                );
            }
            return (ParseResult::SyntaxError, idx);
        }
        let comparison_op = if str_eq(op_lex.as_str(), "==") {
            ComparisonOps::Equal
        } else if str_eq(op_lex.as_str(), "!=") {
            ComparisonOps::NotEqual
        } else if str_eq(op_lex.as_str(), ">=") {
            ComparisonOps::GreaterThanOrEqual
        } else if str_eq(op_lex.as_str(), "<=") {
            ComparisonOps::LessThanOrEqual
        } else if str_eq(op_lex.as_str(), ">") {
            ComparisonOps::GreaterThan
        } else if str_eq(op_lex.as_str(), "<") {
            ComparisonOps::LessThan
        } else if str_eq(op_lex.as_str(), "is") {
            ComparisonOps::Is
        } else if str_eq(op_lex.as_str(), "isnot") {
            ComparisonOps::IsNot
        } else if str_eq(op_lex.as_str(), "contains") {
            ComparisonOps::Contains
        } else if str_eq(op_lex.as_str(), "starts-with") {
            ComparisonOps::StartsWith
        } else if str_eq(op_lex.as_str(), "ends-with") {
            ComparisonOps::EndsWith
        } else if str_eq(op_lex.as_str(), "in") {
            ComparisonOps::In
        } else {
            return (ParseResult::SyntaxError, idx);
        };
        match parse_rhs_value(lexemes, idx + 2) {
            Some(p) => (
                ParseResult::Matched(
                    Comparison { field_name, comparison_op, rhs: p.0 },
                ),
                p.1,
            ),
            None => (ParseResult::SyntaxError, idx),
        }
    }
}


/// A `between` with reversed bounds never holds: when both bounds resolve
/// numerically and the lower one exceeds the upper, the comparison is
/// `false` on every row.
pub proof fn lemma_between_reversed_false(
    c: ComparisonV,
    v1: ValueV,
    v2: ValueV,
    fields: Seq<String>,
    row: Seq<String>,
)
    requires
        c.comparison_op == ComparisonOpsV::BetweenOp(v1, v2),
        val_units(v1, fields, row) is Some,
        val_units(v2, fields, row) is Some,
        val_units(v1, fields, row).unwrap() > val_units(v2, fields, row).unwrap(),
    ensures
        !spec_eval_comparison(c, fields, row),
{
    let name = c.field_name;
    match cell_units(fields, row, name) {
        Some(c0) => {
            assert(spec_equal(name, v1, fields, row) ==> c0 == val_units(
                v1,
                fields,
                row,
            ).unwrap());
        },
        Option::None => {
            assert(!spec_greater(name, v1, fields, row));
        },
    }
}

/// A numeric comparison against a cell that does not read as a number is
/// `false`: the row is skipped, never an error.
pub proof fn lemma_numeric_on_non_numeric_false(
    c: ComparisonV,
    fields: Seq<String>,
    row: Seq<String>,
)
    requires
        c.rhs is Number,
        c.comparison_op is Equal || c.comparison_op is NotEqual || c.comparison_op is LessThan
            || c.comparison_op is GreaterThan || c.comparison_op is LessThanOrEqual
            || c.comparison_op is GreaterThanOrEqual,
        match spec_lookup(fields, row, c.field_name) {
            Some(cell) => spec_parse_num(cell) is None,
            Option::None => true,
        },
    ensures
        !spec_eval_comparison(c, fields, row),
{
    assert(cell_units(fields, row, c.field_name) is None);
}

} // verus!
