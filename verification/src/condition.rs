//! The condition tree: `or` over `and` over `not` over a primary, which is
//! a parenthesised condition or one comparison; and the `where` clause.

use vstd::prelude::*;
use crate::comparison::{
    Comparison, ComparisonV, spec_parse_comparison, spec_eval_comparison,
};
use crate::strutil::str_eq;
use crate::value::{ParseResult, ParseOutcome};

verus! {

/// A disjunction: one conjunction, optionally followed by `or` and more.
#[derive(Debug)]
pub struct OrCondition {
    pub and_condition: AndCondition,
    pub or_condition: Option<Box<OrCondition>>,
}

/// A conjunction: one negation, optionally followed by `and` and more.
#[derive(Debug)]
pub struct AndCondition {
    pub not_condition: NotCondition,
    pub and_condition: Option<Box<AndCondition>>,
}

/// A possibly negated primary condition.
#[derive(Debug)]
pub struct NotCondition {
    pub negated: bool,
    pub primary_condition: PrimaryCondition,
}

/// A parenthesised condition, or one comparison.
#[derive(Debug)]
pub struct PrimaryCondition {
    pub comparison: Option<Comparison>,
    pub condition: Option<Box<Condition>>,
}

/// A whole condition: its disjunction.
#[derive(Debug)]
pub struct Condition {
    pub or_condition: OrCondition,
}

/// The optional row filter of a command.
#[derive(Debug)]
pub struct WhereClause {
    pub condition: Condition,
}

/// The mathematical content of a disjunction.
pub struct OrConditionV {
    pub and_condition: AndConditionV,
    pub or_condition: Option<Box<OrConditionV>>,
}

/// The mathematical content of a conjunction.
pub struct AndConditionV {
    pub not_condition: NotConditionV,
    pub and_condition: Option<Box<AndConditionV>>,
}

/// The mathematical content of a possibly negated primary.
pub struct NotConditionV {
    pub negated: bool,
    pub primary_condition: PrimaryConditionV,
}

/// The mathematical content of a primary condition.
pub struct PrimaryConditionV {
    pub comparison: Option<ComparisonV>,
    pub condition: Option<Box<ConditionV>>,
}

/// The mathematical content of a condition.
pub struct ConditionV {
    pub or_condition: OrConditionV,
}

/// The mathematical content of a where clause.
pub struct WhereClauseV {
    pub condition: ConditionV,
}

impl View for OrCondition {
    type V = OrConditionV;

    open spec fn view(&self) -> OrConditionV
        decreases self,
    {
        OrConditionV {
            and_condition: self.and_condition@,
            or_condition: match &self.or_condition {
                Option::Some(b) => Some(Box::new((**b)@)),
                Option::None => Option::None,
            },
        }
    }
}

impl View for AndCondition {
    type V = AndConditionV;

    open spec fn view(&self) -> AndConditionV
        decreases self,
    {
        AndConditionV {
            not_condition: self.not_condition@,
            and_condition: match &self.and_condition {
                Option::Some(b) => Some(Box::new((**b)@)),
                Option::None => Option::None,
            },
        }
    }
}

impl View for NotCondition {
    type V = NotConditionV;

    open spec fn view(&self) -> NotConditionV
        decreases self,
    {
        NotConditionV { negated: self.negated, primary_condition: self.primary_condition@ }
    }
}

impl View for PrimaryCondition {
    type V = PrimaryConditionV;

    open spec fn view(&self) -> PrimaryConditionV
        decreases self,
    {
        PrimaryConditionV {
            comparison: match &self.comparison {
                Option::Some(c) => Some(c@),
                Option::None => Option::None,
            },
            condition: match &self.condition {
                Option::Some(b) => Some(Box::new((**b)@)),
                Option::None => Option::None,
            },
        }
    }
}

impl View for Condition {
    type V = ConditionV;

    open spec fn view(&self) -> ConditionV
        decreases self,
    {
        ConditionV { or_condition: self.or_condition@ }
    }
}

impl View for WhereClause {
    type V = WhereClauseV;

    open spec fn view(&self) -> WhereClauseV
        decreases self,
    {
        WhereClauseV { condition: self.condition@ }
    }
}

impl OrConditionV {
    /// Well-formed: every held number is in range.
    pub open spec fn wf(self) -> bool
        decreases self,
    {
        self.and_condition.wf() && match self.or_condition {
            Some(rest) => (*rest).wf(),
            Option::None => true,
        }
    }
}

impl AndConditionV {
    /// Well-formed: every held number is in range.
    pub open spec fn wf(self) -> bool
        decreases self,
    {
        self.not_condition.wf() && match self.and_condition {
            Some(rest) => (*rest).wf(),
            Option::None => true,
        }
    }
}

impl NotConditionV {
    /// Well-formed: every held number is in range.
    pub open spec fn wf(self) -> bool
        decreases self,
    {
        self.primary_condition.wf()
    }
}

impl PrimaryConditionV {
    /// Well-formed: every held number is in range.
    pub open spec fn wf(self) -> bool
        decreases self,
    {
        (match self.comparison {
            Some(c) => c.wf(),
            Option::None => true,
        }) && (match self.condition {
            Some(c) => (*c).wf(),
            Option::None => true,
        })
    }
}

impl ConditionV {
    /// Well-formed: every held number is in range.
    pub open spec fn wf(self) -> bool
        decreases self,
    {
        self.or_condition.wf()
    }
}

impl WhereClauseV {
    /// Well-formed: every held number is in range.
    pub open spec fn wf(self) -> bool
        decreases self,
    {
        self.condition.wf()
    }
}

/// What a disjunction decides on one row.
pub open spec fn spec_eval_or(c: OrConditionV, fields: Seq<String>, row: Seq<String>) -> bool
    decreases c,
{
    match c.or_condition {
        Some(rest) => spec_eval_or(*rest, fields, row) || spec_eval_and(
            c.and_condition,
            fields,
            row,
        ),
        Option::None => spec_eval_and(c.and_condition, fields, row),
    }
}

/// What a conjunction decides on one row.
pub open spec fn spec_eval_and(c: AndConditionV, fields: Seq<String>, row: Seq<String>) -> bool
    decreases c,
{
    match c.and_condition {
        Some(rest) => spec_eval_not(c.not_condition, fields, row) && spec_eval_and(
            *rest,
            fields,
            row,
        ),
        Option::None => spec_eval_not(c.not_condition, fields, row),
    }
}

/// What a possibly negated primary decides on one row.
pub open spec fn spec_eval_not(c: NotConditionV, fields: Seq<String>, row: Seq<String>) -> bool
    decreases c,
{
    if c.negated {
        !spec_eval_primary(c.primary_condition, fields, row)
    } else {
        spec_eval_primary(c.primary_condition, fields, row)
    }
}

/// What a primary decides on one row: its comparison, or its parenthesised
/// condition; an empty primary is `false`.
pub open spec fn spec_eval_primary(
    c: PrimaryConditionV,
    fields: Seq<String>,
    row: Seq<String>,
) -> bool
    decreases c,
{
    match c.comparison {
        Some(cmp) => spec_eval_comparison(cmp, fields, row),
        Option::None => match c.condition {
            Some(cond) => spec_eval_condition(*cond, fields, row),
            Option::None => false,
        },
    }
}

/// What a condition decides on one row.
pub open spec fn spec_eval_condition(c: ConditionV, fields: Seq<String>, row: Seq<String>) -> bool
    decreases c,
{
    spec_eval_or(c.or_condition, fields, row)
}

/// What a where clause decides on one row.
pub open spec fn spec_eval_where(c: WhereClauseV, fields: Seq<String>, row: Seq<String>) -> bool {
    spec_eval_condition(c.condition, fields, row)
}

/// The disjunction the lexemes denote at `idx`: a conjunction, optionally
/// followed by `or` and another disjunction.
pub open spec fn spec_parse_or(lex: Seq<String>, idx: int) -> ParseOutcome<OrConditionV>
    decreases lex.len() - idx, 4int,
{
    match spec_parse_and(lex, idx) {
        ParseOutcome::Matched(ac, mid) => if mid < lex.len() && lex[mid]@ == "or"@ {
            if idx < mid + 1 {
                match spec_parse_or(lex, mid + 1) {
                    ParseOutcome::Matched(oc, nx) => ParseOutcome::Matched(
                        OrConditionV { and_condition: ac, or_condition: Some(Box::new(oc)) },
                        nx,
                    ),
                    ParseOutcome::Absent => ParseOutcome::Absent,
                    ParseOutcome::SyntaxError => ParseOutcome::SyntaxError,
                }
            } else {
                ParseOutcome::SyntaxError
            }
        } else {
            ParseOutcome::Matched(
                OrConditionV { and_condition: ac, or_condition: Option::None },
                mid,
            )
        },
        ParseOutcome::Absent => ParseOutcome::Absent,
        ParseOutcome::SyntaxError => ParseOutcome::SyntaxError,
    }
}

/// The conjunction the lexemes denote at `idx`: a negation, optionally
/// followed by `and` and another conjunction.
pub open spec fn spec_parse_and(lex: Seq<String>, idx: int) -> ParseOutcome<AndConditionV>
    decreases lex.len() - idx, 3int,
{
    match spec_parse_not(lex, idx) {
        ParseOutcome::Matched(nc, mid) => if mid < lex.len() && lex[mid]@ == "and"@ {
            if idx < mid + 1 {
                match spec_parse_and(lex, mid + 1) {
                    ParseOutcome::Matched(ac, nx) => ParseOutcome::Matched(
                        AndConditionV { not_condition: nc, and_condition: Some(Box::new(ac)) },
                        nx,
                    ),
                    ParseOutcome::Absent => ParseOutcome::Absent,
                    ParseOutcome::SyntaxError => ParseOutcome::SyntaxError,
                }
            } else {
                ParseOutcome::SyntaxError
            }
        } else {
            ParseOutcome::Matched(
                AndConditionV { not_condition: nc, and_condition: Option::None },
                mid,
            )
        },
        ParseOutcome::Absent => ParseOutcome::Absent,
        ParseOutcome::SyntaxError => ParseOutcome::SyntaxError,
    }
}

/// The negation the lexemes denote at `idx`: an optional `not` keyword and
/// a primary; `not` at the very end is a syntax error.
pub open spec fn spec_parse_not(lex: Seq<String>, idx: int) -> ParseOutcome<NotConditionV>
    decreases lex.len() - idx, 2int,
{
    if !(0 <= idx < lex.len()) {
        ParseOutcome::Absent
    } else {
        let negated = lex[idx]@ == "not"@;
        let j = if negated {
            idx + 1
        } else {
            idx
        };
        if j < lex.len() {
            match spec_parse_primary(lex, j) {
                ParseOutcome::Matched(pc, nx) => ParseOutcome::Matched(
                    NotConditionV { negated, primary_condition: pc },
                    nx,
                ),
                ParseOutcome::Absent => ParseOutcome::Absent,
                ParseOutcome::SyntaxError => ParseOutcome::SyntaxError,
            }
        } else {
            ParseOutcome::SyntaxError
        }
    }
}

/// The primary the lexemes denote at `idx`: a condition between `(` and
/// `)`, or one comparison.
pub open spec fn spec_parse_primary(lex: Seq<String>, idx: int) -> ParseOutcome<PrimaryConditionV>
    decreases lex.len() - idx, 1int,
{
    if !(0 <= idx < lex.len()) {
        ParseOutcome::Absent
    } else if lex[idx]@ == "("@ {
        match spec_parse_condition(lex, idx + 1) {
            ParseOutcome::Matched(c, nx) => if nx < lex.len() && lex[nx]@ == ")"@ {
                ParseOutcome::Matched(
                    PrimaryConditionV {
                        comparison: Option::None,
                        condition: Some(Box::new(c)),
                    },
                    nx + 1,
                )
            } else {
                ParseOutcome::SyntaxError
            },
            ParseOutcome::Absent => ParseOutcome::SyntaxError,
            ParseOutcome::SyntaxError => ParseOutcome::SyntaxError,
        }
    } else {
        match spec_parse_comparison(lex, idx) {
            ParseOutcome::Matched(c, nx) => ParseOutcome::Matched(
                PrimaryConditionV { comparison: Some(c), condition: Option::None },
                nx,
            ),
            ParseOutcome::Absent => ParseOutcome::Absent,
            ParseOutcome::SyntaxError => ParseOutcome::SyntaxError,
        }
    }
}

/// The condition the lexemes denote at `idx`.
pub open spec fn spec_parse_condition(lex: Seq<String>, idx: int) -> ParseOutcome<ConditionV>
    decreases lex.len() - idx, 5int,
{
    match spec_parse_or(lex, idx) {
        ParseOutcome::Matched(oc, nx) => ParseOutcome::Matched(
            ConditionV { or_condition: oc },
            nx,
        ),
        ParseOutcome::Absent => ParseOutcome::Absent,
        ParseOutcome::SyntaxError => ParseOutcome::SyntaxError,
    }
}

/// The where clause the lexemes denote at `idx`: the `where` keyword and a
/// condition; a bare `where` is a syntax error.
pub open spec fn spec_parse_where(lex: Seq<String>, idx: int) -> ParseOutcome<WhereClauseV> {
    if !(0 <= idx < lex.len()) {
        ParseOutcome::Absent
    } else if lex[idx]@ == "where"@ {
        match spec_parse_condition(lex, idx + 1) {
            ParseOutcome::Matched(c, nx) => ParseOutcome::Matched(
                WhereClauseV { condition: c },
                nx,
            ),
            ParseOutcome::Absent => ParseOutcome::SyntaxError,
            ParseOutcome::SyntaxError => ParseOutcome::SyntaxError,
        }
    } else {
        ParseOutcome::Absent
    }
}

impl OrCondition {
    /// Decides the disjunction on one row.
    pub fn evaluate(&self, fields: &Vec<String>, row: &Vec<String>) -> (r: bool)
        requires
            self@.wf(),
        ensures
            r == spec_eval_or(self@, fields@, row@),
        decreases self,
    {
        match &self.or_condition {
            Some(rest) => {
                let a = rest.evaluate(fields, row);
                a || self.and_condition.evaluate(fields, row)
            },
            None => self.and_condition.evaluate(fields, row),
        }
    }

    /// Parses one disjunction at `idx`.
    pub fn parse(lexemes: &Vec<String>, idx: usize) -> (r: (ParseResult<OrCondition>, usize))
        ensures
            match spec_parse_or(lexemes@, idx as int) {
                ParseOutcome::Matched(cv, nx) => r.0 is Matched && (r.0)->Matched_0@ == cv && (
                r.0)->Matched_0@.wf() && r.1 == nx && idx < r.1 <= lexemes@.len(),
                ParseOutcome::Absent => r.0 is Absent && r.1 == idx,
                ParseOutcome::SyntaxError => r.0 is SyntaxError && r.1 == idx,
            },
        decreases lexemes@.len() - idx, 4int,
    {
        let (ar, mid) = AndCondition::parse(lexemes, idx);
        let ac = match ar {
            ParseResult::Matched(a) => a,
            ParseResult::Absent => {
                return (ParseResult::Absent, idx);
            },
            ParseResult::SyntaxError => {
                return (ParseResult::SyntaxError, idx);
            },
        };
        if mid < lexemes.len() && str_eq(lexemes[mid].as_str(), "or") {
            let (or_r, nx) = OrCondition::parse(lexemes, mid + 1);
            match or_r {
                ParseResult::Matched(oc) => (
                    ParseResult::Matched(
                        OrCondition { and_condition: ac, or_condition: Some(Box::new(oc)) },
                    ),
                    nx,
                ),
                ParseResult::Absent => (ParseResult::Absent, idx),
                ParseResult::SyntaxError => (ParseResult::SyntaxError, idx),
            }
        } else {
            (
                ParseResult::Matched(OrCondition { and_condition: ac, or_condition: None }),
                mid,
            )
        }
    }
}

impl AndCondition {
    /// Decides the conjunction on one row.
    pub fn evaluate(&self, fields: &Vec<String>, row: &Vec<String>) -> (r: bool)
        requires
            self@.wf(),
        ensures
            r == spec_eval_and(self@, fields@, row@),
        decreases self,
    {
        match &self.and_condition {
            Some(rest) => {
                let a = self.not_condition.evaluate(fields, row);
                a && rest.evaluate(fields, row)
            },
            None => self.not_condition.evaluate(fields, row),
        }
    }

    /// Parses one conjunction at `idx`.
    pub fn parse(lexemes: &Vec<String>, idx: usize) -> (r: (ParseResult<AndCondition>, usize))
        ensures
            match spec_parse_and(lexemes@, idx as int) {
                ParseOutcome::Matched(cv, nx) => r.0 is Matched && (r.0)->Matched_0@ == cv && (
                r.0)->Matched_0@.wf() && r.1 == nx && idx < r.1 <= lexemes@.len(),
                ParseOutcome::Absent => r.0 is Absent && r.1 == idx,
                ParseOutcome::SyntaxError => r.0 is SyntaxError && r.1 == idx,
            },
        decreases lexemes@.len() - idx, 3int,
    {
        let (nr, mid) = NotCondition::parse(lexemes, idx);
        let nc = match nr {
            ParseResult::Matched(a) => a,
            ParseResult::Absent => {
                return (ParseResult::Absent, idx);
            },
            ParseResult::SyntaxError => {
                return (ParseResult::SyntaxError, idx);
            },
        };
        if mid < lexemes.len() && str_eq(lexemes[mid].as_str(), "and") {
            let (and_r, nx) = AndCondition::parse(lexemes, mid + 1);
            match and_r {
                ParseResult::Matched(ac) => (
                    ParseResult::Matched(
                        AndCondition { not_condition: nc, and_condition: Some(Box::new(ac)) },
                    ),
                    nx,
                ),
                ParseResult::Absent => (ParseResult::Absent, idx),
                ParseResult::SyntaxError => (ParseResult::SyntaxError, idx),
            }
        } else {
            (
                ParseResult::Matched(AndCondition { not_condition: nc, and_condition: None }),
                mid,
            )
        }
    }
}

impl NotCondition {
    /// Decides the possibly negated primary on one row.
    pub fn evaluate(&self, fields: &Vec<String>, row: &Vec<String>) -> (r: bool)
        requires
            self@.wf(),
        ensures
            r == spec_eval_not(self@, fields@, row@),
        decreases self,
    {
        if self.negated {
            !self.primary_condition.evaluate(fields, row)
        } else {
            self.primary_condition.evaluate(fields, row)
        }
    }

    /// Parses one possibly negated primary at `idx`.
    pub fn parse(lexemes: &Vec<String>, idx: usize) -> (r: (ParseResult<NotCondition>, usize))
        ensures
            match spec_parse_not(lexemes@, idx as int) {
                ParseOutcome::Matched(cv, nx) => r.0 is Matched && (r.0)->Matched_0@ == cv && (
                r.0)->Matched_0@.wf() && r.1 == nx && idx < r.1 <= lexemes@.len(),
                ParseOutcome::Absent => r.0 is Absent && r.1 == idx,
                ParseOutcome::SyntaxError => r.0 is SyntaxError && r.1 == idx,
            },
        decreases lexemes@.len() - idx, 2int,
    {
        if idx >= lexemes.len() {
            return (ParseResult::Absent, idx);
        }
        let negated = str_eq(lexemes[idx].as_str(), "not");
        let j = if negated {
            idx + 1
        } else {
            idx
        };
        if j >= lexemes.len() {
            return (ParseResult::SyntaxError, idx);
        }
        let (pr, nx) = PrimaryCondition::parse(lexemes, j);
        match pr {
            ParseResult::Matched(pc) => (
                ParseResult::Matched(NotCondition { negated, primary_condition: pc }),
                nx,
            ),
            ParseResult::Absent => (ParseResult::Absent, idx),
            ParseResult::SyntaxError => (ParseResult::SyntaxError, idx),
        }
    }
}

impl PrimaryCondition {
    /// Decides the primary on one row.
    pub fn evaluate(&self, fields: &Vec<String>, row: &Vec<String>) -> (r: bool)
        requires
            self@.wf(),
        ensures
            r == spec_eval_primary(self@, fields@, row@),
        decreases self,
    {
        match &self.comparison {
            Some(cmp) => cmp.evaluate(fields, row),
            None => match &self.condition {
                Some(cond) => cond.evaluate(fields, row),
                None => false,
            },
        }
    }

    /// Parses one primary at `idx`.
    pub fn parse(lexemes: &Vec<String>, idx: usize) -> (r: (ParseResult<PrimaryCondition>, usize))
        ensures
            match spec_parse_primary(lexemes@, idx as int) {
                ParseOutcome::Matched(cv, nx) => r.0 is Matched && (r.0)->Matched_0@ == cv && (
                r.0)->Matched_0@.wf() && r.1 == nx && idx < r.1 <= lexemes@.len(),
                ParseOutcome::Absent => r.0 is Absent && r.1 == idx,
                ParseOutcome::SyntaxError => r.0 is SyntaxError && r.1 == idx,
            },
        decreases lexemes@.len() - idx, 1int,
    {
        if idx >= lexemes.len() {
            return (ParseResult::Absent, idx);
        }
        if str_eq(lexemes[idx].as_str(), "(") {
            let (cr, nx) = Condition::parse(lexemes, idx + 1);
            match cr {
                ParseResult::Matched(c) => {
                    if nx < lexemes.len() && str_eq(lexemes[nx].as_str(), ")") {
                        (
                            ParseResult::Matched(
                                PrimaryCondition {
                                    comparison: None,
                                    condition: Some(Box::new(c)),
                                },
                            ),
                            nx + 1,
                        )
                    } else {
                        (ParseResult::SyntaxError, idx)
                    }
                },
                ParseResult::Absent => (ParseResult::SyntaxError, idx),
                ParseResult::SyntaxError => (ParseResult::SyntaxError, idx),
            }
        } else {
            let (cr, nx) = Comparison::parse(lexemes, idx);
            match cr {
                ParseResult::Matched(c) => (
                    ParseResult::Matched(
                        PrimaryCondition { comparison: Some(c), condition: None },
                    ),
                    nx,
                ),
                ParseResult::Absent => (ParseResult::Absent, idx),
                ParseResult::SyntaxError => (ParseResult::SyntaxError, idx),
            }
        }
    }
}

impl Condition {
    /// Decides the condition on one row.
    pub fn evaluate(&self, fields: &Vec<String>, row: &Vec<String>) -> (r: bool)
        requires
            self@.wf(),
        ensures
            r == spec_eval_condition(self@, fields@, row@),
        decreases self,
    {
        self.or_condition.evaluate(fields, row)
    }

    /// Parses one condition at `idx`.
    pub fn parse(lexemes: &Vec<String>, idx: usize) -> (r: (ParseResult<Condition>, usize))
        ensures
            match spec_parse_condition(lexemes@, idx as int) {
                ParseOutcome::Matched(cv, nx) => r.0 is Matched && (r.0)->Matched_0@ == cv && (
                r.0)->Matched_0@.wf() && r.1 == nx && idx < r.1 <= lexemes@.len(),
                ParseOutcome::Absent => r.0 is Absent && r.1 == idx,
                ParseOutcome::SyntaxError => r.0 is SyntaxError && r.1 == idx,
            },
        decreases lexemes@.len() - idx, 5int,
    {
        let (or_r, nx) = OrCondition::parse(lexemes, idx);
        match or_r {
            ParseResult::Matched(oc) => (
                ParseResult::Matched(Condition { or_condition: oc }),
                nx,
            ),
            ParseResult::Absent => (ParseResult::Absent, idx),
            ParseResult::SyntaxError => (ParseResult::SyntaxError, idx),
        }
    }
}

impl WhereClause {
    /// Decides the filter on one row.
    pub fn evaluate(&self, fields: &Vec<String>, row: &Vec<String>) -> (r: bool)
        requires
            self@.wf(),
        ensures
            r == spec_eval_where(self@, fields@, row@),
    {
        self.condition.evaluate(fields, row)
    }

    /// Parses the optional `where` clause at `idx`.
    pub fn parse(lexemes: &Vec<String>, idx: usize) -> (r: (ParseResult<WhereClause>, usize))
        ensures
            match spec_parse_where(lexemes@, idx as int) {
                ParseOutcome::Matched(cv, nx) => r.0 is Matched && (r.0)->Matched_0@ == cv && (
                r.0)->Matched_0@.wf() && r.1 == nx && idx < r.1 <= lexemes@.len(),
                ParseOutcome::Absent => r.0 is Absent && r.1 == idx,
                ParseOutcome::SyntaxError => r.0 is SyntaxError && r.1 == idx,
            },
    {
        if idx >= lexemes.len() {
            return (ParseResult::Absent, idx);
        }
        if !str_eq(lexemes[idx].as_str(), "where") {
            return (ParseResult::Absent, idx);
        }
        let (cr, nx) = Condition::parse(lexemes, idx + 1);
        match cr {
            ParseResult::Matched(c) => (ParseResult::Matched(WhereClause { condition: c }), nx),
            ParseResult::Absent => (ParseResult::SyntaxError, idx),
            ParseResult::SyntaxError => (ParseResult::SyntaxError, idx),
        }
    }
}

} // verus!
