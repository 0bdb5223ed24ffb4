//! The commands: `get`, `set`, `insert-column`, `insert-row` and `delete`,
//! each with its grammar and its effect on the table.

use vstd::prelude::*;
use crate::assign::{
    AssignList, AssignmentV, assign_list_wf, assigns_post, insert_cols_post,
    spec_parse_assign_list,
};
use crate::condition::{WhereClause, WhereClauseV, spec_parse_where, spec_eval_where};
use crate::function::{
    FunctionCall, FunctionCallV, FunctionsV, fcall_post, run_post, insert_pos, sort_gt,
    spec_sort_rows, spec_parse_fcall, spec_is_function_name, spec_param_field, is_function_name,
};
use crate::strutil::{field_at, find_field, lemma_field_at_unique, str_eq};
use crate::value::{ParseResult, ParseOutcome, parse_field_name, spec_parse_field_name};

verus! {

/// The `get` command: a column selector, an optional filter, and an
/// optional chain of transforms.
#[derive(Debug)]
pub struct GetQuery {
    pub selector: Vec<String>,
    pub where_clause: Option<WhereClause>,
    pub function_call: Option<FunctionCall>,
}

/// The `set` command: assignments applied to the rows passing the filter.
#[derive(Debug)]
pub struct SetQuery {
    pub where_clause: Option<WhereClause>,
    pub assign_list: AssignList,
}

/// The `insert-column` command: new fields appended, filled where the
/// filter holds.
#[derive(Debug)]
pub struct InsertColumnQuery {
    pub where_clause: Option<WhereClause>,
    pub assign_list: AssignList,
}

/// The `insert-row` command: one new row built from the assignments.
#[derive(Debug)]
pub struct InsertRowQuery {
    pub assign_list: AssignList,
}

/// The `delete` command: rows passing the filter are removed.
#[derive(Debug)]
pub struct DeleteQuery {
    pub where_clause: WhereClause,
}

/// The mathematical content of a `get` command.
pub struct GetQueryV {
    pub selector: Seq<Seq<char>>,
    pub where_clause: Option<WhereClauseV>,
    pub function_call: Option<FunctionCallV>,
}

/// The mathematical content of a `set` command.
pub struct SetQueryV {
    pub where_clause: Option<WhereClauseV>,
    pub assign_list: Seq<AssignmentV>,
}

/// The mathematical content of an `insert-column` command.
pub struct InsertColumnQueryV {
    pub where_clause: Option<WhereClauseV>,
    pub assign_list: Seq<AssignmentV>,
}

/// The mathematical content of an `insert-row` command.
pub struct InsertRowQueryV {
    pub assign_list: Seq<AssignmentV>,
}

/// The mathematical content of a `delete` command.
pub struct DeleteQueryV {
    pub where_clause: WhereClauseV,
}

impl View for GetQuery {
    type V = GetQueryV;

    open spec fn view(&self) -> GetQueryV {
        GetQueryV {
            selector: self.selector.deep_view(),
            where_clause: match &self.where_clause {
                Option::Some(w) => Some(w@),
                Option::None => Option::None,
            },
            function_call: match &self.function_call {
                Option::Some(f) => Some(f@),
                Option::None => Option::None,
            },
        }
    }
}

impl View for SetQuery {
    type V = SetQueryV;

    open spec fn view(&self) -> SetQueryV {
        SetQueryV {
            where_clause: match &self.where_clause {
                Option::Some(w) => Some(w@),
                Option::None => Option::None,
            },
            assign_list: self.assign_list@,
        }
    }
}

impl View for InsertColumnQuery {
    type V = InsertColumnQueryV;

    open spec fn view(&self) -> InsertColumnQueryV {
        InsertColumnQueryV {
            where_clause: match &self.where_clause {
                Option::Some(w) => Some(w@),
                Option::None => Option::None,
            },
            assign_list: self.assign_list@,
        }
    }
}

impl View for InsertRowQuery {
    type V = InsertRowQueryV;

    open spec fn view(&self) -> InsertRowQueryV {
        InsertRowQueryV { assign_list: self.assign_list@ }
    }
}

impl View for DeleteQuery {
    type V = DeleteQueryV;

    open spec fn view(&self) -> DeleteQueryV {
        DeleteQueryV { where_clause: self.where_clause@ }
    }
}

/// Whether a row passes the optional filter; no filter admits every row.
pub open spec fn spec_row_passes(
    wc: Option<WhereClauseV>,
    fields: Seq<String>,
    row: Seq<String>,
) -> bool {
    match wc {
        Some(w) => spec_eval_where(w, fields, row),
        Option::None => true,
    }
}

/// The rows passing the optional filter, in order.
pub open spec fn spec_filter_rows(
    wc: Option<WhereClauseV>,
    fields: Seq<String>,
    rows: Seq<Vec<String>>,
) -> Seq<Vec<String>> {
    rows.filter(|r: Vec<String>| spec_row_passes(wc, fields, r@))
}

/// What an optional chain does to the working set; no chain leaves it.
pub open spec fn chain_post_opt(
    fc: Option<FunctionCallV>,
    fields: Seq<String>,
    before: Seq<Vec<String>>,
    after: Seq<Vec<String>>,
) -> bool {
    match fc {
        Some(f) => fcall_post(f, fields, before, after),
        Option::None => after == before,
    }
}

/// Whether two row sets hold the same cells, position by position.
pub open spec fn rows_views_match(a: Seq<Vec<String>>, b: Seq<Vec<String>>) -> bool {
    a.len() == b.len() && forall|i: int| 0 <= i < a.len() ==> (#[trigger] a[i])@ == b[i]@
}

/// The well-formedness of the optional filter.
pub open spec fn wc_wf(wc: Option<WhereClauseV>) -> bool {
    match wc {
        Some(w) => w.wf(),
        Option::None => true,
    }
}

/// Decides the optional filter on one row.
fn row_passes(wc: &Option<WhereClause>, fields: &Vec<String>, row: &Vec<String>) -> (r: bool)
    requires
        wc_wf(match wc {
            Option::Some(w) => Some(w@),
            Option::None => Option::None::<WhereClauseV>,
        }),
    ensures
        r == spec_row_passes(
            match wc {
                Option::Some(w) => Some(w@),
                Option::None => Option::None::<WhereClauseV>,
            },
            fields@,
            row@,
        ),
{
    match wc {
        Some(w) => w.evaluate(fields, row),
        None => true,
    }
}

/// Copies one row cell by cell.
#[verifier::loop_isolation(false)]
fn clone_row(r: &Vec<String>) -> (c: Vec<String>)
    ensures
        c@ == r@,
{
    let mut c: Vec<String> = Vec::new();
    let mut i: usize = 0;
    while i < r.len()
        invariant
            0 <= i <= r@.len(),
            c@.len() == i,
            forall|j: int| 0 <= j < i ==> c@[j] == r@[j],
        decreases r@.len() - i,
    {
        c.push(r[i].clone());
        i = i + 1;
    }
    proof {
        assert(c@ =~= r@);
    }
    c
}

impl SetQuery {
    /// Applies the assignments to every row passing the filter; every
    /// row's cell count is preserved.
    #[verifier::loop_isolation(false)]
    pub fn evaluate(&self, fields: &Vec<String>, rows: &mut Vec<Vec<String>>)
        requires
            wc_wf(self@.where_clause),
            assign_list_wf(self@.assign_list),
        ensures
            set_post(self@, fields@, old(rows)@, final(rows)@),
    {
        let ghost orig = rows@;
        let mut i: usize = 0;
        while i < rows.len()
            invariant
                0 <= i <= orig.len(),
                rows@.len() == orig.len(),
                forall|k: int| i <= k < orig.len() ==> rows@[k] == orig[k],
                forall|k: int|
                    0 <= k < i ==> if spec_row_passes(
                        self@.where_clause,
                        fields@,
                        (#[trigger] orig[k])@,
                    ) {
                        assigns_post(self@.assign_list, fields@, orig[k]@, rows@[k]@)
                    } else {
                        rows@[k] == orig[k]
                    },
                forall|k: int| 0 <= k < i ==> (#[trigger] rows@[k])@.len() == orig[k]@.len(),
            decreases orig.len() - i,
        {
            let ghost s_pre = rows@;
            let mut row = rows.remove(i);
            if row_passes(&self.where_clause, fields, &row) {
                self.assign_list.set_evaluation(fields, &mut row);
            }
            rows.insert(i, row);
            proof {
                assert(forall|k: int| 0 <= k < i ==> rows@[k] == s_pre[k]);
                assert(forall|k: int| i < k < rows@.len() ==> rows@[k] == s_pre[k]);
            }
            i = i + 1;
        }
    }
}

impl DeleteQuery {
    /// Removes every row for which the filter holds; the others stay, in
    /// order.
    #[verifier::loop_isolation(false)]
    pub fn evaluate(&self, fields: &Vec<String>, rows: &mut Vec<Vec<String>>)
        requires
            self@.where_clause.wf(),
        ensures
            delete_post(self@, fields@, old(rows)@, final(rows)@),
    {
        let n = rows.len();
        let ghost orig = rows@;
        let ghost pred = |r: Vec<String>| !spec_eval_where(self@.where_clause, fields@, r@);
        let mut out: Vec<Vec<String>> = Vec::new();
        let mut k: usize = 0;
        proof {
            reveal(Seq::filter);
            assert(orig.take(0) =~= Seq::<Vec<String>>::empty());
            assert(orig.take(0).filter(pred) =~= Seq::<Vec<String>>::empty());
        }
        while rows.len() > 0
            invariant
                0 <= k <= orig.len() == n,
                rows@ == orig.skip(k as int),
                out@ == orig.take(k as int).filter(pred),
            decreases orig.len() - k,
        {
            proof {
                assert(rows@.len() == orig.len() - k);
                assert(k < orig.len());
            }
            let row = rows.remove(0);
            proof {
                assert(orig.skip(k as int).remove(0) =~= orig.skip(k + 1));
                assert(row == orig[k as int]);
            }
            let keep = !self.where_clause.evaluate(fields, &row);
            proof {
                reveal(Seq::filter);
                let t1 = orig.take(k + 1);
                assert(t1.drop_last() =~= orig.take(k as int));
                assert(t1.last() == orig[k as int]);
                if pred(orig[k as int]) {
                    assert(t1.filter(pred) == orig.take(k as int).filter(pred).push(
                        orig[k as int],
                    ));
                } else {
                    assert(t1.filter(pred) == orig.take(k as int).filter(pred));
                }
                assert(keep == pred(orig[k as int]));
            }
            if keep {
                out.push(row);
            }
            k = k + 1;
        }
        proof {
            assert(orig.take(orig.len() as int) =~= orig);
        }
        let _ = core::mem::swap(rows, &mut out);
    }
}

impl InsertRowQuery {
    /// Appends one new row built from the assignments.
    pub fn evaluate(&self, fields: &Vec<String>, rows: &mut Vec<Vec<String>>)
        requires
            assign_list_wf(self@.assign_list),
        ensures
            insert_row_post(self@, fields@, old(rows)@, final(rows)@),
    {
        self.assign_list.insert_row_evaluation(fields, rows);
    }
}

impl InsertColumnQuery {
    /// Evaluates the filter on every row, then appends one column per
    /// assignment, filling cells only where the filter held.
    #[verifier::loop_isolation(false)]
    pub fn evaluate(&self, fields: &mut Vec<String>, rows: &mut Vec<Vec<String>>)
        requires
            wc_wf(self@.where_clause),
            assign_list_wf(self@.assign_list),
        ensures
            insert_column_post(self@, old(fields)@, old(rows)@, final(fields)@, final(rows)@),
    {
        let mut conds: Vec<bool> = Vec::new();
        let mut i: usize = 0;
        while i < rows.len()
            invariant
                0 <= i <= rows@.len(),
                conds@.len() == i,
                forall|k: int|
                    0 <= k < i ==> conds@[k] == spec_row_passes(
                        self@.where_clause,
                        fields@,
                        (#[trigger] rows@[k])@,
                    ),
            decreases rows@.len() - i,
        {
            let c = row_passes(&self.where_clause, fields, &rows[i]);
            conds.push(c);
            i = i + 1;
        }
        let ghost cv = conds@;
        self.assign_list.insert_column_evaluation(fields, rows, &conds);
    }
}


/// Whether a lexeme can name a selected column: anything but the `where`
/// keyword and the transform names.
pub open spec fn spec_is_selector_lexeme(s: Seq<char>) -> bool {
    s != "where"@ && !spec_is_function_name(s)
}

/// The first index at or after `k` whose lexeme cannot name a column.
pub open spec fn field_list_end(lex: Seq<String>, k: int) -> int
    decreases lex.len() - k when 0 <= k <= lex.len()
{
    if k >= lex.len() {
        k
    } else if spec_is_selector_lexeme(lex[k]@) {
        field_list_end(lex, k + 1)
    } else {
        k
    }
}

/// A run of selector lexemes closed by a keyword (or the end) pins
/// `field_list_end`.
proof fn lemma_field_list_pins(lex: Seq<String>, k: int, e: int)
    requires
        0 <= k <= e <= lex.len(),
        forall|p: int| k <= p < e ==> spec_is_selector_lexeme(lex[p]@),
        e == lex.len() || !spec_is_selector_lexeme(lex[e]@),
    ensures
        field_list_end(lex, k) == e,
    decreases e - k,
{
    if k < e {
        lemma_field_list_pins(lex, k + 1, e);
    }
}

/// The optional filter and optional transform chain at `j`, or `None` on a
/// malformed one.
pub open spec fn spec_parse_wcfc(lex: Seq<String>, j: int) -> Option<
    (Option<WhereClauseV>, Option<FunctionCallV>),
> {
    match spec_parse_where(lex, j) {
        ParseOutcome::Matched(w, nx) => match spec_parse_fcall(lex, nx) {
            ParseOutcome::Matched(fc, _) => Some((Some(w), Some(fc))),
            ParseOutcome::Absent => Some((Some(w), Option::None)),
            ParseOutcome::SyntaxError => Option::None,
        },
        ParseOutcome::Absent => match spec_parse_fcall(lex, j) {
            ParseOutcome::Matched(fc, _) => Some((Option::None, Some(fc))),
            ParseOutcome::Absent => Some((Option::None, Option::None)),
            ParseOutcome::SyntaxError => Option::None,
        },
        ParseOutcome::SyntaxError => Option::None,
    }
}

/// The `get` command the lexemes denote: the keyword, a `*` or a run of
/// field references, then the optional filter and chain.
pub open spec fn spec_parse_get(lex: Seq<String>) -> ParseResult<GetQueryV> {
    if !(lex.len() > 0 && lex[0]@ == "get"@) {
        ParseResult::Absent
    } else if lex.len() == 1 {
        ParseResult::SyntaxError
    } else if lex[1]@ == "*"@ {
        match spec_parse_wcfc(lex, 2) {
            Some(p) => ParseResult::Matched(
                GetQueryV { selector: seq!["*"@], where_clause: p.0, function_call: p.1 },
            ),
            Option::None => ParseResult::SyntaxError,
        }
    } else {
        let e = field_list_end(lex, 1);
        if e == 1 {
            ParseResult::SyntaxError
        } else {
            match spec_parse_wcfc(lex, e) {
                Some(p) => ParseResult::Matched(
                    GetQueryV {
                        selector: Seq::new(
                            (e - 1) as nat,
                            |i: int| spec_param_field(lex[1 + i]@),
                        ),
                        where_clause: p.0,
                        function_call: p.1,
                    },
                ),
                Option::None => ParseResult::SyntaxError,
            }
        }
    }
}

/// The `set` command the lexemes denote: the keyword, assignments, and an
/// optional filter.
pub open spec fn spec_parse_set(lex: Seq<String>) -> ParseResult<SetQueryV> {
    if !(lex.len() > 0 && lex[0]@ == "set"@) {
        ParseResult::Absent
    } else if lex.len() == 1 {
        ParseResult::SyntaxError
    } else {
        match spec_parse_assign_list(lex, 1) {
            ParseOutcome::Matched(al, nx) => match spec_parse_where(lex, nx) {
                ParseOutcome::Matched(w, _) => ParseResult::Matched(
                    SetQueryV { where_clause: Some(w), assign_list: al },
                ),
                ParseOutcome::Absent => ParseResult::Matched(
                    SetQueryV { where_clause: Option::None, assign_list: al },
                ),
                ParseOutcome::SyntaxError => ParseResult::SyntaxError,
            },
            ParseOutcome::Absent => ParseResult::SyntaxError,
            ParseOutcome::SyntaxError => ParseResult::SyntaxError,
        }
    }
}

/// The `insert-column` command the lexemes denote.
pub open spec fn spec_parse_insert_column(lex: Seq<String>) -> ParseResult<InsertColumnQueryV> {
    if !(lex.len() > 0 && lex[0]@ == "insert-column"@) {
        ParseResult::Absent
    } else if lex.len() == 1 {
        ParseResult::SyntaxError
    } else {
        match spec_parse_assign_list(lex, 1) {
            ParseOutcome::Matched(al, nx) => match spec_parse_where(lex, nx) {
                ParseOutcome::Matched(w, _) => ParseResult::Matched(
                    InsertColumnQueryV { where_clause: Some(w), assign_list: al },
                ),
                ParseOutcome::Absent => ParseResult::Matched(
                    InsertColumnQueryV { where_clause: Option::None, assign_list: al },
                ),
                ParseOutcome::SyntaxError => ParseResult::SyntaxError,
            },
            ParseOutcome::Absent => ParseResult::SyntaxError,
            ParseOutcome::SyntaxError => ParseResult::SyntaxError,
        }
    }
}

/// The `insert-row` command the lexemes denote; the bare keyword is merely
/// absent.
pub open spec fn spec_parse_insert_row(lex: Seq<String>) -> ParseResult<InsertRowQueryV> {
    if !(lex.len() > 0 && lex[0]@ == "insert-row"@) {
        ParseResult::Absent
    } else if lex.len() == 1 {
        ParseResult::Absent
    } else {
        match spec_parse_assign_list(lex, 1) {
            ParseOutcome::Matched(al, _) => ParseResult::Matched(InsertRowQueryV { assign_list: al }),
            ParseOutcome::Absent => ParseResult::SyntaxError,
            ParseOutcome::SyntaxError => ParseResult::SyntaxError,
        }
    }
}

/// The `delete` command the lexemes denote: the keyword and a filter.
pub open spec fn spec_parse_delete(lex: Seq<String>) -> ParseResult<DeleteQueryV> {
    if !(lex.len() > 0 && lex[0]@ == "delete"@) {
        ParseResult::Absent
    } else if lex.len() == 1 {
        ParseResult::SyntaxError
    } else {
        match spec_parse_where(lex, 1) {
            ParseOutcome::Matched(w, _) => ParseResult::Matched(DeleteQueryV { where_clause: w }),
            ParseOutcome::Absent => ParseResult::SyntaxError,
            ParseOutcome::SyntaxError => ParseResult::SyntaxError,
        }
    }
}

/// Whether a lexeme can name a selected column.
fn is_selector_lexeme(lexeme: &String) -> (r: bool)
    ensures
        r == spec_is_selector_lexeme(lexeme@),
{
    !str_eq(lexeme.as_str(), "where") && !is_function_name(lexeme)
}

/// Reads a selector lexeme as a field name, bare or `$`-prefixed.
fn selector_field(lexeme: &String) -> (r: String)
    ensures
        r@ == spec_param_field(lexeme@),
{
    match parse_field_name(lexeme) {
        Some(f) => f,
        None => lexeme.clone(),
    }
}

impl GetQuery {
    /// Reads the optional filter and transform chain at `idx`.
    pub fn parse_where_clause_and_function_call(lexemes: &Vec<String>, idx: usize) -> (r: ParseResult<
        (Option<WhereClause>, Option<FunctionCall>),
    >)
        requires
            idx <= lexemes@.len(),
        ensures
            match spec_parse_wcfc(lexemes@, idx as int) {
                Some(p) => match r {
                    ParseResult::Matched(q) => (match &q.0 {
                        Option::Some(w) => Some(w@) == p.0,
                        Option::None => p.0 is None,
                    }) && (match &q.1 {
                        Option::Some(f) => Some(f@) == p.1,
                        Option::None => p.1 is None,
                    }) && wc_wf(p.0),
                    _ => false,
                },
                Option::None => r is SyntaxError,
            },
    {
        let (wr, nx) = WhereClause::parse(lexemes, idx);
        let wc: Option<WhereClause> = match wr {
            ParseResult::Matched(w) => Some(w),
            ParseResult::Absent => None,
            ParseResult::SyntaxError => {
                return ParseResult::SyntaxError;
            },
        };
        let j = if wc.is_some() {
            nx
        } else {
            idx
        };
        let (fr, _) = FunctionCall::parse(lexemes, j);
        match fr {
            ParseResult::Matched(fc) => ParseResult::Matched((wc, Some(fc))),
            ParseResult::Absent => ParseResult::Matched((wc, None)),
            ParseResult::SyntaxError => ParseResult::SyntaxError,
        }
    }

    /// Parses a whole `get` command line.
    #[verifier::loop_isolation(false)]
    pub fn parse(lexemes: &Vec<String>) -> (r: ParseResult<GetQuery>)
        ensures
            match spec_parse_get(lexemes@) {
                ParseResult::Matched(gv) => r is Matched && r->Matched_0@ == gv
                    && r->Matched_0@.wf(),
                ParseResult::Absent => r is Absent,
                ParseResult::SyntaxError => r is SyntaxError,
            },
    {
        if lexemes.len() == 0 || !str_eq(lexemes[0].as_str(), "get") {
            return ParseResult::Absent;
        }
        if lexemes.len() == 1 {
            return ParseResult::SyntaxError;
        }
        if str_eq(lexemes[1].as_str(), "*") {
            let mut selector: Vec<String> = Vec::new();
            selector.push("*".to_owned());
            proof {
                assert(selector.deep_view() =~= seq!["*"@]);
            }
            match GetQuery::parse_where_clause_and_function_call(lexemes, 2) {
                ParseResult::Matched(p) => {
                    return ParseResult::Matched(
                        GetQuery { selector, where_clause: p.0, function_call: p.1 },
                    );
                },
                _ => {
                    return ParseResult::SyntaxError;
                },
            }
        }
        let mut names: Vec<String> = Vec::new();
        let mut e: usize = 1;
        while e < lexemes.len() && is_selector_lexeme(&lexemes[e])
            invariant
                1 <= e <= lexemes@.len(),
                names@.len() == e - 1,
                forall|p: int| 1 <= p < e ==> spec_is_selector_lexeme(lexemes@[p]@),
                forall|j: int|
                    0 <= j < names@.len() ==> (#[trigger] names@[j])@ == spec_param_field(
                        lexemes@[1 + j]@,
                    ),
            decreases lexemes@.len() - e,
        {
            let f = selector_field(&lexemes[e]);
            names.push(f);
            e = e + 1;
        }
        proof {
            lemma_field_list_pins(lexemes@, 1, e as int);
        }
        if e == 1 {
            return ParseResult::SyntaxError;
        }
        proof {
            assert(names.deep_view() =~= Seq::new(
                (e - 1) as nat,
                |i: int| spec_param_field(lexemes@[1 + i]@),
            ));
        }
        match GetQuery::parse_where_clause_and_function_call(lexemes, e) {
            ParseResult::Matched(p) => ParseResult::Matched(
                GetQuery { selector: names, where_clause: p.0, function_call: p.1 },
            ),
            _ => ParseResult::SyntaxError,
        }
    }
}

impl SetQuery {
    /// Parses a whole `set` command line.
    pub fn parse(lexemes: &Vec<String>) -> (r: ParseResult<SetQuery>)
        ensures
            match spec_parse_set(lexemes@) {
                ParseResult::Matched(sv) => r is Matched && r->Matched_0@ == sv
                    && r->Matched_0@.wf(),
                ParseResult::Absent => r is Absent,
                ParseResult::SyntaxError => r is SyntaxError,
            },
    {
        if lexemes.len() == 0 || !str_eq(lexemes[0].as_str(), "set") {
            return ParseResult::Absent;
        }
        if lexemes.len() == 1 {
            return ParseResult::SyntaxError;
        }
        let (ar, nx) = AssignList::parse(lexemes, 1);
        match ar {
            ParseResult::Matched(al) => {
                let (wr, _) = WhereClause::parse(lexemes, nx);
                match wr {
                    ParseResult::Matched(w) => ParseResult::Matched(
                        SetQuery { where_clause: Some(w), assign_list: al },
                    ),
                    ParseResult::Absent => ParseResult::Matched(
                        SetQuery { where_clause: None, assign_list: al },
                    ),
                    ParseResult::SyntaxError => ParseResult::SyntaxError,
                }
            },
            ParseResult::Absent => ParseResult::SyntaxError,
            ParseResult::SyntaxError => ParseResult::SyntaxError,
        }
    }
}

impl InsertColumnQuery {
    /// Parses a whole `insert-column` command line.
    pub fn parse(lexemes: &Vec<String>) -> (r: ParseResult<InsertColumnQuery>)
        ensures
            match spec_parse_insert_column(lexemes@) {
                ParseResult::Matched(sv) => r is Matched && r->Matched_0@ == sv
                    && r->Matched_0@.wf(),
                ParseResult::Absent => r is Absent,
                ParseResult::SyntaxError => r is SyntaxError,
            },
    {
        if lexemes.len() == 0 || !str_eq(lexemes[0].as_str(), "insert-column") {
            return ParseResult::Absent;
        }
        if lexemes.len() == 1 {
            return ParseResult::SyntaxError;
        }
        let (ar, nx) = AssignList::parse(lexemes, 1);
        match ar {
            ParseResult::Matched(al) => {
                let (wr, _) = WhereClause::parse(lexemes, nx);
                match wr {
                    ParseResult::Matched(w) => ParseResult::Matched(
                        InsertColumnQuery { where_clause: Some(w), assign_list: al },
                    ),
                    ParseResult::Absent => ParseResult::Matched(
                        InsertColumnQuery { where_clause: None, assign_list: al },
                    ),
                    ParseResult::SyntaxError => ParseResult::SyntaxError,
                }
            },
            ParseResult::Absent => ParseResult::SyntaxError,
            ParseResult::SyntaxError => ParseResult::SyntaxError,
        }
    }
}

impl InsertRowQuery {
    /// Parses a whole `insert-row` command line.
    pub fn parse(lexemes: &Vec<String>) -> (r: ParseResult<InsertRowQuery>)
        ensures
            match spec_parse_insert_row(lexemes@) {
                ParseResult::Matched(sv) => r is Matched && r->Matched_0@ == sv
                    && r->Matched_0@.wf(),
                ParseResult::Absent => r is Absent,
                ParseResult::SyntaxError => r is SyntaxError,
            },
    {
        if lexemes.len() == 0 || !str_eq(lexemes[0].as_str(), "insert-row") {
            return ParseResult::Absent;
        }
        if lexemes.len() == 1 {
            return ParseResult::Absent;
        }
        let (ar, _) = AssignList::parse(lexemes, 1);
        match ar {
            ParseResult::Matched(al) => ParseResult::Matched(InsertRowQuery { assign_list: al }),
            ParseResult::Absent => ParseResult::SyntaxError,
            ParseResult::SyntaxError => ParseResult::SyntaxError,
        }
    }
}

impl DeleteQuery {
    /// Parses a whole `delete` command line.
    pub fn parse(lexemes: &Vec<String>) -> (r: ParseResult<DeleteQuery>)
        ensures
            match spec_parse_delete(lexemes@) {
                ParseResult::Matched(sv) => r is Matched && r->Matched_0@ == sv
                    && r->Matched_0@.wf(),
                ParseResult::Absent => r is Absent,
                ParseResult::SyntaxError => r is SyntaxError,
            },
    {
        if lexemes.len() == 0 || !str_eq(lexemes[0].as_str(), "delete") {
            return ParseResult::Absent;
        }
        if lexemes.len() == 1 {
            return ParseResult::SyntaxError;
        }
        let (wr, _) = WhereClause::parse(lexemes, 1);
        match wr {
            ParseResult::Matched(w) => ParseResult::Matched(DeleteQuery { where_clause: w }),
            ParseResult::Absent => ParseResult::SyntaxError,
            ParseResult::SyntaxError => ParseResult::SyntaxError,
        }
    }
}

impl GetQueryV {
    /// Well-formed: every held number is in range.
    pub open spec fn wf(self) -> bool {
        wc_wf(self.where_clause)
    }
}

impl SetQueryV {
    /// Well-formed: every held number is in range.
    pub open spec fn wf(self) -> bool {
        wc_wf(self.where_clause) && assign_list_wf(self.assign_list)
    }
}

impl InsertColumnQueryV {
    /// Well-formed: every held number is in range.
    pub open spec fn wf(self) -> bool {
        wc_wf(self.where_clause) && assign_list_wf(self.assign_list)
    }
}

impl InsertRowQueryV {
    /// Well-formed: every held number is in range.
    pub open spec fn wf(self) -> bool {
        assign_list_wf(self.assign_list)
    }
}

impl DeleteQueryV {
    /// Well-formed: every held number is in range.
    pub open spec fn wf(self) -> bool {
        self.where_clause.wf()
    }
}


/// The column indices a selector denotes, gathered left to right: a `*`
/// selects every field, a name selects its first match, and an unknown
/// name fails the whole selection.
pub open spec fn sel_idxs_from(
    selector: Seq<Seq<char>>,
    fields: Seq<String>,
    k: int,
    acc: Seq<int>,
) -> Option<Seq<int>>
    decreases selector.len() - k when 0 <= k <= selector.len()
{
    if k >= selector.len() {
        Some(acc)
    } else if selector[k] == "*"@ {
        Some(Seq::new(fields.len(), |i: int| i))
    } else if exists|i: int| field_at(fields, selector[k], i) {
        sel_idxs_from(
            selector,
            fields,
            k + 1,
            acc.push(choose|i: int| field_at(fields, selector[k], i)),
        )
    } else {
        Option::None
    }
}

/// The column indices a selector denotes.
pub open spec fn spec_sel_idxs(selector: Seq<Seq<char>>, fields: Seq<String>) -> Option<Seq<int>> {
    sel_idxs_from(selector, fields, 0, Seq::empty())
}

/// Whether `header`/`out` are the projection of `fields` and `work` onto
/// the columns `idxs`.
pub open spec fn project_post(
    idxs: Seq<int>,
    fields: Seq<String>,
    work: Seq<Vec<String>>,
    header: Seq<String>,
    out: Seq<Vec<String>>,
) -> bool {
    &&& header.len() == idxs.len()
    &&& forall|j: int|
        0 <= j < idxs.len() ==> 0 <= idxs[j] < fields.len() && (#[trigger] header[j])@
            == fields[idxs[j]]@
    &&& out.len() == work.len()
    &&& forall|i: int| 0 <= i < work.len() ==> (#[trigger] out[i])@.len() == idxs.len()
    &&& forall|i: int, j: int|
        0 <= i < work.len() && 0 <= j < idxs.len() ==> ((#[trigger] out[i]@[j]))@
            == work[i]@[idxs[j]]@
}

/// Resolves the selector to column indices.
#[verifier::loop_isolation(false)]
fn sel_indices(selector: &Vec<String>, fields: &Vec<String>) -> (r: Option<Vec<usize>>)
    ensures
        match r {
            Some(v) => spec_sel_idxs(selector.deep_view(), fields@) == Some(
                v@.map_values(|u: usize| u as int),
            ) && forall|j: int| 0 <= j < v@.len() ==> (#[trigger] v@[j]) < fields@.len(),
            Option::None => spec_sel_idxs(selector.deep_view(), fields@) is None,
        },
{
    let ghost sel = selector.deep_view();
    let mut acc: Vec<usize> = Vec::new();
    let mut k: usize = 0;
    proof {
        assert(acc@.map_values(|u: usize| u as int) =~= Seq::<int>::empty());
    }
    while k < selector.len()
        invariant
            0 <= k <= sel.len(),
            sel.len() == selector@.len(),
            forall|j: int| 0 <= j < acc@.len() ==> (#[trigger] acc@[j]) < fields@.len(),
            sel_idxs_from(sel, fields@, 0, Seq::empty()) == sel_idxs_from(
                sel,
                fields@,
                k as int,
                acc@.map_values(|u: usize| u as int),
            ),
        decreases sel.len() - k,
    {
        if str_eq(selector[k].as_str(), "*") {
            let mut all: Vec<usize> = Vec::new();
            let mut i: usize = 0;
            while i < fields.len()
                invariant
                    0 <= i <= fields@.len(),
                    all@.len() == i,
                    forall|j: int| 0 <= j < i ==> (#[trigger] all@[j]) == j,
                decreases fields@.len() - i,
            {
                all.push(i);
                i = i + 1;
            }
            proof {
                assert(all@.map_values(|u: usize| u as int) =~= Seq::new(
                    fields@.len(),
                    |i: int| i,
                ));
            }
            return Some(all);
        }
        match find_field(fields, selector[k].as_str()) {
            Some(i) => {
                proof {
                    let c = choose|j: int| field_at(fields@, sel[k as int], j);
                    lemma_field_at_unique(fields@, sel[k as int], i as int, c);
                    assert(acc@.push(i).map_values(|u: usize| u as int) =~= acc@.map_values(
                        |u: usize| u as int,
                    ).push(i as int));
                }
                acc.push(i);
            },
            None => {
                return None;
            },
        }
        k = k + 1;
    }
    Some(acc)
}

impl GetQuery {
    /// Builds the working set of rows passing the filter, runs the
    /// transform chain on it, and projects the selected columns; the table
    /// itself is never changed. `None` when a selected field is unknown.
    #[verifier::loop_isolation(false)]
    #[verifier::rlimit(60)]
    pub fn evaluate(&self, fields: &Vec<String>, rows: &Vec<Vec<String>>) -> (r: Option<
        (Vec<String>, Vec<Vec<String>>),
    >)
        requires
            self@.wf(),
            forall|i: int| 0 <= i < rows@.len() ==> (#[trigger] rows@[i])@.len() == fields@.len(),
        ensures
            get_post(self@, fields@, rows@, r),
    {
        proof {
            reveal(Seq::filter);
        }
        let ghost fr = spec_filter_rows(self@.where_clause, fields@, rows@);
        // the working set: the rows passing the filter
        let mut work: Vec<Vec<String>> = Vec::new();
        let mut i: usize = 0;
        proof {
            assert(rows@.take(0) =~= Seq::<Vec<String>>::empty());
            assert(spec_filter_rows(self@.where_clause, fields@, rows@.take(0))
                =~= Seq::<Vec<String>>::empty());
        }
        while i < rows.len()
            invariant
                0 <= i <= rows@.len(),
                rows_views_match(
                    work@,
                    spec_filter_rows(self@.where_clause, fields@, rows@.take(i as int)),
                ),
                forall|k: int|
                    0 <= k < work@.len() ==> (#[trigger] work@[k])@.len() == fields@.len(),
            decreases rows@.len() - i,
        {
            let ghost pred = |rr: Vec<String>| spec_row_passes(self@.where_clause, fields@, rr@);
            proof {
                assert(rows@.take(i + 1).drop_last() =~= rows@.take(i as int));
                assert(rows@.take(i + 1).last() == rows@[i as int]);
            }
            if row_passes(&self.where_clause, fields, &rows[i]) {
                let c = clone_row(&rows[i]);
                work.push(c);
            }
            i = i + 1;
        }
        proof {
            assert(rows@.take(rows@.len() as int) =~= rows@);
        }
        // the transform chain
        let ghost start = work@;
        match &self.function_call {
            Some(fc) => {
                fc.evaluate(fields, &mut work);
            },
            None => {},
        }
        let ghost mid = work@;
        // the projection
        let idxs = match sel_indices(&self.selector, fields) {
            Some(v) => v,
            None => {
                return None;
            },
        };
        let mut header: Vec<String> = Vec::new();
        let mut j: usize = 0;
        while j < idxs.len()
            invariant
                0 <= j <= idxs@.len(),
                header@.len() == j,
                forall|q: int| 0 <= q < idxs@.len() ==> (#[trigger] idxs@[q]) < fields@.len(),
                forall|q: int| 0 <= q < j ==> (#[trigger] header@[q])@ == fields@[idxs@[q] as int]@,
            decreases idxs@.len() - j,
        {
            header.push(fields[idxs[j]].clone());
            j = j + 1;
        }
        let mut out: Vec<Vec<String>> = Vec::new();
        let mut i2: usize = 0;
        while i2 < work.len()
            invariant
                0 <= i2 <= work@.len(),
                out@.len() == i2,
                work@ == mid,
                forall|q: int| 0 <= q < idxs@.len() ==> (#[trigger] idxs@[q]) < fields@.len(),
                forall|k: int| 0 <= k < work@.len() ==> (#[trigger] work@[k])@.len() == fields@.len(),
                forall|k: int| 0 <= k < i2 ==> (#[trigger] out@[k])@.len() == idxs@.len(),
                forall|k: int, q: int|
                    0 <= k < i2 && 0 <= q < idxs@.len() ==> ((#[trigger] out@[k]@[q]))@
                        == work@[k]@[idxs@[q] as int]@,
            decreases work@.len() - i2,
        {
            let mut prow: Vec<String> = Vec::new();
            let mut q: usize = 0;
            while q < idxs.len()
                invariant
                    0 <= q <= idxs@.len(),
                    i2 < work@.len(),
                    prow@.len() == q,
                    work@ == mid,
                    forall|t: int| 0 <= t < idxs@.len() ==> (#[trigger] idxs@[t]) < fields@.len(),
                    forall|k: int|
                        0 <= k < work@.len() ==> (#[trigger] work@[k])@.len() == fields@.len(),
                    forall|t: int|
                        0 <= t < q ==> (#[trigger] prow@[t])@
                            == work@[i2 as int]@[idxs@[t] as int]@,
                decreases idxs@.len() - q,
            {
                prow.push(work[i2][idxs[q]].clone());
                q = q + 1;
            }
            out.push(prow);
            i2 = i2 + 1;
        }
        proof {
            assert(rows_views_match(start, fr));
            assert(chain_post_opt(self@.function_call, fields@, start, mid));
            assert(project_post(
                idxs@.map_values(|u: usize| u as int),
                fields@,
                mid,
                header@,
                out@,
            ));
        }
        Some((header, out))
    }
}


/// What `set` does to the rows: each row passing the filter is rewritten
/// by the assignments, the others stay; cell counts are preserved.
pub open spec fn set_post(
    sv: SetQueryV,
    fields: Seq<String>,
    before: Seq<Vec<String>>,
    after: Seq<Vec<String>>,
) -> bool {
    &&& after.len() == before.len()
    &&& forall|i: int|
        0 <= i < before.len() ==> if spec_row_passes(sv.where_clause, fields, (#[trigger] before[i])@) {
            assigns_post(sv.assign_list, fields, before[i]@, after[i]@)
        } else {
            after[i] == before[i]
        }
    &&& forall|i: int| 0 <= i < after.len() ==> (#[trigger] after[i])@.len() == before[i]@.len()
}

/// What `delete` does to the rows: exactly those failing the filter stay,
/// in order.
pub open spec fn delete_post(
    dv: DeleteQueryV,
    fields: Seq<String>,
    before: Seq<Vec<String>>,
    after: Seq<Vec<String>>,
) -> bool {
    after == before.filter(|r: Vec<String>| !spec_eval_where(dv.where_clause, fields, r@))
}

/// What `insert-row` does to the rows: one new row is appended, built by
/// the assignments from a row of empty cells, one per field.
pub open spec fn insert_row_post(
    iv: InsertRowQueryV,
    fields: Seq<String>,
    before: Seq<Vec<String>>,
    after: Seq<Vec<String>>,
) -> bool {
    &&& after.len() == before.len() + 1
    &&& after.take(before.len() as int) == before
    &&& after.last()@.len() == fields.len()
    &&& exists|nr0: Seq<String>|
        nr0.len() == fields.len() && (forall|j: int|
            0 <= j < nr0.len() ==> (#[trigger] nr0[j])@.len() == 0) && assigns_post(
            iv.assign_list,
            fields,
            nr0,
            after.last()@,
        )
}

/// What `insert-column` does to the table: the filter is decided on every
/// row first, then each assignment appends one column.
pub open spec fn insert_column_post(
    iv: InsertColumnQueryV,
    f0: Seq<String>,
    r0: Seq<Vec<String>>,
    f1: Seq<String>,
    r1: Seq<Vec<String>>,
) -> bool {
    &&& exists|conds: Seq<bool>|
        conds.len() == r0.len() && (forall|i: int|
            0 <= i < conds.len() ==> conds[i] == spec_row_passes(
                iv.where_clause,
                f0,
                (#[trigger] r0[i])@,
            )) && insert_cols_post(iv.assign_list, conds, f0, r0, f1, r1)
    &&& r1.len() == r0.len()
}

/// What `get` returns: the rows passing the filter, run through the
/// transform chain, projected onto the selected columns — or nothing when
/// a selected field is unknown.
pub open spec fn get_post(
    gv: GetQueryV,
    fields: Seq<String>,
    rows: Seq<Vec<String>>,
    r: Option<(Vec<String>, Vec<Vec<String>>)>,
) -> bool {
    match spec_sel_idxs(gv.selector, fields) {
        Some(idxs) => match r {
            Some(p) => exists|start: Seq<Vec<String>>, work: Seq<Vec<String>>|
                rows_views_match(start, spec_filter_rows(gv.where_clause, fields, rows))
                    && #[trigger] chain_post_opt(gv.function_call, fields, start, work)
                    && project_post(idxs, fields, work, p.0@, p.1@),
            Option::None => false,
        },
        Option::None => r is None,
    }
}


/// A stable insertion lands inside the run it extends.
proof fn lemma_insert_pos_bounds(
    s: Seq<Vec<String>>,
    x: Vec<String>,
    idx: int,
    numeric: bool,
    reverse: bool,
)
    ensures
        0 <= insert_pos(s, x, idx, numeric, reverse) <= s.len(),
    decreases s.len(),
{
    if s.len() > 0 && sort_gt(numeric, reverse, s.last()@[idx]@, x@[idx]@) {
        lemma_insert_pos_bounds(s.drop_last(), x, idx, numeric, reverse);
    }
}

/// A stable insertion lands at the same place in row sets that hold the
/// same cells.
proof fn lemma_insert_pos_match(
    s1: Seq<Vec<String>>,
    s2: Seq<Vec<String>>,
    x1: Vec<String>,
    x2: Vec<String>,
    idx: int,
    numeric: bool,
    reverse: bool,
)
    requires
        rows_views_match(s1, s2),
        x1@ == x2@,
    ensures
        insert_pos(s1, x1, idx, numeric, reverse) == insert_pos(s2, x2, idx, numeric, reverse),
    decreases s1.len(),
{
    if s1.len() > 0 {
        assert(s1.last()@ == s2.last()@);
        assert(rows_views_match(s1.drop_last(), s2.drop_last())) by {
            assert(forall|i: int|
                0 <= i < s1.len() - 1 ==> (#[trigger] s1.drop_last()[i])@ == s2.drop_last()[i]@);
        }
        lemma_insert_pos_match(s1.drop_last(), s2.drop_last(), x1, x2, idx, numeric, reverse);
    }
}

/// Sorting row sets that hold the same cells gives row sets that hold the
/// same cells.
proof fn lemma_sort_rows_match(
    r1: Seq<Vec<String>>,
    r2: Seq<Vec<String>>,
    idx: int,
    numeric: bool,
    reverse: bool,
)
    requires
        rows_views_match(r1, r2),
    ensures
        rows_views_match(
            spec_sort_rows(r1, idx, numeric, reverse),
            spec_sort_rows(r2, idx, numeric, reverse),
        ),
    decreases r1.len(),
{
    if r1.len() == 0 {
        assert(r2.len() == 0);
        assert(rows_views_match(
            spec_sort_rows(r1, idx, numeric, reverse),
            spec_sort_rows(r2, idx, numeric, reverse),
        ));
    } else {
        assert(rows_views_match(r1.drop_last(), r2.drop_last())) by {
            assert(forall|i: int|
                0 <= i < r1.len() - 1 ==> (#[trigger] r1.drop_last()[i])@ == r2.drop_last()[i]@);
        }
        lemma_sort_rows_match(r1.drop_last(), r2.drop_last(), idx, numeric, reverse);
        let s1 = spec_sort_rows(r1.drop_last(), idx, numeric, reverse);
        let s2 = spec_sort_rows(r2.drop_last(), idx, numeric, reverse);
        assert(r1.last()@ == r2.last()@);
        lemma_insert_pos_match(s1, s2, r1.last(), r2.last(), idx, numeric, reverse);
        lemma_insert_pos_bounds(s1, r1.last(), idx, numeric, reverse);
        let j = insert_pos(s1, r1.last(), idx, numeric, reverse);
        s1.insert_ensures(j, r1.last());
        s2.insert_ensures(j, r2.last());
        assert(rows_views_match(
            spec_sort_rows(r1, idx, numeric, reverse),
            spec_sort_rows(r2, idx, numeric, reverse),
        )) by {
            assert(forall|i: int|
                0 <= i < s1.len() + 1 ==> (#[trigger] s1.insert(j, r1.last())[i])@ == s2.insert(
                    j,
                    r2.last(),
                )[i]@);
        }
    }
}

/// One transform maps row sets that hold the same cells to row sets that
/// hold the same cells.
proof fn lemma_run_post_match(
    f: FunctionsV,
    fields: Seq<String>,
    b1: Seq<Vec<String>>,
    a1: Seq<Vec<String>>,
    b2: Seq<Vec<String>>,
    a2: Seq<Vec<String>>,
)
    requires
        run_post(f, fields, b1, a1),
        run_post(f, fields, b2, a2),
        rows_views_match(b1, b2),
    ensures
        rows_views_match(a1, a2),
{
    match f {
        FunctionsV::Sort(name) => {
            if exists|i: int| field_at(fields, name, i) {
                let i = choose|i: int| field_at(fields, name, i);
                lemma_sort_rows_match(b1, b2, i, false, false);
            }
        },
        FunctionsV::ReverseSort(name) => {
            if exists|i: int| field_at(fields, name, i) {
                let i = choose|i: int| field_at(fields, name, i);
                lemma_sort_rows_match(b1, b2, i, false, true);
            }
        },
        FunctionsV::NSort(name) => {
            if exists|i: int| field_at(fields, name, i) {
                let i = choose|i: int| field_at(fields, name, i);
                lemma_sort_rows_match(b1, b2, i, true, false);
            }
        },
        FunctionsV::ReverseNSort(name) => {
            if exists|i: int| field_at(fields, name, i) {
                let i = choose|i: int| field_at(fields, name, i);
                lemma_sort_rows_match(b1, b2, i, true, true);
            }
        },
        FunctionsV::Head(k) => {
            let d1 = if k < b1.len() {
                k as int
            } else {
                b1.len() as int
            };
            let d2 = if k < b2.len() {
                k as int
            } else {
                b2.len() as int
            };
            assert(b2.len() == b1.len());
            assert(a1 == b1.skip(d1));
            assert(a2 == b2.skip(d2));
            assert(d1 == d2);
            assert forall|i: int| 0 <= i < a1.len() implies (#[trigger] a1[i])@ == a2[i]@ by {
                assert(a1[i] == b1.skip(d1)[i]);
                assert(b1.skip(d1)[i] == b1[d1 + i]);
                assert(a2[i] == b2.skip(d1)[i]);
                assert(b2.skip(d1)[i] == b2[d1 + i]);
            }
        },
        FunctionsV::Tail(k) => {
            let d1 = b1.len() - (if k < b1.len() {
                k as int
            } else {
                b1.len() as int
            });
            let d2 = b2.len() - (if k < b2.len() {
                k as int
            } else {
                b2.len() as int
            });
            assert(b2.len() == b1.len());
            assert(a1 == b1.skip(d1));
            assert(a2 == b2.skip(d2));
            assert(d1 == d2);
            assert forall|i: int| 0 <= i < a1.len() implies (#[trigger] a1[i])@ == a2[i]@ by {
                assert(a1[i] == b1.skip(d1)[i]);
                assert(b1.skip(d1)[i] == b1[d1 + i]);
                assert(a2[i] == b2.skip(d1)[i]);
                assert(b2.skip(d1)[i] == b2[d1 + i]);
            }
        },
    }
}

/// A whole chain maps row sets that hold the same cells to row sets that
/// hold the same cells.
proof fn lemma_fcall_post_match(
    fc: FunctionCallV,
    fields: Seq<String>,
    b1: Seq<Vec<String>>,
    a1: Seq<Vec<String>>,
    b2: Seq<Vec<String>>,
    a2: Seq<Vec<String>>,
)
    requires
        fcall_post(fc, fields, b1, a1),
        fcall_post(fc, fields, b2, a2),
        rows_views_match(b1, b2),
    ensures
        rows_views_match(a1, a2),
    decreases fc,
{
    match fc.function {
        Some(f) => match fc.function_call {
            Some(rest) => {
                let m1 = choose|m1: Seq<Vec<String>>|
                    #[trigger] run_post(f, fields, b1, m1) && fcall_post(*rest, fields, m1, a1);
                let m2 = choose|m2: Seq<Vec<String>>|
                    #[trigger] run_post(f, fields, b2, m2) && fcall_post(*rest, fields, m2, a2);
                lemma_run_post_match(f, fields, b1, m1, b2, m2);
                lemma_fcall_post_match(*rest, fields, m1, a1, m2, a2);
            },
            Option::None => {
                lemma_run_post_match(f, fields, b1, a1, b2, a2);
            },
        },
        Option::None => match fc.function_call {
            Some(rest) => {
                lemma_fcall_post_match(*rest, fields, b1, a1, b2, a2);
            },
            Option::None => {},
        },
    }
}

/// Running the same `get` against the same table twice yields identical
/// output: the outcome kind, every header text, and every cell text agree.
pub proof fn lemma_get_repeatable(
    gv: GetQueryV,
    fields: Seq<String>,
    rows: Seq<Vec<String>>,
    r1: Option<(Vec<String>, Vec<Vec<String>>)>,
    r2: Option<(Vec<String>, Vec<Vec<String>>)>,
)
    requires
        get_post(gv, fields, rows, r1),
        get_post(gv, fields, rows, r2),
    ensures
        r1 is Some <==> r2 is Some,
        r1 is Some ==> {
            let p1 = r1.unwrap();
            let p2 = r2.unwrap();
            &&& p1.0@.len() == p2.0@.len()
            &&& forall|j: int| 0 <= j < p1.0@.len() ==> (#[trigger] p1.0@[j])@ == p2.0@[j]@
            &&& p1.1@.len() == p2.1@.len()
            &&& forall|i: int| 0 <= i < p1.1@.len() ==> (#[trigger] p1.1@[i])@.len() == p2.1@[i]@.len()
            &&& forall|i: int, j: int|
                0 <= i < p1.1@.len() && 0 <= j < p1.1@[i]@.len() ==> ((#[trigger] p1.1@[i]@[j]))@
                    == p2.1@[i]@[j]@
        },
{
    match spec_sel_idxs(gv.selector, fields) {
        Some(idxs) => {
            let p1 = r1.unwrap();
            let p2 = r2.unwrap();
            let fr = spec_filter_rows(gv.where_clause, fields, rows);
            let (start1, work1) = choose|start: Seq<Vec<String>>, work: Seq<Vec<String>>|
                rows_views_match(start, fr) && #[trigger] chain_post_opt(
                    gv.function_call,
                    fields,
                    start,
                    work,
                ) && project_post(idxs, fields, work, p1.0@, p1.1@);
            let (start2, work2) = choose|start: Seq<Vec<String>>, work: Seq<Vec<String>>|
                rows_views_match(start, fr) && #[trigger] chain_post_opt(
                    gv.function_call,
                    fields,
                    start,
                    work,
                ) && project_post(idxs, fields, work, p2.0@, p2.1@);
            assert(rows_views_match(start1, start2));
            match gv.function_call {
                Some(fc) => {
                    lemma_fcall_post_match(fc, fields, start1, work1, start2, work2);
                },
                Option::None => {},
            }
            assert(rows_views_match(work1, work2));
            assert(forall|i: int, j: int|
                0 <= i < p1.1@.len() && 0 <= j < p1.1@[i]@.len() ==> ((#[trigger] p1.1@[i]@[j]))@
                    == p2.1@[i]@[j]@) by {
                assert(forall|i: int|
                    0 <= i < work1.len() ==> (#[trigger] work1[i])@ == work2[i]@);
            }
        },
        Option::None => {},
    }
}

} // verus!
