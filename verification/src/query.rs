//! One whole command: the fixed dispatch over the six command kinds, and
//! its effect on the table.

use vstd::prelude::*;
use crate::aggregate::{AggregationFunctionCall, AggCallV, AggResult, spec_parse_agg, agg_post};
use crate::assign::{AssignmentV, insert_col_post, insert_cols_post};
use crate::commands::{
    GetQuery, GetQueryV, SetQuery, SetQueryV, InsertColumnQuery, InsertColumnQueryV,
    InsertRowQuery, InsertRowQueryV, DeleteQuery, DeleteQueryV, spec_parse_get, spec_parse_set,
    spec_parse_insert_column, spec_parse_insert_row, spec_parse_delete, get_post, set_post,
    insert_row_post, insert_column_post, delete_post,
};
use crate::condition::spec_eval_where;
use crate::value::ParseResult;

verus! {

/// One parsed command: exactly one of the six kinds is present.
#[derive(Debug)]
pub struct Query {
    pub get_query: Option<GetQuery>,
    pub set_query: Option<SetQuery>,
    pub insert_column_query: Option<InsertColumnQuery>,
    pub insert_row_query: Option<InsertRowQuery>,
    pub delete_query: Option<DeleteQuery>,
    pub aggregation_function_call: Option<AggregationFunctionCall>,
}

/// The mathematical content of a command.
pub struct QueryV {
    pub get_query: Option<GetQueryV>,
    pub set_query: Option<SetQueryV>,
    pub insert_column_query: Option<InsertColumnQueryV>,
    pub insert_row_query: Option<InsertRowQueryV>,
    pub delete_query: Option<DeleteQueryV>,
    pub aggregation_function_call: Option<AggCallV>,
}

impl View for Query {
    type V = QueryV;

    open spec fn view(&self) -> QueryV {
        QueryV {
            get_query: match &self.get_query {
                Option::Some(q) => Some(q@),
                Option::None => Option::None,
            },
            set_query: match &self.set_query {
                Option::Some(q) => Some(q@),
                Option::None => Option::None,
            },
            insert_column_query: match &self.insert_column_query {
                Option::Some(q) => Some(q@),
                Option::None => Option::None,
            },
            insert_row_query: match &self.insert_row_query {
                Option::Some(q) => Some(q@),
                Option::None => Option::None,
            },
            delete_query: match &self.delete_query {
                Option::Some(q) => Some(q@),
                Option::None => Option::None,
            },
            aggregation_function_call: match &self.aggregation_function_call {
                Option::Some(q) => Some(q@),
                Option::None => Option::None,
            },
        }
    }
}

impl QueryV {
    /// Well-formed: every held number is in range.
    pub open spec fn wf(self) -> bool {
        &&& match self.get_query {
            Some(q) => q.wf(),
            Option::None => true,
        }
        &&& match self.set_query {
            Some(q) => q.wf(),
            Option::None => true,
        }
        &&& match self.insert_column_query {
            Some(q) => q.wf(),
            Option::None => true,
        }
        &&& match self.insert_row_query {
            Some(q) => q.wf(),
            Option::None => true,
        }
        &&& match self.delete_query {
            Some(q) => q.wf(),
            Option::None => true,
        }
        &&& match self.aggregation_function_call {
            Some(q) => q.wf(),
            Option::None => true,
        }
    }
}

/// What one command run returns to the caller: nothing visible, the `get`
/// header and rows, one aggregated value, a frequency table, a rejected
/// line, or no recognized command at all.
#[derive(Debug)]
pub enum QueryOutput {
    Done,
    Rows(Vec<String>, Vec<Vec<String>>),
    Value(String),
    Counter(Vec<(String, usize)>),
    SyntaxError,
    NoCommand,
}

/// The command the lexemes denote: the six parsers are tried in a fixed
/// order, and the first one that matches or rejects decides.
pub open spec fn spec_parse_query(lex: Seq<String>) -> ParseResult<QueryV> {
    match spec_parse_get(lex) {
        ParseResult::Matched(g) => ParseResult::Matched(
            QueryV {
                get_query: Some(g),
                set_query: Option::None,
                insert_column_query: Option::None,
                insert_row_query: Option::None,
                delete_query: Option::None,
                aggregation_function_call: Option::None,
            },
        ),
        ParseResult::SyntaxError => ParseResult::SyntaxError,
        ParseResult::Absent => match spec_parse_set(lex) {
            ParseResult::Matched(q) => ParseResult::Matched(
                QueryV {
                    get_query: Option::None,
                    set_query: Some(q),
                    insert_column_query: Option::None,
                    insert_row_query: Option::None,
                    delete_query: Option::None,
                    aggregation_function_call: Option::None,
                },
            ),
            ParseResult::SyntaxError => ParseResult::SyntaxError,
            ParseResult::Absent => match spec_parse_insert_column(lex) {
                ParseResult::Matched(q) => ParseResult::Matched(
                    QueryV {
                        get_query: Option::None,
                        set_query: Option::None,
                        insert_column_query: Some(q),
                        insert_row_query: Option::None,
                        delete_query: Option::None,
                        aggregation_function_call: Option::None,
                    },
                ),
                ParseResult::SyntaxError => ParseResult::SyntaxError,
                ParseResult::Absent => match spec_parse_insert_row(lex) {
                    ParseResult::Matched(q) => ParseResult::Matched(
                        QueryV {
                            get_query: Option::None,
                            set_query: Option::None,
                            insert_column_query: Option::None,
                            insert_row_query: Some(q),
                            delete_query: Option::None,
                            aggregation_function_call: Option::None,
                        },
                    ),
                    ParseResult::SyntaxError => ParseResult::SyntaxError,
                    ParseResult::Absent => match spec_parse_delete(lex) {
                        ParseResult::Matched(q) => ParseResult::Matched(
                            QueryV {
                                get_query: Option::None,
                                set_query: Option::None,
                                insert_column_query: Option::None,
                                insert_row_query: Option::None,
                                delete_query: Some(q),
                                aggregation_function_call: Option::None,
                            },
                        ),
                        ParseResult::SyntaxError => ParseResult::SyntaxError,
                        ParseResult::Absent => match spec_parse_agg(lex) {
                            ParseResult::Matched(q) => ParseResult::Matched(
                                QueryV {
                                    get_query: Option::None,
                                    set_query: Option::None,
                                    insert_column_query: Option::None,
                                    insert_row_query: Option::None,
                                    delete_query: Option::None,
                                    aggregation_function_call: Some(q),
                                },
                            ),
                            ParseResult::SyntaxError => ParseResult::SyntaxError,
                            ParseResult::Absent => ParseResult::Absent,
                        },
                    },
                },
            },
        },
    }
}

/// Whether every row has exactly one cell per field.
pub open spec fn table_rect(fields: Seq<String>, rows: Seq<Vec<String>>) -> bool {
    forall|i: int| 0 <= i < rows.len() ==> (#[trigger] rows[i])@.len() == fields.len()
}

/// What running one command does to the table and returns: the command
/// present dispatches to its own effect, and a line with none leaves the
/// table alone.
pub open spec fn query_post(
    qv: QueryV,
    f0: Seq<String>,
    r0: Seq<Vec<String>>,
    f1: Seq<String>,
    r1: Seq<Vec<String>>,
    out: QueryOutput,
) -> bool {
    if qv.get_query is Some {
        &&& f1 == f0
        &&& r1 == r0
        &&& match out {
            QueryOutput::Rows(h, o) => get_post(qv.get_query.unwrap(), f0, r0, Some((h, o))),
            QueryOutput::Done => get_post(qv.get_query.unwrap(), f0, r0, Option::None),
            _ => false,
        }
    } else if qv.set_query is Some {
        &&& f1 == f0
        &&& set_post(qv.set_query.unwrap(), f0, r0, r1)
        &&& out is Done
    } else if qv.insert_column_query is Some {
        &&& insert_column_post(qv.insert_column_query.unwrap(), f0, r0, f1, r1)
        &&& out is Done
    } else if qv.insert_row_query is Some {
        &&& f1 == f0
        &&& insert_row_post(qv.insert_row_query.unwrap(), f0, r0, r1)
        &&& out is Done
    } else if qv.delete_query is Some {
        &&& f1 == f0
        &&& delete_post(qv.delete_query.unwrap(), f0, r0, r1)
        &&& out is Done
    } else if qv.aggregation_function_call is Some {
        &&& f1 == f0
        &&& r1 == r0
        &&& match out {
            QueryOutput::Value(s) => agg_post(
                qv.aggregation_function_call.unwrap(),
                f0,
                r0,
                Some(AggResult::Value(s)),
            ),
            QueryOutput::Counter(p) => agg_post(
                qv.aggregation_function_call.unwrap(),
                f0,
                r0,
                Some(AggResult::Counter(p)),
            ),
            QueryOutput::Done => agg_post(qv.aggregation_function_call.unwrap(), f0, r0, Option::None),
            _ => false,
        }
    } else {
        f1 == f0 && r1 == r0 && out is Done
    }
}

/// Rows kept by a filter keep the common width.
proof fn lemma_filter_width(rows: Seq<Vec<String>>, pred: spec_fn(Vec<String>) -> bool, w: int)
    requires
        forall|i: int| 0 <= i < rows.len() ==> (#[trigger] rows[i])@.len() == w,
    ensures
        forall|i: int|
            0 <= i < rows.filter(pred).len() ==> (#[trigger] rows.filter(pred)[i])@.len() == w,
    decreases rows.len(),
{
    reveal(Seq::filter);
    if rows.len() > 0 {
        assert(forall|i: int|
            0 <= i < rows.drop_last().len() ==> (#[trigger] rows.drop_last()[i])@.len() == w);
        lemma_filter_width(rows.drop_last(), pred, w);
        let sub = rows.drop_last().filter(pred);
        assert forall|i: int|
            0 <= i < rows.filter(pred).len() implies (#[trigger] rows.filter(pred)[i])@.len()
            == w by {
            if pred(rows.last()) {
                assert(rows.filter(pred) == sub.push(rows.last()));
                if i < sub.len() {
                    assert(rows.filter(pred)[i] == sub[i]);
                } else {
                    assert(rows.filter(pred)[i] == rows.last());
                }
            } else {
                assert(rows.filter(pred) == sub);
            }
        }
    }
}

/// Appending columns keeps the table rectangular.
proof fn lemma_insert_cols_rect(
    al: Seq<AssignmentV>,
    conds: Seq<bool>,
    f0: Seq<String>,
    r0: Seq<Vec<String>>,
    f1: Seq<String>,
    r1: Seq<Vec<String>>,
)
    requires
        insert_cols_post(al, conds, f0, r0, f1, r1),
        table_rect(f0, r0),
    ensures
        table_rect(f1, r1),
    decreases al.len(),
{
    if al.len() == 0 {
    } else {
        let (fm, rm) = choose|fm: Seq<String>, rm: Seq<Vec<String>>|
            #[trigger] insert_col_post(al[0], conds, f0, r0, fm, rm) && insert_cols_post(
                al.drop_first(),
                conds,
                fm,
                rm,
                f1,
                r1,
            );
        assert(table_rect(fm, rm));
        lemma_insert_cols_rect(al.drop_first(), conds, fm, rm, f1, r1);
    }
}

impl Query {
    /// Parses one command line: the six parsers are tried in a fixed
    /// order, and the first that matches or rejects decides.
    pub fn parse(lexemes: &Vec<String>) -> (r: ParseResult<Query>)
        ensures
            match spec_parse_query(lexemes@) {
                ParseResult::Matched(qv) => r is Matched && r->Matched_0@ == qv
                    && r->Matched_0@.wf(),
                ParseResult::Absent => r is Absent,
                ParseResult::SyntaxError => r is SyntaxError,
            },
    {
        match GetQuery::parse(lexemes) {
            ParseResult::Matched(q) => {
                return ParseResult::Matched(
                    Query {
                        get_query: Some(q),
                        set_query: None,
                        insert_column_query: None,
                        insert_row_query: None,
                        delete_query: None,
                        aggregation_function_call: None,
                    },
                );
            },
            ParseResult::SyntaxError => {
                return ParseResult::SyntaxError;
            },
            ParseResult::Absent => {},
        }
        match SetQuery::parse(lexemes) {
            ParseResult::Matched(q) => {
                return ParseResult::Matched(
                    Query {
                        get_query: None,
                        set_query: Some(q),
                        insert_column_query: None,
                        insert_row_query: None,
                        delete_query: None,
                        aggregation_function_call: None,
                    },
                );
            },
            ParseResult::SyntaxError => {
                return ParseResult::SyntaxError;
            },
            ParseResult::Absent => {},
        }
        match InsertColumnQuery::parse(lexemes) {
            ParseResult::Matched(q) => {
                return ParseResult::Matched(
                    Query {
                        get_query: None,
                        set_query: None,
                        insert_column_query: Some(q),
                        insert_row_query: None,
                        delete_query: None,
                        aggregation_function_call: None,
                    },
                );
            },
            ParseResult::SyntaxError => {
                return ParseResult::SyntaxError;
            },
            ParseResult::Absent => {},
        }
        match InsertRowQuery::parse(lexemes) {
            ParseResult::Matched(q) => {
                return ParseResult::Matched(
                    Query {
                        get_query: None,
                        set_query: None,
                        insert_column_query: None,
                        insert_row_query: Some(q),
                        delete_query: None,
                        aggregation_function_call: None,
                    },
                );
            },
            ParseResult::SyntaxError => {
                return ParseResult::SyntaxError;
            },
            ParseResult::Absent => {},
        }
        match DeleteQuery::parse(lexemes) {
            ParseResult::Matched(q) => {
                return ParseResult::Matched(
                    Query {
                        get_query: None,
                        set_query: None,
                        insert_column_query: None,
                        insert_row_query: None,
                        delete_query: Some(q),
                        aggregation_function_call: None,
                    },
                );
            },
            ParseResult::SyntaxError => {
                return ParseResult::SyntaxError;
            },
            ParseResult::Absent => {},
        }
        match AggregationFunctionCall::parse(lexemes) {
            ParseResult::Matched(q) => ParseResult::Matched(
                Query {
                    get_query: None,
                    set_query: None,
                    insert_column_query: None,
                    insert_row_query: None,
                    delete_query: None,
                    aggregation_function_call: Some(q),
                },
            ),
            ParseResult::SyntaxError => ParseResult::SyntaxError,
            ParseResult::Absent => ParseResult::Absent,
        }
    }

    /// Runs the command against the table; the first present command kind
    /// acts, and every row's cell count still equals the field count
    /// afterwards.
    pub fn evaluate(&self, fields: &mut Vec<String>, rows: &mut Vec<Vec<String>>) -> (r:
        QueryOutput)
        requires
            self@.wf(),
            table_rect(old(fields)@, old(rows)@),
        ensures
            query_post(self@, old(fields)@, old(rows)@, final(fields)@, final(rows)@, r),
            table_rect(final(fields)@, final(rows)@),
    {
        match &self.get_query {
            Some(q) => {
                let out = q.evaluate(fields, rows);
                return match out {
                    Some(p) => QueryOutput::Rows(p.0, p.1),
                    None => QueryOutput::Done,
                };
            },
            None => {},
        }
        match &self.set_query {
            Some(q) => {
                q.evaluate(fields, rows);
                return QueryOutput::Done;
            },
            None => {},
        }
        match &self.insert_column_query {
            Some(q) => {
                let ghost f0 = fields@;
                let ghost r0 = rows@;
                q.evaluate(fields, rows);
                proof {
                    let conds = choose|conds: Seq<bool>|
                        conds.len() == r0.len() && (forall|i: int|
                            0 <= i < conds.len() ==> conds[i] == crate::commands::spec_row_passes(
                                self@.insert_column_query.unwrap().where_clause,
                                f0,
                                (#[trigger] r0[i])@,
                            )) && insert_cols_post(
                            self@.insert_column_query.unwrap().assign_list,
                            conds,
                            f0,
                            r0,
                            fields@,
                            rows@,
                        );
                    lemma_insert_cols_rect(
                        self@.insert_column_query.unwrap().assign_list,
                        conds,
                        f0,
                        r0,
                        fields@,
                        rows@,
                    );
                }
                return QueryOutput::Done;
            },
            None => {},
        }
        match &self.insert_row_query {
            Some(q) => {
                let ghost r0 = rows@;
                q.evaluate(fields, rows);
                proof {
                    assert forall|i: int|
                        0 <= i < rows@.len() implies (#[trigger] rows@[i])@.len()
                        == fields@.len() by {
                        if i < r0.len() {
                            assert(rows@.take(r0.len() as int)[i] == rows@[i]);
                            assert(r0[i] == rows@[i]);
                        } else {
                            assert(rows@[i] == rows@.last());
                        }
                    }
                }
                return QueryOutput::Done;
            },
            None => {},
        }
        match &self.delete_query {
            Some(q) => {
                let ghost r0 = rows@;
                q.evaluate(fields, rows);
                proof {
                    lemma_filter_width(
                        r0,
                        |r: Vec<String>| !spec_eval_where(
                            self@.delete_query.unwrap().where_clause,
                            fields@,
                            r@,
                        ),
                        fields@.len() as int,
                    );
                }
                return QueryOutput::Done;
            },
            None => {},
        }
        match &self.aggregation_function_call {
            Some(q) => {
                let out = q.evaluate(fields, rows);
                return match out {
                    Some(AggResult::Value(s)) => QueryOutput::Value(s),
                    Some(AggResult::Counter(p)) => QueryOutput::Counter(p),
                    None => QueryOutput::Done,
                };
            },
            None => {},
        }
        QueryOutput::Done
    }
}

} // verus!
