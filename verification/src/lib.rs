//! An embedded query language for flat tabular data: a small command
//! language supporting selection, filtering, sorting, aggregation and
//! in-place mutation of an in-memory table of text cells.

pub mod aggregate;
pub mod assign;
pub mod commands;
pub mod comparison;
pub mod condition;
pub mod csv;
pub mod function;
pub mod lexer;
pub mod modification;
pub mod numeric;
pub mod query;
pub mod strutil;
pub mod value;

use vstd::prelude::*;
use crate::lexer::{lex, spec_lex};
use crate::query::{Query, QueryOutput, QueryV, spec_parse_query, query_post, table_rect};
use crate::value::ParseResult;

verus! {

/// Runs one command line against the table: the line splits into lexemes,
/// the first command kind that matches acts, and the table stays
/// rectangular. A malformed line is rejected without touching the table.
pub fn query(line: String, fields: &mut Vec<String>, rows: &mut Vec<Vec<String>>) -> (r:
    QueryOutput)
    requires
        table_rect(old(fields)@, old(rows)@),
    ensures
        table_rect(final(fields)@, final(rows)@),
        exists|lexemes: Seq<String>|
            #![trigger spec_parse_query(lexemes)]
            lexemes.map_values(|t: String| t@) == spec_lex(line@) && match spec_parse_query(
                lexemes,
            ) {
                ParseResult::Matched(qv) => qv.wf() && query_post(
                    qv,
                    old(fields)@,
                    old(rows)@,
                    final(fields)@,
                    final(rows)@,
                    r,
                ),
                ParseResult::Absent => final(fields)@ == old(fields)@ && final(rows)@ == old(
                    rows,
                )@ && r is NoCommand,
                ParseResult::SyntaxError => final(fields)@ == old(fields)@ && final(rows)@ == old(
                    rows,
                )@ && r is SyntaxError,
            },
{
    let lexemes = lex(line.as_str());
    let out = match Query::parse(&lexemes) {
        ParseResult::Matched(q) => q.evaluate(fields, rows),
        ParseResult::Absent => QueryOutput::NoCommand,
        ParseResult::SyntaxError => QueryOutput::SyntaxError,
    };
    proof {
        assert(lexemes@.map_values(|t: String| t@) == spec_lex(line@));
    }
    out
}

} // verus!
