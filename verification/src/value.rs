//! Values: classifying one lexeme as a literal, a field reference, a
//! number, or a bracketed list.

use vstd::prelude::*;
use crate::numeric::{Number, spec_parse_num, spec_render_num, parse_number_str};
use crate::strutil::str_eq;

verus! {

/// The outcome of trying one grammar construct: it matched, it is absent
/// (the caller may try the next alternative), or it started but is
/// malformed (the whole command is rejected).
pub enum ParseResult<T> {
    Matched(T),
    Absent,
    SyntaxError,
}

/// One parsed value: literal text, a reference to a field by name, a
/// number, a list of texts, or the absent sentinel (an empty literal).
#[derive(Debug, Clone)]
pub enum Value {
    Literal(String),
    FieldName(String),
    Number(Number),
    List(Vec<String>),
    Absent,
}

impl Value {
    /// Well-formed: a held number is in range.
    pub open spec fn wf(self) -> bool {
        match self {
            Value::Number(n) => n.wf(),
            _ => true,
        }
    }
}

/// The text of a quoted literal lexeme: at least the two quotes, and the
/// characters between them.
pub open spec fn spec_parse_literal(s: Seq<char>) -> Option<Seq<char>> {
    if s.len() >= 2 && s[0] == '"' && s[s.len() - 1] == '"' {
        Some(s.subrange(1, s.len() - 1))
    } else {
        Option::None
    }
}

/// The name of a field-reference lexeme: a `$` followed by the name.
pub open spec fn spec_parse_field_name(s: Seq<char>) -> Option<Seq<char>> {
    if s.len() >= 1 && s[0] == '$' {
        Some(s.drop_first())
    } else {
        Option::None
    }
}

/// Extracts the text of a lexeme quoted with double quotes on both ends.
pub fn parse_literal(lexeme: &String) -> (r: Option<String>)
    ensures
        match r {
            Some(t) => spec_parse_literal(lexeme@) == Some(t@),
            Option::None => spec_parse_literal(lexeme@) is None,
        },
{
    let n = lexeme.as_str().unicode_len();
    if n >= 2 && lexeme.as_str().get_char(0) == '"' && lexeme.as_str().get_char(n - 1) == '"' {
        Some(lexeme.as_str().substring_char(1, n - 1).to_owned())
    } else {
        None
    }
}

/// Extracts the field name of a lexeme that begins with `$`.
pub fn parse_field_name(lexeme: &String) -> (r: Option<String>)
    ensures
        match r {
            Some(t) => spec_parse_field_name(lexeme@) == Some(t@),
            Option::None => spec_parse_field_name(lexeme@) is None,
        },
{
    let n = lexeme.as_str().unicode_len();
    if n >= 1 && lexeme.as_str().get_char(0) == '$' {
        let r = lexeme.as_str().substring_char(1, n).to_owned();
        proof {
            assert(lexeme@.subrange(1, lexeme@.len() as int) =~= lexeme@.drop_first());
        }
        Some(r)
    } else {
        None
    }
}

/// Parses a lexeme as a number.
pub fn parse_number(lexeme: &String) -> (r: Option<Number>)
    ensures
        r == spec_parse_num(lexeme@),
        r is Some ==> r.unwrap().wf(),
{
    parse_number_str(lexeme.as_str())
}


/// The length of the leading comma-free run.
pub open spec fn seg_len(s: Seq<char>) -> int
    decreases s.len(),
{
    if s.len() == 0 || s[0] == ',' {
        0
    } else {
        1 + seg_len(s.drop_first())
    }
}

/// The segment length is within the sequence.
pub proof fn lemma_seg_len_bounds(s: Seq<char>)
    ensures
        0 <= seg_len(s) <= s.len(),
    decreases s.len(),
{
    if s.len() > 0 && s[0] != ',' {
        lemma_seg_len_bounds(s.drop_first());
    }
}

/// The comma-separated segments of a sequence; empty segments are kept,
/// and an empty sequence has one empty segment.
pub open spec fn split_commas(s: Seq<char>) -> Seq<Seq<char>>
    decreases s.len(),
    via split_commas_decreases
{
    let l = seg_len(s);
    if l == s.len() {
        seq![s]
    } else {
        seq![s.take(l)] + split_commas(s.skip(l + 1))
    }
}

#[via_fn]
proof fn split_commas_decreases(s: Seq<char>) {
    lemma_seg_len_bounds(s);
}

/// A comma-free run closed by a comma or the end has exactly the segment
/// length.
proof fn lemma_seg_len_pins(s: Seq<char>, j: int)
    requires
        0 <= j <= s.len(),
        forall|p: int| 0 <= p < j ==> s[p] != ',',
        j == s.len() || s[j] == ',',
    ensures
        seg_len(s) == j,
    decreases j,
{
    if j == 0 {
    } else {
        assert(s[0] != ',');
        lemma_seg_len_pins(s.drop_first(), j - 1);
    }
}

/// Whether a lexeme ends with the closing bracket.
pub open spec fn ends_bracket(s: Seq<char>) -> bool {
    s.len() > 0 && s[s.len() - 1] == ']'
}

/// The index of the first lexeme at or after `idx` that ends with `]`,
/// or the total count when there is none.
pub open spec fn list_end(lexemes: Seq<String>, idx: int) -> int
    decreases lexemes.len() - idx when 0 <= idx <= lexemes.len()
{
    if idx >= lexemes.len() {
        idx
    } else if ends_bracket(lexemes[idx]@) {
        idx
    } else {
        list_end(lexemes, idx + 1)
    }
}

/// A bracket-free run of lexemes closed by a bracketed one (or the end)
/// pins `list_end`.
proof fn lemma_list_end_pins(lexemes: Seq<String>, idx: int, j: int)
    requires
        0 <= idx <= j <= lexemes.len(),
        forall|p: int| idx <= p < j ==> !ends_bracket(lexemes[p]@),
        j == lexemes.len() || ends_bracket(lexemes[j]@),
    ensures
        list_end(lexemes, idx) == j,
    decreases j - idx,
{
    if idx < j {
        lemma_list_end_pins(lexemes, idx + 1, j);
    }
}

/// The lexemes from `i` through `e` re-joined on the single space the
/// lexer removed between them.
pub open spec fn list_join(lexemes: Seq<String>, i: int, e: int) -> Seq<char>
    decreases e - i + 1 when e < lexemes.len()
{
    if i > e {
        Seq::empty()
    } else if i == e {
        lexemes[e]@
    } else {
        list_join(lexemes, i, e - 1) + seq![' '] + lexemes[e]@
    }
}

/// How one list element reads: `false` with its text for a quoted literal,
/// `true` with the canonical decimal text for a number, `None` otherwise.
pub open spec fn spec_list_elem(s: Seq<char>) -> Option<(bool, Seq<char>)> {
    match spec_parse_literal(s) {
        Some(lit) => Some((false, lit)),
        Option::None => match spec_parse_num(s) {
            Some(x) => Some((true, spec_render_num(x))),
            Option::None => Option::None,
        },
    }
}

/// Whether every segment reads as a list element and all elements have
/// the same kind as the first.
pub open spec fn spec_list_ok(segs: Seq<Seq<char>>) -> bool {
    forall|i: int|
        0 <= i < segs.len() ==> (#[trigger] spec_list_elem(segs[i])) is Some && spec_list_elem(
            segs[i],
        ).unwrap().0 == spec_list_elem(segs[0]).unwrap().0
}

/// The texts of the list elements.
pub open spec fn spec_list_out(segs: Seq<Seq<char>>) -> Seq<Seq<char>> {
    segs.map_values(|e: Seq<char>| spec_list_elem(e).unwrap().1)
}

/// The list denoted at `idx`: the lexemes through the first one ending in
/// `]` are re-joined on the spaces the lexer removed, the brackets are
/// stripped, and the body splits on commas into elements that must all be
/// literals or all be numbers.
/// `None` when the lexeme does not open a list, no lexeme closes it, or an
/// element is malformed; the index returned is the first unconsumed one.
pub open spec fn spec_parse_list(lexemes: Seq<String>, idx: int) -> Option<(Seq<Seq<char>>, int)> {
    if 0 <= idx < lexemes.len() && lexemes[idx]@.len() > 0 && lexemes[idx]@[0] == '[' {
        let e = list_end(lexemes, idx);
        if e < lexemes.len() {
            let joined = list_join(lexemes, idx, e);
            if joined.len() >= 2 {
                let segs = split_commas(joined.subrange(1, joined.len() - 1));
                if spec_list_ok(segs) {
                    Some((spec_list_out(segs), e + 1))
                } else {
                    Option::None
                }
            } else {
                Option::None
            }
        } else {
            Option::None
        }
    } else {
        Option::None
    }
}

/// Whether the lexeme ends with the closing bracket.
fn lexeme_ends_bracket(s: &str) -> (r: bool)
    ensures
        r == ends_bracket(s@),
{
    let n = s.unicode_len();
    n > 0 && s.get_char(n - 1) == ']'
}

/// Parses a bracketed list starting at `idx`; on success returns the
/// element texts and the first unconsumed index.
#[verifier::loop_isolation(false)]
#[verifier::rlimit(60)]
pub fn parse_list(lexemes: &Vec<String>, idx: usize) -> (r: Option<(Vec<String>, usize)>)
    ensures
        match r {
            Some(p) => spec_parse_list(lexemes@, idx as int) == Some(
                (p.0@.map_values(|v: String| v@), p.1 as int),
            ) && idx < p.1 <= lexemes@.len(),
            Option::None => spec_parse_list(lexemes@, idx as int) is None,
        },
{
    let n = lexemes.len();
    if idx >= n {
        return None;
    }
    let first = &lexemes[idx];
    let fl = first.as_str().unicode_len();
    if fl == 0 || first.as_str().get_char(0) != '[' {
        return None;
    }
    // find the lexeme that closes the list
    let mut e: usize = idx;
    while e < n && !lexeme_ends_bracket(lexemes[e].as_str())
        invariant
            idx <= e <= n,
            forall|p: int| idx <= p < e ==> !ends_bracket(lexemes@[p]@),
        decreases n - e,
    {
        e = e + 1;
    }
    proof {
        lemma_list_end_pins(lexemes@, idx as int, e as int);
    }
    if e == n {
        return None;
    }
    // re-join the consumed lexemes on the removed spaces
    let mut joined = String::new();
    let mut p: usize = idx;
    proof {
        reveal_strlit(" ");
        assert(joined@ =~= list_join(lexemes@, idx as int, idx - 1));
    }
    while p <= e
        invariant
            idx <= p <= e + 1,
            joined@ == list_join(lexemes@, idx as int, p - 1),
        decreases e + 1 - p,
    {
        if p > idx {
            joined.append(" ");
        }
        joined.append(lexemes[p].as_str());
        proof {
            if p > idx {
                assert(joined@ =~= list_join(lexemes@, idx as int, p - 1) + seq![' ']
                    + lexemes@[p as int]@);
            }
        }
        p = p + 1;
    }
    let nj = joined.as_str().unicode_len();
    if nj < 2 {
        return None;
    }
    let body = joined.as_str().substring_char(1, nj - 1).to_owned();
    let ghost bodyv = joined@.subrange(1, joined@.len() - 1);
    let nb = nj - 2;
    proof {
        assert(body@ == bodyv);
        assert(bodyv.len() == nb);
    }
    // split the body on commas, keeping empty segments
    let mut segs: Vec<String> = Vec::new();
    let mut start: usize = 0;
    let mut j: usize = 0;
    proof {
        assert(bodyv.skip(0) =~= bodyv);
        assert(segs@.map_values(|v: String| v@) =~= Seq::<Seq<char>>::empty());
    }
    while j <= nb
        invariant
            0 <= start <= j <= nb + 1,
            start <= nb + 1,
            forall|q: int| start <= q < j && q < nb ==> bodyv[q] != ',',
            start <= nb ==> segs@.map_values(|v: String| v@) + split_commas(
                bodyv.skip(start as int),
            ) == split_commas(bodyv),
            start == nb + 1 ==> segs@.map_values(|v: String| v@) == split_commas(bodyv),
            start == nb + 1 ==> j == nb + 1,
            j == nb + 1 ==> start == nb + 1,
        decreases nb + 1 - j,
    {
        if j == nb || body.as_str().get_char(j) == ',' {
            let seg = body.as_str().substring_char(start, j).to_owned();
            proof {
                let sub = bodyv.skip(start as int);
                let old_map = segs@.map_values(|v: String| v@);
                lemma_seg_len_pins(sub, j - start);
                assert(sub.take(j - start) =~= bodyv.subrange(start as int, j as int));
                assert(seg@ == sub.take(seg_len(sub)));
                assert((segs@.push(seg)).map_values(|v: String| v@) =~= old_map.push(seg@));
                if j == nb {
                    assert(seg_len(sub) == sub.len());
                    assert(sub.take(seg_len(sub)) =~= sub);
                    assert(split_commas(sub) == seq![sub]);
                    assert(old_map.push(seg@) =~= old_map + seq![seg@]);
                } else {
                    assert(sub.skip(j - start + 1) =~= bodyv.skip(j + 1));
                    assert(split_commas(sub) == seq![seg@] + split_commas(bodyv.skip(j + 1)));
                    assert(old_map.push(seg@) + split_commas(bodyv.skip(j + 1)) =~= old_map + (seq![
                        seg@,
                    ] + split_commas(bodyv.skip(j + 1))));
                }
            }
            segs.push(seg);
            start = j + 1;
        }
        j = j + 1;
    }
    let ghost segsv = segs@.map_values(|v: String| v@);
    proof {
        assert(segsv == split_commas(bodyv));
        assert(segsv.len() > 0);
    }
    // classify the elements: all literals or all numbers
    let mut out: Vec<String> = Vec::new();
    let mut numeric = false;
    let mut i: usize = 0;
    while i < segs.len()
        invariant
            0 <= i <= segs@.len(),
            segsv == segs@.map_values(|v: String| v@),
            out@.len() == i,
            forall|q: int|
                0 <= q < i ==> (#[trigger] spec_list_elem(segsv[q])) is Some && spec_list_elem(
                    segsv[q],
                ).unwrap().0 == spec_list_elem(segsv[0]).unwrap().0,
            forall|q: int|
                0 <= q < i ==> (#[trigger] out@[q])@ == spec_list_elem(segsv[q]).unwrap().1,
            i > 0 ==> numeric == spec_list_elem(segsv[0]).unwrap().0,
        decreases segs@.len() - i,
    {
        let kind: bool;
        let text: String;
        match parse_literal(&segs[i]) {
            Some(lit) => {
                kind = false;
                text = lit;
            },
            None => match parse_number(&segs[i]) {
                Some(x) => {
                    kind = true;
                    text = x.render();
                },
                None => {
                    proof {
                        assert(spec_list_elem(segsv[i as int]) is None);
                        assert(!spec_list_ok(segsv));
                    }
                    return None;
                },
            },
        }
        proof {
            assert(spec_list_elem(segsv[i as int]) == Some((kind, text@)));
        }
        if i == 0 {
            numeric = kind;
        } else if kind != numeric {
            proof {
                assert(spec_list_elem(segsv[i as int]).unwrap().0 != spec_list_elem(
                    segsv[0],
                ).unwrap().0);
                assert(!spec_list_ok(segsv));
            }
            return None;
        }
        out.push(text);
        i = i + 1;
    }
    proof {
        assert(spec_list_ok(segsv));
        assert(out@.map_values(|v: String| v@) =~= spec_list_out(segsv));
    }
    Some((out, e + 1))
}


/// The mathematical content of a `Value`.
pub enum ValueV {
    Literal(Seq<char>),
    FieldName(Seq<char>),
    Number(Number),
    List(Seq<Seq<char>>),
    Absent,
}

impl View for Value {
    type V = ValueV;

    open spec fn view(&self) -> ValueV {
        match self {
            Value::Literal(t) => ValueV::Literal(t@),
            Value::FieldName(t) => ValueV::FieldName(t@),
            Value::Number(x) => ValueV::Number(*x),
            Value::List(items) => ValueV::List(items.deep_view()),
            Value::Absent => ValueV::Absent,
        }
    }
}

impl ValueV {
    /// Well-formed: a held number is in range.
    pub open spec fn wf(self) -> bool {
        match self {
            ValueV::Number(n) => n.wf(),
            _ => true,
        }
    }
}


/// The outcome a parser denotes: the construct's content with the first
/// unconsumed index, its absence, or a syntax error.
pub enum ParseOutcome<T> {
    Matched(T, int),
    Absent,
    SyntaxError,
}

/// The value denoted by the lexemes at `i` when read as a right-hand side:
/// a quoted literal (the absent sentinel when empty), a field reference, a
/// number, or a list; with the first unconsumed index.
pub open spec fn spec_rhs_value(lex: Seq<String>, i: int) -> Option<(ValueV, int)> {
    if 0 <= i < lex.len() {
        let s = lex[i]@;
        match spec_parse_literal(s) {
            Some(lit) => if lit.len() == 0 {
                Some((ValueV::Absent, i + 1))
            } else {
                Some((ValueV::Literal(lit), i + 1))
            },
            Option::None => match spec_parse_field_name(s) {
                Some(f) => Some((ValueV::FieldName(f), i + 1)),
                Option::None => match spec_parse_num(s) {
                    Some(x) => Some((ValueV::Number(x), i + 1)),
                    Option::None => match spec_parse_list(lex, i) {
                        Some(p) => Some((ValueV::List(p.0), p.1)),
                        Option::None => Option::None,
                    },
                },
            },
        }
    } else {
        Option::None
    }
}

/// Reads the lexemes at `idx` as a right-hand-side value.
pub fn parse_rhs_value(lexemes: &Vec<String>, idx: usize) -> (r: Option<(Value, usize)>)
    ensures
        match r {
            Some(p) => spec_rhs_value(lexemes@, idx as int) == Some((p.0@, p.1 as int))
                && p.0@.wf() && idx < p.1 <= lexemes@.len(),
            Option::None => spec_rhs_value(lexemes@, idx as int) is None,
        },
{
    if idx >= lexemes.len() {
        return None;
    }
    match parse_literal(&lexemes[idx]) {
        Some(lit) => {
            if lit.as_str().unicode_len() == 0 {
                Some((Value::Absent, idx + 1))
            } else {
                Some((Value::Literal(lit), idx + 1))
            }
        },
        None => match parse_field_name(&lexemes[idx]) {
            Some(f) => Some((Value::FieldName(f), idx + 1)),
            None => match parse_number(&lexemes[idx]) {
                Some(x) => Some((Value::Number(x), idx + 1)),
                None => match parse_list(lexemes, idx) {
                    Some(p) => {
                        proof {
                            assert(p.0@.map_values(|v: String| v@) == p.0.deep_view());
                        }
                        Some((Value::List(p.0), p.1))
                    },
                    None => None,
                },
            },
        },
    }
}

} // verus!
