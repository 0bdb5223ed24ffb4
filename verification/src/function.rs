//! The function chain: row-set transforms (`sort`, `rsort`, `nsort`,
//! `nrsort`, `head`, `tail`) run strictly left to right after filtering.

use vstd::prelude::*;
use vstd::seq_lib::group_to_multiset_ensures;
use crate::numeric::{Number, NumOrder, UNIT, spec_parse_num};
use crate::strutil::{field_at, find_field, lemma_field_at_unique, str_eq};
use crate::value::{ParseResult, ParseOutcome, spec_parse_field_name, parse_field_name};

verus! {

/// One row transform and its parameter.
#[derive(Debug)]
pub enum Functions {
    Sort(String),
    ReverseSort(String),
    NSort(String),
    ReverseNSort(String),
    Head(usize),
    Tail(usize),
}

/// One parsed transform.
#[derive(Debug)]
pub struct Function {
    pub function_name: Functions,
}

/// A chain of transforms, applied left to right.
#[derive(Debug)]
pub struct FunctionCall {
    pub function: Option<Function>,
    pub function_call: Option<Box<FunctionCall>>,
}

/// The mathematical content of a transform.
pub enum FunctionsV {
    Sort(Seq<char>),
    ReverseSort(Seq<char>),
    NSort(Seq<char>),
    ReverseNSort(Seq<char>),
    Head(nat),
    Tail(nat),
}

/// The mathematical content of a chain.
pub struct FunctionCallV {
    pub function: Option<FunctionsV>,
    pub function_call: Option<Box<FunctionCallV>>,
}

impl View for Functions {
    type V = FunctionsV;

    open spec fn view(&self) -> FunctionsV {
        match self {
            Functions::Sort(f) => FunctionsV::Sort(f@),
            Functions::ReverseSort(f) => FunctionsV::ReverseSort(f@),
            Functions::NSort(f) => FunctionsV::NSort(f@),
            Functions::ReverseNSort(f) => FunctionsV::ReverseNSort(f@),
            Functions::Head(n) => FunctionsV::Head(*n as nat),
            Functions::Tail(n) => FunctionsV::Tail(*n as nat),
        }
    }
}

impl View for Function {
    type V = FunctionsV;

    open spec fn view(&self) -> FunctionsV {
        self.function_name@
    }
}

impl View for FunctionCall {
    type V = FunctionCallV;

    open spec fn view(&self) -> FunctionCallV
        decreases self,
    {
        FunctionCallV {
            function: match &self.function {
                Option::Some(f) => Some(f@),
                Option::None => Option::None,
            },
            function_call: match &self.function_call {
                Option::Some(b) => Some(Box::new((**b)@)),
                Option::None => Option::None,
            },
        }
    }
}

impl Functions {
    /// The six transform names.
    pub fn get_available_functions_names() -> (r: Vec<&'static str>)
        ensures
            r@.len() == 6,
            r@[0]@ == "sort"@ && r@[1]@ == "rsort"@ && r@[2]@ == "nsort"@ && r@[3]@ == "nrsort"@
                && r@[4]@ == "head"@ && r@[5]@ == "tail"@,
    {
        let v: Vec<&'static str> = vec!["sort", "rsort", "nsort", "nrsort", "head", "tail"];
        v
    }
}

/// Lexicographic order on character sequences, by code point.
pub open spec fn seq_le(a: Seq<char>, b: Seq<char>) -> bool
    decreases a.len(),
{
    if a.len() == 0 {
        true
    } else if b.len() == 0 {
        false
    } else if a[0] != b[0] {
        (a[0] as int) < (b[0] as int)
    } else {
        seq_le(a.drop_first(), b.drop_first())
    }
}

/// Lexicographic order is total.
pub proof fn lemma_seq_le_total(a: Seq<char>, b: Seq<char>)
    ensures
        seq_le(a, b) || seq_le(b, a),
    decreases a.len(),
{
    if a.len() > 0 && b.len() > 0 && a[0] == b[0] {
        lemma_seq_le_total(a.drop_first(), b.drop_first());
    }
}

/// Decides the lexicographic order on two strings.
#[verifier::loop_isolation(false)]
pub fn str_le(a: &str, b: &str) -> (r: bool)
    ensures
        r == seq_le(a@, b@),
{
    let na = a.unicode_len();
    let nb = b.unicode_len();
    let mut i: usize = 0;
    proof {
        assert(a@.skip(0) =~= a@);
        assert(b@.skip(0) =~= b@);
    }
    while i < na && i < nb
        invariant
            0 <= i <= na,
            0 <= i <= nb,
            forall|p: int| 0 <= p < i ==> a@[p] == b@[p],
            seq_le(a@, b@) == seq_le(a@.skip(i as int), b@.skip(i as int)),
            seq_le(b@, a@) == seq_le(b@.skip(i as int), a@.skip(i as int)),
        decreases na - i,
    {
        let ca = a.get_char(i);
        let cb = b.get_char(i);
        if ca != cb {
            return (ca as u32) < (cb as u32);
        }
        proof {
            assert(a@.skip(i as int).drop_first() =~= a@.skip(i + 1));
            assert(b@.skip(i as int).drop_first() =~= b@.skip(i + 1));
        }
        i = i + 1;
    }
    proof {
        if i >= na {
            assert(a@.skip(i as int).len() == 0);
        } else {
            assert(b@.skip(i as int).len() == 0);
            assert(a@.skip(i as int).len() > 0);
        }
    }
    na <= nb
}

/// The numeric value of a cell, when it parses.
pub open spec fn num_key(s: Seq<char>) -> Option<int> {
    match spec_parse_num(s) {
        Some(x) => Some(x.units()),
        Option::None => Option::None,
    }
}

/// The numeric order of two cells; a cell that does not parse counts as
/// plus infinity, so it sorts after every number and ties with its kind.
pub open spec fn spec_cmp_numbers(a: Seq<char>, b: Seq<char>) -> NumOrder {
    match num_key(a) {
        Option::None => match num_key(b) {
            Option::None => NumOrder::Equal,
            Some(_) => NumOrder::Greater,
        },
        Some(x) => match num_key(b) {
            Option::None => NumOrder::Less,
            Some(y) => if x < y {
                NumOrder::Less
            } else if x == y {
                NumOrder::Equal
            } else {
                NumOrder::Greater
            },
        },
    }
}

/// Whether `a` must come after `b` under the selected ordering. In the
/// reverse numeric order only the parsing cells reverse: a cell that does
/// not parse still counts as plus infinity and sorts last either way.
pub open spec fn sort_gt(numeric: bool, reverse: bool, a: Seq<char>, b: Seq<char>) -> bool {
    if numeric {
        if reverse {
            match num_key(a) {
                Option::None => num_key(b) is Some,
                Some(x) => match num_key(b) {
                    Option::None => false,
                    Some(y) => x < y,
                },
            }
        } else {
            spec_cmp_numbers(a, b) == NumOrder::Greater
        }
    } else {
        if reverse {
            !seq_le(b, a)
        } else {
            !seq_le(a, b)
        }
    }
}

/// The orderings are antisymmetric: a cell pair never must-come-after in
/// both directions.
pub proof fn lemma_sort_gt_asym(numeric: bool, reverse: bool, a: Seq<char>, b: Seq<char>)
    requires
        sort_gt(numeric, reverse, a, b),
    ensures
        !sort_gt(numeric, reverse, b, a),
{
    if !numeric {
        lemma_seq_le_total(a, b);
    }
}

impl Function {
    /// The numeric cell order used by `nsort`; an unparseable cell counts
    /// as plus infinity.
    pub fn compaire_numbers(&self, a: &String, b: &String) -> (r: NumOrder)
        ensures
            r == spec_cmp_numbers(a@, b@),
    {
        let an = crate::value::parse_number(a);
        let bn = crate::value::parse_number(b);
        match an {
            None => match bn {
                None => NumOrder::Equal,
                Some(_) => NumOrder::Greater,
            },
            Some(x) => match bn {
                None => NumOrder::Less,
                Some(y) => x.cmp(y),
            },
        }
    }
}

/// Decides whether row `a`'s cell must come after row `b`'s under the
/// selected ordering.
fn gt_cells(a: &Vec<String>, b: &Vec<String>, idx: usize, numeric: bool, reverse: bool) -> (r:
    bool)
    requires
        idx < a@.len(),
        idx < b@.len(),
    ensures
        r == sort_gt(numeric, reverse, a@[idx as int]@, b@[idx as int]@),
{
    let ka = &a[idx];
    let kb = &b[idx];
    if numeric {
        let an = crate::value::parse_number(ka);
        let bn = crate::value::parse_number(kb);
        if reverse {
            match an {
                None => bn.is_some(),
                Some(x) => match bn {
                    None => false,
                    Some(y) => x.cmp(y) == NumOrder::Less,
                },
            }
        } else {
            let ord = match an {
                None => match bn {
                    None => NumOrder::Equal,
                    Some(_) => NumOrder::Greater,
                },
                Some(x) => match bn {
                    None => NumOrder::Less,
                    Some(y) => x.cmp(y),
                },
            };
            ord == NumOrder::Greater
        }
    } else {
        if reverse {
            !str_le(kb.as_str(), ka.as_str())
        } else {
            !str_le(ka.as_str(), kb.as_str())
        }
    }
}

/// Where a stable insertion places a row in an already ordered run: after
/// every row it need not precede.
pub open spec fn insert_pos(
    s: Seq<Vec<String>>,
    x: Vec<String>,
    idx: int,
    numeric: bool,
    reverse: bool,
) -> int
    decreases s.len(),
{
    if s.len() == 0 || !sort_gt(numeric, reverse, s.last()@[idx]@, x@[idx]@) {
        s.len() as int
    } else {
        insert_pos(s.drop_last(), x, idx, numeric, reverse)
    }
}

/// The rows in stable sorted order: each row, in turn, inserted after the
/// ordered rows it need not precede.
pub open spec fn spec_sort_rows(
    rows: Seq<Vec<String>>,
    idx: int,
    numeric: bool,
    reverse: bool,
) -> Seq<Vec<String>>
    decreases rows.len(),
{
    if rows.len() == 0 {
        rows
    } else {
        let sorted = spec_sort_rows(rows.drop_last(), idx, numeric, reverse);
        sorted.insert(insert_pos(sorted, rows.last(), idx, numeric, reverse), rows.last())
    }
}

/// A scan from the right that stops at the first row not ordered after the
/// new one pins the insertion position.
proof fn lemma_insert_pos_pins(
    s: Seq<Vec<String>>,
    x: Vec<String>,
    idx: int,
    numeric: bool,
    reverse: bool,
    j: int,
)
    requires
        0 <= j <= s.len(),
        forall|k: int| j <= k < s.len() ==> sort_gt(numeric, reverse, (#[trigger] s[k])@[idx]@, x@[idx]@),
        j == 0 || !sort_gt(numeric, reverse, s[j - 1]@[idx]@, x@[idx]@),
    ensures
        insert_pos(s, x, idx, numeric, reverse) == j,
    decreases s.len(),
{
    if j == s.len() {
    } else {
        lemma_insert_pos_pins(s.drop_last(), x, idx, numeric, reverse, j);
    }
}

/// Whether adjacent rows are ordered by the cell at `idx`.
pub open spec fn sorted_rows(rows: Seq<Vec<String>>, idx: int, numeric: bool, reverse: bool) -> bool {
    forall|p: int|
        0 <= p < rows.len() - 1 ==> !sort_gt(
            numeric,
            reverse,
            (#[trigger] rows[p])@[idx]@,
            rows[p + 1]@[idx]@,
        )
}

/// Sorts the rows by the cell at `idx` with a stable insertion sort.
#[verifier::loop_isolation(false)]
#[verifier::rlimit(60)]
fn sort_rows(rows: &mut Vec<Vec<String>>, idx: usize, numeric: bool, reverse: bool)
    requires
        forall|i: int| 0 <= i < old(rows)@.len() ==> idx < (#[trigger] old(rows)@[i])@.len(),
    ensures
        final(rows)@.len() == old(rows)@.len(),
        final(rows)@.to_multiset() == old(rows)@.to_multiset(),
        forall|i: int| 0 <= i < final(rows)@.len() ==> idx < (#[trigger] final(rows)@[i])@.len(),
        sorted_rows(final(rows)@, idx as int, numeric, reverse),
        final(rows)@ == spec_sort_rows(old(rows)@, idx as int, numeric, reverse),
{
    proof {
        broadcast use group_to_multiset_ensures;
    }
    let ghost orig = rows@;
    let n = rows.len();
    if n == 0 {
        return ;
    }
    if n == 1 {
        proof {
            assert(spec_sort_rows(Seq::<Vec<String>>::empty(), idx as int, numeric, reverse)
                =~= Seq::<Vec<String>>::empty());
            assert(orig.drop_last() =~= Seq::<Vec<String>>::empty());
            assert(spec_sort_rows(orig, idx as int, numeric, reverse) =~= orig);
        }
        return ;
    }
    let mut i: usize = 1;
    proof {
        assert(spec_sort_rows(Seq::<Vec<String>>::empty(), idx as int, numeric, reverse)
            =~= Seq::<Vec<String>>::empty());
        assert(orig.take(1).drop_last() =~= Seq::<Vec<String>>::empty());
        assert(spec_sort_rows(orig.take(1), idx as int, numeric, reverse) =~= orig.take(1));
        assert(rows@.take(1) =~= orig.take(1));
        assert(rows@.skip(1) =~= orig.skip(1));
    }
    while i < n
        invariant
            1 <= i <= n,
            rows@.len() == n,
            rows@.to_multiset() == orig.to_multiset(),
            forall|k: int| 0 <= k < n ==> idx < (#[trigger] rows@[k])@.len(),
            forall|p: int|
                0 <= p < i - 1 ==> !sort_gt(
                    numeric,
                    reverse,
                    (#[trigger] rows@[p])@[idx as int]@,
                    rows@[p + 1]@[idx as int]@,
                ),
            rows@.take(i as int) == spec_sort_rows(orig.take(i as int), idx as int, numeric, reverse),
            rows@.skip(i as int) == orig.skip(i as int),
        decreases n - i,
    {
        let ghost prev = rows@;
        let x = rows.remove(i);
        let ghost s1 = rows@;
        proof {
            assert(forall|k: int| 0 <= k < i ==> s1[k] == prev[k]);
            assert(forall|k: int| i <= k < s1.len() ==> s1[k] == prev[k + 1]);
        }
        let mut j: usize = i;
        while j > 0 && gt_cells(&rows[j - 1], &x, idx, numeric, reverse)
            invariant
                0 <= j <= i,
                rows@ == s1,
                forall|k: int|
                    j <= k < i ==> sort_gt(
                        numeric,
                        reverse,
                        (#[trigger] s1[k])@[idx as int]@,
                        x@[idx as int]@,
                    ),
            decreases j,
        {
            j = j - 1;
        }
        rows.insert(j, x);
        proof {
            let cur = rows@;
            s1.insert_ensures(j as int, x);
            assert(cur.to_multiset() == s1.to_multiset().insert(x));
            assert(s1.to_multiset() == prev.to_multiset().remove(prev[i as int]));
            assert(prev.to_multiset().count(x) > 0) by {
                assert(prev.contains(x));
            }
            assert(cur.to_multiset() =~= prev.to_multiset());
            // the prefix grows exactly as the stable insertion demands
            let prefix = prev.take(i as int);
            assert(x == orig[i as int]) by {
                assert(prev.skip(i as int)[0] == prev[i as int]);
                assert(orig.skip(i as int)[0] == orig[i as int]);
            }
            assert(forall|k: int| j <= k < i ==> sort_gt(
                numeric,
                reverse,
                (#[trigger] prefix[k])@[idx as int]@,
                x@[idx as int]@,
            ));
            lemma_insert_pos_pins(prefix, x, idx as int, numeric, reverse, j as int);
            prefix.insert_ensures(j as int, x);
            assert(cur.take(i + 1) =~= prefix.insert(j as int, x));
            assert(orig.take(i + 1).drop_last() =~= orig.take(i as int));
            assert(orig.take(i + 1).last() == orig[i as int]);
            assert(spec_sort_rows(orig.take(i + 1), idx as int, numeric, reverse) == prefix.insert(
                j as int,
                x,
            ));
            assert(cur.skip(i + 1) =~= orig.skip(i + 1)) by {
                assert(forall|p: int|
                    i + 1 <= p < cur.len() ==> cur[p] == s1[p - 1] && s1[p - 1] == prev[p]);
                assert(forall|p: int|
                    i + 1 <= p < cur.len() ==> prev.skip(i as int)[p - i] == prev[p] && orig.skip(
                        i as int,
                    )[p - i] == orig[p]);
            }
            // every adjacent pair of the grown prefix is ordered
            assert forall|p: int|
                0 <= p < i implies !sort_gt(
                    numeric,
                    reverse,
                    (#[trigger] cur[p])@[idx as int]@,
                    cur[p + 1]@[idx as int]@,
                ) by {
                if 0 <= p < i {
                    if p < j - 1 {
                        assert(cur[p] == prev[p] && cur[p + 1] == prev[p + 1]);
                    } else if p == j - 1 {
                        assert(cur[p] == prev[p] && cur[p + 1] == x);
                    } else if p == j {
                        if (j as int) < i {
                            assert(cur[p] == x && cur[p + 1] == s1[j as int]);
                            assert(s1[j as int] == prev[j as int]);
                            lemma_sort_gt_asym(
                                numeric,
                                reverse,
                                prev[j as int]@[idx as int]@,
                                x@[idx as int]@,
                            );
                        }
                    } else {
                        assert(cur[p] == s1[p - 1] && cur[p + 1] == s1[p]);
                        assert(s1[p - 1] == prev[p - 1] && s1[p] == prev[p]);
                    }
                }
            }
        }
        i = i + 1;
    }
    proof {
        assert(rows@.take(n as int) =~= rows@);
        assert(orig.take(n as int) =~= orig);
    }
}

/// Removes the first `k` rows.
#[verifier::loop_isolation(false)]
fn drop_front(rows: &mut Vec<Vec<String>>, k: usize)
    requires
        k <= old(rows)@.len(),
    ensures
        final(rows)@ == old(rows)@.skip(k as int),
{
    let ghost orig = rows@;
    let mut t: usize = 0;
    proof {
        assert(orig.skip(0) =~= orig);
    }
    while t < k
        invariant
            0 <= t <= k,
            rows@ == orig.skip(t as int),
        decreases k - t,
    {
        rows.remove(0);
        proof {
            assert(orig.skip(t as int).remove(0) =~= orig.skip(t + 1));
        }
        t = t + 1;
    }
}

/// What one transform does to the working row set: the four sorts rearrange
/// it into exactly the stable order of the key (an unknown field leaves it
/// unchanged), `head` removes the first `n` rows, and `tail` keeps the
/// last `n`.
pub open spec fn sort_post(
    numeric: bool,
    reverse: bool,
    fname: Seq<char>,
    fields: Seq<String>,
    before: Seq<Vec<String>>,
    after: Seq<Vec<String>>,
) -> bool {
    if exists|i: int| field_at(fields, fname, i) {
        let i = choose|i: int| field_at(fields, fname, i);
        &&& after == spec_sort_rows(before, i, numeric, reverse)
        &&& after.len() == before.len()
        &&& after.to_multiset() == before.to_multiset()
        &&& sorted_rows(after, i, numeric, reverse)
    } else {
        after == before
    }
}

/// What one transform does to the working row set.
pub open spec fn run_post(
    f: FunctionsV,
    fields: Seq<String>,
    before: Seq<Vec<String>>,
    after: Seq<Vec<String>>,
) -> bool {
    match f {
        FunctionsV::Sort(name) => sort_post(false, false, name, fields, before, after),
        FunctionsV::ReverseSort(name) => sort_post(false, true, name, fields, before, after),
        FunctionsV::NSort(name) => sort_post(true, false, name, fields, before, after),
        FunctionsV::ReverseNSort(name) => sort_post(true, true, name, fields, before, after),
        FunctionsV::Head(k) => after == before.skip(
            if k < before.len() {
                k as int
            } else {
                before.len() as int
            },
        ),
        FunctionsV::Tail(k) => after == before.skip(
            before.len() - (if k < before.len() {
                k as int
            } else {
                before.len() as int
            }),
        ),
    }
}

impl Function {
    /// Applies the transform to the working row set.
    pub fn run(&self, fields: &Vec<String>, rows: &mut Vec<Vec<String>>)
        requires
            forall|i: int|
                0 <= i < old(rows)@.len() ==> (#[trigger] old(rows)@[i])@.len() == fields@.len(),
        ensures
            run_post(self@, fields@, old(rows)@, final(rows)@),
            forall|i: int|
                0 <= i < final(rows)@.len() ==> (#[trigger] final(rows)@[i])@.len()
                    == fields@.len(),
    {
        proof {
            broadcast use group_to_multiset_ensures;
        }
        let ghost before = rows@;
        match &self.function_name {
            Functions::Sort(f) => {
                match find_field(fields, f.as_str()) {
                    Some(i) => {
                        proof {
                            let c = choose|k: int| field_at(fields@, f@, k);
                            lemma_field_at_unique(fields@, f@, i as int, c);
                        }
                        sort_rows(rows, i, false, false);
                        proof {
                            lemma_rows_width(before, rows@, fields@.len() as int);
                        }
                    },
                    None => {},
                }
            },
            Functions::ReverseSort(f) => {
                match find_field(fields, f.as_str()) {
                    Some(i) => {
                        proof {
                            let c = choose|k: int| field_at(fields@, f@, k);
                            lemma_field_at_unique(fields@, f@, i as int, c);
                        }
                        sort_rows(rows, i, false, true);
                        proof {
                            lemma_rows_width(before, rows@, fields@.len() as int);
                        }
                    },
                    None => {},
                }
            },
            Functions::NSort(f) => {
                match find_field(fields, f.as_str()) {
                    Some(i) => {
                        proof {
                            let c = choose|k: int| field_at(fields@, f@, k);
                            lemma_field_at_unique(fields@, f@, i as int, c);
                        }
                        sort_rows(rows, i, true, false);
                        proof {
                            lemma_rows_width(before, rows@, fields@.len() as int);
                        }
                    },
                    None => {},
                }
            },
            Functions::ReverseNSort(f) => {
                match find_field(fields, f.as_str()) {
                    Some(i) => {
                        proof {
                            let c = choose|k: int| field_at(fields@, f@, k);
                            lemma_field_at_unique(fields@, f@, i as int, c);
                        }
                        sort_rows(rows, i, true, true);
                        proof {
                            lemma_rows_width(before, rows@, fields@.len() as int);
                        }
                    },
                    None => {},
                }
            },
            Functions::Head(n) => {
                let k = if *n < rows.len() {
                    *n
                } else {
                    rows.len()
                };
                drop_front(rows, k);
            },
            Functions::Tail(n) => {
                let k = if *n < rows.len() {
                    *n
                } else {
                    rows.len()
                };
                let d = rows.len() - k;
                drop_front(rows, d);
            },
        }
    }
}

/// Rows drawn from the same multiset keep the common width.
proof fn lemma_rows_width(a: Seq<Vec<String>>, b: Seq<Vec<String>>, w: int)
    requires
        a.to_multiset() == b.to_multiset(),
        forall|i: int| 0 <= i < a.len() ==> (#[trigger] a[i])@.len() == w,
    ensures
        forall|i: int| 0 <= i < b.len() ==> (#[trigger] b[i])@.len() == w,
{
    broadcast use group_to_multiset_ensures;

    assert forall|i: int| 0 <= i < b.len() implies (#[trigger] b[i])@.len() == w by {
        assert(b.contains(b[i]));
        assert(b.to_multiset().count(b[i]) > 0);
        assert(a.to_multiset().count(b[i]) > 0);
        assert(a.contains(b[i]));
        let j = choose|j: int| 0 <= j < a.len() && a[j] == b[i];
        assert(a[j]@.len() == w);
    }
}


/// Whether a lexeme names a transform.
pub open spec fn spec_is_function_name(s: Seq<char>) -> bool {
    s == "sort"@ || s == "rsort"@ || s == "nsort"@ || s == "nrsort"@ || s == "head"@ || s
        == "tail"@
}

/// A numeric parameter rounded to a whole row count, halves away from
/// zero; negative values give zero and the count clamps at the machine
/// limit.
pub open spec fn spec_round_count(x: Number) -> int {
    let r = if x.neg {
        0int
    } else {
        ((x.mag + UNIT as int / 2) / (UNIT as int))
    };
    if r > usize::MAX as int {
        usize::MAX as int
    } else {
        r
    }
}

/// The field a transform parameter names: its text, with a leading `$`
/// stripped when present.
pub open spec fn spec_param_field(s: Seq<char>) -> Seq<char> {
    match spec_parse_field_name(s) {
        Some(f) => f,
        Option::None => s,
    }
}

/// The transform the lexemes denote at `idx`: a transform name and one
/// parameter, a field name (bare or `$`-prefixed) for the sorts and a
/// number for `head`/`tail`.
pub open spec fn spec_parse_function(lex: Seq<String>, idx: int) -> ParseOutcome<FunctionsV> {
    if !(0 <= idx < lex.len()) {
        ParseOutcome::Absent
    } else {
        let s = lex[idx]@;
        if !spec_is_function_name(s) {
            ParseOutcome::SyntaxError
        } else if !(idx + 1 < lex.len()) {
            ParseOutcome::SyntaxError
        } else {
            match spec_parse_num(lex[idx + 1]@) {
                Some(x) => if s == "head"@ {
                    ParseOutcome::Matched(FunctionsV::Head(spec_round_count(x) as nat), idx + 2)
                } else if s == "tail"@ {
                    ParseOutcome::Matched(FunctionsV::Tail(spec_round_count(x) as nat), idx + 2)
                } else {
                    ParseOutcome::SyntaxError
                },
                Option::None => {
                    let f = spec_param_field(lex[idx + 1]@);
                    if s == "sort"@ {
                        ParseOutcome::Matched(FunctionsV::Sort(f), idx + 2)
                    } else if s == "rsort"@ {
                        ParseOutcome::Matched(FunctionsV::ReverseSort(f), idx + 2)
                    } else if s == "nsort"@ {
                        ParseOutcome::Matched(FunctionsV::NSort(f), idx + 2)
                    } else if s == "nrsort"@ {
                        ParseOutcome::Matched(FunctionsV::ReverseNSort(f), idx + 2)
                    } else {
                        ParseOutcome::SyntaxError
                    }
                },
            }
        }
    }
}

/// Reads a transform parameter as a field name, bare or `$`-prefixed.
fn param_field(lexeme: &String) -> (r: String)
    ensures
        r@ == spec_param_field(lexeme@),
{
    match parse_field_name(lexeme) {
        Some(f) => f,
        None => lexeme.clone(),
    }
}

/// Rounds a numeric parameter to a row count.
fn round_count(x: Number) -> (r: usize)
    requires
        x.wf(),
    ensures
        r as int == spec_round_count(x),
{
    let w = x.round_to_u64();
    if w > usize::MAX as u64 {
        usize::MAX
    } else {
        w as usize
    }
}

/// Tests whether a lexeme names a transform.
pub(crate) fn is_function_name(lexeme: &String) -> (r: bool)
    ensures
        r == spec_is_function_name(lexeme@),
{
    let s = lexeme.as_str();
    str_eq(s, "sort") || str_eq(s, "rsort") || str_eq(s, "nsort") || str_eq(s, "nrsort") || str_eq(
        s,
        "head",
    ) || str_eq(s, "tail")
}

impl Function {
    /// Parses one transform at `idx`; the index returned is the first
    /// unconsumed one on a match, and `idx` itself otherwise.
    pub fn parse(lexemes: &Vec<String>, idx: usize) -> (r: (ParseResult<Function>, usize))
        ensures
            match spec_parse_function(lexemes@, idx as int) {
                ParseOutcome::Matched(fv, nx) => r.0 is Matched && (r.0)->Matched_0@ == fv && r.1
                    == nx && r.1 > idx,
                ParseOutcome::Absent => r.0 is Absent && r.1 == idx,
                ParseOutcome::SyntaxError => r.0 is SyntaxError && r.1 == idx,
            },
    {
        if idx >= lexemes.len() {
            return (ParseResult::Absent, idx);
        }
        let s = lexemes[idx].as_str();
        let is_sort = str_eq(s, "sort");
        let is_rsort = str_eq(s, "rsort");
        let is_nsort = str_eq(s, "nsort");
        let is_nrsort = str_eq(s, "nrsort");
        let is_head = str_eq(s, "head");
        let is_tail = str_eq(s, "tail");
        if !(is_sort || is_rsort || is_nsort || is_nrsort || is_head || is_tail) {
            return (ParseResult::SyntaxError, idx);
        }
        if idx + 1 >= lexemes.len() {
            return (ParseResult::SyntaxError, idx);
        }
        match crate::value::parse_number(&lexemes[idx + 1]) {
            Some(x) => {
                let k = round_count(x);
                if is_head {
                    (
                        ParseResult::Matched(Function { function_name: Functions::Head(k) }),
                        idx + 2,
                    )
                } else if is_tail {
                    (
                        ParseResult::Matched(Function { function_name: Functions::Tail(k) }),
                        idx + 2,
                    )
                } else {
                    (ParseResult::SyntaxError, idx)
                }
            },
            None => {
                let f = param_field(&lexemes[idx + 1]);
                if is_sort {
                    (ParseResult::Matched(Function { function_name: Functions::Sort(f) }), idx + 2)
                } else if is_rsort {
                    (
                        ParseResult::Matched(
                            Function { function_name: Functions::ReverseSort(f) },
                        ),
                        idx + 2,
                    )
                } else if is_nsort {
                    (
                        ParseResult::Matched(Function { function_name: Functions::NSort(f) }),
                        idx + 2,
                    )
                } else if is_nrsort {
                    (
                        ParseResult::Matched(
                            Function { function_name: Functions::ReverseNSort(f) },
                        ),
                        idx + 2,
                    )
                } else {
                    (ParseResult::SyntaxError, idx)
                }
            },
        }
    }
}

/// What a whole chain does to the working row set: each transform's effect
/// composed left to right.
pub open spec fn fcall_post(
    fc: FunctionCallV,
    fields: Seq<String>,
    before: Seq<Vec<String>>,
    after: Seq<Vec<String>>,
) -> bool
    decreases fc,
{
    match fc.function {
        Some(f) => match fc.function_call {
            Some(rest) => exists|mid: Seq<Vec<String>>|
                #[trigger] run_post(f, fields, before, mid) && fcall_post(*rest, fields, mid, after),
            Option::None => run_post(f, fields, before, after),
        },
        Option::None => match fc.function_call {
            Some(rest) => fcall_post(*rest, fields, before, after),
            Option::None => after == before,
        },
    }
}

/// The chain the lexemes denote at `idx`: one transform after another
/// until the lexemes end.
pub open spec fn spec_parse_fcall(lex: Seq<String>, idx: int) -> ParseOutcome<FunctionCallV>
    decreases lex.len() - idx,
{
    if !(0 <= idx < lex.len()) {
        ParseOutcome::Absent
    } else {
        match spec_parse_function(lex, idx) {
            ParseOutcome::Matched(f, mid) => if idx < mid {
                match spec_parse_fcall(lex, mid) {
                    ParseOutcome::Matched(fc, nx) => ParseOutcome::Matched(
                        FunctionCallV {
                            function: Some(f),
                            function_call: Some(Box::new(fc)),
                        },
                        nx,
                    ),
                    ParseOutcome::Absent => ParseOutcome::Matched(
                        FunctionCallV { function: Some(f), function_call: Option::None },
                        mid,
                    ),
                    ParseOutcome::SyntaxError => ParseOutcome::SyntaxError,
                }
            } else {
                ParseOutcome::SyntaxError
            },
            ParseOutcome::Absent => ParseOutcome::Absent,
            ParseOutcome::SyntaxError => ParseOutcome::SyntaxError,
        }
    }
}

impl FunctionCall {
    /// Parses a chain of transforms at `idx`.
    pub fn parse(lexemes: &Vec<String>, idx: usize) -> (r: (ParseResult<FunctionCall>, usize))
        ensures
            match spec_parse_fcall(lexemes@, idx as int) {
                ParseOutcome::Matched(fv, nx) => r.0 is Matched && (r.0)->Matched_0@ == fv && r.1
                    == nx && r.1 > idx,
                ParseOutcome::Absent => r.0 is Absent && r.1 == idx,
                ParseOutcome::SyntaxError => r.0 is SyntaxError && r.1 == idx,
            },
        decreases lexemes@.len() - idx,
    {
        if idx >= lexemes.len() {
            return (ParseResult::Absent, idx);
        }
        let (fr, mid) = Function::parse(lexemes, idx);
        match fr {
            ParseResult::Matched(f) => {
                let (cr, nx) = FunctionCall::parse(lexemes, mid);
                match cr {
                    ParseResult::Matched(fc) => (
                        ParseResult::Matched(
                            FunctionCall {
                                function: Some(f),
                                function_call: Some(Box::new(fc)),
                            },
                        ),
                        nx,
                    ),
                    ParseResult::Absent => (
                        ParseResult::Matched(
                            FunctionCall { function: Some(f), function_call: None },
                        ),
                        mid,
                    ),
                    ParseResult::SyntaxError => (ParseResult::SyntaxError, idx),
                }
            },
            ParseResult::Absent => (ParseResult::Absent, idx),
            ParseResult::SyntaxError => (ParseResult::SyntaxError, idx),
        }
    }

    /// Applies the whole chain to the working row set, left to right.
    pub fn evaluate(&self, fields: &Vec<String>, rows: &mut Vec<Vec<String>>)
        requires
            forall|i: int|
                0 <= i < old(rows)@.len() ==> (#[trigger] old(rows)@[i])@.len() == fields@.len(),
        ensures
            fcall_post(self@, fields@, old(rows)@, final(rows)@),
            forall|i: int|
                0 <= i < final(rows)@.len() ==> (#[trigger] final(rows)@[i])@.len()
                    == fields@.len(),
        decreases self,
    {
        let ghost before = rows@;
        match &self.function {
            Some(f) => {
                f.run(fields, rows);
            },
            None => {},
        }
        let ghost mid = rows@;
        match &self.function_call {
            Some(rest) => {
                rest.evaluate(fields, rows);
            },
            None => {},
        }
        proof {
            if self.function is Some && self.function_call is Some {
                assert(run_post(self@.function.unwrap(), fields@, before, mid));
                assert(fcall_post(
                    *self@.function_call.unwrap(),
                    fields@,
                    mid,
                    final(rows)@,
                ));
            }
        }
    }
}

} // verus!
