//! Aggregations: a bare `sum`, `avg`, `mean`, `count` or `counter` call
//! reduces a modification's per-row results to one value.

use vstd::prelude::*;
use vstd::seq_lib::group_to_multiset_ensures;
use crate::commands::{spec_row_passes, wc_wf};
use crate::condition::{WhereClause, WhereClauseV, spec_parse_where};
use crate::modification::{
    Modification, ModificationV, num_from_units, spec_parse_modification, spec_eval_modification,
};
use crate::numeric::{
    Number, MAG_LIMIT, INT_LIMIT, UNIT, iabs, div_units, dec_str, render_u64, spec_parse_num,
    spec_render_num,
};
use crate::strutil::str_eq;
use crate::value::{ParseResult, ParseOutcome, parse_number};

verus! {

/// The five aggregation reductions.
#[derive(Debug, Clone, Copy, PartialEq, Eq, Structural)]
pub enum AggregationFunction {
    Sum,
    Avg,
    Mean,
    Count,
    Counter,
}

/// One aggregation call: the reduction, the modification collected from
/// each row, and the optional filter.
#[derive(Debug)]
pub struct AggregationFunctionCall {
    pub aggregation_function: AggregationFunction,
    pub modification: Modification,
    pub where_clause: Option<WhereClause>,
}

/// The mathematical content of an aggregation call.
pub struct AggCallV {
    pub aggregation_function: AggregationFunction,
    pub modification: ModificationV,
    pub where_clause: Option<WhereClauseV>,
}

impl View for AggregationFunctionCall {
    type V = AggCallV;

    open spec fn view(&self) -> AggCallV {
        AggCallV {
            aggregation_function: self.aggregation_function,
            modification: self.modification@,
            where_clause: match &self.where_clause {
                Option::Some(w) => Some(w@),
                Option::None => Option::None,
            },
        }
    }
}

impl AggCallV {
    /// Well-formed: every held number is in range.
    pub open spec fn wf(self) -> bool {
        self.modification.wf() && wc_wf(self.where_clause)
    }
}

/// What an aggregation produces: one value, or the frequency table of the
/// `counter` reduction.
#[derive(Debug)]
pub enum AggResult {
    Value(String),
    Counter(Vec<(String, usize)>),
}

/// The reduction a lexeme names, if any.
pub open spec fn spec_agg_from_name(s: Seq<char>) -> Option<AggregationFunction> {
    if s == "sum"@ {
        Some(AggregationFunction::Sum)
    } else if s == "avg"@ {
        Some(AggregationFunction::Avg)
    } else if s == "mean"@ {
        Some(AggregationFunction::Mean)
    } else if s == "count"@ {
        Some(AggregationFunction::Count)
    } else if s == "counter"@ {
        Some(AggregationFunction::Counter)
    } else {
        Option::None
    }
}

impl AggregationFunction {
    /// The five reduction names.
    pub fn get_available_functions_names() -> (r: Vec<&'static str>)
        ensures
            r@.len() == 5,
            r@[0]@ == "sum"@ && r@[1]@ == "avg"@ && r@[2]@ == "mean"@ && r@[3]@ == "count"@
                && r@[4]@ == "counter"@,
    {
        let v: Vec<&'static str> = vec!["sum", "avg", "mean", "count", "counter"];
        v
    }

    /// The reduction a name denotes.
    pub fn get_function_from_name(name: &str) -> (r: Option<AggregationFunction>)
        ensures
            r == spec_agg_from_name(name@),
    {
        if str_eq(name, "sum") {
            Some(AggregationFunction::Sum)
        } else if str_eq(name, "avg") {
            Some(AggregationFunction::Avg)
        } else if str_eq(name, "mean") {
            Some(AggregationFunction::Mean)
        } else if str_eq(name, "count") {
            Some(AggregationFunction::Count)
        } else if str_eq(name, "counter") {
            Some(AggregationFunction::Counter)
        } else {
            None
        }
    }
}

/// The aggregation call the lexemes denote: a reduction name, a
/// modification, and an optional filter.
pub open spec fn spec_parse_agg(lex: Seq<String>) -> ParseResult<AggCallV> {
    if lex.len() == 0 {
        ParseResult::Absent
    } else {
        match spec_agg_from_name(lex[0]@) {
            Option::None => ParseResult::Absent,
            Some(f) => match spec_parse_modification(lex, 1) {
                ParseOutcome::Matched(m, nx) => match spec_parse_where(lex, nx) {
                    ParseOutcome::Matched(w, _) => ParseResult::Matched(
                        AggCallV {
                            aggregation_function: f,
                            modification: m,
                            where_clause: Some(w),
                        },
                    ),
                    ParseOutcome::Absent => ParseResult::Matched(
                        AggCallV {
                            aggregation_function: f,
                            modification: m,
                            where_clause: Option::None,
                        },
                    ),
                    ParseOutcome::SyntaxError => ParseResult::SyntaxError,
                },
                ParseOutcome::Absent => ParseResult::SyntaxError,
                ParseOutcome::SyntaxError => ParseResult::SyntaxError,
            },
        }
    }
}

/// The strings the modification produces, one per row passing the filter,
/// rows whose modification fails contributing nothing.
pub open spec fn spec_collect(
    m: ModificationV,
    wc: Option<WhereClauseV>,
    fields: Seq<String>,
    rows: Seq<Vec<String>>,
) -> Seq<Seq<char>>
    decreases rows.len(),
{
    if rows.len() == 0 {
        Seq::empty()
    } else {
        let rest = spec_collect(m, wc, fields, rows.drop_first());
        if spec_row_passes(wc, fields, rows[0]@) {
            match spec_eval_modification(m, fields, rows[0]@) {
                Some(v) => seq![v] + rest,
                Option::None => rest,
            }
        } else {
            rest
        }
    }
}

/// The numbers among the collected strings, in order.
pub open spec fn spec_nums(vals: Seq<Seq<char>>) -> Seq<Number>
    decreases vals.len(),
{
    if vals.len() == 0 {
        Seq::empty()
    } else {
        let rest = spec_nums(vals.drop_first());
        match spec_parse_num(vals[0]) {
            Some(x) => seq![x] + rest,
            Option::None => rest,
        }
    }
}

/// The total of the numbers added left to right onto `acc`, `None` as soon
/// as a partial sum leaves the representable range.
pub open spec fn spec_sum_acc(acc: int, nums: Seq<Number>) -> Option<int>
    decreases nums.len(),
{
    if nums.len() == 0 {
        Some(acc)
    } else {
        let u = acc + nums[0].units();
        if iabs(u) < MAG_LIMIT {
            spec_sum_acc(u, nums.drop_first())
        } else {
            Option::None
        }
    }
}

/// The average: the total divided by the count, undefined on no numbers
/// and when a value leaves the representable range.
pub open spec fn spec_avg(nums: Seq<Number>) -> Option<Number> {
    match spec_sum_acc(0, nums) {
        Some(s) => if nums.len() == 0 || nums.len() >= INT_LIMIT {
            Option::None
        } else {
            let du = div_units(s, nums.len() * (UNIT as int));
            if iabs(du) < MAG_LIMIT {
                Some(num_from_units(du))
            } else {
                Option::None
            }
        },
        Option::None => Option::None,
    }
}

/// Whether the numbers are in ascending order of value.
pub open spec fn sorted_nums(s: Seq<Number>) -> bool {
    forall|p: int| 0 <= p < s.len() - 1 ==> (#[trigger] s[p]).units() <= s[p + 1].units()
}

/// The `mean` reduction over the sorted numbers: with `c` the half count,
/// the value at `c` for an odd count, and the mean of the values at `c`
/// and `c + 1` for an even one — undefined when `c + 1` is out of range,
/// when there are no numbers, or when a value leaves the range.
pub open spec fn spec_mean(sorted: Seq<Number>) -> Option<Number> {
    let n = sorted.len();
    let c = n as int / 2;
    if n == 0 {
        Option::None
    } else if n % 2 == 0 {
        if c + 1 < n {
            let su = sorted[c].units() + sorted[c + 1].units();
            if iabs(su) < MAG_LIMIT {
                let du = div_units(su, 2 * (UNIT as int));
                if iabs(du) < MAG_LIMIT {
                    Some(num_from_units(du))
                } else {
                    Option::None
                }
            } else {
                Option::None
            }
        } else {
            Option::None
        }
    } else {
        Some(sorted[c])
    }
}

/// The distinct collected strings, in order of first occurrence.
pub open spec fn distinct_keys(vals: Seq<Seq<char>>) -> Seq<Seq<char>>
    decreases vals.len(),
{
    if vals.len() == 0 {
        Seq::empty()
    } else {
        let rest = distinct_keys(vals.drop_last());
        if rest.contains(vals.last()) {
            rest
        } else {
            rest.push(vals.last())
        }
    }
}

/// How many times a string was collected.
pub open spec fn count_of(vals: Seq<Seq<char>>, key: Seq<char>) -> int
    decreases vals.len(),
{
    if vals.len() == 0 {
        0
    } else {
        count_of(vals.drop_last(), key) + (if vals.last() == key {
            1int
        } else {
            0int
        })
    }
}

impl AggregationFunctionCall {
    /// Parses a whole aggregation command line.
    pub fn parse(lexemes: &Vec<String>) -> (r: ParseResult<AggregationFunctionCall>)
        ensures
            match spec_parse_agg(lexemes@) {
                ParseResult::Matched(av) => r is Matched && r->Matched_0@ == av
                    && r->Matched_0@.wf(),
                ParseResult::Absent => r is Absent,
                ParseResult::SyntaxError => r is SyntaxError,
            },
    {
        if lexemes.len() == 0 {
            return ParseResult::Absent;
        }
        let f = match AggregationFunction::get_function_from_name(lexemes[0].as_str()) {
            Some(f) => f,
            None => {
                return ParseResult::Absent;
            },
        };
        let (mr, nx) = Modification::parse(lexemes, 1);
        match mr {
            ParseResult::Matched(m) => {
                let (wr, _) = WhereClause::parse(lexemes, nx);
                match wr {
                    ParseResult::Matched(w) => ParseResult::Matched(
                        AggregationFunctionCall {
                            aggregation_function: f,
                            modification: m,
                            where_clause: Some(w),
                        },
                    ),
                    ParseResult::Absent => ParseResult::Matched(
                        AggregationFunctionCall {
                            aggregation_function: f,
                            modification: m,
                            where_clause: None,
                        },
                    ),
                    ParseResult::SyntaxError => ParseResult::SyntaxError,
                }
            },
            ParseResult::Absent => ParseResult::SyntaxError,
            ParseResult::SyntaxError => ParseResult::SyntaxError,
        }
    }
}


/// Collects the modification's strings over the rows passing the filter.
#[verifier::loop_isolation(false)]
fn collect_values(
    m: &Modification,
    wc: &Option<WhereClause>,
    fields: &Vec<String>,
    rows: &Vec<Vec<String>>,
) -> (r: Vec<String>)
    requires
        m@.wf(),
        wc_wf(match wc {
            Option::Some(w) => Some(w@),
            Option::None => Option::None::<WhereClauseV>,
        }),
    ensures
        r@.map_values(|v: String| v@) == spec_collect(
            m@,
            match wc {
                Option::Some(w) => Some(w@),
                Option::None => Option::None::<WhereClauseV>,
            },
            fields@,
            rows@,
        ),
{
    let ghost wcv = match wc {
        Option::Some(w) => Some(w@),
        Option::None => Option::None::<WhereClauseV>,
    };
    let mut out: Vec<String> = Vec::new();
    let mut i: usize = 0;
    proof {
        assert(rows@.skip(0) =~= rows@);
        assert(out@.map_values(|v: String| v@) =~= Seq::<Seq<char>>::empty());
        assert(Seq::<Seq<char>>::empty() + spec_collect(m@, wcv, fields@, rows@) =~= spec_collect(
            m@,
            wcv,
            fields@,
            rows@,
        ));
    }
    while i < rows.len()
        invariant
            0 <= i <= rows@.len(),
            out@.map_values(|v: String| v@) + spec_collect(m@, wcv, fields@, rows@.skip(i as int))
                == spec_collect(m@, wcv, fields@, rows@),
        decreases rows@.len() - i,
    {
        let ghost old_map = out@.map_values(|v: String| v@);
        let ghost sub = rows@.skip(i as int);
        proof {
            assert(sub[0] == rows@[i as int]);
            assert(sub.drop_first() =~= rows@.skip(i + 1));
        }
        let passes = match wc {
            Some(w) => w.evaluate(fields, &rows[i]),
            None => true,
        };
        if passes {
            match m.evaluate(fields, &rows[i]) {
                Some(v) => {
                    proof {
                        assert((out@.push(v)).map_values(|t: String| t@) =~= old_map.push(v@));
                        assert(old_map.push(v@) + spec_collect(m@, wcv, fields@, rows@.skip(i + 1))
                            =~= old_map + (seq![v@] + spec_collect(
                            m@,
                            wcv,
                            fields@,
                            rows@.skip(i + 1),
                        )));
                    }
                    out.push(v);
                },
                None => {},
            }
        }
        i = i + 1;
    }
    proof {
        assert(rows@.skip(rows@.len() as int) =~= Seq::<Vec<String>>::empty());
        assert(out@.map_values(|v: String| v@) + Seq::<Seq<char>>::empty() =~= out@.map_values(
            |v: String| v@,
        ));
    }
    out
}

/// Keeps the collected strings that parse as numbers, in order.
#[verifier::loop_isolation(false)]
fn convert_numbers(vals: &Vec<String>) -> (r: Vec<Number>)
    ensures
        r@ == spec_nums(vals@.map_values(|v: String| v@)),
        forall|i: int| 0 <= i < r@.len() ==> (#[trigger] r@[i]).wf(),
{
    let ghost vv = vals@.map_values(|v: String| v@);
    let mut out: Vec<Number> = Vec::new();
    let mut i: usize = 0;
    proof {
        assert(vv.skip(0) =~= vv);
        assert(out@ + spec_nums(vv) =~= spec_nums(vv));
    }
    while i < vals.len()
        invariant
            0 <= i <= vals@.len(),
            vv.len() == vals@.len(),
            out@ + spec_nums(vv.skip(i as int)) == spec_nums(vv),
            forall|k: int| 0 <= k < out@.len() ==> (#[trigger] out@[k]).wf(),
        decreases vals@.len() - i,
    {
        let ghost sub = vv.skip(i as int);
        proof {
            assert(sub[0] == vv[i as int]);
            assert(sub.drop_first() =~= vv.skip(i + 1));
        }
        match parse_number(&vals[i]) {
            Some(x) => {
                proof {
                    assert(out@.push(x) + spec_nums(vv.skip(i + 1)) =~= out@ + (seq![x]
                        + spec_nums(vv.skip(i + 1))));
                }
                out.push(x);
            },
            None => {},
        }
        i = i + 1;
    }
    proof {
        assert(vv.skip(vv.len() as int) =~= Seq::<Seq<char>>::empty());
        assert(out@ + Seq::<Number>::empty() =~= out@);
    }
    out
}

/// Adds the numbers left to right; `None` as soon as a partial sum leaves
/// the representable range.
#[verifier::loop_isolation(false)]
fn sum_numbers(nums: &Vec<Number>) -> (r: Option<Number>)
    requires
        forall|i: int| 0 <= i < nums@.len() ==> (#[trigger] nums@[i]).wf(),
    ensures
        match r {
            Some(x) => x.wf() && spec_sum_acc(0, nums@) == Some(x.units()),
            Option::None => spec_sum_acc(0, nums@) is None,
        },
{
    let mut acc = Number::zero();
    let mut i: usize = 0;
    proof {
        assert(nums@.skip(0) =~= nums@);
    }
    while i < nums.len()
        invariant
            0 <= i <= nums@.len(),
            acc.wf(),
            spec_sum_acc(0, nums@) == spec_sum_acc(acc.units(), nums@.skip(i as int)),
        decreases nums@.len() - i,
    {
        let ghost sub = nums@.skip(i as int);
        proof {
            assert(sub[0] == nums@[i as int]);
            assert(sub.drop_first() =~= nums@.skip(i + 1));
        }
        match acc.add(nums[i]) {
            Some(next) => {
                acc = next;
            },
            None => {
                return None;
            },
        }
        i = i + 1;
    }
    proof {
        assert(nums@.skip(nums@.len() as int) =~= Seq::<Number>::empty());
    }
    Some(acc)
}

/// Sorts the numbers ascending with a stable insertion sort.
#[verifier::loop_isolation(false)]
#[verifier::rlimit(60)]
fn sort_numbers(nums: &mut Vec<Number>)
    requires
        forall|i: int| 0 <= i < old(nums)@.len() ==> (#[trigger] old(nums)@[i]).wf(),
    ensures
        final(nums)@.len() == old(nums)@.len(),
        final(nums)@.to_multiset() == old(nums)@.to_multiset(),
        sorted_nums(final(nums)@),
        forall|i: int| 0 <= i < final(nums)@.len() ==> (#[trigger] final(nums)@[i]).wf(),
{
    proof {
        broadcast use group_to_multiset_ensures;
    }
    let ghost orig = nums@;
    let n = nums.len();
    if n <= 1 {
        return ;
    }
    let mut i: usize = 1;
    while i < n
        invariant
            1 <= i <= n,
            nums@.len() == n,
            nums@.to_multiset() == orig.to_multiset(),
            forall|k: int| 0 <= k < n ==> (#[trigger] nums@[k]).wf(),
            forall|p: int| 0 <= p < i - 1 ==> (#[trigger] nums@[p]).units() <= nums@[p + 1].units(),
        decreases n - i,
    {
        let ghost prev = nums@;
        let x = nums.remove(i);
        let ghost s1 = nums@;
        proof {
            assert(forall|k: int| 0 <= k < i ==> s1[k] == prev[k]);
            assert(forall|k: int| i <= k < s1.len() ==> s1[k] == prev[k + 1]);
        }
        let mut j: usize = i;
        while j > 0 && gt_num(&nums[j - 1], &x)
            invariant
                0 <= j <= i,
                nums@ == s1,
                forall|k: int| j <= k < i ==> (#[trigger] s1[k]).units() > x.units(),
            decreases j,
        {
            j = j - 1;
        }
        nums.insert(j, x);
        proof {
            let cur = nums@;
            s1.insert_ensures(j as int, x);
            assert(cur.to_multiset() == s1.to_multiset().insert(x));
            assert(s1.to_multiset() == prev.to_multiset().remove(prev[i as int]));
            assert(prev.to_multiset().count(x) > 0) by {
                assert(prev.contains(x));
            }
            assert(cur.to_multiset() =~= prev.to_multiset());
            assert forall|p: int|
                0 <= p < i implies !((#[trigger] cur[p]).units() > cur[p + 1].units()) by {
                if p < j - 1 {
                    assert(cur[p] == prev[p] && cur[p + 1] == prev[p + 1]);
                } else if p == j - 1 {
                    assert(cur[p] == prev[p] && cur[p + 1] == x);
                } else if p == j {
                    if (j as int) < i {
                        assert(cur[p] == x && cur[p + 1] == s1[j as int]);
                    }
                } else {
                    assert(cur[p] == s1[p - 1] && cur[p + 1] == s1[p]);
                    assert(s1[p - 1] == prev[p - 1] && s1[p] == prev[p]);
                }
            }
        }
        i = i + 1;
    }
}

/// Whether the first number is strictly greater than the second.
fn gt_num(a: &Number, b: &Number) -> (r: bool)
    requires
        a.wf(),
        b.wf(),
    ensures
        r == (a.units() > b.units()),
{
    a.cmp(*b) == crate::numeric::NumOrder::Greater
}

/// Builds the frequency table of the collected strings, keys in order of
/// first occurrence.
#[verifier::loop_isolation(false)]
#[verifier::rlimit(60)]
fn counter_pairs(vals: &Vec<String>) -> (r: Vec<(String, usize)>)
    ensures
        ({
            let vv = vals@.map_values(|v: String| v@);
            &&& r@.len() == distinct_keys(vv).len()
            &&& forall|j: int|
                0 <= j < r@.len() ==> ((#[trigger] r@[j]).0)@ == distinct_keys(vv)[j]
            &&& forall|j: int| 0 <= j < r@.len() ==> ((#[trigger] r@[j]).1) as int == count_of(
                vv,
                r@[j].0@,
            )
        }),
{
    let ghost vv = vals@.map_values(|v: String| v@);
    let mut acc: Vec<(String, usize)> = Vec::new();
    let mut i: usize = 0;
    proof {
        assert(vv.take(0) =~= Seq::<Seq<char>>::empty());
    }
    while i < vals.len()
        invariant
            0 <= i <= vals@.len(),
            vv.len() == vals@.len(),
            acc@.len() == distinct_keys(vv.take(i as int)).len(),
            forall|j: int|
                0 <= j < acc@.len() ==> ((#[trigger] acc@[j]).0)@ == distinct_keys(
                    vv.take(i as int),
                )[j],
            forall|j: int|
                0 <= j < acc@.len() ==> ((#[trigger] acc@[j]).1) as int == count_of(
                    vv.take(i as int),
                    acc@[j].0@,
                ),
            forall|j: int| 0 <= j < acc@.len() ==> ((#[trigger] acc@[j]).1) as int <= i,
        decreases vals@.len() - i,
    {
        let ghost pre = vv.take(i as int);
        proof {
            assert(vv.take(i + 1).drop_last() =~= pre);
            assert(vv.take(i + 1).last() == vv[i as int]);
        }
        // find the key among those already seen
        let mut j: usize = 0;
        let mut found = false;
        while j < acc.len() && !found
            invariant
                0 <= j <= acc@.len(),
                !found ==> forall|q: int| 0 <= q < j ==> ((#[trigger] acc@[q]).0)@ != vv[i as int],
                found ==> j < acc@.len() && acc@[j as int].0@ == vv[i as int],
            decreases acc@.len() - j + (if found {
                0int
            } else {
                1int
            }),
        {
            if str_eq(acc[j].0.as_str(), vals[i].as_str()) {
                found = true;
            } else {
                j = j + 1;
            }
        }
        if found {
            proof {
                assert(distinct_keys(pre).contains(vv[i as int])) by {
                    assert(distinct_keys(pre)[j as int] == vv[i as int]);
                }
                assert(distinct_keys(vv.take(i + 1)) == distinct_keys(pre));
            }
            let ghost acc_old = acc@;
            let old_pair = acc.remove(j);
            let bumped: usize = old_pair.1 + 1;
            acc.insert(j, (old_pair.0, bumped));
            proof {
                assert(forall|q: int| 0 <= q < acc@.len() && q != j ==> acc@[q] == acc_old[q]);
                assert(acc@[j as int].0 == acc_old[j as int].0);
                assert((acc@[j as int].1) as int == (acc_old[j as int].1) as int + 1);
                lemma_distinct_nodup(pre);
                assert forall|q: int|
                    0 <= q < acc@.len() implies ((#[trigger] acc@[q]).0)@ == distinct_keys(
                    vv.take(i + 1),
                )[q] by {
                    if q != j {
                        assert(acc@[q] == acc_old[q]);
                    } else {
                        assert(acc@[j as int].0 == acc_old[j as int].0);
                    }
                }
                assert forall|q: int|
                    0 <= q < acc@.len() implies ((#[trigger] acc@[q]).1) as int == count_of(
                    vv.take(i + 1),
                    acc@[q].0@,
                ) by {
                    assert(count_of(vv.take(i + 1), acc@[q].0@) == count_of(pre, acc@[q].0@) + (
                    if vv[i as int] == acc@[q].0@ {
                        1int
                    } else {
                        0int
                    }));
                    if q != j {
                        assert(acc@[q].0@ == distinct_keys(pre)[q]);
                        assert(distinct_keys(pre)[q] != distinct_keys(pre)[j as int]);
                    }
                }
            }
        } else {
            proof {
                assert(!distinct_keys(pre).contains(vv[i as int])) by {
                    if distinct_keys(pre).contains(vv[i as int]) {
                        let q = choose|q: int|
                            0 <= q < distinct_keys(pre).len() && distinct_keys(pre)[q]
                                == vv[i as int];
                        assert(acc@[q].0@ == vv[i as int]);
                    }
                }
                assert(distinct_keys(vv.take(i + 1)) == distinct_keys(pre).push(vv[i as int]));
                lemma_count_zero(pre, vv[i as int]);
            }
            let ghost acc_old = acc@;
            acc.push((vals[i].clone(), 1));
            proof {
                assert(forall|q: int| 0 <= q < acc_old.len() ==> acc@[q] == acc_old[q]);
                assert(acc@.last().0@ == vv[i as int]);
                assert forall|q: int|
                    0 <= q < acc@.len() implies ((#[trigger] acc@[q]).0)@ == distinct_keys(
                    vv.take(i + 1),
                )[q] by {
                    if q < acc_old.len() {
                        assert(acc@[q] == acc_old[q]);
                        assert(distinct_keys(vv.take(i + 1))[q] == distinct_keys(pre)[q]);
                    } else {
                        assert(q == acc@.len() - 1);
                    }
                }
                assert forall|q: int|
                    0 <= q < acc@.len() implies ((#[trigger] acc@[q]).1) as int == count_of(
                    vv.take(i + 1),
                    acc@[q].0@,
                ) by {
                    assert(count_of(vv.take(i + 1), acc@[q].0@) == count_of(pre, acc@[q].0@) + (
                    if vv[i as int] == acc@[q].0@ {
                        1int
                    } else {
                        0int
                    }));
                }
            }
        }
        i = i + 1;
    }
    proof {
        assert(vv.take(vv.len() as int) =~= vv);
    }
    acc
}


/// The distinct keys hold no duplicates.
proof fn lemma_distinct_nodup(vals: Seq<Seq<char>>)
    ensures
        forall|q1: int, q2: int|
            0 <= q1 < q2 < distinct_keys(vals).len() ==> distinct_keys(vals)[q1] != distinct_keys(
                vals,
            )[q2],
    decreases vals.len(),
{
    if vals.len() > 0 {
        lemma_distinct_nodup(vals.drop_last());
        let rest = distinct_keys(vals.drop_last());
        if !rest.contains(vals.last()) {
            assert forall|q1: int, q2: int|
                0 <= q1 < q2 < distinct_keys(vals).len() implies distinct_keys(vals)[q1]
                != distinct_keys(vals)[q2] by {
                if q2 == rest.len() {
                    assert(distinct_keys(vals)[q1] == rest[q1]);
                    if rest[q1] == vals.last() {
                        assert(rest.contains(vals.last()));
                    }
                }
            }
        }
    }
}

/// A string outside the distinct keys was never collected.
proof fn lemma_count_zero(vals: Seq<Seq<char>>, key: Seq<char>)
    requires
        !distinct_keys(vals).contains(key),
    ensures
        count_of(vals, key) == 0,
    decreases vals.len(),
{
    if vals.len() > 0 {
        assert(!distinct_keys(vals.drop_last()).contains(key)) by {
            if distinct_keys(vals.drop_last()).contains(key) {
                let q = choose|q: int|
                    0 <= q < distinct_keys(vals.drop_last()).len() && distinct_keys(
                        vals.drop_last(),
                    )[q] == key;
                assert(distinct_keys(vals)[q] == key);
            }
        }
        lemma_count_zero(vals.drop_last(), key);
        assert(vals.last() != key) by {
            if vals.last() == key {
                if !distinct_keys(vals.drop_last()).contains(vals.last()) {
                    assert(distinct_keys(vals).last() == key);
                }
            }
        }
    }
}


/// What an aggregation call produces: the reduction over the strings the
/// modification collects from the rows passing the filter. A reduction
/// that is undefined (an average of nothing, a median of fewer than three
/// values with an even count, a value out of range) produces nothing.
pub open spec fn agg_post(
    av: AggCallV,
    fields: Seq<String>,
    rows: Seq<Vec<String>>,
    r: Option<AggResult>,
) -> bool {
    let vals = spec_collect(av.modification, av.where_clause, fields, rows);
    let nums = spec_nums(vals);
    match av.aggregation_function {
        AggregationFunction::Sum => match spec_sum_acc(0, nums) {
            Some(u) => match r {
                Some(AggResult::Value(s)) => s@ == spec_render_num(num_from_units(u)),
                _ => false,
            },
            Option::None => r is None,
        },
        AggregationFunction::Avg => match spec_avg(nums) {
            Some(x) => match r {
                Some(AggResult::Value(s)) => s@ == spec_render_num(x),
                _ => false,
            },
            Option::None => r is None,
        },
        AggregationFunction::Mean => exists|sorted: Seq<Number>|
            #![trigger sorted_nums(sorted)]
            sorted.len() == nums.len() && sorted.to_multiset() == nums.to_multiset()
                && sorted_nums(sorted) && (match spec_mean(sorted) {
                Some(x) => match r {
                    Some(AggResult::Value(s)) => s@ == spec_render_num(x),
                    _ => false,
                },
                Option::None => r is None,
            }),
        AggregationFunction::Count => match r {
            Some(AggResult::Value(s)) => s@ == dec_str(nums.len()),
            _ => false,
        },
        AggregationFunction::Counter => match r {
            Some(AggResult::Counter(pairs)) => {
                &&& pairs@.len() == distinct_keys(vals).len()
                &&& forall|j: int|
                    0 <= j < pairs@.len() ==> ((#[trigger] pairs@[j]).0)@ == distinct_keys(vals)[j]
                &&& forall|j: int|
                    0 <= j < pairs@.len() ==> ((#[trigger] pairs@[j]).1) as int == count_of(
                        vals,
                        pairs@[j].0@,
                    )
            },
            _ => false,
        },
    }
}

impl AggregationFunctionCall {
    /// Runs the reduction over the rows passing the filter; the table is
    /// never changed.
    pub fn evaluate(&self, fields: &Vec<String>, rows: &Vec<Vec<String>>) -> (r: Option<AggResult>)
        requires
            self@.wf(),
        ensures
            agg_post(self@, fields@, rows@, r),
    {
        let vals = collect_values(&self.modification, &self.where_clause, fields, rows);
        let ghost valsv = vals@.map_values(|v: String| v@);
        match self.aggregation_function {
            AggregationFunction::Sum => {
                let nums = convert_numbers(&vals);
                match sum_numbers(&nums) {
                    Some(x) => {
                        proof {
                            assert(num_from_units(x.units()) == x);
                        }
                        Some(AggResult::Value(x.render()))
                    },
                    None => None,
                }
            },
            AggregationFunction::Avg => {
                let nums = convert_numbers(&vals);
                match sum_numbers(&nums) {
                    Some(x) => {
                        if nums.len() == 0 || nums.len() as u64 >= INT_LIMIT {
                            None
                        } else {
                            proof {
                                assert((nums@.len() as int) * (UNIT as int)
                                    < 10_000_000_000int * 1_000_000_000int) by (nonlinear_arith)
                                    requires
                                        0 <= nums@.len() < 10_000_000_000int,
                                ;
                            }
                            let cnt = Number::from_sign_mag(
                                false,
                                (nums.len() as u64) * UNIT,
                            );
                            match x.div(cnt) {
                                Some(q) => {
                                    proof {
                                        assert(num_from_units(q.units()) == q);
                                    }
                                    Some(AggResult::Value(q.render()))
                                },
                                None => None,
                            }
                        }
                    },
                    None => None,
                }
            },
            AggregationFunction::Mean => {
                let mut nums = convert_numbers(&vals);
                let ghost nv = nums@;
                if nums.len() == 0 {
                    proof {
                        assert(sorted_nums(nv));
                        assert(spec_mean(nv) is None);
                    }
                    return None;
                }
                sort_numbers(&mut nums);
                let n = nums.len();
                let c = n / 2;
                if n % 2 == 0 {
                    if c + 1 < n {
                        match nums[c].add(nums[c + 1]) {
                            Some(su) => {
                                let two = Number::from_sign_mag(false, 2 * UNIT);
                                match su.div(two) {
                                    Some(h) => {
                                        proof {
                                            assert(num_from_units(h.units()) == h);
                                        }
                                        Some(AggResult::Value(h.render()))
                                    },
                                    None => None,
                                }
                            },
                            None => None,
                        }
                    } else {
                        None
                    }
                } else {
                    Some(AggResult::Value(nums[c].render()))
                }
            },
            AggregationFunction::Count => {
                let nums = convert_numbers(&vals);
                Some(AggResult::Value(render_u64(nums.len() as u64)))
            },
            AggregationFunction::Counter => {
                Some(AggResult::Counter(counter_pairs(&vals)))
            },
        }
    }
}

} // verus!
