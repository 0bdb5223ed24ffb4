//! The table's text form: a header line of field names and one line per
//! row, cells split on a single-character separator and trimmed.

use vstd::prelude::*;
use crate::strutil::str_eq;

verus! {

/// Whether a character counts as trimmable whitespace.
pub open spec fn is_ws(c: char) -> bool {
    c == ' ' || c == '\t' || c == '\r' || c == '\n'
}

/// The sequence without its leading whitespace.
pub open spec fn trim_front(s: Seq<char>) -> Seq<char>
    decreases s.len(),
{
    if s.len() > 0 && is_ws(s[0]) {
        trim_front(s.drop_first())
    } else {
        s
    }
}

/// The sequence without its trailing whitespace.
pub open spec fn trim_back(s: Seq<char>) -> Seq<char>
    decreases s.len(),
{
    if s.len() > 0 && is_ws(s.last()) {
        trim_back(s.drop_last())
    } else {
        s
    }
}

/// The sequence without leading or trailing whitespace.
pub open spec fn spec_trim(s: Seq<char>) -> Seq<char> {
    trim_back(trim_front(s))
}

/// The length of the leading separator-free run.
pub open spec fn cell_len(s: Seq<char>, sep: char) -> int
    decreases s.len(),
{
    if s.len() == 0 || s[0] == sep {
        0
    } else {
        1 + cell_len(s.drop_first(), sep)
    }
}

/// The cell length is within the sequence.
pub proof fn lemma_cell_len_bounds(s: Seq<char>, sep: char)
    ensures
        0 <= cell_len(s, sep) <= s.len(),
    decreases s.len(),
{
    if s.len() > 0 && s[0] != sep {
        lemma_cell_len_bounds(s.drop_first(), sep);
    }
}

/// A separator-free run closed by a separator or the end has exactly the
/// cell length.
proof fn lemma_cell_len_pins(s: Seq<char>, sep: char, j: int)
    requires
        0 <= j <= s.len(),
        forall|p: int| 0 <= p < j ==> s[p] != sep,
        j == s.len() || s[j] == sep,
    ensures
        cell_len(s, sep) == j,
    decreases j,
{
    if j > 0 {
        lemma_cell_len_pins(s.drop_first(), sep, j - 1);
    }
}

/// The cells of a line: the separator-delimited segments, each trimmed.
/// Empty segments are kept, and an empty line has one empty cell.
pub open spec fn spec_cells(s: Seq<char>, sep: char) -> Seq<Seq<char>>
    decreases s.len(),
    via spec_cells_decreases
{
    let l = cell_len(s, sep);
    if l == s.len() {
        seq![spec_trim(s)]
    } else {
        seq![spec_trim(s.take(l))] + spec_cells(s.skip(l + 1), sep)
    }
}

#[via_fn]
proof fn spec_cells_decreases(s: Seq<char>, sep: char) {
    lemma_cell_len_bounds(s, sep);
}

/// Tests whether a character is trimmable whitespace.
fn is_ws_char(c: char) -> (r: bool)
    ensures
        r == is_ws(c),
{
    c == ' ' || c == '\t' || c == '\r' || c == '\n'
}

/// Trims leading and trailing whitespace from a string.
#[verifier::loop_isolation(false)]
pub fn trim_str(s: &str) -> (r: String)
    ensures
        r@ == spec_trim(s@),
{
    let n = s.unicode_len();
    let mut a: usize = 0;
    proof {
        assert(s@.skip(0) =~= s@);
    }
    while a < n && is_ws_char(s.get_char(a))
        invariant
            0 <= a <= n,
            trim_front(s@) == trim_front(s@.skip(a as int)),
        decreases n - a,
    {
        proof {
            assert(s@.skip(a as int).drop_first() =~= s@.skip(a + 1));
        }
        a = a + 1;
    }
    proof {
        if a < n {
            assert(trim_front(s@) =~= s@.skip(a as int));
        } else {
            assert(s@.skip(a as int).len() == 0);
            assert(trim_front(s@) =~= s@.skip(a as int));
        }
    }
    let mut b: usize = n;
    while b > a && is_ws_char(s.get_char(b - 1))
        invariant
            a <= b <= n,
            trim_back(s@.skip(a as int)) == trim_back(s@.subrange(a as int, b as int)),
        decreases b,
    {
        proof {
            assert(s@.subrange(a as int, b as int).drop_last() =~= s@.subrange(a as int, b - 1));
            assert(s@.subrange(a as int, b as int).last() == s@[b - 1]);
        }
        b = b - 1;
    }
    proof {
        assert(s@.subrange(a as int, n as int) =~= s@.skip(a as int));
        let sub = s@.subrange(a as int, b as int);
        if b > a {
            assert(trim_back(sub) =~= sub);
        } else {
            assert(sub.len() == 0);
            assert(trim_back(sub) =~= sub);
        }
    }
    s.substring_char(a, b).to_owned()
}

/// Splits one line into trimmed cells on the separator.
#[verifier::loop_isolation(false)]
pub fn split_line(line: &str, sep: char) -> (r: Vec<String>)
    ensures
        r@.map_values(|t: String| t@) == spec_cells(line@, sep),
{
    let n = line.unicode_len();
    let mut out: Vec<String> = Vec::new();
    let mut start: usize = 0;
    let mut j: usize = 0;
    let ghost lv = line@;
    proof {
        assert(lv.skip(0) =~= lv);
        assert(out@.map_values(|t: String| t@) =~= Seq::<Seq<char>>::empty());
        assert(Seq::<Seq<char>>::empty() + spec_cells(lv, sep) =~= spec_cells(lv, sep));
    }
    while j < n
        invariant
            0 <= start <= j <= n,
            n == lv.len(),
            forall|q: int| start <= q < j ==> lv[q] != sep,
            out@.map_values(|t: String| t@) + spec_cells(lv.skip(start as int), sep) == spec_cells(
                lv,
                sep,
            ),
        decreases n - j,
    {
        if line.get_char(j) == sep {
            let cell = trim_str(line.substring_char(start, j));
            proof {
                let sub = lv.skip(start as int);
                let old_map = out@.map_values(|t: String| t@);
                lemma_cell_len_pins(sub, sep, j - start);
                assert(sub.take(j - start) =~= lv.subrange(start as int, j as int));
                assert(cell@ == spec_trim(sub.take(cell_len(sub, sep))));
                assert(sub.skip(j - start + 1) =~= lv.skip(j + 1));
                assert(spec_cells(sub, sep) == seq![cell@] + spec_cells(lv.skip(j + 1), sep));
                assert((out@.push(cell)).map_values(|t: String| t@) =~= old_map.push(cell@));
                assert(old_map.push(cell@) + spec_cells(lv.skip(j + 1), sep) =~= old_map + (seq![
                    cell@,
                ] + spec_cells(lv.skip(j + 1), sep)));
            }
            out.push(cell);
            start = j + 1;
        }
        j = j + 1;
    }
    // the final cell runs to the end of the line
    let cell = trim_str(line.substring_char(start, n));
    proof {
        let sub = lv.skip(start as int);
        let old_map = out@.map_values(|t: String| t@);
        lemma_cell_len_pins(sub, sep, n - start);
        assert(sub.take(n - start) =~= lv.subrange(start as int, n as int));
        assert(sub.take(cell_len(sub, sep)) =~= sub);
        assert(cell@ == spec_trim(sub));
        assert(spec_cells(sub, sep) == seq![cell@]);
        assert((out@.push(cell)).map_values(|t: String| t@) =~= old_map.push(cell@));
        assert(old_map.push(cell@) =~= old_map + seq![cell@]);
    }
    out.push(cell);
    out
}

/// Reads the header line: the field names split on the separator and
/// trimmed; a header with an empty name is rejected.
#[verifier::loop_isolation(false)]
pub fn parse_header_line(line: &str, sep: char) -> (r: Option<Vec<String>>)
    ensures
        match r {
            Some(fields) => fields@.map_values(|t: String| t@) == spec_cells(line@, sep) && forall|
                i: int,
            | 0 <= i < fields@.len() ==> (#[trigger] fields@[i])@.len() > 0,
            Option::None => exists|i: int|
                0 <= i < spec_cells(line@, sep).len() && (#[trigger] spec_cells(line@, sep)[i]).len()
                    == 0,
        },
{
    let cells = split_line(line, sep);
    let mut i: usize = 0;
    while i < cells.len()
        invariant
            0 <= i <= cells@.len(),
            forall|q: int| 0 <= q < i ==> (#[trigger] cells@[q])@.len() > 0,
        decreases cells@.len() - i,
    {
        if cells[i].as_str().unicode_len() == 0 {
            proof {
                assert(spec_cells(line@, sep)[i as int].len() == 0);
            }
            return None;
        }
        i = i + 1;
    }
    Some(cells)
}

/// Loads one data line: its trimmed cells become a row when their count
/// matches the field count; otherwise the line is dropped.
pub fn load_row(fields: &Vec<String>, rows: &mut Vec<Vec<String>>, line: &str, sep: char) -> (added:
    bool)
    ensures
        added == (spec_cells(line@, sep).len() == fields@.len()),
        added ==> final(rows)@.len() == old(rows)@.len() + 1 && final(rows)@.take(
            old(rows)@.len() as int,
        ) == old(rows)@ && final(rows)@.last()@.map_values(|t: String| t@) == spec_cells(
            line@,
            sep,
        ),
        !added ==> final(rows)@ == old(rows)@,
{
    let cells = split_line(line, sep);
    if cells.len() == fields.len() {
        rows.push(cells);
        proof {
            assert(rows@.take(old(rows)@.len() as int) =~= old(rows)@);
        }
        true
    } else {
        false
    }
}

/// The cells joined with the separator between them.
pub open spec fn spec_join(cells: Seq<Seq<char>>, sep: char) -> Seq<char>
    decreases cells.len(),
{
    if cells.len() == 0 {
        Seq::empty()
    } else if cells.len() == 1 {
        cells[0]
    } else {
        spec_join(cells.drop_last(), sep) + seq![sep] + cells.last()
    }
}

/// Renders one line: the cells joined with the separator.
#[verifier::loop_isolation(false)]
pub fn render_line(cells: &Vec<String>, sep: &str) -> (r: String)
    requires
        sep@.len() == 1,
    ensures
        r@ == spec_join(cells@.map_values(|t: String| t@), sep@[0]),
{
    let ghost cv = cells@.map_values(|t: String| t@);
    let mut out = String::new();
    let mut i: usize = 0;
    proof {
        assert(cv.take(0) =~= Seq::<Seq<char>>::empty());
    }
    while i < cells.len()
        invariant
            0 <= i <= cells@.len(),
            out@ == spec_join(cv.take(i as int), sep@[0]),
        decreases cells@.len() - i,
    {
        proof {
            assert(cv.take(i + 1).drop_last() =~= cv.take(i as int));
            assert(cv.take(i + 1).last() == cv[i as int]);
        }
        if i > 0 {
            out.append(sep);
            proof {
                assert(sep@ =~= seq![sep@[0]]);
            }
        }
        out.append(cells[i].as_str());
        i = i + 1;
    }
    proof {
        assert(cv.take(cv.len() as int) =~= cv);
    }
    out
}

} // verus!
