//! String helpers: verified character-level comparison and search, field
//! lookup by name, and the two case-conversion wrappers.

use vstd::prelude::*;

verus! {

/// Whether two string slices hold the same characters.
#[verifier::loop_isolation(false)]
pub fn str_eq(a: &str, b: &str) -> (r: bool)
    ensures
        r == (a@ == b@),
{
    let na = a.unicode_len();
    let nb = b.unicode_len();
    if na != nb {
        return false;
    }
    let mut i: usize = 0;
    while i < na
        invariant
            0 <= i <= na,
            forall|p: int| 0 <= p < i ==> a@[p] == b@[p],
        decreases na - i,
    {
        if a.get_char(i) != b.get_char(i) {
            return false;
        }
        i = i + 1;
    }
    proof {
        assert(a@ =~= b@);
    }
    true
}

/// Whether `s` begins with `p`.
pub open spec fn spec_starts_with(s: Seq<char>, p: Seq<char>) -> bool {
    p.len() <= s.len() && s.take(p.len() as int) == p
}

/// Whether `s` ends with `p`.
pub open spec fn spec_ends_with(s: Seq<char>, p: Seq<char>) -> bool {
    p.len() <= s.len() && s.skip(s.len() - p.len()) == p
}

/// Whether `p` occurs in `s` at position `i`.
pub open spec fn match_at(s: Seq<char>, p: Seq<char>, i: int) -> bool {
    0 <= i && i + p.len() <= s.len() && s.subrange(i, i + p.len()) == p
}

/// Whether `p` occurs anywhere in `s`.
pub open spec fn spec_contains(s: Seq<char>, p: Seq<char>) -> bool {
    exists|i: int| match_at(s, p, i)
}

/// Whether `p` occurs in `s` starting at position `i`.
#[verifier::loop_isolation(false)]
fn str_match_at(s: &str, p: &str, i: usize, ns: usize, np: usize) -> (r: bool)
    requires
        ns == s@.len(),
        np == p@.len(),
        i + np <= ns,
    ensures
        r == match_at(s@, p@, i as int),
{
    let mut j: usize = 0;
    while j < np
        invariant
            0 <= j <= np,
            forall|q: int| 0 <= q < j ==> s@[i + q] == p@[q],
        decreases np - j,
    {
        if s.get_char(i + j) != p.get_char(j) {
            proof {
                assert(s@.subrange(i as int, i + np)[j as int] != p@[j as int]);
            }
            return false;
        }
        j = j + 1;
    }
    proof {
        assert(s@.subrange(i as int, i + np) =~= p@);
    }
    true
}

/// Whether `s` begins with `p`.
pub fn str_starts_with(s: &str, p: &str) -> (r: bool)
    ensures
        r == spec_starts_with(s@, p@),
{
    let ns = s.unicode_len();
    let np = p.unicode_len();
    if np > ns {
        return false;
    }
    let r = str_match_at(s, p, 0, ns, np);
    proof {
        assert(s@.subrange(0, p@.len() as int) == s@.take(p@.len() as int));
    }
    r
}

/// Whether `s` ends with `p`.
pub fn str_ends_with(s: &str, p: &str) -> (r: bool)
    ensures
        r == spec_ends_with(s@, p@),
{
    let ns = s.unicode_len();
    let np = p.unicode_len();
    if np > ns {
        return false;
    }
    let r = str_match_at(s, p, ns - np, ns, np);
    proof {
        assert(s@.subrange(s@.len() - p@.len(), s@.len() as int) == s@.skip(
            s@.len() - p@.len(),
        ));
    }
    r
}

/// Whether `p` occurs anywhere in `s`.
#[verifier::loop_isolation(false)]
pub fn str_contains(s: &str, p: &str) -> (r: bool)
    ensures
        r == spec_contains(s@, p@),
{
    let ns = s.unicode_len();
    let np = p.unicode_len();
    if np > ns {
        return false;
    }
    let mut i: usize = 0;
    while i <= ns - np
        invariant
            0 <= i <= ns - np + 1,
            forall|q: int| 0 <= q < i ==> !match_at(s@, p@, q),
        decreases ns - np + 1 - i,
    {
        if str_match_at(s, p, i, ns, np) {
            return true;
        }
        proof {
            if np == 0 {
                assert(s@.subrange(i as int, i as int) =~= p@);
            }
        }
        i = i + 1;
    }
    proof {
        assert forall|q: int| !match_at(s@, p@, q) by {
            if match_at(s@, p@, q) {
                assert(q + p@.len() <= s@.len());
            }
        }
    }
    false
}

/// Whether `name` names the field at index `i`: the first match wins.
pub open spec fn field_at(fields: Seq<String>, name: Seq<char>, i: int) -> bool {
    &&& 0 <= i < fields.len()
    &&& fields[i]@ == name
    &&& forall|j: int| 0 <= j < i ==> fields[j]@ != name
}

/// A matching position in the sense of `field_at` is unique.
pub proof fn lemma_field_at_unique(fields: Seq<String>, name: Seq<char>, i1: int, i2: int)
    requires
        field_at(fields, name, i1),
        field_at(fields, name, i2),
    ensures
        i1 == i2,
{
}

/// Finds the first field with the given name.
#[verifier::loop_isolation(false)]
pub fn find_field(fields: &Vec<String>, name: &str) -> (r: Option<usize>)
    ensures
        match r {
            Some(i) => field_at(fields@, name@, i as int),
            Option::None => !exists|i: int| field_at(fields@, name@, i),
        },
{
    let mut i: usize = 0;
    while i < fields.len()
        invariant
            0 <= i <= fields@.len(),
            forall|j: int| 0 <= j < i ==> fields@[j]@ != name@,
        decreases fields@.len() - i,
    {
        if str_eq(fields[i].as_str(), name) {
            return Some(i);
        }
        i = i + 1;
    }
    None
}

/// What `str::to_uppercase` returns: a function of the characters alone.
pub uninterp spec fn upper_of(s: Seq<char>) -> Seq<char>;

/// What `str::to_lowercase` returns: a function of the characters alone.
pub uninterp spec fn lower_of(s: Seq<char>) -> Seq<char>;

/// Relies on str::to_uppercase: its result depends on the characters alone,
/// and an empty string stays empty.
#[verifier::external_body]
pub(crate) fn to_upper(s: &str) -> (r: String)
    ensures
        r@ == upper_of(s@),
        s@.len() == 0 ==> r@.len() == 0,
{
    s.to_uppercase()
}

/// Relies on str::to_lowercase: its result depends on the characters alone,
/// and an empty string stays empty.
#[verifier::external_body]
pub(crate) fn to_lower(s: &str) -> (r: String)
    ensures
        r@ == lower_of(s@),
        s@.len() == 0 ==> r@.len() == 0,
{
    s.to_lowercase()
}


/// The cell of `row` under the first field named `name`, when that field
/// exists and the row is long enough.
pub open spec fn spec_lookup(fields: Seq<String>, row: Seq<String>, name: Seq<char>) -> Option<
    Seq<char>,
> {
    if exists|i: int| field_at(fields, name, i) {
        let i = choose|i: int| field_at(fields, name, i);
        if i < row.len() {
            Some(row[i]@)
        } else {
            Option::None
        }
    } else {
        Option::None
    }
}

/// Reads the cell under the first field with the given name.
pub fn lookup_cell(fields: &Vec<String>, row: &Vec<String>, name: &str) -> (r: Option<String>)
    ensures
        match r {
            Some(v) => spec_lookup(fields@, row@, name@) == Some(v@),
            Option::None => spec_lookup(fields@, row@, name@) is None,
        },
{
    match find_field(fields, name) {
        Some(i) => {
            proof {
                let c = choose|j: int| field_at(fields@, name@, j);
                lemma_field_at_unique(fields@, name@, i as int, c);
            }
            if i < row.len() {
                Some(row[i].clone())
            } else {
                None
            }
        },
        None => None,
    }
}

/// Whether the cell under the named field exists and is the empty string.
pub open spec fn spec_empty_cell(fields: Seq<String>, row: Seq<String>, name: Seq<char>) -> bool {
    match spec_lookup(fields, row, name) {
        Some(cell) => cell.len() == 0,
        Option::None => false,
    }
}

/// Tests whether the cell under the named field exists and is empty.
pub fn empty_cell(fields: &Vec<String>, row: &Vec<String>, name: &str) -> (r: bool)
    ensures
        r == spec_empty_cell(fields@, row@, name@),
{
    match lookup_cell(fields, row, name) {
        Some(cell) => cell.as_str().unicode_len() == 0,
        None => false,
    }
}

} // verus!
