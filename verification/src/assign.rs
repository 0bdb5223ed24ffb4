//! Assignments: `$field = <modification>` and lists of them, evaluated
//! against rows by the `set`, `insert-row` and `insert-column` commands.

use vstd::prelude::*;
use vstd::pervasive::VecAdditionalExecFns;
use crate::modification::{
    Modification, ModificationV, spec_parse_modification, spec_eval_modification,
};
use crate::strutil::{field_at, find_field, lemma_field_at_unique, str_eq};
use crate::value::{ParseResult, ParseOutcome, parse_field_name, spec_parse_field_name};

verus! {

/// One assignment: the target field and the modification producing its new
/// value.
#[derive(Debug)]
pub struct Assignment {
    pub field_name: String,
    pub modification: Modification,
}

/// The assignments of one command, applied in order.
#[derive(Debug)]
pub struct AssignList {
    pub assignments: Vec<Assignment>,
}

/// The mathematical content of an assignment.
pub struct AssignmentV {
    pub field_name: Seq<char>,
    pub modification: ModificationV,
}

impl View for Assignment {
    type V = AssignmentV;

    open spec fn view(&self) -> AssignmentV {
        AssignmentV { field_name: self.field_name@, modification: self.modification@ }
    }
}

impl View for AssignList {
    type V = Seq<AssignmentV>;

    open spec fn view(&self) -> Seq<AssignmentV> {
        self.assignments@.map_values(|a: Assignment| a@)
    }
}

impl AssignmentV {
    /// Well-formed: every held number is in range.
    pub open spec fn wf(self) -> bool {
        self.modification.wf()
    }
}

/// Whether every assignment of the list is well-formed.
pub open spec fn assign_list_wf(al: Seq<AssignmentV>) -> bool {
    forall|i: int| 0 <= i < al.len() ==> (#[trigger] al[i]).wf()
}

/// How one assignment rewrites one row: when the target field resolves
/// within the row and the modification produces a value, that one cell is
/// overwritten; otherwise the row stays as it was.
pub open spec fn assign_post(
    a: AssignmentV,
    fields: Seq<String>,
    before: Seq<String>,
    after: Seq<String>,
) -> bool {
    if exists|i: int| field_at(fields, a.field_name, i) {
        let i = choose|i: int| field_at(fields, a.field_name, i);
        match spec_eval_modification(a.modification, fields, before) {
            Some(v) => if 0 <= i < before.len() {
                &&& after.len() == before.len()
                &&& after[i]@ == v
                &&& forall|j: int| 0 <= j < before.len() && j != i ==> after[j] == before[j]
            } else {
                after == before
            },
            Option::None => after == before,
        }
    } else {
        after == before
    }
}

/// How a list of assignments rewrites one row: each one in order.
pub open spec fn assigns_post(
    al: Seq<AssignmentV>,
    fields: Seq<String>,
    before: Seq<String>,
    after: Seq<String>,
) -> bool
    decreases al.len(),
{
    if al.len() == 0 {
        after == before
    } else {
        exists|mid: Seq<String>|
            #[trigger] assign_post(al[0], fields, before, mid) && assigns_post(
                al.drop_first(),
                fields,
                mid,
                after,
            )
    }
}

/// A list of assignments followed by one more is the one-longer list.
proof fn lemma_assigns_snoc(
    al: Seq<AssignmentV>,
    a: AssignmentV,
    fields: Seq<String>,
    before: Seq<String>,
    mid: Seq<String>,
    after: Seq<String>,
)
    requires
        assigns_post(al, fields, before, mid),
        assign_post(a, fields, mid, after),
    ensures
        assigns_post(al.push(a), fields, before, after),
    decreases al.len(),
{
    if al.len() == 0 {
        assert(al.push(a)[0] == a);
        assert(al.push(a).drop_first() =~= Seq::<AssignmentV>::empty());
        assert(assigns_post(al.push(a).drop_first(), fields, after, after));
    } else {
        let m0 = choose|m0: Seq<String>|
            #[trigger] assign_post(al[0], fields, before, m0) && assigns_post(
                al.drop_first(),
                fields,
                m0,
                mid,
            );
        lemma_assigns_snoc(al.drop_first(), a, fields, m0, mid, after);
        assert(al.push(a).drop_first() =~= al.drop_first().push(a));
        assert(al.push(a)[0] == al[0]);
    }
}

/// The assignment the lexemes denote at `idx`: a field reference, the `=`
/// keyword, and a modification.
pub open spec fn spec_parse_assignment(lex: Seq<String>, idx: int) -> ParseOutcome<AssignmentV> {
    if !(0 <= idx < lex.len()) {
        ParseOutcome::Absent
    } else {
        match spec_parse_field_name(lex[idx]@) {
            Option::None => ParseOutcome::Absent,
            Some(name) => if idx + 1 < lex.len() && lex[idx + 1]@ == "="@ {
                match spec_parse_modification(lex, idx + 2) {
                    ParseOutcome::Matched(m, nx) => ParseOutcome::Matched(
                        AssignmentV { field_name: name, modification: m },
                        nx,
                    ),
                    ParseOutcome::Absent => ParseOutcome::SyntaxError,
                    ParseOutcome::SyntaxError => ParseOutcome::SyntaxError,
                }
            } else {
                ParseOutcome::SyntaxError
            },
        }
    }
}

/// The assignment list the lexemes denote at `idx`: one or more
/// assignments, ending where none follows.
pub open spec fn spec_parse_assign_list(lex: Seq<String>, idx: int) -> ParseOutcome<
    Seq<AssignmentV>,
>
    decreases lex.len() - idx,
{
    match spec_parse_assignment(lex, idx) {
        ParseOutcome::Matched(a, nx) => if idx < nx <= lex.len() {
            match spec_parse_assign_list(lex, nx) {
                ParseOutcome::Matched(rest, nx2) => ParseOutcome::Matched(seq![a] + rest, nx2),
                ParseOutcome::Absent => ParseOutcome::Matched(seq![a], nx),
                ParseOutcome::SyntaxError => ParseOutcome::SyntaxError,
            }
        } else {
            ParseOutcome::SyntaxError
        },
        ParseOutcome::Absent => ParseOutcome::Absent,
        ParseOutcome::SyntaxError => ParseOutcome::SyntaxError,
    }
}

impl Assignment {
    /// Parses one assignment at `idx`.
    pub fn parse(lexemes: &Vec<String>, idx: usize) -> (r: (ParseResult<Assignment>, usize))
        ensures
            match spec_parse_assignment(lexemes@, idx as int) {
                ParseOutcome::Matched(av, nx) => r.0 is Matched && (r.0)->Matched_0@ == av && (
                r.0)->Matched_0@.wf() && r.1 == nx && idx < r.1 <= lexemes@.len(),
                ParseOutcome::Absent => r.0 is Absent && r.1 == idx,
                ParseOutcome::SyntaxError => r.0 is SyntaxError && r.1 == idx,
            },
    {
        if idx >= lexemes.len() {
            return (ParseResult::Absent, idx);
        }
        let field_name = match parse_field_name(&lexemes[idx]) {
            Some(f) => f,
            None => {
                return (ParseResult::Absent, idx);
            },
        };
        if !(idx + 1 < lexemes.len() && str_eq(lexemes[idx + 1].as_str(), "=")) {
            return (ParseResult::SyntaxError, idx);
        }
        let (mr, nx) = Modification::parse(lexemes, idx + 2);
        match mr {
            ParseResult::Matched(m) => (
                ParseResult::Matched(Assignment { field_name, modification: m }),
                nx,
            ),
            ParseResult::Absent => (ParseResult::SyntaxError, idx),
            ParseResult::SyntaxError => (ParseResult::SyntaxError, idx),
        }
    }

    /// Rewrites the target cell of one row from the modification; a missing
    /// field or a failed modification leaves the row unchanged.
    pub fn evaluate(&self, fields: &Vec<String>, row: &mut Vec<String>)
        requires
            self@.wf(),
        ensures
            assign_post(self@, fields@, old(row)@, final(row)@),
            final(row)@.len() == old(row)@.len(),
    {
        match find_field(fields, self.field_name.as_str()) {
            Some(i) => {
                proof {
                    let c = choose|k: int| field_at(fields@, self.field_name@, k);
                    lemma_field_at_unique(fields@, self.field_name@, i as int, c);
                }
                match self.modification.evaluate(fields, row) {
                    Some(v) => {
                        if i < row.len() {
                            row.set(i, v);
                        }
                    },
                    None => {},
                }
            },
            None => {},
        }
    }
}

impl AssignList {
    /// Parses one or more assignments at `idx`.
    pub fn parse(lexemes: &Vec<String>, idx: usize) -> (r: (ParseResult<AssignList>, usize))
        ensures
            match spec_parse_assign_list(lexemes@, idx as int) {
                ParseOutcome::Matched(av, nx) => r.0 is Matched && (r.0)->Matched_0@ == av
                    && assign_list_wf((r.0)->Matched_0@) && r.1 == nx && idx < r.1 <= lexemes@.len(),
                ParseOutcome::Absent => r.0 is Absent && r.1 == idx,
                ParseOutcome::SyntaxError => r.0 is SyntaxError && r.1 == idx,
            },
        decreases lexemes@.len() - idx,
    {
        let (ar, nx) = Assignment::parse(lexemes, idx);
        match ar {
            ParseResult::Matched(a) => {
                let (lr, nx2) = AssignList::parse(lexemes, nx);
                match lr {
                    ParseResult::Matched(mut rest) => {
                        let ghost rest_view = rest@;
                        rest.assignments.insert(0, a);
                        proof {
                            assert(rest.assignments@.map_values(|x: Assignment| x@) =~= seq![a@]
                                + rest_view);
                        }
                        (ParseResult::Matched(rest), nx2)
                    },
                    ParseResult::Absent => {
                        let mut v: Vec<Assignment> = Vec::new();
                        v.push(a);
                        proof {
                            assert(v@.map_values(|x: Assignment| x@) =~= seq![a@]);
                        }
                        (ParseResult::Matched(AssignList { assignments: v }), nx)
                    },
                    ParseResult::SyntaxError => (ParseResult::SyntaxError, idx),
                }
            },
            ParseResult::Absent => (ParseResult::Absent, idx),
            ParseResult::SyntaxError => (ParseResult::SyntaxError, idx),
        }
    }

    /// Applies every assignment to the row, in order.
    #[verifier::loop_isolation(false)]
    pub fn set_evaluation(&self, fields: &Vec<String>, row: &mut Vec<String>)
        requires
            assign_list_wf(self@),
        ensures
            assigns_post(self@, fields@, old(row)@, final(row)@),
            final(row)@.len() == old(row)@.len(),
    {
        let ghost before = row@;
        let mut i: usize = 0;
        proof {
            assert(self@.take(0) =~= Seq::<AssignmentV>::empty());
        }
        while i < self.assignments.len()
            invariant
                0 <= i <= self.assignments@.len(),
                row@.len() == before.len(),
                assigns_post(self@.take(i as int), fields@, before, row@),
            decreases self.assignments@.len() - i,
        {
            let ghost mid = row@;
            self.assignments[i].evaluate(fields, row);
            proof {
                lemma_assigns_snoc(
                    self@.take(i as int),
                    self@[i as int],
                    fields@,
                    before,
                    mid,
                    row@,
                );
                assert(self@.take(i as int).push(self@[i as int]) =~= self@.take(i + 1));
            }
            i = i + 1;
        }
        proof {
            assert(self@.take(self@.len() as int) =~= self@);
        }
    }

    /// Appends a fresh row built from the assignments: every cell starts
    /// empty, then the assignments run on the new row.
    #[verifier::loop_isolation(false)]
    pub fn insert_row_evaluation(&self, fields: &Vec<String>, rows: &mut Vec<Vec<String>>)
        requires
            assign_list_wf(self@),
        ensures
            final(rows)@.len() == old(rows)@.len() + 1,
            final(rows)@.take(old(rows)@.len() as int) == old(rows)@,
            final(rows)@.last()@.len() == fields@.len(),
            exists|nr0: Seq<String>|
                nr0.len() == fields@.len() && (forall|j: int|
                    0 <= j < nr0.len() ==> (#[trigger] nr0[j])@.len() == 0) && assigns_post(
                    self@,
                    fields@,
                    nr0,
                    final(rows)@.last()@,
                ),
    {
        let mut new_row: Vec<String> = Vec::new();
        let n = fields.len();
        while new_row.len() < n
            invariant
                new_row@.len() <= n,
                forall|j: int| 0 <= j < new_row@.len() ==> (#[trigger] new_row@[j])@.len() == 0,
            decreases n - new_row@.len(),
        {
            new_row.push(String::new());
        }
        let ghost nr0 = new_row@;
        self.set_evaluation(fields, &mut new_row);
        let ghost nr = new_row@;
        rows.push(new_row);
        proof {
            assert(rows@.take(old(rows)@.len() as int) =~= old(rows)@);
            assert(rows@.last()@ == nr);
            assert(nr0.len() == fields@.len() && (forall|j: int|
                0 <= j < nr0.len() ==> (#[trigger] nr0[j])@.len() == 0) && assigns_post(
                self@,
                fields@,
                nr0,
                rows@.last()@,
            ));
        }
    }
}


/// The cell an insert-column assignment writes into one row: the
/// modification's value where the filter held and it produced one, the
/// empty string otherwise.
pub open spec fn spec_new_cell(
    m: ModificationV,
    fields_after: Seq<String>,
    row: Seq<String>,
    cond: bool,
) -> Seq<char> {
    if cond {
        match spec_eval_modification(m, fields_after, row) {
            Some(v) => v,
            Option::None => Seq::empty(),
        }
    } else {
        Seq::empty()
    }
}

/// How one insert-column assignment rewrites the table: targeting an
/// existing field changes nothing; otherwise the field is appended and
/// every row grows one cell, filled where the filter held.
pub open spec fn insert_col_post(
    a: AssignmentV,
    conds: Seq<bool>,
    f0: Seq<String>,
    r0: Seq<Vec<String>>,
    f1: Seq<String>,
    r1: Seq<Vec<String>>,
) -> bool {
    if exists|k: int| field_at(f0, a.field_name, k) {
        f1 == f0 && r1 == r0
    } else {
        &&& f1.len() == f0.len() + 1
        &&& f1.take(f0.len() as int) == f0
        &&& f1.last()@ == a.field_name
        &&& r1.len() == r0.len()
        &&& forall|i: int|
            0 <= i < r0.len() ==> {
                &&& (#[trigger] r1[i])@.len() == r0[i]@.len() + 1
                &&& r1[i]@.take(r0[i]@.len() as int) == r0[i]@
                &&& r1[i]@.last()@ == spec_new_cell(a.modification, f1, r0[i]@, conds[i])
            }
    }
}

/// How a list of insert-column assignments rewrites the table: each one in
/// order.
pub open spec fn insert_cols_post(
    al: Seq<AssignmentV>,
    conds: Seq<bool>,
    f0: Seq<String>,
    r0: Seq<Vec<String>>,
    f1: Seq<String>,
    r1: Seq<Vec<String>>,
) -> bool
    decreases al.len(),
{
    if al.len() == 0 {
        f1 == f0 && r1 == r0
    } else {
        exists|fm: Seq<String>, rm: Seq<Vec<String>>|
            #[trigger] insert_col_post(al[0], conds, f0, r0, fm, rm) && insert_cols_post(
                al.drop_first(),
                conds,
                fm,
                rm,
                f1,
                r1,
            )
    }
}

/// A list of insert-column assignments followed by one more is the
/// one-longer list.
proof fn lemma_insert_cols_snoc(
    al: Seq<AssignmentV>,
    a: AssignmentV,
    conds: Seq<bool>,
    f0: Seq<String>,
    r0: Seq<Vec<String>>,
    fm: Seq<String>,
    rm: Seq<Vec<String>>,
    f1: Seq<String>,
    r1: Seq<Vec<String>>,
)
    requires
        insert_cols_post(al, conds, f0, r0, fm, rm),
        insert_col_post(a, conds, fm, rm, f1, r1),
    ensures
        insert_cols_post(al.push(a), conds, f0, r0, f1, r1),
    decreases al.len(),
{
    if al.len() == 0 {
        assert(al.push(a)[0] == a);
        assert(al.push(a).drop_first() =~= Seq::<AssignmentV>::empty());
        assert(insert_cols_post(al.push(a).drop_first(), conds, f1, r1, f1, r1));
    } else {
        let (fx, rx) = choose|fx: Seq<String>, rx: Seq<Vec<String>>|
            #[trigger] insert_col_post(al[0], conds, f0, r0, fx, rx) && insert_cols_post(
                al.drop_first(),
                conds,
                fx,
                rx,
                fm,
                rm,
            );
        lemma_insert_cols_snoc(al.drop_first(), a, conds, fx, rx, fm, rm, f1, r1);
        assert(al.push(a).drop_first() =~= al.drop_first().push(a));
        assert(al.push(a)[0] == al[0]);
    }
}

impl Assignment {
    /// Appends a new field and fills its cell in every row; rows failing
    /// the filter get an empty cell, and an existing field name changes
    /// nothing.
    #[verifier::loop_isolation(false)]
    pub fn insert_column_evaluation(
        &self,
        fields: &mut Vec<String>,
        rows: &mut Vec<Vec<String>>,
        conds: &Vec<bool>,
    )
        requires
            self@.wf(),
            old(rows)@.len() == conds@.len(),
        ensures
            insert_col_post(self@, conds@, old(fields)@, old(rows)@, final(fields)@, final(rows)@),
            final(rows)@.len() == old(rows)@.len(),
    {
        let ghost f0 = fields@;
        let ghost r0 = rows@;
        match find_field(fields, self.field_name.as_str()) {
            Some(i) => {
                proof {
                    assert(field_at(f0, self@.field_name, i as int));
                    assert(insert_col_post(self@, conds@, f0, r0, fields@, rows@));
                }
            },
            None => {
                fields.push(self.field_name.clone());
                proof {
                    assert(fields@.take(f0.len() as int) =~= f0);
                    assert(fields@.len() == f0.len() + 1);
                }
                let mut i: usize = 0;
                while i < rows.len()
                    invariant
                        0 <= i <= rows@.len(),
                        rows@.len() == r0.len() == conds@.len(),
                        fields@.len() == f0.len() + 1,
                        fields@.take(f0.len() as int) == f0,
                        fields@.last()@ == self.field_name@,
                        forall|k: int| i <= k < r0.len() ==> rows@[k] == r0[k],
                        forall|k: int|
                            0 <= k < i ==> {
                                &&& (#[trigger] rows@[k])@.len() == r0[k]@.len() + 1
                                &&& rows@[k]@.take(r0[k]@.len() as int) == r0[k]@
                                &&& rows@[k]@.last()@ == spec_new_cell(
                                    self@.modification,
                                    fields@,
                                    r0[k]@,
                                    conds@[k],
                                )
                            },
                    decreases rows@.len() - i,
                {
                    let ghost s_pre = rows@;
                    let mut row = rows.remove(i);
                    let ghost rbefore = row@;
                    let cell: String = if conds[i] {
                        match self.modification.evaluate(fields, &row) {
                            Some(v) => v,
                            None => String::new(),
                        }
                    } else {
                        String::new()
                    };
                    row.push(cell);
                    proof {
                        assert(row@.take(rbefore.len() as int) =~= rbefore);
                    }
                    rows.insert(i, row);
                    proof {
                        assert(forall|k: int| 0 <= k < i ==> rows@[k] == s_pre[k]);
                        assert(forall|k: int| i < k < rows@.len() ==> rows@[k] == s_pre[k]);
                    }
                    i = i + 1;
                }
                proof {
                    assert(fields@.len() == f0.len() + 1);
                    assert(insert_col_post(
                        self@,
                        conds@,
                        f0,
                        r0,
                        fields@,
                        rows@,
                    ));
                }
            },
        }
    }
}

impl AssignList {
    /// Appends one column per assignment, in order.
    #[verifier::loop_isolation(false)]
    pub fn insert_column_evaluation(
        &self,
        fields: &mut Vec<String>,
        rows: &mut Vec<Vec<String>>,
        conds: &Vec<bool>,
    )
        requires
            assign_list_wf(self@),
            old(rows)@.len() == conds@.len(),
        ensures
            insert_cols_post(
                self@,
                conds@,
                old(fields)@,
                old(rows)@,
                final(fields)@,
                final(rows)@,
            ),
            final(rows)@.len() == old(rows)@.len(),
    {
        let ghost f0 = fields@;
        let ghost r0 = rows@;
        let mut i: usize = 0;
        proof {
            assert(self@.take(0) =~= Seq::<AssignmentV>::empty());
        }
        while i < self.assignments.len()
            invariant
                0 <= i <= self.assignments@.len(),
                rows@.len() == r0.len() == conds@.len(),
                insert_cols_post(self@.take(i as int), conds@, f0, r0, fields@, rows@),
            decreases self.assignments@.len() - i,
        {
            let ghost fm = fields@;
            let ghost rm = rows@;
            self.assignments[i].insert_column_evaluation(fields, rows, conds);
            proof {
                lemma_insert_cols_snoc(
                    self@.take(i as int),
                    self@[i as int],
                    conds@,
                    f0,
                    r0,
                    fm,
                    rm,
                    fields@,
                    rows@,
                );
                assert(self@.take(i as int).push(self@[i as int]) =~= self@.take(i + 1));
            }
            i = i + 1;
        }
        proof {
            assert(self@.take(self@.len() as int) =~= self@);
        }
    }
}

} // verus!
