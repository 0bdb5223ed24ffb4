//! The lexer: a command line splits on ASCII spaces into lexemes, and empty
//! segments are dropped.

use vstd::prelude::*;

verus! {

/// The length of the leading run of non-space characters.
pub open spec fn token_len(s: Seq<char>) -> int
    decreases s.len(),
{
    if s.len() == 0 || s[0] == ' ' {
        0
    } else {
        1 + token_len(s.drop_first())
    }
}

/// The token length is within the sequence.
pub proof fn lemma_token_len_bounds(s: Seq<char>)
    ensures
        0 <= token_len(s) <= s.len(),
    decreases s.len(),
{
    if s.len() > 0 && s[0] != ' ' {
        lemma_token_len_bounds(s.drop_first());
    }
}

/// The lexemes of a line: maximal runs of non-space characters, in order.
pub open spec fn spec_lex(s: Seq<char>) -> Seq<Seq<char>>
    decreases s.len(),
    via spec_lex_decreases
{
    if s.len() == 0 {
        Seq::empty()
    } else if s[0] == ' ' {
        spec_lex(s.drop_first())
    } else {
        seq![s.take(token_len(s))] + spec_lex(s.skip(token_len(s)))
    }
}

#[via_fn]
proof fn spec_lex_decreases(s: Seq<char>) {
    if s.len() > 0 && s[0] != ' ' {
        lemma_token_len_bounds(s.drop_first());
        assert(token_len(s) >= 1);
    }
}

/// A run of non-space characters closed by a space or the end has exactly
/// the token length.
proof fn lemma_token_len_pins(s: Seq<char>, j: int)
    requires
        0 <= j <= s.len(),
        forall|p: int| 0 <= p < j ==> s[p] != ' ',
        j == s.len() || s[j] == ' ',
    ensures
        token_len(s) == j,
    decreases j,
{
    if j == 0 {
    } else {
        assert(s[0] != ' ');
        lemma_token_len_pins(s.drop_first(), j - 1);
    }
}

/// Splits a command line into lexemes on spaces, dropping empty segments.
#[verifier::loop_isolation(false)]
pub fn lex(line: &str) -> (r: Vec<String>)
    ensures
        r@.map_values(|t: String| t@) == spec_lex(line@),
{
    let n = line.unicode_len();
    let mut out: Vec<String> = Vec::new();
    let mut i: usize = 0;
    proof {
        assert(line@.skip(0) =~= line@);
        assert(out@.map_values(|t: String| t@) =~= Seq::<Seq<char>>::empty());
        assert(Seq::<Seq<char>>::empty() + spec_lex(line@) =~= spec_lex(line@));
    }
    while i < n
        invariant
            0 <= i <= n,
            out@.map_values(|t: String| t@) + spec_lex(line@.skip(i as int)) == spec_lex(line@),
        decreases n - i,
    {
        let c = line.get_char(i);
        if c == ' ' {
            proof {
                assert(line@.skip(i as int).drop_first() =~= line@.skip(i + 1));
            }
            i = i + 1;
        } else {
            let start = i;
            let mut j = i + 1;
            while j < n && line.get_char(j) != ' '
                invariant
                    start < j <= n,
                    forall|p: int| start <= p < j ==> line@[p] != ' ',
                decreases n - j,
            {
                j = j + 1;
            }
            let tok = line.substring_char(start, j).to_owned();
            proof {
                let rest = line@.skip(start as int);
                let old_map = out@.map_values(|t: String| t@);
                lemma_token_len_pins(rest, j - start);
                assert(rest.take(j - start) =~= line@.subrange(start as int, j as int));
                assert(rest.skip(j - start) =~= line@.skip(j as int));
                assert(tok@ == rest.take(token_len(rest)));
                assert(spec_lex(rest) == seq![tok@] + spec_lex(line@.skip(j as int)));
                assert((out@.push(tok)).map_values(|t: String| t@) =~= old_map.push(tok@));
                assert(old_map.push(tok@) + spec_lex(line@.skip(j as int)) =~= old_map + (seq![
                    tok@,
                ] + spec_lex(line@.skip(j as int))));
            }
            out.push(tok);
            i = j;
        }
    }
    proof {
        assert(spec_lex(line@.skip(n as int)) =~= Seq::<Seq<char>>::empty());
        assert(out@.map_values(|t: String| t@) + Seq::<Seq<char>>::empty() =~= out@.map_values(
            |t: String| t@,
        ));
    }
    out
}

} // verus!
