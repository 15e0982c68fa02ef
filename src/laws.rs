use vstd::prelude::*;
use crate::matrix::{cell, column_cell, dim, has_valid_entry, lemma_row_names, row_name};
use crate::setting::Setting;

verus! {

/// A voter with no recorded vote sends all of their weight to the blank sink,
/// and the blank sink keeps whatever reaches it.
pub proof fn lemma_absent_voter_goes_blank<W>(s: &Setting<W>, zero: W, one: W, c: int)
    requires
        s.wf(),
        0 <= c < s.voter_names().len(),
        !s.ballots().contains_key(s.voter_names()[c]),
    ensures
        forall|r: int|
            0 <= r < dim(s) ==> #[trigger] cell(s, zero, one, r, c) == if r == dim(s) - 1 {
                one
            } else {
                zero
            },
        forall|r: int|
            0 <= r < dim(s) ==> #[trigger] cell(s, zero, one, r, dim(s) - 1) == if r == dim(s) - 1 {
                one
            } else {
                zero
            },
{
    assert(!has_valid_entry(s, s.ballot_of(s.voter_names()[c])));
}

/// A recorded weight for a name that is neither a voter nor a policy has no
/// effect on the voter's column: the column is the one that the vote without
/// that entry makes, whose valid entries are kept as they are.
pub proof fn lemma_unknown_target_dropped<W>(
    s: &Setting<W>,
    b: Map<Seq<char>, W>,
    x: Seq<char>,
    zero: W,
    one: W,
)
    requires
        s.wf(),
        !s.is_target(x),
    ensures
        forall|r: int|
            0 <= r < dim(s) ==> #[trigger] column_cell(s, b, zero, one, r) == column_cell(
                s,
                b.remove(x),
                zero,
                one,
                r,
            ),
{
    lemma_row_names(s);
    assert(has_valid_entry(s, b) == has_valid_entry(s, b.remove(x))) by {
        if has_valid_entry(s, b) {
            let k = choose|k: Seq<char>| #[trigger] b.contains_key(k) && s.is_target(k);
            assert(b.remove(x).contains_key(k));
        }
        if has_valid_entry(s, b.remove(x)) {
            let k = choose|k: Seq<char>| #[trigger] b.remove(x).contains_key(k) && s.is_target(k);
            assert(b.contains_key(k));
        }
    }
    assert forall|r: int| 0 <= r < dim(s) implies #[trigger] column_cell(s, b, zero, one, r)
        == column_cell(s, b.remove(x), zero, one, r) by {
        if r < dim(s) - 1 {
            assert(s.is_target(row_name(s, r)));
        }
    }
}

} // verus!
