//! The acceptance search loop: generate a grid, enumerate all assemblies
//! of its pieces, and stop once at least two distinct valid assemblies
//! agree on few enough positions — or once the cancellation flag is seen.
//!
//! Scores are kept as integer match counts out of SIZE * SIZE cells; a
//! fraction `f` as an acceptance bound corresponds to the count bound
//! `f * SIZE * SIZE`.

use vstd::prelude::*;

use core::sync::atomic::AtomicBool;
use core::sync::atomic::Ordering;

use crate::model::Piece;
use crate::model::Puzzle;
use crate::model::SIZE;
use crate::model::match_count;
use crate::model::puzzle_valid;
use crate::model::spec_match_count;
use crate::solver::PuzzleGen;
use crate::solver::clean_set;
use crate::solver::records;

verus! {

/// An accepted or best-effort search outcome.  `score_count` is the
/// number of positions on which the first two recorded assemblies agree
/// (or the smallest such number seen, when the search was cancelled);
/// `tries` counts the generation rounds run.
#[derive(Debug)]
pub struct Solution {
    pub score_count: usize,
    pub tries: u128,
    pub threshold_count: usize,
    pub edge_count: u8,
    pub values: Vec<Puzzle>,
}

/// The acceptance test of one round: at least two assemblies were found,
/// they form a clean set, and the first two agree on at most
/// `threshold_count` positions.
pub open spec fn round_accepts(values: Seq<Puzzle>, threshold_count: usize) -> bool {
    &&& values.len() >= 2
    &&& clean_set(values)
    &&& spec_match_count(values[0]@, values[1]@, (SIZE * SIZE) as int) <= threshold_count
}

/// Two pointwise view-equal solution lists are clean together or not at
/// all.
proof fn lemma_clean_set_transfers(a: Seq<Puzzle>, b: Seq<Puzzle>)
    requires
        clean_set(a),
        a.len() == b.len(),
        forall|i: int| 0 <= i < b.len() ==> b[i]@ == a[i]@,
    ensures
        clean_set(b),
{
}

/// A grid recorded in one solution list is recorded in every pointwise
/// view-equal list.
proof fn lemma_records_transfers(a: Seq<Puzzle>, b: Seq<Puzzle>, s: Seq<Piece>)
    requires
        records(a, s),
        a.len() == b.len(),
        forall|i: int| 0 <= i < b.len() ==> b[i]@ == a[i]@,
    ensures
        records(b, s),
{
    let w = choose|x: int| 0 <= x < a.len() && a[x]@ == s;
    assert(b[w]@ == s);
}

/// Search round by round until a round is accepted, the cancellation
/// flag is observed set, or the round counter is exhausted.  Whatever
/// ends the search, `values` holds the last round's complete solver
/// output: each member valid and all of them arrangements of one and the
/// same multiset of pieces, at least one present, and every valid
/// arrangement of that multiset recorded.  `score_count` is exactly the
/// number of positions on which the first two returned assemblies agree
/// whenever the returned set passes the acceptance test; a cancelled or
/// exhausted search never returns an accepting set, and reports instead
/// the smallest score seen.
pub fn get_puzzle_with_score(
    threshold_count: usize,
    edge_count: u8,
    terminated: &AtomicBool,
) -> (sol: Solution)
    requires
        edge_count >= 1,
    ensures
        sol.threshold_count == threshold_count,
        sol.edge_count == edge_count,
        sol.tries >= 1,
        sol.score_count <= SIZE * SIZE,
        sol.values@.len() >= 1,
        forall|i: int| 0 <= i < sol.values@.len() ==> puzzle_valid((#[trigger] sol.values@[i])@),
        forall|i: int, j: int| #![trigger sol.values@[i]@, sol.values@[j]@]
            0 <= i < sol.values@.len() && 0 <= j < sol.values@.len()
                ==> sol.values@[i]@.to_multiset() == sol.values@[j]@.to_multiset(),
        forall|s: Seq<Piece>|
            puzzle_valid(s) && s.to_multiset() == sol.values@[0]@.to_multiset()
                ==> #[trigger] records(sol.values@, s),
        round_accepts(sol.values@, threshold_count) ==> sol.score_count == spec_match_count(
            sol.values@[0]@,
            sol.values@[1]@,
            (SIZE * SIZE) as int,
        ) && sol.score_count <= threshold_count,
{
    let mut pg = PuzzleGen::new(edge_count);
    let mut tries: u128 = 0;
    let mut closest: usize = SIZE * SIZE;

    loop
        invariant
            tries < u128::MAX,
            closest <= SIZE * SIZE,
            edge_count >= 1,
            pg.edge_count == edge_count,
        decreases u128::MAX - tries,
    {
        pg.new_puzzle();
        let ghost fresh = pg.pieces@;
        pg.solve();
        tries = tries + 1;

        proof {
            assert(records(pg.solutions@, fresh));
            assert(pg.solutions@.len() >= 1) by {
                let w = choose|x: int| 0 <= x < pg.solutions@.len() && pg.solutions@[x]@ == fresh;
            }
        }

        if pg.solutions.len() >= 2 {
            let score = match_count(&pg.solutions[0], &pg.solutions[1]);
            let clean = pg.check_solutions();
            if clean && score <= threshold_count {
                let values = pg.get_solutions();
                proof {
                    lemma_clean_set_transfers(pg.solutions@, values@);
                    assert forall|s: Seq<Piece>|
                        puzzle_valid(s) && s.to_multiset()
                            == values@[0]@.to_multiset() implies #[trigger] records(
                        values@,
                        s,
                    ) by {
                        assert(values@[0]@ == pg.solutions@[0]@);
                        assert(pg.solutions@[0]@.to_multiset() == fresh.to_multiset());
                        assert(records(pg.solutions@, s));
                        lemma_records_transfers(pg.solutions@, values@, s);
                    }
                }
                return Solution { score_count: score, tries, threshold_count, edge_count, values };
            }
            if score < closest {
                closest = score;
            }
        }

        if terminated.load(Ordering::SeqCst) || tries == u128::MAX {
            let values = pg.get_solutions();
            proof {
                assert(!round_accepts(values@, threshold_count)) by {
                    if values@.len() >= 2 {
                        if clean_set(values@) {
                            lemma_clean_set_transfers(values@, pg.solutions@);
                        }
                    }
                }
                assert forall|s: Seq<Piece>|
                    puzzle_valid(s) && s.to_multiset()
                        == values@[0]@.to_multiset() implies #[trigger] records(values@, s) by {
                    assert(values@[0]@ == pg.solutions@[0]@);
                    assert(pg.solutions@[0]@.to_multiset() == fresh.to_multiset());
                    assert(records(pg.solutions@, s));
                    lemma_records_transfers(pg.solutions@, values@, s);
                }
            }
            return Solution {
                score_count: closest,
                tries,
                threshold_count,
                edge_count,
                values,
            };
        }
    }
}

} // verus!
