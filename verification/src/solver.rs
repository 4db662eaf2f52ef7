//! Exhaustive backtracking assembly of a fixed multiset of pieces into
//! valid grids.  The solver's contract is two-sided: every recorded grid
//! is a valid arrangement of exactly the given pieces, and every valid
//! arrangement of the given pieces is recorded.

use vstd::prelude::*;
use vstd::multiset::Multiset;

use crate::gen::generate_puzzle_with_max;
use crate::model::Piece;
use crate::model::Puzzle;
use crate::model::SIZE;
use crate::model::cell_ok;
use crate::model::grow_puzzle;
use crate::model::flatten_puzzle;
use crate::model::puzzle_valid;
use crate::model::puzzles_equal;
use crate::model::validate_puzzle;

verus! {

broadcast use vstd::seq_lib::group_to_multiset_ensures, vstd::multiset::group_multiset_axioms;

/// The local pruning test of the solver: placed after the committed
/// prefix `cur`, piece `p` agrees with the piece above it and the piece
/// to its left (or carries a 0 edge on the top or left border).
pub open spec fn fits(cur: Seq<Piece>, p: Piece) -> bool {
    let k = cur.len() as int;
    let r = k / (SIZE as int);
    let c = k % (SIZE as int);
    &&& if r == 0 {
        p.top == 0
    } else {
        p.top == cur[k - SIZE].bottom
    }
    &&& if c == 0 {
        p.left == 0
    } else {
        p.left == cur[k - 1].right
    }
}

/// `s` is a full valid grid that extends the committed prefix `cur` and
/// uses exactly the pieces of `cur` and `rem` together.
pub open spec fn is_completion(cur: Seq<Piece>, rem: Seq<Piece>, s: Seq<Piece>) -> bool {
    &&& puzzle_valid(s)
    &&& s.take(cur.len() as int) == cur
    &&& s.to_multiset() == cur.to_multiset().add(rem.to_multiset())
}

/// Some recorded grid holds exactly the cells `s`.
pub open spec fn records(sols: Seq<Puzzle>, s: Seq<Piece>) -> bool {
    exists|x: int| 0 <= x < sols.len() && sols[x]@ == s
}

/// A set of recorded grids is clean when every member is valid and no
/// two members are value-equal.
pub open spec fn clean_set(sols: Seq<Puzzle>) -> bool {
    &&& forall|i: int| 0 <= i < sols.len() ==> puzzle_valid(#[trigger] sols[i]@)
    &&& forall|i: int, j: int| #![trigger sols[i]@, sols[j]@]
        0 <= i < j < sols.len() ==> sols[i]@ != sols[j]@
}

/// In a valid grid, every piece passes the solver's local pruning test
/// against the prefix before it.  This is what makes the early pruning
/// lose no valid arrangement.
pub proof fn lemma_valid_prefix_fits(s: Seq<Piece>, k: int)
    requires
        puzzle_valid(s),
        0 <= k < s.len(),
    ensures
        fits(s.take(k), s[k]),
{
    let r = k / (SIZE as int);
    let c = k % (SIZE as int);
    assert(k == r * SIZE + c) by (nonlinear_arith)
        requires r == k / (SIZE as int) && c == k % (SIZE as int) && SIZE == 5;
    assert(0 <= c < SIZE) by (nonlinear_arith)
        requires c == k % (SIZE as int) && SIZE == 5 && k >= 0;
    assert(0 <= r < SIZE) by (nonlinear_arith)
        requires r == k / (SIZE as int) && SIZE == 5 && 0 <= k < 25;
    assert(cell_ok(s, r, c));
    assert(s.take(k).len() == k);
    if r > 0 {
        assert(s.take(k)[k - SIZE] == s[k - SIZE]);
    }
    if c > 0 {
        assert(s.take(k)[k - 1] == s[k - 1]);
    }
}

fn copy_pieces(v: &Vec<Piece>) -> (r: Vec<Piece>)
    ensures
        r@ == v@,
{
    let mut out: Vec<Piece> = Vec::new();
    let mut i: usize = 0;
    while i < v.len()
        invariant
            i <= v.len(),
            out@ == v@.take(i as int),
        decreases v.len() - i,
    {
        out.push(v[i]);
        i += 1;
    }
    proof {
        assert(v@.take(v@.len() as int) =~= v@);
    }
    out
}

/// One generation round's working state: the freshly built grid, the
/// valid assemblies found for its pieces, and the configured maximum
/// edge label every generation draws from.
#[derive(Debug)]
pub struct PuzzleGen {
    pub pieces: Puzzle,
    pub solutions: Vec<Puzzle>,
    pub edge_count: u8,
}

impl PuzzleGen {
    /// A generator seeded with one fresh grid — valid, row-major ids,
    /// interior edges drawn from [1, edge_types] — and no recorded
    /// solutions yet.
    pub fn new(edge_types: u8) -> (pg: PuzzleGen)
        requires
            edge_types >= 1,
        ensures
            crate::gen::freshly_generated(pg.pieces@, edge_types),
            pg.solutions@.len() == 0,
            pg.edge_count == edge_types,
    {
        PuzzleGen {
            pieces: generate_puzzle_with_max(edge_types),
            solutions: Vec::new(),
            edge_count: edge_types,
        }
    }

    /// Replace the grid by a fresh one — valid, row-major ids, interior
    /// edges drawn from [1, edge_count] — and forget all recorded
    /// solutions.
    pub fn new_puzzle(&mut self)
        requires
            old(self).edge_count >= 1,
        ensures
            crate::gen::freshly_generated(final(self).pieces@, old(self).edge_count),
            final(self).solutions@.len() == 0,
            final(self).edge_count == old(self).edge_count,
    {
        self.pieces = generate_puzzle_with_max(self.edge_count);
        self.solutions.clear();
    }

    /// Whether the current grid satisfies both model invariants.
    pub fn is_valid(&self) -> (valid: bool)
        ensures
            valid == puzzle_valid(self.pieces@),
    {
        validate_puzzle(&self.pieces)
    }

    /// A copy of the current grid.
    pub fn get_puzzle(&self) -> (puzzle: Puzzle)
        ensures
            puzzle@ == self.pieces@,
    {
        Puzzle { cells: flatten_puzzle(&self.pieces) }
    }

    /// A copy of the recorded solutions.
    pub fn get_solutions(&self) -> (sols: Vec<Puzzle>)
        ensures
            sols@.len() == self.solutions@.len(),
            forall|i: int| 0 <= i < sols@.len() ==> sols@[i]@ == self.solutions@[i]@,
    {
        let mut out: Vec<Puzzle> = Vec::new();
        let mut i: usize = 0;
        while i < self.solutions.len()
            invariant
                i <= self.solutions@.len(),
                out@.len() == i,
                forall|x: int| 0 <= x < i ==> out@[x]@ == self.solutions@[x]@,
            decreases self.solutions@.len() - i,
        {
            out.push(Puzzle { cells: flatten_puzzle(&self.solutions[i]) });
            i += 1;
        }
        out
    }

    /// Record every valid assembly of the current grid's pieces.
    /// Solutions found earlier stay in place; each recorded grid is valid
    /// and a rearrangement of the current pieces; every valid
    /// rearrangement is recorded — in particular the current grid itself,
    /// whenever it is valid.
    pub fn solve(&mut self)
        requires
            old(self).pieces@.len() == SIZE * SIZE,
        ensures
            final(self).pieces == old(self).pieces,
            final(self).edge_count == old(self).edge_count,
            old(self).solutions@.len() <= final(self).solutions@.len(),
            forall|i: int|
                0 <= i < old(self).solutions@.len() ==> final(self).solutions@[i] == old(
                    self,
                ).solutions@[i],
            forall|i: int|
                old(self).solutions@.len() <= i < final(self).solutions@.len() ==> puzzle_valid(
                    (#[trigger] final(self).solutions@[i])@,
                ) && final(self).solutions@[i]@.to_multiset() == old(self).pieces@.to_multiset(),
            forall|s: Seq<Piece>|
                puzzle_valid(s) && s.to_multiset() == old(self).pieces@.to_multiset()
                    ==> #[trigger] records(final(self).solutions@, s),
            puzzle_valid(old(self).pieces@) ==> records(
                final(self).solutions@,
                old(self).pieces@,
            ),
    {
        let ghost pieces0 = self.pieces@;
        let remaining = flatten_puzzle(&self.pieces);
        let current: Vec<Piece> = Vec::new();
        self.recursive_solve(current, remaining);
        proof {
            assert(Seq::<Piece>::empty().to_multiset() =~= Multiset::<Piece>::empty());
            assert forall|s: Seq<Piece>|
                puzzle_valid(s) && s.to_multiset() == pieces0.to_multiset() implies #[trigger] records(
                self.solutions@,
                s,
            ) by {
                assert(Multiset::<Piece>::empty().add(pieces0.to_multiset()) =~= pieces0.to_multiset());
                assert(s.take(0) =~= Seq::<Piece>::empty());
                assert(is_completion(Seq::<Piece>::empty(), pieces0, s));
            }
        }
    }

    fn recursive_solve(&mut self, current: Vec<Piece>, remaining: Vec<Piece>)
        requires
            current@.len() + remaining@.len() == SIZE * SIZE,
        ensures
            final(self).pieces == old(self).pieces,
            final(self).edge_count == old(self).edge_count,
            old(self).solutions@.len() <= final(self).solutions@.len(),
            forall|i: int|
                0 <= i < old(self).solutions@.len() ==> final(self).solutions@[i] == old(
                    self,
                ).solutions@[i],
            forall|i: int|
                old(self).solutions@.len() <= i < final(self).solutions@.len() ==> puzzle_valid(
                    (#[trigger] final(self).solutions@[i])@,
                ) && final(self).solutions@[i]@.to_multiset() == current@.to_multiset().add(
                    remaining@.to_multiset(),
                ) && final(self).solutions@[i]@.take(current@.len() as int) == current@,
            forall|s: Seq<Piece>|
                #[trigger] is_completion(current@, remaining@, s) ==> records(
                    final(self).solutions@,
                    s,
                ),
        decreases remaining@.len(),
    {
        let ghost cur0 = current@;
        let ghost rem0 = remaining@;
        let ghost sols0 = self.solutions@;

        if remaining.len() == 0 {
            let sol = grow_puzzle(current);
            if validate_puzzle(&sol) {
                self.solutions.push(sol);
                proof {
                    assert(rem0.to_multiset() =~= Multiset::<Piece>::empty());
                    assert(cur0.to_multiset().add(rem0.to_multiset()) =~= cur0.to_multiset());
                    assert(cur0.take(cur0.len() as int) =~= cur0);
                    assert forall|s: Seq<Piece>| #[trigger] is_completion(cur0, rem0, s) implies records(
                        self.solutions@,
                        s,
                    ) by {
                        assert(s.take(cur0.len() as int) =~= s);
                        assert(self.solutions@[sols0.len() as int]@ == s);
                    }
                }
            } else {
                proof {
                    assert forall|s: Seq<Piece>| #[trigger] is_completion(cur0, rem0, s) implies records(
                        self.solutions@,
                        s,
                    ) by {
                        assert(s.take(cur0.len() as int) =~= s);
                        assert(puzzle_valid(cur0));
                    }
                }
            }
            return;
        }

        let ghost pieces0 = self.pieces;
        let ghost ec0 = self.edge_count;
        let mut i: usize = 0;
        while i < remaining.len()
            invariant
                i <= remaining.len(),
                current@ == cur0,
                remaining@ == rem0,
                cur0.len() + rem0.len() == SIZE * SIZE,
                rem0.len() >= 1,
                self.pieces == pieces0,
                self.edge_count == ec0,
                sols0.len() <= self.solutions@.len(),
                forall|x: int| 0 <= x < sols0.len() ==> self.solutions@[x] == sols0[x],
                forall|x: int|
                    sols0.len() <= x < self.solutions@.len() ==> puzzle_valid(
                        (#[trigger] self.solutions@[x])@,
                    ) && self.solutions@[x]@.to_multiset() == cur0.to_multiset().add(
                        rem0.to_multiset(),
                    ) && self.solutions@[x]@.take(cur0.len() as int) == cur0,
                forall|s: Seq<Piece>|
                    #[trigger] is_completion(cur0, rem0, s) && (exists|j: int|
                        0 <= j < i && rem0[j] == s[cur0.len() as int]) ==> records(
                        self.solutions@,
                        s,
                    ),
            decreases rem0.len() - i,
        {
            let check_piece = remaining[i];
            let idx = current.len();
            let row_idx = idx / SIZE;
            let col_idx = idx % SIZE;

            let fits_top = if row_idx == 0 {
                check_piece.top == 0
            } else {
                proof {
                    assert(idx >= SIZE) by (nonlinear_arith)
                        requires row_idx == idx / SIZE && SIZE == 5 && row_idx > 0;
                }
                check_piece.top == current[idx - SIZE].bottom
            };
            let fits_left = if col_idx == 0 {
                check_piece.left == 0
            } else {
                check_piece.left == current[idx - 1].right
            };
            proof {
                assert((fits_top && fits_left) == fits(cur0, check_piece));
            }

            if fits_top && fits_left {
                let mut new_current = copy_pieces(&current);
                new_current.push(check_piece);
                let mut new_remaining = copy_pieces(&remaining);
                new_remaining.remove(i);
                let ghost sols_mid = self.solutions@;
                self.recursive_solve(new_current, new_remaining);
                proof {
                    let p = rem0[i as int];
                    let k = cur0.len() as int;
                    assert(rem0.to_multiset().count(p) > 0) by {
                        assert(rem0.contains(p));
                    }
                    assert(cur0.push(p).to_multiset().add(rem0.remove(i as int).to_multiset())
                        =~= cur0.to_multiset().add(rem0.to_multiset()));
                    assert forall|x: int|
                        sols_mid.len() <= x < self.solutions@.len() implies (
                    #[trigger] self.solutions@[x])@.take(k) == cur0 by {
                        let g = self.solutions@[x]@;
                        assert(g.take(k + 1) == cur0.push(p));
                        assert(g.len() == SIZE * SIZE) by {
                            assert(puzzle_valid(g));
                        }
                        assert forall|j: int| 0 <= j < k implies g.take(k)[j] == cur0[j] by {
                            assert(g.take(k + 1)[j] == cur0.push(p)[j]);
                        }
                        assert(g.take(k) =~= cur0);
                    }
                    assert forall|s: Seq<Piece>|
                        #[trigger] is_completion(cur0, rem0, s) && (exists|j: int|
                            0 <= j < i + 1 && rem0[j] == s[k]) implies records(
                        self.solutions@,
                        s,
                    ) by {
                        if exists|j: int| 0 <= j < i && rem0[j] == s[k] {
                            assert(records(sols_mid, s));
                            let w = choose|x: int| 0 <= x < sols_mid.len() && sols_mid[x]@ == s;
                            assert(self.solutions@[w]@ == s);
                        } else {
                            assert(s[k] == p);
                            assert(s.take(k + 1) =~= s.take(k).push(s[k]));
                            assert(is_completion(cur0.push(p), rem0.remove(i as int), s));
                        }
                    }
                }
            } else {
                proof {
                    let p = rem0[i as int];
                    let k = cur0.len() as int;
                    assert forall|s: Seq<Piece>|
                        #[trigger] is_completion(cur0, rem0, s) && (exists|j: int|
                            0 <= j < i + 1 && rem0[j] == s[k]) implies records(
                        self.solutions@,
                        s,
                    ) by {
                        if exists|j: int| 0 <= j < i && rem0[j] == s[k] {
                        } else {
                            assert(s[k] == p);
                            assert(s.to_multiset().len() == cur0.to_multiset().len()
                                + rem0.to_multiset().len());
                            assert(s.len() == SIZE * SIZE);
                            lemma_valid_prefix_fits(s, k);
                            assert(fits(cur0, p));
                            assert(false);
                        }
                    }
                }
            }
            i += 1;
        }

        proof {
            assert forall|s: Seq<Piece>| #[trigger] is_completion(cur0, rem0, s) implies records(
                self.solutions@,
                s,
            ) by {
                let k = cur0.len() as int;
                assert(s.len() == SIZE * SIZE) by {
                    assert(s.to_multiset().len() == cur0.to_multiset().len()
                        + rem0.to_multiset().len());
                }
                assert(s.take(k) + s.skip(k) =~= s);
                vstd::seq_lib::lemma_multiset_commutative(s.take(k), s.skip(k));
                assert(s.skip(k).to_multiset().count(s[k]) == rem0.to_multiset().count(s[k])) by {
                    assert((s.take(k) + s.skip(k)).to_multiset() == s.to_multiset());
                    assert(s.take(k).to_multiset().add(s.skip(k).to_multiset()) ==
                        cur0.to_multiset().add(rem0.to_multiset()));
                    assert(s.take(k).to_multiset() == cur0.to_multiset());
                    assert(cur0.to_multiset().add(s.skip(k).to_multiset()).count(s[k])
                        == cur0.to_multiset().count(s[k]) + s.skip(k).to_multiset().count(s[k]));
                    assert(cur0.to_multiset().add(rem0.to_multiset()).count(s[k])
                        == cur0.to_multiset().count(s[k]) + rem0.to_multiset().count(s[k]));
                }
                assert(s.skip(k).contains(s[k])) by {
                    assert(s.skip(k)[0] == s[k]);
                }
                assert(rem0.to_multiset().count(s[k]) > 0);
                assert(rem0.contains(s[k]));
            }
        }
    }

    /// Whether the recorded solutions form a clean set: every one valid,
    /// no two value-equal.
    pub fn check_solutions(&self) -> (clean: bool)
        ensures
            clean == clean_set(self.solutions@),
    {
        let n = self.solutions.len();
        let mut i: usize = 0;
        while i < n
            invariant
                n == self.solutions@.len(),
                i <= n,
                forall|x: int| 0 <= x < i ==> puzzle_valid((#[trigger] self.solutions@[x])@),
                forall|x: int, y: int| #![trigger self.solutions@[x]@, self.solutions@[y]@]
                    0 <= x < y < i ==> self.solutions@[x]@ != self.solutions@[y]@,
            decreases n - i,
        {
            if !validate_puzzle(&self.solutions[i]) {
                return false;
            }
            let mut j: usize = 0;
            while j < i
                invariant
                    n == self.solutions@.len(),
                    i < n,
                    j <= i,
                    forall|y: int| 0 <= y < j ==> self.solutions@[y]@ != self.solutions@[i as int]@,
                decreases i - j,
            {
                if puzzles_equal(&self.solutions[j], &self.solutions[i]) {
                    return false;
                }
                j += 1;
            }
            i += 1;
        }
        true
    }
}

} // verus!
