//! The puzzle data model: pieces, grids, the two validity invariants,
//! row-major flattening and reassembly, and the positional match count.

use vstd::prelude::*;

verus! {

/// Side length of every puzzle grid.
pub const SIZE: usize = 5;

/// A single tile: an identity and four edge labels.  Label `0` means the
/// edge must face the puzzle border.
#[derive(Clone, Copy, Debug, PartialEq, Eq, Structural)]
pub struct Piece {
    pub id: usize,
    pub top: u8,
    pub right: u8,
    pub bottom: u8,
    pub left: u8,
}

/// A square grid of pieces, stored in row-major order: the piece at
/// row `r`, column `c` sits at index `r * SIZE + c`.
#[derive(Debug)]
pub struct Puzzle {
    pub cells: Vec<Piece>,
}

impl View for Puzzle {
    type V = Seq<Piece>;

    open spec fn view(&self) -> Seq<Piece> {
        self.cells@
    }
}

/// The grid holds exactly SIZE * SIZE pieces.
pub open spec fn complete(cells: Seq<Piece>) -> bool {
    cells.len() == SIZE * SIZE
}

/// Both invariants at row `r`, column `c` of a row-major grid: border
/// edges are 0, and the piece agrees with its upper and left neighbours.
pub open spec fn cell_ok(cells: Seq<Piece>, r: int, c: int) -> bool {
    let p = cells[r * SIZE + c];
    &&& (r == 0 ==> p.top == 0)
    &&& (r == SIZE - 1 ==> p.bottom == 0)
    &&& (c == 0 ==> p.left == 0)
    &&& (c == SIZE - 1 ==> p.right == 0)
    &&& (r > 0 ==> cells[(r - 1) * SIZE + c].bottom == p.top)
    &&& (c > 0 ==> cells[r * SIZE + (c - 1)].right == p.left)
}

/// A grid is valid when it is complete and every cell satisfies the
/// border and adjacency rules.
pub open spec fn puzzle_valid(cells: Seq<Piece>) -> bool {
    &&& complete(cells)
    &&& forall|r: int, c: int|
        0 <= r < SIZE && 0 <= c < SIZE ==> #[trigger] cell_ok(cells, r, c)
}

/// Decide whether both model invariants hold of a grid.
pub fn validate_puzzle(puzzle: &Puzzle) -> (valid: bool)
    ensures
        valid == puzzle_valid(puzzle@),
{
    if puzzle.cells.len() != SIZE * SIZE {
        return false;
    }
    let mut row_idx: usize = 0;
    while row_idx < SIZE
        invariant
            row_idx <= SIZE,
            puzzle.cells@.len() == SIZE * SIZE,
            forall|r: int, c: int|
                0 <= r < row_idx && 0 <= c < SIZE ==> #[trigger] cell_ok(puzzle.cells@, r, c),
        decreases SIZE - row_idx,
    {
        let mut col_idx: usize = 0;
        while col_idx < SIZE
            invariant
                row_idx < SIZE,
                col_idx <= SIZE,
                puzzle.cells@.len() == SIZE * SIZE,
                forall|r: int, c: int|
                    0 <= r < row_idx && 0 <= c < SIZE ==> #[trigger] cell_ok(puzzle.cells@, r, c),
                forall|c: int|
                    0 <= c < col_idx ==> #[trigger] cell_ok(puzzle.cells@, row_idx as int, c),
            decreases SIZE - col_idx,
        {
            let piece = puzzle.cells[row_idx * SIZE + col_idx];

            if (row_idx == 0 && piece.top != 0)
                || (row_idx == SIZE - 1 && piece.bottom != 0)
                || (col_idx == 0 && piece.left != 0)
                || (col_idx == SIZE - 1 && piece.right != 0)
            {
                assert(!cell_ok(puzzle.cells@, row_idx as int, col_idx as int));
                return false;
            }

            if row_idx > 0 && puzzle.cells[(row_idx - 1) * SIZE + col_idx].bottom != piece.top {
                assert(!cell_ok(puzzle.cells@, row_idx as int, col_idx as int));
                return false;
            }
            if col_idx > 0 && puzzle.cells[row_idx * SIZE + (col_idx - 1)].right != piece.left {
                assert(!cell_ok(puzzle.cells@, row_idx as int, col_idx as int));
                return false;
            }
            col_idx += 1;
        }
        row_idx += 1;
    }
    true
}

/// The pieces of a grid as one row-major sequence.
pub fn flatten_puzzle(puzzle: &Puzzle) -> (pieces: Vec<Piece>)
    ensures
        pieces@ == puzzle@,
{
    let mut out: Vec<Piece> = Vec::new();
    let mut i: usize = 0;
    while i < puzzle.cells.len()
        invariant
            i <= puzzle.cells.len(),
            out@ == puzzle.cells@.take(i as int),
        decreases puzzle.cells.len() - i,
    {
        out.push(puzzle.cells[i]);
        i += 1;
    }
    proof {
        assert(puzzle.cells@.take(puzzle.cells@.len() as int) =~= puzzle.cells@);
    }
    out
}

/// Reassemble a row-major sequence of pieces into a grid.
pub fn grow_puzzle(pieces: Vec<Piece>) -> (puzzle: Puzzle)
    requires
        pieces@.len() == SIZE * SIZE,
    ensures
        puzzle@ == pieces@,
{
    Puzzle { cells: pieces }
}

/// Round-trip law: flattening a grid in row-major order and reassembling
/// the flattened sequence in the same order reproduces the grid exactly.
/// `flat` is what `flatten_puzzle` returns for a grid holding `p`, and
/// `rebuilt` is what `grow_puzzle` returns for `flat`; their contracts
/// compose to the identity.
pub proof fn lemma_flatten_grow_round_trip(p: Seq<Piece>, flat: Seq<Piece>, rebuilt: Seq<Piece>)
    requires
        flat == p,
        rebuilt == flat,
    ensures
        rebuilt == p,
{
}

/// Compare two grids cell by cell.
pub fn puzzles_equal(a: &Puzzle, b: &Puzzle) -> (eq: bool)
    ensures
        eq == (a@ == b@),
{
    if a.cells.len() != b.cells.len() {
        assert(a@ != b@);
        return false;
    }
    let mut i: usize = 0;
    while i < a.cells.len()
        invariant
            i <= a.cells.len(),
            a.cells@.len() == b.cells@.len(),
            forall|j: int| 0 <= j < i ==> a.cells@[j] == b.cells@[j],
        decreases a.cells.len() - i,
    {
        if a.cells[i] != b.cells[i] {
            assert(a@[i as int] != b@[i as int]);
            return false;
        }
        i += 1;
    }
    proof {
        assert(a.cells@ =~= b.cells@);
    }
    true
}

impl PartialEq for Puzzle {
    fn eq(&self, other: &Puzzle) -> (eq: bool) {
        puzzles_equal(self, other)
    }
}

impl vstd::std_specs::cmp::PartialEqSpecImpl for Puzzle {
    open spec fn obeys_eq_spec() -> bool {
        true
    }

    open spec fn eq_spec(&self, other: &Puzzle) -> bool {
        self.cells@ == other.cells@
    }
}

/// Number of positions among the first `n` where the two sequences hold
/// equal pieces.
pub open spec fn spec_match_count(a: Seq<Piece>, b: Seq<Piece>, n: int) -> int
    decreases n,
{
    if n <= 0 {
        0
    } else {
        spec_match_count(a, b, n - 1) + if a[n - 1] == b[n - 1] {
            1int
        } else {
            0int
        }
    }
}

/// A match count never exceeds the number of positions counted.
pub proof fn lemma_match_count_bounds(a: Seq<Piece>, b: Seq<Piece>, n: int)
    ensures
        0 <= spec_match_count(a, b, n),
        n >= 0 ==> spec_match_count(a, b, n) <= n,
    decreases n,
{
    if n > 0 {
        lemma_match_count_bounds(a, b, n - 1);
    }
}

/// A grid matches itself at every position.
pub proof fn lemma_match_count_self(a: Seq<Piece>, n: int)
    requires
        0 <= n,
    ensures
        spec_match_count(a, a, n) == n,
    decreases n,
{
    if n > 0 {
        lemma_match_count_self(a, n - 1);
    }
}

/// Two grids that agree at no position have match count zero.
pub proof fn lemma_match_count_disjoint(a: Seq<Piece>, b: Seq<Piece>, n: int)
    requires
        forall|j: int| 0 <= j < n ==> a[j] != b[j],
    ensures
        spec_match_count(a, b, n) == 0,
    decreases n,
{
    if n > 0 {
        lemma_match_count_disjoint(a, b, n - 1);
    }
}

/// Count the positions where the two grids hold equal pieces.  The
/// similarity score of the two grids is this count over SIZE * SIZE.
pub fn match_count(a: &Puzzle, b: &Puzzle) -> (count: usize)
    requires
        a@.len() == SIZE * SIZE,
        b@.len() == SIZE * SIZE,
    ensures
        count == spec_match_count(a@, b@, (SIZE * SIZE) as int),
        count <= SIZE * SIZE,
{
    let mut count: usize = 0;
    let mut i: usize = 0;
    while i < SIZE * SIZE
        invariant
            i <= SIZE * SIZE,
            a@.len() == SIZE * SIZE,
            b@.len() == SIZE * SIZE,
            count == spec_match_count(a@, b@, i as int),
            count <= i,
        decreases SIZE * SIZE - i,
    {
        if a.cells[i] == b.cells[i] {
            count += 1;
        }
        i += 1;
    }
    count
}

} // verus!
