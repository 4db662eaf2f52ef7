//! Direct construction of a valid grid from a random source.  Each cell
//! inherits its top and left edges from the neighbours already placed, so
//! the result satisfies both model invariants by construction.

use vstd::prelude::*;

use rand::Rng;

use crate::model::Piece;
use crate::model::Puzzle;
use crate::model::SIZE;
use crate::model::cell_ok;
use crate::model::puzzle_valid;

verus! {

#[verifier::external_type_specification]
#[verifier::external_body]
pub struct ExThreadRng(rand::rngs::ThreadRng);

/// Relies on rand::thread_rng: a handle to the thread-local random
/// generator.
#[verifier::external_body]
fn fresh_rng() -> rand::rngs::ThreadRng {
    rand::thread_rng()
}

/// Relies on rand::Rng::gen_range on the range 1..=max: a value drawn
/// uniformly from [1, max]; the call panics when the range is empty.
#[verifier::external_body]
pub fn get_rand_int_with_max(max: u8, rng: &mut rand::rngs::ThreadRng) -> (r: u8)
    requires
        max >= 1,
    ensures
        1 <= r <= max,
{
    rng.gen_range(1..=max)
}

/// Everything the generator guarantees of a fresh grid: both model
/// invariants hold, ids count the cells in row-major order, and every
/// bottom or right edge not forced to 0 by the border lies in [1, max].
pub open spec fn freshly_generated(cells: Seq<Piece>, max: u8) -> bool {
    &&& puzzle_valid(cells)
    &&& cells.len() == SIZE * SIZE
    &&& forall|k: int| 0 <= k < cells.len() ==> (#[trigger] cells[k]).id == k
    &&& forall|r: int, c: int|
        0 <= r < SIZE - 1 && 0 <= c < SIZE ==> 1 <= (#[trigger] cells[r * SIZE + c]).bottom <= max
    &&& forall|r: int, c: int|
        0 <= r < SIZE && 0 <= c < SIZE - 1 ==> 1 <= (#[trigger] cells[r * SIZE + c]).right <= max
}

/// Build one valid grid.  Edges forced by the border are 0; every other
/// bottom or right edge is drawn from [1, max]; tops and lefts repeat the
/// neighbouring edge; ids count the cells in row-major order.
pub fn generate_puzzle_with_max(max: u8) -> (puzzle: Puzzle)
    requires
        max >= 1,
    ensures
        freshly_generated(puzzle@, max),
{
    let mut rng = fresh_rng();
    let mut cells: Vec<Piece> = Vec::new();
    let mut row_idx: usize = 0;
    while row_idx < SIZE
        invariant
            max >= 1,
            row_idx <= SIZE,
            cells@.len() == row_idx * SIZE,
            forall|r: int, c: int|
                0 <= r && 0 <= c < SIZE && r * SIZE + c < cells@.len() ==> #[trigger] cell_ok(
                    cells@,
                    r,
                    c,
                ),
            forall|k: int| 0 <= k < cells@.len() ==> (#[trigger] cells@[k]).id == k,
            forall|r: int, c: int|
                0 <= r && r < SIZE - 1 && 0 <= c < SIZE && r * SIZE + c < cells@.len() ==> 1 <= (
                #[trigger] cells@[r * SIZE + c]).bottom <= max,
            forall|r: int, c: int|
                0 <= r && 0 <= c < SIZE - 1 && r * SIZE + c < cells@.len() ==> 1 <= (
                #[trigger] cells@[r * SIZE + c]).right <= max,
        decreases SIZE - row_idx,
    {
        let mut col_idx: usize = 0;
        while col_idx < SIZE
            invariant
                max >= 1,
                row_idx < SIZE,
                col_idx <= SIZE,
                cells@.len() == row_idx * SIZE + col_idx,
                forall|r: int, c: int|
                    0 <= r && 0 <= c < SIZE && r * SIZE + c < cells@.len() ==> #[trigger] cell_ok(
                        cells@,
                        r,
                        c,
                    ),
                forall|k: int| 0 <= k < cells@.len() ==> (#[trigger] cells@[k]).id == k,
                forall|r: int, c: int|
                    0 <= r && r < SIZE - 1 && 0 <= c < SIZE && r * SIZE + c < cells@.len() ==> 1 <= (
                    #[trigger] cells@[r * SIZE + c]).bottom <= max,
                forall|r: int, c: int|
                    0 <= r && 0 <= c < SIZE - 1 && r * SIZE + c < cells@.len() ==> 1 <= (
                    #[trigger] cells@[r * SIZE + c]).right <= max,
            decreases SIZE - col_idx,
        {
            let top = if row_idx == 0 {
                0
            } else {
                cells[(row_idx - 1) * SIZE + col_idx].bottom
            };
            let left = if col_idx == 0 {
                0
            } else {
                cells[row_idx * SIZE + (col_idx - 1)].right
            };
            let bottom = if row_idx == SIZE - 1 {
                0
            } else {
                get_rand_int_with_max(max, &mut rng)
            };
            let right = if col_idx == SIZE - 1 {
                0
            } else {
                get_rand_int_with_max(max, &mut rng)
            };
            let id = row_idx * SIZE + col_idx;

            let ghost prev = cells@;
            cells.push(Piece { id, top, right, bottom, left });
            proof {
                assert forall|r: int, c: int|
                    0 <= r && 0 <= c < SIZE && r * SIZE + c < prev.len() implies #[trigger] cell_ok(
                    cells@,
                    r,
                    c,
                ) by {
                    assert(cell_ok(prev, r, c));
                    assert(cells@[r * SIZE + c] == prev[r * SIZE + c]);
                    if r > 0 {
                        assert(cells@[(r - 1) * SIZE + c] == prev[(r - 1) * SIZE + c]);
                    }
                    if c > 0 {
                        assert(cells@[r * SIZE + (c - 1)] == prev[r * SIZE + (c - 1)]);
                    }
                }
                if row_idx > 0 {
                    assert(cells@[(row_idx - 1) * SIZE + col_idx] == prev[(row_idx - 1) * SIZE
                        + col_idx]);
                }
                if col_idx > 0 {
                    assert(cells@[row_idx * SIZE + (col_idx - 1)] == prev[row_idx * SIZE + (col_idx
                        - 1)]);
                }
                assert(cell_ok(cells@, row_idx as int, col_idx as int));
            }
            col_idx += 1;
        }
        row_idx += 1;
    }
    Puzzle { cells }
}

} // verus!
