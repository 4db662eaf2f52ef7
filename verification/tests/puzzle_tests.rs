use puzzle_generator::Puzzle;
use puzzle_generator::PuzzleGen;
use puzzle_generator::SIZE;
use puzzle_generator::flatten_puzzle;
use puzzle_generator::generate_puzzle_with_max;
use puzzle_generator::get_puzzle_with_score;
use puzzle_generator::get_rand_int_with_max;
use puzzle_generator::grow_puzzle;
use puzzle_generator::match_count;
use puzzle_generator::puzzles_equal;
use puzzle_generator::validate_puzzle;

use std::sync::atomic::AtomicBool;

#[test]
fn test_get_rand_int_with_max() {
    let rand_num = get_rand_int_with_max(5, &mut rand::thread_rng());
    assert!(rand_num >= 1 && rand_num <= 5);
}

#[test]
fn rand_int_with_max_one_is_one() {
    let rand_num = get_rand_int_with_max(1, &mut rand::thread_rng());
    assert_eq!(rand_num, 1);
}

#[test]
fn flatten_puzzle_test() {
    let puzzle = generate_puzzle_with_max(5);
    let pieces = flatten_puzzle(&puzzle);
    assert_eq!(pieces.len(), SIZE * SIZE);
}

#[test]
fn grow_puzzle_test() {
    let puzzle = generate_puzzle_with_max(5);
    let pieces = flatten_puzzle(&puzzle);
    let new_puzzle = grow_puzzle(pieces);
    assert_eq!(puzzle, new_puzzle);
}

#[test]
fn generate_puzzle_generates_valid_puzzle() {
    let puzzle = generate_puzzle_with_max(5);
    assert!(validate_puzzle(&puzzle));
}

#[test]
fn test_validate_puzzle() {
    let puzzle = generate_puzzle_with_max(5);
    assert!(validate_puzzle(&puzzle));
    let mut invalid_puzzle = puzzle;
    invalid_puzzle.cells[0].right = 0;
    assert!(!validate_puzzle(&invalid_puzzle));
}

#[test]
fn solution_contains_puzzle() {
    let mut pg = PuzzleGen::new(5);
    pg.new_puzzle();
    pg.solve();
    assert!(pg.solutions.contains(&pg.pieces));
}

#[test]
fn generated_puzzle_has_row_major_ids_and_bounded_edges() {
    let puzzle = generate_puzzle_with_max(3);
    for (k, piece) in puzzle.cells.iter().enumerate() {
        assert_eq!(piece.id, k);
        let row = k / SIZE;
        let col = k % SIZE;
        if row < SIZE - 1 {
            assert!(piece.bottom >= 1 && piece.bottom <= 3);
        } else {
            assert_eq!(piece.bottom, 0);
        }
        if col < SIZE - 1 {
            assert!(piece.right >= 1 && piece.right <= 3);
        } else {
            assert_eq!(piece.right, 0);
        }
    }
}

#[test]
fn new_puzzle_uses_configured_edge_count() {
    let mut pg = PuzzleGen::new(2);
    pg.new_puzzle();
    assert_eq!(pg.edge_count, 2);
    assert!(validate_puzzle(&pg.pieces));
    for (k, piece) in pg.pieces.cells.iter().enumerate() {
        assert_eq!(piece.id, k);
        let row = k / SIZE;
        let col = k % SIZE;
        if row < SIZE - 1 {
            assert!(piece.bottom >= 1 && piece.bottom <= 2);
        } else {
            assert_eq!(piece.bottom, 0);
        }
        if col < SIZE - 1 {
            assert!(piece.right >= 1 && piece.right <= 2);
        } else {
            assert_eq!(piece.right, 0);
        }
    }
}

#[test]
fn match_count_of_grid_with_itself_is_full() {
    let puzzle = generate_puzzle_with_max(4);
    assert_eq!(match_count(&puzzle, &puzzle), SIZE * SIZE);
}

#[test]
fn match_count_of_disjoint_grids_is_zero() {
    let puzzle = generate_puzzle_with_max(4);
    let mut other_cells = puzzle.cells.clone();
    for piece in other_cells.iter_mut() {
        piece.id += 100;
    }
    let other = Puzzle { cells: other_cells };
    assert_eq!(match_count(&puzzle, &other), 0);
}

#[test]
fn match_count_counts_exact_positions() {
    let puzzle = generate_puzzle_with_max(4);
    let mut other_cells = puzzle.cells.clone();
    other_cells[0].id += 100;
    other_cells[7].id += 100;
    other_cells[24].id += 100;
    let other = Puzzle { cells: other_cells };
    assert_eq!(match_count(&puzzle, &other), SIZE * SIZE - 3);
}

#[test]
fn duplicate_assemblies_are_unclean() {
    let puzzle = generate_puzzle_with_max(4);
    let copy_a = Puzzle { cells: puzzle.cells.clone() };
    let copy_b = Puzzle { cells: puzzle.cells.clone() };
    let pg = PuzzleGen { pieces: puzzle, solutions: vec![copy_a, copy_b], edge_count: 4 };
    assert!(!pg.check_solutions());
}

#[test]
fn distinct_valid_assemblies_are_clean() {
    let puzzle = generate_puzzle_with_max(4);
    let copy_a = Puzzle { cells: puzzle.cells.clone() };
    let pg = PuzzleGen { pieces: puzzle, solutions: vec![copy_a], edge_count: 4 };
    assert!(pg.check_solutions());
}

#[test]
fn invalid_assembly_is_unclean() {
    let puzzle = generate_puzzle_with_max(4);
    let mut broken_cells = puzzle.cells.clone();
    broken_cells[0].right = 0;
    let broken = Puzzle { cells: broken_cells };
    let pg = PuzzleGen { pieces: puzzle, solutions: vec![broken], edge_count: 4 };
    assert!(!pg.check_solutions());
}

#[test]
fn empty_solution_list_is_clean() {
    let puzzle = generate_puzzle_with_max(4);
    let pg = PuzzleGen { pieces: puzzle, solutions: Vec::new(), edge_count: 4 };
    assert!(pg.check_solutions());
}

#[test]
fn solver_keeps_pieces_and_validates_all_solutions() {
    let mut pg = PuzzleGen::new(5);
    pg.new_puzzle();
    let before = pg.get_puzzle();
    pg.solve();
    assert!(puzzles_equal(&before, &pg.get_puzzle()));
    assert!(pg.solutions.len() >= 1);
    for sol in &pg.solutions {
        assert!(validate_puzzle(sol));
    }
    assert!(pg.check_solutions() || pg.solutions.len() >= 2);
}

#[test]
fn cancellation_returns_within_one_round() {
    let flag = AtomicBool::new(true);
    let sol = get_puzzle_with_score(0, 6, &flag);
    assert_eq!(sol.tries, 1);
    assert_eq!(sol.threshold_count, 0);
    assert_eq!(sol.edge_count, 6);
    assert!(sol.values.len() >= 1);
    assert!(sol.score_count <= SIZE * SIZE);
    for v in &sol.values {
        assert!(validate_puzzle(v));
    }
}

#[test]
fn search_accepts_a_clean_ambiguous_round() {
    let flag = AtomicBool::new(false);
    let sol = get_puzzle_with_score(SIZE * SIZE, 6, &flag);
    assert!(sol.tries >= 1);
    assert!(sol.values.len() >= 2);
    assert!(sol.score_count <= SIZE * SIZE);
    for v in &sol.values {
        assert!(validate_puzzle(v));
    }
    for i in 0..sol.values.len() {
        for j in (i + 1)..sol.values.len() {
            assert!(!puzzles_equal(&sol.values[i], &sol.values[j]));
        }
    }
    assert_eq!(
        sol.score_count,
        match_count(&sol.values[0], &sol.values[1])
    );
}
