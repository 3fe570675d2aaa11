use game_of_life::{current_time_seed, lcg, seed_from_nanos, GameOfLife, LifeError, FPS_LIMIT, FRAME_MILLIS, HEIGHT, WIDTH};

fn blank(h: usize, w: usize) -> Vec<Vec<bool>> {
    vec![vec![false; w]; h]
}

fn with_live(h: usize, w: usize, live: &[(usize, usize)]) -> Vec<Vec<bool>> {
    let mut g = blank(h, w);
    for &(i, j) in live {
        g[i][j] = true;
    }
    g
}

fn border_is_dead(g: &Vec<Vec<bool>>) -> bool {
    let h = g.len();
    let w = g[0].len();
    (0..h).all(|i| (0..w).all(|j| !(i == 0 || i == h - 1 || j == 0 || j == w - 1) || !g[i][j]))
}

#[test]
fn lcg_exact_values() {
    assert_eq!(lcg(0), 1013904223);
    assert_eq!(lcg(1), 1015568748);
    assert_eq!(lcg(u64::MAX), 1012239698);
    assert_eq!(lcg(1u64 << 63), (1u64 << 63) + 1013904223);
}

#[test]
fn lcg_sequence_is_reproducible() {
    let mut a: u64 = 42;
    let mut b: u64 = 42;
    let mut first = Vec::new();
    for _ in 0..100 {
        a = lcg(a);
        first.push(a);
    }
    for x in first {
        b = lcg(b);
        assert_eq!(b, x);
    }
}

#[test]
fn frame_interval_follows_rate() {
    assert_eq!(FPS_LIMIT, 30);
    assert_eq!(FRAME_MILLIS, 33);
    assert_eq!((HEIGHT, WIDTH), (10, 10));
}

#[test]
fn seeding_keeps_border_dead_for_all_seeds() {
    for seed in [0u64, 1, 2, 3, 12345, u64::MAX, 1 << 40] {
        for (h, w) in [(2usize, 2usize), (3, 7), (10, 10), (6, 2)] {
            let game = GameOfLife::with_seed(h, w, seed).unwrap();
            assert_eq!(game.height(), h);
            assert_eq!(game.width(), w);
            assert_eq!(game.grid().len(), h);
            assert!(game.grid().iter().all(|r| r.len() == w));
            assert!(border_is_dead(game.grid()));
        }
    }
}

#[test]
fn seeding_follows_generator_in_row_major_order() {
    let seed: u64 = 987654321;
    let game = GameOfLife::with_seed(4, 5, seed).unwrap();
    let mut s = seed;
    for i in 0..4 {
        for j in 0..5 {
            s = lcg(s);
            let border = i == 0 || i == 3 || j == 0 || j == 4;
            assert_eq!(game.grid()[i][j], !border && s % 2 == 0);
        }
    }
}

#[test]
fn seeding_centre_of_three_by_three() {
    for seed in [0u64, 7, 99] {
        let mut s = seed;
        for _ in 0..5 {
            s = lcg(s);
        }
        let game = GameOfLife::with_seed(3, 3, seed).unwrap();
        assert_eq!(game.grid()[1][1], s % 2 == 0);
    }
}

#[test]
fn seeding_is_deterministic() {
    let a = GameOfLife::with_seed(10, 10, 2024).unwrap();
    let b = GameOfLife::with_seed(10, 10, 2024).unwrap();
    assert_eq!(a.grid(), b.grid());
}

#[test]
fn seeding_rejects_small_dimensions() {
    assert_eq!(GameOfLife::with_seed(1, 10, 5).err(), Some(LifeError::InvalidDimensions));
    assert_eq!(GameOfLife::with_seed(10, 1, 5).err(), Some(LifeError::InvalidDimensions));
    assert_eq!(GameOfLife::with_seed(0, 0, 5).err(), Some(LifeError::InvalidDimensions));
    assert_eq!(GameOfLife::new(1, 1).err(), Some(LifeError::InvalidDimensions));
}

#[test]
fn reseeding_keeps_dimensions() {
    let mut game = GameOfLife::from_cells(blank(6, 4)).unwrap();
    game.init_grid(31337);
    let fresh = GameOfLife::with_seed(6, 4, 31337).unwrap();
    assert_eq!(game.grid(), fresh.grid());
    assert_eq!((game.height(), game.width()), (6, 4));
}

#[test]
fn clock_seeded_game() {
    assert!(current_time_seed().is_some());
    let game = GameOfLife::new(HEIGHT, WIDTH).unwrap();
    assert_eq!(game.grid().len(), HEIGHT);
    assert!(border_is_dead(game.grid()));
}

#[test]
fn from_cells_errors() {
    assert_eq!(GameOfLife::from_cells(vec![]).err(), Some(LifeError::InvalidDimensions));
    assert_eq!(GameOfLife::from_cells(blank(1, 5)).err(), Some(LifeError::InvalidDimensions));
    assert_eq!(GameOfLife::from_cells(blank(5, 1)).err(), Some(LifeError::InvalidDimensions));
    let uneven = vec![vec![false; 3], vec![false; 2], vec![false; 3]];
    assert_eq!(GameOfLife::from_cells(uneven).err(), Some(LifeError::UnevenRows));
    let live_edge = with_live(4, 4, &[(3, 2)]);
    assert_eq!(GameOfLife::from_cells(live_edge).err(), Some(LifeError::LiveBorder));
    let live_corner = with_live(4, 4, &[(0, 0)]);
    assert_eq!(GameOfLife::from_cells(live_corner).err(), Some(LifeError::LiveBorder));
    assert!(GameOfLife::from_cells(with_live(4, 4, &[(1, 2)])).is_ok());
}

#[test]
fn next_state_is_pure_and_repeatable() {
    let game = GameOfLife::with_seed(10, 10, 77).unwrap();
    let before = game.grid().clone();
    let a = game.get_next_state();
    let b = game.get_next_state();
    assert_eq!(a, b);
    assert_eq!(game.grid(), &before);
    assert!(border_is_dead(&a));
}

#[test]
fn blinker_turns() {
    let game = GameOfLife::from_cells(with_live(5, 5, &[(1, 2), (2, 2), (3, 2)])).unwrap();
    assert_eq!(game.get_next_state(), with_live(5, 5, &[(2, 1), (2, 2), (2, 3)]));
}

#[test]
fn block_survives() {
    let cells = with_live(4, 4, &[(1, 1), (1, 2), (2, 1), (2, 2)]);
    let game = GameOfLife::from_cells(cells.clone()).unwrap();
    assert_eq!(game.get_next_state(), cells);
}

#[test]
fn birth_with_three_neighbours() {
    let game = GameOfLife::from_cells(with_live(5, 5, &[(1, 1), (1, 3), (3, 2)])).unwrap();
    let next = game.get_next_state();
    assert_eq!(game.count_neighbours(2, 2), 3);
    assert!(next[2][2]);
    assert!(!next[1][1] && !next[1][3] && !next[3][2]);
}

#[test]
fn overcrowded_cell_dies() {
    let live = [(2, 2), (1, 1), (1, 2), (1, 3), (2, 1)];
    let game = GameOfLife::from_cells(with_live(5, 5, &live)).unwrap();
    assert_eq!(game.count_neighbours(2, 2), 4);
    assert!(!game.get_next_state()[2][2]);
}

#[test]
fn counts_all_eight_neighbours() {
    let live = [(1, 1), (1, 2), (1, 3), (2, 1), (2, 3), (3, 1), (3, 2), (3, 3)];
    let game = GameOfLife::from_cells(with_live(5, 5, &live)).unwrap();
    assert_eq!(game.count_neighbours(2, 2), 8);
    assert_eq!(game.count_neighbours(1, 1), 2);
}

#[test]
fn border_stays_dead_in_next_state() {
    let cells = with_live(5, 5, &[(1, 1), (1, 2), (1, 3)]);
    let game = GameOfLife::from_cells(cells).unwrap();
    let next = game.get_next_state();
    assert!(!next[0][2]);
    assert!(next[2][2]);
    assert!(border_is_dead(&next));
}

#[test]
fn not_stable_without_previous() {
    let dead = blank(4, 4);
    let game = GameOfLife::from_cells(dead.clone()).unwrap();
    assert!(!game.check_stable(&None, &dead));
}

#[test]
fn stable_when_three_generations_agree() {
    let dead = blank(4, 4);
    let game = GameOfLife::from_cells(dead.clone()).unwrap();
    assert!(game.check_stable(&Some(dead.clone()), &dead));
}

#[test]
fn one_changed_cell_breaks_stability() {
    let dead = blank(4, 4);
    let changed = with_live(4, 4, &[(1, 2)]);
    let game = GameOfLife::from_cells(dead.clone()).unwrap();
    assert!(!game.check_stable(&Some(changed.clone()), &dead));
    assert!(!game.check_stable(&Some(dead.clone()), &changed));
    let other = GameOfLife::from_cells(changed).unwrap();
    assert!(!other.check_stable(&Some(dead.clone()), &dead));
}

#[test]
fn shapes_that_differ_are_not_stable() {
    let game = GameOfLife::from_cells(blank(4, 4)).unwrap();
    assert!(!game.check_stable(&Some(blank(4, 5)), &blank(4, 4)));
    assert!(!game.check_stable(&Some(blank(4, 4)), &blank(3, 4)));
}

#[test]
fn dead_grid_halts_on_second_tick() {
    let mut game = GameOfLife::from_cells(blank(10, 10)).unwrap();
    let mut previous = None;
    assert!(!game.step(&mut previous));
    assert_eq!(previous, Some(blank(10, 10)));
    assert!(game.step(&mut previous));
    assert_eq!(game.grid(), &blank(10, 10));
}

#[test]
fn isolated_cell_dies_then_halts() {
    let mut game = GameOfLife::from_cells(with_live(6, 6, &[(2, 3)])).unwrap();
    assert_eq!(game.count_neighbours(2, 3), 0);
    let mut previous = None;
    assert!(!game.step(&mut previous));
    assert_eq!(game.grid(), &blank(6, 6));
    assert!(!game.step(&mut previous));
    assert!(game.step(&mut previous));
    assert_eq!(game.grid(), &blank(6, 6));
}

#[test]
fn blinker_never_halts() {
    let mut game = GameOfLife::from_cells(with_live(5, 5, &[(1, 2), (2, 2), (3, 2)])).unwrap();
    let mut previous = None;
    for _ in 0..20 {
        assert!(!game.step(&mut previous));
    }
}

#[test]
fn step_replaces_generation() {
    let start = with_live(5, 5, &[(1, 2), (2, 2), (3, 2)]);
    let mut game = GameOfLife::from_cells(start.clone()).unwrap();
    let expected = game.get_next_state();
    let mut previous = None;
    assert!(!game.step(&mut previous));
    assert_eq!(previous, Some(start));
    assert_eq!(game.grid(), &expected);
}

#[test]
fn render_three_by_three() {
    let game = GameOfLife::from_cells(with_live(3, 3, &[(1, 1)])).unwrap();
    assert_eq!(game.render(), "...\n.#.\n...\n\n");
}

#[test]
fn render_wide_grid() {
    let game = GameOfLife::from_cells(with_live(4, 5, &[(1, 1), (2, 3)])).unwrap();
    assert_eq!(game.render(), ".....\n.#...\n...#.\n.....\n\n");
}

#[test]
fn seed_keeps_low_bits_of_nanos() {
    assert_eq!(seed_from_nanos(0), 0);
    assert_eq!(seed_from_nanos(1_700_000_000_123_456_789), 1_700_000_000_123_456_789);
    assert_eq!(seed_from_nanos(u64::MAX as u128), u64::MAX);
    assert_eq!(seed_from_nanos((1u128 << 64) + 5), 5);
    assert_eq!(seed_from_nanos(u128::MAX), u64::MAX);
}
