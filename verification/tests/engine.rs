use twenty48::GameData;

fn board(vals: [u32; 16]) -> Vec<u32> {
    vals.to_vec()
}

fn cells_of(g: &GameData) -> Vec<u32> {
    let mut out = Vec::new();
    for i in 0..16 {
        out.push(g.get(i));
    }
    out
}

fn count_zeros(g: &GameData) -> u8 {
    let mut n: u8 = 0;
    for i in 0..16 {
        if g.get(i) == 0 {
            n += 1;
        }
    }
    n
}

fn is_power_of_two(v: u32) -> bool {
    v >= 1 && (v & (v - 1)) == 0
}

#[test]
fn init_places_two_tiles() {
    for _ in 0..50 {
        let g = GameData::init();
        let cells = cells_of(&g);
        let nonzero: Vec<u32> = cells.iter().copied().filter(|&v| v != 0).collect();
        assert!(nonzero.len() == 1 || nonzero.len() == 2);
        for v in &nonzero {
            assert_eq!(*v, 2);
        }
        assert_eq!(g.free_slots(), 16 - nonzero.len() as u8);
        assert_eq!(g.score(), 0);
    }
}

#[test]
fn merge_left_scores() {
    let mut g = GameData::from_parts(
        board([2, 2, 0, 0, 0, 0, 0, 0, 0, 0, 0, 0, 0, 0, 0, 0]),
        0,
    );
    assert_eq!(g.free_slots(), 14);
    let cont = g.left();
    assert!(cont);
    assert_eq!(g.get(0), 4);
    assert_eq!(g.score(), 4);
    assert_eq!(g.free_slots(), 14);
    let spawned: Vec<u32> = (1..16).map(|i| g.get(i)).filter(|&v| v != 0).collect();
    assert_eq!(spawned.len(), 1);
    assert!(spawned[0] == 2 || spawned[0] == 4);
}

#[test]
fn cascade_left_keeps_merging_until_stable() {
    // The sweep repeats full passes until nothing changes, so after the two
    // 2's merge and the 4 slides in behind, the two 4's merge as well.
    let mut g = GameData::from_parts(
        board([2, 0, 2, 4, 0, 0, 0, 0, 0, 0, 0, 0, 0, 0, 0, 0]),
        0,
    );
    let cont = g.left();
    assert!(cont);
    assert_eq!(g.get(0), 8);
    assert_eq!(g.score(), 12);
    assert_eq!(g.free_slots(), 14);
    let spawned: Vec<u32> = (1..16).map(|i| g.get(i)).filter(|&v| v != 0).collect();
    assert_eq!(spawned.len(), 1);
    assert!(spawned[0] == 2 || spawned[0] == 4);
}

#[test]
fn no_false_merge_still_spawns() {
    // No pair in the row can merge or slide, yet the move spawns a tile, as
    // it always does while free cells remain.
    let mut g = GameData::from_parts(
        board([2, 4, 2, 4, 0, 0, 0, 0, 0, 0, 0, 0, 0, 0, 0, 0]),
        0,
    );
    let cont = g.left();
    assert!(cont);
    assert_eq!(g.get(0), 2);
    assert_eq!(g.get(1), 4);
    assert_eq!(g.get(2), 2);
    assert_eq!(g.get(3), 4);
    assert_eq!(g.score(), 0);
    assert_eq!(g.free_slots(), 11);
    let spawned: Vec<u32> = (4..16).map(|i| g.get(i)).filter(|&v| v != 0).collect();
    assert_eq!(spawned.len(), 1);
    assert!(spawned[0] == 2 || spawned[0] == 4);
}

#[test]
fn spawn_into_last_free_cell() {
    // Only index 15 is free and nothing can slide left, so the spawn must
    // land exactly there.
    let mut g = GameData::from_parts(
        board([2, 4, 2, 4, 4, 2, 4, 2, 2, 4, 2, 4, 4, 2, 4, 0]),
        0,
    );
    assert_eq!(g.free_slots(), 1);
    let cont = g.left();
    assert!(cont);
    assert!(g.get(15) == 2 || g.get(15) == 4);
    assert_eq!(g.free_slots(), 0);
    assert_eq!(g.score(), 0);
}

#[test]
fn full_board_any_move_is_lost() {
    let full = [2, 4, 2, 4, 4, 2, 4, 2, 2, 4, 2, 4, 4, 2, 4, 2];
    let moves: [fn(&mut GameData) -> bool; 4] =
        [GameData::up, GameData::down, GameData::left, GameData::right];
    for mv in moves {
        let mut g = GameData::from_parts(board(full), 7);
        let cont = mv(&mut g);
        assert!(!cont);
        assert_eq!(cells_of(&g), board(full));
        assert_eq!(g.score(), 7);
        assert_eq!(g.free_slots(), 0);
        assert!(g.lost_game());
    }
}

#[test]
fn merge_up_column() {
    let mut g = GameData::from_parts(
        board([2, 0, 0, 0, 2, 0, 0, 0, 0, 0, 0, 0, 0, 0, 0, 0]),
        0,
    );
    let cont = g.up();
    assert!(cont);
    assert_eq!(g.get(0), 4);
    assert_eq!(g.score(), 4);
    assert_eq!(g.free_slots(), 14);
}

#[test]
fn merge_down_column() {
    let mut g = GameData::from_parts(
        board([2, 0, 0, 0, 2, 0, 0, 0, 0, 0, 0, 0, 0, 0, 0, 0]),
        0,
    );
    let cont = g.down();
    assert!(cont);
    assert_eq!(g.get(12), 4);
    assert_eq!(g.score(), 4);
    assert_eq!(g.free_slots(), 14);
}

#[test]
fn merge_right_row() {
    let mut g = GameData::from_parts(
        board([2, 2, 0, 0, 0, 0, 0, 0, 0, 0, 0, 0, 0, 0, 0, 0]),
        0,
    );
    let cont = g.right();
    assert!(cont);
    assert_eq!(g.get(3), 4);
    assert_eq!(g.score(), 4);
    assert_eq!(g.free_slots(), 14);
}

#[test]
fn compare_slots_moves_and_merges() {
    // Slide: source 1 into the empty destination 0.
    let mut g = GameData::from_parts(
        board([0, 2, 0, 0, 0, 0, 0, 0, 0, 0, 0, 0, 0, 0, 0, 0]),
        0,
    );
    assert!(g.compare_slots(1, 0));
    assert_eq!(g.get(0), 2);
    assert_eq!(g.get(1), 0);
    assert_eq!(g.score(), 0);
    assert_eq!(g.free_slots(), 15);

    // Merge: equal source and destination combine and raise the score.
    let mut g = GameData::from_parts(
        board([2, 2, 0, 0, 0, 0, 0, 0, 0, 0, 0, 0, 0, 0, 0, 0]),
        0,
    );
    assert!(g.compare_slots(1, 0));
    assert_eq!(g.get(0), 4);
    assert_eq!(g.get(1), 0);
    assert_eq!(g.score(), 4);
    assert_eq!(g.free_slots(), 15);

    // Unequal occupied cells stay put.
    let mut g = GameData::from_parts(
        board([2, 4, 0, 0, 0, 0, 0, 0, 0, 0, 0, 0, 0, 0, 0, 0]),
        0,
    );
    assert!(!g.compare_slots(1, 0));
    assert_eq!(g.get(0), 2);
    assert_eq!(g.get(1), 4);

    // An empty source changes nothing.
    let mut g = GameData::from_parts(
        board([2, 0, 0, 0, 0, 0, 0, 0, 0, 0, 0, 0, 0, 0, 0, 0]),
        0,
    );
    assert!(!g.compare_slots(1, 0));
    assert_eq!(g.get(0), 2);
}

#[test]
fn lost_game_tracks_free_cells() {
    let mut empty = GameData::from_parts(board([0; 16]), 0);
    assert!(!empty.lost_game());
    let mut full = GameData::from_parts(board([2; 16]), 0);
    assert!(full.lost_game());
}

#[test]
fn spawn_distribution_favours_two() {
    let mut twos = 0u32;
    let trials = 3000;
    for _ in 0..trials {
        let mut g = GameData::from_parts(board([0; 16]), 0);
        g.fill_rand_value();
        assert_eq!(g.free_slots(), 15);
        let spawned: Vec<u32> = (0..16).map(|i| g.get(i)).filter(|&v| v != 0).collect();
        assert_eq!(spawned.len(), 1);
        assert!(spawned[0] == 2 || spawned[0] == 4);
        if spawned[0] == 2 {
            twos += 1;
        }
    }
    // Spawns are 2 with probability 0.6; five standard deviations of slack.
    assert!(twos >= 1650, "too few 2s: {}", twos);
    assert!(twos <= 1950, "too many 2s: {}", twos);
}

#[test]
fn render_fixed_width_grid() {
    let g = GameData::from_parts(
        board([2, 2, 0, 0, 0, 0, 0, 0, 0, 0, 0, 0, 0, 0, 0, 0]),
        0,
    );
    let expected = "_____________________\n\
                    |   2|   2|    |    |\n\
                    |    |    |    |    |\n\
                    |    |    |    |    |\n\
                    |    |    |    |    |\n\
                    ---------------------\n\
                    Points: 0\n";
    assert_eq!(g.to_string(), expected);
}

#[test]
fn render_wide_values() {
    let g = GameData::from_parts(
        board([2048, 16, 128, 65536, 0, 0, 0, 0, 0, 0, 0, 0, 0, 0, 0, 4]),
        39420,
    );
    let expected = "_____________________\n\
                    |2048|  16| 128|65536|\n\
                    |    |    |    |    |\n\
                    |    |    |    |    |\n\
                    |    |    |    |   4|\n\
                    ---------------------\n\
                    Points: 39420\n";
    assert_eq!(g.to_string(), expected);
}

#[test]
fn invariants_hold_through_random_play() {
    let mut g = GameData::init();
    let mut last_score = g.score();
    let moves: [fn(&mut GameData) -> bool; 4] =
        [GameData::up, GameData::right, GameData::down, GameData::left];
    let mut k = 0;
    loop {
        let cont = moves[k % 4](&mut g);
        k += 1;
        // Free-count cache matches the board; tiles stay powers of two; the
        // score never drops.
        assert_eq!(g.free_slots(), count_zeros(&g));
        for i in 0..16 {
            let v = g.get(i);
            assert!(v == 0 || is_power_of_two(v));
        }
        assert!(g.score() >= last_score);
        last_score = g.score();
        if !cont || k >= 200 {
            break;
        }
    }
}
