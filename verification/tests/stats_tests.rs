use spk_tools::cli::{Command, CommonArgs, CountArgs};
use spk_tools::engine::{GameRecord, Outcome};
use spk_tools::heatmap::Heatmap;
use spk_tools::render::{display_cell_square, emphasis, Emphasis};
use spk_tools::simple::{SimpleCodec, SimplePos};
use spk_tools::stats::{aggregate, game_is_reversal, position_count};

fn game_bytes(tag: u8, k1: u8, k2: u8, moves: &[(u16, i16)]) -> Vec<u8> {
    let mut v = vec![tag, moves.len() as u8, k1, k2];
    for &(mv, sc) in moves {
        v.extend_from_slice(&mv.to_le_bytes());
        v.extend_from_slice(&sc.to_le_bytes());
    }
    v
}

fn record(outcome: Outcome, scores: &[i16]) -> GameRecord<SimplePos> {
    GameRecord {
        start: SimplePos { first_king: 4, second_king: 76, first_to_move: true },
        moves: scores.iter().map(|&s| (0u16, s)).collect(),
        outcome,
    }
}

#[test]
fn reversal_flagged_for_black_win_with_low_score() {
    let g = record(Outcome::FirstPlayerWin, &[50, -30000, 10]);
    assert!(game_is_reversal(&g, 25000));
}

#[test]
fn reversal_not_flagged_for_white_win_with_same_scores() {
    let g = record(Outcome::FirstPlayerLoss, &[50, -30000, 10]);
    assert!(!game_is_reversal(&g, 25000));
}

#[test]
fn reversal_never_flagged_for_draw() {
    let g = record(Outcome::Draw, &[50, -30000, 30000]);
    assert!(!game_is_reversal(&g, 25000));
}

#[test]
fn reversal_for_white_win_needs_high_score() {
    let g = record(Outcome::FirstPlayerLoss, &[50, 30000, 10]);
    assert!(game_is_reversal(&g, 25000));
}

#[test]
fn position_counting_within_limit() {
    let moves: Vec<(u16, i16)> = vec![(0, 100), (0, 26000), (0, -100)];
    // One for the start, one per move whose absolute score is within the
    // limit (inclusive).
    assert_eq!(position_count(&moves, 26000), 4);
    assert_eq!(position_count(&moves, 25001), 3);
    assert_eq!(position_count(&moves, 1000), 3);
    assert_eq!(position_count(&moves, 100), 3);
    assert_eq!(position_count(&moves, 50), 1);
}

#[test]
fn position_counting_handles_extreme_score() {
    let moves: Vec<(u16, i16)> = vec![(0, i16::MIN)];
    assert_eq!(position_count(&moves, i16::MAX), 1);
}

#[test]
fn aggregate_tallies_outcomes() {
    let e = SimpleCodec;
    let mut data = Vec::new();
    data.extend_from_slice(&game_bytes(0, 1, 2, &[(3, 100)]));
    data.extend_from_slice(&game_bytes(0, 1, 2, &[]));
    data.extend_from_slice(&game_bytes(1, 1, 2, &[(3, 30000)]));
    data.extend_from_slice(&game_bytes(2, 1, 2, &[(3, -30000)]));
    let mut heat = Heatmap::new();
    let (led, tally) = aggregate(&e, &data, true, 25000, &mut heat);
    assert_eq!(led.corrupt_count, 0);
    assert_eq!(tally.black_wins, 2);
    assert_eq!(tally.white_wins, 1);
    assert_eq!(tally.draws, 1);
    assert_eq!(tally.reversals, 1);
    // start positions: 4; in-limit moves: 100 and -30000? only |100| and
    // |30000|-scored moves compared against 25000: the two extremes are out.
    assert_eq!(tally.positions, 4 + 1);
    // quick mode records nothing
    assert_eq!(tally.observations, 0);
    assert_eq!(heat.count, 0);
}

#[test]
fn heatmap_conservation_over_files() {
    // Two files, three games, five plies in all: the bins must sum to
    // 3 + 5, one observation per game start and one per move.
    let e = SimpleCodec;
    let mut file1 = Vec::new();
    file1.extend_from_slice(&game_bytes(0, 4, 76, &[(5, 1), (6, 2)]));
    file1.extend_from_slice(&game_bytes(1, 8, 72, &[(7, 3)]));
    let file2 = game_bytes(2, 40, 40, &[(9, 4), (10, 5)]);
    let mut heat = Heatmap::new();
    let (_, t1) = aggregate(&e, &file1, false, 25000, &mut heat);
    let (_, t2) = aggregate(&e, &file2, false, 25000, &mut heat);
    assert_eq!(t1.observations, 2 + 3);
    assert_eq!(t2.observations, 1 + 2);
    let total: u64 = heat.bins.iter().sum();
    assert_eq!(total, 3 + 5);
    assert_eq!(heat.count, 3 + 5);
}

#[test]
fn heatmap_bins_follow_canonical_squares() {
    // One game, no moves: the first player's king square is recorded as is.
    let e = SimpleCodec;
    let data = game_bytes(0, 33, 76, &[]);
    let mut heat = Heatmap::new();
    aggregate(&e, &data, false, 25000, &mut heat);
    assert_eq!(heat.bins[33], 1);
    // One move: now the second player is to move, whose square 20 is
    // point-reflected to 60.
    let data2 = game_bytes(0, 33, 20, &[(0, 1)]);
    let mut heat2 = Heatmap::new();
    aggregate(&e, &data2, false, 25000, &mut heat2);
    assert_eq!(heat2.bins[33], 1);
    assert_eq!(heat2.bins[60], 1);
}

#[test]
fn emphasis_tiers() {
    assert_eq!(emphasis(11, 100), Emphasis::High);
    assert_eq!(emphasis(10, 100), Emphasis::Medium);
    assert_eq!(emphasis(6, 100), Emphasis::Medium);
    assert_eq!(emphasis(5, 100), Emphasis::Low);
    assert_eq!(emphasis(0, 100), Emphasis::Low);
    assert_eq!(emphasis(7, 0), Emphasis::Low);
}

#[test]
fn display_grid_order() {
    assert_eq!(display_cell_square(0), 72);
    assert_eq!(display_cell_square(8), 80);
    assert_eq!(display_cell_square(72), 0);
    assert_eq!(display_cell_square(80), 8);
}

#[test]
fn command_common_picks_shared_args() {
    let c = Command::Count(CountArgs {
        common: CommonArgs { recursive: true, paths: vec![String::from("a.spk")] },
        quick: false,
        eval_limit: 25001,
    });
    let common = c.common();
    assert!(common.recursive);
    assert_eq!(common.paths.len(), 1);
    assert_eq!(common.paths[0], "a.spk");
}
