//! The statistics aggregator: outcome tallies, evaluation-reversal
//! detection, position counting, and the king-square heatmap replay.

use vstd::prelude::*;

use crate::engine::{Engine, GameModel, GameRecord, Outcome};
use crate::heatmap::Heatmap;
use crate::scan::{ledger_wf, scan, valid_records, FileLedger, SpanStatus};

verus! {

/// Whether a score's absolute value is within the limit (inclusive).
pub open spec fn score_within(score: int, limit: int) -> bool {
    (if score < 0 {
        -score
    } else {
        score
    }) <= limit
}

/// How many moves of a game carry a score within the limit.
pub open spec fn within_count(moves: Seq<(u16, i16)>, limit: int) -> int
    decreases moves.len(),
{
    if moves.len() == 0 {
        0
    } else {
        within_count(moves.drop_last(), limit) + (if score_within(moves.last().1 as int, limit) {
            1int
        } else {
            0int
        })
    }
}

pub proof fn lemma_within_count_bounds(moves: Seq<(u16, i16)>, limit: int)
    ensures
        0 <= within_count(moves, limit) <= moves.len(),
    decreases moves.len(),
{
    if moves.len() == 0 {
    } else {
        lemma_within_count_bounds(moves.drop_last(), limit);
    }
}

/// A game whose final outcome contradicts an extreme mid-game evaluation for
/// the losing side: a first-player win after some score at or below
/// `-limit`, or a first-player loss after some score at or above `limit`.
/// Draws are never reversals.
pub open spec fn reversal_spec<P>(g: GameModel<P>, limit: int) -> bool {
    ||| (g.outcome == Outcome::FirstPlayerWin && exists|k: int|
        0 <= k < g.moves.len() && g.moves[k].1 <= -limit)
    ||| (g.outcome == Outcome::FirstPlayerLoss && exists|k: int|
        0 <= k < g.moves.len() && g.moves[k].1 >= limit)
}

/// How many moves of `moves` carry a score within `limit` (inclusive).
pub fn count_within(moves: &Vec<(u16, i16)>, limit: i16) -> (n: usize)
    ensures
        n == within_count(moves@, limit as int),
        n <= moves@.len(),
{
    proof {
        lemma_within_count_bounds(moves@, limit as int);
    }
    let mut n: usize = 0;
    let mut j: usize = 0;
    let len = moves.len();
    while j < len
        invariant
            j <= len,
            len == moves@.len(),
            n == within_count(moves@.take(j as int), limit as int),
            n <= j,
        decreases len - j,
    {
        let sc = moves[j].1 as i32;
        let a = if sc < 0 {
            -sc
        } else {
            sc
        };
        if a <= limit as i32 {
            n = n + 1;
        }
        j = j + 1;
        proof {
            assert(moves@.take(j as int).drop_last() =~= moves@.take(j - 1));
            assert(moves@.take(j as int).last() == moves@[j - 1]);
        }
    }
    proof {
        assert(moves@.take(len as int) =~= moves@);
    }
    n
}

/// One position for the start of the game, one per move whose score is
/// within the limit.
pub fn position_count(moves: &Vec<(u16, i16)>, limit: i16) -> (n: usize)
    requires
        moves@.len() < usize::MAX,
    ensures
        n == 1 + within_count(moves@, limit as int),
{
    proof {
        lemma_within_count_bounds(moves@, limit as int);
    }
    1 + count_within(moves, limit)
}

/// Whether the game is a reversal under `limit`.
pub fn game_is_reversal<P>(g: &GameRecord<P>, limit: i16) -> (b: bool)
    ensures
        b == reversal_spec(g@, limit as int),
{
    let mut low = false;
    let mut high = false;
    let mut j: usize = 0;
    let len = g.moves.len();
    while j < len
        invariant
            j <= len,
            len == g.moves@.len(),
            low == exists|k: int| 0 <= k < j && g.moves@[k].1 <= -(limit as int),
            high == exists|k: int| 0 <= k < j && g.moves@[k].1 >= limit as int,
        decreases len - j,
    {
        let sc = g.moves[j].1 as i32;
        if sc <= -(limit as i32) {
            low = true;
        }
        if sc >= limit as i32 {
            high = true;
        }
        j = j + 1;
    }
    proof {
        if low {
            let k = choose|k: int| 0 <= k < j && g.moves@[k].1 <= -(limit as int);
            assert(0 <= k < g@.moves.len() && g@.moves[k].1 <= -(limit as int));
        }
        if high {
            let k = choose|k: int| 0 <= k < j && g.moves@[k].1 >= limit as int;
            assert(0 <= k < g@.moves.len() && g@.moves[k].1 >= limit as int);
        }
    }
    if g.outcome == Outcome::FirstPlayerWin {
        low
    } else if g.outcome == Outcome::FirstPlayerLoss {
        high
    } else {
        false
    }
}

/// The board square seen from the owner's side: the first player's squares
/// are kept, the second player's are point-reflected so both players' king
/// paths land in one frame of reference.
pub open spec fn relative_square_spec(first: bool, sq: u8) -> u8 {
    if first {
        sq
    } else {
        (80 - sq) as u8
    }
}

pub fn relative_square(first: bool, sq: u8) -> (r: u8)
    requires
        sq < 81,
    ensures
        r == relative_square_spec(first, sq),
        r < 81,
{
    if first {
        sq
    } else {
        80 - sq
    }
}

/// The position reached after the first `i` recorded moves, in move order.
pub open spec fn pos_after<E: Engine>(
    e: E,
    start: E::Position,
    moves: Seq<(u16, i16)>,
    i: int,
) -> E::Position
    decreases i,
{
    if i <= 0 {
        start
    } else {
        e.apply_move_spec(pos_after(e, start, moves, i - 1), moves[i - 1].0)
    }
}

/// The canonical king square owed for the position after `i` moves.
pub open spec fn observation_at<E: Engine>(
    e: E,
    start: E::Position,
    moves: Seq<(u16, i16)>,
    i: int,
) -> u8 {
    relative_square_spec(
        e.stm_first_spec(pos_after(e, start, moves, i)),
        e.king_square_spec(pos_after(e, start, moves, i)),
    )
}

/// Replay one game and collect the canonical king square observed at the
/// start and after every move, in exactly the recorded move order.
pub fn replay_squares<E: Engine>(e: &E, g: &GameRecord<E::Position>) -> (sqs: Vec<u8>)
    ensures
        sqs@.len() == 1 + g.moves@.len(),
        forall|i: int| 0 <= i < sqs@.len() ==> sqs@[i] < 81,
        forall|i: int| 0 <= i < sqs@.len() ==> sqs@[i] == observation_at(
            *e,
            g.start,
            g.moves@,
            i,
        ),
{
    let mut sqs: Vec<u8> = Vec::new();
    let first = e.stm_is_first(&g.start);
    let k = e.king_square(&g.start);
    sqs.push(relative_square(first, k));
    let len = g.moves.len();
    let mut j: usize = 0;
    let mut cur: Option<E::Position> = None;
    while j < len
        invariant
            j <= len,
            len == g.moves@.len(),
            sqs@.len() == 1 + j,
            forall|i: int| 0 <= i < sqs@.len() ==> sqs@[i] < 81,
            forall|i: int| 0 <= i < sqs@.len() ==> sqs@[i] == observation_at(
                *e,
                g.start,
                g.moves@,
                i,
            ),
            match cur {
                Option::None => j == 0,
                Option::Some(c) => c == pos_after(*e, g.start, g.moves@, j as int),
            },
        decreases len - j,
    {
        let mv = g.moves[j].0;
        let next = match &cur {
            Option::None => e.apply_move(&g.start, mv),
            Option::Some(c) => e.apply_move(c, mv),
        };
        proof {
            assert(pos_after(*e, g.start, g.moves@, 0) == g.start);
            assert(next == pos_after(*e, g.start, g.moves@, j + 1));
        }
        let first = e.stm_is_first(&next);
        let k = e.king_square(&next);
        sqs.push(relative_square(first, k));
        cur = Some(next);
        j = j + 1;
    }
    sqs
}

/// Saturating at the counter's ceiling.
pub open spec fn cap_u64(x: int) -> int {
    if x > u64::MAX {
        u64::MAX as int
    } else {
        x
    }
}

fn sat_add(a: u64, b: u64) -> (r: u64)
    ensures
        r as int == cap_u64(a + b),
{
    if a > u64::MAX - b {
        u64::MAX
    } else {
        a + b
    }
}

/// Positions contributed by a batch of records: one per game start, one per
/// move whose score is within the limit.
pub open spec fn positions_of<P>(rs: Seq<GameModel<P>>, limit: int) -> int
    decreases rs.len(),
{
    if rs.len() == 0 {
        0
    } else {
        1 + within_count(rs[0].moves, limit) + positions_of(rs.skip(1), limit)
    }
}

/// How many records of the batch ended with the given outcome.
pub open spec fn outcome_count<P>(rs: Seq<GameModel<P>>, o: Outcome) -> int
    decreases rs.len(),
{
    if rs.len() == 0 {
        0
    } else {
        (if rs[0].outcome == o {
            1int
        } else {
            0int
        }) + outcome_count(rs.skip(1), o)
    }
}

/// How many records of the batch are reversals.
pub open spec fn reversals_of<P>(rs: Seq<GameModel<P>>, limit: int) -> int
    decreases rs.len(),
{
    if rs.len() == 0 {
        0
    } else {
        (if reversal_spec(rs[0], limit) {
            1int
        } else {
            0int
        }) + reversals_of(rs.skip(1), limit)
    }
}

/// Heatmap observations owed by a batch: one per game start, one per move.
pub open spec fn observations_of<P>(rs: Seq<GameModel<P>>) -> int
    decreases rs.len(),
{
    if rs.len() == 0 {
        0
    } else {
        1 + rs[0].moves.len() + observations_of(rs.skip(1))
    }
}

pub proof fn lemma_observations_nonneg<P>(rs: Seq<GameModel<P>>)
    ensures
        observations_of(rs) >= 0,
    decreases rs.len(),
{
    if rs.len() == 0 {
    } else {
        lemma_observations_nonneg(rs.skip(1));
    }
}

/// The per-file statistics report.
pub struct Tally {
    pub positions: u64,
    pub black_wins: u64,
    pub white_wins: u64,
    pub draws: u64,
    pub reversals: u64,
    pub observations: u64,
}

/// Scan `data` and aggregate every decoded record: tally its outcome, count
/// its in-limit positions, flag it if it is a reversal, and — unless `quick`
/// is set — replay it, recording one canonical king square per position
/// into the shared heatmap.
///
/// Heatmap conservation: unless the shared counter would overflow, the sum
/// of all bins grows by exactly one observation per game start plus one per
/// move — `observations_of` of the scanned records.
pub fn aggregate<E: Engine>(
    e: &E,
    data: &Vec<u8>,
    quick: bool,
    eval_limit: i16,
    heat: &mut Heatmap,
) -> (r: (FileLedger<E::Position>, Tally))
    requires
        old(heat).wf(),
    ensures
        ledger_wf(*e, r.0, data@),
        final(heat).wf(),
        ({
            let rs = valid_records(r.0.spans@);
            let limit = eval_limit as int;
            &&& r.1.positions as int == cap_u64(positions_of(rs, limit))
            &&& r.1.black_wins as int == cap_u64(outcome_count(rs, Outcome::FirstPlayerWin))
            &&& r.1.white_wins as int == cap_u64(outcome_count(rs, Outcome::FirstPlayerLoss))
            &&& r.1.draws as int == cap_u64(outcome_count(rs, Outcome::Draw))
            &&& r.1.reversals as int == cap_u64(reversals_of(rs, limit))
            &&& (quick ==> *final(heat) == *old(heat) && r.1.observations == 0)
            &&& (!quick && old(heat).count + observations_of(rs) <= u64::MAX ==> {
                &&& final(heat).total() == old(heat).total() + observations_of(rs)
                &&& r.1.observations as int == observations_of(rs)
            })
        }),
{
    let led = scan(e, data);
    let ghost rs_full = valid_records(led.spans@);
    let ghost limit = eval_limit as int;
    let mut positions: u64 = 0;
    let mut black_wins: u64 = 0;
    let mut white_wins: u64 = 0;
    let mut draws: u64 = 0;
    let mut reversals: u64 = 0;
    let mut observations: u64 = 0;
    let ghost mut pos_g: int = 0;
    let ghost mut bw_g: int = 0;
    let ghost mut ww_g: int = 0;
    let ghost mut dr_g: int = 0;
    let ghost mut rv_g: int = 0;
    let ghost mut ob_g: int = 0;
    let mut i: usize = 0;
    let n = led.spans.len();
    proof {
        assert(led.spans@.skip(0) =~= led.spans@);
    }
    while i < n
        invariant
            i <= n,
            n == led.spans@.len(),
            limit == eval_limit as int,
            rs_full == valid_records(led.spans@),
            old(heat).wf(),
            heat.wf(),
            pos_g >= 0 && bw_g >= 0 && ww_g >= 0 && dr_g >= 0 && rv_g >= 0 && ob_g >= 0,
            positions_of(rs_full, limit) == pos_g + positions_of(
                valid_records(led.spans@.skip(i as int)),
                limit,
            ),
            outcome_count(rs_full, Outcome::FirstPlayerWin) == bw_g + outcome_count(
                valid_records(led.spans@.skip(i as int)),
                Outcome::FirstPlayerWin,
            ),
            outcome_count(rs_full, Outcome::FirstPlayerLoss) == ww_g + outcome_count(
                valid_records(led.spans@.skip(i as int)),
                Outcome::FirstPlayerLoss,
            ),
            outcome_count(rs_full, Outcome::Draw) == dr_g + outcome_count(
                valid_records(led.spans@.skip(i as int)),
                Outcome::Draw,
            ),
            reversals_of(rs_full, limit) == rv_g + reversals_of(
                valid_records(led.spans@.skip(i as int)),
                limit,
            ),
            observations_of(rs_full) == ob_g + observations_of(
                valid_records(led.spans@.skip(i as int)),
            ),
            positions as int == cap_u64(pos_g),
            black_wins as int == cap_u64(bw_g),
            white_wins as int == cap_u64(ww_g),
            draws as int == cap_u64(dr_g),
            reversals as int == cap_u64(rv_g),
            quick ==> *heat == *old(heat) && observations == 0,
            !quick ==> {
                &&& heat.count as int <= old(heat).count + ob_g
                &&& (old(heat).count + observations_of(rs_full) <= u64::MAX ==> {
                    &&& heat.count as int == old(heat).count + ob_g
                    &&& heat.total() == old(heat).total() + ob_g
                    &&& observations as int == ob_g
                })
            },
        decreases n - i,
    {
        let ghost spansfx = led.spans@.skip(i as int);
        let ghost rsfx = valid_records(spansfx);
        proof {
            assert(spansfx[0] == led.spans@[i as int]);
            assert(spansfx.skip(1) =~= led.spans@.skip(i + 1));
        }
        let sp = &led.spans[i];
        match &sp.status {
            SpanStatus::Valid(g) => {
                proof {
                    assert(rsfx =~= seq![g@] + valid_records(led.spans@.skip(i + 1)));
                    assert(rsfx[0] == g@);
                    assert(rsfx.skip(1) =~= valid_records(led.spans@.skip(i + 1)));
                    lemma_within_count_bounds(g.moves@, limit);
                    lemma_observations_nonneg(valid_records(led.spans@.skip(i + 1)));
                }
                let wc = count_within(&g.moves, eval_limit);
                positions = sat_add(positions, 1);
                positions = sat_add(positions, wc as u64);
                proof {
                    pos_g = pos_g + 1 + within_count(g.moves@, limit);
                }
                if g.outcome == Outcome::FirstPlayerWin {
                    black_wins = sat_add(black_wins, 1);
                    proof {
                        bw_g = bw_g + 1;
                    }
                } else if g.outcome == Outcome::FirstPlayerLoss {
                    white_wins = sat_add(white_wins, 1);
                    proof {
                        ww_g = ww_g + 1;
                    }
                } else {
                    draws = sat_add(draws, 1);
                    proof {
                        dr_g = dr_g + 1;
                    }
                }
                if game_is_reversal(g, eval_limit) {
                    reversals = sat_add(reversals, 1);
                    proof {
                        rv_g = rv_g + 1;
                    }
                }
                if !quick {
                    let sqs = replay_squares(e, g);
                    let rec = heat.record_squares(&sqs);
                    observations = sat_add(observations, rec as u64);
                    proof {
                        ob_g = ob_g + 1 + g.moves@.len();
                    }
                } else {
                    proof {
                        ob_g = ob_g + 1 + g.moves@.len();
                    }
                }
            },
            SpanStatus::Corrupt => {
                proof {
                    assert(rsfx =~= valid_records(led.spans@.skip(i + 1)));
                }
            },
        }
        i = i + 1;
    }
    proof {
        assert(led.spans@.skip(n as int).len() == 0);
        assert(valid_records(led.spans@.skip(n as int)) =~= Seq::<GameModel<E::Position>>::empty());
    }
    let tally = Tally { positions, black_wins, white_wins, draws, reversals, observations };
    (led, tally)
}

} // verus!
