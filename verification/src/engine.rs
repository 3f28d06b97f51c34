//! The decode-and-rules capability that the record-log engine is built on.
//!
//! A log file is a raw concatenation of variable-length game records whose
//! boundaries only the format's own decoder can find.  The decoder and the
//! game rules (move application, king lookup) are external collaborators:
//! this module states, as a trait, exactly what the engine relies on from
//! them, so the scanning, repair, permutation and statistics logic can be
//! verified once for every conforming implementation.

use vstd::prelude::*;

verus! {

/// Final result of one recorded game, from the first player's point of view.
#[derive(Clone, Copy, PartialEq, Eq, Structural, Debug)]
pub enum Outcome {
    FirstPlayerWin,
    FirstPlayerLoss,
    Draw,
}

/// One decoded game record: the starting position, the played moves with the
/// evaluation score recorded after each, and the final outcome.
pub struct GameRecord<P> {
    pub start: P,
    pub moves: Vec<(u16, i16)>,
    pub outcome: Outcome,
}

/// Mathematical model of a decoded record.
pub ghost struct GameModel<P> {
    pub start: P,
    pub moves: Seq<(u16, i16)>,
    pub outcome: Outcome,
}

impl<P> View for GameRecord<P> {
    type V = GameModel<P>;

    open spec fn view(&self) -> GameModel<P> {
        GameModel { start: self.start, moves: self.moves@, outcome: self.outcome }
    }
}

/// What one decode attempt at the head of a byte stream reports: a record
/// and the bytes it occupies, or a failure and the bytes the attempt read.
pub enum Probe<R> {
    Decoded { used: usize, record: R },
    Failed { used: usize },
}

/// Mathematical model of a decode attempt's result.
pub ghost enum ProbeModel<P> {
    Decoded { used: int, record: GameModel<P> },
    Failed { used: int },
}

/// Whether an executable probe result agrees with its model.
pub open spec fn probe_matches<P>(r: Probe<GameRecord<P>>, m: ProbeModel<P>) -> bool {
    match r {
        Probe::Decoded { used, record } => m == (ProbeModel::Decoded {
            used: used as int,
            record: record@,
        }),
        Probe::Failed { used } => m == (ProbeModel::Failed::<P> { used: used as int }),
    }
}

/// The external format-and-rules capability.
///
/// `probe_spec` is the mathematical meaning of one decode attempt; the laws
/// in `probe_laws` are what every conforming decoder grants: an attempt never
/// claims more bytes than the stream holds, a successful attempt consumes at
/// least one byte, its moves fit in the bytes it consumed, and its result
/// depends only on the bytes it consumed.
pub trait Engine where Self: Sized {
    type Position;

    /// What a decode attempt at the head of `s` yields.
    spec fn probe_spec(&self, s: Seq<u8>) -> ProbeModel<Self::Position>;

    /// Whether the first player is to move in `p`.
    spec fn stm_first_spec(&self, p: Self::Position) -> bool;

    /// The board square of the side-to-move's king in `p`.
    spec fn king_square_spec(&self, p: Self::Position) -> u8;

    /// The position after playing `mv` in `p`.
    spec fn apply_move_spec(&self, p: Self::Position, mv: u16) -> Self::Position;

    /// The laws every conforming decoder obeys.
    proof fn probe_laws(&self, s: Seq<u8>)
        ensures
            (self.probe_spec(s) matches ProbeModel::Decoded { used, record } ==> {
                &&& 1 <= used <= s.len()
                &&& record.moves.len() <= used
                &&& forall|t: Seq<u8>|
                    self.probe_spec(#[trigger] (s.take(used) + t)) == self.probe_spec(s)
            }),
            (self.probe_spec(s) matches ProbeModel::Failed { used } ==> 0 <= used <= s.len()),
    ;

    /// Attempt to decode one record at `offset` in `data`.
    fn probe(&self, data: &Vec<u8>, offset: usize) -> (r: Probe<GameRecord<Self::Position>>)
        requires
            offset < data@.len(),
        ensures
            probe_matches(r, self.probe_spec(data@.skip(offset as int))),
    ;

    /// Whether the first player is to move in `p`.
    fn stm_is_first(&self, p: &Self::Position) -> (r: bool)
        ensures
            r == self.stm_first_spec(*p),
    ;

    /// The board square (always below 81) of the side-to-move's king.
    fn king_square(&self, p: &Self::Position) -> (r: u8)
        ensures
            r == self.king_square_spec(*p),
            r < 81,
    ;

    /// Play `mv` in `p`.
    fn apply_move(&self, p: &Self::Position, mv: u16) -> (q: Self::Position)
        ensures
            q == self.apply_move_spec(*p, mv),
    ;
}

} // verus!
