//! A small, fully verified record codec and rules engine.
//!
//! The engine core works against any conforming `Engine`; this module gives
//! it one whose format is simple enough to state completely, so files with
//! corruption at controlled offsets can be built and scanned.
//!
//! Record layout: one outcome tag byte (0 win, 1 loss, 2 draw; anything
//! else refuses to decode), one move-count byte, the two kings' starting
//! squares, then four bytes per move — a move code and its evaluation
//! score, each two bytes little-endian.

use vstd::prelude::*;

use crate::engine::{Engine, GameModel, GameRecord, Outcome, Probe, ProbeModel};

verus! {

/// A board position reduced to what the replay reads: both kings' squares
/// and whose turn it is.
#[derive(Clone, Copy, PartialEq, Eq, Structural, Debug)]
pub struct SimplePos {
    pub first_king: u8,
    pub second_king: u8,
    pub first_to_move: bool,
}

/// The verified codec-and-rules engine.
pub struct SimpleCodec;

/// A 16-bit value from two little-endian bytes.
pub open spec fn le16(lo: u8, hi: u8) -> u16 {
    (lo + 256 * hi) as u16
}

/// A 16-bit signed score from two little-endian bytes.
pub open spec fn score16(lo: u8, hi: u8) -> i16 {
    le16(lo, hi) as i16
}

/// The outcome a tag byte encodes.
pub open spec fn outcome_of(tag: u8) -> Outcome {
    if tag == 0 {
        Outcome::FirstPlayerWin
    } else if tag == 1 {
        Outcome::FirstPlayerLoss
    } else {
        Outcome::Draw
    }
}

/// The move list encoded at byte 4 of `s`, one four-byte entry per move.
pub open spec fn moves_at(s: Seq<u8>, m: int) -> Seq<(u16, i16)> {
    Seq::new(m as nat, |i: int| (le16(s[4 + 4 * i], s[5 + 4 * i]), score16(s[6 + 4 * i], s[7 + 4 * i])))
}

/// What decoding the head of `s` yields.
pub open spec fn simple_probe(s: Seq<u8>) -> ProbeModel<SimplePos> {
    if s.len() == 0 {
        ProbeModel::Failed { used: 0 }
    } else if s[0] > 2 {
        // An unrecognisable tag: nothing here can be trusted.
        ProbeModel::Failed { used: 0 }
    } else if s.len() < 4 {
        ProbeModel::Failed { used: s.len() as int }
    } else if s[2] >= 81 || s[3] >= 81 {
        ProbeModel::Failed { used: 4 }
    } else if s.len() < 4 + 4 * s[1] {
        ProbeModel::Failed { used: s.len() as int }
    } else {
        ProbeModel::Decoded {
            used: 4 + 4 * s[1],
            record: GameModel {
                start: SimplePos { first_king: s[2], second_king: s[3], first_to_move: true },
                moves: moves_at(s, s[1] as int),
                outcome: outcome_of(s[0]),
            },
        }
    }
}

impl Engine for SimpleCodec {
    type Position = SimplePos;

    open spec fn probe_spec(&self, s: Seq<u8>) -> ProbeModel<SimplePos> {
        simple_probe(s)
    }

    open spec fn stm_first_spec(&self, p: SimplePos) -> bool {
        p.first_to_move
    }

    open spec fn king_square_spec(&self, p: SimplePos) -> u8 {
        if p.first_to_move {
            p.first_king % 81
        } else {
            p.second_king % 81
        }
    }

    open spec fn apply_move_spec(&self, p: SimplePos, mv: u16) -> SimplePos {
        if p.first_to_move {
            SimplePos {
                first_king: (mv % 81) as u8,
                second_king: p.second_king,
                first_to_move: false,
            }
        } else {
            SimplePos {
                first_king: p.first_king,
                second_king: (mv % 81) as u8,
                first_to_move: true,
            }
        }
    }

    proof fn probe_laws(&self, s: Seq<u8>) {
        if simple_probe(s) is Decoded {
            let m = s[1] as int;
            let used = 4 + 4 * m;
            assert forall|t: Seq<u8>|
                self.probe_spec(#[trigger] (s.take(used) + t)) == self.probe_spec(s) by {
                let u = s.take(used) + t;
                assert(forall|i: int| 0 <= i < used ==> u[i] == s[i]);
                assert(u.len() >= used);
                assert(moves_at(u, m) =~= moves_at(s, m)) by {
                    assert forall|i: int| 0 <= i < m implies moves_at(u, m)[i] == moves_at(
                        s,
                        m,
                    )[i] by {
                        assert(u[4 + 4 * i] == s[4 + 4 * i]);
                        assert(u[5 + 4 * i] == s[5 + 4 * i]);
                        assert(u[6 + 4 * i] == s[6 + 4 * i]);
                        assert(u[7 + 4 * i] == s[7 + 4 * i]);
                    }
                }
            }
        }
    }

    fn probe(&self, data: &Vec<u8>, offset: usize) -> (r: Probe<GameRecord<SimplePos>>) {
        let ghost s = data@.skip(offset as int);
        let avail = data.len() - offset;
        let tag = data[offset];
        if tag > 2 {
            return Probe::Failed { used: 0 };
        }
        if avail < 4 {
            return Probe::Failed { used: avail };
        }
        let m = data[offset + 1] as usize;
        let k1 = data[offset + 2];
        let k2 = data[offset + 3];
        if k1 >= 81 || k2 >= 81 {
            return Probe::Failed { used: 4 };
        }
        let need = 4 + 4 * m;
        if avail < need {
            return Probe::Failed { used: avail };
        }
        let mut moves: Vec<(u16, i16)> = Vec::new();
        let mut i: usize = 0;
        while i < m
            invariant
                i <= m,
                m < 256,
                offset + 4 + 4 * m <= data@.len(),
                data@.len() == data.len(),
                moves@.len() == i,
                s == data@.skip(offset as int),
                forall|j: int| 0 <= j < i ==> moves@[j] == moves_at(s, m as int)[j],
            decreases m - i,
        {
            let base = offset + 4 + 4 * i;
            let lo = data[base] as u16;
            let hi = data[base + 1] as u16;
            let mv = lo + 256 * hi;
            let slo = data[base + 2] as u16;
            let shi = data[base + 3] as u16;
            let sc = #[verifier::truncate] ((slo + 256 * shi) as i16);
            moves.push((mv, sc));
            i = i + 1;
            proof {
                assert(s[4 + 4 * (i - 1)] == data@[base as int]);
                assert(s[5 + 4 * (i - 1)] == data@[base + 1]);
                assert(s[6 + 4 * (i - 1)] == data@[base + 2]);
                assert(s[7 + 4 * (i - 1)] == data@[base + 3]);
            }
        }
        let record = GameRecord {
            start: SimplePos { first_king: k1, second_king: k2, first_to_move: true },
            moves,
            outcome: if tag == 0 {
                Outcome::FirstPlayerWin
            } else if tag == 1 {
                Outcome::FirstPlayerLoss
            } else {
                Outcome::Draw
            },
        };
        proof {
            assert(record.moves@ =~= moves_at(s, m as int));
        }
        Probe::Decoded { used: need, record }
    }

    fn stm_is_first(&self, p: &SimplePos) -> (r: bool) {
        p.first_to_move
    }

    fn king_square(&self, p: &SimplePos) -> (r: u8) {
        if p.first_to_move {
            p.first_king % 81
        } else {
            p.second_king % 81
        }
    }

    fn apply_move(&self, p: &SimplePos, mv: u16) -> (q: SimplePos) {
        let sq = (mv % 81) as u8;
        if p.first_to_move {
            SimplePos { first_king: sq, second_king: p.second_king, first_to_move: false }
        } else {
            SimplePos { first_king: p.first_king, second_king: sq, first_to_move: true }
        }
    }
}

} // verus!
