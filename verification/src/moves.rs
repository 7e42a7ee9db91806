//! The move simulator: sowing, chain re-sowing, capture and bonus rules,
//! with a functional model (`sow`, `chain`) that the executable code is
//! proved to implement exactly.

use vstd::prelude::*;

use crate::board::{bins_total, total, Bin, Board, FlatIndex, FlatIndexKind};

verus! {

/// How a simulated move left the turn: a bonus move was granted, or the
/// turn is over.
#[derive(Clone, Copy, Debug, PartialEq, Eq, Structural)]
pub enum MoveResult {
    GoAgain,
    TurnOver,
}

/// Drops `n` stones one by one into successive slots after `pos`,
/// skipping nothing on the 13-slot circular path; returns the new board
/// model and the position the last stone landed on (or `pos` for n = 0).
pub open spec fn sow(v: Seq<nat>, pos: int, n: nat) -> (Seq<nat>, int)
    recommends
        v.len() == 14,
        0 <= pos < 13,
    decreases n,
{
    if n == 0 {
        (v, pos)
    } else {
        let p = FlatIndex::step_spec(pos);
        sow(v.update(p, (v[p] + 1) as nat), p, (n - 1) as nat)
    }
}

/// Steps from `pos` until the current player's store (slot 6) is reached:
/// 13 from the store itself, otherwise between 1 and 12.
pub open spec fn dist_to_store(pos: int) -> int
    recommends
        0 <= pos < 13,
{
    if pos == 6 {
        13
    } else if pos < 6 {
        6 - pos
    } else {
        19 - pos
    }
}

/// What one sowing pass does to the board model: it adds exactly the
/// stones in hand, never touches the opponent's store, never removes
/// stones from a slot, and reaches the current player's store exactly
/// when the hand holds at least `dist_to_store(pos)` stones.
pub proof fn sow_facts(v: Seq<nat>, pos: int, n: nat)
    requires
        v.len() == 14,
        0 <= pos < 13,
    ensures
        ({
            let (v2, land) = sow(v, pos, n);
            &&& v2.len() == 14
            &&& 0 <= land < 13
            &&& total(v2) == total(v) + n
            &&& v2[13] == v[13]
            &&& forall|i: int| 0 <= i < 14 ==> v2[i] >= v[i]
            &&& (n < dist_to_store(pos) ==> v2[6] == v[6] && dist_to_store(land) == dist_to_store(
                pos,
            ) - n)
            &&& (n >= dist_to_store(pos) ==> v2[6] > v[6])
        }),
    decreases n,
{
    if n == 0 {
    } else {
        let p = FlatIndex::step_spec(pos);
        let v1 = v.update(p, (v[p] + 1) as nat);
        sow_facts(v1, p, (n - 1) as nat);
    }
}

/// Banks the whole contents of the bin opposite `land` into the current
/// player's store and empties that bin.
pub open spec fn capture(v: Seq<nat>, land: int) -> Seq<nat>
    recommends
        v.len() == 14,
        0 <= land < 6,
{
    v.update(6, (v[6] + v[12 - land]) as nat).update(12 - land, 0nat)
}

/// The whole move from source position `pos`: pick up everything there,
/// sow it, and either chain from a landing bin that ended up with more
/// than one stone, grant a bonus move for landing in the store, or end
/// the turn (capturing the opposite bin's stones when the last stone
/// fell into one of the current player's empty bins).
pub open spec fn chain(v: Seq<nat>, pos: int) -> (Seq<nat>, MoveResult)
    decreases bins_total(v), dist_to_store(pos),
        when v.len() == 14 && 0 <= pos < 13 && pos != 6
    via chain_decreases
{
    let n = v[pos];
    let picked = v.update(pos, 0nat);
    let (v2, land) = sow(picked, pos, n);
    if land != 6 && v2[land] > 1 {
        chain(v2, land)
    } else if land == 6 {
        (v2, MoveResult::GoAgain)
    } else if land >= 7 {
        (v2, MoveResult::TurnOver)
    } else {
        (capture(v2, land), MoveResult::TurnOver)
    }
}

#[via_fn]
proof fn chain_decreases(v: Seq<nat>, pos: int) {
    let n = v[pos];
    let picked = v.update(pos, 0nat);
    let (v2, land) = sow(picked, pos, n);
    sow_facts(picked, pos, n);
    if land != 6 && v2[land] > 1 {
        if v2[6] == v[6] {
            // No stone reached the store, so the sowing pass stopped
            // short of it and the landing slot lies strictly closer.
            assert(n < dist_to_store(pos));
            if n == 0 {
                assert(v2 == picked && land == pos);
            }
        }
    }
}

/// A finished chain conserves the total stone count, leaves the
/// opponent's store alone, never shrinks the current player's store, and
/// grants a bonus move only by banking at least one stone.
#[verifier::rlimit(100)]
pub proof fn chain_facts(v: Seq<nat>, pos: int)
    requires
        v.len() == 14,
        0 <= pos < 13,
        pos != 6,
    ensures
        ({
            let (v2, r) = chain(v, pos);
            &&& v2.len() == 14
            &&& total(v2) == total(v)
            &&& v2[13] == v[13]
            &&& v2[6] >= v[6]
            &&& (r == MoveResult::GoAgain ==> bins_total(v2) < bins_total(v))
        }),
    decreases bins_total(v), dist_to_store(pos),
{
    let n = v[pos];
    let picked = v.update(pos, 0nat);
    let (v2, land) = sow(picked, pos, n);
    sow_facts(picked, pos, n);
    if land != 6 && v2[land] > 1 {
        if v2[6] == v[6] {
            assert(n < dist_to_store(pos));
            if n == 0 {
                assert(v2 == picked && land == pos);
            }
        }
        chain_facts(v2, land);
    }
}

/// How each sowing pass of a move ends, and nothing else decides the
/// outcome: a bonus move is granted exactly when the pass lands its last
/// stone in the current player's store; a pass that lands on a bin left
/// with more than one stone chains from there; any other landing ends
/// the turn.
pub proof fn lemma_bonus_iff_store_landing(v: Seq<nat>, pos: int)
    requires
        v.len() == 14,
        0 <= pos < 13,
        pos != 6,
    ensures
        ({
            let (v2, land) = sow(v.update(pos, 0nat), pos, v[pos]);
            &&& (land == 6 ==> chain(v, pos).1 == MoveResult::GoAgain)
            &&& (land != 6 && v2[land] <= 1 ==> chain(v, pos).1 == MoveResult::TurnOver)
            &&& (land != 6 && v2[land] > 1 ==> chain(v, pos) == chain(v2, land))
        }),
{
    sow_facts(v.update(pos, 0nat), pos, v[pos]);
}

impl Board {
    /// One sowing pass: empties the source bin and drops its stones into
    /// the following slots, returning where the last stone landed.
    #[verifier::rlimit(100)]
    fn sow_from(&mut self, pos: FlatIndex) -> (land: FlatIndex)
        requires
            old(self).wf(),
            pos.0 < 13,
        ensures
            ({
                let v_head = old(self)@;
                let picked = v_head.update(pos.0 as int, 0nat);
                let sown = sow(picked, pos.0 as int, v_head[pos.0 as int]);
                &&& final(self)@ == sown.0
                &&& land.0 as int == sown.1
                &&& land.0 < 13
            }),
            total(final(self)@) == total(old(self)@),
            final(self).wf(),
    {
        let ghost v_head = self@;
        let ghost p_head = pos.0 as int;
        let mut pos = pos;
        let n = self.slot(pos);
        self.set_slot(pos, 0);
        let ghost picked = self@;
        proof {
            assert(total(picked) == total(v_head) - n);
            sow_facts(picked, p_head, n as nat);
        }
        let mut in_hand = n;
        while in_hand > 0
            invariant
                self@.len() == 14,
                pos.0 < 13,
                total(self@) + in_hand == total(picked) + n,
                sow(self@, pos.0 as int, in_hand as nat) == sow(picked, p_head, n as nat),
                total(picked) + n <= 255,
            decreases in_hand,
        {
            pos.step();
            let c = self.slot(pos);
            assert(c < 255) by {
                // The slot is one summand of the total, which leaves
                // room for the stones still in hand.
                assert(total(self@) <= 255 - in_hand);
            }
            self.set_slot(pos, c + 1);
            in_hand = in_hand - 1;
        }
        proof {
            assert(sow(self@, pos.0 as int, 0) == (self@, pos.0 as int));
        }
        pos
    }

    /// Banks the stones opposite `land` into the current player's store.
    #[verifier::rlimit(100)]
    fn capture_at(&mut self, land: FlatIndex)
        requires
            old(self).wf(),
            land.0 < 6,
        ensures
            final(self)@ == capture(old(self)@, land.0 as int),
            total(final(self)@) == total(old(self)@),
            final(self).wf(),
    {
        let opp = land.opposite();
        let captured = self.slot(opp);
        let store = self.slot(FlatIndex(6));
        assert(store + captured <= 255) by {
            assert(total(self@) <= 255);
        }
        self.set_slot(FlatIndex(6), store + captured);
        self.set_slot(opp, 0);
        proof {
            assert(self@ =~= capture(old(self)@, land.0 as int));
        }
    }

    /// Applies the move procedure starting from circular position
    /// `index`, mutating the board in place; the result and the final
    /// board are exactly those of the `chain` model.
    #[verifier::rlimit(100)]
    #[verifier::loop_isolation(false)]
    pub fn make_move_(&mut self, index: FlatIndex) -> (r: MoveResult)
        requires
            old(self).wf(),
            index.0 < 13,
            index.0 != 6,
        ensures
            final(self)@ == chain(old(self)@, index.0 as int).0,
            r == chain(old(self)@, index.0 as int).1,
            final(self).wf(),
    {
        let ghost v0 = self@;
        let ghost p0 = index.0 as int;
        let mut pos = index;
        loop
            invariant
                self@.len() == 14,
                total(self@) <= 255,
                pos.0 < 13,
                pos.0 != 6,
                chain(self@, pos.0 as int) == chain(v0, p0),
            decreases bins_total(self@), dist_to_store(pos.0 as int),
        {
            let ghost v_head = self@;
            let ghost p_head = pos.0 as int;
            let ghost n = v_head[p_head];
            proof {
                sow_facts(v_head.update(p_head, 0nat), p_head, n);
            }
            let land = self.sow_from(pos);
            let ghost sown = sow(v_head.update(p_head, 0nat), p_head, n);
            match land.kind() {
                FlatIndexKind::MyMancala => {
                    proof {
                        assert(chain(v_head, p_head) == (self@, MoveResult::GoAgain));
                    }
                    return MoveResult::GoAgain;
                },
                _ => {},
            }
            let landed = self.slot(land);
            if landed > 1 {
                // The last stone fell into a non-empty bin: pick it all
                // up and keep sowing from there.
                proof {
                    assert(chain(v_head, p_head) == chain(self@, land.0 as int));
                    if self@[6] == v_head[6] {
                        assert(n < dist_to_store(p_head));
                        if n == 0 {
                            assert(sown == (v_head.update(p_head, 0nat), p_head));
                        }
                        assert(dist_to_store(land.0 as int) < dist_to_store(p_head));
                        assert(bins_total(self@) == bins_total(v_head));
                    } else {
                        assert(bins_total(self@) < bins_total(v_head));
                    }
                }
                pos = land;
                continue;
            }
            match land.kind() {
                FlatIndexKind::TheirBins(_) => {
                    proof {
                        assert(chain(v_head, p_head) == (self@, MoveResult::TurnOver));
                    }
                    return MoveResult::TurnOver;
                },
                _ => {},
            }
            // The last stone fell into one of the current player's empty
            // bins: bank the opposite bin's stones.
            self.capture_at(land);
            proof {
                assert(chain(v_head, p_head) == (capture(sown.0, sown.1), MoveResult::TurnOver));
            }
            return MoveResult::TurnOver;
        }
    }

    /// Attempts the move that empties `move_`'s bin: `None` exactly when
    /// that bin is empty (the board is then untouched), otherwise the
    /// simulated outcome on the mutated board.
    pub fn make_move(&mut self, move_: Bin) -> (r: Option<MoveResult>)
        requires
            old(self).wf(),
        ensures
            old(self)@[move_.ordinal_spec()] == 0 ==> r is None && *final(self) == *old(self),
            old(self)@[move_.ordinal_spec()] > 0 ==> {
                let (v2, res) = chain(old(self)@, move_.ordinal_spec());
                r == Some(res) && final(self)@ == v2
            },
            final(self).wf(),
            total(final(self)@) == total(old(self)@),
            final(self)@.len() == 14,
            final(self)@[13] == old(self)@[13],
    {
        let index = FlatIndex::from(move_);
        if self.slot(index) == 0 {
            None
        } else {
            proof {
                chain_facts(self@, index.0 as int);
            }
            Some(self.make_move_(index))
        }
    }
}

} // verus!

