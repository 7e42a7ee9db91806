//! The board data model: bins, stores, and the circular 13-slot view used
//! to sow stones across both sides.

use vstd::prelude::*;

verus! {

/// One of the six stone-holding bins on a player's side.
#[derive(Clone, Copy, Debug, PartialEq, Eq, Structural)]
pub enum Bin {
    A,
    B,
    C,
    D,
    E,
    F,
}

impl Bin {
    /// The bin's ordinal, 0 for `A` through 5 for `F`.
    pub open spec fn ordinal_spec(self) -> int {
        match self {
            Bin::A => 0,
            Bin::B => 1,
            Bin::C => 2,
            Bin::D => 3,
            Bin::E => 4,
            Bin::F => 5,
        }
    }

    /// The bin with the given ordinal, if it is in range.
    pub open spec fn from_ordinal(v: int) -> Bin
        recommends
            0 <= v < 6,
    {
        if v == 0 {
            Bin::A
        } else if v == 1 {
            Bin::B
        } else if v == 2 {
            Bin::C
        } else if v == 3 {
            Bin::D
        } else if v == 4 {
            Bin::E
        } else {
            Bin::F
        }
    }

    pub fn ordinal(self) -> (r: u8)
        ensures
            r as int == self.ordinal_spec(),
    {
        match self {
            Bin::A => 0,
            Bin::B => 1,
            Bin::C => 2,
            Bin::D => 3,
            Bin::E => 4,
            Bin::F => 5,
        }
    }

    /// Decodes an ordinal back into a bin; ordinals outside 0..=5 are
    /// rejected with a construction error.
    pub fn try_from(v: u8) -> (r: Result<Bin, ()>)
        ensures
            v < 6 ==> r == Ok::<Bin, ()>(Bin::from_ordinal(v as int)),
            v >= 6 ==> r == Err::<Bin, ()>(()),
    {
        match v {
            0 => Ok(Bin::A),
            1 => Ok(Bin::B),
            2 => Ok(Bin::C),
            3 => Ok(Bin::D),
            4 => Ok(Bin::E),
            5 => Ok(Bin::F),
            _ => Err(()),
        }
    }
}

/// What a circular position denotes: one of my bins, my store, or one of
/// the opponent's bins. The opponent's store is never sown into.
#[derive(Clone, Copy, Debug, PartialEq, Eq, Structural)]
pub enum FlatIndexKind {
    MyBins(u8),
    MyMancala,
    TheirBins(u8),
}

/// A position on the circular 13-slot sowing path: 0-5 my bins, 6 my
/// store, 7-12 the opponent's bins (stored so that positions `i` and
/// `12 - i` face each other across the board).
#[derive(Clone, Copy, Debug, PartialEq, Eq, Structural)]
pub struct FlatIndex(pub u8);

impl FlatIndex {
    /// The next position on the circular path.
    pub open spec fn step_spec(pos: int) -> int {
        if pos == 12 {
            0
        } else {
            pos + 1
        }
    }

    pub fn from(bin: Bin) -> (r: FlatIndex)
        ensures
            r.0 as int == bin.ordinal_spec(),
    {
        FlatIndex(bin.ordinal())
    }

    /// Advances one slot, wrapping from position 12 back to 0.
    pub fn step(&mut self)
        requires
            old(self).0 < 13,
        ensures
            final(self).0 as int == FlatIndex::step_spec(old(self).0 as int),
            final(self).0 < 13,
    {
        self.0 = (self.0 + 1) % 13;
    }

    /// The bin directly across the board: position `12 - i`.
    pub fn opposite(self) -> (r: Self)
        requires
            self.0 < 13,
        ensures
            r.0 as int == 12 - self.0 as int,
    {
        FlatIndex(12 - self.0)
    }

    /// Classifies the position as my bin, my store, or an opponent bin.
    pub fn kind(self) -> (r: FlatIndexKind)
        requires
            self.0 < 13,
        ensures
            match r {
                FlatIndexKind::MyBins(i) => self.0 == i && i < 6,
                FlatIndexKind::MyMancala => self.0 == 6,
                FlatIndexKind::TheirBins(i) => self.0 as int == i + 7 && i < 6,
            },
    {
        if self.0 < 6 {
            FlatIndexKind::MyBins(self.0)
        } else if self.0 == 6 {
            FlatIndexKind::MyMancala
        } else {
            FlatIndexKind::TheirBins(self.0 - 7)
        }
    }
}

/// One player's storage: six bin counts and the store ("mancala").
#[derive(Clone, Copy, Debug)]
pub struct BoardSide {
    pub bins: [u8; 6],
    pub mancala: u8,
}

impl BoardSide {
    /// A side with every bin holding `start_with` stones and an empty store.
    pub fn new(start_with: u8) -> (r: Self)
        ensures
            forall|i: int| 0 <= i < 6 ==> r.bins[i] == start_with,
            r.mancala == 0,
    {
        Self { bins: [start_with; 6], mancala: 0 }
    }
}

/// The whole board: the side of the player whose turn is simulated, and
/// the opponent's side.
#[derive(Clone, Copy, Debug)]
pub struct Board {
    pub current: BoardSide,
    pub opponent: BoardSide,
}

/// The stone count at circular position `i` of the board, with the
/// opponent's store appended as a fourteenth slot (index 13).
pub open spec fn slot_of(b: Board, i: int) -> nat
    recommends
        0 <= i < 14,
{
    if 0 <= i < 6 {
        b.current.bins[i] as nat
    } else if i == 6 {
        b.current.mancala as nat
    } else if 7 <= i < 13 {
        b.opponent.bins[i - 7] as nat
    } else {
        b.opponent.mancala as nat
    }
}

impl View for Board {
    type V = Seq<nat>;

    /// A board is modelled as the sequence of its fourteen slot counts:
    /// positions 0-12 of the circular sowing path, then the opponent's
    /// store at index 13.
    open spec fn view(&self) -> Seq<nat> {
        Seq::new(14, |i: int| slot_of(*self, i))
    }
}

/// Total stones on the board, stores included. Sowing, capture and
/// banking only move stones between slots, so this is conserved.
pub open spec fn total(v: Seq<nat>) -> int
    recommends
        v.len() == 14,
{
    v[0] as int + v[1] + v[2] + v[3] + v[4] + v[5] + v[6] + v[7] + v[8] + v[9] + v[10] + v[11] + v[12]
        + v[13]
}

/// Stones still in play: everything outside the two stores.
pub open spec fn bins_total(v: Seq<nat>) -> int
    recommends
        v.len() == 14,
{
    v[0] as int + v[1] + v[2] + v[3] + v[4] + v[5] + v[7] + v[8] + v[9] + v[10] + v[11] + v[12]
}

impl Board {
    /// A board fits in its `u8` slots as long as the total stone count
    /// does; every slot is bounded by the conserved total.
    pub open spec fn wf(self) -> bool {
        total(self@) <= 255
    }

    /// A board with every bin holding `start_with` stones and both
    /// stores empty.
    pub fn new(start_with: u8) -> (r: Self)
        requires
            12 * start_with <= 255,
        ensures
            forall|i: int| 0 <= i < 14 ==> r@[i] == (if i == 6 || i == 13 { 0nat } else { start_with as nat }),
            total(r@) == 12 * start_with,
            r.wf(),
    {
        let r = Self { current: BoardSide::new(start_with), opponent: BoardSide::new(start_with) };
        r
    }

    /// Reads the stone count at a circular position.
    pub fn slot(&self, i: FlatIndex) -> (r: u8)
        requires
            i.0 < 13,
        ensures
            r as nat == self@[i.0 as int],
    {
        match i.kind() {
            FlatIndexKind::MyBins(b) => self.current.bins[b as usize],
            FlatIndexKind::MyMancala => self.current.mancala,
            FlatIndexKind::TheirBins(b) => self.opponent.bins[b as usize],
        }
    }

    /// Overwrites the stone count at a circular position.
    pub fn set_slot(&mut self, i: FlatIndex, v: u8)
        requires
            i.0 < 13,
        ensures
            final(self)@ == old(self)@.update(i.0 as int, v as nat),
    {
        match i.kind() {
            FlatIndexKind::MyBins(b) => {
                self.current.bins[b as usize] = v;
            },
            FlatIndexKind::MyMancala => {
                self.current.mancala = v;
            },
            FlatIndexKind::TheirBins(b) => {
                self.opponent.bins[b as usize] = v;
            },
        }
        proof {
            assert(self@ =~= old(self)@.update(i.0 as int, v as nat));
        }
    }
}

} // verus!
