//! Spin-1/2 state representation.
use vstd::prelude::*;

verus! {

/// The spins of `s` as the integers `-1` and `+1`.
pub open spec fn spin_values(s: Seq<SpinHalf>) -> Seq<int> {
    s.map_values(|x: SpinHalf| x.as_int())
}

/// Spin-1/2: `+1` (up) or `-1` (down).
#[derive(Debug, Clone, Copy, PartialEq, Eq, Structural)]
pub enum SpinHalf {
    Down,
    Up,
}

impl SpinHalf {
    /// The spin as the integer `-1` or `+1`.
    pub open spec fn as_int(self) -> int {
        match self {
            SpinHalf::Down => -1,
            SpinHalf::Up => 1,
        }
    }

    /// The opposite spin.
    pub open spec fn opposite(self) -> SpinHalf {
        match self {
            SpinHalf::Up => SpinHalf::Down,
            SpinHalf::Down => SpinHalf::Up,
        }
    }

    /// `-1` for a down spin, `+1` for an up spin.
    pub fn value(self) -> (v: i32)
        ensures
            v == self.as_int(),
    {
        match self {
            SpinHalf::Down => -1,
            SpinHalf::Up => 1,
        }
    }

    /// The spin pointing the other way.
    pub fn flipped(self) -> (s: SpinHalf)
        ensures
            s == self.opposite(),
    {
        match self {
            SpinHalf::Up => SpinHalf::Down,
            SpinHalf::Down => SpinHalf::Up,
        }
    }

    /// The spin of site `(x, y)` in a checkerboard pattern: up where
    /// `x + y` is even, down where it is odd.
    pub fn checkerboard(x: usize, y: usize) -> (s: SpinHalf)
        requires
            x + y <= usize::MAX,
        ensures
            s == (if (x + y) % 2 == 0 { SpinHalf::Up } else { SpinHalf::Down }),
    {
        if (x + y) % 2 == 0 {
            SpinHalf::Up
        } else {
            SpinHalf::Down
        }
    }

    /// Flipping twice gives the spin back, and a flip negates the value.
    pub proof fn lemma_flip_involution(self)
        ensures
            self.opposite().opposite() == self,
            self.opposite().as_int() == -self.as_int(),
            self.opposite() != self,
            self.as_int() == 1 || self.as_int() == -1,
    {
    }
}

} // verus!
