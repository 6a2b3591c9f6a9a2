//! The state of the sixteen-key input pad.
use vstd::prelude::*;

verus! {

/// Whether key `k` is held in the bit set `bits` (bit `k` stands for key `k`).
pub open spec fn key_bit(bits: u16, k: int) -> bool {
    0 <= k < 16 && (bits >> (k as u16)) & 1u16 == 1u16
}

/// Sixteen key flags, one per key of the pad, read by the machine each tick.
#[derive(Clone, Copy, PartialEq, Eq, Structural, Debug)]
pub struct InputState {
    pub bits: u16,
}

impl InputState {
    /// The flags as a sequence of sixteen booleans.
    pub open spec fn keys(self) -> Seq<bool> {
        Seq::new(16, |k: int| key_bit(self.bits, k))
    }

    /// A pad with no key held.
    pub fn new() -> (r: InputState)
        ensures
            forall|k: int| 0 <= k < 16 ==> !r.keys()[k],
    {
        proof {
            assert forall|k: u16| k < 16 implies !((0u16 >> k) & 1u16 == 1u16) by {
                assert((0u16 >> k) & 1u16 == 0u16) by (bit_vector);
            }
        }
        InputState { bits: 0 }
    }

    /// Whether key `k` is held.
    pub fn is_pressed(&self, k: u8) -> (r: bool)
        requires
            k < 16,
        ensures
            r == self.keys()[k as int],
    {
        (self.bits >> (k as u16)) & 1u16 == 1u16
    }

    /// Holds or releases key `k`; the other keys keep their state.
    pub fn set(&mut self, k: u8, pressed: bool)
        requires
            k < 16,
        ensures
            final(self).keys() == old(self).keys().update(k as int, pressed),
    {
        let old_bits = self.bits;
        let kk = k as u16;
        if pressed {
            self.bits = old_bits | (1u16 << kk);
        } else {
            self.bits = old_bits & !(1u16 << kk);
        }
        let nb = self.bits;
        proof {
            assert forall|j: u16| j < 16 && j != kk implies ((nb >> j) & 1u16 == 1u16) == ((old_bits >> j) & 1u16 == 1u16) by {
                if pressed {
                    assert(nb == old_bits | (1u16 << kk));
                    assert(kk < 16 && j < 16 && j != kk && nb == old_bits | (1u16 << kk) ==> ((nb >> j) & 1u16 == (old_bits >> j) & 1u16)) by (bit_vector);
                } else {
                    assert(nb == old_bits & !(1u16 << kk));
                    assert(kk < 16 && j < 16 && j != kk && nb == old_bits & !(1u16 << kk) ==> ((nb >> j) & 1u16 == (old_bits >> j) & 1u16)) by (bit_vector);
                }
            }
            if pressed {
                assert(kk < 16 && nb == old_bits | (1u16 << kk) ==> (nb >> kk) & 1u16 == 1u16) by (bit_vector);
            } else {
                assert(kk < 16 && nb == old_bits & !(1u16 << kk) ==> (nb >> kk) & 1u16 == 0u16) by (bit_vector);
            }
            assert forall|j: int| 0 <= j < 16 implies self.keys()[j] == old(self).keys().update(k as int, pressed)[j] by {
                if j != k as int {
                    assert((j as u16) != kk);
                }
            }
            assert(self.keys() =~= old(self).keys().update(k as int, pressed));
        }
    }

    /// The lowest-numbered key that is held, if any.
    pub fn first_pressed(&self) -> (r: Option<u8>)
        ensures
            match r {
                Some(k) => k < 16 && self.keys()[k as int] && forall|j: int| 0 <= j < k ==> !self.keys()[j],
                None => forall|j: int| 0 <= j < 16 ==> !self.keys()[j],
            },
    {
        let mut k: u8 = 0;
        while k < 16
            invariant
                k <= 16,
                forall|j: int| 0 <= j < k ==> !self.keys()[j],
            decreases 16 - k,
        {
            if self.is_pressed(k) {
                return Some(k);
            }
            k = k + 1;
        }
        None
    }
}

/// The keyboard keys that stand for pad keys 0 to 15, in that order: four
/// rows of four, `1 2 3 4`, `q w e r`, `a s d f`, `y x c v`.
pub open spec fn pad_layout() -> Seq<char> {
    seq!['1', '2', '3', '4', 'q', 'w', 'e', 'r', 'a', 's', 'd', 'f', 'y', 'x', 'c', 'v']
}

/// The pad key that keyboard key `c` stands for, if any.
pub fn key_for(c: char) -> (r: Option<u8>)
    ensures
        match r {
            Some(k) => k < 16 && pad_layout()[k as int] == c,
            None => !pad_layout().contains(c),
        },
{
    let layout: [char; 16] = ['1', '2', '3', '4', 'q', 'w', 'e', 'r', 'a', 's', 'd', 'f', 'y', 'x', 'c', 'v'];
    assert(layout@ =~= pad_layout());
    let mut k: usize = 0;
    while k < 16
        invariant
            k <= 16,
            layout@ == pad_layout(),
            forall|j: int| 0 <= j < k ==> pad_layout()[j] != c,
        decreases 16 - k,
    {
        if layout[k] == c {
            return Some(k as u8);
        }
        k = k + 1;
    }
    None
}

} // verus!
