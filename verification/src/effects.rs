use vstd::prelude::*;

verus! {

/// A set of capabilities, one bit per capability.
#[derive(Clone, Copy, Debug, PartialEq, Eq, Structural)]
pub struct CapSet {
    bits: u32,
}

/// A set of effects, one bit per effect.
#[derive(Clone, Copy, Debug, PartialEq, Eq, Structural)]
pub struct EffectSet {
    bits: u32,
}

impl View for CapSet {
    type V = u32;

    closed spec fn view(&self) -> u32 {
        self.bits
    }
}

impl View for EffectSet {
    type V = u32;

    closed spec fn view(&self) -> u32 {
        self.bits
    }
}

impl CapSet {
    /// The word may suspend (yield to the scheduler).
    pub const SUSPENDABLE: u32 = 1;
    /// The word runs within a statically bounded stack.
    pub const BOUNDED_STACK: u32 = 2;

    /// Two sets with the same bits are the same set.
    pub broadcast proof fn lemma_ext(a: CapSet, b: CapSet)
        ensures
            (#[trigger] a@ == #[trigger] b@) ==> a == b,
    {
    }

    pub fn empty() -> (s: CapSet)
        ensures
            s@ == 0,
    {
        CapSet { bits: 0 }
    }

    pub fn from_bits(bits: u32) -> (s: CapSet)
        ensures
            s@ == bits,
    {
        CapSet { bits }
    }

    pub fn bits(&self) -> (b: u32)
        ensures
            b == self@,
    {
        self.bits
    }

    pub fn union(self, other: CapSet) -> (s: CapSet)
        ensures
            s@ == self@ | other@,
    {
        CapSet { bits: self.bits | other.bits }
    }

    pub fn intersect(self, other: CapSet) -> (s: CapSet)
        ensures
            s@ == self@ & other@,
    {
        CapSet { bits: self.bits & other.bits }
    }

    pub fn is_empty(&self) -> (r: bool)
        ensures
            r == (self@ == 0),
    {
        self.bits == 0
    }

    /// Every bit of `flags` is in the set.
    pub fn contains(&self, flags: u32) -> (r: bool)
        ensures
            r == (self@ & flags == flags),
    {
        self.bits & flags == flags
    }
}

impl EffectSet {
    /// The code may suspend.
    pub const SUSPEND: u32 = 1;
    /// The code may not terminate.
    pub const DIVERGE: u32 = 2;

    /// Two sets with the same bits are the same set.
    pub broadcast proof fn lemma_ext(a: EffectSet, b: EffectSet)
        ensures
            (#[trigger] a@ == #[trigger] b@) ==> a == b,
    {
    }

    pub fn empty() -> (s: EffectSet)
        ensures
            s@ == 0,
    {
        EffectSet { bits: 0 }
    }

    pub fn from_bits(bits: u32) -> (s: EffectSet)
        ensures
            s@ == bits,
    {
        EffectSet { bits }
    }

    pub fn bits(&self) -> (b: u32)
        ensures
            b == self@,
    {
        self.bits
    }

    pub fn union(self, other: EffectSet) -> (s: EffectSet)
        ensures
            s@ == self@ | other@,
    {
        EffectSet { bits: self.bits | other.bits }
    }

    pub fn intersect(self, other: EffectSet) -> (s: EffectSet)
        ensures
            s@ == self@ & other@,
    {
        EffectSet { bits: self.bits & other.bits }
    }

    pub fn is_empty(&self) -> (r: bool)
        ensures
            r == (self@ == 0),
    {
        self.bits == 0
    }

    /// Every bit of `flags` is in the set.
    pub fn contains(&self, flags: u32) -> (r: bool)
        ensures
            r == (self@ & flags == flags),
    {
        self.bits & flags == flags
    }
}

/// Highest stack slot a word touches above its entry depth.
#[derive(Clone, Copy, Debug, PartialEq, Eq, Structural)]
pub enum High {
    Slots(u32),
    /// Unknown (unbounded) height.
    Top,
}

/// Stack-effect bound of a word: net change in depth and peak height.
#[derive(Clone, Copy, Debug, PartialEq, Eq, Structural)]
pub struct StackBound {
    pub net: i32,
    pub high: High,
}

impl StackBound {
    /// The identity bound: no net change, nothing touched.
    pub fn id() -> (b: StackBound)
        ensures
            b.net == 0,
            b.high == High::Slots(0),
    {
        StackBound { net: 0, high: High::Slots(0) }
    }
}

/// Two's-complement difference of two `i32`s, as `i32::wrapping_sub` computes it.
pub open spec fn wrap_i32(x: int) -> int {
    if x > i32::MAX {
        x - 0x1_0000_0000
    } else if x < i32::MIN {
        x + 0x1_0000_0000
    } else {
        x
    }
}

/// The bound that takes a stack from `prev` to `curr`: the net change is
/// the (wrapping) difference of the nets, and the peak is `curr`'s peak
/// lowered by `prev`'s net, floored at zero; an unknown peak stays unknown.
pub fn bound_delta(prev: StackBound, curr: StackBound) -> (d: StackBound)
    ensures
        d.net == wrap_i32(curr.net - prev.net),
        d.high == (match curr.high {
            High::Top => High::Top,
            High::Slots(h) => {
                let raw = wrap_i32(h as i32 - prev.net);
                if raw < 0 {
                    High::Slots(0)
                } else {
                    High::Slots(raw as u32)
                }
            },
        }),
{
    let net = curr.net.wrapping_sub(prev.net);
    let high = match curr.high {
        High::Top => High::Top,
        High::Slots(h) => {
            let raw = (h as i32).wrapping_sub(prev.net);
            if raw < 0 {
                High::Slots(0)
            } else {
                High::Slots(raw as u32)
            }
        },
    };
    StackBound { net, high }
}

} // verus!
