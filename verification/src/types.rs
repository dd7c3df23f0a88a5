use vstd::prelude::*;

verus! {

/// Largest number of bytes a type atom can hold.
pub const ATOM_CAP: usize = 32;

/// A half-open byte range `start..end` into a source buffer.
#[derive(Clone, Copy, Debug, PartialEq, Eq, Structural)]
pub struct Span {
    pub start: usize,
    pub end: usize,
}

impl Span {
    pub fn new(start: usize, end: usize) -> (s: Span)
        ensures
            s.start == start,
            s.end == end,
    {
        Span { start, end }
    }

    /// The span lies inside a buffer of `len` bytes.
    pub open spec fn within(self, len: nat) -> bool {
        self.start <= self.end && self.end <= len
    }
}

/// A short interned name: a type, word, resource or field name.
/// Two atoms are `==` exactly when they spell the same name.
#[derive(Clone, Copy, Debug, Eq)]
pub struct TypeAtom {
    len: u8,
    bytes: [u8; 32],
}

impl View for TypeAtom {
    type V = Seq<u8>;

    closed spec fn view(&self) -> Seq<u8> {
        let n: int = if self.len as usize <= ATOM_CAP { self.len as int } else { ATOM_CAP as int };
        self.bytes@.subrange(0, n)
    }
}

impl PartialEq for TypeAtom {
    fn eq(&self, other: &TypeAtom) -> (r: bool) {
        self.same(other)
    }
}

impl vstd::std_specs::cmp::PartialEqSpecImpl for TypeAtom {
    open spec fn obeys_eq_spec() -> bool {
        true
    }

    open spec fn eq_spec(&self, other: &TypeAtom) -> bool {
        self@ == other@
    }
}

impl TypeAtom {
    #[verifier::type_invariant]
    closed spec fn inv(self) -> bool {
        self.len as usize <= ATOM_CAP
    }

    /// An atom never holds more than `ATOM_CAP` bytes.
    pub broadcast proof fn lemma_view_len(a: TypeAtom)
        ensures
            #[trigger] a@.len() <= ATOM_CAP,
    {
    }

    /// Builds an atom from `bytes`; fails when they do not fit.
    pub fn new(bytes: &[u8]) -> (r: Option<TypeAtom>)
        ensures
            r is Some <==> bytes@.len() <= ATOM_CAP,
            r matches Some(a) ==> a@ == bytes@,
    {
        if bytes.len() > ATOM_CAP {
            return None;
        }
        let mut buf = [0u8; 32];
        let mut i: usize = 0;
        while i < bytes.len()
            invariant
                bytes@.len() <= ATOM_CAP,
                i <= bytes@.len(),
                buf@.len() == ATOM_CAP,
                forall|j: int| 0 <= j < i ==> buf@[j] == bytes@[j],
            decreases bytes@.len() - i,
        {
            buf[i] = bytes[i];
            i += 1;
        }
        let a = TypeAtom { len: i as u8, bytes: buf };
        assert(a@ =~= bytes@);
        Some(a)
    }

    /// Number of bytes in the atom.
    pub fn len(&self) -> (n: usize)
        ensures
            n == self@.len(),
    {
        proof {
            use_type_invariant(self);
        }
        self.len as usize
    }

    /// The byte at position `i`.
    pub fn byte(&self, i: usize) -> (b: u8)
        requires
            i < self@.len(),
        ensures
            b == self@[i as int],
    {
        self.bytes[i]
    }

    /// Whether both atoms hold the same bytes.
    pub fn same(&self, other: &TypeAtom) -> (r: bool)
        ensures
            r == (self@ == other@),
    {
        let n = self.len();
        if n != other.len() {
            return false;
        }
        let mut i: usize = 0;
        while i < n
            invariant
                n == self@.len(),
                n == other@.len(),
                i <= n,
                forall|j: int| 0 <= j < i ==> self@[j] == other@[j],
            decreases n - i,
        {
            if self.byte(i) != other.byte(i) {
                return false;
            }
            i += 1;
        }
        assert(self@ =~= other@);
        true
    }

    /// Whether the atom holds exactly `bytes`.
    pub fn is(&self, bytes: &[u8]) -> (r: bool)
        ensures
            r == (self@ == bytes@),
    {
        let n = self.len();
        if n != bytes.len() {
            return false;
        }
        let mut i: usize = 0;
        while i < n
            invariant
                n == self@.len(),
                n == bytes@.len(),
                i <= n,
                forall|j: int| 0 <= j < i ==> self@[j] == bytes@[j],
            decreases n - i,
        {
            if self.byte(i) != bytes[i] {
                return false;
            }
            i += 1;
        }
        assert(self@ =~= bytes@);
        true
    }

    /// A copy of the atom's bytes.
    pub fn to_vec(&self) -> (v: Vec<u8>)
        ensures
            v@ == self@,
    {
        let n = self.len();
        let mut v: Vec<u8> = Vec::new();
        let mut i: usize = 0;
        while i < n
            invariant
                n == self@.len(),
                i <= n,
                v@ == self@.subrange(0, i as int),
            decreases n - i,
        {
            v.push(self.byte(i));
            i += 1;
            assert(v@ =~= self@.subrange(0, i as int));
        }
        assert(self@.subrange(0, n as int) =~= self@);
        v
    }
}

} // verus!

verus! {

/// Most inputs (and most outputs) a word signature can list.
pub const MAX_SIG_ARITY: usize = 8;

/// A word's stack signature: what it consumes and what it leaves.
#[derive(Debug)]
pub struct WordSig {
    pub inputs: Vec<TypeAtom>,
    pub outputs: Vec<TypeAtom>,
}

/// The bytes of each atom in `atoms`.
pub open spec fn atoms_view(atoms: Seq<TypeAtom>) -> Seq<Seq<u8>> {
    atoms.map_values(|a: TypeAtom| a@)
}

impl WordSig {
    pub open spec fn ins(&self) -> Seq<Seq<u8>> {
        atoms_view(self.inputs@)
    }

    pub open spec fn outs(&self) -> Seq<Seq<u8>> {
        atoms_view(self.outputs@)
    }

    pub fn empty() -> (s: WordSig)
        ensures
            s.inputs@.len() == 0,
            s.outputs@.len() == 0,
    {
        WordSig { inputs: Vec::new(), outputs: Vec::new() }
    }

    pub fn in_len(&self) -> (n: usize)
        ensures
            n == self.inputs@.len(),
    {
        self.inputs.len()
    }

    pub fn out_len(&self) -> (n: usize)
        ensures
            n == self.outputs@.len(),
    {
        self.outputs.len()
    }
}

/// A malformed word signature: diagnostic number and location.
#[derive(Clone, Copy, Debug, PartialEq, Eq, Structural)]
pub struct SigParseError {
    pub code: u32,
    pub span: Span,
}

} // verus!

verus! {

use crate::effects::{CapSet, EffectSet, StackBound};

/// A word known to the checker: its name, stack signature, the effects
/// it performs, the capabilities it needs and its stack bound.
#[derive(Debug)]
pub struct WordEntry {
    pub name: TypeAtom,
    pub sig: WordSig,
    pub performs: EffectSet,
    pub requires: CapSet,
    pub bound: StackBound,
}

impl WordEntry {
    /// The word performs the suspend effect.
    pub open spec fn spec_may_suspend(&self) -> bool {
        self.performs@ & EffectSet::SUSPEND == EffectSet::SUSPEND
    }

    /// Whether calling the word may suspend the current task.
    #[verifier::when_used_as_spec(spec_may_suspend)]
    pub fn may_suspend(&self) -> (r: bool)
        ensures
            r == self.spec_may_suspend(),
    {
        self.performs.contains(EffectSet::SUSPEND)
    }
}

} // verus!
