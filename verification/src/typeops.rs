use vstd::prelude::*;

use crate::db::{first_of, lemma_first_of, SubtypeInfo};
use crate::lit::{
    lit_array_open, lit_chan_open, lit_region_ref, lit_region_ref_mut, lit_slice_mut_open,
    lit_slice_open, sp_array_open, sp_chan_open, sp_region_ref, sp_region_ref_mut,
    sp_slice_mut_open, sp_slice_open, starts_with,
};
use crate::parse::push_bytes;
use crate::types::{atoms_view, TypeAtom, WordEntry, ATOM_CAP};
use vstd::slice::slice_subrange;

verus! {

// ---------------------------------------------------------------------------
// Subtypes and compatibility
// ---------------------------------------------------------------------------

/// The names of the declared subtypes, in order.
pub open spec fn subtype_names(s: Seq<SubtypeInfo>) -> Seq<Seq<u8>> {
    Seq::new(s.len(), |i: int| s[i].name@)
}

/// The first subtype declared under `name`.
pub open spec fn spec_find_subtype(s: Seq<SubtypeInfo>, name: Seq<u8>) -> Option<SubtypeInfo> {
    match first_of(subtype_names(s), name) {
        Some(i) => Some(s[i]),
        None => None,
    }
}

/// The first subtype declared under `name`, if any.
pub fn find_subtype(subtypes: &[SubtypeInfo], name: TypeAtom) -> (r: Option<SubtypeInfo>)
    ensures
        r == spec_find_subtype(subtypes@, name@),
{
    let mut i: usize = 0;
    while i < subtypes.len()
        invariant
            i <= subtypes@.len(),
            forall|j: int| 0 <= j < i ==> subtype_names(subtypes@)[j] != name@,
        decreases subtypes@.len() - i,
    {
        if subtypes[i].name.same(&name) {
            proof {
                lemma_first_of(subtype_names(subtypes@), name@, i as int);
            }
            return Some(subtypes[i]);
        }
        i += 1;
    }
    None
}

/// A value of type `got` may stand where `want` is expected: the same
/// type, or a subtype whose base is `want`.
pub open spec fn spec_type_compatible(got: Seq<u8>, want: Seq<u8>, s: Seq<SubtypeInfo>) -> bool {
    got == want || (spec_find_subtype(s, got) matches Some(st) && st.base@ == want)
}

/// Whether a value of type `got` may stand where `want` is expected.
pub fn type_compatible(got: TypeAtom, want: TypeAtom, subtypes: &[SubtypeInfo]) -> (r: bool)
    ensures
        r == spec_type_compatible(got@, want@, subtypes@),
{
    if got.same(&want) {
        return true;
    }
    match find_subtype(subtypes, got) {
        Some(st) => st.base.same(&want),
        None => false,
    }
}

// ---------------------------------------------------------------------------
// Compound type spellings
// ---------------------------------------------------------------------------

/// Depth one level deeper, wrapping like a 32-bit counter.
pub open spec fn depth_up(d: u32) -> u32 {
    if d == u32::MAX { 0 } else { (d + 1) as u32 }
}

/// Depth one level shallower, wrapping like a 32-bit counter.
pub open spec fn depth_down(d: u32) -> u32 {
    if d == 0 { u32::MAX } else { (d - 1) as u32 }
}

/// Position of the first `,` at or after `i` that is outside every
/// parenthesis opened from `i` on, starting at nesting `depth`.
pub open spec fn top_comma(s: Seq<u8>, i: int, depth: u32) -> Option<int>
    decreases s.len() - i,
{
    if i < 0 || i >= s.len() {
        None
    } else if s[i] == 40u8 {
        top_comma(s, i + 1, depth_up(depth))
    } else if s[i] == 41u8 {
        top_comma(s, i + 1, depth_down(depth))
    } else if s[i] == 44u8 && depth == 0 {
        Some(i)
    } else {
        top_comma(s, i + 1, depth)
    }
}

/// `ty` is `prefix` followed by text and a closing `)`.
pub open spec fn wrapped_in(ty: Seq<u8>, prefix: Seq<u8>) -> bool {
    prefix.len() <= ty.len() && ty.subrange(0, prefix.len() as int) == prefix && ty.len() > 0
        && ty.last() == 41u8
}

/// The text between `prefix` and the closing `)`.
pub open spec fn wrapped_inner(ty: Seq<u8>, prefix: Seq<u8>) -> Seq<u8> {
    ty.subrange(prefix.len() as int, ty.len() - 1)
}

/// Element type of an `Array(T, N)` spelling: the text before the first
/// top-level comma.
pub open spec fn spec_array_elem(ty: Seq<u8>) -> Option<Seq<u8>> {
    if wrapped_in(ty, sp_array_open()) && ty.len() > sp_array_open().len() {
        let inner = wrapped_inner(ty, sp_array_open());
        match top_comma(inner, 0, 0) {
            Some(k) => Some(inner.subrange(0, k)),
            None => None,
        }
    } else {
        None
    }
}

/// Element type of an `Array(T, N)` type.
pub fn array_elem_type(ty: TypeAtom) -> (r: Option<TypeAtom>)
    ensures
        r matches Some(a) ==> spec_array_elem(ty@) == Some(a@),
        r is None ==> spec_array_elem(ty@) is None,
{
    proof {
        TypeAtom::lemma_view_len(ty);
    }
    let b = ty.to_vec();
    let pre = lit_array_open();
    if !starts_with(b.as_slice(), &pre) {
        return None;
    }
    let n = b.len();
    if n == 0 || b[n - 1] != 41u8 {
        return None;
    }
    if n <= 6 {
        // `Array(` alone ends in `(`, not `)`.
        assert(b@.last() == 40u8);
        return None;
    }
    let ghost inner = wrapped_inner(b@, sp_array_open());
    assert(wrapped_in(ty@, sp_array_open()));
    let mut depth: u32 = 0;
    let mut i: usize = 6;
    while i < n - 1
        invariant
            7 <= n <= ATOM_CAP,
            n == b@.len(),
            b@ == ty@,
            6 <= i <= n - 1,
            inner == b@.subrange(6, n - 1),
            wrapped_in(ty@, sp_array_open()),
            top_comma(inner, 0, 0) == top_comma(inner, i - 6, depth),
        decreases n - 1 - i,
    {
        let c = b[i];
        assert(inner[i - 6] == c);
        if c == 40u8 {
            depth = if depth == u32::MAX { 0 } else { depth + 1 };
        } else if c == 41u8 {
            depth = if depth == 0 { u32::MAX } else { depth - 1 };
        } else if c == 44u8 && depth == 0 {
            let elem = slice_subrange(b.as_slice(), 6, i);
            assert(top_comma(inner, i - 6, depth) == Some(i - 6));
            assert(elem@ =~= inner.subrange(0, i - 6));
            return TypeAtom::new(elem);
        }
        i += 1;
    }
    None
}

/// Element type of a `Chan(T)` spelling.
pub open spec fn spec_chan_elem(ty: Seq<u8>) -> Option<Seq<u8>> {
    if wrapped_in(ty, sp_chan_open()) && ty.len() > sp_chan_open().len() {
        Some(wrapped_inner(ty, sp_chan_open()))
    } else {
        None
    }
}

/// Element type of a `Chan(T)` type.
pub fn chan_elem_type(ty: TypeAtom) -> (r: Option<TypeAtom>)
    ensures
        r matches Some(a) ==> spec_chan_elem(ty@) == Some(a@),
        r is None ==> spec_chan_elem(ty@) is None,
{
    proof {
        TypeAtom::lemma_view_len(ty);
    }
    let b = ty.to_vec();
    let pre = lit_chan_open();
    if !starts_with(b.as_slice(), &pre) {
        return None;
    }
    let n = b.len();
    if n == 0 || b[n - 1] != 41u8 {
        return None;
    }
    if n <= 5 {
        assert(b@.last() == 40u8);
        return None;
    }
    let inner = slice_subrange(b.as_slice(), 5, n - 1);
    TypeAtom::new(inner)
}

/// The spelling `Slice(elem)` or `SliceMut(elem)`.
pub open spec fn slice_spelling(elem: Seq<u8>, mutable: bool) -> Seq<u8> {
    (if mutable { sp_slice_mut_open() } else { sp_slice_open() }) + elem + seq![41u8]
}

/// The slice type over `elem`; `None` when its spelling does not fit in an atom.
pub fn slice_type_of_elem(elem: TypeAtom, mutable: bool) -> (r: Option<TypeAtom>)
    ensures
        slice_spelling(elem@, mutable).len() <= ATOM_CAP ==> (r matches Some(a) && a@ == slice_spelling(elem@, mutable)),
        slice_spelling(elem@, mutable).len() > ATOM_CAP ==> r is None,
{
    let mut buf = [0u8; 32];
    let k0 = if mutable {
        let p = lit_slice_mut_open();
        push_bytes(&mut buf, 0, &p)
    } else {
        let p = lit_slice_open();
        push_bytes(&mut buf, 0, &p)
    };
    let k0 = match k0 {
        Some(k) => k,
        None => return None,
    };
    let ghost pre = if mutable { sp_slice_mut_open() } else { sp_slice_open() };
    assert(buf@.subrange(0, k0 as int) =~= pre);
    let e = elem.to_vec();
    let k1 = match push_bytes(&mut buf, k0, e.as_slice()) {
        Some(k) => k,
        None => return None,
    };
    assert(buf@.subrange(0, k1 as int) =~= pre + elem@);
    let close: [u8; 1] = [41u8];
    let k2 = match push_bytes(&mut buf, k1, &close) {
        Some(k) => k,
        None => return None,
    };
    assert(buf@.subrange(0, k2 as int) =~= slice_spelling(elem@, mutable));
    let out = slice_subrange(&buf, 0, k2);
    TypeAtom::new(out)
}

/// The region reference type, shared or mutable.
pub fn region_ref_type(mutable: bool) -> (t: TypeAtom)
    ensures
        t@ == (if mutable { sp_region_ref_mut() } else { sp_region_ref() }),
{
    if mutable {
        let b = lit_region_ref_mut();
        TypeAtom::new(&b).unwrap()
    } else {
        let b = lit_region_ref();
        TypeAtom::new(&b).unwrap()
    }
}

// ---------------------------------------------------------------------------
// Name lookup
// ---------------------------------------------------------------------------

/// The names of the words in an environment, in order.
pub open spec fn entry_names(env: Seq<WordEntry>) -> Seq<Seq<u8>> {
    Seq::new(env.len(), |i: int| env[i].name@)
}

/// The first word named `name` in `env`.
pub fn lookup<'a>(env: &'a [WordEntry], name: &[u8]) -> (r: Option<&'a WordEntry>)
    ensures
        r matches Some(e) ==> first_of(entry_names(env@), name@) matches Some(i) && *e == env@[i],
        r is None ==> first_of(entry_names(env@), name@) is None,
{
    let mut i: usize = 0;
    while i < env.len()
        invariant
            i <= env@.len(),
            forall|j: int| 0 <= j < i ==> entry_names(env@)[j] != name@,
        decreases env@.len() - i,
    {
        if env[i].name.is(name) {
            proof {
                lemma_first_of(entry_names(env@), name@, i as int);
            }
            return Some(&env[i]);
        }
        i += 1;
    }
    None
}

/// Position of the first of the `len` bound locals named `name`.
pub fn find_local(locals: &[TypeAtom; 64], len: usize, name: TypeAtom) -> (r: Option<usize>)
    requires
        len <= 64,
    ensures
        r matches Some(i) ==> first_of(atoms_view(locals@.subrange(0, len as int)), name@) == Some(i as int),
        r is None ==> first_of(atoms_view(locals@.subrange(0, len as int)), name@) is None,
{
    let ghost names = atoms_view(locals@.subrange(0, len as int));
    let mut i: usize = 0;
    while i < len
        invariant
            len <= 64,
            i <= len,
            names == atoms_view(locals@.subrange(0, len as int)),
            forall|j: int| 0 <= j < i ==> names[j] != name@,
        decreases len - i,
    {
        assert(names[i as int] == locals@[i as int]@);
        if locals[i].same(&name) {
            proof {
                lemma_first_of(names, name@, i as int);
            }
            return Some(i);
        }
        i += 1;
    }
    None
}

} // verus!
