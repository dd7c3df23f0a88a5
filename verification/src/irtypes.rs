//! How the code generator sees types: the bit width and signedness of a
//! value, which raw casts it allows, whether an effect annotation names
//! suspension, and the names it gives to lifted quotations.
use vstd::prelude::*;

use crate::db::{
    first_of, lemma_first_of, resource_index, resource_ty, spec_struct_field_ty, struct_field_ty, NominalDb,
    ResourceDb, SubtypeInfo,
};
use crate::error::TcError;
use crate::mmio::{find_byte, first_pos, lemma_first_pos_range, lemma_first_pos_unique, split_dots};
use crate::typeops::{array_elem_type, find_local, find_subtype, spec_array_elem, spec_find_subtype};
use crate::names::{capture_balanced, close_of, lemma_tk_within, spans_within, tk, token_in, tokens_ordered};
use crate::parse::{parse_word_sig, spec_word_sig};
use crate::tokens::{Token, TokenKind};
use crate::types::{atoms_view, Span, TypeAtom, WordSig, ATOM_CAP};
use crate::wordcheck::{sig_error, sig_error_of};
use vstd::slice::slice_subrange;

verus! {

// ---------------------------------------------------------------------------
// Widths
// ---------------------------------------------------------------------------

/// `Chan(`
pub open spec fn sp_chan_prefix() -> Seq<u8> {
    seq![67u8, 104u8, 97u8, 110u8, 40u8]
}

/// The unsigned integer spellings with their widths: `u8`, `u16`, `u32`,
/// `u64`, `usize`.
pub open spec fn unsigned_width(t: Seq<u8>) -> Option<u16> {
    if t == seq![117u8, 56u8] {
        Some(8u16)
    } else if t == seq![117u8, 49u8, 54u8] {
        Some(16u16)
    } else if t == seq![117u8, 51u8, 50u8] {
        Some(32u16)
    } else if t == seq![117u8, 54u8, 52u8] {
        Some(64u16)
    } else if t == seq![117u8, 115u8, 105u8, 122u8, 101u8] {
        Some(64u16)
    } else {
        None
    }
}

/// The signed integer spellings with their widths: `i8`, `i16`, `i32`,
/// `i64`, `isize`.
pub open spec fn signed_width(t: Seq<u8>) -> Option<u16> {
    if t == seq![105u8, 56u8] {
        Some(8u16)
    } else if t == seq![105u8, 49u8, 54u8] {
        Some(16u16)
    } else if t == seq![105u8, 51u8, 50u8] {
        Some(32u16)
    } else if t == seq![105u8, 54u8, 52u8] {
        Some(64u16)
    } else if t == seq![105u8, 115u8, 105u8, 122u8, 101u8] {
        Some(64u16)
    } else {
        None
    }
}

/// The word-sized handles: `ptr`, `ptr_mut`, `str`, `mmio`.
pub open spec fn is_handle(t: Seq<u8>) -> bool {
    ||| t == seq![112u8, 116u8, 114u8]
    ||| t == seq![112u8, 116u8, 114u8, 95u8, 109u8, 117u8, 116u8]
    ||| t == seq![115u8, 116u8, 114u8]
    ||| t == seq![109u8, 109u8, 105u8, 111u8]
}

/// The width in bits and signedness of a primitive type: channels are
/// 64-bit handles, `bool` is a byte, the integers are as spelled (`usize`
/// and `isize` are 64-bit), and pointers, strings and MMIO handles are
/// 64-bit unsigned.  Other types have none.
pub open spec fn spec_prim_bits(t: Seq<u8>) -> Option<(u16, bool)> {
    if t.len() >= 5 && t.subrange(0, 5) == sp_chan_prefix() {
        Some((64u16, false))
    } else if unsigned_width(t) is Some {
        Some((unsigned_width(t)->0, false))
    } else if signed_width(t) is Some {
        Some((signed_width(t)->0, true))
    } else if t == seq![98u8, 111u8, 111u8, 108u8] {
        Some((8u16, false))
    } else if is_handle(t) {
        Some((64u16, false))
    } else {
        None
    }
}

/// Whether `ty` is spelled exactly as `k`.
fn spelled(ty: &TypeAtom, k: &[u8]) -> (r: bool)
    ensures
        r == (ty@ == k@),
{
    ty.is(k)
}

/// The width of an unsigned integer type (see `unsigned_width`).
fn unsigned_bits(ty: &TypeAtom) -> (r: Option<u16>)
    ensures
        r == unsigned_width(ty@),
{
    let k: [u8; 2] = [117, 56];
    assert(k@ =~= seq![117u8, 56u8]);
    if spelled(ty, &k) {
        return Some(8);
    }
    let k: [u8; 3] = [117, 49, 54];
    assert(k@ =~= seq![117u8, 49u8, 54u8]);
    if spelled(ty, &k) {
        return Some(16);
    }
    let k: [u8; 3] = [117, 51, 50];
    assert(k@ =~= seq![117u8, 51u8, 50u8]);
    if spelled(ty, &k) {
        return Some(32);
    }
    let k: [u8; 3] = [117, 54, 52];
    assert(k@ =~= seq![117u8, 54u8, 52u8]);
    if spelled(ty, &k) {
        return Some(64);
    }
    let k: [u8; 5] = [117, 115, 105, 122, 101];
    assert(k@ =~= seq![117u8, 115u8, 105u8, 122u8, 101u8]);
    if spelled(ty, &k) {
        return Some(64);
    }
    None
}

/// The width of a signed integer type (see `signed_width`).
fn signed_bits(ty: &TypeAtom) -> (r: Option<u16>)
    ensures
        r == signed_width(ty@),
{
    let k: [u8; 2] = [105, 56];
    assert(k@ =~= seq![105u8, 56u8]);
    if spelled(ty, &k) {
        return Some(8);
    }
    let k: [u8; 3] = [105, 49, 54];
    assert(k@ =~= seq![105u8, 49u8, 54u8]);
    if spelled(ty, &k) {
        return Some(16);
    }
    let k: [u8; 3] = [105, 51, 50];
    assert(k@ =~= seq![105u8, 51u8, 50u8]);
    if spelled(ty, &k) {
        return Some(32);
    }
    let k: [u8; 3] = [105, 54, 52];
    assert(k@ =~= seq![105u8, 54u8, 52u8]);
    if spelled(ty, &k) {
        return Some(64);
    }
    let k: [u8; 5] = [105, 115, 105, 122, 101];
    assert(k@ =~= seq![105u8, 115u8, 105u8, 122u8, 101u8]);
    if spelled(ty, &k) {
        return Some(64);
    }
    None
}

/// Whether the type is one of the word-sized handles (see `is_handle`).
fn handle(ty: &TypeAtom) -> (r: bool)
    ensures
        r == is_handle(ty@),
{
    let a: [u8; 3] = [112, 116, 114];
    assert(a@ =~= seq![112u8, 116u8, 114u8]);
    let b: [u8; 7] = [112, 116, 114, 95, 109, 117, 116];
    assert(b@ =~= seq![112u8, 116u8, 114u8, 95u8, 109u8, 117u8, 116u8]);
    let c: [u8; 3] = [115, 116, 114];
    assert(c@ =~= seq![115u8, 116u8, 114u8]);
    let d: [u8; 4] = [109, 109, 105, 111];
    assert(d@ =~= seq![109u8, 109u8, 105u8, 111u8]);
    spelled(ty, &a) || spelled(ty, &b) || spelled(ty, &c) || spelled(ty, &d)
}

/// The width in bits and signedness of a primitive type (see
/// `spec_prim_bits`).
pub fn prim_bits_signed(ty: TypeAtom) -> (r: Option<(u16, bool)>)
    ensures
        r == spec_prim_bits(ty@),
{
    let p: [u8; 5] = [67, 104, 97, 110, 40];
    assert(p@ =~= sp_chan_prefix());
    if ty.len() >= 5 {
        let mut same = true;
        let mut i: usize = 0;
        assert(ty@.subrange(0, 0) =~= p@.subrange(0, 0));
        while i < 5
            invariant
                ty@.len() >= 5,
                i <= 5,
                p@ == sp_chan_prefix(),
                same == (ty@.subrange(0, i as int) == p@.subrange(0, i as int)),
            decreases 5 - i,
        {
            if ty.byte(i) != p[i] {
                proof {
                    assert(ty@.subrange(0, i as int + 1)[i as int] != p@.subrange(0, i as int + 1)[i as int]);
                }
                same = false;
            } else if same {
                proof {
                    assert(ty@.subrange(0, i as int + 1) =~= ty@.subrange(0, i as int).push(ty@[i as int]));
                    assert(p@.subrange(0, i as int + 1) =~= p@.subrange(0, i as int).push(p@[i as int]));
                }
            } else {
                proof {
                    if ty@.subrange(0, i as int + 1) == p@.subrange(0, i as int + 1) {
                        assert(ty@.subrange(0, i as int) =~= ty@.subrange(0, i as int + 1).subrange(0, i as int));
                        assert(p@.subrange(0, i as int) =~= p@.subrange(0, i as int + 1).subrange(0, i as int));
                    }
                }
            }
            i += 1;
        }
        assert(p@.subrange(0, 5) =~= p@);
        if same {
            return Some((64, false));
        }
    }
    if let Some(b) = unsigned_bits(&ty) {
        return Some((b, false));
    }
    if let Some(b) = signed_bits(&ty) {
        return Some((b, true));
    }
    let k: [u8; 4] = [98, 111, 111, 108];
    assert(k@ =~= seq![98u8, 111u8, 111u8, 108u8]);
    if spelled(&ty, &k) {
        return Some((8, false));
    }
    if handle(&ty) {
        return Some((64, false));
    }
    None
}

/// The names of the module's enums, in order.
pub open spec fn enum_names(db: NominalDb) -> Seq<Seq<u8>> {
    Seq::new(db.enums@.len(), |i: int| db.enums@[i].name@)
}

/// The base type of the first enum named `t`.
pub open spec fn spec_enum_base(db: NominalDb, t: Seq<u8>) -> Option<Seq<u8>> {
    match first_of(enum_names(db), t) {
        Some(i) => Some(db.enums@[i].base@),
        None => None,
    }
}

/// The base type of the enum named `enum_ty`, if there is one.
pub fn enum_base_ty(db: &NominalDb, enum_ty: TypeAtom) -> (r: Option<TypeAtom>)
    ensures
        r matches Some(b) ==> spec_enum_base(*db, enum_ty@) == Some(b@),
        r is None ==> spec_enum_base(*db, enum_ty@) is None,
{
    let mut i: usize = 0;
    while i < db.enums.len()
        invariant
            i <= db.enums@.len(),
            forall|j: int| 0 <= j < i ==> enum_names(*db)[j] != enum_ty@,
        decreases db.enums@.len() - i,
    {
        if db.enums[i].name.same(&enum_ty) {
            proof {
                lemma_first_of(enum_names(*db), enum_ty@, i as int);
            }
            return Some(db.enums[i].base);
        }
        i += 1;
    }
    proof {
        assert(!exists|k: int| 0 <= k < enum_names(*db).len() && #[trigger] enum_names(*db)[k] == enum_ty@);
    }
    None
}

/// The width and signedness of a value of type `t`: a primitive's own, an
/// enum's base's, or a subtype's base's.
pub open spec fn spec_ty_bits(db: NominalDb, subtypes: Seq<SubtypeInfo>, t: Seq<u8>) -> Option<(u16, bool)> {
    if spec_prim_bits(t) is Some {
        spec_prim_bits(t)
    } else if spec_enum_base(db, t) is Some {
        spec_prim_bits(spec_enum_base(db, t)->0)
    } else if spec_find_subtype(subtypes, t) is Some {
        spec_prim_bits(spec_find_subtype(subtypes, t)->0.base@)
    } else {
        None
    }
}

/// The width in bits and signedness of a value of type `ty` (see
/// `spec_ty_bits`).
pub fn ty_bits_signed(db: &NominalDb, subtypes: &[SubtypeInfo], ty: TypeAtom) -> (r: Option<(u16, bool)>)
    ensures
        r == spec_ty_bits(*db, subtypes@, ty@),
{
    if let Some(p) = prim_bits_signed(ty) {
        return Some(p);
    }
    if let Some(base) = enum_base_ty(db, ty) {
        return prim_bits_signed(base);
    }
    if let Some(st) = find_subtype(subtypes, ty) {
        return prim_bits_signed(st.base);
    }
    None
}

// ---------------------------------------------------------------------------
// Raw casts
// ---------------------------------------------------------------------------

/// `ptr` or `ptr_mut`.
pub open spec fn is_ptrish(t: Seq<u8>) -> bool {
    t == seq![112u8, 116u8, 114u8] || t == seq![112u8, 116u8, 114u8, 95u8, 109u8, 117u8, 116u8]
}

/// One of the integer types.
pub open spec fn is_intish(t: Seq<u8>) -> bool {
    unsigned_width(t) is Some || signed_width(t) is Some
}

/// A cast between a pointer and an integer, or between the two pointer
/// types, is raw: it is allowed only where raw casts are.  Every other
/// cast is allowed here.
pub open spec fn spec_raw_cast_allowed(allow_raw: bool, from: Seq<u8>, to: Seq<u8>) -> bool {
    if is_ptrish(from) && is_intish(to) {
        allow_raw
    } else if is_intish(from) && is_ptrish(to) {
        allow_raw
    } else if is_ptrish(from) && is_ptrish(to) && from != to {
        allow_raw
    } else {
        true
    }
}

fn ptrish(ty: &TypeAtom) -> (r: bool)
    ensures
        r == is_ptrish(ty@),
{
    let a: [u8; 3] = [112, 116, 114];
    assert(a@ =~= seq![112u8, 116u8, 114u8]);
    let b: [u8; 7] = [112, 116, 114, 95, 109, 117, 116];
    assert(b@ =~= seq![112u8, 116u8, 114u8, 95u8, 109u8, 117u8, 116u8]);
    spelled(ty, &a) || spelled(ty, &b)
}

fn intish(ty: &TypeAtom) -> (r: bool)
    ensures
        r == is_intish(ty@),
{
    unsigned_bits(ty).is_some() || signed_bits(ty).is_some()
}

/// Whether a cast from `from_ty` to `to_ty` is allowed (see
/// `spec_raw_cast_allowed`).
pub fn check_raw_cast_allowed(allow_raw_casts: bool, from_ty: TypeAtom, to_ty: TypeAtom) -> (r: bool)
    ensures
        r == spec_raw_cast_allowed(allow_raw_casts, from_ty@, to_ty@),
{
    let fp = ptrish(&from_ty);
    let tp = ptrish(&to_ty);
    if fp && intish(&to_ty) {
        return allow_raw_casts;
    }
    if intish(&from_ty) && tp {
        return allow_raw_casts;
    }
    if fp && tp && !from_ty.same(&to_ty) {
        return allow_raw_casts;
    }
    true
}

// ---------------------------------------------------------------------------
// Effect annotations
// ---------------------------------------------------------------------------

/// `suspend`
pub open spec fn sp_suspend() -> Seq<u8> {
    seq![115u8, 117u8, 115u8, 112u8, 101u8, 110u8, 100u8]
}

/// The text `bytes` holds `suspend` somewhere.
pub open spec fn names_suspend(bytes: Seq<u8>) -> bool {
    exists|i: int| 0 <= i && i + 7 <= bytes.len() && #[trigger] bytes.subrange(i, i + 7) == sp_suspend()
}

/// Whether an effect annotation names the suspend effect.
pub fn effect_has_suspend(bytes: &[u8]) -> (r: bool)
    ensures
        r == names_suspend(bytes@),
{
    if bytes.len() < 4 {
        return false;
    }
    let needle: [u8; 7] = [115, 117, 115, 112, 101, 110, 100];
    assert(needle@ =~= sp_suspend());
    if bytes.len() < 7 {
        return false;
    }
    let mut i: usize = 0;
    while i <= bytes.len() - 7
        invariant
            bytes@.len() >= 7,
            i <= bytes@.len() - 6,
            needle@ == sp_suspend(),
            forall|j: int| 0 <= j < i ==> #[trigger] bytes@.subrange(j, j + 7) != sp_suspend(),
        decreases bytes@.len() - i,
    {
        let mut k: usize = 0;
        let mut hit = true;
        while k < 7
            invariant
                i + 7 <= bytes@.len(),
                bytes@.len() == bytes.len(),
                k <= 7,
                needle@ == sp_suspend(),
                hit == (forall|m: int| 0 <= m < k ==> bytes@[i + m] == needle@[m]),
            decreases 7 - k,
        {
            if bytes[i + k] != needle[k] {
                hit = false;
            }
            k += 1;
        }
        if hit {
            assert(bytes@.subrange(i as int, i + 7) =~= sp_suspend());
            return true;
        }
        assert(bytes@.subrange(i as int, i + 7) != sp_suspend()) by {
            let m = choose|m: int| 0 <= m < 7 && bytes@[i + m] != needle@[m];
            assert(bytes@.subrange(i as int, i + 7)[m] != sp_suspend()[m]);
        }
        i += 1;
    }
    false
}

// ---------------------------------------------------------------------------
// Lifted quotations
// ---------------------------------------------------------------------------

/// The lower-case hex digit for `d` (below 16).
pub open spec fn hex_digit(d: u32) -> u8 {
    if d < 10 {
        (48 + d) as u8
    } else {
        (97 + (d - 10)) as u8
    }
}

/// The eight hex digits of `id`, least significant first.
pub open spec fn hex_lsb_first(id: u32, n: nat) -> Seq<u8>
    decreases n,
{
    if n == 0 {
        Seq::empty()
    } else {
        seq![hex_digit(id % 16)] + hex_lsb_first(id / 16, (n - 1) as nat)
    }
}

/// The name of the quotation word numbered `id`: `__quot_` and the eight
/// hex digits of the number, least significant first.
pub open spec fn spec_quote_name(id: u32) -> Seq<u8> {
    seq![95u8, 95u8, 113u8, 117u8, 111u8, 116u8, 95u8] + hex_lsb_first(id, 8)
}

/// Names the next lifted quotation from the counter, which moves on by
/// one (wrapping).
pub fn quote_word_name(counter: &mut u32) -> (name: TypeAtom)
    ensures
        name@ == spec_quote_name(*old(counter)),
        *final(counter) == (if *old(counter) == u32::MAX { 0 } else { (*old(counter) + 1) as u32 }),
{
    let id = *counter;
    *counter = id.wrapping_add(1);
    let mut buf: Vec<u8> = Vec::new();
    buf.push(95);
    buf.push(95);
    buf.push(113);
    buf.push(117);
    buf.push(111);
    buf.push(116);
    buf.push(95);
    let ghost head = buf@;
    assert(head =~= seq![95u8, 95u8, 113u8, 117u8, 111u8, 116u8, 95u8]);
    let mut v: u32 = id;
    let mut n: usize = 0;
    while n < 8
        invariant
            n <= 8,
            buf@ + hex_lsb_first(v, (8 - n) as nat) == spec_quote_name(id),
            buf@.len() == 7 + n,
        decreases 8 - n,
    {
        let d = v % 16;
        let b: u8 = if d < 10 { 48 + d as u8 } else { 97 + (d - 10) as u8 };
        assert(b == hex_digit(d));
        let ghost before = buf@;
        buf.push(b);
        assert(hex_lsb_first(v, (8 - n) as nat) == seq![hex_digit(v % 16)] + hex_lsb_first(v / 16, (8 - n - 1) as nat));
        assert(buf@ + hex_lsb_first(v / 16, (8 - n - 1) as nat) =~= before + hex_lsb_first(v, (8 - n) as nat));
        v = v / 16;
        n += 1;
    }
    assert(hex_lsb_first(v, 0) =~= Seq::<u8>::empty());
    assert(buf@ =~= spec_quote_name(id));
    TypeAtom::new(buf.as_slice()).unwrap()
}

// ---------------------------------------------------------------------------
// What a place points at
// ---------------------------------------------------------------------------

/// Most segments a place may have.
pub const PLACE_SEGMENTS: usize = 8;

/// A segment's name: the text before its first `'` (an index mark), or the
/// whole segment.
pub open spec fn seg_name(seg: Seq<u8>) -> Seq<u8> {
    match first_pos(seg, 39u8, 0) {
        Some(p) => seg.subrange(0, p),
        None => seg,
    }
}

/// Whether a segment is indexed (holds a `'`).
pub open spec fn seg_indexed(seg: Seq<u8>) -> bool {
    first_pos(seg, 39u8, 0) is Some
}

/// The segments of a place are well formed: at most `PLACE_SEGMENTS` of
/// them, none empty, each name fitting in an atom.
pub open spec fn segments_ok(segs: Seq<Seq<u8>>) -> bool {
    &&& segs.len() <= PLACE_SEGMENTS
    &&& forall|k: int| 0 <= k < segs.len() ==> (#[trigger] segs[k]).len() > 0 && seg_name(segs[k]).len() <= ATOM_CAP
}

/// Following the fields named by segments `k..` from type `ty`, taking
/// the element type after each indexed segment.  `None` where a field or
/// an element type is missing.
#[verifier::opaque]
pub open spec fn spec_walk(
    structs: Seq<(Seq<u8>, Seq<(Seq<u8>, Seq<u8>)>)>,
    ty: Seq<u8>,
    segs: Seq<Seq<u8>>,
    k: int,
) -> Option<Seq<u8>>
    decreases segs.len() - k,
{
    if k < 0 || k >= segs.len() {
        Some(ty)
    } else {
        match spec_struct_field_ty(structs, ty, seg_name(segs[k])) {
            None => None,
            Some(f) => {
                let t = if seg_indexed(segs[k]) { spec_array_elem(f) } else { Some(f) };
                match t {
                    None => None,
                    Some(t) => spec_walk(structs, t, segs, k + 1),
                }
            },
        }
    }
}

/// One step of `spec_walk`.
pub proof fn lemma_walk_step(
    structs: Seq<(Seq<u8>, Seq<(Seq<u8>, Seq<u8>)>)>,
    ty: Seq<u8>,
    segs: Seq<Seq<u8>>,
    k: int,
)
    ensures
        (k < 0 || k >= segs.len()) ==> spec_walk(structs, ty, segs, k) == Some(ty),
        0 <= k < segs.len() ==> spec_walk(structs, ty, segs, k) == match spec_struct_field_ty(
            structs,
            ty,
            seg_name(segs[k]),
        ) {
            None => None,
            Some(f) => {
                let t = if seg_indexed(segs[k]) { spec_array_elem(f) } else { Some(f) };
                match t {
                    None => None,
                    Some(t) => spec_walk(structs, t, segs, k + 1),
                }
            },
        },
{
    reveal(spec_walk);
}

/// The type of a place's root: the resource's type, else the type of the
/// first local of that name.
pub open spec fn spec_root_ty(
    resources: Seq<(Seq<u8>, Seq<u8>, u8, bool)>,
    locals: Seq<TypeAtom>,
    local_tys: Seq<TypeAtom>,
    root: Seq<u8>,
) -> Option<Seq<u8>> {
    match resource_index(resources, root) {
        Some(i) => Some(resources[i].1),
        None => match first_of(atoms_view(locals), root) {
            Some(j) => Some(local_tys[j]@),
            None => None,
        },
    }
}

/// The type a place `a'.b.c` points at: malformed segments are refused
/// (`PlaceSegmentEmpty`); a root that is neither a resource nor a local
/// gives no type; a missing field or element type is refused
/// (`FieldNotFound`).
pub open spec fn spec_place_pointee(
    place: Seq<u8>,
    span: Span,
    resources: Seq<(Seq<u8>, Seq<u8>, u8, bool)>,
    locals: Seq<TypeAtom>,
    local_tys: Seq<TypeAtom>,
    structs: Seq<(Seq<u8>, Seq<(Seq<u8>, Seq<u8>)>)>,
) -> Result<Option<Seq<u8>>, TcError> {
    let segs = split_dots(place);
    if !segments_ok(segs) {
        Err(TcError::PlaceSegmentEmpty { span })
    } else {
        match spec_root_ty(resources, locals, local_tys, seg_name(segs[0])) {
            None => Ok(None),
            Some(rt) => {
                let t0 = if seg_indexed(segs[0]) { spec_array_elem(rt) } else { Some(rt) };
                match t0 {
                    None => Err(TcError::FieldNotFound { span }),
                    Some(t) => match spec_walk(structs, t, segs, 1) {
                        None => Err(TcError::FieldNotFound { span }),
                        Some(r) => Ok(Some(r)),
                    },
                }
            },
        }
    }
}

/// All the `.`-separated segments of `name`.
fn dotted_segments<'a>(name: &'a [u8]) -> (v: Vec<&'a [u8]>)
    ensures
        v@.len() == split_dots(name@).len(),
        forall|k: int| 0 <= k < v@.len() ==> (#[trigger] v@[k])@ == split_dots(name@)[k],
{
    let mut v: Vec<&'a [u8]> = Vec::new();
    let mut start: usize = 0;
    let ghost whole = split_dots(name@);
    proof {
        assert(name@.subrange(0, name@.len() as int) =~= name@);
    }
    loop
        invariant
            start <= name@.len(),
            whole == split_dots(name@),
            whole.len() >= v@.len(),
            whole.subrange(v@.len() as int, whole.len() as int) == split_dots(
                name@.subrange(start as int, name@.len() as int),
            ),
            forall|k: int| 0 <= k < v@.len() ==> (#[trigger] v@[k])@ == whole[k],
        decreases name@.len() - start,
    {
        let ghost rest = name@.subrange(start as int, name@.len() as int);
        let ghost c = v@.len() as int;
        let dot = find_byte(name, 46, start);
        proof {
            lemma_first_pos_range(name@, 46u8, start as int);
            lemma_first_pos_range(rest, 46u8, 0);
        }
        match dot {
            None => {
                proof {
                    assert forall|j: int| 0 <= j < rest.len() implies rest[j] != 46u8 by {
                        assert(rest[j] == name@[start + j]);
                    }
                    assert(first_pos(rest, 46u8, 0) is None);
                    assert(split_dots(rest) == seq![rest]);
                    assert(whole.subrange(c, whole.len() as int) == seq![rest]);
                    assert(whole[c] == whole.subrange(c, whole.len() as int)[0]);
                }
                let seg = &name[start..name.len()];
                v.push(seg);
                proof {
                    assert(seg@ =~= rest);
                }
                return v;
            },
            Some(i) => {
                let ghost rel = i - start;
                proof {
                    assert forall|j: int| 0 <= j < rel implies rest[j] != 46u8 by {
                        assert(rest[j] == name@[start + j]);
                    }
                    assert(rest[rel] == 46u8);
                    lemma_first_pos_unique(rest, 46u8, rel);
                    assert(rest.subrange(0, rel) =~= name@.subrange(start as int, i as int));
                    assert(rest.subrange(rel + 1, rest.len() as int) =~= name@.subrange(i + 1, name@.len() as int));
                    assert(split_dots(rest) == seq![rest.subrange(0, rel)] + split_dots(
                        rest.subrange(rel + 1, rest.len() as int),
                    ));
                    let tail = whole.subrange(c, whole.len() as int);
                    assert(tail[0] == rest.subrange(0, rel));
                    assert(whole[c] == tail[0]);
                    assert(whole.subrange(c + 1, whole.len() as int) =~= tail.subrange(1, tail.len() as int));
                    assert(tail.subrange(1, tail.len() as int) =~= split_dots(rest.subrange(rel + 1, rest.len() as int)));
                }
                let seg = &name[start..i];
                v.push(seg);
                start = i + 1;
            },
        }
    }
}

/// A segment's name and whether it is indexed.
fn split_segment(seg: &[u8]) -> (r: (&[u8], bool))
    ensures
        r.0@ == seg_name(seg@),
        r.1 == seg_indexed(seg@),
{
    proof {
        lemma_first_pos_range(seg@, 39u8, 0);
    }
    match find_byte(seg, 39, 0) {
        Some(p) => (&seg[0..p], true),
        None => (seg, false),
    }
}

/// The names and index marks of the segments of `place`, or
/// `PlaceSegmentEmpty` at `span` when they are not well formed (see
/// `segments_ok`).
fn place_segments(place: &[u8], span: Span) -> (r: Result<(Vec<TypeAtom>, Vec<bool>), TcError>)
    ensures
        ({
            let segs = split_dots(place@);
            match r {
                Ok((names, indexed)) => {
                    &&& segments_ok(segs)
                    &&& names@.len() == segs.len()
                    &&& indexed@.len() == segs.len()
                    &&& forall|j: int| 0 <= j < segs.len() ==> (#[trigger] names@[j])@ == seg_name(segs[j])
                    &&& forall|j: int| 0 <= j < segs.len() ==> (#[trigger] indexed@[j]) == seg_indexed(segs[j])
                },
                Err(e) => !segments_ok(segs) && e == TcError::PlaceSegmentEmpty { span },
            }
        }),
{
    let ghost segs = split_dots(place@);
    let parts = dotted_segments(place);
    let mut names: Vec<TypeAtom> = Vec::new();
    let mut indexed: Vec<bool> = Vec::new();
    let mut k: usize = 0;
    while k < parts.len()
        invariant
            segs == split_dots(place@),
            parts@.len() == segs.len(),
            forall|j: int| 0 <= j < parts@.len() ==> (#[trigger] parts@[j])@ == segs[j],
            k <= parts@.len(),
            names@.len() == k,
            indexed@.len() == k,
            k <= PLACE_SEGMENTS,
            forall|j: int| 0 <= j < k ==> (#[trigger] segs[j]).len() > 0 && seg_name(segs[j]).len() <= ATOM_CAP,
            forall|j: int| 0 <= j < k ==> (#[trigger] names@[j])@ == seg_name(segs[j]),
            forall|j: int| 0 <= j < k ==> (#[trigger] indexed@[j]) == seg_indexed(segs[j]),
        decreases parts@.len() - k,
    {
        let seg = parts[k];
        assert(seg@ == segs[k as int]);
        if seg.len() == 0 {
            assert(!((segs[k as int]).len() > 0));
            assert(!segments_ok(segs));
            return Err(TcError::PlaceSegmentEmpty { span });
        }
        let (nb, ix) = split_segment(seg);
        let atom = match TypeAtom::new(nb) {
            Some(a) => a,
            None => {
                assert(!(seg_name(segs[k as int]).len() <= ATOM_CAP));
                assert((segs[k as int]).len() > 0);
                assert(!segments_ok(segs));
                return Err(TcError::PlaceSegmentEmpty { span });
            },
        };
        if k >= PLACE_SEGMENTS {
            return Err(TcError::PlaceSegmentEmpty { span });
        }
        names.push(atom);
        indexed.push(ix);
        k += 1;
    }
    Ok((names, indexed))
}

/// Follows the fields `names[i..]` from `ty` (see `spec_walk`).
fn walk_fields(
    nominals: &NominalDb,
    ty0: TypeAtom,
    names: &Vec<TypeAtom>,
    indexed: &Vec<bool>,
    segs: Ghost<Seq<Seq<u8>>>,
) -> (r: Option<TypeAtom>)
    requires
        names@.len() == segs@.len(),
        indexed@.len() == segs@.len(),
        forall|j: int| 0 <= j < segs@.len() ==> (#[trigger] names@[j])@ == seg_name(segs@[j]),
        forall|j: int| 0 <= j < segs@.len() ==> (#[trigger] indexed@[j]) == seg_indexed(segs@[j]),
    ensures
        r matches Some(t) ==> spec_walk(nominals.structs_view(), ty0@, segs@, 1) == Some(t@),
        r is None ==> spec_walk(nominals.structs_view(), ty0@, segs@, 1) is None,
{
    let ghost sv = nominals.structs_view();
    let ghost start = ty0@;
    let mut ty = ty0;
    let mut i: usize = 1;
    if names.len() == 0 {
        proof {
            lemma_walk_step(sv, ty@, segs@, 1);
        }
        return Some(ty);
    }
    while i < names.len()
        invariant
            1 <= i <= names@.len(),
            names@.len() == segs@.len(),
            indexed@.len() == segs@.len(),
            sv == nominals.structs_view(),
            forall|j: int| 0 <= j < segs@.len() ==> (#[trigger] names@[j])@ == seg_name(segs@[j]),
            forall|j: int| 0 <= j < segs@.len() ==> (#[trigger] indexed@[j]) == seg_indexed(segs@[j]),
            start == ty0@,
            spec_walk(sv, ty@, segs@, i as int) == spec_walk(sv, start, segs@, 1),
        decreases names@.len() - i,
    {
        assert(names@[i as int]@ == seg_name(segs@[i as int]));
        let ghost here = spec_walk(sv, ty@, segs@, i as int);
        proof {
            lemma_walk_step(sv, ty@, segs@, i as int);
        }
        let f = match struct_field_ty(nominals, ty, names[i]) {
            Some(f) => f,
            None => {
                assert(here is None);
                return None;
            },
        };
        let next = if indexed[i] {
            match array_elem_type(f) {
                Some(e) => e,
                None => {
                    assert(here is None);
                    return None;
                },
            }
        } else {
            f
        };
        assert(here == spec_walk(sv, next@, segs@, i + 1));
        ty = next;
        i += 1;
    }
    proof {
        lemma_walk_step(sv, ty@, segs@, i as int);
    }
    Some(ty)
}

/// The type the place `place` (written at `span`) points at, given the
/// resources, the first `local_len` locals with their types, and the
/// structs (see `spec_place_pointee`).
#[verifier::rlimit(40)]
pub fn resolve_place_pointee_ty(
    place: &[u8],
    span: Span,
    resources: &ResourceDb,
    locals: &[TypeAtom; 64],
    local_tys: &[TypeAtom; 64],
    local_len: usize,
    nominals: &NominalDb,
) -> (r: Result<Option<TypeAtom>, TcError>)
    requires
        local_len <= 64,
    ensures
        ({
            let want = spec_place_pointee(
                place@,
                span,
                resources@,
                locals@.subrange(0, local_len as int),
                local_tys@.subrange(0, local_len as int),
                nominals.structs_view(),
            );
            match r {
                Ok(Some(t)) => want == Ok::<Option<Seq<u8>>, TcError>(Some(t@)),
                Ok(None) => want == Ok::<Option<Seq<u8>>, TcError>(None),
                Err(e) => want == Err::<Option<Seq<u8>>, TcError>(e),
            }
        }),
{
    let ghost segs = split_dots(place@);
    let (names, indexed) = match place_segments(place, span) {
        Ok(p) => p,
        Err(e) => return Err(e),
    };
    assert(segs.len() >= 1);
    assert(names@[0]@ == seg_name(segs[0]));
    assert(indexed@[0] == seg_indexed(segs[0]));
    let root = names[0];
    let ghost rt = spec_root_ty(
        resources@,
        locals@.subrange(0, local_len as int),
        local_tys@.subrange(0, local_len as int),
        seg_name(segs[0]),
    );
    let rty = match resource_ty(resources, root) {
        Some(t) => t,
        None => match find_local(locals, local_len, root) {
            Some(i) => {
                assert(local_tys@.subrange(0, local_len as int)[i as int] == local_tys@[i as int]);
                local_tys[i]
            },
            None => {
                return Ok(None);
            },
        },
    };
    assert(rt == Some(rty@));
    let ty = if indexed[0] {
        match array_elem_type(rty) {
            Some(e) => e,
            None => return Err(TcError::FieldNotFound { span }),
        }
    } else {
        rty
    };
    match walk_fields(nominals, ty, &names, &indexed, Ghost(segs)) {
        Some(t) => Ok(Some(t)),
        None => Err(TcError::FieldNotFound { span }),
    }
}

// ---------------------------------------------------------------------------
// Quotation signatures
// ---------------------------------------------------------------------------

/// A quotation's declared signature, whether its effect annotation names
/// suspension, and the span of the code after them.
#[derive(Debug)]
pub struct QuoteSig {
    pub sig: WordSig,
    pub may_suspend: bool,
    pub body: Span,
}

/// The signature of the quotation written at `q`, whose inside is tokens
/// `lo..hi` of a body starting at `base`: a `( ... -- ... )` first, then an
/// optional effect annotation, then the code, which runs to just before
/// the closing `]`.  A quotation too short to hold anything, or not
/// starting with `(`, is malformed (`QuoteSyntax`); an unclosed `(` is
/// unterminated.  The result is the inputs, outputs, suspension and body.
pub open spec fn spec_quote_sig(
    src: Seq<u8>,
    base: int,
    toks: Seq<Token>,
    q: Span,
    lo: int,
    hi: int,
) -> Result<(Seq<Seq<u8>>, Seq<Seq<u8>>, bool, Span), TcError> {
    if q.end <= q.start + 2 {
        Err(TcError::QuoteSyntax { span: q })
    } else if tk(toks, lo, hi).kind != TokenKind::PunctLParen {
        Err(TcError::QuoteSyntax { span: q })
    } else {
        match close_of(toks, hi, lo + 1, 1, TokenKind::PunctLParen, TokenKind::PunctRParen, false) {
            None => Err(TcError::QuoteUnterminated { span: q }),
            Some(c) => {
                let sig_span = Span {
                    start: (base + tk(toks, lo, hi).span.start) as usize,
                    end: (base + tk(toks, c, hi).span.end) as usize,
                };
                match spec_word_sig(src, sig_span) {
                    Err(e) => Err(sig_error(e)),
                    Ok((ins, outs)) => {
                        let n = tk(toks, c + 1, hi);
                        let eff = n.kind == TokenKind::EffectSet;
                        let ms = eff && names_suspend(
                            src.subrange(base + n.span.start, base + n.span.end),
                        );
                        let nx = if eff { c + 2 } else { c + 1 };
                        let t = tk(toks, nx, hi);
                        let inner_end = (q.end - 1) as usize;
                        let start = if t.kind == TokenKind::Eof { inner_end } else { (base + t.span.start) as usize };
                        Ok((ins, outs, ms, Span { start, end: inner_end }))
                    },
                }
            },
        }
    }
}

/// Reads the signature of the quotation at `quot_span` whose inside is
/// tokens `lo..hi` of the body at `body` (see `spec_quote_sig`).
pub fn parse_quote_sig(src: &[u8], body: Span, toks: &[Token], quot_span: Span, lo: usize, hi: usize) -> (r: Result<
    QuoteSig,
    TcError,
>)
    requires
        body.within(src@.len()),
        spans_within(toks@, (body.end - body.start) as nat),
        tokens_ordered(toks@),
        lo < hi,
        hi + 2 < usize::MAX,
    ensures
        ({
            let want = spec_quote_sig(src@, body.start as int, toks@, quot_span, lo as int, hi as int);
            match r {
                Ok(q) => want == Ok::<_, TcError>((q.sig.ins(), q.sig.outs(), q.may_suspend, q.body)),
                Err(e) => want == Err::<(Seq<Seq<u8>>, Seq<Seq<u8>>, bool, Span), TcError>(e),
            }
        }),
{
    let len: usize = body.end - body.start;
    if quot_span.end <= quot_span.start || quot_span.end - quot_span.start <= 2 {
        return Err(TcError::QuoteSyntax { span: quot_span });
    }
    let first = token_in(toks, lo, hi);
    if first.kind != TokenKind::PunctLParen {
        return Err(TcError::QuoteSyntax { span: quot_span });
    }
    let c = match capture_balanced(toks, hi, lo, TokenKind::PunctLParen, TokenKind::PunctRParen) {
        Some(c) => c,
        None => return Err(TcError::QuoteUnterminated { span: quot_span }),
    };
    proof {
        crate::names::lemma_close_of_bounds(
            toks@,
            hi as int,
            lo + 1,
            1,
            TokenKind::PunctLParen,
            TokenKind::PunctRParen,
            false,
        );
        lemma_tk_within(toks@, len as nat, lo as int, hi as int);
        lemma_tk_within(toks@, len as nat, c as int, hi as int);
        reveal(tokens_ordered);
    }
    let close = token_in(toks, c, hi);
    assert(lo < c < hi);
    assert(first.span.end <= close.span.start);
    let sig_span = Span::new(body.start + first.span.start, body.start + close.span.end);
    let sig = match parse_word_sig(src, sig_span) {
        Ok(s) => s,
        Err(e) => return Err(sig_error_of(e)),
    };
    let n = token_in(toks, c + 1, hi);
    proof {
        lemma_tk_within(toks@, len as nat, c + 1, hi as int);
    }
    let mut may_suspend = false;
    let mut nx = c + 1;
    if n.kind == TokenKind::EffectSet {
        let b = slice_subrange(src, body.start + n.span.start, body.start + n.span.end);
        may_suspend = effect_has_suspend(b);
        nx = c + 2;
    }
    let t = token_in(toks, nx, hi);
    proof {
        lemma_tk_within(toks@, len as nat, nx as int, hi as int);
    }
    let inner_end = quot_span.end - 1;
    let start = if t.kind == TokenKind::Eof { inner_end } else { body.start + t.span.start };
    Ok(QuoteSig { sig, may_suspend, body: Span::new(start, inner_end) })
}

} // verus!
