//! Memory-mapped I/O: register-map declarations, their validation, and
//! resolution of places such as `gpio.OUT[2].EN` to registers and fields.
use vstd::prelude::*;

use crate::error::TcError;
use crate::lit::{
    bytes_eq, lit_bool, lit_i16, lit_i32, lit_i64, lit_i8, lit_rc, lit_ro, lit_rw, lit_u16, lit_u32,
    lit_u64, lit_u8, lit_volatile, lit_w1c, lit_w1s, lit_wo, sp_bool, sp_i16, sp_i32, sp_i64, sp_i8,
    sp_rc, sp_ro, sp_rw, sp_u16, sp_u32, sp_u64, sp_u8, sp_volatile, sp_w1c, sp_w1s, sp_wo,
};
use crate::numbers::{parse_u32_any, spec_parse_u32_any};
use crate::tokens::{lemma_tok_at_within, stream_ok, tok_at, token_at, Token, TokenKind};
use crate::types::{Span, TypeAtom};

verus! {

/// How software may access a register or field.
#[derive(Clone, Copy, Debug, PartialEq, Eq, Structural)]
pub enum AccessMode {
    /// read-only
    Ro,
    /// write-only
    Wo,
    /// read-write
    Rw,
    /// write 1 to clear
    W1c,
    /// write 1 to set
    W1s,
    /// clear on read
    Rc,
}

/// The access mode a keyword names.
pub open spec fn spec_access_mode(b: Seq<u8>) -> Option<AccessMode> {
    if b == sp_ro() {
        Some(AccessMode::Ro)
    } else if b == sp_wo() {
        Some(AccessMode::Wo)
    } else if b == sp_rw() {
        Some(AccessMode::Rw)
    } else if b == sp_w1c() {
        Some(AccessMode::W1c)
    } else if b == sp_w1s() {
        Some(AccessMode::W1s)
    } else if b == sp_rc() {
        Some(AccessMode::Rc)
    } else {
        None
    }
}

/// Reads an access-mode keyword: `ro`, `wo`, `rw`, `w1c`, `w1s` or `rc`.
pub fn parse_access_mode(bytes: &[u8]) -> (r: Option<AccessMode>)
    ensures
        r == spec_access_mode(bytes@),
{
    if bytes_eq(bytes, &lit_ro()) {
        Some(AccessMode::Ro)
    } else if bytes_eq(bytes, &lit_wo()) {
        Some(AccessMode::Wo)
    } else if bytes_eq(bytes, &lit_rw()) {
        Some(AccessMode::Rw)
    } else if bytes_eq(bytes, &lit_w1c()) {
        Some(AccessMode::W1c)
    } else if bytes_eq(bytes, &lit_w1s()) {
        Some(AccessMode::W1s)
    } else if bytes_eq(bytes, &lit_rc()) {
        Some(AccessMode::Rc)
    } else {
        None
    }
}

/// Width in bytes of a register type: 1 for `bool`, `u8`, `i8`; 2, 4, 8
/// for the 16-, 32- and 64-bit integers; none for anything else.
pub open spec fn spec_width(ty: Seq<u8>) -> Option<u32> {
    if ty == sp_bool() || ty == sp_u8() || ty == sp_i8() {
        Some(1)
    } else if ty == sp_u16() || ty == sp_i16() {
        Some(2)
    } else if ty == sp_u32() || ty == sp_i32() {
        Some(4)
    } else if ty == sp_u64() || ty == sp_i64() {
        Some(8)
    } else {
        None
    }
}

/// Width in bytes of a register type (see `spec_width`).
pub fn mmio_type_width_bytes(ty: &[u8]) -> (r: Option<u32>)
    ensures
        r == spec_width(ty@),
{
    if bytes_eq(ty, &lit_bool()) || bytes_eq(ty, &lit_u8()) || bytes_eq(ty, &lit_i8()) {
        Some(1)
    } else if bytes_eq(ty, &lit_u16()) || bytes_eq(ty, &lit_i16()) {
        Some(2)
    } else if bytes_eq(ty, &lit_u32()) || bytes_eq(ty, &lit_i32()) {
        Some(4)
    } else if bytes_eq(ty, &lit_u64()) || bytes_eq(ty, &lit_i64()) {
        Some(8)
    } else {
        None
    }
}

/// Any access mode but write-only allows reads.
pub fn access_can_read(access: AccessMode) -> (r: bool)
    ensures
        r == (access != AccessMode::Wo),
{
    !matches!(access, AccessMode::Wo)
}

/// Any access mode but read-only allows writes.
pub fn access_can_write(access: AccessMode) -> (r: bool)
    ensures
        r == (access != AccessMode::Ro),
{
    !matches!(access, AccessMode::Ro)
}

/// A bit field of a register: bits `lo..=hi`.
#[derive(Clone, Copy, Debug, PartialEq, Eq)]
pub struct MmioFieldInfo {
    pub name: TypeAtom,
    pub lo: u8,
    pub hi: u8,
    pub ty: TypeAtom,
    pub access: AccessMode,
}

impl View for MmioFieldInfo {
    type V = (Seq<u8>, u8, u8, Seq<u8>, AccessMode);

    open spec fn view(&self) -> (Seq<u8>, u8, u8, Seq<u8>, AccessMode) {
        (self.name@, self.lo, self.hi, self.ty@, self.access)
    }
}

/// A register of a register map.
#[derive(Clone, Copy, Debug, PartialEq, Eq)]
pub struct MmioRegInfo {
    pub offset: u32,
    pub reg: TypeAtom,
    pub reg_ty: TypeAtom,
    pub access: AccessMode,
    pub volatile: bool,
    /// `Some(n)` for an array of `n` registers.
    pub array_len: Option<u32>,
}

impl View for MmioRegInfo {
    type V = (u32, Seq<u8>, Seq<u8>, AccessMode, bool, Option<u32>);

    open spec fn view(&self) -> (u32, Seq<u8>, Seq<u8>, AccessMode, bool, Option<u32>) {
        (self.offset, self.reg@, self.reg_ty@, self.access, self.volatile, self.array_len)
    }
}

/// Number of bits a field spans, capped at 64.
pub open spec fn field_width(lo: u8, hi: u8) -> u32 {
    let w: int = if hi >= lo { hi - lo + 1 } else { 1 };
    if w > 64 { 64 } else { w as u32 }
}

/// The in-place mask of a field (bits `lo..lo+width` set) and its shift.
pub open spec fn spec_mask_shift(lo: u8, hi: u8) -> (u64, u8) {
    let w = field_width(lo, hi);
    let m: u64 = if w >= 64 { 0xffff_ffff_ffff_ffffu64 } else { ((1u64 << w) - 1) as u64 };
    ((m << (lo as u64)) as u64, lo)
}

/// Mask and shift that isolate a field within its register.
pub fn field_mask_shift(field: &MmioFieldInfo) -> (r: (u64, u8))
    requires
        field.lo < 64,
    ensures
        r == spec_mask_shift(field.lo, field.hi),
{
    let lo = field.lo as u32;
    let hi = field.hi as u32;
    let d = hi.saturating_sub(lo).saturating_add(1);
    let width = if d < 64 { d } else { 64 };
    let mask = if width >= 64 {
        0xffff_ffff_ffff_ffffu64
    } else {
        assert(1u64 << width >= 1) by (bit_vector)
            requires
                width < 64,
        ;
        (1u64 << width) - 1
    };
    (mask << lo, field.lo)
}

/// The mask of a field within its register has exactly the field's bits
/// set: bit `k` is set iff `lo <= k <= hi`.
pub proof fn lemma_mask_covers_field(lo: u8, hi: u8, k: u64)
    requires
        lo <= hi < 64,
        k < 64,
    ensures
        (spec_mask_shift(lo, hi).0 >> k) & 1 == 1 <==> (lo <= k && k <= hi),
{
    let w = field_width(lo, hi);
    assert(w == hi - lo + 1);
    let l = lo as u64;
    let h = hi as u64;
    let w64 = w as u64;
    if w >= 64 {
        assert(l == 0 && h == 63);
        assert(((0xffff_ffff_ffff_ffffu64 << l) >> k) & 1 == 1) by (bit_vector)
            requires
                l == 0,
                k < 64,
        ;
    } else {
        assert(((((1u64 << w64) - 1) as u64) << l >> k) & 1 == 1 <==> (l <= k && k <= h)) by (bit_vector)
            requires
                w64 == h - l + 1,
                w64 < 64,
                l <= h,
                h < 64,
                k < 64,
        ;
    }
}

/// Position of the first byte `b` in `s` at or after `from`.
pub open spec fn first_pos(s: Seq<u8>, b: u8, from: int) -> Option<int>
    decreases s.len() - from,
{
    if from < 0 || from >= s.len() {
        None
    } else if s[from] == b {
        Some(from)
    } else {
        first_pos(s, b, from + 1)
    }
}

pub(crate) proof fn lemma_first_pos_range(s: Seq<u8>, b: u8, from: int)
    requires
        0 <= from,
    ensures
        first_pos(s, b, from) matches Some(i) ==> from <= i < s.len() && s[i] == b
            && forall|j: int| from <= j < i ==> s[j] != b,
        first_pos(s, b, from) is None ==> forall|j: int| from <= j < s.len() ==> s[j] != b,
    decreases s.len() - from,
{
    if from < s.len() && s[from] != b {
        lemma_first_pos_range(s, b, from + 1);
    }
}

pub(crate) fn find_byte(s: &[u8], b: u8, from: usize) -> (r: Option<usize>)
    ensures
        r matches Some(i) ==> from <= i < s@.len() && i < usize::MAX,
        r matches Some(i) ==> first_pos(s@, b, from as int) == Some(i as int),
        r is None ==> first_pos(s@, b, from as int) is None,
{
    let mut i = from;
    while i < s.len()
        invariant
            from <= i,
            first_pos(s@, b, from as int) == first_pos(s@, b, i as int),
        decreases s@.len() - i,
    {
        if s[i] == b {
            return Some(i);
        }
        i += 1;
    }
    None
}

/// A register name with an optional index, `NAME[N]`: the name before
/// the first `[` and the number up to the next `]`.  Without a `[`, or
/// without a closing `]`, the whole token is the name and there is no
/// index; an index that is not a number reads as none.
pub open spec fn spec_name_array(t: Seq<u8>) -> (Seq<u8>, Option<u32>) {
    match first_pos(t, 91u8, 0) {
        None => (t, None),
        Some(i) => match first_pos(t, 93u8, i + 1) {
            None => (t, None),
            Some(j) => (t.subrange(0, i), spec_parse_u32_any(t.subrange(i + 1, j))),
        },
    }
}

/// Splits `NAME[N]` into the name and the index (see `spec_name_array`).
pub fn parse_name_array(token: &[u8]) -> (r: (&[u8], Option<u32>))
    ensures
        (r.0@, r.1) == spec_name_array(token@),
{
    match find_byte(token, 91, 0) {
        None => (token, None),
        Some(i) => {
            proof {
                lemma_first_pos_range(token@, 91u8, 0);
            }
            match find_byte(token, 93, i + 1) {
                None => (token, None),
                Some(j) => {
                    proof {
                        lemma_first_pos_range(token@, 93u8, i + 1);
                    }
                    (&token[0..i], parse_u32_any(&token[i + 1..j]))
                },
            }
        },
    }
}

/// The `.`-separated segments of `s`, empty ones included.
pub open spec fn split_dots(s: Seq<u8>) -> Seq<Seq<u8>>
    decreases s.len(),
{
    match first_pos(s, 46u8, 0) {
        None => seq![s],
        Some(i) => if 0 <= i < s.len() {
            seq![s.subrange(0, i)] + split_dots(s.subrange(i + 1, s.len() as int))
        } else {
            seq![s]
        },
    }
}

/// Most segments a dotted name is split into.
pub const MAX_SEGMENTS: usize = 8;

/// Splits a dotted name at each `.`, keeping at most `MAX_SEGMENTS`
/// segments; returns how many were kept.
pub fn split_segments<'a>(name: &'a [u8], out: &mut [&'a [u8]; 8]) -> (n: usize)
    ensures
        n == if split_dots(name@).len() < MAX_SEGMENTS { split_dots(name@).len() } else { MAX_SEGMENTS as nat },
        forall|k: int| 0 <= k < n ==> final(out)@[k]@ == split_dots(name@)[k],
{
    let mut count: usize = 0;
    let mut start: usize = 0;
    let ghost whole = split_dots(name@);
    proof {
        assert(name@.subrange(0, name@.len() as int) =~= name@);
    }
    loop
        invariant
            start <= name@.len(),
            count <= MAX_SEGMENTS,
            whole == split_dots(name@),
            whole.len() >= count,
            count < MAX_SEGMENTS ==> whole.subrange(count as int, whole.len() as int) == split_dots(
                name@.subrange(start as int, name@.len() as int),
            ),
            forall|k: int| 0 <= k < count ==> out@[k]@ == whole[k],
        decreases name@.len() - start, (if count < MAX_SEGMENTS { 1int } else { 0int }),
    {
        let ghost rest = name@.subrange(start as int, name@.len() as int);
        let dot = find_byte(name, 46, start);
        proof {
            lemma_first_pos_range(name@, 46u8, start as int);
            lemma_first_pos_range(rest, 46u8, 0);
        }
        match dot {
            None => {
                proof {
                    assert forall|j: int| 0 <= j < rest.len() implies rest[j] != 46u8 by {
                        assert(rest[j] == name@[start + j]);
                    }
                    assert(first_pos(rest, 46u8, 0) is None);
                    assert(split_dots(rest) == seq![rest]);
                    if count < MAX_SEGMENTS {
                        assert(whole.subrange(count as int, whole.len() as int) == seq![rest]);
                        assert(whole.len() == count + 1);
                        assert(whole[count as int] == whole.subrange(count as int, whole.len() as int)[0]);
                    }
                }
                if count < MAX_SEGMENTS {
                    out[count] = &name[start..name.len()];
                    count += 1;
                }
                return count;
            },
            Some(i) => {
                let ghost rel = i - start;
                proof {
                    assert forall|j: int| 0 <= j < rel implies rest[j] != 46u8 by {
                        assert(rest[j] == name@[start + j]);
                    }
                    assert(rest[rel] == 46u8);
                    lemma_first_pos_unique(rest, 46u8, rel);
                    assert(rest.subrange(0, rel) =~= name@.subrange(start as int, i as int));
                    assert(rest.subrange(rel + 1, rest.len() as int) =~= name@.subrange(i + 1, name@.len() as int));
                    assert(split_dots(rest) == seq![rest.subrange(0, rel)] + split_dots(
                        rest.subrange(rel + 1, rest.len() as int),
                    ));
                    if count < MAX_SEGMENTS {
                        let tail = whole.subrange(count as int, whole.len() as int);
                        assert(tail[0] == rest.subrange(0, rel));
                        assert(whole[count as int] == tail[0]);
                        assert(whole.subrange(count + 1, whole.len() as int) =~= tail.subrange(1, tail.len() as int));
                        assert(tail.subrange(1, tail.len() as int) =~= split_dots(rest.subrange(rel + 1, rest.len() as int)));
                    }
                }
                if count < MAX_SEGMENTS {
                    out[count] = &name[start..i];
                    count += 1;
                }
                start = i + 1;
            },
        }
    }
}

pub(crate) proof fn lemma_first_pos_unique(s: Seq<u8>, b: u8, k: int)
    requires
        0 <= k < s.len(),
        s[k] == b,
        forall|j: int| 0 <= j < k ==> s[j] != b,
    ensures
        first_pos(s, b, 0) == Some(k),
{
    lemma_first_pos_from(s, b, 0, k);
}

proof fn lemma_first_pos_from(s: Seq<u8>, b: u8, from: int, k: int)
    requires
        0 <= from <= k < s.len(),
        s[k] == b,
        forall|j: int| from <= j < k ==> s[j] != b,
    ensures
        first_pos(s, b, from) == Some(k),
    decreases k - from,
{
    if from < k {
        lemma_first_pos_from(s, b, from + 1, k);
    }
}

} // verus!
