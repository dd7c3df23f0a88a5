//! The module's register maps and their instances, and the resolution of
//! a dotted MMIO place (`inst.REG`, `inst.REG[i]`, `inst.REG.FIELD`) to a
//! register or field and its address.
use vstd::prelude::*;

use crate::ast::{DeclAst, DeclKind, InstanceAst, ModuleAst};
use crate::db::{first_of, lemma_first_of, slice_span, text};
use crate::error::TcError;
use crate::mmio::{
    mmio_type_width_bytes, parse_name_array, spec_name_array, spec_width, split_dots, split_segments,
    AccessMode, MmioFieldInfo, MAX_SEGMENTS,
};
use crate::numbers::{parse_u32_any, spec_parse_u32_any};
use crate::regmap::{
    opt_field_view, scan_regmap_for_reg, spec_scan_regmap, spec_validate_regmap, validate_regmap_body,
    FieldView, RegView,
};
use crate::tokens::{stream_ok, Token};
use crate::types::{Span, TypeAtom, ATOM_CAP};

verus! {

/// Most register maps the database keeps.
pub const MAP_CAP: usize = 16;

/// Most instances the database keeps.
pub const INSTANCE_CAP: usize = 64;

/// A register map declaration: its name, body and the body's tokens.
#[derive(Debug)]
pub struct MmioMapDecl {
    pub name: TypeAtom,
    pub body: Span,
    pub tokens: Vec<Token>,
}

/// A map as the database records it: name, body span, body tokens.
pub type MapView = (Seq<u8>, Span, Seq<Token>);

impl View for MmioMapDecl {
    type V = MapView;

    open spec fn view(&self) -> MapView {
        (self.name@, self.body, self.tokens@)
    }
}

/// An instance of a register map at a base address.
#[derive(Clone, Copy, Debug)]
pub struct MmioInstance {
    pub name: TypeAtom,
    pub map: TypeAtom,
    pub base_addr: u64,
}

/// An instance as the database records it: name, map name, base address.
pub type InstanceView = (Seq<u8>, Seq<u8>, u64);

impl View for MmioInstance {
    type V = InstanceView;

    open spec fn view(&self) -> InstanceView {
        (self.name@, self.map@, self.base_addr)
    }
}

/// The register maps and instances of a module.
#[derive(Debug)]
pub struct MmioDb {
    pub maps: Vec<MmioMapDecl>,
    pub instances: Vec<MmioInstance>,
}

impl View for MmioDb {
    type V = (Seq<MapView>, Seq<InstanceView>);

    open spec fn view(&self) -> (Seq<MapView>, Seq<InstanceView>) {
        (self.maps@.map_values(|m: MmioMapDecl| m@), self.instances@.map_values(|i: MmioInstance| i@))
    }
}

/// A map's body lies in a source of `len` bytes and its tokens form a
/// stream over it.
pub open spec fn map_ok(m: MapView, len: nat) -> bool {
    &&& m.1.within(len)
    &&& stream_ok(m.2, (m.1.end - m.1.start) as nat)
    &&& m.2.len() + 8 <= usize::MAX
}

impl MmioDb {
    /// Every map of the database is well formed for a source of `len` bytes.
    pub open spec fn wf(&self, len: nat) -> bool {
        forall|i: int| 0 <= i < self.maps@.len() ==> map_ok(#[trigger] self.maps@[i]@, len)
    }
}

/// The names of the maps, in order.
pub open spec fn map_names(maps: Seq<MapView>) -> Seq<Seq<u8>> {
    Seq::new(maps.len(), |i: int| maps[i].0)
}

/// The names of the instances, in order.
pub open spec fn instance_names(insts: Seq<InstanceView>) -> Seq<Seq<u8>> {
    Seq::new(insts.len(), |i: int| insts[i].0)
}

// ---------------------------------------------------------------------------
// Building the database
// ---------------------------------------------------------------------------

/// Base address written for an instance: the number it spells, or 0.
pub open spec fn spec_base_addr(src: Seq<u8>, inst: InstanceAst) -> u64 {
    match spec_parse_u32_any(text(src, inst.base_addr)) {
        Some(v) => v as u64,
        None => 0,
    }
}

/// The instances recorded from `insts`: those whose name and map name fit
/// in an atom, the first `INSTANCE_CAP` of them.
pub open spec fn spec_instances(src: Seq<u8>, insts: Seq<InstanceAst>) -> Seq<InstanceView>
    decreases insts.len(),
{
    if insts.len() == 0 {
        Seq::empty()
    } else {
        let prev = spec_instances(src, insts.drop_last());
        let inst = insts.last();
        if text(src, inst.name).len() <= ATOM_CAP && text(src, inst.map).len() <= ATOM_CAP
            && prev.len() < INSTANCE_CAP {
            prev.push((text(src, inst.name), text(src, inst.map), spec_base_addr(src, inst)))
        } else {
            prev
        }
    }
}

/// The maps recorded from `decls`: each register-map declaration with a
/// body and a name that fits is checked (the first failure is the
/// result), and the first `MAP_CAP` of them are kept.
pub open spec fn spec_maps(src: Seq<u8>, decls: Seq<DeclAst>) -> Result<Seq<MapView>, TcError>
    decreases decls.len(),
{
    if decls.len() == 0 {
        Ok(Seq::empty())
    } else {
        match spec_maps(src, decls.drop_last()) {
            Err(e) => Err(e),
            Ok(prev) => {
                let d = decls.last();
                if d.kind != DeclKind::RegisterMap || d.body is None || text(src, d.name).len() > ATOM_CAP {
                    Ok(prev)
                } else {
                    let body = d.body.unwrap();
                    match spec_validate_regmap(src, body, d.body_tokens@) {
                        Err(e) => Err(e),
                        Ok(_) => if prev.len() < MAP_CAP {
                            Ok(prev.push((text(src, d.name), body, d.body_tokens@)))
                        } else {
                            Ok(prev)
                        },
                    }
                }
            },
        }
    }
}

/// The database of a module: its maps (or the first invalid map body)
/// and its instances.
pub open spec fn spec_mmio_db(src: Seq<u8>, module: ModuleAst) -> Result<
    (Seq<MapView>, Seq<InstanceView>),
    TcError,
> {
    match spec_maps(src, module.decls@) {
        Err(e) => Err(e),
        Ok(maps) => Ok((maps, spec_instances(src, module.instances@))),
    }
}

proof fn lemma_maps_err_prefix(src: Seq<u8>, decls: Seq<DeclAst>, k: int)
    requires
        0 <= k <= decls.len(),
        spec_maps(src, decls.subrange(0, k)) is Err,
    ensures
        spec_maps(src, decls) == spec_maps(src, decls.subrange(0, k)),
    decreases decls.len(),
{
    if k < decls.len() {
        assert(decls.drop_last().subrange(0, k) =~= decls.subrange(0, k));
        lemma_maps_err_prefix(src, decls.drop_last(), k);
    } else {
        assert(decls.subrange(0, k) =~= decls);
    }
}

fn collect_instances(module: &ModuleAst, src: &[u8]) -> (v: Vec<MmioInstance>)
    requires
        module.within(src@.len()),
    ensures
        v@.map_values(|i: MmioInstance| i@) == spec_instances(src@, module.instances@),
{
    let mut v: Vec<MmioInstance> = Vec::new();
    let mut i: usize = 0;
    assert(module.instances@.subrange(0, 0) =~= Seq::<InstanceAst>::empty());
    assert(v@.map_values(|i: MmioInstance| i@) =~= Seq::<InstanceView>::empty());
    while i < module.instances.len()
        invariant
            module.within(src@.len()),
            i <= module.instances@.len(),
            v@.len() <= INSTANCE_CAP,
            v@.map_values(|i: MmioInstance| i@) == spec_instances(src@, module.instances@.subrange(0, i as int)),
        decreases module.instances@.len() - i,
    {
        let inst = module.instances[i];
        assert(module.instances@.subrange(0, i + 1).drop_last() =~= module.instances@.subrange(0, i as int));
        assert(module.instances@.subrange(0, i + 1).last() == inst);
        let ghost before = v@;
        let name = TypeAtom::new(slice_span(src, inst.name));
        let map = TypeAtom::new(slice_span(src, inst.map));
        if let (Some(name), Some(map)) = (name, map) {
            if v.len() < INSTANCE_CAP {
                let base_addr: u64 = match parse_u32_any(slice_span(src, inst.base_addr)) {
                    Some(b) => b as u64,
                    None => 0,
                };
                v.push(MmioInstance { name, map, base_addr });
                assert(v@.map_values(|i: MmioInstance| i@) =~= before.map_values(|i: MmioInstance| i@).push(
                    (name@, map@, base_addr),
                ));
            }
        }
        i += 1;
    }
    assert(module.instances@.subrange(0, i as int) =~= module.instances@);
    v
}

/// Collects the register maps and instances of `module`, checking each
/// register-map body.
pub fn build_mmio_db(module: &ModuleAst, src: &[u8]) -> (r: Result<MmioDb, TcError>)
    requires
        module.within(src@.len()),
    ensures
        r matches Ok(db) ==> spec_mmio_db(src@, *module) == Ok::<_, TcError>(db@) && db.wf(src@.len()),
        r matches Err(e) ==> spec_mmio_db(src@, *module) == Err::<(Seq<MapView>, Seq<InstanceView>), _>(e),
{
    let instances = collect_instances(module, src);
    let mut maps: Vec<MmioMapDecl> = Vec::new();
    let mut i: usize = 0;
    assert(module.decls@.subrange(0, 0) =~= Seq::<DeclAst>::empty());
    assert(maps@.map_values(|m: MmioMapDecl| m@) =~= Seq::<MapView>::empty());
    while i < module.decls.len()
        invariant
            module.within(src@.len()),
            i <= module.decls@.len(),
            maps@.len() <= MAP_CAP,
            spec_maps(src@, module.decls@.subrange(0, i as int)) == Ok::<_, TcError>(
                maps@.map_values(|m: MmioMapDecl| m@),
            ),
            forall|j: int| 0 <= j < maps@.len() ==> map_ok(#[trigger] maps@[j]@, src@.len()),
        decreases module.decls@.len() - i,
    {
        let d = &module.decls[i];
        assert(module.decls@.subrange(0, i + 1).drop_last() =~= module.decls@.subrange(0, i as int));
        assert(module.decls@.subrange(0, i + 1).last() == *d);
        assert(d.within(src@.len()));
        if d.kind != DeclKind::RegisterMap {
            i += 1;
            continue;
        }
        let body = match d.body {
            Some(b) => b,
            None => {
                i += 1;
                continue;
            },
        };
        let name = match TypeAtom::new(slice_span(src, d.name)) {
            Some(a) => a,
            None => {
                i += 1;
                continue;
            },
        };
        match validate_regmap_body(src, body, d.body_tokens.as_slice()) {
            Err(e) => {
                proof {
                    lemma_maps_err_prefix(src@, module.decls@, i + 1);
                }
                return Err(e);
            },
            Ok(()) => {},
        }
        if maps.len() < MAP_CAP {
            let ghost before = maps@;
            let tokens = d.body_tokens.clone();
            maps.push(MmioMapDecl { name, body, tokens });
            assert(maps@.map_values(|m: MmioMapDecl| m@) =~= before.map_values(|m: MmioMapDecl| m@).push(
                (name@, body, d.body_tokens@),
            ));
        }
        i += 1;
    }
    assert(module.decls@.subrange(0, i as int) =~= module.decls@);
    let db = MmioDb { maps, instances };
    Ok(db)
}

// ---------------------------------------------------------------------------
// Lookup
// ---------------------------------------------------------------------------

/// The first instance named `name`.
pub fn find_instance(db: &MmioDb, name: TypeAtom) -> (r: Option<MmioInstance>)
    ensures
        r matches Some(inst) ==> first_of(instance_names(db@.1), name@) matches Some(i) && inst@ == db@.1[i],
        r is None ==> first_of(instance_names(db@.1), name@) is None,
{
    let mut i: usize = 0;
    while i < db.instances.len()
        invariant
            i <= db.instances@.len(),
            forall|j: int| 0 <= j < i ==> instance_names(db@.1)[j] != name@,
        decreases db.instances@.len() - i,
    {
        let inst = db.instances[i];
        assert(instance_names(db@.1)[i as int] == inst.name@);
        if inst.name.same(&name) {
            proof {
                lemma_first_of(instance_names(db@.1), name@, i as int);
            }
            return Some(inst);
        }
        i += 1;
    }
    None
}

/// Position of the first map named `name`.
pub fn find_map_decl(db: &MmioDb, name: TypeAtom) -> (r: Option<usize>)
    ensures
        r matches Some(i) ==> i < db.maps@.len() && first_of(map_names(db@.0), name@) == Some(i as int),
        r is None ==> first_of(map_names(db@.0), name@) is None,
{
    let mut i: usize = 0;
    while i < db.maps.len()
        invariant
            i <= db.maps@.len(),
            forall|j: int| 0 <= j < i ==> map_names(db@.0)[j] != name@,
        decreases db.maps@.len() - i,
    {
        assert(map_names(db@.0)[i as int] == db.maps@[i as int].name@);
        if db.maps[i].name.same(&name) {
            proof {
                lemma_first_of(map_names(db@.0), name@, i as int);
            }
            return Some(i);
        }
        i += 1;
    }
    None
}

// ---------------------------------------------------------------------------
// Resolving a place
// ---------------------------------------------------------------------------

/// A place resolved to a whole register.
#[derive(Clone, Copy, Debug, PartialEq, Eq)]
pub struct MmioResolvedReg {
    pub map: TypeAtom,
    pub reg: TypeAtom,
    pub reg_ty: TypeAtom,
    pub access: AccessMode,
    pub volatile: bool,
    pub addr: u64,
    /// The source span of the whole place, such as `gpio.OUT_SET`.
    pub place_span: Span,
}

/// A place resolved to a bit field of a register.
#[derive(Clone, Copy, Debug, PartialEq, Eq)]
pub struct MmioResolvedField {
    pub map: TypeAtom,
    pub reg: TypeAtom,
    pub reg_ty: TypeAtom,
    pub reg_access: AccessMode,
    pub field: MmioFieldInfo,
    pub volatile: bool,
    pub addr: u64,
    pub place_span: Span,
}

/// A resolved MMIO place.
#[derive(Clone, Copy, Debug, PartialEq, Eq)]
pub enum MmioResolved {
    Reg(MmioResolvedReg),
    Field(MmioResolvedField),
}

/// A resolved place: map, register, register type, register access, the
/// field (none for a whole register), volatility, address and place span.
pub type ResolvedView = (Seq<u8>, Seq<u8>, Seq<u8>, AccessMode, Option<FieldView>, bool, u64, Span);

impl View for MmioResolved {
    type V = ResolvedView;

    open spec fn view(&self) -> ResolvedView {
        match self {
            MmioResolved::Reg(r) => (r.map@, r.reg@, r.reg_ty@, r.access, None, r.volatile, r.addr, r.place_span),
            MmioResolved::Field(f) => (
                f.map@,
                f.reg@,
                f.reg_ty@,
                f.reg_access,
                Some(f.field@),
                f.volatile,
                f.addr,
                f.place_span,
            ),
        }
    }
}

/// Address of element `idx` of a register at `offset` in an instance at
/// `base`, each element `width` bytes wide, in wrapping 64-bit arithmetic.
pub open spec fn reg_addr(base: u64, offset: u32, idx: u64, width: u64) -> u64 {
    base.wrapping_add(offset as u64).wrapping_add(idx.wrapping_mul(width))
}

/// Bytes per element of a register of type `ty`: its width, or 1 when
/// the type has no known width.
pub open spec fn elem_width(ty: Seq<u8>) -> u64 {
    match spec_width(ty) {
        Some(w) => w as u64,
        None => 1,
    }
}

/// Number of segments `split_segments` keeps of `name`.
pub open spec fn kept_segments(name: Seq<u8>) -> nat {
    let n = split_dots(name).len();
    if n < MAX_SEGMENTS { n } else { MAX_SEGMENTS as nat }
}

/// Resolution of the dotted place `name`, found at `place`, against the
/// database: `None` when it does not name an instance (fewer than two
/// segments, or an unknown first segment); otherwise the register (and
/// field) it names with its address, or the error that stops it.
#[verifier::opaque]
pub open spec fn spec_resolve_place(
    db: (Seq<MapView>, Seq<InstanceView>),
    src: Seq<u8>,
    name: Seq<u8>,
    place: Span,
) -> Result<Option<ResolvedView>, TcError> {
    let segs = split_dots(name);
    let n = kept_segments(name);
    if n < 2 || segs[0].len() > ATOM_CAP {
        Ok(None)
    } else {
        match first_of(instance_names(db.1), segs[0]) {
            None => Ok(None),
            Some(ii) => {
                let inst = db.1[ii];
                match first_of(map_names(db.0), inst.1) {
                    None => Err(TcError::MmioMapNotFound { span: place }),
                    Some(mi) => {
                        let m = db.0[mi];
                        let (reg_base, reg_idx) = spec_name_array(segs[1]);
                        if reg_base.len() > ATOM_CAP {
                            Err(TcError::MmioRegNotFound { span: place })
                        } else if n == 3 && segs[2].len() > ATOM_CAP {
                            Err(TcError::MmioFieldNotFound { span: place })
                        } else if n > 3 {
                            Err(TcError::MmioPlaceTooDeep { span: place })
                        } else {
                            let want = if n == 3 { Some(segs[2]) } else { None };
                            match spec_scan_regmap(src, m.1, m.2, reg_base, want, place) {
                                Err(e) => Err(e),
                                Ok(None) => Err(TcError::MmioRegNotFound { span: place }),
                                Ok(Some((reg, f))) => {
                                    if reg.5 is Some && reg_idx is None {
                                        Err(TcError::MmioArrayIndexMissing { span: place })
                                    } else if reg.5 is Some && reg_idx.unwrap() >= reg.5.unwrap() {
                                        Err(TcError::MmioArrayIndexOob { span: place })
                                    } else if reg.5 is None && reg_idx is Some {
                                        Err(TcError::MmioArrayIndexNonArray { span: place })
                                    } else {
                                        let idx: u64 = match reg_idx {
                                            Some(k) => k as u64,
                                            None => 0,
                                        };
                                        let addr = reg_addr(inst.2, reg.0, idx, elem_width(reg.2));
                                        Ok(Some((m.0, reg.1, reg.2, reg.3, f, reg.4, addr, place)))
                                    }
                                },
                            }
                        }
                    },
                }
            },
        }
    }
}

/// Resolves the dotted place `name`, found at `place_span`, to an MMIO
/// register or field (see `spec_resolve_place`).
pub fn resolve_mmio_place(db: &MmioDb, src: &[u8], name: &[u8], place_span: Span) -> (r: Result<
    Option<MmioResolved>,
    TcError,
>)
    requires
        db.wf(src@.len()),
    ensures
        r matches Ok(Some(x)) ==> spec_resolve_place(db@, src@, name@, place_span) == Ok::<_, TcError>(Some(x@)),
        r matches Ok(None) ==> spec_resolve_place(db@, src@, name@, place_span) == Ok::<Option<ResolvedView>, TcError>(None),
        r matches Err(e) ==> spec_resolve_place(db@, src@, name@, place_span) == Err::<Option<ResolvedView>, _>(e),
{
    reveal(spec_resolve_place);
    let empty: &[u8] = &[];
    let mut segs: [&[u8]; 8] = [empty; 8];
    let seg_len = split_segments(name, &mut segs);
    let ghost all = split_dots(name@);
    if seg_len < 2 {
        return Ok(None);
    }
    assert(segs@[0]@ == all[0]);
    assert(segs@[1]@ == all[1]);
    let inst_name = match TypeAtom::new(segs[0]) {
        Some(a) => a,
        None => return Ok(None),
    };
    let inst = match find_instance(db, inst_name) {
        Some(x) => x,
        None => return Ok(None),
    };
    let mi = match find_map_decl(db, inst.map) {
        Some(k) => k,
        None => return Err(TcError::MmioMapNotFound { span: place_span }),
    };
    let map_decl = &db.maps[mi];
    assert(db@.0[mi as int] == map_decl@);
    assert(map_ok(map_decl@, src@.len()));
    let (reg_base, reg_idx) = parse_name_array(segs[1]);
    let reg_name = match TypeAtom::new(reg_base) {
        Some(a) => a,
        None => return Err(TcError::MmioRegNotFound { span: place_span }),
    };
    let want_field = if seg_len == 3 {
        assert(segs@[2]@ == all[2]);
        match TypeAtom::new(segs[2]) {
            Some(a) => Some(a),
            None => return Err(TcError::MmioFieldNotFound { span: place_span }),
        }
    } else {
        None
    };
    if seg_len > 3 {
        return Err(TcError::MmioPlaceTooDeep { span: place_span });
    }
    let found = scan_regmap_for_reg(src, map_decl.body, map_decl.tokens.as_slice(), reg_name, want_field, place_span);
    let (reg_info, field_info) = match found {
        Err(e) => return Err(e),
        Ok(None) => return Err(TcError::MmioRegNotFound { span: place_span }),
        Ok(Some(x)) => x,
    };
    match reg_info.array_len {
        Some(n) => {
            match reg_idx {
                None => return Err(TcError::MmioArrayIndexMissing { span: place_span }),
                Some(idx) => {
                    if idx >= n {
                        return Err(TcError::MmioArrayIndexOob { span: place_span });
                    }
                },
            }
        },
        None => {
            if reg_idx.is_some() {
                return Err(TcError::MmioArrayIndexNonArray { span: place_span });
            }
        },
    }
    let ty_bytes = reg_info.reg_ty.to_vec();
    let width: u64 = match mmio_type_width_bytes(ty_bytes.as_slice()) {
        Some(w) => w as u64,
        None => 1,
    };
    let idx: u64 = match reg_idx {
        Some(k) => k as u64,
        None => 0,
    };
    let addr = inst.base_addr.wrapping_add(reg_info.offset as u64).wrapping_add(idx.wrapping_mul(width));
    match field_info {
        Some(field) => Ok(
            Some(
                MmioResolved::Field(
                    MmioResolvedField {
                        map: map_decl.name,
                        reg: reg_info.reg,
                        reg_ty: reg_info.reg_ty,
                        reg_access: reg_info.access,
                        field,
                        volatile: reg_info.volatile,
                        addr,
                        place_span,
                    },
                ),
            ),
        ),
        None => Ok(
            Some(
                MmioResolved::Reg(
                    MmioResolvedReg {
                        map: map_decl.name,
                        reg: reg_info.reg,
                        reg_ty: reg_info.reg_ty,
                        access: reg_info.access,
                        volatile: reg_info.volatile,
                        addr,
                        place_span,
                    },
                ),
            ),
        ),
    }
}

// ---------------------------------------------------------------------------
// Access rules
// ---------------------------------------------------------------------------

/// How reading a register behaves on the bus.
#[derive(Clone, Copy, Debug, PartialEq, Eq, Structural)]
pub enum ReadKind {
    /// Reading has no side effect.
    Pure,
    /// Reading changes the device state.
    Effectful,
}

/// How writing a register behaves.
#[derive(Clone, Copy, Debug, PartialEq, Eq, Structural)]
pub enum WriteKind {
    /// The written value is stored.
    Plain,
    /// Writing 1 sets a bit; 0 leaves it.
    SetOnOne,
    /// Writing 1 clears a bit; 0 leaves it.
    ClearOnOne,
}

/// What the target knows of a register's accesses: read and write
/// behaviour and the widest access, in bits, the bus performs atomically.
#[derive(Clone, Copy, Debug, PartialEq, Eq, Structural)]
pub struct MmioAccessMeta {
    pub read_kind: ReadKind,
    pub write_kind: WriteKind,
    pub atomic_max: u16,
}

/// Width in bits of an access to a register of type `ty` (one byte when
/// the type has no known width).
pub open spec fn access_bits(ty: Seq<u8>) -> int {
    elem_width(ty) * 8
}

/// An access to a register of type `reg_ty` must be no wider than the
/// widest atomic access.
pub fn check_atomic_width(reg_ty: TypeAtom, meta: MmioAccessMeta, span: Span) -> (r: Result<(), TcError>)
    ensures
        access_bits(reg_ty@) > meta.atomic_max ==> r == Err::<(), TcError>(TcError::MmioOverWideAccess { span }),
        access_bits(reg_ty@) <= meta.atomic_max ==> r is Ok,
{
    let bytes = reg_ty.to_vec();
    let width: u32 = match mmio_type_width_bytes(bytes.as_slice()) {
        Some(w) => w,
        None => 1,
    };
    let width_bits = width * 8;
    if width_bits > meta.atomic_max as u32 {
        return Err(TcError::MmioOverWideAccess { span });
    }
    Ok(())
}

/// A whole-register store: a set-on-one or clear-on-one store is a
/// read-modify-write, whose read is a phantom bus read on a register with
/// effectful reads; and the store must be no wider than an atomic access.
pub fn check_store_semantics(reg_ty: TypeAtom, meta: MmioAccessMeta, span: Span) -> (r: Result<(), TcError>)
    ensures
        meta.read_kind == ReadKind::Effectful && meta.write_kind != WriteKind::Plain ==> r == Err::<(), TcError>(
            TcError::MmioPhantomRead { span },
        ),
        !(meta.read_kind == ReadKind::Effectful && meta.write_kind != WriteKind::Plain) ==> (access_bits(reg_ty@)
            > meta.atomic_max ==> r == Err::<(), TcError>(TcError::MmioOverWideAccess { span })),
        !(meta.read_kind == ReadKind::Effectful && meta.write_kind != WriteKind::Plain) ==> (access_bits(reg_ty@)
            <= meta.atomic_max ==> r is Ok),
{
    if meta.read_kind == ReadKind::Effectful && meta.write_kind != WriteKind::Plain {
        return Err(TcError::MmioPhantomRead { span });
    }
    check_atomic_width(reg_ty, meta, span)
}

} // verus!
