//! Declaration databases built from a module: resources, nominal types
//! (structs and enums) and isolated (`iso`/`owned`) types.
use vstd::prelude::*;

use crate::ast::{AttrAst, DeclAst, DeclKind, EnumDeclAst, FieldAst, ModuleAst, StructDeclAst, VariantAst};
use crate::error::TcError;
use crate::lit::{lit_i64, sp_i64};
use crate::parse::{parse_type_atom_from_span, spec_type_atom_of};
use crate::types::{Span, TypeAtom, ATOM_CAP};

verus! {

/// Most entries any declaration table holds.
pub const DB_CAP: usize = 64;

/// The bytes of `src` that `s` covers.
pub open spec fn text(src: Seq<u8>, s: Span) -> Seq<u8> {
    src.subrange(s.start as int, s.end as int)
}

/// The bytes of `src` that `span` covers.
pub fn slice_span<'a>(src: &'a [u8], span: Span) -> (r: &'a [u8])
    requires
        span.within(src@.len()),
    ensures
        r@ == text(src@, span),
{
    &src[span.start..span.end]
}

/// A refinement of a base integer type to the range `min..=max`.
#[derive(Clone, Copy, Debug)]
pub struct SubtypeInfo {
    pub name: TypeAtom,
    pub base: TypeAtom,
    pub min: i64,
    pub max: i64,
}

/// A declared resource.
#[derive(Clone, Copy, Debug)]
pub struct ResourceInfo {
    pub name: TypeAtom,
    pub ty: TypeAtom,
    /// 0 = main only, 1 = main and ISR (single core), 2 = multi-core.
    pub sharing_class: u8,
    /// Reachable from an interrupt handler.
    pub isr_reachable: bool,
}

impl View for ResourceInfo {
    type V = (Seq<u8>, Seq<u8>, u8, bool);

    open spec fn view(&self) -> (Seq<u8>, Seq<u8>, u8, bool) {
        (self.name@, self.ty@, self.sharing_class, self.isr_reachable)
    }
}

/// The resources of a module, in declaration order.
pub struct ResourceDb {
    pub items: Vec<ResourceInfo>,
}

impl View for ResourceDb {
    type V = Seq<(Seq<u8>, Seq<u8>, u8, bool)>;

    open spec fn view(&self) -> Seq<(Seq<u8>, Seq<u8>, u8, bool)> {
        self.items@.map_values(|r: ResourceInfo| r@)
    }
}

#[derive(Clone, Copy, Debug)]
pub struct StructFieldInfo {
    pub name: TypeAtom,
    pub ty: TypeAtom,
}

impl View for StructFieldInfo {
    type V = (Seq<u8>, Seq<u8>);

    open spec fn view(&self) -> (Seq<u8>, Seq<u8>) {
        (self.name@, self.ty@)
    }
}

pub struct StructInfo {
    pub name: TypeAtom,
    pub fields: Vec<StructFieldInfo>,
}

impl View for StructInfo {
    type V = (Seq<u8>, Seq<(Seq<u8>, Seq<u8>)>);

    open spec fn view(&self) -> (Seq<u8>, Seq<(Seq<u8>, Seq<u8>)>) {
        (self.name@, self.fields@.map_values(|f: StructFieldInfo| f@))
    }
}

#[derive(Clone, Copy, Debug)]
pub struct EnumVariantInfo {
    pub name: TypeAtom,
    pub value: i64,
}

impl View for EnumVariantInfo {
    type V = (Seq<u8>, i64);

    open spec fn view(&self) -> (Seq<u8>, i64) {
        (self.name@, self.value)
    }
}

pub struct EnumInfo {
    pub name: TypeAtom,
    pub base: TypeAtom,
    pub variants: Vec<EnumVariantInfo>,
}

impl View for EnumInfo {
    type V = (Seq<u8>, Seq<u8>, Seq<(Seq<u8>, i64)>);

    open spec fn view(&self) -> (Seq<u8>, Seq<u8>, Seq<(Seq<u8>, i64)>) {
        (self.name@, self.base@, self.variants@.map_values(|v: EnumVariantInfo| v@))
    }
}

/// The structs and enums of a module.
pub struct NominalDb {
    pub structs: Vec<StructInfo>,
    pub enums: Vec<EnumInfo>,
}

impl NominalDb {
    pub open spec fn structs_view(&self) -> Seq<(Seq<u8>, Seq<(Seq<u8>, Seq<u8>)>)> {
        self.structs@.map_values(|s: StructInfo| s@)
    }

    pub open spec fn enums_view(&self) -> Seq<(Seq<u8>, Seq<u8>, Seq<(Seq<u8>, i64)>)> {
        self.enums@.map_values(|e: EnumInfo| e@)
    }
}

/// The isolated (`iso` and `owned`) types of a module.
pub struct IsoDb {
    pub types: Vec<TypeAtom>,
}

impl View for IsoDb {
    type V = Seq<Seq<u8>>;

    open spec fn view(&self) -> Seq<Seq<u8>> {
        self.types@.map_values(|t: TypeAtom| t@)
    }
}

// ---------------------------------------------------------------------------
// Iso types
// ---------------------------------------------------------------------------

/// The iso table built from `decls` in order, or the first error.
pub open spec fn spec_iso_db(src: Seq<u8>, decls: Seq<DeclAst>) -> Result<Seq<Seq<u8>>, TcError>
    decreases decls.len(),
{
    if decls.len() == 0 {
        Ok(Seq::empty())
    } else {
        match spec_iso_db(src, decls.drop_last()) {
            Err(e) => Err(e),
            Ok(ts) => {
                let d = decls.last();
                if d.kind != DeclKind::Iso && d.kind != DeclKind::Owned {
                    Ok(ts)
                } else if text(src, d.name).len() > ATOM_CAP {
                    Err(TcError::IsoNameInvalid { span: d.name })
                } else if ts.len() >= DB_CAP {
                    Err(TcError::IsoCapacityExceeded { span: d.name })
                } else {
                    Ok(ts.push(text(src, d.name)))
                }
            },
        }
    }
}

/// Collects the names of the module's `iso` and `owned` declarations.
pub fn build_iso_db(module: &ModuleAst, src: &[u8]) -> (r: Result<IsoDb, TcError>)
    requires
        module.within(src@.len()),
    ensures
        r matches Ok(db) ==> spec_iso_db(src@, module.decls@) == Ok::<_, TcError>(db@),
        r matches Err(e) ==> spec_iso_db(src@, module.decls@) == Err::<Seq<Seq<u8>>, _>(e),
{
    let mut types: Vec<TypeAtom> = Vec::new();
    let mut i: usize = 0;
    assert(module.decls@.subrange(0, 0) =~= Seq::<DeclAst>::empty());
    assert(types@.map_values(|t: TypeAtom| t@) =~= Seq::<Seq<u8>>::empty());
    while i < module.decls.len()
        invariant
            module.within(src@.len()),
            i <= module.decls@.len(),
            spec_iso_db(src@, module.decls@.subrange(0, i as int)) == Ok::<_, TcError>(
                types@.map_values(|t: TypeAtom| t@),
            ),
            types@.len() <= DB_CAP,
        decreases module.decls@.len() - i,
    {
        let d = &module.decls[i];
        assert(module.decls@.subrange(0, i + 1).drop_last() =~= module.decls@.subrange(0, i as int));
        assert(module.decls@.subrange(0, i + 1).last() == *d);
        if d.kind != DeclKind::Iso && d.kind != DeclKind::Owned {
            i += 1;
            continue;
        }
        assert(d.within(src@.len()));
        let name = match TypeAtom::new(slice_span(src, d.name)) {
            None => {
                proof {
                    lemma_iso_err_prefix(src@, module.decls@, i + 1);
                }
                return Err(TcError::IsoNameInvalid { span: d.name });
            },
            Some(a) => a,
        };
        if types.len() >= DB_CAP {
            proof {
                lemma_iso_err_prefix(src@, module.decls@, i + 1);
            }
            return Err(TcError::IsoCapacityExceeded { span: d.name });
        }
        let ghost before = types@;
        types.push(name);
        assert(types@.map_values(|t: TypeAtom| t@) =~= before.map_values(|t: TypeAtom| t@).push(name@));
        i += 1;
    }
    assert(module.decls@.subrange(0, i as int) =~= module.decls@);
    Ok(IsoDb { types })
}

proof fn lemma_iso_err_prefix(src: Seq<u8>, decls: Seq<DeclAst>, k: int)
    requires
        0 <= k <= decls.len(),
        spec_iso_db(src, decls.subrange(0, k)) is Err,
    ensures
        spec_iso_db(src, decls) == spec_iso_db(src, decls.subrange(0, k)),
    decreases decls.len(),
{
    if k < decls.len() {
        assert(decls.drop_last().subrange(0, k) =~= decls.subrange(0, k));
        lemma_iso_err_prefix(src, decls.drop_last(), k);
    } else {
        assert(decls.subrange(0, k) =~= decls);
    }
}

/// Whether `ty` is one of the isolated types.
pub fn is_iso_type(iso: &IsoDb, ty: TypeAtom) -> (r: bool)
    ensures
        r == iso@.contains(ty@),
{
    let mut i: usize = 0;
    while i < iso.types.len()
        invariant
            i <= iso.types@.len(),
            forall|j: int| 0 <= j < i ==> iso.types@[j]@ != ty@,
        decreases iso.types@.len() - i,
    {
        if iso.types[i].same(&ty) {
            assert(iso@[i as int] == ty@);
            return true;
        }
        i += 1;
    }
    assert forall|j: int| 0 <= j < iso@.len() implies iso@[j] != ty@ by {
        assert(iso@[j] == iso.types@[j]@);
    }
    false
}

// ---------------------------------------------------------------------------
// Resources
// ---------------------------------------------------------------------------

/// The type a resource declaration gives its resource: the type written
/// in its signature, `i64` when it has none, or the error for a signature
/// that is not a type.
pub open spec fn spec_resource_ty(src: Seq<u8>, d: DeclAst) -> Result<Seq<u8>, TcError> {
    match d.sig {
        Some(s) => match spec_type_atom_of(text(src, s)) {
            Some(t) => Ok(t),
            None => Err(TcError::ResourceTypeInvalid { span: s }),
        },
        None => Ok(sp_i64()),
    }
}

/// The resource table built from `decls` in order, or the first error.
/// Every resource starts main-only and unreachable from interrupts.
pub open spec fn spec_resource_db(src: Seq<u8>, decls: Seq<DeclAst>) -> Result<
    Seq<(Seq<u8>, Seq<u8>, u8, bool)>,
    TcError,
>
    decreases decls.len(),
{
    if decls.len() == 0 {
        Ok(Seq::empty())
    } else {
        match spec_resource_db(src, decls.drop_last()) {
            Err(e) => Err(e),
            Ok(items) => {
                let d = decls.last();
                if d.kind != DeclKind::Resource {
                    Ok(items)
                } else if text(src, d.name).len() > ATOM_CAP {
                    Err(TcError::ResourceNameInvalid { span: d.name })
                } else {
                    match spec_resource_ty(src, d) {
                        Err(e) => Err(e),
                        Ok(ty) => if items.len() >= DB_CAP {
                            Err(TcError::ResourceCapacityExceeded { span: d.name })
                        } else {
                            Ok(items.push((text(src, d.name), ty, 0u8, false)))
                        },
                    }
                }
            },
        }
    }
}

proof fn lemma_resource_err_prefix(src: Seq<u8>, decls: Seq<DeclAst>, k: int)
    requires
        0 <= k <= decls.len(),
        spec_resource_db(src, decls.subrange(0, k)) is Err,
    ensures
        spec_resource_db(src, decls) == spec_resource_db(src, decls.subrange(0, k)),
    decreases decls.len(),
{
    if k < decls.len() {
        assert(decls.drop_last().subrange(0, k) =~= decls.subrange(0, k));
        lemma_resource_err_prefix(src, decls.drop_last(), k);
    } else {
        assert(decls.subrange(0, k) =~= decls);
    }
}

fn resource_decl_ty(src: &[u8], d: &DeclAst) -> (r: Result<TypeAtom, TcError>)
    requires
        d.within(src@.len()),
    ensures
        r matches Ok(t) ==> spec_resource_ty(src@, *d) == Ok::<_, TcError>(t@),
        r matches Err(e) ==> spec_resource_ty(src@, *d) == Err::<Seq<u8>, _>(e),
{
    match d.sig {
        Some(s) => match parse_type_atom_from_span(src, s) {
            Some(t) => Ok(t),
            None => Err(TcError::ResourceTypeInvalid { span: s }),
        },
        None => Ok(TypeAtom::new(&lit_i64()).unwrap()),
    }
}

/// Collects the module's resource declarations.
pub fn build_resource_db(module: &ModuleAst, src: &[u8]) -> (r: Result<ResourceDb, TcError>)
    requires
        module.within(src@.len()),
    ensures
        r matches Ok(db) ==> spec_resource_db(src@, module.decls@) == Ok::<_, TcError>(db@),
        r matches Err(e) ==> spec_resource_db(src@, module.decls@) == Err::<
            Seq<(Seq<u8>, Seq<u8>, u8, bool)>,
            _,
        >(e),
{
    let mut items: Vec<ResourceInfo> = Vec::new();
    let mut i: usize = 0;
    assert(module.decls@.subrange(0, 0) =~= Seq::<DeclAst>::empty());
    assert(items@.map_values(|r: ResourceInfo| r@) =~= Seq::<(Seq<u8>, Seq<u8>, u8, bool)>::empty());
    while i < module.decls.len()
        invariant
            module.within(src@.len()),
            i <= module.decls@.len(),
            spec_resource_db(src@, module.decls@.subrange(0, i as int)) == Ok::<_, TcError>(
                items@.map_values(|r: ResourceInfo| r@),
            ),
            items@.len() <= DB_CAP,
        decreases module.decls@.len() - i,
    {
        let d = &module.decls[i];
        assert(module.decls@.subrange(0, i + 1).drop_last() =~= module.decls@.subrange(0, i as int));
        assert(module.decls@.subrange(0, i + 1).last() == *d);
        if d.kind != DeclKind::Resource {
            i += 1;
            continue;
        }
        assert(d.within(src@.len()));
        let name = match TypeAtom::new(slice_span(src, d.name)) {
            None => {
                proof {
                    lemma_resource_err_prefix(src@, module.decls@, i + 1);
                }
                return Err(TcError::ResourceNameInvalid { span: d.name });
            },
            Some(a) => a,
        };
        let ty = match resource_decl_ty(src, d) {
            Err(e) => {
                proof {
                    lemma_resource_err_prefix(src@, module.decls@, i + 1);
                }
                return Err(e);
            },
            Ok(t) => t,
        };
        if items.len() >= DB_CAP {
            proof {
                lemma_resource_err_prefix(src@, module.decls@, i + 1);
            }
            return Err(TcError::ResourceCapacityExceeded { span: d.name });
        }
        let ghost before = items@;
        items.push(ResourceInfo { name, ty, sharing_class: 0, isr_reachable: false });
        assert(items@.map_values(|r: ResourceInfo| r@) =~= before.map_values(|r: ResourceInfo| r@).push(
            (name@, ty@, 0u8, false),
        ));
        i += 1;
    }
    assert(module.decls@.subrange(0, i as int) =~= module.decls@);
    Ok(ResourceDb { items })
}

/// Index of the first entry of `names` equal to `n`.
pub open spec fn first_of(names: Seq<Seq<u8>>, n: Seq<u8>) -> Option<int> {
    if exists|i: int| 0 <= i < names.len() && #[trigger] names[i] == n {
        Some(
            choose|i: int|
                0 <= i < names.len() && #[trigger] names[i] == n && forall|j: int| 0 <= j < i ==> names[j] != n,
        )
    } else {
        None
    }
}

/// `k` is the first position holding `n`.
pub proof fn lemma_first_of(names: Seq<Seq<u8>>, n: Seq<u8>, k: int)
    requires
        0 <= k < names.len(),
        names[k] == n,
        forall|j: int| 0 <= j < k ==> names[j] != n,
    ensures
        first_of(names, n) == Some(k),
{
    let c = choose|i: int|
        0 <= i < names.len() && #[trigger] names[i] == n && forall|j: int| 0 <= j < i ==> names[j] != n;
    assert(0 <= k < names.len() && names[k] == n && forall|j: int| 0 <= j < k ==> names[j] != n);
    if c < k {
        assert(names[c] != n);
    } else if c > k {
        assert(names[k] != n);
    }
}

/// The names of the resources.
pub open spec fn resource_names(db: Seq<(Seq<u8>, Seq<u8>, u8, bool)>) -> Seq<Seq<u8>> {
    Seq::new(db.len(), |i: int| db[i].0)
}

/// Index of the first resource named `name`.
pub open spec fn resource_index(db: Seq<(Seq<u8>, Seq<u8>, u8, bool)>, name: Seq<u8>) -> Option<int> {
    first_of(resource_names(db), name)
}

fn find_resource(db: &ResourceDb, name: &TypeAtom) -> (r: Option<usize>)
    ensures
        r matches Some(i) ==> i < db.items@.len(),
        r matches Some(i) ==> resource_index(db@, name@) == Some(i as int),
        r is None ==> resource_index(db@, name@) is None,
{
    let mut i: usize = 0;
    while i < db.items.len()
        invariant
            i <= db.items@.len(),
            forall|j: int| 0 <= j < i ==> resource_names(db@)[j] != name@,
        decreases db.items@.len() - i,
    {
        if db.items[i].name.same(name) {
            proof {
                lemma_first_of(resource_names(db@), name@, i as int);
            }
            return Some(i);
        }
        i += 1;
    }
    None
}

/// Type of the first resource named `name`.
pub fn resource_ty(db: &ResourceDb, name: TypeAtom) -> (r: Option<TypeAtom>)
    ensures
        r matches Some(t) ==> resource_index(db@, name@) matches Some(i) && t@ == db@[i].1,
        r is None ==> resource_index(db@, name@) is None,
{
    match find_resource(db, &name) {
        Some(i) => Some(db.items[i].ty),
        None => None,
    }
}

/// Whether the first resource named `name` is reachable from an interrupt
/// handler; `false` for an unknown resource.
pub fn resource_is_isr_reachable(db: &ResourceDb, name: TypeAtom) -> (r: bool)
    ensures
        r == (match resource_index(db@, name@) {
            Some(i) => db@[i].3,
            None => false,
        }),
{
    match find_resource(db, &name) {
        Some(i) => db.items[i].isr_reachable,
        None => false,
    }
}

/// Sharing class of the first resource named `name`; 0 for an unknown resource.
pub fn resource_sharing_class(db: &ResourceDb, name: TypeAtom) -> (r: u8)
    ensures
        r == (match resource_index(db@, name@) {
            Some(i) => db@[i].2,
            None => 0u8,
        }),
{
    match find_resource(db, &name) {
        Some(i) => db.items[i].sharing_class,
        None => 0,
    }
}

// ---------------------------------------------------------------------------
// Structs and enums
// ---------------------------------------------------------------------------

/// Whether some pair in `entries` is keyed by `n`.
pub open spec fn has_key<V>(entries: Seq<(Seq<u8>, V)>, n: Seq<u8>) -> bool {
    exists|j: int| 0 <= j < entries.len() && #[trigger] entries[j].0 == n
}

/// The field table of one struct, built in order, or the first error.
pub open spec fn spec_fields(src: Seq<u8>, fields: Seq<FieldAst>) -> Result<Seq<(Seq<u8>, Seq<u8>)>, TcError>
    decreases fields.len(),
{
    if fields.len() == 0 {
        Ok(Seq::empty())
    } else {
        match spec_fields(src, fields.drop_last()) {
            Err(e) => Err(e),
            Ok(fs) => {
                let f = fields.last();
                let n = text(src, f.name);
                if n.len() > ATOM_CAP {
                    Err(TcError::StructFieldNameInvalid { span: f.name })
                } else if has_key(fs, n) {
                    Err(TcError::StructFieldDuplicate { span: f.name })
                } else {
                    match spec_type_atom_of(text(src, f.ty)) {
                        None => Err(TcError::StructFieldTypeInvalid { span: f.ty }),
                        Some(t) => if fs.len() >= DB_CAP {
                            Err(TcError::StructDbCapacity { span: f.name })
                        } else {
                            Ok(fs.push((n, t)))
                        },
                    }
                }
            },
        }
    }
}

/// The struct table, built in order, or the first error.
pub open spec fn spec_structs(src: Seq<u8>, structs: Seq<StructDeclAst>) -> Result<
    Seq<(Seq<u8>, Seq<(Seq<u8>, Seq<u8>)>)>,
    TcError,
>
    decreases structs.len(),
{
    if structs.len() == 0 {
        Ok(Seq::empty())
    } else {
        match spec_structs(src, structs.drop_last()) {
            Err(e) => Err(e),
            Ok(ss) => {
                let sd = structs.last();
                let n = text(src, sd.name);
                if n.len() > ATOM_CAP {
                    Err(TcError::StructNameInvalid { span: sd.name })
                } else {
                    match spec_fields(src, sd.fields@) {
                        Err(e) => Err(e),
                        Ok(fs) => if ss.len() >= DB_CAP {
                            Err(TcError::StructDbCapacity { span: sd.name })
                        } else {
                            Ok(ss.push((n, fs)))
                        },
                    }
                }
            },
        }
    }
}

/// The variant table of one enum, built in order, or the first error.
/// Variants are recorded with value 0.
pub open spec fn spec_variants(src: Seq<u8>, vs: Seq<VariantAst>) -> Result<Seq<(Seq<u8>, i64)>, TcError>
    decreases vs.len(),
{
    if vs.len() == 0 {
        Ok(Seq::empty())
    } else {
        match spec_variants(src, vs.drop_last()) {
            Err(e) => Err(e),
            Ok(out) => {
                let v = vs.last();
                let n = text(src, v.name);
                if n.len() > ATOM_CAP {
                    Err(TcError::EnumVariantNameInvalid { span: v.name })
                } else if has_key(out, n) {
                    Err(TcError::EnumVariantDuplicate { span: v.name })
                } else if out.len() >= DB_CAP {
                    Err(TcError::EnumVariantCapacityExceeded { span: v.name })
                } else {
                    Ok(out.push((n, 0i64)))
                }
            },
        }
    }
}

/// The base type an enum declaration gives: the written type, or the
/// empty atom when there is none.
pub open spec fn spec_enum_base(src: Seq<u8>, e: EnumDeclAst) -> Result<Seq<u8>, TcError> {
    match e.base {
        Some(s) => match spec_type_atom_of(text(src, s)) {
            Some(t) => Ok(t),
            None => Err(TcError::EnumBaseTypeInvalid { span: s }),
        },
        None => Ok(Seq::empty()),
    }
}

/// The enum table, built in order, or the first error.
pub open spec fn spec_enums(src: Seq<u8>, enums: Seq<EnumDeclAst>) -> Result<
    Seq<(Seq<u8>, Seq<u8>, Seq<(Seq<u8>, i64)>)>,
    TcError,
>
    decreases enums.len(),
{
    if enums.len() == 0 {
        Ok(Seq::empty())
    } else {
        match spec_enums(src, enums.drop_last()) {
            Err(e) => Err(e),
            Ok(es) => {
                let ed = enums.last();
                let n = text(src, ed.name);
                if n.len() > ATOM_CAP {
                    Err(TcError::EnumNameInvalid { span: ed.name })
                } else {
                    match spec_enum_base(src, ed) {
                        Err(e) => Err(e),
                        Ok(base) => match spec_variants(src, ed.variants@) {
                            Err(e) => Err(e),
                            Ok(vs) => if es.len() >= DB_CAP {
                                Err(TcError::EnumVariantCapacityExceeded { span: ed.name })
                            } else {
                                Ok(es.push((n, base, vs)))
                            },
                        },
                    }
                }
            },
        }
    }
}

proof fn lemma_fields_err_prefix(src: Seq<u8>, fs: Seq<FieldAst>, k: int)
    requires
        0 <= k <= fs.len(),
        spec_fields(src, fs.subrange(0, k)) is Err,
    ensures
        spec_fields(src, fs) == spec_fields(src, fs.subrange(0, k)),
    decreases fs.len(),
{
    if k < fs.len() {
        assert(fs.drop_last().subrange(0, k) =~= fs.subrange(0, k));
        lemma_fields_err_prefix(src, fs.drop_last(), k);
    } else {
        assert(fs.subrange(0, k) =~= fs);
    }
}

proof fn lemma_structs_err_prefix(src: Seq<u8>, ss: Seq<StructDeclAst>, k: int)
    requires
        0 <= k <= ss.len(),
        spec_structs(src, ss.subrange(0, k)) is Err,
    ensures
        spec_structs(src, ss) == spec_structs(src, ss.subrange(0, k)),
    decreases ss.len(),
{
    if k < ss.len() {
        assert(ss.drop_last().subrange(0, k) =~= ss.subrange(0, k));
        lemma_structs_err_prefix(src, ss.drop_last(), k);
    } else {
        assert(ss.subrange(0, k) =~= ss);
    }
}

proof fn lemma_variants_err_prefix(src: Seq<u8>, vs: Seq<VariantAst>, k: int)
    requires
        0 <= k <= vs.len(),
        spec_variants(src, vs.subrange(0, k)) is Err,
    ensures
        spec_variants(src, vs) == spec_variants(src, vs.subrange(0, k)),
    decreases vs.len(),
{
    if k < vs.len() {
        assert(vs.drop_last().subrange(0, k) =~= vs.subrange(0, k));
        lemma_variants_err_prefix(src, vs.drop_last(), k);
    } else {
        assert(vs.subrange(0, k) =~= vs);
    }
}

proof fn lemma_enums_err_prefix(src: Seq<u8>, es: Seq<EnumDeclAst>, k: int)
    requires
        0 <= k <= es.len(),
        spec_enums(src, es.subrange(0, k)) is Err,
    ensures
        spec_enums(src, es) == spec_enums(src, es.subrange(0, k)),
    decreases es.len(),
{
    if k < es.len() {
        assert(es.drop_last().subrange(0, k) =~= es.subrange(0, k));
        lemma_enums_err_prefix(src, es.drop_last(), k);
    } else {
        assert(es.subrange(0, k) =~= es);
    }
}

fn field_name_taken(fields: &Vec<StructFieldInfo>, name: &TypeAtom) -> (r: bool)
    ensures
        r == has_key(fields@.map_values(|f: StructFieldInfo| f@), name@),
{
    let ghost view = fields@.map_values(|f: StructFieldInfo| f@);
    let mut i: usize = 0;
    while i < fields.len()
        invariant
            view == fields@.map_values(|f: StructFieldInfo| f@),
            i <= fields@.len(),
            forall|j: int| 0 <= j < i ==> view[j].0 != name@,
        decreases fields@.len() - i,
    {
        if fields[i].name.same(name) {
            assert(view[i as int].0 == name@);
            return true;
        }
        i += 1;
    }
    false
}

fn variant_name_taken(vs: &Vec<EnumVariantInfo>, name: &TypeAtom) -> (r: bool)
    ensures
        r == has_key(vs@.map_values(|v: EnumVariantInfo| v@), name@),
{
    let ghost view = vs@.map_values(|v: EnumVariantInfo| v@);
    let mut i: usize = 0;
    while i < vs.len()
        invariant
            view == vs@.map_values(|v: EnumVariantInfo| v@),
            i <= vs@.len(),
            forall|j: int| 0 <= j < i ==> view[j].0 != name@,
        decreases vs@.len() - i,
    {
        if vs[i].name.same(name) {
            assert(view[i as int].0 == name@);
            return true;
        }
        i += 1;
    }
    false
}

fn build_fields(src: &[u8], sd: &StructDeclAst) -> (r: Result<Vec<StructFieldInfo>, TcError>)
    requires
        sd.within(src@.len()),
    ensures
        r matches Ok(fs) ==> spec_fields(src@, sd.fields@) == Ok::<_, TcError>(
            fs@.map_values(|f: StructFieldInfo| f@),
        ),
        r matches Err(e) ==> spec_fields(src@, sd.fields@) == Err::<Seq<(Seq<u8>, Seq<u8>)>, _>(e),
{
    let mut fields: Vec<StructFieldInfo> = Vec::new();
    let mut i: usize = 0;
    assert(sd.fields@.subrange(0, 0) =~= Seq::<FieldAst>::empty());
    assert(fields@.map_values(|f: StructFieldInfo| f@) =~= Seq::<(Seq<u8>, Seq<u8>)>::empty());
    while i < sd.fields.len()
        invariant
            sd.within(src@.len()),
            i <= sd.fields@.len(),
            spec_fields(src@, sd.fields@.subrange(0, i as int)) == Ok::<_, TcError>(
                fields@.map_values(|f: StructFieldInfo| f@),
            ),
            fields@.len() <= DB_CAP,
        decreases sd.fields@.len() - i,
    {
        let f = sd.fields[i];
        assert(sd.fields@.subrange(0, i + 1).drop_last() =~= sd.fields@.subrange(0, i as int));
        assert(sd.fields@.subrange(0, i + 1).last() == f);
        assert(f.name.within(src@.len()) && f.ty.within(src@.len()));
        let fname = match TypeAtom::new(slice_span(src, f.name)) {
            None => {
                proof {
                    lemma_fields_err_prefix(src@, sd.fields@, i + 1);
                }
                return Err(TcError::StructFieldNameInvalid { span: f.name });
            },
            Some(a) => a,
        };
        if field_name_taken(&fields, &fname) {
            proof {
                lemma_fields_err_prefix(src@, sd.fields@, i + 1);
            }
            return Err(TcError::StructFieldDuplicate { span: f.name });
        }
        let fty = match parse_type_atom_from_span(src, f.ty) {
            None => {
                proof {
                    lemma_fields_err_prefix(src@, sd.fields@, i + 1);
                }
                return Err(TcError::StructFieldTypeInvalid { span: f.ty });
            },
            Some(t) => t,
        };
        if fields.len() >= DB_CAP {
            proof {
                lemma_fields_err_prefix(src@, sd.fields@, i + 1);
            }
            return Err(TcError::StructDbCapacity { span: f.name });
        }
        let ghost before = fields@;
        fields.push(StructFieldInfo { name: fname, ty: fty });
        assert(fields@.map_values(|g: StructFieldInfo| g@) =~= before.map_values(|g: StructFieldInfo| g@).push(
            (fname@, fty@),
        ));
        i += 1;
    }
    assert(sd.fields@.subrange(0, i as int) =~= sd.fields@);
    Ok(fields)
}

fn build_variants(src: &[u8], ed: &EnumDeclAst) -> (r: Result<Vec<EnumVariantInfo>, TcError>)
    requires
        ed.within(src@.len()),
    ensures
        r matches Ok(vs) ==> spec_variants(src@, ed.variants@) == Ok::<_, TcError>(
            vs@.map_values(|v: EnumVariantInfo| v@),
        ),
        r matches Err(e) ==> spec_variants(src@, ed.variants@) == Err::<Seq<(Seq<u8>, i64)>, _>(e),
{
    let mut out: Vec<EnumVariantInfo> = Vec::new();
    let mut i: usize = 0;
    assert(ed.variants@.subrange(0, 0) =~= Seq::<VariantAst>::empty());
    assert(out@.map_values(|v: EnumVariantInfo| v@) =~= Seq::<(Seq<u8>, i64)>::empty());
    while i < ed.variants.len()
        invariant
            ed.within(src@.len()),
            i <= ed.variants@.len(),
            spec_variants(src@, ed.variants@.subrange(0, i as int)) == Ok::<_, TcError>(
                out@.map_values(|v: EnumVariantInfo| v@),
            ),
            out@.len() <= DB_CAP,
        decreases ed.variants@.len() - i,
    {
        let v = ed.variants[i];
        assert(ed.variants@.subrange(0, i + 1).drop_last() =~= ed.variants@.subrange(0, i as int));
        assert(ed.variants@.subrange(0, i + 1).last() == v);
        assert(v.name.within(src@.len()));
        let vname = match TypeAtom::new(slice_span(src, v.name)) {
            None => {
                proof {
                    lemma_variants_err_prefix(src@, ed.variants@, i + 1);
                }
                return Err(TcError::EnumVariantNameInvalid { span: v.name });
            },
            Some(a) => a,
        };
        if variant_name_taken(&out, &vname) {
            proof {
                lemma_variants_err_prefix(src@, ed.variants@, i + 1);
            }
            return Err(TcError::EnumVariantDuplicate { span: v.name });
        }
        if out.len() >= DB_CAP {
            proof {
                lemma_variants_err_prefix(src@, ed.variants@, i + 1);
            }
            return Err(TcError::EnumVariantCapacityExceeded { span: v.name });
        }
        let ghost before = out@;
        out.push(EnumVariantInfo { name: vname, value: 0 });
        assert(out@.map_values(|g: EnumVariantInfo| g@) =~= before.map_values(|g: EnumVariantInfo| g@).push(
            (vname@, 0i64),
        ));
        i += 1;
    }
    assert(ed.variants@.subrange(0, i as int) =~= ed.variants@);
    Ok(out)
}

fn enum_base(src: &[u8], ed: &EnumDeclAst) -> (r: Result<TypeAtom, TcError>)
    requires
        ed.within(src@.len()),
    ensures
        r matches Ok(t) ==> spec_enum_base(src@, *ed) == Ok::<_, TcError>(t@),
        r matches Err(e) ==> spec_enum_base(src@, *ed) == Err::<Seq<u8>, _>(e),
{
    match ed.base {
        Some(s) => match parse_type_atom_from_span(src, s) {
            Some(t) => Ok(t),
            None => Err(TcError::EnumBaseTypeInvalid { span: s }),
        },
        None => {
            let empty: [u8; 0] = [];
            let t = TypeAtom::new(&empty).unwrap();
            assert(t@ =~= Seq::<u8>::empty());
            Ok(t)
        },
    }
}

/// The nominal tables of a module: structs first, then enums.
pub open spec fn spec_nominal_db(src: Seq<u8>, module: ModuleAst) -> Result<
    (Seq<(Seq<u8>, Seq<(Seq<u8>, Seq<u8>)>)>, Seq<(Seq<u8>, Seq<u8>, Seq<(Seq<u8>, i64)>)>),
    TcError,
> {
    match spec_structs(src, module.structs@) {
        Err(e) => Err(e),
        Ok(ss) => match spec_enums(src, module.enums@) {
            Err(e) => Err(e),
            Ok(es) => Ok((ss, es)),
        },
    }
}

/// Collects the module's struct and enum declarations.
pub fn build_nominal_db(module: &ModuleAst, src: &[u8]) -> (r: Result<NominalDb, TcError>)
    requires
        module.within(src@.len()),
    ensures
        r matches Ok(db) ==> spec_nominal_db(src@, *module) == Ok::<_, TcError>(
            (db.structs_view(), db.enums_view()),
        ),
        r matches Err(e) ==> spec_nominal_db(src@, *module) == Err::<
            (Seq<(Seq<u8>, Seq<(Seq<u8>, Seq<u8>)>)>, Seq<(Seq<u8>, Seq<u8>, Seq<(Seq<u8>, i64)>)>),
            _,
        >(e),
{
    let mut structs: Vec<StructInfo> = Vec::new();
    let mut i: usize = 0;
    assert(module.structs@.subrange(0, 0) =~= Seq::<StructDeclAst>::empty());
    assert(structs@.map_values(|s: StructInfo| s@) =~= Seq::<(Seq<u8>, Seq<(Seq<u8>, Seq<u8>)>)>::empty());
    while i < module.structs.len()
        invariant
            module.within(src@.len()),
            i <= module.structs@.len(),
            spec_structs(src@, module.structs@.subrange(0, i as int)) == Ok::<_, TcError>(
                structs@.map_values(|s: StructInfo| s@),
            ),
            structs@.len() <= DB_CAP,
        decreases module.structs@.len() - i,
    {
        let sd = &module.structs[i];
        assert(module.structs@.subrange(0, i + 1).drop_last() =~= module.structs@.subrange(0, i as int));
        assert(module.structs@.subrange(0, i + 1).last() == *sd);
        assert(sd.within(src@.len()));
        let name = match TypeAtom::new(slice_span(src, sd.name)) {
            None => {
                proof {
                    lemma_structs_err_prefix(src@, module.structs@, i + 1);
                }
                return Err(TcError::StructNameInvalid { span: sd.name });
            },
            Some(a) => a,
        };
        let fields = match build_fields(src, sd) {
            Err(e) => {
                proof {
                    lemma_structs_err_prefix(src@, module.structs@, i + 1);
                }
                return Err(e);
            },
            Ok(f) => f,
        };
        if structs.len() >= DB_CAP {
            proof {
                lemma_structs_err_prefix(src@, module.structs@, i + 1);
            }
            return Err(TcError::StructDbCapacity { span: sd.name });
        }
        let ghost before = structs@;
        let ghost fview = fields@.map_values(|f: StructFieldInfo| f@);
        structs.push(StructInfo { name, fields });
        assert(structs@.map_values(|s: StructInfo| s@) =~= before.map_values(|s: StructInfo| s@).push(
            (name@, fview),
        ));
        i += 1;
    }
    assert(module.structs@.subrange(0, i as int) =~= module.structs@);

    let mut enums: Vec<EnumInfo> = Vec::new();
    let mut k: usize = 0;
    assert(module.enums@.subrange(0, 0) =~= Seq::<EnumDeclAst>::empty());
    assert(enums@.map_values(|e: EnumInfo| e@) =~= Seq::<(Seq<u8>, Seq<u8>, Seq<(Seq<u8>, i64)>)>::empty());
    while k < module.enums.len()
        invariant
            module.within(src@.len()),
            k <= module.enums@.len(),
            spec_structs(src@, module.structs@) == Ok::<_, TcError>(structs@.map_values(|s: StructInfo| s@)),
            spec_enums(src@, module.enums@.subrange(0, k as int)) == Ok::<_, TcError>(
                enums@.map_values(|e: EnumInfo| e@),
            ),
            enums@.len() <= DB_CAP,
        decreases module.enums@.len() - k,
    {
        let ed = &module.enums[k];
        assert(module.enums@.subrange(0, k + 1).drop_last() =~= module.enums@.subrange(0, k as int));
        assert(module.enums@.subrange(0, k + 1).last() == *ed);
        assert(ed.within(src@.len()));
        let name = match TypeAtom::new(slice_span(src, ed.name)) {
            None => {
                proof {
                    lemma_enums_err_prefix(src@, module.enums@, k + 1);
                }
                return Err(TcError::EnumNameInvalid { span: ed.name });
            },
            Some(a) => a,
        };
        let base = match enum_base(src, ed) {
            Err(e) => {
                proof {
                    lemma_enums_err_prefix(src@, module.enums@, k + 1);
                }
                return Err(e);
            },
            Ok(b) => b,
        };
        let variants = match build_variants(src, ed) {
            Err(e) => {
                proof {
                    lemma_enums_err_prefix(src@, module.enums@, k + 1);
                }
                return Err(e);
            },
            Ok(v) => v,
        };
        if enums.len() >= DB_CAP {
            proof {
                lemma_enums_err_prefix(src@, module.enums@, k + 1);
            }
            return Err(TcError::EnumVariantCapacityExceeded { span: ed.name });
        }
        let ghost before = enums@;
        let ghost vview = variants@.map_values(|v: EnumVariantInfo| v@);
        enums.push(EnumInfo { name, base, variants });
        assert(enums@.map_values(|e: EnumInfo| e@) =~= before.map_values(|e: EnumInfo| e@).push(
            (name@, base@, vview),
        ));
        k += 1;
    }
    assert(module.enums@.subrange(0, k as int) =~= module.enums@);
    Ok(NominalDb { structs, enums })
}

/// The first names of a table of pairs.
pub open spec fn keys<V>(entries: Seq<(Seq<u8>, V)>) -> Seq<Seq<u8>> {
    Seq::new(entries.len(), |i: int| entries[i].0)
}

/// Type of field `field` of the first struct named `struct_ty`.
pub open spec fn spec_struct_field_ty(
    structs: Seq<(Seq<u8>, Seq<(Seq<u8>, Seq<u8>)>)>,
    struct_ty: Seq<u8>,
    field: Seq<u8>,
) -> Option<Seq<u8>> {
    match first_of(keys(structs), struct_ty) {
        None => None,
        Some(i) => match first_of(keys(structs[i].1), field) {
            None => None,
            Some(j) => Some(structs[i].1[j].1),
        },
    }
}

/// Type of a struct's field: looks up the first struct named `struct_ty`
/// and, in it, the first field named `field`.
pub fn struct_field_ty(db: &NominalDb, struct_ty: TypeAtom, field: TypeAtom) -> (r: Option<TypeAtom>)
    ensures
        r matches Some(t) ==> spec_struct_field_ty(db.structs_view(), struct_ty@, field@) == Some(t@),
        r is None ==> spec_struct_field_ty(db.structs_view(), struct_ty@, field@) is None,
{
    let ghost ss = db.structs_view();
    let mut i: usize = 0;
    while i < db.structs.len()
        invariant
            ss == db.structs_view(),
            i <= db.structs@.len(),
            forall|j: int| 0 <= j < i ==> keys(ss)[j] != struct_ty@,
        decreases db.structs@.len() - i,
    {
        let s = &db.structs[i];
        if !s.name.same(&struct_ty) {
            assert(keys(ss)[i as int] == s.name@);
            i += 1;
            continue;
        }
        proof {
            lemma_first_of(keys(ss), struct_ty@, i as int);
        }
        let ghost fs = ss[i as int].1;
        assert(fs == s.fields@.map_values(|f: StructFieldInfo| f@));
        let mut k: usize = 0;
        while k < s.fields.len()
            invariant
                fs == s.fields@.map_values(|f: StructFieldInfo| f@),
                ss == db.structs_view(),
                i < ss.len(),
                first_of(keys(ss), struct_ty@) == Some(i as int),
                fs == ss[i as int].1,
                k <= s.fields@.len(),
                forall|j: int| 0 <= j < k ==> keys(fs)[j] != field@,
            decreases s.fields@.len() - k,
        {
            if s.fields[k].name.same(&field) {
                proof {
                    lemma_first_of(keys(fs), field@, k as int);
                }
                return Some(s.fields[k].ty);
            }
            k += 1;
        }
        return None;
    }
    None
}

/// Value of variant `variant` of the first enum named `enum_ty`.
pub open spec fn spec_enum_variant_value(
    enums: Seq<(Seq<u8>, Seq<u8>, Seq<(Seq<u8>, i64)>)>,
    enum_ty: Seq<u8>,
    variant: Seq<u8>,
) -> Option<i64> {
    match first_of(Seq::new(enums.len(), |i: int| enums[i].0), enum_ty) {
        None => None,
        Some(i) => match first_of(keys(enums[i].2), variant) {
            None => None,
            Some(j) => Some(enums[i].2[j].1),
        },
    }
}

/// Value of an enum variant: looks up the first enum named `enum_ty`
/// and, in it, the first variant named `variant`.
pub fn enum_variant_value(db: &NominalDb, enum_ty: TypeAtom, variant: TypeAtom) -> (r: Option<i64>)
    ensures
        r == spec_enum_variant_value(db.enums_view(), enum_ty@, variant@),
{
    let ghost es = db.enums_view();
    let ghost names = Seq::new(es.len(), |i: int| es[i].0);
    let mut i: usize = 0;
    while i < db.enums.len()
        invariant
            es == db.enums_view(),
            names == Seq::new(es.len(), |i: int| es[i].0),
            i <= db.enums@.len(),
            forall|j: int| 0 <= j < i ==> names[j] != enum_ty@,
        decreases db.enums@.len() - i,
    {
        let e = &db.enums[i];
        if !e.name.same(&enum_ty) {
            assert(names[i as int] == e.name@);
            i += 1;
            continue;
        }
        proof {
            lemma_first_of(names, enum_ty@, i as int);
        }
        let ghost vs = es[i as int].2;
        assert(vs == e.variants@.map_values(|v: EnumVariantInfo| v@));
        let mut k: usize = 0;
        while k < e.variants.len()
            invariant
                vs == e.variants@.map_values(|v: EnumVariantInfo| v@),
                es == db.enums_view(),
                names == Seq::new(es.len(), |i: int| es[i].0),
                i < es.len(),
                first_of(names, enum_ty@) == Some(i as int),
                vs == es[i as int].2,
                k <= e.variants@.len(),
                forall|j: int| 0 <= j < k ==> keys(vs)[j] != variant@,
            decreases e.variants@.len() - k,
        {
            if e.variants[k].name.same(&variant) {
                proof {
                    lemma_first_of(keys(vs), variant@, k as int);
                }
                return Some(e.variants[k].value);
            }
            k += 1;
        }
        return None;
    }
    None
}

// ---------------------------------------------------------------------------
// Cross-context resource sharing
// ---------------------------------------------------------------------------

/// Most interrupt-handler bodies the sharing analysis takes.
pub const ISR_CAP: usize = 64;

/// The bodies of the interrupt-handler words among `decls`, in order.
pub open spec fn isr_bodies(decls: Seq<DeclAst>) -> Seq<Span>
    decreases decls.len(),
{
    if decls.len() == 0 {
        Seq::empty()
    } else {
        let prev = isr_bodies(decls.drop_last());
        let d = decls.last();
        if d.kind == DeclKind::Word && d.is_interrupt() && d.body is Some {
            prev.push(d.body.unwrap())
        } else {
            prev
        }
    }
}

/// `needle` occurs in `hay` as a contiguous run of bytes.
pub open spec fn occurs_in(needle: Seq<u8>, hay: Seq<u8>) -> bool {
    exists|k: int|
        0 <= k && k + needle.len() <= hay.len() && #[trigger] hay.subrange(k, k + needle.len()) == needle
}

/// A non-empty `name` is written in one of the interrupt-handler bodies.
pub open spec fn named_in_isr(src: Seq<u8>, bodies: Seq<Span>, name: Seq<u8>) -> bool {
    name.len() > 0 && exists|b: int| 0 <= b < bodies.len() && occurs_in(name, text(src, #[trigger] bodies[b]))
}

/// The resource table after the sharing analysis: each resource named in
/// an interrupt-handler body becomes shared between main and ISR context
/// (class 1) and ISR-reachable; the others keep what they had.
pub open spec fn spec_sharing(
    src: Seq<u8>,
    bodies: Seq<Span>,
    items: Seq<(Seq<u8>, Seq<u8>, u8, bool)>,
) -> Seq<(Seq<u8>, Seq<u8>, u8, bool)> {
    Seq::new(
        items.len(),
        |i: int|
            if named_in_isr(src, bodies, items[i].0) {
                (items[i].0, items[i].1, 1u8, true)
            } else {
                items[i]
            },
    )
}

proof fn lemma_isr_bodies_within(decls: Seq<DeclAst>, len: nat)
    requires
        forall|i: int| 0 <= i < decls.len() ==> (#[trigger] decls[i]).within(len),
    ensures
        forall|b: int| 0 <= b < isr_bodies(decls).len() ==> (#[trigger] isr_bodies(decls)[b]).within(len),
    decreases decls.len(),
{
    if decls.len() > 0 {
        assert forall|i: int| 0 <= i < decls.drop_last().len() implies (#[trigger] decls.drop_last()[i]).within(
            len,
        ) by {
            assert(decls.drop_last()[i] == decls[i]);
        }
        lemma_isr_bodies_within(decls.drop_last(), len);
        let d = decls.last();
        assert(d == decls[decls.len() - 1]);
        assert(d.within(len));
        let prev = isr_bodies(decls.drop_last());
        assert forall|b: int| 0 <= b < isr_bodies(decls).len() implies (#[trigger] isr_bodies(decls)[b]).within(
            len,
        ) by {
            if b < prev.len() {
                assert(isr_bodies(decls)[b] == prev[b]);
            }
        }
    }
}

fn is_interrupt_decl(d: &DeclAst) -> (r: bool)
    ensures
        r == d.is_interrupt(),
{
    let mut i: usize = 0;
    while i < d.attrs.len()
        invariant
            i <= d.attrs@.len(),
            forall|j: int| 0 <= j < i ==> !(d.attrs@[j] is Interrupt),
        decreases d.attrs@.len() - i,
    {
        match d.attrs[i] {
            AttrAst::Interrupt { .. } => {
                return true;
            },
            _ => {},
        }
        i += 1;
    }
    false
}

fn matches_at(hay: &[u8], needle: &[u8], k: usize) -> (r: bool)
    requires
        k + needle@.len() <= hay@.len(),
    ensures
        r == (hay@.subrange(k as int, k + needle@.len()) == needle@),
{
    let hl = hay.len();
    let mut m: usize = 0;
    while m < needle.len()
        invariant
            hl == hay@.len(),
            k + needle@.len() <= hay@.len(),
            m <= needle@.len(),
            forall|j: int| 0 <= j < m ==> hay@[k + j] == needle@[j],
        decreases needle@.len() - m,
    {
        if hay[k + m] != needle[m] {
            assert(hay@.subrange(k as int, k + needle@.len())[m as int] != needle@[m as int]);
            return false;
        }
        m += 1;
    }
    assert(hay@.subrange(k as int, k + needle@.len()) =~= needle@);
    true
}

/// Whether `needle` occurs in `hay`.
fn occurs(needle: &[u8], hay: &[u8]) -> (r: bool)
    ensures
        r == occurs_in(needle@, hay@),
{
    if needle.len() > hay.len() {
        return false;
    }
    let last = hay.len() - needle.len();
    let mut k: usize = 0;
    while k < last
        invariant
            last == hay@.len() - needle@.len(),
            k <= last,
            forall|j: int| 0 <= j < k ==> #[trigger] hay@.subrange(j, j + needle@.len()) != needle@,
        decreases last - k,
    {
        if matches_at(hay, needle, k) {
            return true;
        }
        k += 1;
    }
    if matches_at(hay, needle, last) {
        return true;
    }
    assert forall|j: int| 0 <= j && j + needle@.len() <= hay@.len() implies #[trigger] hay@.subrange(
        j,
        j + needle@.len(),
    ) != needle@ by {
        if j < k {
        } else {
            assert(j == last);
        }
    }
    false
}

/// Whether `name` occurs in one of the bodies.
fn named_in_bodies(src: &[u8], bodies: &Vec<Span>, name: &[u8]) -> (r: bool)
    requires
        forall|c: int| 0 <= c < bodies@.len() ==> (#[trigger] bodies@[c]).within(src@.len()),
    ensures
        r == exists|b: int| 0 <= b < bodies@.len() && occurs_in(name@, text(src@, #[trigger] bodies@[b])),
{
    let mut b: usize = 0;
    while b < bodies.len()
        invariant
            forall|c: int| 0 <= c < bodies@.len() ==> (#[trigger] bodies@[c]).within(src@.len()),
            b <= bodies@.len(),
            forall|c: int| 0 <= c < b ==> !occurs_in(name@, text(src@, #[trigger] bodies@[c])),
        decreases bodies@.len() - b,
    {
        if occurs(name, slice_span(src, bodies[b])) {
            return true;
        }
        b += 1;
    }
    false
}

fn collect_isr_bodies(module: &ModuleAst) -> (r: Result<Vec<Span>, TcError>)
    ensures
        isr_bodies(module.decls@).len() > ISR_CAP ==> r == Err::<Vec<Span>, TcError>(
            TcError::IsrCapacityExceeded { span: isr_bodies(module.decls@)[ISR_CAP as int] },
        ),
        isr_bodies(module.decls@).len() <= ISR_CAP ==> (r matches Ok(b) && b@ == isr_bodies(module.decls@)),
{
    let mut bodies: Vec<Span> = Vec::new();
    let mut i: usize = 0;
    assert(module.decls@.subrange(0, 0) =~= Seq::<DeclAst>::empty());
    while i < module.decls.len()
        invariant
            i <= module.decls@.len(),
            bodies@ == isr_bodies(module.decls@.subrange(0, i as int)),
            bodies@.len() <= ISR_CAP,
        decreases module.decls@.len() - i,
    {
        let d = &module.decls[i];
        assert(module.decls@.subrange(0, i + 1).drop_last() =~= module.decls@.subrange(0, i as int));
        assert(module.decls@.subrange(0, i + 1).last() == *d);
        if d.kind == DeclKind::Word && is_interrupt_decl(d) {
            if let Some(body) = d.body {
                if bodies.len() >= ISR_CAP {
                    proof {
                        lemma_isr_bodies_prefix(module.decls@, i + 1);
                    }
                    return Err(TcError::IsrCapacityExceeded { span: body });
                }
                bodies.push(body);
            }
        }
        i += 1;
    }
    assert(module.decls@.subrange(0, i as int) =~= module.decls@);
    Ok(bodies)
}

proof fn lemma_isr_bodies_prefix(decls: Seq<DeclAst>, k: int)
    requires
        0 <= k <= decls.len(),
    ensures
        isr_bodies(decls).len() >= isr_bodies(decls.subrange(0, k)).len(),
        forall|b: int|
            0 <= b < isr_bodies(decls.subrange(0, k)).len() ==> isr_bodies(decls)[b] == isr_bodies(
                decls.subrange(0, k),
            )[b],
    decreases decls.len(),
{
    if k < decls.len() {
        assert(decls.drop_last().subrange(0, k) =~= decls.subrange(0, k));
        lemma_isr_bodies_prefix(decls.drop_last(), k);
    } else {
        assert(decls.subrange(0, k) =~= decls);
    }
}

/// Marks every resource whose name is written in the body of an
/// `@interrupt` word as shared between main and ISR context (class 1) and
/// ISR-reachable.  More than `ISR_CAP` interrupt bodies is an error, and
/// the table is then left as it was.
pub fn compute_resource_sharing(module: &ModuleAst, src: &[u8], db: &mut ResourceDb) -> (r: Result<(), TcError>)
    requires
        module.within(src@.len()),
    ensures
        isr_bodies(module.decls@).len() > ISR_CAP ==> {
            &&& r == Err::<(), TcError>(
                TcError::IsrCapacityExceeded { span: isr_bodies(module.decls@)[ISR_CAP as int] },
            )
            &&& final(db)@ == old(db)@
        },
        isr_bodies(module.decls@).len() <= ISR_CAP ==> {
            &&& r is Ok
            &&& final(db)@ == spec_sharing(src@, isr_bodies(module.decls@), old(db)@)
        },
{
    let bodies = match collect_isr_bodies(module) {
        Err(e) => return Err(e),
        Ok(b) => b,
    };
    proof {
        lemma_isr_bodies_within(module.decls@, src@.len());
    }
    let ghost want = spec_sharing(src@, bodies@, old(db)@);
    if bodies.len() == 0 {
        assert(db@ =~= want);
        return Ok(());
    }
    let n = db.items.len();
    let mut i: usize = 0;
    while i < n
        invariant
            n == db.items@.len(),
            n == old(db).items@.len(),
            i <= n,
            want == spec_sharing(src@, bodies@, old(db)@),
            forall|b: int| 0 <= b < bodies@.len() ==> (#[trigger] bodies@[b]).within(src@.len()),
            forall|j: int| 0 <= j < i ==> #[trigger] db@[j] == want[j],
            forall|j: int| i <= j < n ==> #[trigger] db@[j] == old(db)@[j],
        decreases n - i,
    {
        let item = db.items[i];
        assert(db@[i as int] == item@);
        let name_bytes = item.name.to_vec();
        if name_bytes.len() == 0 {
            i += 1;
            continue;
        }
        let hit = named_in_bodies(src, &bodies, name_bytes.as_slice());
        assert(hit <==> named_in_isr(src@, bodies@, item.name@));
        if hit {
            let ghost before = db@;
            db.items.set(i, ResourceInfo { name: item.name, ty: item.ty, sharing_class: 1, isr_reachable: true });
            assert forall|j: int| 0 <= j < n && j != i implies #[trigger] db@[j] == before[j] by {}
        }
        i += 1;
    }
    assert(db@ =~= want);
    Ok(())
}

} // verus!
