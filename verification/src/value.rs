//! Values on the checker's abstract stack, and the stack operations the
//! checker is built from.
use vstd::prelude::*;

use crate::db::SubtypeInfo;
use crate::error::TcError;
use crate::lit::{
    lit_mmio, lit_ptr, lit_ptr_mut, lit_quot, lit_resource, lit_scoped, sp_mmio, sp_ptr, sp_ptr_mut,
    sp_quot, sp_resource, sp_scoped,
};
use crate::mmio::MmioFieldInfo;
use crate::mmiodb::{MmioResolved, MmioResolvedField, MmioResolvedReg, ResolvedView};
use crate::output::{spaced, Output};
use crate::typeops::{spec_type_compatible, type_compatible};
use crate::types::{atoms_view, Span, TypeAtom, WordEntry};

verus! {

/// Identifies a borrowed place in a word's borrow ledger.
#[derive(Clone, Copy, Debug, PartialEq, Eq, Structural)]
pub struct PlaceId(pub u16);

/// The place number of a pointer that borrows no tracked place.
pub const PLACE_NONE: u16 = 65535;

/// A value on the abstract stack.
#[derive(Clone, Copy, Debug)]
pub enum Value {
    /// A value of a named type.
    Plain(TypeAtom),
    /// A value borrowed for the extent of scope `scope`.
    Scoped { ty: TypeAtom, scope: u16 },
    /// A named resource.
    Resource(TypeAtom),
    /// A quotation: the source span of `[ ... ]`, and the positions of
    /// its first token and of its closing `]` in the body's tokens.
    Quot { span: Span, first: usize, close: usize },
    /// A resolved MMIO register or field.
    MmioPlace(MmioResolved),
    /// A pointer to a value of type `ty`, borrowing ledger place `place`.
    Ptr { ty: TypeAtom, mutable: bool, place: PlaceId },
    /// A pointer to an MMIO register.
    MmioPtr { reg: MmioResolvedReg, mutable: bool },
}

/// What a value is, with every atom taken by its bytes.
pub enum ValueView {
    Plain(Seq<u8>),
    Scoped(Seq<u8>, u16),
    Resource(Seq<u8>),
    Quot(Span, usize, usize),
    MmioPlace(ResolvedView),
    Ptr(Seq<u8>, bool, u16),
    MmioPtr(ResolvedView, bool),
}

impl View for MmioResolvedReg {
    type V = ResolvedView;

    open spec fn view(&self) -> ResolvedView {
        MmioResolved::Reg(*self)@
    }
}

impl View for Value {
    type V = ValueView;

    open spec fn view(&self) -> ValueView {
        match *self {
            Value::Plain(t) => ValueView::Plain(t@),
            Value::Scoped { ty, scope } => ValueView::Scoped(ty@, scope),
            Value::Resource(n) => ValueView::Resource(n@),
            Value::Quot { span, first, close } => ValueView::Quot(span, first, close),
            Value::MmioPlace(r) => ValueView::MmioPlace(r@),
            Value::Ptr { ty, mutable, place } => ValueView::Ptr(ty@, mutable, place.0),
            Value::MmioPtr { reg, mutable } => ValueView::MmioPtr(reg@, mutable),
        }
    }
}

/// The views of the values of a stack, bottom first.
pub open spec fn stack_view(s: Seq<Value>) -> Seq<ValueView> {
    s.map_values(|v: Value| v@)
}

/// The type a value has when a signature or binding inspects it.
pub open spec fn value_ty(v: ValueView) -> Seq<u8> {
    match v {
        ValueView::Plain(t) => t,
        ValueView::Scoped(t, _) => t,
        ValueView::Resource(_) => sp_resource(),
        ValueView::Quot(..) => sp_quot(),
        ValueView::MmioPlace(_) => sp_mmio(),
        ValueView::Ptr(_, m, _) => if m { sp_ptr_mut() } else { sp_ptr() },
        ValueView::MmioPtr(_, m) => if m { sp_ptr_mut() } else { sp_ptr() },
    }
}

/// How a value is printed in a stack trace.
pub open spec fn value_text(v: ValueView) -> Seq<u8> {
    match v {
        ValueView::Plain(t) => t,
        ValueView::Scoped(t, _) => t,
        ValueView::Resource(n) => n,
        ValueView::Quot(..) => sp_quot(),
        ValueView::MmioPlace(_) => sp_mmio(),
        ValueView::Ptr(_, m, _) => if m { sp_ptr_mut() } else { sp_ptr() },
        ValueView::MmioPtr(_, m) => if m { sp_mmio_ptr_mut() } else { sp_mmio_ptr() },
    }
}

/// `mmio_ptr`
pub open spec fn sp_mmio_ptr() -> Seq<u8> {
    seq![109u8, 109u8, 105u8, 111u8, 95u8, 112u8, 116u8, 114u8]
}

/// `mmio_ptr_mut`
pub open spec fn sp_mmio_ptr_mut() -> Seq<u8> {
    seq![109u8, 109u8, 105u8, 111u8, 95u8, 112u8, 116u8, 114u8, 95u8, 109u8, 117u8, 116u8]
}

/// A scope-bound value: a borrowed value or the scope marker.
pub open spec fn is_scoped(v: ValueView) -> bool {
    v is Scoped || v == ValueView::Plain(sp_scoped())
}

/// No scope-bound value is on the stack.
pub open spec fn no_scoped_live(s: Seq<ValueView>) -> bool {
    forall|i: int| 0 <= i < s.len() ==> !is_scoped(#[trigger] s[i])
}

/// The type of `v` (see `value_ty`).
pub fn value_type(v: &Value) -> (t: TypeAtom)
    ensures
        t@ == value_ty(v@),
{
    match *v {
        Value::Plain(t) => t,
        Value::Scoped { ty, .. } => ty,
        Value::Resource(_) => TypeAtom::new(&lit_resource()).unwrap(),
        Value::Quot { .. } => TypeAtom::new(&lit_quot()).unwrap(),
        Value::MmioPlace(_) => TypeAtom::new(&lit_mmio()).unwrap(),
        Value::Ptr { mutable, .. } => if mutable {
            TypeAtom::new(&lit_ptr_mut()).unwrap()
        } else {
            TypeAtom::new(&lit_ptr()).unwrap()
        },
        Value::MmioPtr { mutable, .. } => if mutable {
            TypeAtom::new(&lit_ptr_mut()).unwrap()
        } else {
            TypeAtom::new(&lit_ptr()).unwrap()
        },
    }
}

fn field_eq(a: &MmioFieldInfo, b: &MmioFieldInfo) -> (r: bool)
    ensures
        r == (a@ == b@),
{
    a.name.same(&b.name) && a.lo == b.lo && a.hi == b.hi && a.ty.same(&b.ty) && a.access == b.access
}

fn reg_eq(a: &MmioResolvedReg, b: &MmioResolvedReg) -> (r: bool)
    ensures
        r == (a@ == b@),
{
    a.map.same(&b.map) && a.reg.same(&b.reg) && a.reg_ty.same(&b.reg_ty) && a.access == b.access
        && a.volatile == b.volatile && a.addr == b.addr && a.place_span == b.place_span
}

fn resolved_field_eq(a: &MmioResolvedField, b: &MmioResolvedField) -> (r: bool)
    ensures
        r == (MmioResolved::Field(*a)@ == MmioResolved::Field(*b)@),
{
    a.map.same(&b.map) && a.reg.same(&b.reg) && a.reg_ty.same(&b.reg_ty) && a.reg_access == b.reg_access
        && field_eq(&a.field, &b.field) && a.volatile == b.volatile && a.addr == b.addr
        && a.place_span == b.place_span
}

/// Whether two values are the same value.
pub fn value_eq(a: &Value, b: &Value) -> (r: bool)
    ensures
        r == (a@ == b@),
{
    match (*a, *b) {
        (Value::Plain(x), Value::Plain(y)) => x.same(&y),
        (Value::Scoped { ty: x, scope: s }, Value::Scoped { ty: y, scope: t }) => x.same(&y) && s == t,
        (Value::Resource(x), Value::Resource(y)) => x.same(&y),
        (Value::Quot { span: x, first: f, close: c }, Value::Quot { span: y, first: g, close: d }) => {
            x == y && f == g && c == d
        },
        (Value::MmioPlace(x), Value::MmioPlace(y)) => match (x, y) {
            (MmioResolved::Reg(p), MmioResolved::Reg(q)) => reg_eq(&p, &q),
            (MmioResolved::Field(p), MmioResolved::Field(q)) => resolved_field_eq(&p, &q),
            _ => false,
        },
        (Value::Ptr { ty: x, mutable: m, place: p }, Value::Ptr { ty: y, mutable: n, place: q }) => {
            x.same(&y) && m == n && p.0 == q.0
        },
        (Value::MmioPtr { reg: x, mutable: m }, Value::MmioPtr { reg: y, mutable: n }) => reg_eq(&x, &y)
            && m == n,
        _ => false,
    }
}

/// Most values the abstract stack holds.
pub const STACK_CAP: usize = 256;

/// Pushes `v`; fails with a stack overflow (and leaves the stack as it
/// was) when the stack already holds `STACK_CAP` values.
pub fn push(stack: &mut Vec<Value>, v: Value) -> (r: Result<(), TcError>)
    ensures
        old(stack)@.len() < STACK_CAP ==> r is Ok && final(stack)@ == old(stack)@.push(v),
        old(stack)@.len() >= STACK_CAP ==> r == Err::<(), TcError>(
            TcError::StackOverflow { span: Span { start: 0, end: 0 } },
        ) && final(stack)@ == old(stack)@,
{
    if stack.len() >= STACK_CAP {
        return Err(TcError::StackOverflow { span: Span::new(0, 0) });
    }
    stack.push(v);
    Ok(())
}

/// Pops the top value, if any.
pub fn pop(stack: &mut Vec<Value>) -> (r: Option<Value>)
    ensures
        old(stack)@.len() == 0 ==> r is None && final(stack)@ == old(stack)@,
        old(stack)@.len() > 0 ==> r == Some(old(stack)@.last()) && final(stack)@ == old(stack)@.drop_last(),
{
    stack.pop()
}

/// Whether no scope-bound value is on the stack.
pub fn check_no_scoped_live(stack: &[Value]) -> (r: bool)
    ensures
        r == no_scoped_live(stack_view(stack@)),
{
    let marker = TypeAtom::new(&lit_scoped()).unwrap();
    let mut i: usize = 0;
    while i < stack.len()
        invariant
            i <= stack@.len(),
            marker@ == sp_scoped(),
            forall|j: int| 0 <= j < i ==> !is_scoped(#[trigger] stack_view(stack@)[j]),
        decreases stack@.len() - i,
    {
        assert(stack_view(stack@)[i as int] == stack@[i as int]@);
        match stack[i] {
            Value::Scoped { .. } => return false,
            Value::Plain(t) => {
                if t.same(&marker) {
                    return false;
                }
            },
            _ => {},
        }
        i += 1;
    }
    true
}

/// The first of the top `need` values (bottom first) whose type does not
/// fit the signature input at the same position; `need` is at most the
/// stack's depth.
pub open spec fn first_mismatch(
    s: Seq<ValueView>,
    ins: Seq<Seq<u8>>,
    subtypes: Seq<SubtypeInfo>,
    k: int,
) -> bool
    decreases ins.len() - k,
{
    if k < 0 || k >= ins.len() {
        false
    } else {
        !spec_type_compatible(value_ty(s[s.len() - ins.len() + k]), ins[k], subtypes) || first_mismatch(
            s,
            ins,
            subtypes,
            k + 1,
        )
    }
}

/// Applying a word's signature to the stack: a suspending word may not
/// run while a scope-bound value is live; the stack must hold the inputs,
/// each compatible with its declared type; the inputs are replaced by the
/// outputs, which must fit on the stack.
pub open spec fn spec_apply_sig(
    s: Seq<ValueView>,
    entry: WordEntry,
    span: Span,
    subtypes: Seq<SubtypeInfo>,
) -> Result<Seq<ValueView>, TcError> {
    let ins = entry.sig.ins();
    let outs = entry.sig.outs();
    if entry.spec_may_suspend() && !no_scoped_live(s) {
        Err(TcError::ScopedLiveAtSuspend { span })
    } else if s.len() < ins.len() {
        Err(TcError::SigStackUnderflow { span })
    } else if first_mismatch(s, ins, subtypes, 0) {
        Err(TcError::SigTypeMismatch { span })
    } else if s.len() - ins.len() + outs.len() > STACK_CAP {
        Err(TcError::StackOverflow { span: Span { start: 0, end: 0 } })
    } else {
        Ok(s.subrange(0, s.len() - ins.len()) + outs.map_values(|t: Seq<u8>| ValueView::Plain(t)))
    }
}

/// A call replaces exactly its inputs by its outputs: the values below
/// the inputs are untouched, the outputs follow them in order, and the
/// depth changes by the number of outputs less the number of inputs.
pub proof fn lemma_apply_sig_frame(s: Seq<ValueView>, entry: WordEntry, span: Span, subtypes: Seq<SubtypeInfo>)
    requires
        spec_apply_sig(s, entry, span, subtypes) is Ok,
    ensures
        ({
            let r = spec_apply_sig(s, entry, span, subtypes)->Ok_0;
            let keep = s.len() - entry.sig.ins().len();
            &&& 0 <= keep
            &&& r.len() == keep + entry.sig.outs().len()
            &&& r.len() <= STACK_CAP
            &&& r.subrange(0, keep) == s.subrange(0, keep)
            &&& forall|k: int| 0 <= k < entry.sig.outs().len() ==> #[trigger] r[keep + k] == ValueView::Plain(entry.sig.outs()[k])
        }),
{
    let r = spec_apply_sig(s, entry, span, subtypes)->Ok_0;
    let keep = s.len() - entry.sig.ins().len();
    assert(r.subrange(0, keep) =~= s.subrange(0, keep));
}

proof fn lemma_no_mismatch_all_fit(s: Seq<ValueView>, ins: Seq<Seq<u8>>, subtypes: Seq<SubtypeInfo>, k: int)
    requires
        0 <= k,
        !first_mismatch(s, ins, subtypes, k),
    ensures
        forall|j: int| k <= j < ins.len() ==> spec_type_compatible(value_ty(s[s.len() - ins.len() + j]), #[trigger] ins[j], subtypes),
    decreases ins.len() - k,
{
    if k < ins.len() {
        lemma_no_mismatch_all_fit(s, ins, subtypes, k + 1);
    }
}

proof fn lemma_misfit_is_mismatch(s: Seq<ValueView>, ins: Seq<Seq<u8>>, subtypes: Seq<SubtypeInfo>, k: int, j: int)
    requires
        0 <= k <= j < ins.len(),
        !spec_type_compatible(value_ty(s[s.len() - ins.len() + j]), ins[j], subtypes),
    ensures
        first_mismatch(s, ins, subtypes, k),
    decreases j - k,
{
    if k < j {
        lemma_misfit_is_mismatch(s, ins, subtypes, k + 1, j);
    }
}

/// A call is checked input by input: when it goes through, the stack held
/// at least as many values as the word takes and each of the values it
/// consumes fits the input at the same position; when the stack is deep
/// enough but some consumed value does not fit its input (and no scoped
/// value blocks a suspending word first), the call fails with
/// `SigTypeMismatch` at the call's span.
pub proof fn lemma_apply_sig_checks_every_input(
    s: Seq<ValueView>,
    entry: WordEntry,
    span: Span,
    subtypes: Seq<SubtypeInfo>,
)
    ensures
        spec_apply_sig(s, entry, span, subtypes) is Ok ==> {
            &&& s.len() >= entry.sig.ins().len()
            &&& forall|k: int|
                0 <= k < entry.sig.ins().len() ==> spec_type_compatible(
                    value_ty(s[s.len() - entry.sig.ins().len() + k]),
                    #[trigger] entry.sig.ins()[k],
                    subtypes,
                )
        },
        ({
            let ins = entry.sig.ins();
            &&& s.len() >= ins.len()
            &&& !(entry.spec_may_suspend() && !no_scoped_live(s))
            &&& exists|k: int|
                0 <= k < ins.len() && !spec_type_compatible(value_ty(s[s.len() - ins.len() + k]), #[trigger] ins[k], subtypes)
        }) ==> spec_apply_sig(s, entry, span, subtypes) == Err::<Seq<ValueView>, TcError>(
            TcError::SigTypeMismatch { span },
        ),
{
    let ins = entry.sig.ins();
    if spec_apply_sig(s, entry, span, subtypes) is Ok {
        lemma_no_mismatch_all_fit(s, ins, subtypes, 0);
    }
    if s.len() >= ins.len() && exists|k: int|
        0 <= k < ins.len() && !spec_type_compatible(value_ty(s[s.len() - ins.len() + k]), #[trigger] ins[k], subtypes) {
        let k = choose|k: int|
            0 <= k < ins.len() && !spec_type_compatible(value_ty(s[s.len() - ins.len() + k]), #[trigger] ins[k], subtypes);
        lemma_misfit_is_mismatch(s, ins, subtypes, 0, k);
    }
}

proof fn lemma_mismatch_step(s: Seq<ValueView>, ins: Seq<Seq<u8>>, subtypes: Seq<SubtypeInfo>, k: int)
    requires
        0 <= k < ins.len(),
        spec_type_compatible(value_ty(s[s.len() - ins.len() + k]), ins[k], subtypes),
    ensures
        first_mismatch(s, ins, subtypes, k) == first_mismatch(s, ins, subtypes, k + 1),
{
}

/// Applies `entry`'s signature to the stack (see `spec_apply_sig`); on an
/// error the stack is left as it was.
pub fn apply_sig(stack: &mut Vec<Value>, entry: &WordEntry, span: Span, subtypes: &[SubtypeInfo]) -> (r: Result<
    (),
    TcError,
>)
    ensures
        r matches Ok(_) ==> spec_apply_sig(stack_view(old(stack)@), *entry, span, subtypes@) == Ok::<_, TcError>(
            stack_view(final(stack)@),
        ),
        r matches Err(e) ==> spec_apply_sig(stack_view(old(stack)@), *entry, span, subtypes@) == Err::<
            Seq<ValueView>,
            _,
        >(e) && final(stack)@ == old(stack)@,
{
    let ghost s0 = stack_view(stack@);
    if entry.may_suspend() {
        if !check_no_scoped_live(stack.as_slice()) {
            return Err(TcError::ScopedLiveAtSuspend { span });
        }
    }
    let need = entry.sig.in_len();
    let ghost ins = entry.sig.ins();
    if stack.len() < need {
        return Err(TcError::SigStackUnderflow { span });
    }
    let n = stack.len();
    let base = n - need;
    let mut i: usize = 0;
    while i < need
        invariant
            n == stack@.len(),
            !(entry.spec_may_suspend() && !no_scoped_live(s0)),
            s0.len() >= ins.len(),
            i <= need,
            need == ins.len(),
            ins == entry.sig.ins(),
            base + need == stack@.len(),
            s0 == stack_view(stack@),
            first_mismatch(s0, ins, subtypes@, 0) == first_mismatch(s0, ins, subtypes@, i as int),
        decreases need - i,
    {
        let got = value_type(&stack[base + i]);
        assert(s0[base + i] == stack@[base + i]@);
        assert(ins[i as int] == entry.sig.inputs@[i as int]@);
        if !type_compatible(got, entry.sig.inputs[i], subtypes) {
            assert(first_mismatch(s0, ins, subtypes@, i as int));
            return Err(TcError::SigTypeMismatch { span });
        }
        proof {
            lemma_mismatch_step(s0, ins, subtypes@, i as int);
        }
        i += 1;
    }
    let out_len = entry.sig.out_len();
    if out_len > STACK_CAP || base > STACK_CAP - out_len {
        return Err(TcError::StackOverflow { span: Span::new(0, 0) });
    }
    let ghost outs = entry.sig.outs();
    stack.truncate(base);
    let mut k: usize = 0;
    while k < out_len
        invariant
            k <= out_len,
            out_len == entry.sig.outputs@.len(),
            outs == entry.sig.outs(),
            base + out_len <= STACK_CAP,
            stack@.len() == base + k,
            s0.len() == n,
            base <= n,
            stack_view(stack@) == s0.subrange(0, base as int) + outs.subrange(0, k as int).map_values(
                |t: Seq<u8>| ValueView::Plain(t),
            ),
        decreases out_len - k,
    {
        let v = Value::Plain(entry.sig.outputs[k]);
        let ghost before = stack@;
        stack.push(v);
        assert(outs[k as int] == entry.sig.outputs@[k as int]@);
        assert(stack_view(stack@) =~= stack_view(before).push(v@));
        assert(outs.subrange(0, k + 1).map_values(|t: Seq<u8>| ValueView::Plain(t)) =~= outs.subrange(
            0,
            k as int,
        ).map_values(|t: Seq<u8>| ValueView::Plain(t)).push(ValueView::Plain(outs[k as int])));
        assert(stack_view(stack@) =~= s0.subrange(0, base as int) + outs.subrange(0, k + 1).map_values(
            |t: Seq<u8>| ValueView::Plain(t),
        ));
        k += 1;
    }
    assert(outs.subrange(0, k as int) =~= outs);
    Ok(())
}

/// Writes the stack, bottom first, values separated by single spaces.
pub fn write_stack<O: Output>(out: &mut O, stack: &[Value])
    ensures
        final(out).written() == old(out).written() + spaced(stack_view(stack@).map_values(|v: ValueView| value_text(v))),
{
    let ghost start = out.written();
    let ghost parts = stack_view(stack@).map_values(|v: ValueView| value_text(v));
    let mut i: usize = 0;
    while i < stack.len()
        invariant
            i <= stack@.len(),
            parts == stack_view(stack@).map_values(|v: ValueView| value_text(v)),
            out.written() == start + spaced(parts.subrange(0, i as int)),
        decreases stack@.len() - i,
    {
        if i != 0 {
            let sp: [u8; 1] = [32u8];
            out.write(&sp);
        }
        let text = value_text_bytes(&stack[i]);
        out.write(text.as_slice());
        proof {
            crate::output::lemma_spaced_step(parts, i as int);
        }
        i += 1;
    }
    assert(parts.subrange(0, i as int) =~= parts);
}

/// The bytes `value_text` gives for `v`.
pub fn value_text_bytes(v: &Value) -> (b: Vec<u8>)
    ensures
        b@ == value_text(v@),
{
    match *v {
        Value::Plain(t) => t.to_vec(),
        Value::Scoped { ty, .. } => ty.to_vec(),
        Value::Resource(n) => n.to_vec(),
        Value::Quot { .. } => TypeAtom::new(&lit_quot()).unwrap().to_vec(),
        Value::MmioPlace(_) => TypeAtom::new(&lit_mmio()).unwrap().to_vec(),
        Value::Ptr { mutable, .. } => if mutable {
            TypeAtom::new(&lit_ptr_mut()).unwrap().to_vec()
        } else {
            TypeAtom::new(&lit_ptr()).unwrap().to_vec()
        },
        Value::MmioPtr { mutable, .. } => {
            let mut b: Vec<u8> = Vec::new();
            b.push(109u8);
            b.push(109u8);
            b.push(105u8);
            b.push(111u8);
            b.push(95u8);
            b.push(112u8);
            b.push(116u8);
            b.push(114u8);
            if mutable {
                b.push(95u8);
                b.push(109u8);
                b.push(117u8);
                b.push(116u8);
                assert(b@ =~= sp_mmio_ptr_mut());
            } else {
                assert(b@ =~= sp_mmio_ptr());
            }
            b
        },
    }
}

} // verus!
