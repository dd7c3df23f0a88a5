//! Checking a whole word body: the stack starts with the declared inputs,
//! locals may be bound with `=> name`, casts and `return` are allowed, and
//! the stack left at the end must match the declared outputs.  Each token
//! that changes the stack adds a line to a trace of the check.
use vstd::prelude::*;

use crate::db::{first_of, SubtypeInfo};
use crate::error::{ChecksMode, TcError};
use crate::lit::{
    sp_as, sp_as_checked, sp_bitcast, sp_bool, sp_drop, sp_dup, sp_false, sp_i64, sp_if, sp_lock, sp_loop,
    sp_ptr, sp_ptr_mut, sp_region, sp_return, sp_scoped, sp_str, sp_swap, sp_true, sp_while,
};
use crate::mmio::spec_mask_shift;
use crate::mmiodb::spec_resolve_place;
use crate::names::{close_of, place_of, qual_name, tk, tok_bytes};
use crate::output::{hex_digits, spaced};
use crate::parse::dec_digits;
use crate::stackcheck::{
    abs, block_span, is_cast, is_control, is_load_store, is_shuffle, quote_span, spec_control, spec_load_store,
    spec_push, spec_push2, spec_seq, spec_shuffle, BodyEnv, BodyMode,
};
use crate::tokens::TokenKind;
use crate::trace::{
    sp_amp, sp_amp_bang, sp_amp_bang_block, sp_amp_block, sp_as_head, sp_bind_head, sp_check_subtype,
    sp_drop_head, sp_dup_head, sp_if_head, sp_ind, sp_load, sp_load_field, sp_lock_head, sp_loop_head,
    sp_mask_hex, sp_mmio_head, sp_nl, sp_quot_head, sp_return_head, sp_shift_eq, sp_space, sp_stack_sep,
    sp_store, sp_store_field, sp_str_head, sp_swap_head, sp_trap_line, sp_vol_load, sp_vol_load_field,
    sp_vol_store, sp_vol_store_field, sp_while_head, lit_amp, lit_amp_bang, lit_amp_bang_block, lit_amp_block,
    lit_as_head, lit_bind_head, lit_check_subtype, lit_drop_head, lit_dup_head, lit_if_head, lit_ind, lit_load,
    lit_load_field, lit_lock_head, lit_loop_head, lit_mask_hex, lit_mmio_head, lit_nl, lit_quot_head,
    lit_return_head, lit_shift_eq, lit_space, lit_stack_sep, lit_store, lit_store_field, lit_str_head,
    lit_swap_head, lit_trap_line, lit_vol_load, lit_vol_load_field, lit_vol_store, lit_vol_store_field,
    lit_while_head,
};
use crate::typeops::{entry_names, spec_array_elem, spec_find_subtype, spec_type_compatible};
use crate::types::{Span, ATOM_CAP};
use crate::value::{
    apply_sig, check_no_scoped_live, stack_view, value_eq, value_text, value_ty, value_type, write_stack, no_scoped_live,
    spec_apply_sig, Value, ValueView,
};
use crate::mmio::{field_mask_shift, MmioFieldInfo};
use crate::mmiodb::MmioResolved;
use crate::output::{write_u64_dec, write_u64_hex, Output};
use crate::types::{atoms_view, TypeAtom, WordSig};
use crate::stackcheck::{lemma_apply_sig_quots, lemma_quots_push, push_value, quots_within, Checker};
use crate::typeops::{find_local, find_subtype, lookup, type_compatible};
use crate::lit::{
    lit_scoped, bytes_eq, lit_as, lit_as_checked, lit_bitcast, lit_bool, lit_drop, lit_dup, lit_false, lit_if, lit_lock, lit_loop,
    lit_return, lit_swap, lit_true, lit_while,
};
use crate::mmiodb::resolve_mmio_place;
use crate::names::{read_qualified_name, capture_balanced, capture_scoped_block, lemma_close_of_bounds, parse_place, token_bytes, token_in};
use crate::lit::{lit_i64, lit_region, lit_str};
use crate::typeops::array_elem_type;
use crate::mmio::access_can_write;
use crate::lit::{lit_ptr, lit_ptr_mut};
use crate::stackcheck::{load_store, outcome, shuffle};
use crate::tokens::{stream_ok, Token};
use crate::mmiodb::{build_mmio_db, spec_mmio_db, InstanceView, MapView, MmioDb};
use crate::ast::{DeclAst, DeclKind, ModuleAst};
use crate::db::{slice_span, text};
use crate::output::{sig_text, write_sig};
use crate::parse::{parse_word_sig, spec_word_sig};
use crate::types::SigParseError;
use crate::trace::{lit_word_head, sp_word_head};
use crate::names::tokens_ordered;
use crate::types::WordEntry;
use crate::stackcheck::MAX_NESTING;
use vstd::slice::slice_subrange;

verus! {

/// The state of a word check: the stack, the bound locals (name and
/// type, in binding order) and whether `return` has been reached.
#[verifier::ext_equal]
pub struct WordState {
    pub stack: Seq<ValueView>,
    pub locals: Seq<(Seq<u8>, Seq<u8>)>,
    pub terminated: bool,
}

/// What a word check is told: the declared outputs, how much run-time
/// checking is wanted, whether the word may suspend, and the body's span.
pub struct WordCfg {
    pub outs: Seq<Seq<u8>>,
    pub checks: ChecksMode,
    pub allow: bool,
    pub body: Span,
}

/// Most locals a word can bind.
pub const LOCALS_CAP: usize = 64;

/// The names of the bound locals.
pub open spec fn local_names(l: Seq<(Seq<u8>, Seq<u8>)>) -> Seq<Seq<u8>> {
    Seq::new(l.len(), |i: int| l[i].0)
}

/// The stack as the trace prints it.
pub open spec fn stack_text(s: Seq<ValueView>) -> Seq<u8> {
    spaced(s.map_values(|v: ValueView| value_text(v)))
}

/// A trace line: `head | stack: ...`.
pub open spec fn line(head: Seq<u8>, s: Seq<ValueView>) -> Seq<u8> {
    head + sp_stack_sep() + stack_text(s) + sp_nl()
}

/// The source text a span covers (nothing for a span outside the source).
pub open spec fn src_text(src: Seq<u8>, s: Span) -> Seq<u8> {
    if s.within(src.len()) {
        src.subrange(s.start as int, s.end as int)
    } else {
        Seq::empty()
    }
}

/// ` mask=0x.. shift=..` for a field of bits `lo..=hi` (nothing for a
/// field starting past bit 63).
pub open spec fn mask_text(lo: u8, hi: u8) -> Seq<u8> {
    if lo < 64 {
        let (m, sh) = spec_mask_shift(lo, hi);
        sp_mask_hex() + hex_digits(m as nat) + sp_shift_eq() + dec_digits(sh as nat)
    } else {
        Seq::empty()
    }
}

/// The trace head of a load or store through `addr` spelled `name`.
pub open spec fn access_head(src: Seq<u8>, addr: ValueView, name: Seq<u8>, load: bool) -> Seq<u8> {
    let (reg_word, vol_reg_word, field_word, vol_field_word) = if load {
        (sp_load(), sp_vol_load(), sp_load_field(), sp_vol_load_field())
    } else {
        (sp_store(), sp_vol_store(), sp_store_field(), sp_vol_store_field())
    };
    match addr {
        ValueView::MmioPtr(r, _) => sp_ind() + (if r.5 { vol_reg_word } else { reg_word }) + r.2 + sp_space()
            + src_text(src, r.7),
        ValueView::MmioPlace(r) => match r.4 {
            None => sp_ind() + (if r.5 { vol_reg_word } else { reg_word }) + r.2 + sp_space() + src_text(src, r.7),
            Some(f) => sp_ind() + (if r.5 { vol_field_word } else { field_word }) + f.3 + sp_space() + src_text(
                src,
                r.7,
            ) + mask_text(f.1, f.2),
        },
        _ => sp_ind() + name,
    }
}

/// The trace head of the load or store `name` on stack `s`.
pub open spec fn load_store_head(src: Seq<u8>, s: Seq<ValueView>, name: Seq<u8>) -> Seq<u8> {
    if name[0] == 64u8 {
        access_head(src, s.last(), name, true)
    } else {
        access_head(src, s[s.len() - 2], name, false)
    }
}

/// The state with a new stack.
pub open spec fn with_stack(st: WordState, s: Seq<ValueView>) -> WordState {
    WordState { stack: s, locals: st.locals, terminated: st.terminated }
}

/// A step that leaves stack `s`, continues at `np` and traces `head`.
pub open spec fn traced(
    r: Result<Seq<ValueView>, TcError>,
    st: WordState,
    np: int,
    head: Seq<u8>,
) -> Result<(int, WordState, Seq<u8>), TcError> {
    match r {
        Err(x) => Err(x),
        Ok(s) => Ok((np, with_stack(st, s), line(head, s))),
    }
}

/// The trace head of a shuffle word.
pub open spec fn shuffle_head(name: Seq<u8>) -> Seq<u8> {
    if name == sp_dup() {
        sp_dup_head()
    } else if name == sp_drop() {
        sp_drop_head()
    } else {
        sp_swap_head()
    }
}

/// The trace head of a control word.
pub open spec fn control_head(name: Seq<u8>) -> Seq<u8> {
    if name == sp_if() {
        sp_if_head()
    } else if name == sp_while() {
        sp_while_head()
    } else if name == sp_loop() {
        sp_loop_head()
    } else {
        sp_lock_head()
    }
}

/// The stack holds exactly the declared outputs' count, each compatible.
pub open spec fn outputs_fit(s: Seq<ValueView>, outs: Seq<Seq<u8>>, subtypes: Seq<SubtypeInfo>) -> bool {
    forall|i: int| 0 <= i < outs.len() ==> spec_type_compatible(value_ty(#[trigger] s[i]), outs[i], subtypes)
}

/// Checking the stack against the declared outputs, with `depth` and
/// `types` the errors for a wrong depth and a wrong type.
pub open spec fn spec_outputs(s: Seq<ValueView>, w: WordCfg, subtypes: Seq<SubtypeInfo>, depth: TcError, types: TcError) -> Result<
    (),
    TcError,
> {
    if s.len() != w.outs.len() {
        Err(depth)
    } else if !outputs_fit(s, w.outs, subtypes) {
        Err(types)
    } else {
        Ok(())
    }
}

/// The declared outputs are checked position by position: the check
/// passes exactly when the stack holds as many values as there are
/// outputs and each value fits the output at its position; a stack of the
/// right depth with a value that does not fit gives `types`.
pub proof fn lemma_outputs_check_every_position(
    s: Seq<ValueView>,
    w: WordCfg,
    subtypes: Seq<SubtypeInfo>,
    depth: TcError,
    types: TcError,
)
    ensures
        spec_outputs(s, w, subtypes, depth, types) is Ok <==> (s.len() == w.outs.len() && forall|i: int|
            0 <= i < w.outs.len() ==> spec_type_compatible(value_ty(s[i]), #[trigger] w.outs[i], subtypes)),
        (s.len() == w.outs.len() && exists|i: int|
            0 <= i < w.outs.len() && !spec_type_compatible(value_ty(s[i]), #[trigger] w.outs[i], subtypes))
            ==> spec_outputs(s, w, subtypes, depth, types) == Err::<(), TcError>(types),
{
    if s.len() == w.outs.len() && forall|i: int|
        0 <= i < w.outs.len() ==> spec_type_compatible(value_ty(s[i]), #[trigger] w.outs[i], subtypes) {
        assert forall|i: int| 0 <= i < w.outs.len() implies spec_type_compatible(value_ty(#[trigger] s[i]), w.outs[i], subtypes) by {
            assert(spec_type_compatible(value_ty(s[i]), w.outs[i], subtypes));
        }
    }
    if spec_outputs(s, w, subtypes, depth, types) is Ok {
        assert forall|i: int| 0 <= i < w.outs.len() implies spec_type_compatible(value_ty(s[i]), #[trigger] w.outs[i], subtypes) by {
            assert(spec_type_compatible(value_ty(s[i]), w.outs[i], subtypes));
        }
    }
    if s.len() == w.outs.len() && exists|i: int|
        0 <= i < w.outs.len() && !spec_type_compatible(value_ty(s[i]), #[trigger] w.outs[i], subtypes) {
        let i = choose|i: int|
            0 <= i < w.outs.len() && !spec_type_compatible(value_ty(s[i]), #[trigger] w.outs[i], subtypes);
        assert(!spec_type_compatible(value_ty(s[i]), w.outs[i], subtypes));
    }
}

/// A bound local (pushed with its type) or a call of a known word.
pub open spec fn spec_word_local_or_call(
    e: BodyEnv,
    w: WordCfg,
    st: WordState,
    name: Seq<u8>,
    nabs: Span,
    np: int,
) -> Result<(int, WordState, Seq<u8>), TcError> {
    let s = st.stack;
    let key = if name.len() <= ATOM_CAP { name } else { Seq::empty() };
    match first_of(local_names(st.locals), key) {
        Some(i) => traced(spec_push(s, ValueView::Plain(st.locals[i].1)), st, np, sp_ind() + name),
        None => match first_of(entry_names(e.env), name) {
            None => Err(TcError::WordNotFound { span: nabs }),
            Some(i) => {
                let wd = e.env[i];
                if wd.spec_may_suspend() && !w.allow {
                    Err(TcError::SuspendingInNonSuspendingContext { span: nabs })
                } else {
                    traced(spec_apply_sig(s, wd, nabs, e.subtypes), st, np, sp_ind() + name)
                }
            },
        },
    }
}

/// A name in a word body once loads, stores, MMIO places, shuffles and
/// casts are ruled out: `if`, `while`, `loop`, `return`, `lock`, a bound
/// local, or a call of a known word.
pub open spec fn spec_word_rest(
    e: BodyEnv,
    fuel: nat,
    w: WordCfg,
    st: WordState,
    name: Seq<u8>,
    nabs: Span,
    np: int,
) -> Result<(int, WordState, Seq<u8>), TcError> {
    let s = st.stack;
    if name == sp_if() || name == sp_while() || name == sp_loop() {
        traced(spec_control(e, fuel, name, s, w.allow), st, np, control_head(name))
    } else if name == sp_return() {
        match spec_outputs(
            s,
            w,
            e.subtypes,
            TcError::ReturnStackDepth { span: w.body },
            TcError::ReturnTypeMismatch { span: w.body },
        ) {
            Err(x) => Err(x),
            Ok(_) => Ok(
                (np, WordState { stack: s, locals: st.locals, terminated: true }, line(sp_return_head(), s)),
            ),
        }
    } else if name == sp_lock() {
        traced(spec_control(e, fuel, name, s, w.allow), st, np, sp_lock_head())
    } else {
        spec_word_local_or_call(e, w, st, name, nabs, np)
    }
}

/// A cast `as T` or `as? T`: the type token follows the word.  `as?`
/// leaves the value as `T` and a success flag; `as` leaves it as `T`,
/// tracing a run-time check of a subtype when all checks are on.  To a
/// subtype, the value must fit the subtype's base.
pub open spec fn spec_word_cast(
    e: BodyEnv,
    w: WordCfg,
    st: WordState,
    name: Seq<u8>,
    ty: Seq<u8>,
    np: int,
) -> Result<(int, WordState, Seq<u8>), TcError> {
    if name == sp_as_checked() {
        spec_word_cast_checked(e, w, st, name, ty, np)
    } else {
        spec_word_cast_plain(e, w, st, ty, np)
    }
}

/// `as? T` (see `spec_word_cast`).
pub open spec fn spec_word_cast_checked(
    e: BodyEnv,
    w: WordCfg,
    st: WordState,
    name: Seq<u8>,
    ty: Seq<u8>,
    np: int,
) -> Result<(int, WordState, Seq<u8>), TcError> {
    let s = st.stack;
    if s.len() == 0 {
        Err(TcError::CastPopValue { span: w.body })
    } else if spec_find_subtype(e.subtypes, ty) matches Some(sub) && !spec_type_compatible(
        value_ty(s.last()),
        sub.base@,
        e.subtypes,
    ) {
        Err(TcError::CheckedCastMismatch { span: w.body })
    } else {
        traced(
            spec_push2(s.drop_last(), ValueView::Plain(ty), ValueView::Plain(sp_bool())),
            st,
            np,
            sp_ind() + name + sp_space() + ty,
        )
    }
}

/// `as T` (see `spec_word_cast`).
pub open spec fn spec_word_cast_plain(e: BodyEnv, w: WordCfg, st: WordState, ty: Seq<u8>, np: int) -> Result<
    (int, WordState, Seq<u8>),
    TcError,
> {
    let s = st.stack;
    let sub = spec_find_subtype(e.subtypes, ty);
    if s.len() == 0 {
        Err(TcError::CastMissingValue { span: w.body })
    } else if sub matches Some(sb) && !spec_type_compatible(value_ty(s.last()), sb.base@, e.subtypes) {
        Err(TcError::CastSubtypeMismatch { span: w.body })
    } else {
        let pre = if sub is Some && w.checks == ChecksMode::All {
            sp_check_subtype() + ty + sp_nl() + sp_trap_line()
        } else {
            Seq::empty()
        };
        match spec_push(s.drop_last(), ValueView::Plain(ty)) {
            Err(x) => Err(x),
            Ok(s2) => Ok((np, with_stack(st, s2), pre + line(sp_as_head() + ty, s2))),
        }
    }
}

/// A name (or comparison operator) in a word body.
#[verifier::opaque]
pub open spec fn spec_word_name(
    e: BodyEnv,
    fuel: nat,
    w: WordCfg,
    st: WordState,
    is_ident: bool,
    name: Seq<u8>,
    nabs: Span,
    qn: int,
) -> Result<(int, WordState, Seq<u8>), TcError> {
    let s = st.stack;
    let hi = e.toks.len() as int;
    if name == sp_true() || name == sp_false() {
        traced(spec_push(s, ValueView::Plain(sp_bool())), st, qn, sp_ind() + name)
    } else if is_ident && is_load_store(name) {
        traced(spec_load_store(s, name, nabs), st, qn, load_store_head(e.src, s, name))
    } else {
        let place = if is_ident { spec_resolve_place(e.mmio, e.src, name, nabs) } else { Ok(None) };
        match place {
            Err(x) => Err(x),
            Ok(Some(r)) => traced(spec_push(s, ValueView::MmioPlace(r)), st, qn, sp_mmio_head() + name),
            Ok(None) => spec_word_after_place(e, fuel, w, st, name, nabs, qn),
        }
    }
}

/// A name in a word body that is no literal, load, store or MMIO place:
/// a shuffle, a cast (reading its type token), or the rest (see
/// `spec_word_rest`).
pub open spec fn spec_word_after_place(
    e: BodyEnv,
    fuel: nat,
    w: WordCfg,
    st: WordState,
    name: Seq<u8>,
    nabs: Span,
    qn: int,
) -> Result<(int, WordState, Seq<u8>), TcError> {
    let s = st.stack;
    let hi = e.toks.len() as int;
    if is_shuffle(name) {
        traced(spec_shuffle(s, name, TcError::StackUnderflow { span: w.body }), st, qn, shuffle_head(name))
    } else if is_cast(name) {
        let t = tk(e.toks, qn, hi);
        if t.kind != TokenKind::Ident {
            Err(TcError::CastParseFailed { span: abs(e, t.span) })
        } else if tok_bytes(e.slice, t).len() > ATOM_CAP {
            Err(TcError::CastTypeInvalid { span: abs(e, t.span) })
        } else if name == sp_bitcast() {
            spec_word_rest(e, fuel, w, st, name, nabs, qn + 1)
        } else {
            spec_word_cast(e, w, st, name, tok_bytes(e.slice, t), qn + 1)
        }
    } else {
        spec_word_rest(e, fuel, w, st, name, nabs, qn)
    }
}

/// Borrowing a place in a word body: as in a nested body, except that a
/// mutable borrow of a bound local is refused.
pub open spec fn spec_word_borrow(
    e: BodyEnv,
    st: WordState,
    bytes: Seq<u8>,
    span: Span,
    root: Seq<u8>,
    root_span: Span,
    mutable: bool,
) -> Result<Seq<ValueView>, TcError> {
    let s = st.stack;
    match spec_resolve_place(e.mmio, e.src, bytes, span) {
        Err(x) => Err(x),
        Ok(Some(r)) => match r.4 {
            None => if mutable && r.3 == crate::mmio::AccessMode::Ro {
                Err(TcError::MmioAccessViolation { span })
            } else {
                spec_push(s, ValueView::MmioPtr(r, mutable))
            },
            Some(_) => Err(TcError::MmioFieldNotAddressable { span }),
        },
        Ok(None) => if mutable && root.len() > ATOM_CAP {
            Err(TcError::Internal { span: root_span })
        } else if mutable && first_of(local_names(st.locals), root) is Some {
            Err(TcError::MutRefToLocal { span: root_span })
        } else {
            spec_push(s, ValueView::Plain(if mutable { sp_ptr_mut() } else { sp_ptr() }))
        },
    }
}

/// `=> name` at token `p`: binds the top value to a new local.
#[verifier::opaque]
pub open spec fn spec_word_bind(e: BodyEnv, w: WordCfg, p: int, st: WordState) -> Result<(int, WordState, Seq<u8>), TcError> {
    let hi = e.toks.len() as int;
    let t = tk(e.toks, p, hi);
    let s = st.stack;
    let nt = tk(e.toks, p + 1, hi);
    let lname = tok_bytes(e.slice, nt);
    if nt.kind != TokenKind::Ident {
        Err(TcError::ExpectedIdent { span: abs(e, nt.span) })
    } else if s.len() == 0 {
        Err(TcError::StackUnderflow { span: abs(e, t.span) })
    } else if s.last() == ValueView::Plain(sp_scoped()) {
        Err(TcError::ScopedLeak { span: w.body })
    } else if lname.len() > ATOM_CAP {
        Err(TcError::TypeParseFailed { span: abs(e, nt.span) })
    } else if first_of(local_names(st.locals), lname) is Some {
        Err(TcError::BindingAlreadyDefined { span: abs(e, nt.span) })
    } else if st.locals.len() >= LOCALS_CAP {
        Err(TcError::BindingCapacityExceeded { span: w.body })
    } else {
        let s2 = s.drop_last();
        Ok(
            (
                p + 2,
                WordState { stack: s2, locals: st.locals.push((lname, value_ty(s.last()))), terminated: st.terminated },
                line(sp_bind_head() + lname, s2),
            ),
        )
    }
}

/// `[ ... ]` at token `p`: pushes the quotation.
#[verifier::opaque]
pub open spec fn spec_word_quote(e: BodyEnv, p: int, st: WordState) -> Result<(int, WordState, Seq<u8>), TcError> {
    let hi = e.toks.len() as int;
    let t = tk(e.toks, p, hi);
    match close_of(e.toks, hi, p + 1, 1, TokenKind::PunctLBracket, TokenKind::PunctRBracket, false) {
        None => Err(TcError::QuoteUnterminated { span: abs(e, t.span) }),
        Some(c) => traced(
            spec_push(st.stack, ValueView::Quot(quote_span(e, p, c), (p + 1) as usize, c as usize)),
            st,
            c + 1,
            sp_quot_head(),
        ),
    }
}

/// `&place` or `&!place` at token `p`.
#[verifier::opaque]
pub open spec fn spec_word_amp(e: BodyEnv, p: int, st: WordState) -> Result<(int, WordState, Seq<u8>), TcError> {
    let hi = e.toks.len() as int;
    let t = tk(e.toks, p, hi);
    let mutable = t.kind == TokenKind::PunctAmpBang;
    match place_of(e.toks, hi, p + 1) {
        None => Err(TcError::PlaceParseFailed { span: abs(e, t.span) }),
        Some((root, full, nx)) => {
            let bytes = e.slice.subrange(full.start as int, full.end as int);
            traced(
                spec_word_borrow(
                    e,
                    st,
                    bytes,
                    abs(e, full),
                    tok_bytes(e.slice, tk(e.toks, p + 1, hi)),
                    abs(e, root),
                    mutable,
                ),
                st,
                nx,
                sp_ind() + (if mutable { sp_amp_bang() } else { sp_amp() }) + bytes,
            )
        },
    }
}

/// `&[ ... ]` or `&![ ... ]` at token `p`: a scoped block over the array
/// or region on top of the stack, which must leave no scope-bound value.
#[verifier::opaque]
pub open spec fn spec_word_scoped(e: BodyEnv, fuel: nat, w: WordCfg, p: int, st: WordState) -> Result<
    (int, WordState, Seq<u8>),
    TcError,
> {
    let hi = e.toks.len() as int;
    let t = tk(e.toks, p, hi);
    let s = st.stack;
    let mutable = t.kind == TokenKind::PunctAmpBangLBracket;
    if s.len() == 0 {
        Err(TcError::EmptyStackForScoped { span: w.body })
    } else if spec_array_elem(value_ty(s.last())) is None && value_ty(s.last()) != sp_region() {
        Err(TcError::ScopedTypeMismatch { span: w.body })
    } else {
        match spec_push(s, ValueView::Plain(sp_scoped())) {
            Err(x) => Err(x),
            Ok(s2) => match close_of(e.toks, hi, p + 1, 1, TokenKind::PunctLBracket, TokenKind::PunctRBracket, true) {
                None => Err(TcError::ScopedBlockUnterminated { span: abs(e, t.span) }),
                Some(c) => match spec_seq(
                    e,
                    fuel,
                    BodyMode::Plain { span: block_span(e, p, c) },
                    c,
                    p + 1,
                    s2,
                    if mutable { false } else { w.allow },
                ) {
                    Err(x) => Err(x),
                    Ok(s3) => if !no_scoped_live(s3) {
                        Err(TcError::ScopedMarkerLeak { span: w.body })
                    } else {
                        Ok(
                            (
                                c + 1,
                                with_stack(st, s3),
                                line(sp_ind() + (if mutable { sp_amp_bang_block() } else { sp_amp_block() }), s3),
                            ),
                        )
                    },
                },
            },
        }
    }
}

/// The token at `p` of a word body (not its end): where checking goes
/// on, the state after it and the trace it adds.
#[verifier::opaque]
pub open spec fn spec_word_step(e: BodyEnv, fuel: nat, w: WordCfg, p: int, st: WordState) -> Result<
    (int, WordState, Seq<u8>),
    TcError,
> {
    let hi = e.toks.len() as int;
    let t = tk(e.toks, p, hi);
    let s = st.stack;
    if t.kind == TokenKind::Number {
        traced(spec_push(s, ValueView::Plain(sp_i64())), st, p + 1, sp_ind() + tok_bytes(e.slice, t))
    } else if t.kind == TokenKind::String {
        traced(spec_push(s, ValueView::Plain(sp_str())), st, p + 1, sp_str_head())
    } else if t.kind == TokenKind::PunctArrowBind {
        spec_word_bind(e, w, p, st)
    } else if t.kind == TokenKind::PunctLBracket {
        spec_word_quote(e, p, st)
    } else if t.kind == TokenKind::PunctAmp || t.kind == TokenKind::PunctAmpBang {
        spec_word_amp(e, p, st)
    } else if t.kind == TokenKind::PunctAmpLBracket || t.kind == TokenKind::PunctAmpBangLBracket {
        spec_word_scoped(e, fuel, w, p, st)
    } else if t.kind == TokenKind::Ident {
        let (name, nspan, qn) = qual_name(e.slice, e.toks, hi, p);
        spec_word_name(e, fuel, w, st, true, name, abs(e, nspan), qn)
    } else if t.kind == TokenKind::PunctGe || t.kind == TokenKind::PunctLe || t.kind == TokenKind::PunctEqEq
        || t.kind == TokenKind::PunctNe {
        spec_word_name(e, fuel, w, st, false, tok_bytes(e.slice, t), abs(e, t.span), p + 1)
    } else {
        Ok((p + 1, st, Seq::empty()))
    }
}

/// Checking a word body from token `p` on: the trace written and the
/// final state, or the first error.  After `return` the remaining tokens
/// are read but not checked.
pub open spec fn spec_word_seq(e: BodyEnv, fuel: nat, w: WordCfg, p: int, st: WordState) -> (
    Seq<u8>,
    Result<WordState, TcError>,
)
    decreases e.toks.len() - p,
{
    let hi = e.toks.len() as int;
    if p < 0 || p >= hi || tk(e.toks, p, hi).kind == TokenKind::Eof {
        (Seq::empty(), Ok(st))
    } else if st.terminated {
        spec_word_seq(e, fuel, w, p + 1, st)
    } else {
        match spec_word_step(e, fuel, w, p, st) {
            Err(x) => (Seq::empty(), Err(x)),
            Ok((np, st2, piece)) => if np <= p || np > hi {
                (piece, Ok(st2))
            } else {
                let (rest, r) = spec_word_seq(e, fuel, w, np, st2);
                (piece + rest, r)
            },
        }
    }
}

/// Checking a word body whose declared inputs are `ins`: the trace and
/// the outcome.  At the end no scope-bound value may be live and the
/// stack must match the declared outputs.
pub open spec fn spec_word_body(e: BodyEnv, fuel: nat, w: WordCfg, ins: Seq<Seq<u8>>) -> (Seq<u8>, Result<(), TcError>) {
    let init = WordState {
        stack: ins.map_values(|t: Seq<u8>| ValueView::Plain(t)),
        locals: Seq::empty(),
        terminated: false,
    };
    let (tr, r) = spec_word_seq(e, fuel, w, 0, init);
    match r {
        Err(x) => (tr, Err(x)),
        Ok(st) => if !no_scoped_live(st.stack) {
            (tr, Err(TcError::ScopedLeak { span: w.body }))
        } else {
            (
                tr,
                spec_outputs(
                    st.stack,
                    w,
                    e.subtypes,
                    TcError::OutputCountMismatch { span: w.body },
                    TcError::OutputTypeMismatch { span: w.body },
                ),
            )
        },
    }
}

/// A word body checks only if the stack its tokens leave holds exactly the
/// declared outputs: as many values as outputs, each fitting the output
/// at its position.
pub proof fn lemma_word_body_ends_with_outputs(e: BodyEnv, fuel: nat, w: WordCfg, ins: Seq<Seq<u8>>)
    requires
        spec_word_body(e, fuel, w, ins).1 is Ok,
    ensures
        ({
            let init = WordState {
                stack: ins.map_values(|t: Seq<u8>| ValueView::Plain(t)),
                locals: Seq::empty(),
                terminated: false,
            };
            let st = spec_word_seq(e, fuel, w, 0, init).1->Ok_0;
            &&& spec_word_seq(e, fuel, w, 0, init).1 is Ok
            &&& st.stack.len() == w.outs.len()
            &&& forall|i: int|
                0 <= i < w.outs.len() ==> spec_type_compatible(value_ty(st.stack[i]), #[trigger] w.outs[i], e.subtypes)
        }),
{
    let init = WordState {
        stack: ins.map_values(|t: Seq<u8>| ValueView::Plain(t)),
        locals: Seq::empty(),
        terminated: false,
    };
    let st = spec_word_seq(e, fuel, w, 0, init).1->Ok_0;
    lemma_outputs_check_every_position(
        st.stack,
        w,
        e.subtypes,
        TcError::OutputCountMismatch { span: w.body },
        TcError::OutputTypeMismatch { span: w.body },
    );
}

// ---------------------------------------------------------------------------
// Executable word checker
// ---------------------------------------------------------------------------

/// The mutable state of a word check.
pub struct WordRun {
    pub stack: Vec<Value>,
    pub locals: [TypeAtom; 64],
    pub local_tys: [TypeAtom; 64],
    pub local_len: usize,
    pub terminated: bool,
}

impl View for WordRun {
    type V = WordState;

    open spec fn view(&self) -> WordState {
        WordState {
            stack: stack_view(self.stack@),
            locals: Seq::new(
                (if self.local_len <= LOCALS_CAP { self.local_len } else { LOCALS_CAP }) as nat,
                |i: int| (self.locals@[i]@, self.local_tys@[i]@),
            ),
            terminated: self.terminated,
        }
    }
}

/// The names bound so far are the first `len` atoms of `locals`.
proof fn lemma_local_names(run: &WordRun)
    requires
        run.local_len <= LOCALS_CAP,
    ensures
        local_names(run@.locals) == atoms_view(run.locals@.subrange(0, run.local_len as int)),
{
    assert(local_names(run@.locals) =~= atoms_view(run.locals@.subrange(0, run.local_len as int)));
}

/// Writes the trace line `head | stack: ...`.
fn write_line<O: Output>(out: &mut O, head: &[u8], stack: &[Value])
    ensures
        final(out).written() == old(out).written() + line(head@, stack_view(stack@)),
{
    let ghost start = out.written();
    out.write(head);
    let sep = lit_stack_sep();
    out.write(&sep);
    write_stack(out, stack);
    let nl = lit_nl();
    out.write(&nl);
    assert(out.written() =~= start + line(head@, stack_view(stack@)));
}

/// The source text a span covers, or nothing when it lies outside.
fn src_text_bytes<'b>(src: &'b [u8], s: Span) -> (r: &'b [u8])
    ensures
        r@ == src_text(src@, s),
{
    if s.start <= s.end && s.end <= src.len() {
        slice_subrange(src, s.start, s.end)
    } else {
        let e: &[u8] = &[];
        assert(e@ =~= Seq::<u8>::empty());
        e
    }
}

/// Appends ` mask=0x.. shift=..` for `field` (see `mask_text`).
fn push_mask_text(v: &mut Vec<u8>, field: &MmioFieldInfo)
    ensures
        final(v)@ == old(v)@ + mask_text(field.lo, field.hi),
{
    if field.lo < 64 {
        let (m, sh) = field_mask_shift(field);
        let a = lit_mask_hex();
        v.write(&a);
        write_u64_hex(v, m);
        let b = lit_shift_eq();
        v.write(&b);
        write_u64_dec(v, sh as u64);
    } else {
        assert(old(v)@ + mask_text(field.lo, field.hi) =~= old(v)@);
    }
}

/// The trace head of an access through `addr` (see `access_head`).
fn access_head_bytes(src: &[u8], addr: &Value, name: &[u8], load: bool) -> (h: Vec<u8>)
    ensures
        h@ == access_head(src@, addr@, name@, load),
{
    let mut h: Vec<u8> = Vec::new();
    let ind = lit_ind();
    h.write(&ind);
    let sp = lit_space();
    match *addr {
        Value::MmioPtr { reg, .. } | Value::MmioPlace(MmioResolved::Reg(reg)) => {
            if reg.volatile {
                if load {
                    h.write(&lit_vol_load());
                } else {
                    h.write(&lit_vol_store());
                }
            } else {
                if load {
                    h.write(&lit_load());
                } else {
                    h.write(&lit_store());
                }
            }
            let t = reg.reg_ty.to_vec();
            h.write(t.as_slice());
            h.write(&sp);
            h.write(src_text_bytes(src, reg.place_span));
        },
        Value::MmioPlace(MmioResolved::Field(f)) => {
            if f.volatile {
                if load {
                    h.write(&lit_vol_load_field());
                } else {
                    h.write(&lit_vol_store_field());
                }
            } else {
                if load {
                    h.write(&lit_load_field());
                } else {
                    h.write(&lit_store_field());
                }
            }
            let t = f.field.ty.to_vec();
            h.write(t.as_slice());
            h.write(&sp);
            h.write(src_text_bytes(src, f.place_span));
            push_mask_text(&mut h, &f.field);
        },
        _ => {
            h.write(name);
        },
    }
    assert(h@ =~= access_head(src@, addr@, name@, load));
    h
}

/// `a` followed by `b`.
fn cat(a: &[u8], b: &[u8]) -> (v: Vec<u8>)
    ensures
        v@ == a@ + b@,
{
    let mut v: Vec<u8> = Vec::new();
    v.write(a);
    v.write(b);
    assert(v@ =~= a@ + b@);
    v
}

/// `r` is the outcome `goal` describes: on success the state ends as
/// `after` and the trace grows from `w0` to `w1` by the step's piece; on
/// failure nothing is written.
pub open spec fn step_outcome(
    r: Result<usize, TcError>,
    goal: Result<(int, WordState, Seq<u8>), TcError>,
    after: WordState,
    w0: Seq<u8>,
    w1: Seq<u8>,
) -> bool {
    match r {
        Ok(np) => goal matches Ok((gp, gs, piece)) && gp == np && gs == after && w1 == w0 + piece,
        Err(x) => goal == Err::<(int, WordState, Seq<u8>), TcError>(x) && w1 == w0,
    }
}

/// Every quotation on a word's stack lies within its tokens.
pub open spec fn run_ok(run: &WordRun, n: nat) -> bool {
    &&& run.local_len <= LOCALS_CAP
    &&& quots_within(stack_view(run.stack@), n)
}

impl<'a> Checker<'a> {
    /// The word-check settings as values.
    pub open spec fn wcfg(&self, declared: &WordSig, checks: ChecksMode, allow: bool) -> WordCfg {
        WordCfg { outs: declared.outs(), checks, allow, body: self.body }
    }

    /// Whether the stack matches the declared outputs, failing with
    /// `depth` or `types` (see `spec_outputs`).
    fn check_outputs(&self, stack: &Vec<Value>, declared: &WordSig, depth: TcError, types: TcError) -> (r: Result<(), TcError>)
        ensures
            r == spec_outputs(stack_view(stack@), self.wcfg(declared, ChecksMode::Off, false), self.subtypes@, depth, types),
    {
        let want = declared.out_len();
        if stack.len() != want {
            return Err(depth);
        }
        let mut i: usize = 0;
        while i < want
            invariant
                i <= want,
                want == declared.outputs@.len(),
                stack@.len() == want,
                forall|j: int| 0 <= j < i ==> spec_type_compatible(value_ty(#[trigger] stack_view(stack@)[j]), declared.outs()[j], self.subtypes@),
            decreases want - i,
        {
            let got = value_type(&stack[i]);
            assert(stack_view(stack@)[i as int] == stack@[i as int]@);
            assert(declared.outs()[i as int] == declared.outputs@[i as int]@);
            if !type_compatible(got, declared.outputs[i], self.subtypes) {
                return Err(types);
            }
            i += 1;
        }
        Ok(())
    }

    /// The rest of a name's handling in a word body (see `spec_word_rest`).
    #[verifier::rlimit(60)]
    fn word_rest<O: Output>(
        &self,
        out: &mut O,
        fuel: u32,
        declared: &WordSig,
        checks: ChecksMode,
        allow: bool,
        run: &mut WordRun,
        name: &[u8],
        nabs: Span,
        np: usize,
    ) -> (r: Result<usize, TcError>)
        requires
            self.wf(),
            run_ok(old(run), self.toks@.len()),
        ensures
            step_outcome(
                r,
                spec_word_rest(self.benv(), fuel as nat, self.wcfg(declared, checks, allow), old(run)@, name@, nabs, np as int),
                final(run)@,
                old(out).written(),
                final(out).written(),
            ),
            r matches Ok(x) ==> x == np,
            r is Ok ==> run_ok(final(run), self.toks@.len()),
            final(run).local_len == old(run).local_len,
    {
        let ghost st = run@;
        let ghost e = self.benv();
        let ghost n = self.toks@.len();
        if bytes_eq(name, &lit_if()) || bytes_eq(name, &lit_while()) || bytes_eq(name, &lit_loop()) {
            self.control(fuel, name, &mut run.stack, allow)?;
            if bytes_eq(name, &lit_if()) {
                write_line(out, &lit_if_head(), run.stack.as_slice());
            } else if bytes_eq(name, &lit_while()) {
                write_line(out, &lit_while_head(), run.stack.as_slice());
            } else {
                write_line(out, &lit_loop_head(), run.stack.as_slice());
            }
            assert(run@ =~= with_stack(st, stack_view(run.stack@)));
            return Ok(np);
        }
        if bytes_eq(name, &lit_return()) {
            self.check_outputs(&run.stack, declared, TcError::ReturnStackDepth { span: self.body }, TcError::ReturnTypeMismatch { span: self.body })?;
            run.terminated = true;
            let head = lit_return_head();
            write_line(out, &head, run.stack.as_slice());
            assert(run@ =~= (WordState { stack: st.stack, locals: st.locals, terminated: true }));
            return Ok(np);
        }
        if bytes_eq(name, &lit_lock()) {
            self.control(fuel, name, &mut run.stack, allow)?;
            let head = lit_lock_head();
            write_line(out, &head, run.stack.as_slice());
            assert(run@ =~= with_stack(st, stack_view(run.stack@)));
            return Ok(np);
        }
        self.word_local_or_call(out, declared, checks, allow, run, name, nabs, np)
    }

    /// A bound local or a call in a word body (see `spec_word_local_or_call`).
    #[verifier::rlimit(50)]
    fn word_local_or_call<O: Output>(
        &self,
        out: &mut O,
        declared: &WordSig,
        checks: ChecksMode,
        allow: bool,
        run: &mut WordRun,
        name: &[u8],
        nabs: Span,
        np: usize,
    ) -> (r: Result<usize, TcError>)
        requires
            self.wf(),
            run_ok(old(run), self.toks@.len()),
        ensures
            step_outcome(
                r,
                spec_word_local_or_call(self.benv(), self.wcfg(declared, checks, allow), old(run)@, name@, nabs, np as int),
                final(run)@,
                old(out).written(),
                final(out).written(),
            ),
            r matches Ok(x) ==> x == np,
            r is Ok ==> run_ok(final(run), self.toks@.len()),
            final(run).local_len == old(run).local_len,
    {
        let ghost st = run@;
        let ghost e = self.benv();
        let ghost n = self.toks@.len();
        let empty: [u8; 0] = [];
        let key = if name.len() <= ATOM_CAP {
            TypeAtom::new(name).unwrap()
        } else {
            TypeAtom::new(&empty).unwrap()
        };
        assert(key@ == (if name@.len() <= ATOM_CAP { name@ } else { Seq::<u8>::empty() }));
        proof {
            lemma_local_names(run);
        }
        match find_local(&run.locals, run.local_len, key) {
            Some(i) => {
                let t = run.local_tys[i];
                assert(st.locals[i as int].1 == t@);
                push_value(&mut run.stack, Value::Plain(t))?;
                proof {
                    lemma_quots_push(st.stack, ValueView::Plain(t@), n);
                }
                let head = cat(&lit_ind(), name);
                write_line(out, head.as_slice(), run.stack.as_slice());
                assert(run@ =~= with_stack(st, stack_view(run.stack@)));
                Ok(np)
            },
            None => {
                let w = match lookup(self.env, name) {
                    None => return Err(TcError::WordNotFound { span: nabs }),
                    Some(w) => w,
                };
                if w.may_suspend() && !allow {
                    return Err(TcError::SuspendingInNonSuspendingContext { span: nabs });
                }
                apply_sig(&mut run.stack, w, nabs, self.subtypes)?;
                proof {
                    lemma_apply_sig_quots(st.stack, *w, nabs, e.subtypes, n);
                }
                let head = cat(&lit_ind(), name);
                write_line(out, head.as_slice(), run.stack.as_slice());
                assert(run@ =~= with_stack(st, stack_view(run.stack@)));
                Ok(np)
            },
        }
    }
}

impl<'a> Checker<'a> {
    /// `as? T` in a word body (see `spec_word_cast_checked`).
    fn word_cast_checked<O: Output>(
        &self,
        out: &mut O,
        declared: &WordSig,
        checks: ChecksMode,
        allow: bool,
        run: &mut WordRun,
        name: &[u8],
        ty: TypeAtom,
        np: usize,
    ) -> (r: Result<usize, TcError>)
        requires
            self.wf(),
            run_ok(old(run), self.toks@.len()),
        ensures
            step_outcome(
                r,
                spec_word_cast_checked(self.benv(), self.wcfg(declared, checks, allow), old(run)@, name@, ty@, np as int),
                final(run)@,
                old(out).written(),
                final(out).written(),
            ),
            r matches Ok(x) ==> x == np,
            r is Ok ==> run_ok(final(run), self.toks@.len()),
            final(run).local_len == old(run).local_len,
    {
        let ghost st = run@;
        let ghost n = self.toks@.len();
        let len = run.stack.len();
        if len == 0 {
            return Err(TcError::CastPopValue { span: self.body });
        }
        let got = value_type(&run.stack[len - 1]);
        assert(st.stack.last() == run.stack@[len - 1]@);
        if let Some(sb) = find_subtype(self.subtypes, ty) {
            if !type_compatible(got, sb.base, self.subtypes) {
                return Err(TcError::CheckedCastMismatch { span: self.body });
            }
        }
        run.stack.pop();
        proof {
            crate::stackcheck::lemma_quots_prefix(st.stack, len - 1, n);
            assert(stack_view(run.stack@) =~= st.stack.drop_last());
        }
        let ghost s1 = stack_view(run.stack@);
        push_value(&mut run.stack, Value::Plain(ty))?;
        let b = TypeAtom::new(&lit_bool()).unwrap();
        push_value(&mut run.stack, Value::Plain(b))?;
        proof {
            lemma_quots_push(s1, ValueView::Plain(ty@), n);
            lemma_quots_push(s1.push(ValueView::Plain(ty@)), ValueView::Plain(b@), n);
        }
        let mut head = cat(&lit_ind(), name);
        head.write(&lit_space());
        let tb = ty.to_vec();
        head.write(tb.as_slice());
        write_line(out, head.as_slice(), run.stack.as_slice());
        assert(run@ =~= with_stack(st, stack_view(run.stack@)));
        Ok(np)
    }

    /// `as T` in a word body (see `spec_word_cast_plain`).
    fn word_cast_plain<O: Output>(
        &self,
        out: &mut O,
        declared: &WordSig,
        checks: ChecksMode,
        allow: bool,
        run: &mut WordRun,
        ty: TypeAtom,
        np: usize,
    ) -> (r: Result<usize, TcError>)
        requires
            self.wf(),
            run_ok(old(run), self.toks@.len()),
        ensures
            step_outcome(
                r,
                spec_word_cast_plain(self.benv(), self.wcfg(declared, checks, allow), old(run)@, ty@, np as int),
                final(run)@,
                old(out).written(),
                final(out).written(),
            ),
            r matches Ok(x) ==> x == np,
            r is Ok ==> run_ok(final(run), self.toks@.len()),
            final(run).local_len == old(run).local_len,
    {
        let ghost st = run@;
        let ghost n = self.toks@.len();
        let len = run.stack.len();
        if len == 0 {
            return Err(TcError::CastMissingValue { span: self.body });
        }
        let got = value_type(&run.stack[len - 1]);
        assert(st.stack.last() == run.stack@[len - 1]@);
        let sub = find_subtype(self.subtypes, ty);
        if let Some(sb) = sub {
            if !type_compatible(got, sb.base, self.subtypes) {
                return Err(TcError::CastSubtypeMismatch { span: self.body });
            }
        }
        run.stack.pop();
        proof {
            crate::stackcheck::lemma_quots_prefix(st.stack, len - 1, n);
            assert(stack_view(run.stack@) =~= st.stack.drop_last());
        }
        let ghost s1 = stack_view(run.stack@);
        push_value(&mut run.stack, Value::Plain(ty))?;
        proof {
            lemma_quots_push(s1, ValueView::Plain(ty@), n);
        }
        let ghost w0 = out.written();
        let tb = ty.to_vec();
        let mut pre: Vec<u8> = Vec::new();
        if sub.is_some() && checks == ChecksMode::All {
            pre.write(&lit_check_subtype());
            pre.write(tb.as_slice());
            pre.write(&lit_nl());
            pre.write(&lit_trap_line());
        }
        let ghost spre = if spec_find_subtype(self.subtypes@, ty@) is Some && checks == ChecksMode::All {
            sp_check_subtype() + ty@ + sp_nl() + sp_trap_line()
        } else {
            Seq::<u8>::empty()
        };
        assert(pre@ =~= spre);
        out.write(pre.as_slice());
        let head = cat(&lit_as_head(), tb.as_slice());
        write_line(out, head.as_slice(), run.stack.as_slice());
        assert(run@ =~= with_stack(st, stack_view(run.stack@)));
        assert(out.written() =~= w0 + (spre + line(sp_as_head() + ty@, stack_view(run.stack@))));
        Ok(np)
    }
}

impl<'a> Checker<'a> {
    /// A name in a word body (see `spec_word_name`).
    fn word_name<O: Output>(
        &self,
        out: &mut O,
        fuel: u32,
        declared: &WordSig,
        checks: ChecksMode,
        allow: bool,
        run: &mut WordRun,
        is_ident: bool,
        name: &[u8],
        nabs: Span,
        qn: usize,
    ) -> (r: Result<usize, TcError>)
        requires
            self.wf(),
            run_ok(old(run), self.toks@.len()),
            qn <= self.toks@.len(),
        ensures
            step_outcome(
                r,
                spec_word_name(
                    self.benv(),
                    fuel as nat,
                    self.wcfg(declared, checks, allow),
                    old(run)@,
                    is_ident,
                    name@,
                    nabs,
                    qn as int,
                ),
                final(run)@,
                old(out).written(),
                final(out).written(),
            ),
            r matches Ok(x) ==> x == qn || (x == qn + 1 && qn < self.toks@.len()),
            r is Ok ==> run_ok(final(run), self.toks@.len()),
            final(run).local_len == old(run).local_len,
    {
        reveal(spec_word_name);
        let ghost st = run@;
        let ghost e = self.benv();
        let ghost n = self.toks@.len();
        if bytes_eq(name, &lit_true()) || bytes_eq(name, &lit_false()) {
            let b = TypeAtom::new(&lit_bool()).unwrap();
            push_value(&mut run.stack, Value::Plain(b))?;
            proof {
                lemma_quots_push(st.stack, ValueView::Plain(b@), n);
            }
            let head = cat(&lit_ind(), name);
            write_line(out, head.as_slice(), run.stack.as_slice());
            assert(run@ =~= with_stack(st, stack_view(run.stack@)));
            return Ok(qn);
        }
        if is_ident && name.len() > 0 && (name[0] == 64u8 || name[0] == 33u8) {
            let len = run.stack.len();
            let load = name[0] == 64u8;
            let addr: Option<Value> = if load {
                if len >= 1 {
                    Some(run.stack[len - 1])
                } else {
                    None
                }
            } else {
                if len >= 2 {
                    Some(run.stack[len - 2])
                } else {
                    None
                }
            };
            load_store(&mut run.stack, name, nabs)?;
            proof {
                crate::stackcheck::lemma_load_store_quots(st.stack, name@, nabs, n);
            }
            let a = addr.unwrap();
            proof {
                if load {
                    assert(st.stack.last() == a@);
                } else {
                    assert(st.stack[st.stack.len() - 2] == a@);
                }
            }
            let head = access_head_bytes(self.src, &a, name, load);
            write_line(out, head.as_slice(), run.stack.as_slice());
            assert(run@ =~= with_stack(st, stack_view(run.stack@)));
            return Ok(qn);
        }
        let place = if is_ident {
            resolve_mmio_place(self.mmio, self.src, name, nabs)
        } else {
            Ok(None)
        };
        match place {
            Err(x) => Err(x),
            Ok(Some(res)) => {
                push_value(&mut run.stack, Value::MmioPlace(res))?;
                proof {
                    lemma_quots_push(st.stack, ValueView::MmioPlace(res@), n);
                }
                let head = cat(&lit_mmio_head(), name);
                write_line(out, head.as_slice(), run.stack.as_slice());
                assert(run@ =~= with_stack(st, stack_view(run.stack@)));
                Ok(qn)
            },
            Ok(None) => self.word_after_place(out, fuel, declared, checks, allow, run, name, nabs, qn),
        }
    }

    /// A name that is no literal, load, store or MMIO place (see
    /// `spec_word_after_place`).
    fn word_after_place<O: Output>(
        &self,
        out: &mut O,
        fuel: u32,
        declared: &WordSig,
        checks: ChecksMode,
        allow: bool,
        run: &mut WordRun,
        name: &[u8],
        nabs: Span,
        qn: usize,
    ) -> (r: Result<usize, TcError>)
        requires
            self.wf(),
            run_ok(old(run), self.toks@.len()),
            qn <= self.toks@.len(),
        ensures
            step_outcome(
                r,
                spec_word_after_place(
                    self.benv(),
                    fuel as nat,
                    self.wcfg(declared, checks, allow),
                    old(run)@,
                    name@,
                    nabs,
                    qn as int,
                ),
                final(run)@,
                old(out).written(),
                final(out).written(),
            ),
            r matches Ok(x) ==> x == qn || (x == qn + 1 && qn < self.toks@.len()),
            r is Ok ==> run_ok(final(run), self.toks@.len()),
            final(run).local_len == old(run).local_len,
    {
        let ghost st = run@;
        let ghost e = self.benv();
        let ghost n = self.toks@.len();
        if bytes_eq(name, &lit_dup()) || bytes_eq(name, &lit_drop()) || bytes_eq(name, &lit_swap()) {
            shuffle(&mut run.stack, name, TcError::StackUnderflow { span: self.body })?;
            proof {
                crate::stackcheck::lemma_shuffle_quots(st.stack, name@, TcError::StackUnderflow { span: self.body }, n);
            }
            if bytes_eq(name, &lit_dup()) {
                write_line(out, &lit_dup_head(), run.stack.as_slice());
            } else if bytes_eq(name, &lit_drop()) {
                write_line(out, &lit_drop_head(), run.stack.as_slice());
            } else {
                write_line(out, &lit_swap_head(), run.stack.as_slice());
            }
            assert(run@ =~= with_stack(st, stack_view(run.stack@)));
            return Ok(qn);
        }
        if bytes_eq(name, &lit_as()) || bytes_eq(name, &lit_as_checked()) || bytes_eq(name, &lit_bitcast()) {
            let hi = self.toks.len();
            let t = token_in(self.toks, qn, hi);
            proof {
                crate::names::lemma_tk_within(self.toks@, e.slice.len(), qn as int, hi as int);
            }
            if t.kind != TokenKind::Ident {
                return Err(TcError::CastParseFailed { span: self.abs_span(t.span) });
            }
            let slice = self.body_slice();
            let tb = token_bytes(slice, t);
            if tb.len() > ATOM_CAP {
                return Err(TcError::CastTypeInvalid { span: self.abs_span(t.span) });
            }
            if bytes_eq(name, &lit_bitcast()) {
                return self.word_rest(out, fuel, declared, checks, allow, run, name, nabs, qn + 1);
            }
            let ty = TypeAtom::new(tb).unwrap();
            if bytes_eq(name, &lit_as_checked()) {
                return self.word_cast_checked(out, declared, checks, allow, run, name, ty, qn + 1);
            }
            return self.word_cast_plain(out, declared, checks, allow, run, ty, qn + 1);
        }
        self.word_rest(out, fuel, declared, checks, allow, run, name, nabs, qn)
    }
}

impl<'a> Checker<'a> {
    /// `=> name` at token `p` (see `spec_word_step`).
    fn word_bind<O: Output>(&self, out: &mut O, declared: &WordSig, checks: ChecksMode, allow: bool, run: &mut WordRun, p: usize) -> (r: Result<
        usize,
        TcError,
    >)
        requires
            self.wf(),
            run_ok(old(run), self.toks@.len()),
            p < self.toks@.len(),
        ensures
            step_outcome(
                r,
                spec_word_bind(self.benv(), self.wcfg(declared, checks, allow), p as int, old(run)@),
                final(run)@,
                old(out).written(),
                final(out).written(),
            ),
            advances(r, p as int, self.toks@.len() as int),
            r is Ok ==> run_ok(final(run), self.toks@.len()),
    {
        reveal(spec_word_bind);
        let ghost st = run@;
        let ghost e = self.benv();
        let ghost n = self.toks@.len();
        let hi = self.toks.len();
        let t = token_in(self.toks, p, hi);
        let nt = token_in(self.toks, p + 1, hi);
        let slice = self.body_slice();
        proof {
            crate::names::lemma_tk_within(self.toks@, e.slice.len(), p as int, hi as int);
            crate::names::lemma_tk_within(self.toks@, e.slice.len(), p + 1, hi as int);
        }
        if nt.kind != TokenKind::Ident {
            return Err(TcError::ExpectedIdent { span: self.abs_span(nt.span) });
        }
        let len = run.stack.len();
        if len == 0 {
            return Err(TcError::StackUnderflow { span: self.abs_span(t.span) });
        }
        let v = run.stack[len - 1];
        assert(st.stack.last() == v@);
        let marker = TypeAtom::new(&lit_scoped()).unwrap();
        if value_eq(&v, &Value::Plain(marker)) {
            return Err(TcError::ScopedLeak { span: self.body });
        }
        let lb = token_bytes(slice, nt);
        if lb.len() > ATOM_CAP {
            return Err(TcError::TypeParseFailed { span: self.abs_span(nt.span) });
        }
        let lname = TypeAtom::new(lb).unwrap();
        proof {
            lemma_local_names(run);
        }
        if find_local(&run.locals, run.local_len, lname).is_some() {
            return Err(TcError::BindingAlreadyDefined { span: self.abs_span(nt.span) });
        }
        if run.local_len >= LOCALS_CAP {
            return Err(TcError::BindingCapacityExceeded { span: self.body });
        }
        let ty = value_type(&v);
        let k = run.local_len;
        run.locals[k] = lname;
        run.local_tys[k] = ty;
        run.local_len = k + 1;
        run.stack.pop();
        proof {
            crate::stackcheck::lemma_quots_prefix(st.stack, len - 1, n);
            assert(stack_view(run.stack@) =~= st.stack.drop_last());
            assert(run@.locals =~= st.locals.push((lb@, value_ty(v@))));
        }
        let head = cat(&lit_bind_head(), lb);
        write_line(out, head.as_slice(), run.stack.as_slice());
        assert(run@ =~= (WordState {
            stack: st.stack.drop_last(),
            locals: st.locals.push((lb@, value_ty(st.stack.last()))),
            terminated: st.terminated,
        }));
        Ok(p + 2)
    }
}

impl<'a> Checker<'a> {
    /// `&place` / `&!place` at token `p` (see `spec_word_step`).
    #[verifier::rlimit(50)]
    fn word_borrow<O: Output>(&self, out: &mut O, run: &mut WordRun, p: usize) -> (r: Result<
        usize,
        TcError,
    >)
        requires
            self.wf(),
            run_ok(old(run), self.toks@.len()),
            p < self.toks@.len(),
        ensures
            step_outcome(
                r,
                spec_word_amp(self.benv(), p as int, old(run)@),
                final(run)@,
                old(out).written(),
                final(out).written(),
            ),
            advances(r, p as int, self.toks@.len() as int),
            r is Ok ==> run_ok(final(run), self.toks@.len()),
    {
        reveal(spec_word_amp);
        let ghost st = run@;
        let ghost e = self.benv();
        let ghost n = self.toks@.len();
        let hi = self.toks.len();
        let t = token_in(self.toks, p, hi);
        let slice = self.body_slice();
        proof {
            crate::names::lemma_tk_within(self.toks@, e.slice.len(), p as int, hi as int);
        }
        let mutable = t.kind == TokenKind::PunctAmpBang;
        if p + 1 >= hi {
            return Err(TcError::PlaceParseFailed { span: self.abs_span(t.span) });
        }
        let (root, full, nx) = match parse_place(self.toks, hi, p + 1, slice.len()) {
            None => return Err(TcError::PlaceParseFailed { span: self.abs_span(t.span) }),
            Some(x) => x,
        };
        let rt = token_in(self.toks, p + 1, hi);
        proof {
            crate::names::lemma_tk_within(self.toks@, e.slice.len(), p + 1, hi as int);
        }
        let bytes = slice_subrange(slice, full.start, full.end);
        let fabs = self.abs_span(full);
        let rb = token_bytes(slice, rt);
        let rabs = self.abs_span(rt.span);
        proof {
            assert(root == rt.span);
        }
        self.word_borrow_value(run, bytes, fabs, rb, rabs, mutable)?;
        let ab = lit_amp_bang();
        let a1 = lit_amp();
        let mut head = if mutable {
            cat(&lit_ind(), &ab)
        } else {
            cat(&lit_ind(), &a1)
        };
        head.write(bytes);
        write_line(out, head.as_slice(), run.stack.as_slice());
        assert(run@ =~= with_stack(st, stack_view(run.stack@)));
        Ok(nx)
    }
}

impl<'a> Checker<'a> {
    /// The stack effect of a borrow in a word body (see `spec_word_borrow`).
    fn word_borrow_value(
        &self,
        run: &mut WordRun,
        bytes: &[u8],
        span: Span,
        root: &[u8],
        root_span: Span,
        mutable: bool,
    ) -> (r: Result<(), TcError>)
        requires
            self.wf(),
            run_ok(old(run), self.toks@.len()),
        ensures
            outcome(
                r,
                spec_word_borrow(self.benv(), old(run)@, bytes@, span, root@, root_span, mutable),
                stack_view(final(run).stack@),
            ),
            r is Ok ==> run_ok(final(run), self.toks@.len()),
            final(run).local_len == old(run).local_len,
            final(run).locals == old(run).locals,
            final(run).local_tys == old(run).local_tys,
            final(run).terminated == old(run).terminated,
    {
        let ghost st = run@;
        let ghost n = self.toks@.len();
        match resolve_mmio_place(self.mmio, self.src, bytes, span) {
            Err(x) => Err(x),
            Ok(Some(MmioResolved::Reg(reg))) => {
                if mutable && !access_can_write(reg.access) {
                    return Err(TcError::MmioAccessViolation { span });
                }
                push_value(&mut run.stack, Value::MmioPtr { reg, mutable })?;
                proof {
                    lemma_quots_push(st.stack, ValueView::MmioPtr(MmioResolved::Reg(reg)@, mutable), n);
                }
                Ok(())
            },
            Ok(Some(MmioResolved::Field(_))) => Err(TcError::MmioFieldNotAddressable { span }),
            Ok(None) => {
                if mutable {
                    let ra = match TypeAtom::new(root) {
                        Some(a) => a,
                        None => return Err(TcError::Internal { span: root_span }),
                    };
                    proof {
                        lemma_local_names(run);
                    }
                    if find_local(&run.locals, run.local_len, ra).is_some() {
                        return Err(TcError::MutRefToLocal { span: root_span });
                    }
                }
                let ty = if mutable {
                    TypeAtom::new(&lit_ptr_mut()).unwrap()
                } else {
                    TypeAtom::new(&lit_ptr()).unwrap()
                };
                push_value(&mut run.stack, Value::Plain(ty))?;
                proof {
                    lemma_quots_push(st.stack, ValueView::Plain(ty@), n);
                }
                Ok(())
            },
        }
    }
}

impl<'a> Checker<'a> {
    /// `[ ... ]` at token `p` (see `spec_word_quote`).
    fn word_quote<O: Output>(&self, out: &mut O, run: &mut WordRun, p: usize) -> (r: Result<usize, TcError>)
        requires
            self.wf(),
            run_ok(old(run), self.toks@.len()),
            p < self.toks@.len(),
        ensures
            step_outcome(r, spec_word_quote(self.benv(), p as int, old(run)@), final(run)@, old(out).written(), final(out).written()),
            advances(r, p as int, self.toks@.len() as int),
            r is Ok ==> run_ok(final(run), self.toks@.len()),
    {
        reveal(spec_word_quote);
        let ghost st = run@;
        let ghost e = self.benv();
        let ghost n = self.toks@.len();
        let hi = self.toks.len();
        let t = token_in(self.toks, p, hi);
        proof {
            crate::names::lemma_tk_within(self.toks@, e.slice.len(), p as int, hi as int);
        }
        let c = match capture_balanced(self.toks, hi, p, TokenKind::PunctLBracket, TokenKind::PunctRBracket) {
            None => return Err(TcError::QuoteUnterminated { span: self.abs_span(t.span) }),
            Some(c) => c,
        };
        proof {
            lemma_close_of_bounds(e.toks, hi as int, p + 1, 1, TokenKind::PunctLBracket, TokenKind::PunctRBracket, false);
        }
        let close = token_in(self.toks, c, hi);
        proof {
            crate::names::lemma_tk_within(self.toks@, e.slice.len(), c as int, hi as int);
            assert(tk(e.toks, p as int, c + 1) == t);
            assert(tk(e.toks, c as int, c + 1) == close);
        }
        let qspan = Span::new(self.body.start + t.span.start, self.body.start + close.span.end);
        let q = Value::Quot { span: qspan, first: p + 1, close: c };
        push_value(&mut run.stack, q)?;
        proof {
            lemma_quots_push(st.stack, q@, n);
        }
        write_line(out, &lit_quot_head(), run.stack.as_slice());
        assert(run@ =~= with_stack(st, stack_view(run.stack@)));
        Ok(c + 1)
    }

    /// `&[ ... ]` or `&![ ... ]` at token `p` (see `spec_word_scoped`).
    #[verifier::rlimit(50)]
    fn word_scoped<O: Output>(
        &self,
        out: &mut O,
        fuel: u32,
        declared: &WordSig,
        checks: ChecksMode,
        allow: bool,
        run: &mut WordRun,
        p: usize,
    ) -> (r: Result<usize, TcError>)
        requires
            self.wf(),
            run_ok(old(run), self.toks@.len()),
            p < self.toks@.len(),
        ensures
            step_outcome(
                r,
                spec_word_scoped(self.benv(), fuel as nat, self.wcfg(declared, checks, allow), p as int, old(run)@),
                final(run)@,
                old(out).written(),
                final(out).written(),
            ),
            advances(r, p as int, self.toks@.len() as int),
            r is Ok ==> run_ok(final(run), self.toks@.len()),
    {
        reveal(spec_word_scoped);
        let ghost st = run@;
        let ghost e = self.benv();
        let ghost n = self.toks@.len();
        let hi = self.toks.len();
        let t = token_in(self.toks, p, hi);
        proof {
            crate::names::lemma_tk_within(self.toks@, e.slice.len(), p as int, hi as int);
        }
        let mutable = t.kind == TokenKind::PunctAmpBangLBracket;
        let len = run.stack.len();
        if len == 0 {
            return Err(TcError::EmptyStackForScoped { span: self.body });
        }
        let top_ty = value_type(&run.stack[len - 1]);
        assert(st.stack.last() == run.stack@[len - 1]@);
        let region = TypeAtom::new(&lit_region()).unwrap();
        if array_elem_type(top_ty).is_none() && !top_ty.same(&region) {
            return Err(TcError::ScopedTypeMismatch { span: self.body });
        }
        let marker = TypeAtom::new(&lit_scoped()).unwrap();
        push_value(&mut run.stack, Value::Plain(marker))?;
        proof {
            lemma_quots_push(st.stack, ValueView::Plain(marker@), n);
        }
        let c = match capture_scoped_block(self.toks, hi, p) {
            None => return Err(TcError::ScopedBlockUnterminated { span: self.abs_span(t.span) }),
            Some(c) => c,
        };
        proof {
            lemma_close_of_bounds(e.toks, hi as int, p + 1, 1, TokenKind::PunctLBracket, TokenKind::PunctRBracket, true);
        }
        let close = token_in(self.toks, c, hi);
        proof {
            crate::names::lemma_tk_within(self.toks@, e.slice.len(), c as int, hi as int);
            assert(tk(e.toks, p as int, c + 1) == t);
            assert(tk(e.toks, c as int, c + 1) == close);
        }
        let bspan = Span::new(self.body.start + t.span.end, self.body.start + close.span.start);
        let inner_allow = if mutable { false } else { allow };
        self.check_seq(fuel, BodyMode::Plain { span: bspan }, c, p + 1, &mut run.stack, inner_allow)?;
        if !check_no_scoped_live(run.stack.as_slice()) {
            return Err(TcError::ScopedMarkerLeak { span: self.body });
        }
        let head = if mutable {
            cat(&lit_ind(), &lit_amp_bang_block())
        } else {
            cat(&lit_ind(), &lit_amp_block())
        };
        write_line(out, head.as_slice(), run.stack.as_slice());
        assert(run@ =~= with_stack(st, stack_view(run.stack@)));
        Ok(c + 1)
    }
}

/// A step that succeeds continues at a later token, no further than the end.
pub open spec fn advances(r: Result<usize, TcError>, p: int, hi: int) -> bool {
    r matches Ok(np) ==> p < np <= hi
}

impl<'a> Checker<'a> {
    /// The token at `p` of a word body (see `spec_word_step`).
    #[verifier::rlimit(60)]
    fn word_step<O: Output>(
        &self,
        out: &mut O,
        fuel: u32,
        declared: &WordSig,
        checks: ChecksMode,
        allow: bool,
        run: &mut WordRun,
        p: usize,
    ) -> (r: Result<usize, TcError>)
        requires
            self.wf(),
            run_ok(old(run), self.toks@.len()),
            p < self.toks@.len(),
            self.toks@[p as int].kind != TokenKind::Eof,
            self.toks@.last().kind == TokenKind::Eof,
        ensures
            step_outcome(
                r,
                spec_word_step(self.benv(), fuel as nat, self.wcfg(declared, checks, allow), p as int, old(run)@),
                final(run)@,
                old(out).written(),
                final(out).written(),
            ),
            r is Ok ==> run_ok(final(run), self.toks@.len()),
            advances(r, p as int, self.toks@.len() as int),
    {
        reveal(spec_word_step);
        let ghost st = run@;
        let ghost e = self.benv();
        let ghost n = self.toks@.len();
        let hi = self.toks.len();
        let t = token_in(self.toks, p, hi);
        let slice = self.body_slice();
        proof {
            crate::names::lemma_tk_within(self.toks@, e.slice.len(), p as int, hi as int);
        }
        if t.kind == TokenKind::Number {
            let a = TypeAtom::new(&lit_i64()).unwrap();
            push_value(&mut run.stack, Value::Plain(a))?;
            proof {
                lemma_quots_push(st.stack, ValueView::Plain(a@), n);
            }
            let head = cat(&lit_ind(), token_bytes(slice, t));
            write_line(out, head.as_slice(), run.stack.as_slice());
            assert(run@ =~= with_stack(st, stack_view(run.stack@)));
            return Ok(p + 1);
        }
        if t.kind == TokenKind::String {
            let a = TypeAtom::new(&lit_str()).unwrap();
            push_value(&mut run.stack, Value::Plain(a))?;
            proof {
                lemma_quots_push(st.stack, ValueView::Plain(a@), n);
            }
            write_line(out, &lit_str_head(), run.stack.as_slice());
            assert(run@ =~= with_stack(st, stack_view(run.stack@)));
            return Ok(p + 1);
        }
        if t.kind == TokenKind::PunctArrowBind {
            return self.word_bind(out, declared, checks, allow, run, p);
        }
        if t.kind == TokenKind::PunctLBracket {
            return self.word_quote(out, run, p);
        }
        if t.kind == TokenKind::PunctAmp || t.kind == TokenKind::PunctAmpBang {
            return self.word_borrow(out, run, p);
        }
        if t.kind == TokenKind::PunctAmpLBracket || t.kind == TokenKind::PunctAmpBangLBracket {
            return self.word_scoped(out, fuel, declared, checks, allow, run, p);
        }
        if t.kind == TokenKind::Ident {
            let (name, nspan, qn) = read_qualified_name(slice, self.toks, hi, p);
            let nabs = self.abs_span(nspan);
            let r = self.word_name(out, fuel, declared, checks, allow, run, true, name.as_slice(), nabs, qn);
            return r;
        }
        if t.kind == TokenKind::PunctGe || t.kind == TokenKind::PunctLe || t.kind == TokenKind::PunctEqEq || t.kind
            == TokenKind::PunctNe {
            let nabs = self.abs_span(t.span);
            let r = self.word_name(out, fuel, declared, checks, allow, run, false, token_bytes(slice, t), nabs, p + 1);
            return r;
        }
        assert(out.written() =~= out.written() + Seq::<u8>::empty());
        Ok(p + 1)
    }
}

/// The state a word check starts in: the declared inputs on the stack.
pub open spec fn initial_state(ins: Seq<Seq<u8>>) -> WordState {
    WordState { stack: ins.map_values(|t: Seq<u8>| ValueView::Plain(t)), locals: Seq::empty(), terminated: false }
}

/// Type-checks the word body `src[body_span]`, read as the tokens `toks`
/// (see `spec_word_body`), whatever the check reaches.
fn check_word_body<O: Output>(
    out: &mut O,
    src: &[u8],
    body_span: Span,
    toks: &[Token],
    declared: &WordSig,
    env: &[WordEntry],
    subtypes: &[SubtypeInfo],
    mmio: &MmioDb,
    checks: ChecksMode,
    allow_suspend: bool,
) -> (r: Result<(), TcError>)
    requires
        body_span.within(src@.len()),
        stream_ok(toks@, (body_span.end - body_span.start) as nat),
        tokens_ordered(toks@),
        toks@.len() + 8 <= usize::MAX,
        mmio.wf(src@.len()),
    ensures
        ({
            let ck = Checker { src, body: body_span, toks, env, subtypes, mmio };
            let (tr, res) = spec_word_body(
                ck.benv(),
                MAX_NESTING as nat,
                ck.wcfg(declared, checks, allow_suspend),
                declared.ins(),
            );
            final(out).written() == old(out).written() + tr && r == res
        }),
{
    let ck = Checker { src, body: body_span, toks, env, subtypes, mmio };
    let ghost e = ck.benv();
    let ghost w = ck.wcfg(declared, checks, allow_suspend);
    let ghost n = toks@.len();
    let fuel = MAX_NESTING;
    let mut stack: Vec<Value> = Vec::new();
    let mut i: usize = 0;
    while i < declared.in_len()
        invariant
            i <= declared.inputs@.len(),
            stack@.len() == i,
            stack_view(stack@) == declared.ins().subrange(0, i as int).map_values(|t: Seq<u8>| ValueView::Plain(t)),
        decreases declared.inputs@.len() - i,
    {
        let ghost before = stack@;
        let v = Value::Plain(declared.inputs[i]);
        stack.push(v);
        assert(declared.ins()[i as int] == declared.inputs@[i as int]@);
        assert(stack_view(stack@) =~= stack_view(before).push(v@));
        assert(declared.ins().subrange(0, i + 1).map_values(|t: Seq<u8>| ValueView::Plain(t)) =~= declared.ins().subrange(
            0,
            i as int,
        ).map_values(|t: Seq<u8>| ValueView::Plain(t)).push(ValueView::Plain(declared.ins()[i as int])));
        i += 1;
    }
    assert(declared.ins().subrange(0, i as int) =~= declared.ins());
    let empty: [u8; 0] = [];
    let blank = TypeAtom::new(&empty).unwrap();
    let mut run = WordRun { stack, locals: [blank; 64], local_tys: [blank; 64], local_len: 0, terminated: false };
    let ghost init = run@;
    assert(init =~= initial_state(declared.ins()));
    assert(quots_within(stack_view(run.stack@), n));
    assert(run_ok(&run, n));
    ck.run_word(out, fuel, declared, checks, allow_suspend, &mut run)?;
    if !check_no_scoped_live(run.stack.as_slice()) {
        return Err(TcError::ScopedLeak { span: body_span });
    }
    ck.check_outputs(&run.stack, declared, TcError::OutputCountMismatch { span: body_span }, TcError::OutputTypeMismatch { span: body_span })
}

/// The outcome of checking a word body: the tokens, the known words, the
/// subtypes and the MMIO database it is checked against.
pub open spec fn word_body_result(
    src: &[u8],
    body_span: Span,
    toks: &[Token],
    declared: &WordSig,
    env: &[WordEntry],
    subtypes: &[SubtypeInfo],
    mmio: &MmioDb,
    checks: ChecksMode,
    allow_suspend: bool,
) -> Result<(), TcError> {
    spec_word_body(
        Checker { src, body: body_span, toks, env, subtypes, mmio }.benv(),
        MAX_NESTING as nat,
        WordCfg { outs: declared.outs(), checks, allow: allow_suspend, body: body_span },
        declared.ins(),
    ).1
}

/// Type-checks the word body `src[body_span]`, read as the tokens `toks`,
/// against its declared signature, writing a trace of the check to `out`
/// (see `spec_word_body`).  Quotations may run quotations at most
/// `MAX_NESTING` deep.  A body whose check would reach a mutable borrow of
/// a non-register place with a root too long to name (`Internal` in
/// `spec_word_borrow`) cannot be checked; `word_body_stops_at_long_root`
/// tells such bodies apart beforehand.
pub fn typecheck_word_body<O: Output>(
    out: &mut O,
    src: &[u8],
    body_span: Span,
    toks: &[Token],
    declared: &WordSig,
    env: &[WordEntry],
    subtypes: &[SubtypeInfo],
    mmio: &MmioDb,
    checks: ChecksMode,
    allow_suspend: bool,
) -> (r: Result<(), TcError>)
    requires
        body_span.within(src@.len()),
        stream_ok(toks@, (body_span.end - body_span.start) as nat),
        tokens_ordered(toks@),
        toks@.len() + 8 <= usize::MAX,
        mmio.wf(src@.len()),
        !(word_body_result(src, body_span, toks, declared, env, subtypes, mmio, checks, allow_suspend) matches Err(
            TcError::Internal { .. },
        )),
    ensures
        ({
            let ck = Checker { src, body: body_span, toks, env, subtypes, mmio };
            let (tr, res) = spec_word_body(
                ck.benv(),
                MAX_NESTING as nat,
                ck.wcfg(declared, checks, allow_suspend),
                declared.ins(),
            );
            final(out).written() == old(out).written() + tr && r == res
        }),
{
    check_word_body(out, src, body_span, toks, declared, env, subtypes, mmio, checks, allow_suspend)
}

/// Whether checking the word body would reach a mutable borrow of a
/// non-register place with a root too long to name: the inputs that
/// `typecheck_word_body` does not take.
pub fn word_body_stops_at_long_root(
    src: &[u8],
    body_span: Span,
    toks: &[Token],
    declared: &WordSig,
    env: &[WordEntry],
    subtypes: &[SubtypeInfo],
    mmio: &MmioDb,
    checks: ChecksMode,
    allow_suspend: bool,
) -> (b: bool)
    requires
        body_span.within(src@.len()),
        stream_ok(toks@, (body_span.end - body_span.start) as nat),
        tokens_ordered(toks@),
        toks@.len() + 8 <= usize::MAX,
        mmio.wf(src@.len()),
    ensures
        b == (word_body_result(src, body_span, toks, declared, env, subtypes, mmio, checks, allow_suspend) matches Err(
            TcError::Internal { .. },
        )),
{
    let mut scratch: Vec<u8> = Vec::new();
    let r = check_word_body(&mut scratch, src, body_span, toks, declared, env, subtypes, mmio, checks, allow_suspend);
    match r {
        Err(TcError::Internal { .. }) => true,
        _ => false,
    }
}

impl<'a> Checker<'a> {
    /// Checks the tokens of the word body in turn (see `spec_word_seq`).
    #[verifier::rlimit(50)]
    fn run_word<O: Output>(
        &self,
        out: &mut O,
        fuel: u32,
        declared: &WordSig,
        checks: ChecksMode,
        allow: bool,
        run: &mut WordRun,
    ) -> (r: Result<(), TcError>)
        requires
            self.wf(),
            stream_ok(self.toks@, (self.body.end - self.body.start) as nat),
            run_ok(old(run), self.toks@.len()),
        ensures
            ({
                let (tr, res) = spec_word_seq(self.benv(), fuel as nat, self.wcfg(declared, checks, allow), 0, old(run)@);
                &&& final(out).written() == old(out).written() + tr
                &&& r matches Ok(_) ==> res == Ok::<WordState, TcError>(final(run)@)
                &&& r matches Err(x) ==> res == Err::<WordState, TcError>(x)
            }),
            r is Ok ==> run_ok(final(run), self.toks@.len()),
    {
        let ghost e = self.benv();
        let ghost w = self.wcfg(declared, checks, allow);
        let ghost n = self.toks@.len();
        let ghost total = spec_word_seq(e, fuel as nat, w, 0, run@);
        let ghost start = out.written();
        let ghost mut done: Seq<u8> = Seq::empty();
        let hi = self.toks.len();
        let mut p: usize = 0;
        assert(done + total.0 =~= total.0);
        loop
            invariant
                self.wf(),
                e == self.benv(),
                w == self.wcfg(declared, checks, allow),
                self.toks@.len() > 0,
                self.toks@.last().kind == TokenKind::Eof,
                hi == self.toks@.len(),
                n == self.toks@.len(),
                run_ok(run, n),
                p <= hi,
                total == spec_word_seq(e, fuel as nat, w, 0, old(run)@),
                start == old(out).written(),
                out.written() == start + done,
                total.0 == done + spec_word_seq(e, fuel as nat, w, p as int, run@).0,
                total.1 == spec_word_seq(e, fuel as nat, w, p as int, run@).1,
            decreases hi - p,
        {
            if p >= hi {
                assert(done + Seq::<u8>::empty() =~= done);
                return Ok(());
            }
            let t = token_in(self.toks, p, hi);
            if t.kind == TokenKind::Eof {
                assert(done + Seq::<u8>::empty() =~= done);
                return Ok(());
            }
            if run.terminated {
                p += 1;
                continue;
            }
            let ghost st = run@;
            let ghost w0 = out.written();
            let step = self.word_step(out, fuel, declared, checks, allow, run, p);
            match step {
                Err(x) => {
                    assert(done + Seq::<u8>::empty() =~= done);
                    return Err(x);
                },
                Ok(np) => {
                    proof {
                        let piece = out.written().subrange(w0.len() as int, out.written().len() as int);
                        let (rest, r2) = spec_word_seq(e, fuel as nat, w, np as int, run@);
                        assert(out.written() =~= w0 + piece);
                        assert(spec_word_seq(e, fuel as nat, w, p as int, st) == (piece + rest, r2));
                        assert(total.0 =~= (done + piece) + rest);
                        done = done + piece;
                    }
                    p = np;
                },
            }
        }
    }
}

// ---------------------------------------------------------------------------
// Checking a module
// ---------------------------------------------------------------------------

/// The diagnostic for a malformed signature.
pub open spec fn sig_error(e: SigParseError) -> TcError {
    if e.code == 3100 {
        TcError::SigTypeInvalid { span: e.span }
    } else if e.code == 3102 {
        TcError::SigTooManyInputs { span: e.span }
    } else {
        TcError::SigTooManyOutputs { span: e.span }
    }
}

/// The diagnostic for a malformed signature, keeping its number and span.
pub fn sig_error_of(e: SigParseError) -> (r: TcError)
    ensures
        r == sig_error(e),
        (e.code == 3100 || e.code == 3102 || e.code == 3103) ==> r.code() == e.code && r.span() == e.span,
{
    if e.code == 3100 {
        TcError::SigTypeInvalid { span: e.span }
    } else if e.code == 3102 {
        TcError::SigTooManyInputs { span: e.span }
    } else {
        TcError::SigTooManyOutputs { span: e.span }
    }
}

/// What a word body of the module is checked against.
pub open spec fn decl_env(
    src: Seq<u8>,
    d: DeclAst,
    body: Span,
    db: (Seq<MapView>, Seq<InstanceView>),
    env: Seq<WordEntry>,
    subtypes: Seq<SubtypeInfo>,
) -> BodyEnv {
    BodyEnv {
        src,
        base: body.start as int,
        slice: src.subrange(body.start as int, body.end as int),
        toks: d.body_tokens@,
        env,
        subtypes,
        mmio: db,
    }
}

/// The stack-check listing of declarations `i..` of a module: for each
/// word with a signature and a body, a `word NAME ( sig )` line and the
/// trace of its check; the first error ends the listing.
pub open spec fn spec_emit_from(
    src: Seq<u8>,
    decls: Seq<DeclAst>,
    i: int,
    db: (Seq<MapView>, Seq<InstanceView>),
    env: Seq<WordEntry>,
    subtypes: Seq<SubtypeInfo>,
    checks: ChecksMode,
) -> (Seq<u8>, Result<(), TcError>)
    decreases decls.len() - i,
{
    if i < 0 || i >= decls.len() {
        (Seq::empty(), Ok(()))
    } else {
        let d = decls[i];
        if d.kind != DeclKind::Word || d.sig is None || d.body is None {
            spec_emit_from(src, decls, i + 1, db, env, subtypes, checks)
        } else {
            match spec_word_sig(src, d.sig.unwrap()) {
                Err(e) => (Seq::empty(), Err(sig_error(e))),
                Ok((ins, outs)) => {
                    let body = d.body.unwrap();
                    let head = sp_word_head() + text(src, d.name) + sp_space() + sig_text(ins, outs) + sp_nl();
                    let (tr, r) = spec_word_body(
                        decl_env(src, d, body, db, env, subtypes),
                        MAX_NESTING as nat,
                        WordCfg { outs, checks, allow: true, body },
                        ins,
                    );
                    match r {
                        Err(x) => (head + tr, Err(x)),
                        Ok(_) => {
                            let (rest, r2) = spec_emit_from(src, decls, i + 1, db, env, subtypes, checks);
                            (head + tr + rest, r2)
                        },
                    }
                },
            }
        }
    }
}

/// The stack-check listing of a module (see `spec_emit_from`), or the
/// first invalid register map.
pub open spec fn spec_emit_stackcheck(
    src: Seq<u8>,
    module: ModuleAst,
    env: Seq<WordEntry>,
    subtypes: Seq<SubtypeInfo>,
    checks: ChecksMode,
) -> (Seq<u8>, Result<(), TcError>) {
    match spec_mmio_db(src, module) {
        Err(x) => (Seq::empty(), Err(x)),
        Ok(db) => spec_emit_from(src, module.decls@, 0, db, env, subtypes, checks),
    }
}

/// Every word body of the module is tokenised in source order.
pub open spec fn words_checkable(module: ModuleAst) -> bool {
    forall|i: int|
        0 <= i < module.decls@.len() && (#[trigger] module.decls@[i]).kind == DeclKind::Word
            && module.decls@[i].body is Some ==> tokens_ordered(module.decls@[i].body_tokens@)
}

/// Checks every word of `module` that has a signature and a body, and
/// writes the listing to `out` (see `spec_emit_stackcheck`), whatever the
/// listing reaches.
#[verifier::rlimit(50)]
#[verifier::spinoff_prover]
fn run_stackcheck<O: Output>(
    module: &ModuleAst,
    src: &[u8],
    env: &[WordEntry],
    subtypes: &[SubtypeInfo],
    checks: ChecksMode,
    out: &mut O,
) -> (r: Result<(), TcError>)
    requires
        module.within(src@.len()),
        words_checkable(*module),
    ensures
        ({
            let (tr, res) = spec_emit_stackcheck(src@, *module, env@, subtypes@, checks);
            final(out).written() == old(out).written() + tr && r == res
        }),
{
    let mmio = build_mmio_db(module, src)?;
    let ghost db = mmio@;
    let ghost total = spec_emit_from(src@, module.decls@, 0, db, env@, subtypes@, checks);
    let ghost start = out.written();
    let ghost mut done: Seq<u8> = Seq::empty();
    assert(done + total.0 =~= total.0);
    let mut i: usize = 0;
    while i < module.decls.len()
        invariant
            module.within(src@.len()),
            words_checkable(*module),
            mmio.wf(src@.len()),
            db == mmio@,
            spec_mmio_db(src@, *module) == Ok::<_, TcError>(db),
            i <= module.decls@.len(),
            total == spec_emit_from(src@, module.decls@, 0, db, env@, subtypes@, checks),
            start == old(out).written(),
            out.written() == start + done,
            total.0 == done + spec_emit_from(src@, module.decls@, i as int, db, env@, subtypes@, checks).0,
            total.1 == spec_emit_from(src@, module.decls@, i as int, db, env@, subtypes@, checks).1,
        decreases module.decls@.len() - i,
    {
        let d = &module.decls[i];
        assert(module.decls@[i as int] == *d);
        assert(d.within(src@.len()));
        let (sig_span, body) = match (d.sig, d.body) {
            (Some(sg), Some(b)) => (sg, b),
            _ => {
                i += 1;
                continue;
            },
        };
        if d.kind != DeclKind::Word {
            i += 1;
            continue;
        }
        let sig = match parse_word_sig(src, sig_span) {
            Err(e) => {
                assert(spec_emit_from(src@, module.decls@, i as int, db, env@, subtypes@, checks)
                    == (Seq::<u8>::empty(), Err::<(), TcError>(sig_error(e))));
                assert(done + Seq::<u8>::empty() =~= done);
                return Err(sig_error_of(e));
            },
            Ok(sg) => sg,
        };
        let ghost w0 = out.written();
        out.write(&lit_word_head());
        out.write(slice_span(src, d.name));
        out.write(&lit_space());
        write_sig(out, &sig);
        out.write(&lit_nl());
        let ghost w1 = out.written();
        let ghost head = sp_word_head() + text(src@, d.name) + sp_space() + sig_text(sig.ins(), sig.outs()) + sp_nl();
        assert(w1 =~= w0 + head);
        assert(module.decls@[i as int] == *d);
        assert(tokens_ordered(d.body_tokens@));
        let toks = d.body_tokens.as_slice();
        proof {
            let ck = Checker { src, body, toks, env, subtypes, mmio: &mmio };
            assert(ck.benv() == decl_env(src@, *d, body, db, env@, subtypes@));
            assert(spec_word_sig(src@, sig_span) == Ok::<_, SigParseError>((sig.ins(), sig.outs())));
        }
        let r = check_word_body(out, src, body, toks, &sig, env, subtypes, &mmio, checks, true);
        proof {
            let tr = out.written().subrange(w1.len() as int, out.written().len() as int);
            assert(out.written() =~= w1 + tr);
            let ck = Checker { src, body, toks, env, subtypes, mmio: &mmio };
            assert(ck.benv() == decl_env(src@, *d, body, db, env@, subtypes@));
            assert(ck.wcfg(&sig, checks, true) == WordCfg { outs: sig.outs(), checks, allow: true, body });
            assert(spec_word_sig(src@, sig_span) == Ok::<_, SigParseError>((sig.ins(), sig.outs())));
        }
        match r {
            Err(x) => {
                proof {
                    let tr = out.written().subrange(w1.len() as int, out.written().len() as int);
                    assert(spec_emit_from(src@, module.decls@, i as int, db, env@, subtypes@, checks)
                        == (head + tr, Err::<(), TcError>(x)));
                    assert(total.0 =~= done + (head + tr));
                    assert(out.written() =~= start + (done + (head + tr)));
                }
                return Err(x);
            },
            Ok(()) => {
                proof {
                    let tr = out.written().subrange(w1.len() as int, out.written().len() as int);
                    let (rest, r2) = spec_emit_from(src@, module.decls@, i + 1, db, env@, subtypes@, checks);
                    assert(total.0 =~= (done + (head + tr)) + rest);
                    done = done + (head + tr);
                }
                i += 1;
            },
        }
    }
    assert(done + Seq::<u8>::empty() =~= done);
    Ok(())
}

/// Checks every word of `module` that has a signature and a body, and
/// writes the listing to `out` (see `spec_emit_stackcheck`).  As for
/// `typecheck_word_body`, the listing may not reach a mutable borrow of a
/// root too long to name; `stackcheck_stops_at_long_root` tells such
/// modules apart beforehand.
pub fn emit_stackcheck<O: Output>(
    module: &ModuleAst,
    src: &[u8],
    env: &[WordEntry],
    subtypes: &[SubtypeInfo],
    checks: ChecksMode,
    out: &mut O,
) -> (r: Result<(), TcError>)
    requires
        module.within(src@.len()),
        words_checkable(*module),
        !(spec_emit_stackcheck(src@, *module, env@, subtypes@, checks).1 matches Err(TcError::Internal { .. })),
    ensures
        ({
            let (tr, res) = spec_emit_stackcheck(src@, *module, env@, subtypes@, checks);
            final(out).written() == old(out).written() + tr && r == res
        }),
{
    run_stackcheck(module, src, env, subtypes, checks, out)
}

/// Whether the listing of `module` would reach a mutable borrow of a
/// non-register place with a root too long to name: the modules that
/// `emit_stackcheck` does not take.
pub fn stackcheck_stops_at_long_root(
    module: &ModuleAst,
    src: &[u8],
    env: &[WordEntry],
    subtypes: &[SubtypeInfo],
    checks: ChecksMode,
) -> (b: bool)
    requires
        module.within(src@.len()),
        words_checkable(*module),
    ensures
        b == (spec_emit_stackcheck(src@, *module, env@, subtypes@, checks).1 matches Err(TcError::Internal { .. })),
{
    let mut scratch: Vec<u8> = Vec::new();
    match run_stackcheck(module, src, env, subtypes, checks, &mut scratch) {
        Err(TcError::Internal { .. }) => true,
        _ => false,
    }
}

} // verus!
