//! The stack-effect checker for quotations and scoped blocks, and the
//! control words that run quotations (`if`, `while`, `loop`, `lock`).
//!
//! A body is checked token by token against an abstract stack of values.
//! Quotations are checked when a control word runs them, each on a copy
//! of the stack.  A quotation may run quotations in turn; a chain of
//! such runs deeper than `MAX_NESTING` is refused.
use vstd::prelude::*;

use crate::db::{first_of, SubtypeInfo};
use crate::error::TcError;
use crate::lit::{
    sp_bool, sp_drop, sp_dup, sp_false, sp_i64, sp_if, sp_lock, sp_loop, sp_ptr, sp_ptr_mut, sp_region,
    sp_scoped, sp_swap, sp_true, sp_while, sp_as, sp_as_checked, sp_bitcast,
};
use crate::lit::{
    bytes_eq, lit_as, lit_as_checked, lit_bitcast, lit_bool, lit_drop, lit_dup, lit_false, lit_i64, lit_if,
    lit_lock, lit_loop, lit_ptr, lit_ptr_mut, lit_region, lit_scoped, lit_swap, lit_true, lit_while,
};
use crate::mmio::{access_can_read, access_can_write, AccessMode};
use crate::mmiodb::{resolve_mmio_place, MmioDb, MmioResolved};
use crate::value::{apply_sig, check_no_scoped_live, push, stack_view, value_eq, value_type, Value};
use crate::typeops::{array_elem_type, lookup};
use crate::types::TypeAtom;
use vstd::slice::slice_subrange;
use crate::mmiodb::{spec_resolve_place, InstanceView, MapView, ResolvedView};
use crate::names::{
    capture_balanced, capture_scoped_block, close_of, lemma_close_of_bounds, parse_place, place_of, qual_name,
    read_qualified_name, spans_within, tk, tok_bytes, token_bytes, token_in, tokens_ordered,
};
use crate::regmap::shifted;
use crate::tokens::{Token, TokenKind};
use crate::typeops::{entry_names, spec_array_elem};
use crate::types::{Span, WordEntry, ATOM_CAP};
use crate::value::{no_scoped_live, spec_apply_sig, value_ty, ValueView, STACK_CAP};

verus! {

/// Deepest chain of quotations running quotations that is checked.  A
/// quotation may run a quotation taken from the stack, itself included
/// (`[ dup loop ] dup loop`), so the chain need not end; one deeper than
/// this is refused with `ScopeDepthExceeded` at the quotation that would
/// run next.  Only the chain's depth counts, not its tokens.
pub const MAX_NESTING: u32 = 64;

/// What the checker reads while checking one word body: the source, where
/// the body starts, the body's bytes and tokens, the known words, the
/// subtypes and the MMIO database.
pub struct BodyEnv {
    pub src: Seq<u8>,
    pub base: int,
    pub slice: Seq<u8>,
    pub toks: Seq<Token>,
    pub env: Seq<WordEntry>,
    pub subtypes: Seq<SubtypeInfo>,
    pub mmio: (Seq<MapView>, Seq<InstanceView>),
}

/// Whose errors a nested body reports: a quotation's (at the quotation's
/// span) or a scoped block's (at the block's span).
#[derive(Clone, Copy, Debug, PartialEq, Eq, Structural)]
pub enum BodyMode {
    Quote { span: Span },
    Plain { span: Span },
}

/// The span a nested body's errors point at.
pub open spec fn mode_span(m: BodyMode) -> Span {
    match m {
        BodyMode::Quote { span } => span,
        BodyMode::Plain { span } => span,
    }
}

/// A token's span in the source.
pub open spec fn abs(e: BodyEnv, s: Span) -> Span {
    shifted(e.base, s)
}

/// Pushing onto the abstract stack, which holds at most `STACK_CAP` values.
pub open spec fn spec_push(s: Seq<ValueView>, v: ValueView) -> Result<Seq<ValueView>, TcError> {
    if s.len() >= STACK_CAP {
        Err(TcError::StackOverflow { span: Span { start: 0, end: 0 } })
    } else {
        Ok(s.push(v))
    }
}

/// Pushing two values in turn.
pub open spec fn spec_push2(s: Seq<ValueView>, a: ValueView, b: ValueView) -> Result<Seq<ValueView>, TcError> {
    match spec_push(s, a) {
        Err(e) => Err(e),
        Ok(s1) => spec_push(s1, b),
    }
}

/// Whether an access mode allows reads.
pub open spec fn can_read(a: AccessMode) -> bool {
    a != AccessMode::Wo
}

/// Whether an access mode allows writes.
pub open spec fn can_write(a: AccessMode) -> bool {
    a != AccessMode::Ro
}

/// `@` and `@T`: loading through the address on top of the stack.  `ty`
/// is `T` for a typed load.
pub open spec fn spec_load(s: Seq<ValueView>, ty: Option<Seq<u8>>, span: Span) -> Result<Seq<ValueView>, TcError> {
    if s.len() == 0 {
        Err(TcError::MmioTypedPopAddr { span })
    } else {
        let rest = s.drop_last();
        match s.last() {
            ValueView::MmioPtr(r, _) => if !can_read(r.3) {
                Err(TcError::MmioReadNotAllowed { span })
            } else if ty matches Some(w) && w != r.2 {
                Err(TcError::MmioTypedTypeMismatch { span })
            } else {
                spec_push(rest, ValueView::Plain(r.2))
            },
            ValueView::MmioPlace(r) => match r.4 {
                None => if !can_read(r.3) {
                    Err(TcError::MmioReadNotAllowed { span })
                } else if ty matches Some(w) && w != r.2 {
                    Err(TcError::MmioTypedTypeMismatch { span })
                } else {
                    spec_push(rest, ValueView::Plain(r.2))
                },
                Some(f) => if !can_read(r.3) || !can_read(f.4) {
                    Err(TcError::MmioReadNotAllowed { span })
                } else if ty is Some {
                    Err(TcError::MmioTypedMismatch { span })
                } else {
                    spec_push(rest, ValueView::Plain(f.3))
                },
            },
            ValueView::Plain(t) => if ty is None {
                Err(TcError::MmioTypedNotAllowed { span })
            } else if t != sp_ptr() && t != sp_ptr_mut() {
                Err(TcError::MmioTypedNotAllowed { span })
            } else {
                spec_push(rest, ValueView::Plain(ty.unwrap()))
            },
            _ => Err(TcError::MmioTypedNotAllowed { span }),
        }
    }
}

/// `!` and `!T`: storing the top value through the address below it.
pub open spec fn spec_store(s: Seq<ValueView>, ty: Option<Seq<u8>>, span: Span) -> Result<Seq<ValueView>, TcError> {
    if s.len() < 2 {
        Err(TcError::MmioTypedPopAddr { span })
    } else {
        let rest = s.subrange(0, s.len() - 2);
        let val = s[s.len() - 1];
        let addr = s[s.len() - 2];
        match (addr, val) {
            (ValueView::MmioPtr(r, mutable), ValueView::Plain(vty)) => if !mutable || !can_write(r.3) {
                Err(TcError::MmioAccessViolation { span })
            } else if ty matches Some(w) && w != r.2 {
                Err(TcError::MmioTypedTypeMismatch { span })
            } else if vty != r.2 {
                Err(TcError::ReturnTypeMismatch { span })
            } else {
                Ok(rest)
            },
            (ValueView::MmioPlace(r), ValueView::Plain(vty)) => match r.4 {
                None => if !can_write(r.3) {
                    Err(TcError::MmioAccessViolation { span })
                } else if ty matches Some(w) && w != r.2 {
                    Err(TcError::MmioTypedTypeMismatch { span })
                } else if vty != r.2 {
                    Err(TcError::ReturnTypeMismatch { span })
                } else {
                    Ok(rest)
                },
                Some(f) => if !can_write(r.3) || !can_write(f.4) {
                    Err(TcError::MmioAccessViolation { span })
                } else if ty is Some {
                    Err(TcError::MmioTypedMismatch { span })
                } else if vty != f.3 {
                    Err(TcError::ReturnTypeMismatch { span })
                } else {
                    Ok(rest)
                },
            },
            (ValueView::Plain(t), ValueView::Plain(_)) => if ty is None {
                Err(TcError::MmioTypedNotAllowed { span })
            } else if t != sp_ptr_mut() {
                Err(TcError::MmioTypedNotAllowed { span })
            } else {
                Ok(rest)
            },
            _ => Err(TcError::MmioTypedNotAllowed { span }),
        }
    }
}

/// A name beginning with `@` (a load) or `!` (a store), typed when more
/// follows; the type must fit in an atom.
pub open spec fn spec_load_store(s: Seq<ValueView>, name: Seq<u8>, span: Span) -> Result<Seq<ValueView>, TcError> {
    let typed = name.len() > 1;
    let tyname = name.subrange(1, name.len() as int);
    if typed && tyname.len() > ATOM_CAP {
        Err(TcError::MmioTypedAtomInvalid { span })
    } else {
        let ty = if typed { Some(tyname) } else { None };
        if name[0] == 64u8 {
            spec_load(s, ty, span)
        } else {
            spec_store(s, ty, span)
        }
    }
}

/// `name` starts a load or a store.
pub open spec fn is_load_store(name: Seq<u8>) -> bool {
    name.len() > 0 && (name[0] == 64u8 || name[0] == 33u8)
}

/// `dup`, `drop` and `swap`, failing with `under` on too short a stack.
pub open spec fn spec_shuffle(s: Seq<ValueView>, name: Seq<u8>, under: TcError) -> Result<Seq<ValueView>, TcError> {
    if name == sp_dup() {
        if s.len() == 0 {
            Err(under)
        } else {
            spec_push2(s.drop_last(), s.last(), s.last())
        }
    } else if name == sp_drop() {
        if s.len() == 0 {
            Err(under)
        } else {
            Ok(s.drop_last())
        }
    } else {
        if s.len() < 2 {
            Err(under)
        } else {
            spec_push2(s.subrange(0, s.len() - 2), s[s.len() - 1], s[s.len() - 2])
        }
    }
}

/// A stack-shuffling word.
pub open spec fn is_shuffle(name: Seq<u8>) -> bool {
    name == sp_dup() || name == sp_drop() || name == sp_swap()
}

/// A control word.
pub open spec fn is_control(name: Seq<u8>) -> bool {
    name == sp_if() || name == sp_while() || name == sp_loop() || name == sp_lock()
}

/// A cast word.
pub open spec fn is_cast(name: Seq<u8>) -> bool {
    name == sp_as() || name == sp_as_checked() || name == sp_bitcast()
}

/// Calling a known word from a nested body: it must exist, may suspend
/// only where suspending is allowed, and its signature is applied; every
/// error points at `span`, except an unknown word (`missing`).
pub open spec fn spec_call(
    e: BodyEnv,
    name: Seq<u8>,
    missing: TcError,
    span: Span,
    s: Seq<ValueView>,
    allow: bool,
) -> Result<Seq<ValueView>, TcError> {
    match first_of(entry_names(e.env), name) {
        None => Err(missing),
        Some(i) => {
            let w = e.env[i];
            if w.spec_may_suspend() && !allow {
                Err(TcError::SuspendingInNonSuspendingContext { span })
            } else {
                spec_apply_sig(s, w, span, e.subtypes)
            }
        },
    }
}

/// Where checking a quotation's tokens starts: after a leading `( sig )`
/// and an effect set that follows it; an unclosed `(` leaves nothing.
pub open spec fn quote_start(toks: Seq<Token>, lo: int, hi: int) -> int {
    if tk(toks, lo, hi).kind != TokenKind::PunctLParen {
        lo
    } else {
        match close_of(toks, hi, lo + 1, 1, TokenKind::PunctLParen, TokenKind::PunctRParen, false) {
            None => hi,
            Some(c) => if tk(toks, c + 1, hi).kind == TokenKind::EffectSet {
                c + 2
            } else {
                c + 1
            },
        }
    }
}

/// The source span of the quotation opened by token `p` and closed by
/// token `c`.
pub open spec fn quote_span(e: BodyEnv, p: int, c: int) -> Span {
    abs(e, Span { start: tk(e.toks, p, c + 1).span.start, end: tk(e.toks, c, c + 1).span.end })
}

/// The source span of the inside of the scoped block opened by token `p`
/// and closed by token `c`.
pub open spec fn block_span(e: BodyEnv, p: int, c: int) -> Span {
    abs(e, Span { start: tk(e.toks, p, c + 1).span.end, end: tk(e.toks, c, c + 1).span.start })
}

/// Where the token after the one at `p` of a nested body is: past a
/// dotted name, a place, or a bracketed group the token starts.
pub open spec fn next_pos(e: BodyEnv, m: BodyMode, hi: int, p: int) -> int {
    let t = tk(e.toks, p, hi);
    if t.kind == TokenKind::Ident {
        qual_name(e.slice, e.toks, hi, p).2
    } else if t.kind == TokenKind::PunctLBracket {
        match close_of(e.toks, hi, p + 1, 1, TokenKind::PunctLBracket, TokenKind::PunctRBracket, false) {
            Some(c) => c + 1,
            None => p + 1,
        }
    } else if t.kind == TokenKind::PunctAmp || t.kind == TokenKind::PunctAmpBang {
        match place_of(e.toks, hi, p + 1) {
            Some((_, _, nx)) => nx,
            None => p + 1,
        }
    } else if t.kind == TokenKind::PunctAmpLBracket || t.kind == TokenKind::PunctAmpBangLBracket {
        match close_of(e.toks, hi, p + 1, 1, TokenKind::PunctLBracket, TokenKind::PunctRBracket, true) {
            Some(c) => c + 1,
            None => p + 1,
        }
    } else {
        p + 1
    }
}

/// Checking the tokens of a nested body from `p` up to `hi`: each token
/// in turn, until the body's end.
pub open spec fn spec_seq(
    e: BodyEnv,
    fuel: nat,
    m: BodyMode,
    hi: int,
    p: int,
    s: Seq<ValueView>,
    allow: bool,
) -> Result<Seq<ValueView>, TcError>
    decreases fuel, hi - p, 3nat,
{
    if p < 0 || p >= hi || tk(e.toks, p, hi).kind == TokenKind::Eof {
        Ok(s)
    } else {
        let np = next_pos(e, m, hi, p);
        if np <= p || np > hi {
            Ok(s)
        } else {
            match spec_step(e, fuel, m, hi, p, s, allow) {
                Err(x) => Err(x),
                Ok(s2) => spec_seq(e, fuel, m, hi, np, s2, allow),
            }
        }
    }
}

/// Checking the token at `p` (not the body's end) of a nested body.
pub open spec fn spec_step(
    e: BodyEnv,
    fuel: nat,
    m: BodyMode,
    hi: int,
    p: int,
    s: Seq<ValueView>,
    allow: bool,
) -> Result<Seq<ValueView>, TcError>
    decreases fuel, hi - p, 2nat,
{
    let t = tk(e.toks, p, hi);
    let ms = mode_span(m);
    if p < 0 || p >= hi {
        Ok(s)
    } else if t.kind == TokenKind::Number {
        spec_push(s, ValueView::Plain(sp_i64()))
    } else if t.kind == TokenKind::Ident {
        let (name, nspan, _) = qual_name(e.slice, e.toks, hi, p);
        spec_dispatch(e, fuel, m, true, name, abs(e, nspan), s, allow)
    } else if t.kind == TokenKind::PunctGe || t.kind == TokenKind::PunctLe || t.kind == TokenKind::PunctEqEq
        || t.kind == TokenKind::PunctNe {
        let name = tok_bytes(e.slice, t);
        match m {
            BodyMode::Quote { span } => spec_call(e, name, TcError::QuoteWordNotFound { span }, span, s, allow),
            BodyMode::Plain { .. } => spec_dispatch(e, fuel, m, false, name, abs(e, t.span), s, allow),
        }
    } else if t.kind == TokenKind::PunctArrowBind {
        match m {
            BodyMode::Quote { span } => Err(TcError::BindNotAllowed { span }),
            BodyMode::Plain { .. } => Ok(s),
        }
    } else if t.kind == TokenKind::PunctLBracket {
        match close_of(e.toks, hi, p + 1, 1, TokenKind::PunctLBracket, TokenKind::PunctRBracket, false) {
            None => Err(TcError::QuoteUnterminated { span: ms }),
            Some(c) => spec_push(s, ValueView::Quot(quote_span(e, p, c), (p + 1) as usize, c as usize)),
        }
    } else if t.kind == TokenKind::PunctAmp || t.kind == TokenKind::PunctAmpBang {
        let mutable = t.kind == TokenKind::PunctAmpBang;
        match place_of(e.toks, hi, p + 1) {
            None => Err(TcError::PlaceParseFailed { span: ms }),
            Some((_, full, _)) => spec_borrow(
                e,
                e.slice.subrange(full.start as int, full.end as int),
                abs(e, full),
                mutable,
                s,
            ),
        }
    } else if t.kind == TokenKind::PunctAmpLBracket || t.kind == TokenKind::PunctAmpBangLBracket {
        let mutable = t.kind == TokenKind::PunctAmpBangLBracket;
        if s.len() == 0 {
            Err(TcError::EmptyStackForScoped { span: ms })
        } else if spec_array_elem(value_ty(s.last())) is None && value_ty(s.last()) != sp_region() {
            Err(TcError::ScopedTypeMismatch { span: ms })
        } else {
            match spec_push(s, ValueView::Plain(sp_scoped())) {
                Err(x) => Err(x),
                Ok(s2) => match close_of(e.toks, hi, p + 1, 1, TokenKind::PunctLBracket, TokenKind::PunctRBracket, true) {
                    None => Err(TcError::ScopedBlockUnterminated { span: ms }),
                    Some(c) => {
                        proof {
                            lemma_close_of_bounds(
                                e.toks,
                                hi,
                                p + 1,
                                1,
                                TokenKind::PunctLBracket,
                                TokenKind::PunctRBracket,
                                true,
                            );
                        }
                        let inner_mode = BodyMode::Plain { span: block_span(e, p, c) };
                        match spec_seq(e, fuel, inner_mode, c, p + 1, s2, if mutable { false } else { allow }) {
                            Err(x) => Err(x),
                            Ok(s3) => if !no_scoped_live(s3) {
                                Err(TcError::ScopedMarkerLeak { span: ms })
                            } else {
                                Ok(s3)
                            },
                        }
                    },
                },
            }
        }
    } else {
        Ok(s)
    }
}

/// Borrowing the place spelled `bytes` at `span`: an MMIO register gives
/// an MMIO pointer (a mutable one only to a writable register); a field
/// cannot be borrowed; anything else gives a plain pointer.
pub open spec fn spec_borrow(e: BodyEnv, bytes: Seq<u8>, span: Span, mutable: bool, s: Seq<ValueView>) -> Result<
    Seq<ValueView>,
    TcError,
> {
    match spec_resolve_place(e.mmio, e.src, bytes, span) {
        Err(x) => Err(x),
        Ok(Some(r)) => match r.4 {
            None => if mutable && !can_write(r.3) {
                Err(TcError::MmioAccessViolation { span })
            } else {
                spec_push(s, ValueView::MmioPtr(r, mutable))
            },
            Some(_) => Err(TcError::MmioFieldNotAddressable { span }),
        },
        Ok(None) => spec_push(s, ValueView::Plain(if mutable { sp_ptr_mut() } else { sp_ptr() })),
    }
}

/// A name in a nested body: literals, loads and stores, MMIO places
/// (names only), then the rest (see `spec_dispatch_rest`).
pub open spec fn spec_dispatch(
    e: BodyEnv,
    fuel: nat,
    m: BodyMode,
    is_ident: bool,
    name: Seq<u8>,
    nspan: Span,
    s: Seq<ValueView>,
    allow: bool,
) -> Result<Seq<ValueView>, TcError>
    decreases fuel, 0int, 2nat,
{
    if name == sp_true() || name == sp_false() {
        spec_push(s, ValueView::Plain(sp_bool()))
    } else if is_ident && is_load_store(name) {
        spec_load_store(s, name, nspan)
    } else {
        let place = if is_ident { spec_resolve_place(e.mmio, e.src, name, nspan) } else { Ok(None) };
        match place {
            Err(x) => Err(x),
            Ok(Some(r)) => spec_push(s, ValueView::MmioPlace(r)),
            Ok(None) => spec_dispatch_rest(e, fuel, m, name, s, allow),
        }
    }
}

/// A name in a nested body that is not a literal, a load or store, or an
/// MMIO place: stack shuffles, control words, casts (ignored in a scoped
/// block) and calls of known words.
pub open spec fn spec_dispatch_rest(
    e: BodyEnv,
    fuel: nat,
    m: BodyMode,
    name: Seq<u8>,
    s: Seq<ValueView>,
    allow: bool,
) -> Result<Seq<ValueView>, TcError>
    decreases fuel, 0int, 1nat,
{
    let ms = mode_span(m);
    if is_shuffle(name) {
        spec_shuffle(s, name, TcError::QuoteStackUnderflow { span: ms })
    } else if is_control(name) {
        spec_control(e, fuel, name, s, allow)
    } else if m is Plain && is_cast(name) {
        Ok(s)
    } else {
        spec_call(e, name, TcError::QuoteWordNotFound { span: ms }, ms, s, allow)
    }
}

/// The errors of the control words, at the unknown span.
pub open spec fn nowhere() -> Span {
    Span { start: 0, end: 0 }
}

/// Number of token positions a quotation value covers.
pub open spec fn quot_len(q: ValueView) -> int {
    match q {
        ValueView::Quot(_, lo, hi) => if hi >= lo { hi - lo } else { 0 },
        _ => 0,
    }
}

/// Running a quotation (the quotation value `q`) on the stack `s`.
pub open spec fn spec_quote(e: BodyEnv, fuel: nat, q: ValueView, s: Seq<ValueView>, allow: bool) -> Result<
    Seq<ValueView>,
    TcError,
>
    decreases fuel, quot_len(q), 5nat,
{
    match q {
        ValueView::Quot(span, lo, hi) => {
            let start = quote_start(e.toks, lo as int, hi as int);
            if start < lo || start >= hi {
                Ok(s)
            } else {
                spec_seq(e, fuel, BodyMode::Quote { span }, hi as int, start, s, allow)
            }
        },
        _ => Ok(s),
    }
}

/// The stack when the check of tokens `p..hi` of a nested body stops: on
/// success the resulting stack; on an error, the stack as it stood when the
/// failing token was reached (see `spec_step_stack`).
pub open spec fn spec_seq_stack(
    e: BodyEnv,
    fuel: nat,
    m: BodyMode,
    hi: int,
    p: int,
    s: Seq<ValueView>,
    allow: bool,
) -> Seq<ValueView>
    decreases fuel, hi - p, 3nat,
{
    if p < 0 || p >= hi || tk(e.toks, p, hi).kind == TokenKind::Eof {
        s
    } else {
        let np = next_pos(e, m, hi, p);
        if np <= p || np > hi {
            s
        } else {
            match spec_step(e, fuel, m, hi, p, s, allow) {
                Err(_) => spec_step_stack(e, fuel, m, hi, p, s, allow),
                Ok(s2) => spec_seq_stack(e, fuel, m, hi, np, s2, allow),
            }
        }
    }
}

/// The stack a failing token at `p` leaves: the stack it was reached with,
/// except for a scoped block, whose marker stays pushed once pushed and
/// whose inner tokens leave the stack as they stop.
pub open spec fn spec_step_stack(
    e: BodyEnv,
    fuel: nat,
    m: BodyMode,
    hi: int,
    p: int,
    s: Seq<ValueView>,
    allow: bool,
) -> Seq<ValueView>
    decreases fuel, hi - p, 2nat,
{
    let t = tk(e.toks, p, hi);
    if p < 0 || p >= hi {
        s
    } else if t.kind == TokenKind::PunctAmpLBracket || t.kind == TokenKind::PunctAmpBangLBracket {
        let mutable = t.kind == TokenKind::PunctAmpBangLBracket;
        if s.len() == 0 {
            s
        } else if spec_array_elem(value_ty(s.last())) is None && value_ty(s.last()) != sp_region() {
            s
        } else {
            match spec_push(s, ValueView::Plain(sp_scoped())) {
                Err(_) => s,
                Ok(s2) => match close_of(e.toks, hi, p + 1, 1, TokenKind::PunctLBracket, TokenKind::PunctRBracket, true) {
                    None => s2,
                    Some(c) => {
                        proof {
                            lemma_close_of_bounds(
                                e.toks,
                                hi,
                                p + 1,
                                1,
                                TokenKind::PunctLBracket,
                                TokenKind::PunctRBracket,
                                true,
                            );
                        }
                        let inner_mode = BodyMode::Plain { span: block_span(e, p, c) };
                        let inner_allow = if mutable { false } else { allow };
                        match spec_seq(e, fuel, inner_mode, c, p + 1, s2, inner_allow) {
                            Err(_) => spec_seq_stack(e, fuel, inner_mode, c, p + 1, s2, inner_allow),
                            Ok(s3) => s3,
                        }
                    },
                },
            }
        }
    } else {
        s
    }
}

/// The stack when running quotation `q` on `s` stops (see
/// `spec_seq_stack`).
pub open spec fn spec_quote_stack(e: BodyEnv, fuel: nat, q: ValueView, s: Seq<ValueView>, allow: bool) -> Seq<ValueView> {
    match q {
        ValueView::Quot(span, lo, hi) => {
            let start = quote_start(e.toks, lo as int, hi as int);
            if start < lo || start >= hi {
                s
            } else {
                spec_seq_stack(e, fuel, BodyMode::Quote { span }, hi as int, start, s, allow)
            }
        },
        _ => s,
    }
}

/// The span of a quotation value.
pub open spec fn quot_span_of(q: ValueView) -> Span {
    match q {
        ValueView::Quot(span, _, _) => span,
        _ => nowhere(),
    }
}

/// `if` (`cond then else --`): both branches run on the stack below the
/// operands and must leave the same stack, which is the result.
/// `while` (`cond body --`): the condition must push one `bool` and keep
/// the rest; the body must keep the stack.  `loop` (`body --`) and `lock`
/// (`body --`, never suspending) keep the stack too.
pub open spec fn spec_control(e: BodyEnv, fuel: nat, name: Seq<u8>, s: Seq<ValueView>, allow: bool) -> Result<
    Seq<ValueView>,
    TcError,
>
    decreases fuel, 0int, 0nat,
{
    let n = s.len();
    if name == sp_if() {
        if n < 1 {
            Err(TcError::IfPopElse { span: nowhere() })
        } else if n < 2 {
            Err(TcError::IfPopThen { span: nowhere() })
        } else if n < 3 {
            Err(TcError::IfPopCond { span: nowhere() })
        } else if s[n - 3] != ValueView::Plain(sp_bool()) {
            Err(TcError::IfCondNotBool { span: nowhere() })
        } else if !(s[n - 2] is Quot) {
            Err(TcError::IfThenNotQuot { span: nowhere() })
        } else if !(s[n - 1] is Quot) {
            Err(TcError::IfElseNotQuot { span: nowhere() })
        } else if fuel == 0 {
            Err(TcError::ScopeDepthExceeded { span: quot_span_of(s[n - 2]) })
        } else {
            let base = s.subrange(0, n - 3);
            match spec_quote(e, (fuel - 1) as nat, s[n - 2], base, allow) {
                Err(x) => Err(x),
                Ok(t) => match spec_quote(e, (fuel - 1) as nat, s[n - 1], base, allow) {
                    Err(x) => Err(x),
                    Ok(f) => if t.len() != f.len() {
                        Err(TcError::IfBranchDepth { span: nowhere() })
                    } else if t != f {
                        Err(TcError::IfBranchContent { span: nowhere() })
                    } else {
                        Ok(t)
                    },
                },
            }
        }
    } else if name == sp_while() {
        if n < 1 {
            Err(TcError::WhilePopBody { span: nowhere() })
        } else if n < 2 {
            Err(TcError::WhilePopCond { span: nowhere() })
        } else if !(s[n - 1] is Quot) {
            Err(TcError::WhileBodyNotQuot { span: nowhere() })
        } else if !(s[n - 2] is Quot) {
            Err(TcError::WhileCondNotQuot { span: nowhere() })
        } else if fuel == 0 {
            Err(TcError::ScopeDepthExceeded { span: quot_span_of(s[n - 2]) })
        } else {
            let base = s.subrange(0, n - 2);
            match spec_quote(e, (fuel - 1) as nat, s[n - 2], base, allow) {
                Err(x) => Err(x),
                Ok(c) => if c.len() != base.len() + 1 {
                    Err(TcError::WhileCondDepth { span: nowhere() })
                } else if c.last() != ValueView::Plain(sp_bool()) {
                    Err(TcError::WhileCondNotBool { span: nowhere() })
                } else if c.subrange(0, base.len() as int) != base {
                    Err(TcError::WhileCondModifiedStack { span: nowhere() })
                } else {
                    match spec_quote(e, (fuel - 1) as nat, s[n - 1], base, allow) {
                        Err(x) => Err(x),
                        Ok(b) => if b.len() != base.len() {
                            Err(TcError::WhileBodyDepth { span: nowhere() })
                        } else if b != base {
                            Err(TcError::WhileBodyModifiedStack { span: nowhere() })
                        } else {
                            Ok(base)
                        },
                    }
                },
            }
        }
    } else {
        let is_lock = name == sp_lock();
        if n < 1 {
            Err(if is_lock { TcError::LockPopBody { span: nowhere() } } else { TcError::LoopPopBody { span: nowhere() } })
        } else if !(s[n - 1] is Quot) {
            Err(
                if is_lock {
                    TcError::LockBodyNotQuot { span: nowhere() }
                } else {
                    TcError::LoopBodyNotQuot { span: nowhere() }
                },
            )
        } else if fuel == 0 {
            Err(TcError::ScopeDepthExceeded { span: quot_span_of(s[n - 1]) })
        } else {
            let base = s.subrange(0, n - 1);
            match spec_quote(e, (fuel - 1) as nat, s[n - 1], base, if is_lock { false } else { allow }) {
                Err(x) => Err(x),
                Ok(b) => if b.len() != base.len() {
                    Err(
                        if is_lock {
                            TcError::LockBodyDepth { span: nowhere() }
                        } else {
                            TcError::LoopBodyDepth { span: nowhere() }
                        },
                    )
                } else if b != base {
                    Err(
                        if is_lock {
                            TcError::LockBodyModifiedStack { span: nowhere() }
                        } else {
                            TcError::LoopBodyModifiedStack { span: nowhere() }
                        },
                    )
                } else {
                    Ok(base)
                },
            }
        }
    }
}

// ---------------------------------------------------------------------------
// Executable checker
// ---------------------------------------------------------------------------

/// Every quotation on the stack lies within the first `n` tokens.
pub open spec fn quots_within(s: Seq<ValueView>, n: nat) -> bool {
    forall|i: int| 0 <= i < s.len() ==> (#[trigger] s[i] matches ValueView::Quot(_, _, hi) ==> hi <= n)
}

/// `r` is the outcome `goal` describes, the stack ending as `after`.
pub open spec fn outcome(r: Result<(), TcError>, goal: Result<Seq<ValueView>, TcError>, after: Seq<ValueView>) -> bool {
    match r {
        Ok(_) => goal == Ok::<Seq<ValueView>, TcError>(after),
        Err(x) => goal == Err::<Seq<ValueView>, TcError>(x),
    }
}

/// The atom's bytes, if any.
pub open spec fn opt_atom(t: Option<TypeAtom>) -> Option<Seq<u8>> {
    match t {
        Some(a) => Some(a@),
        None => None,
    }
}

pub fn push_value(stack: &mut Vec<Value>, v: Value) -> (r: Result<(), TcError>)
    ensures
        outcome(r, spec_push(stack_view(old(stack)@), v@), stack_view(final(stack)@)),
        r is Ok ==> stack_view(final(stack)@) == stack_view(old(stack)@).push(v@),
        r is Err ==> final(stack)@ == old(stack)@,
{
    let ghost before = stack@;
    let r = push(stack, v);
    proof {
        if r is Ok {
            assert(stack_view(stack@) =~= stack_view(before).push(v@));
        }
    }
    r
}

proof fn lemma_pop_view(s: Seq<Value>)
    requires
        s.len() > 0,
    ensures
        stack_view(s.drop_last()) == stack_view(s).drop_last(),
        stack_view(s).last() == s.last()@,
{
    assert(stack_view(s.drop_last()) =~= stack_view(s).drop_last());
}

fn load(stack: &mut Vec<Value>, ty: Option<TypeAtom>, span: Span) -> (r: Result<(), TcError>)
    ensures
        outcome(r, spec_load(stack_view(old(stack)@), opt_atom(ty), span), stack_view(final(stack)@)),
{
    let ghost sv = stack_view(stack@);
    let n = stack.len();
    if n == 0 {
        return Err(TcError::MmioTypedPopAddr { span });
    }
    let top = stack[n - 1];
    proof {
        lemma_pop_view(stack@);
    }
    let out: TypeAtom = match top {
        Value::MmioPtr { reg, .. } => {
            if !access_can_read(reg.access) {
                return Err(TcError::MmioReadNotAllowed { span });
            }
            if let Some(w) = ty {
                if !w.same(&reg.reg_ty) {
                    return Err(TcError::MmioTypedTypeMismatch { span });
                }
            }
            reg.reg_ty
        },
        Value::MmioPlace(MmioResolved::Reg(reg)) => {
            if !access_can_read(reg.access) {
                return Err(TcError::MmioReadNotAllowed { span });
            }
            if let Some(w) = ty {
                if !w.same(&reg.reg_ty) {
                    return Err(TcError::MmioTypedTypeMismatch { span });
                }
            }
            reg.reg_ty
        },
        Value::MmioPlace(MmioResolved::Field(f)) => {
            if !access_can_read(f.reg_access) || !access_can_read(f.field.access) {
                return Err(TcError::MmioReadNotAllowed { span });
            }
            if ty.is_some() {
                return Err(TcError::MmioTypedMismatch { span });
            }
            f.field.ty
        },
        Value::Plain(t) => {
            let w = match ty {
                None => return Err(TcError::MmioTypedNotAllowed { span }),
                Some(w) => w,
            };
            let p = TypeAtom::new(&lit_ptr()).unwrap();
            let pm = TypeAtom::new(&lit_ptr_mut()).unwrap();
            if !t.same(&p) && !t.same(&pm) {
                return Err(TcError::MmioTypedNotAllowed { span });
            }
            w
        },
        _ => return Err(TcError::MmioTypedNotAllowed { span }),
    };
    stack.pop();
    push_value(stack, Value::Plain(out))
}

fn store(stack: &mut Vec<Value>, ty: Option<TypeAtom>, span: Span) -> (r: Result<(), TcError>)
    ensures
        outcome(r, spec_store(stack_view(old(stack)@), opt_atom(ty), span), stack_view(final(stack)@)),
{
    let ghost sv = stack_view(stack@);
    let n = stack.len();
    if n < 2 {
        return Err(TcError::MmioTypedPopAddr { span });
    }
    let val = stack[n - 1];
    let addr = stack[n - 2];
    assert(sv[n - 1] == val@);
    assert(sv[n - 2] == addr@);
    match (addr, val) {
        (Value::MmioPtr { reg, mutable }, Value::Plain(vty)) => {
            if !mutable || !access_can_write(reg.access) {
                return Err(TcError::MmioAccessViolation { span });
            }
            if let Some(w) = ty {
                if !w.same(&reg.reg_ty) {
                    return Err(TcError::MmioTypedTypeMismatch { span });
                }
            }
            if !vty.same(&reg.reg_ty) {
                return Err(TcError::ReturnTypeMismatch { span });
            }
        },
        (Value::MmioPlace(MmioResolved::Reg(reg)), Value::Plain(vty)) => {
            if !access_can_write(reg.access) {
                return Err(TcError::MmioAccessViolation { span });
            }
            if let Some(w) = ty {
                if !w.same(&reg.reg_ty) {
                    return Err(TcError::MmioTypedTypeMismatch { span });
                }
            }
            if !vty.same(&reg.reg_ty) {
                return Err(TcError::ReturnTypeMismatch { span });
            }
        },
        (Value::MmioPlace(MmioResolved::Field(f)), Value::Plain(vty)) => {
            if !access_can_write(f.reg_access) || !access_can_write(f.field.access) {
                return Err(TcError::MmioAccessViolation { span });
            }
            if ty.is_some() {
                return Err(TcError::MmioTypedMismatch { span });
            }
            if !vty.same(&f.field.ty) {
                return Err(TcError::ReturnTypeMismatch { span });
            }
        },
        (Value::Plain(t), Value::Plain(_)) => {
            if ty.is_none() {
                return Err(TcError::MmioTypedNotAllowed { span });
            }
            let pm = TypeAtom::new(&lit_ptr_mut()).unwrap();
            if !t.same(&pm) {
                return Err(TcError::MmioTypedNotAllowed { span });
            }
        },
        _ => return Err(TcError::MmioTypedNotAllowed { span }),
    }
    let ghost before = stack@;
    stack.truncate(n - 2);
    assert(stack_view(stack@) =~= sv.subrange(0, n - 2));
    Ok(())
}

/// A load (`@`, `@T`) or store (`!`, `!T`) named `name` (see
/// `spec_load_store`).
pub fn load_store(stack: &mut Vec<Value>, name: &[u8], span: Span) -> (r: Result<(), TcError>)
    requires
        is_load_store(name@),
    ensures
        outcome(r, spec_load_store(stack_view(old(stack)@), name@, span), stack_view(final(stack)@)),
{
    let typed = name.len() > 1;
    let ty: Option<TypeAtom> = if typed {
        let rest = slice_subrange(name, 1, name.len());
        match TypeAtom::new(rest) {
            Some(a) => Some(a),
            None => return Err(TcError::MmioTypedAtomInvalid { span }),
        }
    } else {
        None
    };
    proof {
        if typed {
            assert(opt_atom(ty) == Some(name@.subrange(1, name@.len() as int)));
        }
    }
    if name[0] == 64u8 {
        load(stack, ty, span)
    } else {
        store(stack, ty, span)
    }
}

fn is_shuffle_name(name: &[u8]) -> (r: bool)
    ensures
        r == is_shuffle(name@),
{
    bytes_eq(name, &lit_dup()) || bytes_eq(name, &lit_drop()) || bytes_eq(name, &lit_swap())
}

fn is_control_name(name: &[u8]) -> (r: bool)
    ensures
        r == is_control(name@),
{
    bytes_eq(name, &lit_if()) || bytes_eq(name, &lit_while()) || bytes_eq(name, &lit_loop()) || bytes_eq(
        name,
        &lit_lock(),
    )
}

fn is_cast_name(name: &[u8]) -> (r: bool)
    ensures
        r == is_cast(name@),
{
    bytes_eq(name, &lit_as()) || bytes_eq(name, &lit_as_checked()) || bytes_eq(name, &lit_bitcast())
}

/// `dup`, `drop` or `swap` (see `spec_shuffle`).
pub fn shuffle(stack: &mut Vec<Value>, name: &[u8], under: TcError) -> (r: Result<(), TcError>)
    requires
        is_shuffle(name@),
    ensures
        outcome(r, spec_shuffle(stack_view(old(stack)@), name@, under), stack_view(final(stack)@)),
        r is Ok ==> forall|i: int|
            0 <= i < stack_view(final(stack)@).len() ==> exists|j: int|
                0 <= j < stack_view(old(stack)@).len() && #[trigger] stack_view(final(stack)@)[i]
                    == stack_view(old(stack)@)[j],
{
    let ghost sv = stack_view(stack@);
    let n = stack.len();
    if bytes_eq(name, &lit_dup()) {
        if n == 0 {
            return Err(under);
        }
        let top = stack[n - 1];
        proof {
            lemma_pop_view(stack@);
        }
        stack.pop();
        push_value(stack, top)?;
        let r = push_value(stack, top);
        proof {
            if r is Ok {
                assert forall|i: int| 0 <= i < stack_view(stack@).len() implies exists|j: int|
                    0 <= j < sv.len() && #[trigger] stack_view(stack@)[i] == sv[j] by {
                    if i < n - 1 {
                        assert(stack_view(stack@)[i] == sv[i]);
                    } else {
                        assert(stack_view(stack@)[i] == sv[n - 1]);
                    }
                }
            }
        }
        r
    } else if bytes_eq(name, &lit_drop()) {
        if n == 0 {
            return Err(under);
        }
        proof {
            lemma_pop_view(stack@);
        }
        stack.pop();
        proof {
            assert forall|i: int| 0 <= i < stack_view(stack@).len() implies exists|j: int|
                0 <= j < sv.len() && #[trigger] stack_view(stack@)[i] == sv[j] by {
                assert(stack_view(stack@)[i] == sv[i]);
            }
        }
        Ok(())
    } else {
        if n < 2 {
            return Err(under);
        }
        let b = stack[n - 1];
        let a = stack[n - 2];
        assert(sv[n - 1] == b@);
        assert(sv[n - 2] == a@);
        stack.truncate(n - 2);
        assert(stack_view(stack@) =~= sv.subrange(0, n - 2));
        push_value(stack, b)?;
        let r = push_value(stack, a);
        proof {
            if r is Ok {
                assert forall|i: int| 0 <= i < stack_view(stack@).len() implies exists|j: int|
                    0 <= j < sv.len() && #[trigger] stack_view(stack@)[i] == sv[j] by {
                    if i < n - 2 {
                        assert(stack_view(stack@)[i] == sv[i]);
                    } else if i == n - 2 {
                        assert(stack_view(stack@)[i] == sv[n - 1]);
                    } else {
                        assert(stack_view(stack@)[i] == sv[n - 2]);
                    }
                }
            }
        }
        r
    }
}

/// The fixed inputs of checking one word body.
pub struct Checker<'a> {
    pub src: &'a [u8],
    /// Where the body lies in `src`.
    pub body: Span,
    /// The body's tokens, spans relative to the body's start, ending in `Eof`.
    pub toks: &'a [Token],
    pub env: &'a [WordEntry],
    pub subtypes: &'a [SubtypeInfo],
    pub mmio: &'a MmioDb,
}

impl<'a> Checker<'a> {
    /// What the checker reads, as values.
    pub open spec fn benv(&self) -> BodyEnv {
        BodyEnv {
            src: self.src@,
            base: self.body.start as int,
            slice: self.src@.subrange(self.body.start as int, self.body.end as int),
            toks: self.toks@,
            env: self.env@,
            subtypes: self.subtypes@,
            mmio: self.mmio@,
        }
    }

    /// The body lies in the source, its tokens lie in the body in order,
    /// and the MMIO database is well formed for the source.
    pub open spec fn wf(&self) -> bool {
        &&& self.body.within(self.src@.len())
        &&& spans_within(self.toks@, (self.body.end - self.body.start) as nat)
        &&& tokens_ordered(self.toks@)
        &&& self.toks@.len() + 8 <= usize::MAX
        &&& self.mmio.wf(self.src@.len())
    }

    pub fn body_slice(&self) -> (b: &'a [u8])
        requires
            self.wf(),
        ensures
            b@ == self.benv().slice,
    {
        slice_subrange(self.src, self.body.start, self.body.end)
    }

    pub fn abs_span(&self, s: Span) -> (r: Span)
        requires
            self.wf(),
            s.within((self.body.end - self.body.start) as nat),
        ensures
            r == abs(self.benv(), s),
    {
        Span::new(self.body.start + s.start, self.body.start + s.end)
    }

    /// Calling a known word (see `spec_call`).
    pub fn call(&self, name: &[u8], missing: TcError, span: Span, stack: &mut Vec<Value>, allow: bool) -> (r: Result<
        (),
        TcError,
    >)
        ensures
            outcome(r, spec_call(self.benv(), name@, missing, span, stack_view(old(stack)@), allow), stack_view(final(stack)@)),
    {
        match lookup(self.env, name) {
            None => Err(missing),
            Some(w) => {
                if w.may_suspend() && !allow {
                    return Err(TcError::SuspendingInNonSuspendingContext { span });
                }
                apply_sig(stack, w, span, self.subtypes)
            },
        }
    }

    /// Borrowing a place (see `spec_borrow`).
    fn borrow(&self, bytes: &[u8], span: Span, mutable: bool, stack: &mut Vec<Value>) -> (r: Result<(), TcError>)
        requires
            self.wf(),
        ensures
            outcome(r, spec_borrow(self.benv(), bytes@, span, mutable, stack_view(old(stack)@)), stack_view(final(stack)@)),
    {
        match resolve_mmio_place(self.mmio, self.src, bytes, span) {
            Err(x) => Err(x),
            Ok(Some(MmioResolved::Reg(reg))) => {
                if mutable && !access_can_write(reg.access) {
                    return Err(TcError::MmioAccessViolation { span });
                }
                push_value(stack, Value::MmioPtr { reg, mutable })
            },
            Ok(Some(MmioResolved::Field(_))) => Err(TcError::MmioFieldNotAddressable { span }),
            Ok(None) => {
                let t = if mutable {
                    TypeAtom::new(&lit_ptr_mut()).unwrap()
                } else {
                    TypeAtom::new(&lit_ptr()).unwrap()
                };
                push_value(stack, Value::Plain(t))
            },
        }
    }
}

/// Each token of a nested body is followed by a later one, no further than
/// the body's end.
pub proof fn lemma_next_pos_bounds(e: BodyEnv, m: BodyMode, hi: int, p: int)
    requires
        0 <= p < hi,
        spans_within(e.toks, e.slice.len()),
    ensures
        p < next_pos(e, m, hi, p) <= hi,
{
    let t = tk(e.toks, p, hi);
    if t.kind == TokenKind::Ident {
        let first = tk(e.toks, p, hi);
        let ft = tok_bytes(e.slice, first);
        crate::names::lemma_tk_within(e.toks, e.slice.len(), p, hi);
        if ft.len() <= crate::names::QNAME_CAP {
            crate::names::lemma_qual_ext_bounds(e.slice, e.toks, hi, p + 1, ft, first.span.end as int);
        }
    } else if t.kind == TokenKind::PunctLBracket {
        lemma_close_of_bounds(e.toks, hi, p + 1, 1, TokenKind::PunctLBracket, TokenKind::PunctRBracket, false);
    } else if t.kind == TokenKind::PunctAmp || t.kind == TokenKind::PunctAmpBang {
        let first = tk(e.toks, p + 1, hi);
        if first.kind == TokenKind::Ident {
            crate::names::lemma_tk_within(e.toks, e.slice.len(), p + 1, hi);
            crate::names::lemma_place_ext_bounds(e.toks, hi, p + 2, first.span.end as int, e.slice.len());
        }
    } else if t.kind == TokenKind::PunctAmpLBracket || t.kind == TokenKind::PunctAmpBangLBracket {
        lemma_close_of_bounds(e.toks, hi, p + 1, 1, TokenKind::PunctLBracket, TokenKind::PunctRBracket, true);
    }
}

/// Keeping a prefix of the stack keeps its quotations in range.
pub proof fn lemma_quots_prefix(s: Seq<ValueView>, k: int, n: nat)
    requires
        quots_within(s, n),
        0 <= k <= s.len(),
    ensures
        quots_within(s.subrange(0, k), n),
{
    assert forall|i: int| 0 <= i < k implies (#[trigger] s.subrange(0, k)[i] matches ValueView::Quot(_, _, hi)
        ==> hi <= n) by {
        assert(s.subrange(0, k)[i] == s[i]);
    }
}

/// Pushing a value that is not an out-of-range quotation keeps the
/// stack's quotations in range.
pub proof fn lemma_quots_push(s: Seq<ValueView>, v: ValueView, n: nat)
    requires
        quots_within(s, n),
        v matches ValueView::Quot(_, _, hi) ==> hi <= n,
    ensures
        quots_within(s.push(v), n),
{
    assert forall|i: int| 0 <= i < s.len() + 1 implies (#[trigger] s.push(v)[i] matches ValueView::Quot(_, _, hi)
        ==> hi <= n) by {
        if i < s.len() {
            assert(s.push(v)[i] == s[i]);
        }
    }
}

/// Applying a signature keeps the stack's quotations in range.
pub proof fn lemma_apply_sig_quots(s: Seq<ValueView>, w: WordEntry, span: Span, subs: Seq<SubtypeInfo>, n: nat)
    requires
        quots_within(s, n),
        spec_apply_sig(s, w, span, subs) is Ok,
    ensures
        quots_within(spec_apply_sig(s, w, span, subs).unwrap(), n),
{
    let r = spec_apply_sig(s, w, span, subs).unwrap();
    let k = s.len() - w.sig.ins().len();
    let outs = w.sig.outs().map_values(|t: Seq<u8>| ValueView::Plain(t));
    assert(r == s.subrange(0, k) + outs);
    assert forall|i: int| 0 <= i < r.len() implies (#[trigger] r[i] matches ValueView::Quot(_, _, hi) ==> hi <= n) by {
        if i < k {
            assert(r[i] == s[i]);
        } else {
            assert(r[i] == outs[i - k]);
        }
    }
}

/// Borrowing keeps the stack's quotations in range.
pub proof fn lemma_borrow_quots(e: BodyEnv, bytes: Seq<u8>, span: Span, mutable: bool, s: Seq<ValueView>, n: nat)
    requires
        quots_within(s, n),
        spec_borrow(e, bytes, span, mutable, s) is Ok,
    ensures
        quots_within(spec_borrow(e, bytes, span, mutable, s).unwrap(), n),
{
    match spec_resolve_place(e.mmio, e.src, bytes, span) {
        Ok(Some(r)) => {
            if r.4 is None {
                lemma_quots_push(s, ValueView::MmioPtr(r, mutable), n);
            }
        },
        Ok(None) => {
            lemma_quots_push(s, ValueView::Plain(if mutable { sp_ptr_mut() } else { sp_ptr() }), n);
        },
        Err(_) => {},
    }
}

/// Shuffling keeps the stack's quotations in range.
pub proof fn lemma_shuffle_quots(s: Seq<ValueView>, name: Seq<u8>, under: TcError, n: nat)
    requires
        quots_within(s, n),
    ensures
        spec_shuffle(s, name, under) matches Ok(r) ==> quots_within(r, n),
{
    if spec_shuffle(s, name, under) is Ok {
        let r = spec_shuffle(s, name, under).unwrap();
        assert forall|i: int| 0 <= i < r.len() implies (#[trigger] r[i] matches ValueView::Quot(_, _, hi) ==> hi <= n) by {
            if name == sp_dup() {
                if i < s.len() - 1 {
                    assert(r[i] == s[i]);
                } else {
                    assert(r[i] == s[s.len() - 1]);
                }
            } else if name == sp_drop() {
                assert(r[i] == s[i]);
            } else {
                if i < s.len() - 2 {
                    assert(r[i] == s[i]);
                } else if i == s.len() - 2 {
                    assert(r[i] == s[s.len() - 1]);
                } else {
                    assert(r[i] == s[s.len() - 2]);
                }
            }
        }
    }
}

/// Calling a word keeps the stack's quotations in range.
pub proof fn lemma_call_quots(
    e: BodyEnv,
    name: Seq<u8>,
    missing: TcError,
    span: Span,
    s: Seq<ValueView>,
    allow: bool,
    n: nat,
)
    requires
        quots_within(s, n),
    ensures
        spec_call(e, name, missing, span, s, allow) matches Ok(r) ==> quots_within(r, n),
{
    if spec_call(e, name, missing, span, s, allow) is Ok {
        let i = first_of(entry_names(e.env), name).unwrap();
        lemma_apply_sig_quots(s, e.env[i], span, e.subtypes, n);
    }
}

/// Loads, stores and shuffles keep the stack's quotations in range.
pub proof fn lemma_load_store_quots(s: Seq<ValueView>, name: Seq<u8>, span: Span, n: nat)
    requires
        quots_within(s, n),
        spec_load_store(s, name, span) is Ok,
    ensures
        quots_within(spec_load_store(s, name, span).unwrap(), n),
{
    if s.len() >= 2 {
        lemma_quots_prefix(s, s.len() - 2, n);
    }
    if s.len() >= 1 {
        lemma_quots_prefix(s, s.len() - 1, n);
        assert(s.drop_last() == s.subrange(0, s.len() - 1));
        let typed = name.len() > 1;
        let tyname = name.subrange(1, name.len() as int);
        let ty = if typed { Some(tyname) } else { None };
        if name[0] == 64u8 {
            let r = spec_load(s, ty, span);
            if r is Ok {
                assert(exists|t: Seq<u8>| r == Ok::<_, TcError>(s.drop_last().push(ValueView::Plain(t))));
                let t = choose|t: Seq<u8>| r == Ok::<_, TcError>(s.drop_last().push(ValueView::Plain(t)));
                lemma_quots_push(s.drop_last(), ValueView::Plain(t), n);
            }
        }
    }
}

pub fn copy_stack(s: &Vec<Value>) -> (r: Vec<Value>)
    ensures
        r@ == s@,
{
    let mut r: Vec<Value> = Vec::new();
    let mut i: usize = 0;
    while i < s.len()
        invariant
            i <= s@.len(),
            r@ == s@.subrange(0, i as int),
        decreases s@.len() - i,
    {
        r.push(s[i]);
        i += 1;
        assert(r@ =~= s@.subrange(0, i as int));
    }
    assert(s@.subrange(0, i as int) =~= s@);
    r
}

fn same_stack(a: &Vec<Value>, b: &Vec<Value>) -> (r: bool)
    ensures
        r == (stack_view(a@) == stack_view(b@)),
{
    if a.len() != b.len() {
        assert(stack_view(a@).len() != stack_view(b@).len());
        return false;
    }
    let mut i: usize = 0;
    while i < a.len()
        invariant
            a@.len() == b@.len(),
            i <= a@.len(),
            forall|j: int| 0 <= j < i ==> stack_view(a@)[j] == stack_view(b@)[j],
        decreases a@.len() - i,
    {
        if !value_eq(&a[i], &b[i]) {
            assert(stack_view(a@)[i as int] != stack_view(b@)[i as int]);
            return false;
        }
        i += 1;
    }
    assert(stack_view(a@) =~= stack_view(b@));
    true
}

impl<'a> Checker<'a> {
    /// Checks the tokens of a nested body from `p0` up to `hi` (see `spec_seq`).
    pub fn check_seq(&self, fuel: u32, m: BodyMode, hi: usize, p0: usize, stack: &mut Vec<Value>, allow: bool) -> (r: Result<
        (),
        TcError,
    >)
        requires
            self.wf(),
            hi <= self.toks@.len(),
            quots_within(stack_view(old(stack)@), self.toks@.len()),
        ensures
            outcome(
                r,
                spec_seq(self.benv(), fuel as nat, m, hi as int, p0 as int, stack_view(old(stack)@), allow),
                stack_view(final(stack)@),
            ),
            r is Err ==> stack_view(final(stack)@) == spec_seq_stack(
                self.benv(),
                fuel as nat,
                m,
                hi as int,
                p0 as int,
                stack_view(old(stack)@),
                allow,
            ),
            r is Ok ==> quots_within(stack_view(final(stack)@), self.toks@.len()),
        decreases fuel, hi - p0, 3nat,
    {
        let ghost e = self.benv();
        let ghost goal = spec_seq(e, fuel as nat, m, hi as int, p0 as int, stack_view(stack@), allow);
        let ghost goal_stack = spec_seq_stack(e, fuel as nat, m, hi as int, p0 as int, stack_view(stack@), allow);
        let mut p = p0;
        loop
            invariant
                self.wf(),
                e == self.benv(),
                hi <= self.toks@.len(),
                p0 <= p,
                quots_within(stack_view(stack@), self.toks@.len()),
                goal == spec_seq(e, fuel as nat, m, hi as int, p0 as int, stack_view(old(stack)@), allow),
                goal == spec_seq(e, fuel as nat, m, hi as int, p as int, stack_view(stack@), allow),
                goal_stack == spec_seq_stack(e, fuel as nat, m, hi as int, p0 as int, stack_view(old(stack)@), allow),
                goal_stack == spec_seq_stack(e, fuel as nat, m, hi as int, p as int, stack_view(stack@), allow),
            decreases hi - p,
        {
            if p >= hi {
                return Ok(());
            }
            let t = token_in(self.toks, p, hi);
            if t.kind == TokenKind::Eof {
                return Ok(());
            }
            proof {
                lemma_next_pos_bounds(e, m, hi as int, p as int);
            }
            let ghost cur = stack_view(stack@);
            let ghost np_s = next_pos(e, m, hi as int, p as int);
            assert(goal == match spec_step(e, fuel as nat, m, hi as int, p as int, cur, allow) {
                Err(x) => Err(x),
                Ok(s2) => spec_seq(e, fuel as nat, m, hi as int, np_s, s2, allow),
            });
            assert(goal_stack == match spec_step(e, fuel as nat, m, hi as int, p as int, cur, allow) {
                Err(_) => spec_step_stack(e, fuel as nat, m, hi as int, p as int, cur, allow),
                Ok(s2) => spec_seq_stack(e, fuel as nat, m, hi as int, np_s, s2, allow),
            });
            let np = self.step(fuel, m, hi, p, stack, allow)?;
            p = np;
        }
    }

    /// Checks the token at `p` of a nested body (see `spec_step`); gives
    /// the position of the token after it.  A failing token leaves the stack
    /// as `spec_step_stack` says: as it was, but for a scoped block.
    #[verifier::rlimit(50)]
    #[verifier::spinoff_prover]
    pub fn step(&self, fuel: u32, m: BodyMode, hi: usize, p: usize, stack: &mut Vec<Value>, allow: bool) -> (r: Result<
        usize,
        TcError,
    >)
        requires
            self.wf(),
            p < hi <= self.toks@.len(),
            quots_within(stack_view(old(stack)@), self.toks@.len()),
        ensures
            ({
                let goal = spec_step(self.benv(), fuel as nat, m, hi as int, p as int, stack_view(old(stack)@), allow);
                match r {
                    Ok(np) => goal == Ok::<Seq<ValueView>, TcError>(stack_view(final(stack)@)) && np == next_pos(
                        self.benv(),
                        m,
                        hi as int,
                        p as int,
                    ),
                    Err(x) => goal == Err::<Seq<ValueView>, TcError>(x) && stack_view(final(stack)@)
                        == spec_step_stack(self.benv(), fuel as nat, m, hi as int, p as int, stack_view(old(stack)@), allow),
                }
            }),
            r is Ok ==> quots_within(stack_view(final(stack)@), self.toks@.len()),
        decreases fuel, hi - p, 2nat,
    {
        let ghost e = self.benv();
        let ghost sv = stack_view(stack@);
        let ghost n = self.toks@.len();
        let slice = self.body_slice();
        let t = token_in(self.toks, p, hi);
        proof {
            crate::names::lemma_tk_within(self.toks@, slice@.len(), p as int, hi as int);
        }
        let ms = match m {
            BodyMode::Quote { span } => span,
            BodyMode::Plain { span } => span,
        };
        if t.kind == TokenKind::PunctAmpLBracket || t.kind == TokenKind::PunctAmpBangLBracket {
            let mutable = t.kind == TokenKind::PunctAmpBangLBracket;
            let len = stack.len();
            if len == 0 {
                return Err(TcError::EmptyStackForScoped { span: ms });
            }
            let top_ty = value_type(&stack[len - 1]);
            assert(sv.last() == stack@[len - 1]@);
            let region = TypeAtom::new(&lit_region()).unwrap();
            if array_elem_type(top_ty).is_none() && !top_ty.same(&region) {
                return Err(TcError::ScopedTypeMismatch { span: ms });
            }
            let marker = TypeAtom::new(&lit_scoped()).unwrap();
            push_value(stack, Value::Plain(marker))?;
            proof {
                lemma_quots_push(sv, ValueView::Plain(marker@), n);
            }
            let c = match capture_scoped_block(self.toks, hi, p) {
                None => return Err(TcError::ScopedBlockUnterminated { span: ms }),
                Some(c) => c,
            };
            proof {
                lemma_close_of_bounds(e.toks, hi as int, p + 1, 1, TokenKind::PunctLBracket, TokenKind::PunctRBracket, true);
            }
            let close = token_in(self.toks, c, hi);
            proof {
                crate::names::lemma_tk_within(self.toks@, slice@.len(), c as int, hi as int);
                assert(tk(e.toks, p as int, c + 1) == t);
                assert(tk(e.toks, c as int, c + 1) == close);
            }
            let bspan = Span::new(self.body.start + t.span.end, self.body.start + close.span.start);
            let inner_allow = if mutable { false } else { allow };
            self.check_seq(fuel, BodyMode::Plain { span: bspan }, c, p + 1, stack, inner_allow)?;
            if !check_no_scoped_live(stack.as_slice()) {
                return Err(TcError::ScopedMarkerLeak { span: ms });
            }
            return Ok(c + 1);
        }
        let mut work = copy_stack(stack);
        let r = self.step_token(fuel, m, hi, p, &mut work, allow);
        if r.is_ok() {
            *stack = work;
        }
        r
    }

    /// Checks the token at `p`, not a scoped block, of a nested body (see
    /// `spec_step`); gives the position of the token after it.
    fn step_token(&self, fuel: u32, m: BodyMode, hi: usize, p: usize, stack: &mut Vec<Value>, allow: bool) -> (r: Result<
        usize,
        TcError,
    >)
        requires
            self.wf(),
            p < hi <= self.toks@.len(),
            quots_within(stack_view(old(stack)@), self.toks@.len()),
            tk(self.toks@, p as int, hi as int).kind != TokenKind::PunctAmpLBracket,
            tk(self.toks@, p as int, hi as int).kind != TokenKind::PunctAmpBangLBracket,
        ensures
            ({
                let goal = spec_step(self.benv(), fuel as nat, m, hi as int, p as int, stack_view(old(stack)@), allow);
                match r {
                    Ok(np) => goal == Ok::<Seq<ValueView>, TcError>(stack_view(final(stack)@)) && np == next_pos(
                        self.benv(),
                        m,
                        hi as int,
                        p as int,
                    ),
                    Err(x) => goal == Err::<Seq<ValueView>, TcError>(x),
                }
            }),
            r is Ok ==> quots_within(stack_view(final(stack)@), self.toks@.len()),
        decreases fuel, hi - p, 1nat,
    {
        let ghost e = self.benv();
        let ghost sv = stack_view(stack@);
        let ghost n = self.toks@.len();
        let slice = self.body_slice();
        let t = token_in(self.toks, p, hi);
        proof {
            crate::names::lemma_tk_within(self.toks@, slice@.len(), p as int, hi as int);
        }
        let ms = match m {
            BodyMode::Quote { span } => span,
            BodyMode::Plain { span } => span,
        };
        if t.kind == TokenKind::Number {
            let a = TypeAtom::new(&lit_i64()).unwrap();
            push_value(stack, Value::Plain(a))?;
            proof {
                lemma_quots_push(sv, ValueView::Plain(a@), n);
            }
            return Ok(p + 1);
        }
        if t.kind == TokenKind::Ident {
            let (name, nspan, np) = read_qualified_name(slice, self.toks, hi, p);
            proof {
                let first = tk(e.toks, p as int, hi as int);
                let ft = tok_bytes(e.slice, first);
                if ft.len() <= crate::names::QNAME_CAP {
                    crate::names::lemma_qual_ext_bounds(e.slice, e.toks, hi as int, p + 1, ft, first.span.end as int);
                }
            }
            let nabs = self.abs_span(nspan);
            self.dispatch(fuel, m, true, name.as_slice(), nabs, stack, allow)?;
            return Ok(np);
        }
        if t.kind == TokenKind::PunctGe || t.kind == TokenKind::PunctLe || t.kind == TokenKind::PunctEqEq || t.kind
            == TokenKind::PunctNe {
            let name = token_bytes(slice, t);
            match m {
                BodyMode::Quote { span } => {
                    self.call(name, TcError::QuoteWordNotFound { span }, span, stack, allow)?;
                    proof {
                        let w = e.env[first_of(entry_names(e.env), name@).unwrap()];
                        lemma_apply_sig_quots(sv, w, span, e.subtypes, n);
                    }
                },
                BodyMode::Plain { .. } => {
                    let tabs = self.abs_span(t.span);
                    self.dispatch(fuel, m, false, name, tabs, stack, allow)?;
                },
            }
            return Ok(p + 1);
        }
        if t.kind == TokenKind::PunctArrowBind {
            match m {
                BodyMode::Quote { span } => return Err(TcError::BindNotAllowed { span }),
                BodyMode::Plain { .. } => return Ok(p + 1),
            }
        }
        if t.kind == TokenKind::PunctLBracket {
            let c = match capture_balanced(self.toks, hi, p, TokenKind::PunctLBracket, TokenKind::PunctRBracket) {
                None => return Err(TcError::QuoteUnterminated { span: ms }),
                Some(c) => c,
            };
            proof {
                lemma_close_of_bounds(e.toks, hi as int, p + 1, 1, TokenKind::PunctLBracket, TokenKind::PunctRBracket, false);
            }
            let close = token_in(self.toks, c, hi);
            proof {
                crate::names::lemma_tk_within(self.toks@, slice@.len(), c as int, hi as int);
                assert(tk(e.toks, p as int, c + 1) == t);
                assert(tk(e.toks, c as int, c + 1) == close);
            }
            let qspan = Span::new(self.body.start + t.span.start, self.body.start + close.span.end);
            let q = Value::Quot { span: qspan, first: p + 1, close: c };
            push_value(stack, q)?;
            proof {
                lemma_quots_push(sv, q@, n);
            }
            return Ok(c + 1);
        }
        if t.kind == TokenKind::PunctAmp || t.kind == TokenKind::PunctAmpBang {
            let mutable = t.kind == TokenKind::PunctAmpBang;
            if p + 1 >= hi {
                return Err(TcError::PlaceParseFailed { span: ms });
            }
            let (_, full, nx) = match parse_place(self.toks, hi, p + 1, slice.len()) {
                None => return Err(TcError::PlaceParseFailed { span: ms }),
                Some(x) => x,
            };
            let bytes = slice_subrange(slice, full.start, full.end);
            let fabs = self.abs_span(full);
            self.borrow(bytes, fabs, mutable, stack)?;
            proof {
                lemma_borrow_quots(e, bytes@, fabs, mutable, sv, n);
            }
            return Ok(nx);
        }
        Ok(p + 1)
    }

    /// Checks a name in a nested body (see `spec_dispatch`).
    pub fn dispatch(
        &self,
        fuel: u32,
        m: BodyMode,
        is_ident: bool,
        name: &[u8],
        nspan: Span,
        stack: &mut Vec<Value>,
        allow: bool,
    ) -> (r: Result<(), TcError>)
        requires
            self.wf(),
            quots_within(stack_view(old(stack)@), self.toks@.len()),
        ensures
            outcome(
                r,
                spec_dispatch(self.benv(), fuel as nat, m, is_ident, name@, nspan, stack_view(old(stack)@), allow),
                stack_view(final(stack)@),
            ),
            r is Ok ==> quots_within(stack_view(final(stack)@), self.toks@.len()),
        decreases fuel, 0int, 4nat,
    {
        let ghost e = self.benv();
        let ghost sv = stack_view(stack@);
        let ghost n = self.toks@.len();
        let ms = match m {
            BodyMode::Quote { span } => span,
            BodyMode::Plain { span } => span,
        };
        if bytes_eq(name, &lit_true()) || bytes_eq(name, &lit_false()) {
            let b = TypeAtom::new(&lit_bool()).unwrap();
            push_value(stack, Value::Plain(b))?;
            proof {
                lemma_quots_push(sv, ValueView::Plain(b@), n);
            }
            return Ok(());
        }
        if is_ident && name.len() > 0 && (name[0] == 64u8 || name[0] == 33u8) {
            let r = load_store(stack, name, nspan);
            proof {
                if r is Ok {
                    lemma_load_store_quots(sv, name@, nspan, n);
                }
            }
            return r;
        }
        let place = if is_ident {
            resolve_mmio_place(self.mmio, self.src, name, nspan)
        } else {
            Ok(None)
        };
        match place {
            Err(x) => Err(x),
            Ok(Some(res)) => {
                push_value(stack, Value::MmioPlace(res))?;
                proof {
                    lemma_quots_push(sv, ValueView::MmioPlace(res@), n);
                }
                Ok(())
            },
            Ok(None) => self.dispatch_rest(fuel, m, name, stack, allow),
        }
    }

    /// Checks a shuffle, control word, cast or call in a nested body (see
    /// `spec_dispatch_rest`).
    pub fn dispatch_rest(&self, fuel: u32, m: BodyMode, name: &[u8], stack: &mut Vec<Value>, allow: bool) -> (r: Result<
        (),
        TcError,
    >)
        requires
            self.wf(),
            quots_within(stack_view(old(stack)@), self.toks@.len()),
        ensures
            outcome(
                r,
                spec_dispatch_rest(self.benv(), fuel as nat, m, name@, stack_view(old(stack)@), allow),
                stack_view(final(stack)@),
            ),
            r is Ok ==> quots_within(stack_view(final(stack)@), self.toks@.len()),
        decreases fuel, 0int, 3nat,
    {
        let ghost e = self.benv();
        let ghost sv = stack_view(stack@);
        let ghost n = self.toks@.len();
        let ms = match m {
            BodyMode::Quote { span } => span,
            BodyMode::Plain { span } => span,
        };
        if is_shuffle_name(name) {
            let r = shuffle(stack, name, TcError::QuoteStackUnderflow { span: ms });
            proof {
                lemma_shuffle_quots(sv, name@, TcError::QuoteStackUnderflow { span: ms }, n);
            }
            r
        } else if is_control_name(name) {
            assert(spec_dispatch_rest(e, fuel as nat, m, name@, sv, allow) == spec_control(e, fuel as nat, name@, sv, allow));
            self.control(fuel, name, stack, allow)
        } else if matches!(m, BodyMode::Plain { .. }) && is_cast_name(name) {
            assert(spec_dispatch_rest(e, fuel as nat, m, name@, sv, allow) == Ok::<Seq<ValueView>, TcError>(sv));
            Ok(())
        } else {
            assert(ms == mode_span(m));
            assert(spec_dispatch_rest(e, fuel as nat, m, name@, sv, allow) == spec_call(e, name@, TcError::QuoteWordNotFound { span: ms }, ms, sv, allow));
            let r = self.call(name, TcError::QuoteWordNotFound { span: ms }, ms, stack, allow);
            proof {
                lemma_call_quots(e, name@, TcError::QuoteWordNotFound { span: ms }, ms, sv, allow, n);
            }
            r
        }
    }

    /// Runs a control word (see `spec_control`): `if`, `while` and `lock`
    /// by name, anything else as `loop`.
    #[verifier::rlimit(50)]
    #[verifier::spinoff_prover]
    pub fn control(&self, fuel: u32, name: &[u8], stack: &mut Vec<Value>, allow: bool) -> (r: Result<(), TcError>)
        requires
            self.wf(),
            quots_within(stack_view(old(stack)@), self.toks@.len()),
        ensures
            outcome(
                r,
                spec_control(self.benv(), fuel as nat, name@, stack_view(old(stack)@), allow),
                stack_view(final(stack)@),
            ),
            r is Ok ==> quots_within(stack_view(final(stack)@), self.toks@.len()),
        decreases fuel, 0int, 2nat,
    {
        if bytes_eq(name, &lit_if()) {
            return self.do_if(fuel, stack, allow);
        }
        if bytes_eq(name, &lit_while()) {
            return self.do_while(fuel, stack, allow);
        }
        if bytes_eq(name, &lit_lock()) {
            return self.do_lock(fuel, stack, allow);
        }
        proof {
            assert(sp_loop() != sp_if() && sp_loop() != sp_while() && sp_loop() != sp_lock());
        }
        self.do_loop(fuel, stack, allow)
    }

    /// `if` (see `spec_control`).
    fn do_if(&self, fuel: u32, stack: &mut Vec<Value>, allow: bool) -> (r: Result<(), TcError>)
        requires
            self.wf(),
            quots_within(stack_view(old(stack)@), self.toks@.len()),
        ensures
            outcome(
                r,
                spec_control(self.benv(), fuel as nat, sp_if(), stack_view(old(stack)@), allow),
                stack_view(final(stack)@),
            ),
            r is Ok ==> quots_within(stack_view(final(stack)@), self.toks@.len()),
        decreases fuel, 0int, 1nat,
    {
        let ghost e = self.benv();
        let ghost sv = stack_view(stack@);
        let ghost nt = self.toks@.len();
        let n = stack.len();
        let none = Span::new(0, 0);
        proof {
            assert(sp_while() != sp_if());
            assert(sp_loop() != sp_if() && sp_loop() != sp_while() && sp_loop() != sp_lock());
            assert(sp_lock() != sp_if() && sp_lock() != sp_while());
        }
        if n < 1 {
            return Err(TcError::IfPopElse { span: none });
        }
        if n < 2 {
            return Err(TcError::IfPopThen { span: none });
        }
        if n < 3 {
            return Err(TcError::IfPopCond { span: none });
        }
        let cond = stack[n - 3];
        let then_q = stack[n - 2];
        let else_q = stack[n - 1];
        assert(sv[n - 3] == cond@ && sv[n - 2] == then_q@ && sv[n - 1] == else_q@);
        let b = TypeAtom::new(&lit_bool()).unwrap();
        if !value_eq(&cond, &Value::Plain(b)) {
            return Err(TcError::IfCondNotBool { span: none });
        }
        if !matches!(then_q, Value::Quot { .. }) {
            return Err(TcError::IfThenNotQuot { span: none });
        }
        if !matches!(else_q, Value::Quot { .. }) {
            return Err(TcError::IfElseNotQuot { span: none });
        }
        if fuel == 0 {
            let qs = match then_q {
                Value::Quot { span, .. } => span,
                _ => none,
            };
            return Err(TcError::ScopeDepthExceeded { span: qs });
        }
        stack.truncate(n - 3);
        assert(stack_view(stack@) =~= sv.subrange(0, n - 3));
        proof {
            lemma_quots_prefix(sv, n - 3, nt);
        }
        let mut t = copy_stack(stack);
        self.typecheck_quote_body(fuel - 1, then_q, &mut t, allow)?;
        let mut f = copy_stack(stack);
        self.typecheck_quote_body(fuel - 1, else_q, &mut f, allow)?;
        if t.len() != f.len() {
            return Err(TcError::IfBranchDepth { span: none });
        }
        if !same_stack(&t, &f) {
            return Err(TcError::IfBranchContent { span: none });
        }
        *stack = t;
        return Ok(());
    }

    /// `while` (see `spec_control`).
    fn do_while(&self, fuel: u32, stack: &mut Vec<Value>, allow: bool) -> (r: Result<(), TcError>)
        requires
            self.wf(),
            quots_within(stack_view(old(stack)@), self.toks@.len()),
        ensures
            outcome(
                r,
                spec_control(self.benv(), fuel as nat, sp_while(), stack_view(old(stack)@), allow),
                stack_view(final(stack)@),
            ),
            r is Ok ==> quots_within(stack_view(final(stack)@), self.toks@.len()),
        decreases fuel, 0int, 1nat,
    {
        let ghost e = self.benv();
        let ghost sv = stack_view(stack@);
        let ghost nt = self.toks@.len();
        let n = stack.len();
        let none = Span::new(0, 0);
        proof {
            assert(sp_while() != sp_if());
            assert(sp_loop() != sp_if() && sp_loop() != sp_while() && sp_loop() != sp_lock());
            assert(sp_lock() != sp_if() && sp_lock() != sp_while());
        }
        if n < 1 {
            return Err(TcError::WhilePopBody { span: none });
        }
        if n < 2 {
            return Err(TcError::WhilePopCond { span: none });
        }
        let body_q = stack[n - 1];
        let cond_q = stack[n - 2];
        assert(sv[n - 2] == cond_q@ && sv[n - 1] == body_q@);
        if !matches!(body_q, Value::Quot { .. }) {
            return Err(TcError::WhileBodyNotQuot { span: none });
        }
        if !matches!(cond_q, Value::Quot { .. }) {
            return Err(TcError::WhileCondNotQuot { span: none });
        }
        if fuel == 0 {
            let qs = match cond_q {
                Value::Quot { span, .. } => span,
                _ => none,
            };
            return Err(TcError::ScopeDepthExceeded { span: qs });
        }
        stack.truncate(n - 2);
        assert(stack_view(stack@) =~= sv.subrange(0, n - 2));
        proof {
            lemma_quots_prefix(sv, n - 2, nt);
        }
        let base_len = stack.len();
        let mut c = copy_stack(stack);
        self.typecheck_quote_body(fuel - 1, cond_q, &mut c, allow)?;
        if c.len() != base_len + 1 {
            return Err(TcError::WhileCondDepth { span: none });
        }
        let b = TypeAtom::new(&lit_bool()).unwrap();
        assert(stack_view(c@).last() == c@[base_len as int]@);
        if !value_eq(&c[base_len], &Value::Plain(b)) {
            return Err(TcError::WhileCondNotBool { span: none });
        }
        let ghost cv = stack_view(c@);
        c.truncate(base_len);
        assert(stack_view(c@) =~= cv.subrange(0, base_len as int));
        if !same_stack(&c, stack) {
            return Err(TcError::WhileCondModifiedStack { span: none });
        }
        let mut bo = copy_stack(stack);
        self.typecheck_quote_body(fuel - 1, body_q, &mut bo, allow)?;
        if bo.len() != base_len {
            return Err(TcError::WhileBodyDepth { span: none });
        }
        if !same_stack(&bo, stack) {
            return Err(TcError::WhileBodyModifiedStack { span: none });
        }
        return Ok(());
    }

    /// `loop` (see `spec_control`).
    fn do_loop(&self, fuel: u32, stack: &mut Vec<Value>, allow: bool) -> (r: Result<(), TcError>)
        requires
            self.wf(),
            quots_within(stack_view(old(stack)@), self.toks@.len()),
        ensures
            outcome(
                r,
                spec_control(self.benv(), fuel as nat, sp_loop(), stack_view(old(stack)@), allow),
                stack_view(final(stack)@),
            ),
            r is Ok ==> quots_within(stack_view(final(stack)@), self.toks@.len()),
        decreases fuel, 0int, 1nat,
    {
        self.run_body(fuel, false, stack, allow)
    }

    /// `lock`: its body may not suspend (see `spec_control`).
    fn do_lock(&self, fuel: u32, stack: &mut Vec<Value>, allow: bool) -> (r: Result<(), TcError>)
        requires
            self.wf(),
            quots_within(stack_view(old(stack)@), self.toks@.len()),
        ensures
            outcome(
                r,
                spec_control(self.benv(), fuel as nat, sp_lock(), stack_view(old(stack)@), allow),
                stack_view(final(stack)@),
            ),
            r is Ok ==> quots_within(stack_view(final(stack)@), self.toks@.len()),
        decreases fuel, 0int, 1nat,
    {
        self.run_body(fuel, true, stack, allow)
    }

    /// Runs the body quotation of a `loop` or a `lock`, which must keep the
    /// stack (see `spec_control`).
    fn run_body(&self, fuel: u32, is_lock: bool, stack: &mut Vec<Value>, allow: bool) -> (r: Result<(), TcError>)
        requires
            self.wf(),
            quots_within(stack_view(old(stack)@), self.toks@.len()),
        ensures
            outcome(
                r,
                spec_control(self.benv(), fuel as nat, (if is_lock { sp_lock() } else { sp_loop() }), stack_view(old(stack)@), allow),
                stack_view(final(stack)@),
            ),
            r is Ok ==> quots_within(stack_view(final(stack)@), self.toks@.len()),
        decreases fuel, 0int, 0nat,
    {
        let ghost e = self.benv();
        let ghost sv = stack_view(stack@);
        let ghost nt = self.toks@.len();
        let n = stack.len();
        let none = Span::new(0, 0);
        proof {
            assert(sp_while() != sp_if());
            assert(sp_loop() != sp_if() && sp_loop() != sp_while() && sp_loop() != sp_lock());
            assert(sp_lock() != sp_if() && sp_lock() != sp_while());
        }
        if n < 1 {
            return Err(
                if is_lock {
                    TcError::LockPopBody { span: none }
                } else {
                    TcError::LoopPopBody { span: none }
                },
            );
        }
        let body_q = stack[n - 1];
        assert(sv[n - 1] == body_q@);
        if !matches!(body_q, Value::Quot { .. }) {
            return Err(
                if is_lock {
                    TcError::LockBodyNotQuot { span: none }
                } else {
                    TcError::LoopBodyNotQuot { span: none }
                },
            );
        }
        if fuel == 0 {
            let qs = match body_q {
                Value::Quot { span, .. } => span,
                _ => none,
            };
            return Err(TcError::ScopeDepthExceeded { span: qs });
        }
        stack.truncate(n - 1);
        assert(stack_view(stack@) =~= sv.subrange(0, n - 1));
        proof {
            lemma_quots_prefix(sv, n - 1, nt);
        }
        let base_len = stack.len();
        let mut bo = copy_stack(stack);
        let inner_allow = if is_lock { false } else { allow };
        self.typecheck_quote_body(fuel - 1, body_q, &mut bo, inner_allow)?;
        if bo.len() != base_len {
            return Err(
                if is_lock {
                    TcError::LockBodyDepth { span: none }
                } else {
                    TcError::LoopBodyDepth { span: none }
                },
            );
        }
        if !same_stack(&bo, stack) {
            return Err(
                if is_lock {
                    TcError::LockBodyModifiedStack { span: none }
                } else {
                    TcError::LoopBodyModifiedStack { span: none }
                },
            );
        }
        Ok(())
    }

    /// Runs the quotation `q` on the stack (see `spec_quote`).
    pub fn typecheck_quote_body(&self, fuel: u32, q: Value, stack: &mut Vec<Value>, allow: bool) -> (r: Result<(), TcError>)
        requires
            self.wf(),
            quots_within(stack_view(old(stack)@), self.toks@.len()),
            q@ matches ValueView::Quot(_, _, hi) ==> hi <= self.toks@.len(),
        ensures
            outcome(r, spec_quote(self.benv(), fuel as nat, q@, stack_view(old(stack)@), allow), stack_view(final(stack)@)),
            r is Err ==> stack_view(final(stack)@) == spec_quote_stack(
                self.benv(),
                fuel as nat,
                q@,
                stack_view(old(stack)@),
                allow,
            ),
            r is Ok ==> quots_within(stack_view(final(stack)@), self.toks@.len()),
        decreases fuel, quot_len(q@), 5nat,
    {
        let (span, lo, hi) = match q {
            Value::Quot { span, first, close } => (span, first, close),
            _ => return Ok(()),
        };
        let start = self.quote_start(lo, hi);
        if start < lo || start >= hi {
            return Ok(());
        }
        self.check_seq(fuel, BodyMode::Quote { span }, hi, start, stack, allow)
    }

    fn quote_start(&self, lo: usize, hi: usize) -> (r: usize)
        requires
            self.wf(),
            hi <= self.toks@.len(),
        ensures
            r == quote_start(self.toks@, lo as int, hi as int),
    {
        let t = token_in(self.toks, lo, hi);
        if t.kind != TokenKind::PunctLParen {
            return lo;
        }
        match capture_balanced(self.toks, hi, lo, TokenKind::PunctLParen, TokenKind::PunctRParen) {
            None => hi,
            Some(c) => {
                proof {
                    lemma_close_of_bounds(self.toks@, hi as int, lo + 1, 1, TokenKind::PunctLParen, TokenKind::PunctRParen, false);
                }
                if token_in(self.toks, c + 1, hi).kind == TokenKind::EffectSet {
                    c + 2
                } else {
                    c + 1
                }
            },
        }
    }
}


// ---------------------------------------------------------------------------
// Laws of the control words
// ---------------------------------------------------------------------------

/// `while`, `loop` and `lock` never change the stack below their
/// quotations: when one succeeds, the stack is the one it was called on
/// with its quotations popped.
pub proof fn lemma_loops_keep_the_stack(e: BodyEnv, fuel: nat, name: Seq<u8>, s: Seq<ValueView>, allow: bool)
    requires
        name == sp_while() || name == sp_loop() || name == sp_lock(),
        spec_control(e, fuel, name, s, allow) is Ok,
    ensures
        name == sp_while() ==> s.len() >= 2 && spec_control(e, fuel, name, s, allow) == Ok::<_, TcError>(
            s.subrange(0, s.len() - 2),
        ),
        name != sp_while() ==> s.len() >= 1 && spec_control(e, fuel, name, s, allow) == Ok::<_, TcError>(
            s.subrange(0, s.len() - 1),
        ),
{
    assert(sp_while() != sp_if());
    assert(sp_loop() != sp_if() && sp_loop() != sp_while());
    assert(sp_lock() != sp_if() && sp_lock() != sp_while());
}

/// Both branches of a successful `if` run on the stack below its three
/// operands and leave the same stack, which is the result.
pub proof fn lemma_if_branches_agree(e: BodyEnv, fuel: nat, s: Seq<ValueView>, allow: bool)
    requires
        spec_control(e, fuel, sp_if(), s, allow) is Ok,
    ensures
        s.len() >= 3 && fuel >= 1,
        spec_quote(e, (fuel - 1) as nat, s[s.len() - 2], s.subrange(0, s.len() - 3), allow) == spec_control(
            e,
            fuel,
            sp_if(),
            s,
            allow,
        ),
        spec_quote(e, (fuel - 1) as nat, s[s.len() - 1], s.subrange(0, s.len() - 3), allow) == spec_control(
            e,
            fuel,
            sp_if(),
            s,
            allow,
        ),
{
}

/// The body of a `lock` is checked as non-suspending: whether the code
/// around it may suspend makes no difference to its outcome.
pub proof fn lemma_lock_never_suspends(e: BodyEnv, fuel: nat, s: Seq<ValueView>, allow: bool)
    ensures
        spec_control(e, fuel, sp_lock(), s, allow) == spec_control(e, fuel, sp_lock(), s, false),
{
    assert(sp_lock() != sp_if() && sp_lock() != sp_while());
}

} // verus!
