//! Register-map bodies.  A body lists registers, one entry each:
//!
//! ```text
//! OFFSET NAME[N]? TYPE ACCESS volatile? { FIELD LO(..HI)? TYPE ACCESS ... }?
//! ```
//!
//! Tokens other than a number are skipped between entries, and tokens
//! other than a field name are skipped inside a field block.
use vstd::prelude::*;

use crate::error::TcError;
use crate::lit::{bytes_eq, lit_volatile, sp_volatile};
use crate::mmio::{
    mmio_type_width_bytes, parse_access_mode, parse_name_array, spec_access_mode, spec_name_array, spec_width,
    AccessMode, MmioFieldInfo, MmioRegInfo,
};
use crate::numbers::{parse_u32_any, spec_parse_u32_any};
use crate::tokens::{lemma_tok_at_within, stream_ok, tok_at, token_at, Token, TokenKind};
use crate::types::{Span, TypeAtom, ATOM_CAP};

verus! {

/// The bytes of the fragment a token covers.
pub open spec fn tok_text(slice: Seq<u8>, t: Token) -> Seq<u8> {
    slice.subrange(t.span.start as int, t.span.end as int)
}

/// A fragment-relative span moved to where the fragment starts in the source.
pub open spec fn shifted(base: int, s: Span) -> Span {
    Span { start: (base + s.start) as usize, end: (base + s.end) as usize }
}

/// Checking a field block from token `q` on, for a register `width`
/// bytes wide; `lb` is the source span of the opening `{`.  On success,
/// the position just past the closing `}`.
pub open spec fn validate_fields(
    slice: Seq<u8>,
    toks: Seq<Token>,
    base: int,
    q: int,
    width: u32,
    lb: Span,
) -> Result<int, TcError>
    decreases toks.len() - q,
{
    if q < 0 || q >= toks.len() {
        Err(TcError::MmioUnexpectedEof { span: lb })
    } else {
        let ft = toks[q];
        match ft.kind {
            TokenKind::PunctRBrace => Ok(q + 1),
            TokenKind::Eof => Err(TcError::MmioUnexpectedEof { span: lb }),
            TokenKind::Ident => {
                let lo_t = tok_at(toks, q + 1);
                if lo_t.kind != TokenKind::Number {
                    Err(TcError::MmioExpectedLowBit { span: shifted(base, lo_t.span) })
                } else {
                    match spec_parse_u32_any(tok_text(slice, lo_t)) {
                        None => Err(TcError::MmioBadLowBit { span: shifted(base, lo_t.span) }),
                        Some(lo) => {
                            let dd = tok_at(toks, q + 2);
                            let hi_t = tok_at(toks, q + 3);
                            let hi_res: Result<u32, TcError> = if dd.kind == TokenKind::PunctDblDot {
                                if hi_t.kind != TokenKind::Number {
                                    Err(TcError::MmioExpectedHighBit { span: shifted(base, hi_t.span) })
                                } else {
                                    match spec_parse_u32_any(tok_text(slice, hi_t)) {
                                        None => Err(TcError::MmioBadHighBit { span: shifted(base, hi_t.span) }),
                                        Some(hi) => Ok(hi),
                                    }
                                }
                            } else {
                                Ok(lo)
                            };
                            let r = if dd.kind == TokenKind::PunctDblDot { q + 4 } else { q + 2 };
                            match hi_res {
                                Err(e) => Err(e),
                                Ok(hi) => {
                                    let hi2 = if hi >= lo { hi } else { lo };
                                    if hi2 >= width * 8 {
                                        Err(TcError::MmioFieldBitRange { span: shifted(base, lo_t.span) })
                                    } else {
                                        let fty = tok_at(toks, r);
                                        let facc = tok_at(toks, r + 1);
                                        if fty.kind != TokenKind::Ident {
                                            Err(TcError::MmioExpectedFieldType { span: shifted(base, fty.span) })
                                        } else if facc.kind != TokenKind::Ident {
                                            Err(TcError::MmioExpectedFieldAccess { span: shifted(base, facc.span) })
                                        } else if spec_access_mode(tok_text(slice, facc)) is None {
                                            Err(TcError::MmioInvalidFieldAccess { span: shifted(base, facc.span) })
                                        } else if r + 2 > toks.len() {
                                            Err(TcError::MmioUnexpectedEof { span: lb })
                                        } else {
                                            validate_fields(slice, toks, base, r + 2, width, lb)
                                        }
                                    }
                                },
                            }
                        },
                    }
                }
            },
            _ => validate_fields(slice, toks, base, q + 1, width, lb),
        }
    }
}

/// A field's bits must lie in its register: for a field at token `q` (a
/// name, a low bit, and a high bit after `..` or none), whose highest bit
/// `max(lo, hi)` is at least the register's width in bits, checking the
/// field block fails with `MmioFieldBitRange` at the low bit.
pub proof fn lemma_field_bits_must_fit(
    slice: Seq<u8>,
    toks: Seq<Token>,
    base: int,
    q: int,
    width: u32,
    lb: Span,
    lo: u32,
    hi: u32,
)
    requires
        0 <= q < toks.len(),
        toks[q].kind == TokenKind::Ident,
        tok_at(toks, q + 1).kind == TokenKind::Number,
        spec_parse_u32_any(tok_text(slice, tok_at(toks, q + 1))) == Some(lo),
        tok_at(toks, q + 2).kind == TokenKind::PunctDblDot ==> tok_at(toks, q + 3).kind == TokenKind::Number
            && spec_parse_u32_any(tok_text(slice, tok_at(toks, q + 3))) == Some(hi),
        tok_at(toks, q + 2).kind != TokenKind::PunctDblDot ==> hi == lo,
        (if hi >= lo { hi } else { lo }) >= width * 8,
    ensures
        validate_fields(slice, toks, base, q, width, lb) == Err::<int, TcError>(
            TcError::MmioFieldBitRange { span: shifted(base, tok_at(toks, q + 1).span) },
        ),
{
}

/// Checking register entries from token `p` on.
pub open spec fn validate_entries(slice: Seq<u8>, toks: Seq<Token>, base: int, p: int) -> Result<(), TcError>
    decreases toks.len() - p,
{
    if p < 0 || p >= toks.len() {
        Ok(())
    } else {
        let t = toks[p];
        if t.kind == TokenKind::Eof {
            Ok(())
        } else if t.kind != TokenKind::Number {
            validate_entries(slice, toks, base, p + 1)
        } else {
            match spec_parse_u32_any(tok_text(slice, t)) {
                None => Err(TcError::MmioParseFailed { span: shifted(base, t.span) }),
                Some(offset) => {
                    let nt = tok_at(toks, p + 1);
                    let tt = tok_at(toks, p + 2);
                    let at = tok_at(toks, p + 3);
                    if nt.kind != TokenKind::Ident {
                        Err(TcError::MmioExpectedIdent { span: shifted(base, nt.span) })
                    } else if tt.kind != TokenKind::Ident {
                        Err(TcError::MmioExpectedType { span: shifted(base, tt.span) })
                    } else {
                        match spec_width(tok_text(slice, tt)) {
                            None => Err(TcError::MmioRegUnknownWidth { span: shifted(base, tt.span) }),
                            Some(width) => {
                                if offset % width != 0 {
                                    Err(TcError::MmioRegMisaligned { span: shifted(base, t.span) })
                                } else if at.kind != TokenKind::Ident {
                                    Err(TcError::MmioExpectedAccess { span: shifted(base, at.span) })
                                } else if spec_access_mode(tok_text(slice, at)) is None {
                                    Err(TcError::MmioInvalidAccess { span: shifted(base, at.span) })
                                } else {
                                    let vt = tok_at(toks, p + 4);
                                    let q = if vt.kind == TokenKind::Ident && tok_text(slice, vt) == sp_volatile() {
                                        p + 5
                                    } else {
                                        p + 4
                                    };
                                    let lb = tok_at(toks, q);
                                    if lb.kind == TokenKind::PunctLBrace {
                                        match validate_fields(slice, toks, base, q + 1, width, shifted(base, lb.span)) {
                                            Err(e) => Err(e),
                                            Ok(q3) => if p < q3 <= toks.len() {
                                                validate_entries(slice, toks, base, q3)
                                            } else {
                                                Ok(())
                                            },
                                        }
                                    } else if q > toks.len() {
                                        Ok(())
                                    } else {
                                        validate_entries(slice, toks, base, q)
                                    }
                                }
                            },
                        }
                    }
                },
            }
        }
    }
}

/// The register map body `src[body]`, read as the tokens `toks`, is
/// well formed.
pub open spec fn spec_validate_regmap(src: Seq<u8>, body: Span, toks: Seq<Token>) -> Result<(), TcError> {
    validate_entries(src.subrange(body.start as int, body.end as int), toks, body.start as int, 0)
}

proof fn lemma_validate_fields_advances(
    slice: Seq<u8>,
    toks: Seq<Token>,
    base: int,
    q: int,
    width: u32,
    lb: Span,
)
    requires
        0 <= q,
        validate_fields(slice, toks, base, q, width, lb) is Ok,
    ensures
        q < validate_fields(slice, toks, base, q, width, lb).unwrap() <= toks.len(),
    decreases toks.len() - q,
{
    let ft = toks[q];
    match ft.kind {
        TokenKind::PunctRBrace => {},
        TokenKind::Ident => {
            let dd = tok_at(toks, q + 2);
            let r = if dd.kind == TokenKind::PunctDblDot { q + 4 } else { q + 2 };
            lemma_validate_fields_advances(slice, toks, base, r + 2, width, lb);
        },
        _ => {
            lemma_validate_fields_advances(slice, toks, base, q + 1, width, lb);
        },
    }
}

fn shift(base: usize, s: Span, len: usize) -> (r: Span)
    requires
        s.within(len as nat),
        base + len <= usize::MAX,
    ensures
        r == shifted(base as int, s),
{
    Span::new(base + s.start, base + s.end)
}

fn check_fields(slice: &[u8], toks: &[Token], base: usize, q0: usize, width: u32, lb: Span) -> (r: Result<
    usize,
    TcError,
>)
    requires
        stream_ok(toks@, slice@.len()),
        base + slice@.len() <= usize::MAX,
        toks@.len() + 8 <= usize::MAX,
        q0 <= toks@.len(),
        1 <= width <= 8,
    ensures
        r matches Ok(q) ==> validate_fields(slice@, toks@, base as int, q0 as int, width, lb) == Ok::<
            int,
            TcError,
        >(q as int),
        r matches Err(e) ==> validate_fields(slice@, toks@, base as int, q0 as int, width, lb) == Err::<
            int,
            TcError,
        >(e),
{
    let ghost goal = validate_fields(slice@, toks@, base as int, q0 as int, width, lb);
    let mut q = q0;
    loop
        invariant
            stream_ok(toks@, slice@.len()),
            base + slice@.len() <= usize::MAX,
            toks@.len() + 8 <= usize::MAX,
            q <= toks@.len(),
            1 <= width <= 8,
            goal == validate_fields(slice@, toks@, base as int, q0 as int, width, lb),
            goal == validate_fields(slice@, toks@, base as int, q as int, width, lb),
        decreases toks@.len() - q,
    {
        if q >= toks.len() {
            return Err(TcError::MmioUnexpectedEof { span: lb });
        }
        let ft = toks[q];
        match ft.kind {
            TokenKind::PunctRBrace => {
                return Ok(q + 1);
            },
            TokenKind::Eof => {
                return Err(TcError::MmioUnexpectedEof { span: lb });
            },
            TokenKind::Ident => {
                let lo_t = token_at(toks, q + 1);
                proof {
                    lemma_tok_at_within(toks@, slice@.len(), q + 1);
                }
                if lo_t.kind != TokenKind::Number {
                    return Err(TcError::MmioExpectedLowBit { span: shift(base, lo_t.span, slice.len()) });
                }
                let lo = match parse_u32_any(&slice[lo_t.span.start..lo_t.span.end]) {
                    None => return Err(TcError::MmioBadLowBit { span: shift(base, lo_t.span, slice.len()) }),
                    Some(v) => v,
                };
                let dd = token_at(toks, q + 2);
                let mut hi = lo;
                let mut r = q + 2;
                if dd.kind == TokenKind::PunctDblDot {
                    let hi_t = token_at(toks, q + 3);
                    proof {
                        lemma_tok_at_within(toks@, slice@.len(), q + 3);
                    }
                    if hi_t.kind != TokenKind::Number {
                        return Err(TcError::MmioExpectedHighBit { span: shift(base, hi_t.span, slice.len()) });
                    }
                    hi = match parse_u32_any(&slice[hi_t.span.start..hi_t.span.end]) {
                        None => return Err(
                            TcError::MmioBadHighBit { span: shift(base, hi_t.span, slice.len()) },
                        ),
                        Some(v) => v,
                    };
                    r = q + 4;
                }
                let hi2 = if hi >= lo { hi } else { lo };
                if hi2 >= width * 8 {
                    return Err(TcError::MmioFieldBitRange { span: shift(base, lo_t.span, slice.len()) });
                }
                let fty = token_at(toks, r);
                let facc = token_at(toks, r + 1);
                proof {
                    lemma_tok_at_within(toks@, slice@.len(), r as int);
                    lemma_tok_at_within(toks@, slice@.len(), r + 1);
                }
                if fty.kind != TokenKind::Ident {
                    return Err(TcError::MmioExpectedFieldType { span: shift(base, fty.span, slice.len()) });
                }
                if facc.kind != TokenKind::Ident {
                    return Err(TcError::MmioExpectedFieldAccess { span: shift(base, facc.span, slice.len()) });
                }
                if parse_access_mode(&slice[facc.span.start..facc.span.end]).is_none() {
                    return Err(TcError::MmioInvalidFieldAccess { span: shift(base, facc.span, slice.len()) });
                }
                if r + 2 > toks.len() {
                    return Err(TcError::MmioUnexpectedEof { span: lb });
                }
                q = r + 2;
            },
            _ => {
                q = q + 1;
            },
        }
    }
}

/// Checks a register-map body `src[body]`, given as the tokens `toks` the
/// lexer reads from it (see `spec_validate_regmap`).
pub fn validate_regmap_body(src: &[u8], body: Span, toks: &[Token]) -> (r: Result<(), TcError>)
    requires
        body.within(src@.len()),
        stream_ok(toks@, (body.end - body.start) as nat),
        toks@.len() + 8 <= usize::MAX,
    ensures
        r == spec_validate_regmap(src@, body, toks@),
{
    let slice = &src[body.start..body.end];
    let base = body.start;
    let ghost goal = validate_entries(slice@, toks@, base as int, 0);
    let mut p: usize = 0;
    loop
        invariant
            stream_ok(toks@, slice@.len()),
            base + slice@.len() <= usize::MAX,
            toks@.len() + 8 <= usize::MAX,
            p <= toks@.len(),
            slice@ == src@.subrange(body.start as int, body.end as int),
            base == body.start,
            goal == spec_validate_regmap(src@, body, toks@),
            goal == validate_entries(slice@, toks@, base as int, p as int),
        decreases toks@.len() - p,
    {
        if p >= toks.len() {
            return Ok(());
        }
        let t = toks[p];
        if t.kind == TokenKind::Eof {
            return Ok(());
        }
        if t.kind != TokenKind::Number {
            p = p + 1;
            continue;
        }
        assert(t.span.within(slice@.len()));
        let offset = match parse_u32_any(&slice[t.span.start..t.span.end]) {
            None => return Err(TcError::MmioParseFailed { span: shift(base, t.span, slice.len()) }),
            Some(v) => v,
        };
        let nt = token_at(toks, p + 1);
        let tt = token_at(toks, p + 2);
        let at = token_at(toks, p + 3);
        proof {
            lemma_tok_at_within(toks@, slice@.len(), p + 1);
            lemma_tok_at_within(toks@, slice@.len(), p + 2);
            lemma_tok_at_within(toks@, slice@.len(), p + 3);
            lemma_tok_at_within(toks@, slice@.len(), p + 4);
        }
        if nt.kind != TokenKind::Ident {
            return Err(TcError::MmioExpectedIdent { span: shift(base, nt.span, slice.len()) });
        }
        if tt.kind != TokenKind::Ident {
            return Err(TcError::MmioExpectedType { span: shift(base, tt.span, slice.len()) });
        }
        let width = match mmio_type_width_bytes(&slice[tt.span.start..tt.span.end]) {
            None => return Err(TcError::MmioRegUnknownWidth { span: shift(base, tt.span, slice.len()) }),
            Some(w) => w,
        };
        if offset % width != 0 {
            return Err(TcError::MmioRegMisaligned { span: shift(base, t.span, slice.len()) });
        }
        if at.kind != TokenKind::Ident {
            return Err(TcError::MmioExpectedAccess { span: shift(base, at.span, slice.len()) });
        }
        if parse_access_mode(&slice[at.span.start..at.span.end]).is_none() {
            return Err(TcError::MmioInvalidAccess { span: shift(base, at.span, slice.len()) });
        }
        let vt = token_at(toks, p + 4);
        let q = if vt.kind == TokenKind::Ident && bytes_eq(&slice[vt.span.start..vt.span.end], &lit_volatile()) {
            p + 5
        } else {
            p + 4
        };
        let lb = token_at(toks, q);
        proof {
            lemma_tok_at_within(toks@, slice@.len(), q as int);
        }
        if lb.kind == TokenKind::PunctLBrace {
            if q + 1 > toks.len() {
                proof {
                    assert(validate_fields(slice@, toks@, base as int, q + 1, width, shifted(base as int, lb.span))
                        is Err);
                }
                return Err(TcError::MmioUnexpectedEof { span: shift(base, lb.span, slice.len()) });
            }
            let q3 = match check_fields(slice, toks, base, q + 1, width, shift(base, lb.span, slice.len())) {
                Err(e) => return Err(e),
                Ok(q3) => q3,
            };
            proof {
                lemma_validate_fields_advances(slice@, toks@, base as int, q + 1, width, shifted(base as int, lb.span));
            }
            p = q3;
        } else {
            if q > toks.len() {
                return Ok(());
            }
            p = q;
        }
    }
}

/// A field as the scan reports it: name, low bit, high bit, type, access.
pub type FieldView = (Seq<u8>, u8, u8, Seq<u8>, AccessMode);

/// A register as the scan reports it: offset, name, type, access,
/// volatility and array length.
pub type RegView = (u32, Seq<u8>, Seq<u8>, AccessMode, bool, Option<u32>);

/// Scanning a field block from token `q` on (see `validate_fields`),
/// remembering in `found` the first field named `want_field`.  Errors
/// point at `place`, the place being resolved.  On success, the position
/// past the `}` and the field found.
pub open spec fn scan_fields(
    slice: Seq<u8>,
    toks: Seq<Token>,
    q: int,
    width: u32,
    place: Span,
    want_field: Option<Seq<u8>>,
    found: Option<FieldView>,
) -> Result<(int, Option<FieldView>), TcError>
    decreases toks.len() - q,
{
    if q < 0 || q >= toks.len() {
        Err(TcError::MmioUnexpectedEof { span: place })
    } else {
        let ft = toks[q];
        match ft.kind {
            TokenKind::PunctRBrace => Ok((q + 1, found)),
            TokenKind::Eof => Err(TcError::MmioUnexpectedEof { span: place }),
            TokenKind::Ident => {
                let fname = tok_text(slice, ft);
                let lo_t = tok_at(toks, q + 1);
                if fname.len() > ATOM_CAP {
                    Err(TcError::MmioFieldNameInvalid { span: place })
                } else if lo_t.kind != TokenKind::Number {
                    Err(TcError::MmioExpectedLowBit { span: place })
                } else {
                    match spec_parse_u32_any(tok_text(slice, lo_t)) {
                        None => Err(TcError::MmioBadLowBit { span: place }),
                        Some(lo) => {
                            let dd = tok_at(toks, q + 2);
                            let hi_t = tok_at(toks, q + 3);
                            let hi_res: Result<u32, TcError> = if dd.kind == TokenKind::PunctDblDot {
                                if hi_t.kind != TokenKind::Number {
                                    Err(TcError::MmioExpectedHighBit { span: place })
                                } else {
                                    match spec_parse_u32_any(tok_text(slice, hi_t)) {
                                        None => Err(TcError::MmioBadHighBit { span: place }),
                                        Some(hi) => Ok(hi),
                                    }
                                }
                            } else {
                                Ok(lo)
                            };
                            let r = if dd.kind == TokenKind::PunctDblDot { q + 4 } else { q + 2 };
                            match hi_res {
                                Err(e) => Err(e),
                                Ok(hi) => {
                                    let hi2 = if hi >= lo { hi } else { lo };
                                    let fty = tok_at(toks, r);
                                    let facc = tok_at(toks, r + 1);
                                    if hi2 >= width * 8 {
                                        Err(TcError::MmioFieldBitRange { span: place })
                                    } else if fty.kind != TokenKind::Ident {
                                        Err(TcError::MmioExpectedFieldType { span: place })
                                    } else if tok_text(slice, fty).len() > ATOM_CAP {
                                        Err(TcError::MmioFieldTypeInvalid { span: place })
                                    } else if facc.kind != TokenKind::Ident {
                                        Err(TcError::MmioExpectedFieldAccess { span: place })
                                    } else {
                                        match spec_access_mode(tok_text(slice, facc)) {
                                            None => Err(TcError::MmioInvalidFieldAccess { span: place }),
                                            Some(acc) => {
                                                let found2 = if want_field == Some(fname) && found is None {
                                                    Some(
                                                        (
                                                            fname,
                                                            (if lo > 255 { 255 } else { lo }) as u8,
                                                            (if hi2 > 255 { 255 } else { hi2 }) as u8,
                                                            tok_text(slice, fty),
                                                            acc,
                                                        ),
                                                    )
                                                } else {
                                                    found
                                                };
                                                if r + 2 > toks.len() {
                                                    Err(TcError::MmioUnexpectedEof { span: place })
                                                } else {
                                                    scan_fields(slice, toks, r + 2, width, place, want_field, found2)
                                                }
                                            },
                                        }
                                    }
                                },
                            }
                        },
                    }
                }
            },
            _ => scan_fields(slice, toks, q + 1, width, place, want_field, found),
        }
    }
}

/// Looking for register `want_reg` among the entries from token `p` on.
/// Entries before it are checked as they are passed; the first entry with
/// that name is the answer, with the first field named `want_field` when
/// one is wanted (a missing field is error 3607).  `Ok(None)` when no
/// entry has the name.
pub open spec fn scan_entries(
    slice: Seq<u8>,
    toks: Seq<Token>,
    base: int,
    p: int,
    want_reg: Seq<u8>,
    want_field: Option<Seq<u8>>,
    place: Span,
) -> Result<Option<(RegView, Option<FieldView>)>, TcError>
    decreases toks.len() - p,
{
    if p < 0 || p >= toks.len() {
        Ok(None)
    } else {
        let t = toks[p];
        if t.kind == TokenKind::Eof {
            Ok(None)
        } else if t.kind != TokenKind::Number {
            scan_entries(slice, toks, base, p + 1, want_reg, want_field, place)
        } else {
            match spec_parse_u32_any(tok_text(slice, t)) {
                None => Err(TcError::MmioParseFailed { span: shifted(base, t.span) }),
                Some(offset) => {
                    let nt = tok_at(toks, p + 1);
                    let tt = tok_at(toks, p + 2);
                    let at = tok_at(toks, p + 3);
                    let (reg_name, array_len) = spec_name_array(tok_text(slice, nt));
                    let reg_ty = tok_text(slice, tt);
                    if nt.kind != TokenKind::Ident {
                        Err(TcError::MmioExpectedIdent { span: place })
                    } else if reg_name.len() > ATOM_CAP {
                        Err(TcError::MmioRegNotFound { span: place })
                    } else if tt.kind != TokenKind::Ident {
                        Err(TcError::MmioExpectedType { span: place })
                    } else if reg_ty.len() > ATOM_CAP {
                        Err(TcError::MmioRegTypeInvalid { span: place })
                    } else {
                        match spec_width(reg_ty) {
                            None => Err(TcError::MmioRegUnknownWidth { span: shifted(base, tt.span) }),
                            Some(width) => {
                                if offset % width != 0 {
                                    Err(TcError::MmioRegMisaligned { span: shifted(base, t.span) })
                                } else if at.kind != TokenKind::Ident {
                                    Err(TcError::MmioExpectedAccess { span: place })
                                } else {
                                    match spec_access_mode(tok_text(slice, at)) {
                                        None => Err(TcError::MmioInvalidAccess { span: place }),
                                        Some(access) => {
                                            let vt = tok_at(toks, p + 4);
                                            let volatile = vt.kind == TokenKind::Ident && tok_text(slice, vt)
                                                == sp_volatile();
                                            let q = if volatile { p + 5 } else { p + 4 };
                                            let lb = tok_at(toks, q);
                                            let fields: Result<(int, Option<FieldView>), TcError> = if lb.kind
                                                == TokenKind::PunctLBrace {
                                                scan_fields(slice, toks, q + 1, width, place, want_field, None)
                                            } else {
                                                Ok((q, None))
                                            };
                                            match fields {
                                                Err(e) => Err(e),
                                                Ok((q3, found)) => {
                                                    let reg = (offset, reg_name, reg_ty, access, volatile, array_len);
                                                    if reg_name != want_reg {
                                                        if p < q3 <= toks.len() {
                                                            scan_entries(slice, toks, base, q3, want_reg, want_field, place)
                                                        } else {
                                                            Ok(None)
                                                        }
                                                    } else if want_field is Some {
                                                        if found is None {
                                                            Err(TcError::MmioFieldNotFound { span: place })
                                                        } else {
                                                            Ok(Some((reg, found)))
                                                        }
                                                    } else {
                                                        Ok(Some((reg, None)))
                                                    }
                                                },
                                            }
                                        },
                                    }
                                }
                            },
                        }
                    }
                },
            }
        }
    }
}

/// Looking for register `want_reg` in the register map body `src[body]`.
pub open spec fn spec_scan_regmap(
    src: Seq<u8>,
    body: Span,
    toks: Seq<Token>,
    want_reg: Seq<u8>,
    want_field: Option<Seq<u8>>,
    place: Span,
) -> Result<Option<(RegView, Option<FieldView>)>, TcError> {
    scan_entries(src.subrange(body.start as int, body.end as int), toks, body.start as int, 0, want_reg, want_field, place)
}

proof fn lemma_scan_fields_advances(
    slice: Seq<u8>,
    toks: Seq<Token>,
    q: int,
    width: u32,
    place: Span,
    want_field: Option<Seq<u8>>,
    found: Option<FieldView>,
)
    requires
        0 <= q,
        scan_fields(slice, toks, q, width, place, want_field, found) is Ok,
    ensures
        q < scan_fields(slice, toks, q, width, place, want_field, found).unwrap().0 <= toks.len(),
    decreases toks.len() - q,
{
    let ft = toks[q];
    match ft.kind {
        TokenKind::PunctRBrace => {},
        TokenKind::Ident => {
            let fname = tok_text(slice, ft);
            let lo = spec_parse_u32_any(tok_text(slice, tok_at(toks, q + 1))).unwrap();
            let dd = tok_at(toks, q + 2);
            let hi_t = tok_at(toks, q + 3);
            let hi: u32 = if dd.kind == TokenKind::PunctDblDot {
                spec_parse_u32_any(tok_text(slice, hi_t)).unwrap()
            } else {
                lo
            };
            let r = if dd.kind == TokenKind::PunctDblDot { q + 4 } else { q + 2 };
            let hi2 = if hi >= lo { hi } else { lo };
            let fty = tok_at(toks, r);
            let acc = spec_access_mode(tok_text(slice, tok_at(toks, r + 1))).unwrap();
            let found2 = if want_field == Some(fname) && found is None {
                Some(
                    (
                        fname,
                        (if lo > 255 { 255 } else { lo }) as u8,
                        (if hi2 > 255 { 255 } else { hi2 }) as u8,
                        tok_text(slice, fty),
                        acc,
                    ),
                )
            } else {
                found
            };
            lemma_scan_fields_advances(slice, toks, r + 2, width, place, want_field, found2);
        },
        _ => {
            lemma_scan_fields_advances(slice, toks, q + 1, width, place, want_field, found);
        },
    }
}

/// The view of a scanned field, if any.
pub open spec fn opt_field_view(f: Option<MmioFieldInfo>) -> Option<FieldView> {
    match f {
        Some(x) => Some(x@),
        None => None,
    }
}

fn scan_field_block(
    slice: &[u8],
    toks: &[Token],
    q0: usize,
    width: u32,
    place: Span,
    want_field: Option<TypeAtom>,
) -> (r: Result<(usize, Option<MmioFieldInfo>), TcError>)
    requires
        stream_ok(toks@, slice@.len()),
        toks@.len() + 8 <= usize::MAX,
        q0 <= toks@.len(),
        1 <= width <= 8,
    ensures
        ({
            let want = match want_field {
                Some(a) => Some(a@),
                None => None,
            };
            let goal = scan_fields(slice@, toks@, q0 as int, width, place, want, None);
            &&& r matches Ok((q, f)) ==> goal == Ok::<(int, Option<FieldView>), TcError>((q as int, opt_field_view(f)))
            &&& r matches Err(e) ==> goal == Err::<(int, Option<FieldView>), TcError>(e)
        }),
{
    let ghost want = match want_field {
        Some(a) => Some(a@),
        None => None,
    };
    let ghost goal = scan_fields(slice@, toks@, q0 as int, width, place, want, None);
    let mut q = q0;
    let mut found: Option<MmioFieldInfo> = None;
    loop
        invariant
            stream_ok(toks@, slice@.len()),
            toks@.len() + 8 <= usize::MAX,
            q <= toks@.len(),
            1 <= width <= 8,
            want == (match want_field {
                Some(a) => Some(a@),
                None => None,
            }),
            goal == scan_fields(slice@, toks@, q0 as int, width, place, want, None),
            goal == scan_fields(slice@, toks@, q as int, width, place, want, opt_field_view(found)),
        decreases toks@.len() - q,
    {
        if q >= toks.len() {
            return Err(TcError::MmioUnexpectedEof { span: place });
        }
        let ft = toks[q];
        match ft.kind {
            TokenKind::PunctRBrace => {
                return Ok((q + 1, found));
            },
            TokenKind::Eof => {
                return Err(TcError::MmioUnexpectedEof { span: place });
            },
            TokenKind::Ident => {
                assert(ft.span.within(slice@.len()));
                let fname = match TypeAtom::new(&slice[ft.span.start..ft.span.end]) {
                    None => return Err(TcError::MmioFieldNameInvalid { span: place }),
                    Some(a) => a,
                };
                let lo_t = token_at(toks, q + 1);
                proof {
                    lemma_tok_at_within(toks@, slice@.len(), q + 1);
                }
                if lo_t.kind != TokenKind::Number {
                    return Err(TcError::MmioExpectedLowBit { span: place });
                }
                let lo = match parse_u32_any(&slice[lo_t.span.start..lo_t.span.end]) {
                    None => return Err(TcError::MmioBadLowBit { span: place }),
                    Some(v) => v,
                };
                let dd = token_at(toks, q + 2);
                let mut hi = lo;
                let mut r = q + 2;
                if dd.kind == TokenKind::PunctDblDot {
                    let hi_t = token_at(toks, q + 3);
                    proof {
                        lemma_tok_at_within(toks@, slice@.len(), q + 3);
                    }
                    if hi_t.kind != TokenKind::Number {
                        return Err(TcError::MmioExpectedHighBit { span: place });
                    }
                    hi = match parse_u32_any(&slice[hi_t.span.start..hi_t.span.end]) {
                        None => return Err(TcError::MmioBadHighBit { span: place }),
                        Some(v) => v,
                    };
                    r = q + 4;
                }
                let hi2 = if hi >= lo { hi } else { lo };
                if hi2 >= width * 8 {
                    return Err(TcError::MmioFieldBitRange { span: place });
                }
                let fty = token_at(toks, r);
                let facc = token_at(toks, r + 1);
                proof {
                    lemma_tok_at_within(toks@, slice@.len(), r as int);
                    lemma_tok_at_within(toks@, slice@.len(), r + 1);
                }
                if fty.kind != TokenKind::Ident {
                    return Err(TcError::MmioExpectedFieldType { span: place });
                }
                let field_ty = match TypeAtom::new(&slice[fty.span.start..fty.span.end]) {
                    None => return Err(TcError::MmioFieldTypeInvalid { span: place }),
                    Some(a) => a,
                };
                if facc.kind != TokenKind::Ident {
                    return Err(TcError::MmioExpectedFieldAccess { span: place });
                }
                let faccess = match parse_access_mode(&slice[facc.span.start..facc.span.end]) {
                    None => return Err(TcError::MmioInvalidFieldAccess { span: place }),
                    Some(a) => a,
                };
                if let Some(w) = want_field {
                    if fname.same(&w) && found.is_none() {
                        let lo8: u8 = if lo > 255 { 255 } else { lo as u8 };
                        let hi8: u8 = if hi2 > 255 { 255 } else { hi2 as u8 };
                        found = Some(MmioFieldInfo { name: fname, lo: lo8, hi: hi8, ty: field_ty, access: faccess });
                    }
                }
                if r + 2 > toks.len() {
                    return Err(TcError::MmioUnexpectedEof { span: place });
                }
                q = r + 2;
            },
            _ => {
                q = q + 1;
            },
        }
    }
}

/// Finds register `want_reg` (and, when asked, its field `want_field`) in
/// the register-map body `src[body]`, read as the tokens `toks` (see
/// `spec_scan_regmap`).
pub fn scan_regmap_for_reg(
    src: &[u8],
    body: Span,
    toks: &[Token],
    want_reg: TypeAtom,
    want_field: Option<TypeAtom>,
    place_span: Span,
) -> (r: Result<Option<(MmioRegInfo, Option<MmioFieldInfo>)>, TcError>)
    requires
        body.within(src@.len()),
        stream_ok(toks@, (body.end - body.start) as nat),
        toks@.len() + 8 <= usize::MAX,
    ensures
        ({
            let want = match want_field {
                Some(a) => Some(a@),
                None => None,
            };
            let goal = spec_scan_regmap(src@, body, toks@, want_reg@, want, place_span);
            &&& r matches Ok(Some((reg, f))) ==> goal == Ok::<_, TcError>(Some((reg@, opt_field_view(f))))
            &&& r matches Ok(None) ==> goal == Ok::<Option<(RegView, Option<FieldView>)>, TcError>(None)
            &&& r matches Err(e) ==> goal == Err::<Option<(RegView, Option<FieldView>)>, TcError>(e)
        }),
{
    let slice = &src[body.start..body.end];
    let base = body.start;
    let ghost want = match want_field {
        Some(a) => Some(a@),
        None => None,
    };
    let ghost goal = spec_scan_regmap(src@, body, toks@, want_reg@, want, place_span);
    let mut p: usize = 0;
    loop
        invariant
            stream_ok(toks@, slice@.len()),
            base + slice@.len() <= usize::MAX,
            toks@.len() + 8 <= usize::MAX,
            p <= toks@.len(),
            slice@ == src@.subrange(body.start as int, body.end as int),
            base == body.start,
            want == (match want_field {
                Some(a) => Some(a@),
                None => None,
            }),
            goal == spec_scan_regmap(src@, body, toks@, want_reg@, want, place_span),
            goal == scan_entries(slice@, toks@, base as int, p as int, want_reg@, want, place_span),
        decreases toks@.len() - p,
    {
        if p >= toks.len() {
            return Ok(None);
        }
        let t = toks[p];
        if t.kind == TokenKind::Eof {
            return Ok(None);
        }
        if t.kind != TokenKind::Number {
            p = p + 1;
            continue;
        }
        assert(t.span.within(slice@.len()));
        let offset = match parse_u32_any(&slice[t.span.start..t.span.end]) {
            None => return Err(TcError::MmioParseFailed { span: shift(base, t.span, slice.len()) }),
            Some(v) => v,
        };
        let nt = token_at(toks, p + 1);
        let tt = token_at(toks, p + 2);
        let at = token_at(toks, p + 3);
        proof {
            lemma_tok_at_within(toks@, slice@.len(), p + 1);
            lemma_tok_at_within(toks@, slice@.len(), p + 2);
            lemma_tok_at_within(toks@, slice@.len(), p + 3);
            lemma_tok_at_within(toks@, slice@.len(), p + 4);
        }
        if nt.kind != TokenKind::Ident {
            return Err(TcError::MmioExpectedIdent { span: place_span });
        }
        let (base_name, array_len) = parse_name_array(&slice[nt.span.start..nt.span.end]);
        let reg_name = match TypeAtom::new(base_name) {
            None => return Err(TcError::MmioRegNotFound { span: place_span }),
            Some(a) => a,
        };
        if tt.kind != TokenKind::Ident {
            return Err(TcError::MmioExpectedType { span: place_span });
        }
        let ty_bytes = &slice[tt.span.start..tt.span.end];
        let reg_ty = match TypeAtom::new(ty_bytes) {
            None => return Err(TcError::MmioRegTypeInvalid { span: place_span }),
            Some(a) => a,
        };
        let width = match mmio_type_width_bytes(ty_bytes) {
            None => return Err(TcError::MmioRegUnknownWidth { span: shift(base, tt.span, slice.len()) }),
            Some(w) => w,
        };
        if offset % width != 0 {
            return Err(TcError::MmioRegMisaligned { span: shift(base, t.span, slice.len()) });
        }
        if at.kind != TokenKind::Ident {
            return Err(TcError::MmioExpectedAccess { span: place_span });
        }
        let access = match parse_access_mode(&slice[at.span.start..at.span.end]) {
            None => return Err(TcError::MmioInvalidAccess { span: place_span }),
            Some(a) => a,
        };
        let vt = token_at(toks, p + 4);
        let volatile = vt.kind == TokenKind::Ident && bytes_eq(&slice[vt.span.start..vt.span.end], &lit_volatile());
        let q = if volatile { p + 5 } else { p + 4 };
        let lb = token_at(toks, q);
        let mut q3 = q;
        let mut found: Option<MmioFieldInfo> = None;
        if lb.kind == TokenKind::PunctLBrace {
            if q + 1 > toks.len() {
                proof {
                    assert(scan_fields(slice@, toks@, q + 1, width, place_span, want, None) is Err);
                }
                return Err(TcError::MmioUnexpectedEof { span: place_span });
            }
            match scan_field_block(slice, toks, q + 1, width, place_span, want_field) {
                Err(e) => return Err(e),
                Ok((q4, f)) => {
                    proof {
                        lemma_scan_fields_advances(slice@, toks@, q + 1, width, place_span, want, None);
                    }
                    q3 = q4;
                    found = f;
                },
            }
        }
        let reg = MmioRegInfo { offset, reg: reg_name, reg_ty, access, volatile, array_len };
        if !reg_name.same(&want_reg) {
            if q3 > toks.len() {
                return Ok(None);
            }
            p = q3;
            continue;
        }
        if want_field.is_some() {
            if found.is_none() {
                return Err(TcError::MmioFieldNotFound { span: place_span });
            }
            return Ok(Some((reg, found)));
        }
        return Ok(Some((reg, None)));
    }
}

} // verus!
