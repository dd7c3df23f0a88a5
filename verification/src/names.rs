//! Reading the pieces of a word body that span several tokens: bracketed
//! quotations and scoped blocks, dotted names and borrowed places.
//!
//! A fragment of a body is the run of the body's tokens below a bound
//! `hi`; past it the fragment yields end-of-input, as a lexer started on
//! the fragment's text would.
use vstd::prelude::*;

use crate::tokens::{Token, TokenKind};
use crate::types::Span;

verus! {

/// The end-of-input token a fragment yields once its tokens run out.
pub open spec fn eof_token() -> Token {
    Token { kind: TokenKind::Eof, span: Span { start: 0, end: 0 } }
}

/// Token `p` of the fragment made of the tokens below `hi`.
pub open spec fn tk(toks: Seq<Token>, p: int, hi: int) -> Token {
    if 0 <= p && p < hi && p < toks.len() {
        toks[p]
    } else {
        eof_token()
    }
}

/// Reads token `p` of the fragment below `hi`.
pub fn token_in(toks: &[Token], p: usize, hi: usize) -> (t: Token)
    ensures
        t == tk(toks@, p as int, hi as int),
{
    if p < hi && p < toks.len() {
        toks[p]
    } else {
        Token { kind: TokenKind::Eof, span: Span::new(0, 0) }
    }
}

/// The bytes a token covers in the fragment's text.
pub open spec fn tok_bytes(slice: Seq<u8>, t: Token) -> Seq<u8> {
    slice.subrange(t.span.start as int, t.span.end as int)
}

/// Every token of the stream lies in a text of `len` bytes.
pub open spec fn spans_within(toks: Seq<Token>, len: nat) -> bool {
    forall|i: int| 0 <= i < toks.len() ==> (#[trigger] toks[i]).span.within(len)
}

/// The tokens come in source order and do not overlap.
#[verifier::opaque]
pub open spec fn tokens_ordered(toks: Seq<Token>) -> bool {
    forall|i: int, j: int| 0 <= i < j < toks.len() ==> #[trigger] toks[i].span.end <= #[trigger] toks[j].span.start
}

/// Any token of a fragment lies in the text.
pub proof fn lemma_tk_within(toks: Seq<Token>, len: nat, p: int, hi: int)
    requires
        spans_within(toks, len),
    ensures
        tk(toks, p, hi).span.within(len),
{
}

/// The bytes token `t` covers.
pub fn token_bytes<'a>(slice: &'a [u8], t: Token) -> (b: &'a [u8])
    requires
        t.span.within(slice@.len()),
    ensures
        b@ == tok_bytes(slice@, t),
{
    vstd::slice::slice_subrange(slice, t.span.start, t.span.end)
}

// ---------------------------------------------------------------------------
// Bracketed groups
// ---------------------------------------------------------------------------

/// `t` opens a group: the opening kind, or, in a scoped block, any
/// bracket that opens.
pub open spec fn opens(k: TokenKind, open: TokenKind, scoped: bool) -> bool {
    k == open || (scoped && (k == TokenKind::PunctAmpLBracket || k == TokenKind::PunctAmpBangLBracket))
}

/// Position of the token closing a group, scanning from `q` at nesting
/// `depth`; none when the fragment ends first.
pub open spec fn close_of(
    toks: Seq<Token>,
    hi: int,
    q: int,
    depth: nat,
    open: TokenKind,
    close: TokenKind,
    scoped: bool,
) -> Option<int>
    decreases hi - q,
{
    let t = tk(toks, q, hi);
    if q < 0 || q >= hi || t.kind == TokenKind::Eof {
        None
    } else if t.kind == close {
        if depth <= 1 {
            Some(q)
        } else {
            close_of(toks, hi, q + 1, (depth - 1) as nat, open, close, scoped)
        }
    } else if opens(t.kind, open, scoped) {
        close_of(toks, hi, q + 1, depth + 1, open, close, scoped)
    } else {
        close_of(toks, hi, q + 1, depth, open, close, scoped)
    }
}

/// Where `close_of` stops lies after `q`, inside the fragment.
pub proof fn lemma_close_of_bounds(
    toks: Seq<Token>,
    hi: int,
    q: int,
    depth: nat,
    open: TokenKind,
    close: TokenKind,
    scoped: bool,
)
    ensures
        close_of(toks, hi, q, depth, open, close, scoped) matches Some(c) ==> q <= c < hi && c < toks.len()
            && 0 <= c,
    decreases hi - q,
{
    let t = tk(toks, q, hi);
    if q < 0 || q >= hi || t.kind == TokenKind::Eof {
    } else if t.kind == close {
        if depth > 1 {
            lemma_close_of_bounds(toks, hi, q + 1, (depth - 1) as nat, open, close, scoped);
        }
    } else if opens(t.kind, open, scoped) {
        lemma_close_of_bounds(toks, hi, q + 1, depth + 1, open, close, scoped);
    } else {
        lemma_close_of_bounds(toks, hi, q + 1, depth, open, close, scoped);
    }
}

fn find_close(toks: &[Token], hi: usize, from: usize, open: TokenKind, close: TokenKind, scoped: bool) -> (r: Option<usize>)
    requires
        hi < usize::MAX,
    ensures
        r matches Some(c) ==> close_of(toks@, hi as int, from as int, 1, open, close, scoped) == Some(c as int),
        r is None ==> close_of(toks@, hi as int, from as int, 1, open, close, scoped) is None,
{
    let mut depth: usize = 1;
    let mut q = from;
    while q < hi
        invariant
            hi < usize::MAX,
            1 <= depth <= q - from + 1,
            close_of(toks@, hi as int, from as int, 1, open, close, scoped) == close_of(
                toks@,
                hi as int,
                q as int,
                depth as nat,
                open,
                close,
                scoped,
            ),
        decreases hi - q,
    {
        let t = token_in(toks, q, hi);
        if t.kind == TokenKind::Eof {
            return None;
        }
        if t.kind == close {
            if depth <= 1 {
                return Some(q);
            }
            depth -= 1;
        } else if t.kind == open || (scoped && (t.kind == TokenKind::PunctAmpLBracket || t.kind
            == TokenKind::PunctAmpBangLBracket)) {
            depth += 1;
        }
        q += 1;
    }
    None
}

/// The token closing the group opened by token `open_p` (counting only
/// `open` and `close` tokens), or none when the fragment ends first.
pub fn capture_balanced(toks: &[Token], hi: usize, open_p: usize, open: TokenKind, close: TokenKind) -> (r: Option<
    usize,
>)
    requires
        open_p < hi < usize::MAX,
    ensures
        r matches Some(c) ==> close_of(toks@, hi as int, open_p + 1, 1, open, close, false) == Some(c as int),
        r is None ==> close_of(toks@, hi as int, open_p + 1, 1, open, close, false) is None,
{
    find_close(toks, hi, open_p + 1, open, close, false)
}

/// The `]` closing the scoped block opened by token `open_p`, where any
/// `[`, `&[` or `&![` nests, or none when the fragment ends first.
pub fn capture_scoped_block(toks: &[Token], hi: usize, open_p: usize) -> (r: Option<usize>)
    requires
        open_p < hi < usize::MAX,
    ensures
        r matches Some(c) ==> close_of(
            toks@,
            hi as int,
            open_p + 1,
            1,
            TokenKind::PunctLBracket,
            TokenKind::PunctRBracket,
            true,
        ) == Some(c as int),
        r is None ==> close_of(
            toks@,
            hi as int,
            open_p + 1,
            1,
            TokenKind::PunctLBracket,
            TokenKind::PunctRBracket,
            true,
        ) is None,
{
    find_close(toks, hi, open_p + 1, TokenKind::PunctLBracket, TokenKind::PunctRBracket, true)
}

// ---------------------------------------------------------------------------
// Dotted names
// ---------------------------------------------------------------------------

/// Most bytes a dotted name is read into.
pub const QNAME_CAP: usize = 64;

/// Extending a dotted name `acc` (ending at `end`) with `.seg` pairs from
/// token `p` on, while they fit in `QNAME_CAP` bytes: the name, where it
/// ends and the token after it.
pub open spec fn qual_ext(slice: Seq<u8>, toks: Seq<Token>, hi: int, p: int, acc: Seq<u8>, end: int) -> (
    Seq<u8>,
    int,
    int,
)
    decreases hi - p,
{
    let dot = tk(toks, p, hi);
    let seg = tk(toks, p + 1, hi);
    if p < 0 || p + 1 >= hi || dot.kind != TokenKind::PunctDot || seg.kind != TokenKind::Ident {
        (acc, end, p)
    } else if acc.len() + 1 + tok_bytes(slice, seg).len() > QNAME_CAP {
        (acc, end, p)
    } else {
        qual_ext(slice, toks, hi, p + 2, acc + seq![46u8] + tok_bytes(slice, seg), seg.span.end as int)
    }
}

/// The name starting at token `p`: the token's text, joined with the
/// `.seg` pairs that follow while the whole fits in `QNAME_CAP` bytes.
/// The name, its span and the token after it.
pub open spec fn qual_name(slice: Seq<u8>, toks: Seq<Token>, hi: int, p: int) -> (Seq<u8>, Span, int) {
    let first = tk(toks, p, hi);
    let ft = tok_bytes(slice, first);
    if ft.len() > QNAME_CAP {
        (ft, first.span, p + 1)
    } else {
        let (acc, end, np) = qual_ext(slice, toks, hi, p + 1, ft, first.span.end as int);
        if np == p + 1 {
            (ft, first.span, p + 1)
        } else {
            (acc, Span { start: first.span.start, end: end as usize }, np)
        }
    }
}

pub proof fn lemma_qual_ext_bounds(slice: Seq<u8>, toks: Seq<Token>, hi: int, p: int, acc: Seq<u8>, end: int)
    requires
        0 <= p,
        acc.len() <= QNAME_CAP,
        spans_within(toks, slice.len()),
        0 <= end <= slice.len(),
    ensures
        ({
            let (a, e, np) = qual_ext(slice, toks, hi, p, acc, end);
            &&& p <= np
            &&& (np == p ==> a == acc && e == end)
            &&& (np > p ==> np <= hi)
            &&& a.len() <= QNAME_CAP
            &&& 0 <= e <= slice.len()
            &&& (tokens_ordered(toks) && 1 <= p && p - 1 < toks.len() && end == toks[p - 1].span.end ==> e >= end)
        }),
    decreases hi - p,
{
    reveal(tokens_ordered);
    let dot = tk(toks, p, hi);
    let seg = tk(toks, p + 1, hi);
    if p < 0 || p + 1 >= hi || dot.kind != TokenKind::PunctDot || seg.kind != TokenKind::Ident {
    } else if acc.len() + 1 + tok_bytes(slice, seg).len() > QNAME_CAP {
    } else {
        lemma_tk_within(toks, slice.len(), p + 1, hi);
        lemma_qual_ext_bounds(
            slice,
            toks,
            hi,
            p + 2,
            acc + seq![46u8] + tok_bytes(slice, seg),
            seg.span.end as int,
        );
        if tokens_ordered(toks) && 1 <= p && p - 1 < toks.len() && end == toks[p - 1].span.end {
            assert(toks[p - 1].span.end <= toks[p + 1].span.start);
        }
    }
}

/// Reads the possibly dotted name starting at token `first_p` (see
/// `qual_name`): the name's bytes, its span in the fragment and the
/// position of the token after it.
pub fn read_qualified_name(slice: &[u8], toks: &[Token], hi: usize, first_p: usize) -> (r: (Vec<u8>, Span, usize))
    requires
        first_p < hi,
        hi <= toks@.len(),
        toks@.len() < usize::MAX,
        spans_within(toks@, slice@.len()),
        tokens_ordered(toks@),
    ensures
        ({
            let (n, s, np) = qual_name(slice@, toks@, hi as int, first_p as int);
            r.0@ == n && r.1 == s && r.2 == np
        }),
        first_p < r.2 <= hi,
        r.1.within(slice@.len()),
{
    let first = token_in(toks, first_p, hi);
    proof {
        lemma_tk_within(toks@, slice@.len(), first_p as int, hi as int);
    }
    let ft = token_bytes(slice, first);
    let mut name: Vec<u8> = Vec::new();
    let mut k: usize = 0;
    while k < ft.len()
        invariant
            k <= ft@.len(),
            name@ == ft@.subrange(0, k as int),
        decreases ft@.len() - k,
    {
        name.push(ft[k]);
        k += 1;
        assert(name@ =~= ft@.subrange(0, k as int));
    }
    assert(ft@.subrange(0, k as int) =~= ft@);
    if ft.len() > QNAME_CAP {
        return (name, first.span, first_p + 1);
    }
    let ghost goal = qual_ext(slice@, toks@, hi as int, first_p + 1, ft@, first.span.end as int);
    proof {
        lemma_qual_ext_bounds(slice@, toks@, hi as int, first_p + 1, ft@, first.span.end as int);
    }
    let mut p = first_p + 1;
    let mut end = first.span.end;
    loop
        invariant
            first_p + 1 <= p <= hi,
            hi <= toks@.len(),
            toks@.len() < usize::MAX,
            spans_within(toks@, slice@.len()),
            name@.len() <= QNAME_CAP,
            end <= slice@.len(),
            p > first_p + 1 ==> p <= hi,
            goal == qual_ext(slice@, toks@, hi as int, p as int, name@, end as int),
            p == first_p + 1 ==> name@ == ft@ && end == first.span.end,
        ensures
            goal == (name@, end as int, p as int),
            first_p + 1 <= p <= hi,
            p == first_p + 1 ==> name@ == ft@ && end == first.span.end,
        decreases hi - p,
    {
        if p + 1 >= hi {
            break;
        }
        let dot = token_in(toks, p, hi);
        let seg = token_in(toks, p + 1, hi);
        if dot.kind != TokenKind::PunctDot || seg.kind != TokenKind::Ident {
            break;
        }
        proof {
            lemma_tk_within(toks@, slice@.len(), p + 1, hi as int);
        }
        let sb = token_bytes(slice, seg);
        if name.len() >= QNAME_CAP || sb.len() > QNAME_CAP - 1 - name.len() {
            break;
        }
        let ghost before = name@;
        name.push(46u8);
        let mut j: usize = 0;
        while j < sb.len()
            invariant
                j <= sb@.len(),
                name@ == before + seq![46u8] + sb@.subrange(0, j as int),
            decreases sb@.len() - j,
        {
            name.push(sb[j]);
            j += 1;
            assert(name@ =~= before + seq![46u8] + sb@.subrange(0, j as int));
        }
        assert(sb@.subrange(0, j as int) =~= sb@);
        end = seg.span.end;
        p = p + 2;
    }
    if p == first_p + 1 {
        (name, first.span, first_p + 1)
    } else {
        (name, Span::new(first.span.start, end), p)
    }
}

// ---------------------------------------------------------------------------
// Places
// ---------------------------------------------------------------------------

/// The `.seg` pairs of a place from token `q` on: where the place ends
/// and the token after it, or none when a `.` is not followed by a name.
pub open spec fn place_ext(toks: Seq<Token>, hi: int, q: int, end: int) -> Option<(int, int)>
    decreases hi - q,
{
    let dot = tk(toks, q, hi);
    let seg = tk(toks, q + 1, hi);
    if q < 0 || q >= hi || dot.kind != TokenKind::PunctDot {
        Some((end, q))
    } else if q + 1 >= hi || seg.kind != TokenKind::Ident {
        None
    } else {
        place_ext(toks, hi, q + 2, seg.span.end as int)
    }
}

/// The place starting at token `p`: a name followed by `.name` pairs.
/// Its root's span, the whole place's span and the token after it.
pub open spec fn place_of(toks: Seq<Token>, hi: int, p: int) -> Option<(Span, Span, int)> {
    let first = tk(toks, p, hi);
    if first.kind != TokenKind::Ident {
        None
    } else {
        match place_ext(toks, hi, p + 1, first.span.end as int) {
            None => None,
            Some((end, nx)) => Some((first.span, Span { start: first.span.start, end: end as usize }, nx)),
        }
    }
}

pub proof fn lemma_place_ext_bounds(toks: Seq<Token>, hi: int, q: int, end: int, len: nat)
    requires
        0 <= q,
        spans_within(toks, len),
        0 <= end <= len,
    ensures
        place_ext(toks, hi, q, end) matches Some((e, nx)) ==> q <= nx && (nx > q ==> nx <= hi) && 0 <= e <= len,
    decreases hi - q,
{
    let dot = tk(toks, q, hi);
    let seg = tk(toks, q + 1, hi);
    if q < 0 || q >= hi || dot.kind != TokenKind::PunctDot {
    } else if q + 1 >= hi || seg.kind != TokenKind::Ident {
    } else {
        lemma_tk_within(toks, len, q + 1, hi);
        lemma_place_ext_bounds(toks, hi, q + 2, seg.span.end as int, len);
    }
}

/// A borrowed place starting at token `p` (see `place_of`): the root's
/// span, the whole place's span and the position of the token after it.
pub fn parse_place(toks: &[Token], hi: usize, p: usize, slice_len: usize) -> (r: Option<(Span, Span, usize)>)
    requires
        p < hi,
        hi <= toks@.len(),
        toks@.len() < usize::MAX,
        spans_within(toks@, slice_len as nat),
        tokens_ordered(toks@),
    ensures
        r matches Some((root, full, nx)) ==> place_of(toks@, hi as int, p as int) == Some((root, full, nx as int))
            && p < nx <= hi && full.within(slice_len as nat),
        r is None ==> place_of(toks@, hi as int, p as int) is None,
{
    let first = token_in(toks, p, hi);
    if first.kind != TokenKind::Ident {
        return None;
    }
    proof {
        lemma_tk_within(toks@, slice_len as nat, p as int, hi as int);
    }
    let ghost goal = place_ext(toks@, hi as int, p + 1, first.span.end as int);
    proof {
        lemma_place_ext_bounds(toks@, hi as int, p + 1, first.span.end as int, slice_len as nat);
    }
    let mut q = p + 1;
    let mut end = first.span.end;
    loop
        invariant
            p + 1 <= q <= hi,
            hi <= toks@.len(),
            spans_within(toks@, slice_len as nat),
            tokens_ordered(toks@),
            first == toks@[p as int],
            first == tk(toks@, p as int, hi as int),
            first.kind == TokenKind::Ident,
            p < hi,
            first.span.start <= first.span.end <= end <= slice_len,
            goal == place_ext(toks@, hi as int, p + 1, first.span.end as int),
            goal == place_ext(toks@, hi as int, q as int, end as int),
        decreases hi - q,
    {
        let dot = token_in(toks, q, hi);
        if q >= hi || dot.kind != TokenKind::PunctDot {
            return Some((first.span, Span::new(first.span.start, end), q));
        }
        let seg = token_in(toks, q + 1, hi);
        if q + 1 >= hi || seg.kind != TokenKind::Ident {
            return None;
        }
        proof {
            lemma_tk_within(toks@, slice_len as nat, q + 1, hi as int);
        }
        assert(toks@[p as int].span.end <= toks@[q + 1].span.start) by {
            reveal(tokens_ordered);
        }
        end = seg.span.end;
        q = q + 2;
    }
}

} // verus!
