use vstd::prelude::*;

use crate::lit::{
    bytes_eq, lit_array, lit_array_open, lit_chan, lit_slice, lit_slice_mut,
    sp_array, sp_array_open, sp_chan, sp_slice, sp_slice_mut,
};
use crate::numbers::{digit_value, digits_value, has_hex_prefix, parse_u32_any, spec_parse_u32_any};
use crate::types::{atoms_view, SigParseError, Span, TypeAtom, WordSig, ATOM_CAP, MAX_SIG_ARITY};

verus! {

/// Space, newline, carriage return or tab.
pub open spec fn is_ws(b: u8) -> bool {
    b == 32u8 || b == 10u8 || b == 13u8 || b == 9u8
}

/// First index at or after `i` that is not whitespace.
pub open spec fn skip_ws(s: Seq<u8>, i: int) -> int
    decreases s.len() - i,
{
    if 0 <= i < s.len() && is_ws(s[i]) {
        skip_ws(s, i + 1)
    } else {
        i
    }
}

/// Bytes that end a type name: `(`, `)`, `,` and whitespace.
pub open spec fn ends_name(b: u8) -> bool {
    b == 40u8 || b == 41u8 || b == 44u8 || is_ws(b)
}

/// End of the type name that starts at `i`.
pub open spec fn name_end(s: Seq<u8>, i: int) -> int
    decreases s.len() - i,
{
    if 0 <= i < s.len() && !ends_name(s[i]) {
        name_end(s, i + 1)
    } else {
        i
    }
}

/// End of the array length that starts at `i`: it runs up to `)` or whitespace.
pub open spec fn count_end(s: Seq<u8>, i: int) -> int
    decreases s.len() - i,
{
    if 0 <= i < s.len() && !(s[i] == 41u8 || is_ws(s[i])) {
        count_end(s, i + 1)
    } else {
        i
    }
}

/// Decimal spelling of `n`, most significant digit first.
pub open spec fn dec_digits(n: nat) -> Seq<u8>
    decreases n,
{
    if n < 10 {
        seq![(48 + n) as u8]
    } else {
        dec_digits(n / 10).push((48 + n % 10) as u8)
    }
}

/// The rest of a parameterised type after its first argument `inner`,
/// which ended at `j0`: `, N)` for `Array`, `)` for `Slice`, `SliceMut`
/// and `Chan`; other names take no argument.
pub open spec fn close_type_args(s: Seq<u8>, name: Seq<u8>, inner: Seq<u8>, j0: int) -> Option<(Seq<u8>, int)> {
    let j = skip_ws(s, j0);
    if name == sp_array() {
        if j < 0 || j >= s.len() || s[j] != 44u8 {
            None
        } else {
            let j1 = skip_ws(s, j + 1);
            let ne = count_end(s, j1);
            match spec_parse_u32_any(s.subrange(j1, ne)) {
                None => None,
                Some(n) => {
                    let j2 = skip_ws(s, ne);
                    if j2 < 0 || j2 >= s.len() || s[j2] != 41u8 {
                        None
                    } else {
                        let r = sp_array_open() + inner + seq![44u8] + dec_digits(n as nat) + seq![41u8];
                        if r.len() <= ATOM_CAP {
                            Some((r, j2 + 1))
                        } else {
                            None
                        }
                    }
                },
            }
        }
    } else if name == sp_slice() || name == sp_slice_mut() || name == sp_chan() {
        let j1 = skip_ws(s, j);
        if j1 < 0 || j1 >= s.len() || s[j1] != 41u8 {
            None
        } else {
            let r = name + seq![40u8] + inner + seq![41u8];
            if r.len() <= ATOM_CAP {
                Some((r, j1 + 1))
            } else {
                None
            }
        }
    } else {
        None
    }
}

/// The type expression that starts at `i` in `s`: its canonical spelling
/// and the index just past it (and past trailing whitespace for a bare
/// name).  Accepted forms are a bare name, `Array(T, N)`, `Slice(T)`,
/// `SliceMut(T)` and `Chan(T)`; the spelling must fit in an atom.
pub open spec fn spec_type_expr(s: Seq<u8>, i: int) -> Option<(Seq<u8>, int)>
    decreases s.len() - i,
{
    let i1 = skip_ws(s, i);
    if i1 < 0 || i1 >= s.len() {
        None
    } else {
        let e = name_end(s, i1);
        if e <= i1 {
            None
        } else {
            let name = s.subrange(i1, e);
            let i2 = skip_ws(s, e);
            if 0 <= i2 < s.len() && s[i2] == 40u8 {
                if i2 + 1 <= i {
                    None
                } else {
                    match spec_type_expr(s, i2 + 1) {
                        None => None,
                        Some((inner, j0)) => close_type_args(s, name, inner, j0),
                    }
                }
            } else if name.len() <= ATOM_CAP {
                Some((name, i2))
            } else {
                None
            }
        }
    }
}

proof fn lemma_skip_ws_ge(s: Seq<u8>, i: int)
    ensures
        skip_ws(s, i) >= i,
        i >= 0 ==> skip_ws(s, i) <= s.len() || skip_ws(s, i) == i,
        0 <= i <= s.len() ==> skip_ws(s, i) <= s.len(),
    decreases s.len() - i,
{
    if 0 <= i < s.len() && is_ws(s[i]) {
        lemma_skip_ws_ge(s, i + 1);
    }
}

proof fn lemma_name_end_ge(s: Seq<u8>, i: int)
    ensures
        name_end(s, i) >= i,
        0 <= i <= s.len() ==> name_end(s, i) <= s.len(),
    decreases s.len() - i,
{
    if 0 <= i < s.len() && !ends_name(s[i]) {
        lemma_name_end_ge(s, i + 1);
    }
}

proof fn lemma_count_end_ge(s: Seq<u8>, i: int)
    ensures
        count_end(s, i) >= i,
        0 <= i <= s.len() ==> count_end(s, i) <= s.len(),
    decreases s.len() - i,
{
    if 0 <= i < s.len() && !(s[i] == 41u8 || is_ws(s[i])) {
        lemma_count_end_ge(s, i + 1);
    }
}

/// A parsed type expression ends strictly after where parsing began and
/// inside the text.
pub proof fn lemma_type_expr_advances(s: Seq<u8>, i: int)
    requires
        0 <= i <= s.len(),
        spec_type_expr(s, i) is Some,
    ensures
        i < spec_type_expr(s, i).unwrap().1 <= s.len(),
        spec_type_expr(s, i).unwrap().0.len() <= ATOM_CAP,
    decreases s.len() - i,
{
    lemma_skip_ws_ge(s, i);
    let i1 = skip_ws(s, i);
    lemma_name_end_ge(s, i1);
    let e = name_end(s, i1);
    lemma_skip_ws_ge(s, e);
    let i2 = skip_ws(s, e);
    if 0 <= i2 < s.len() && s[i2] == 40u8 {
        lemma_type_expr_advances(s, i2 + 1);
        let j0 = spec_type_expr(s, i2 + 1).unwrap().1;
        lemma_skip_ws_ge(s, j0);
        let j = skip_ws(s, j0);
        lemma_skip_ws_ge(s, j + 1);
        lemma_count_end_ge(s, skip_ws(s, j + 1));
        lemma_skip_ws_ge(s, count_end(s, skip_ws(s, j + 1)));
        lemma_skip_ws_ge(s, j);
    }
}

fn skip_ws_from(slice: &[u8], i: usize) -> (r: usize)
    requires
        i <= slice@.len(),
    ensures
        r == skip_ws(slice@, i as int),
        i <= r <= slice@.len(),
{
    let mut k = i;
    while k < slice.len() && (slice[k] == 32 || slice[k] == 10 || slice[k] == 13 || slice[k] == 9)
        invariant
            i <= k <= slice@.len(),
            skip_ws(slice@, k as int) == skip_ws(slice@, i as int),
        decreases slice@.len() - k,
    {
        k += 1;
    }
    k
}

fn name_end_from(slice: &[u8], i: usize) -> (r: usize)
    requires
        i <= slice@.len(),
    ensures
        r == name_end(slice@, i as int),
        i <= r <= slice@.len(),
{
    let mut k = i;
    while k < slice.len() && !(slice[k] == 40 || slice[k] == 41 || slice[k] == 44 || slice[k] == 32
        || slice[k] == 10 || slice[k] == 13 || slice[k] == 9)
        invariant
            i <= k <= slice@.len(),
            name_end(slice@, k as int) == name_end(slice@, i as int),
        decreases slice@.len() - k,
    {
        k += 1;
    }
    k
}

fn count_end_from(slice: &[u8], i: usize) -> (r: usize)
    requires
        i <= slice@.len(),
    ensures
        r == count_end(slice@, i as int),
        i <= r <= slice@.len(),
{
    let mut k = i;
    while k < slice.len() && !(slice[k] == 41 || slice[k] == 32 || slice[k] == 10 || slice[k] == 13
        || slice[k] == 9)
        invariant
            i <= k <= slice@.len(),
            count_end(slice@, k as int) == count_end(slice@, i as int),
        decreases slice@.len() - k,
    {
        k += 1;
    }
    k
}

/// Copies `bytes` into `buf` at `at`, returning the position after them;
/// `None` (and `buf` untouched) when they do not fit in the 32-byte buffer.
pub fn push_bytes(buf: &mut [u8; 32], at: usize, bytes: &[u8]) -> (r: Option<usize>)
    requires
        at <= 32,
    ensures
        at + bytes@.len() <= 32 ==> r == Some((at + bytes@.len()) as usize)
            && final(buf)@ == old(buf)@.subrange(0, at as int) + bytes@
                + old(buf)@.subrange(at + bytes@.len(), 32),
        at + bytes@.len() > 32 ==> r is None && final(buf)@ == old(buf)@,
{
    if bytes.len() > 32 - at {
        return None;
    }
    let ghost orig = buf@;
    let mut k: usize = 0;
    while k < bytes.len()
        invariant
            at + bytes@.len() <= 32,
            k <= bytes@.len(),
            buf@.len() == 32,
            orig.len() == 32,
            buf@ == orig.subrange(0, at as int) + bytes@.subrange(0, k as int)
                + orig.subrange(at + k, 32),
        decreases bytes@.len() - k,
    {
        buf[at + k] = bytes[k];
        k += 1;
        assert(buf@ =~= orig.subrange(0, at as int) + bytes@.subrange(0, k as int)
            + orig.subrange(at + k, 32));
    }
    assert(bytes@.subrange(0, k as int) =~= bytes@);
    Some(at + k)
}

fn dec_digits_vec(v: u32) -> (d: Vec<u8>)
    ensures
        d@ == dec_digits(v as nat),
        1 <= d@.len() <= 10,
    decreases v,
{
    if v < 10 {
        let mut d = Vec::new();
        d.push((48 + v) as u8);
        assert(d@ =~= dec_digits(v as nat));
        d
    } else {
        let mut d = dec_digits_vec(v / 10);
        proof {
            lemma_dec_digits_len(v as nat);
        }
        d.push((48 + v % 10) as u8);
        d
    }
}

proof fn lemma_dec_digits_len(n: nat)
    ensures
        n < 10 ==> dec_digits(n).len() == 1,
        n <= u32::MAX ==> dec_digits(n).len() <= 10,
        dec_digits(n).len() >= 1,
    decreases n,
{
    if n >= 10 {
        lemma_dec_digits_len(n / 10);
        if n <= u32::MAX {
            if n / 10 >= 10 {
                lemma_dec_digits_len(n / 10 / 10);
            }
            assert(dec_digits(n / 10).len() <= 9) by {
                lemma_dec_digits_len_bound(n / 10);
            }
        }
    }
}

proof fn lemma_dec_digits_len_bound(n: nat)
    ensures
        n < 1_000_000_000 ==> dec_digits(n).len() <= 9,
        n < 100_000_000 ==> dec_digits(n).len() <= 8,
        n < 10_000_000 ==> dec_digits(n).len() <= 7,
        n < 1_000_000 ==> dec_digits(n).len() <= 6,
        n < 100_000 ==> dec_digits(n).len() <= 5,
        n < 10_000 ==> dec_digits(n).len() <= 4,
        n < 1_000 ==> dec_digits(n).len() <= 3,
        n < 100 ==> dec_digits(n).len() <= 2,
        n < 10 ==> dec_digits(n).len() <= 1,
    decreases n,
{
    if n >= 10 {
        lemma_dec_digits_len_bound(n / 10);
    }
}

/// Writes the decimal spelling of `v` into `buf` at `at` (see `push_bytes`).
pub fn push_u32_dec(buf: &mut [u8; 32], at: usize, v: u32) -> (r: Option<usize>)
    requires
        at <= 32,
    ensures
        at + dec_digits(v as nat).len() <= 32 ==> r == Some((at + dec_digits(v as nat).len()) as usize)
            && final(buf)@ == old(buf)@.subrange(0, at as int) + dec_digits(v as nat)
                + old(buf)@.subrange(at + dec_digits(v as nat).len(), 32),
        at + dec_digits(v as nat).len() > 32 ==> r is None && final(buf)@ == old(buf)@,
{
    let d = dec_digits_vec(v);
    push_bytes(buf, at, d.as_slice())
}

fn render_array(inner: &TypeAtom, n: u32) -> (r: Option<TypeAtom>)
    ensures
        ({
            let want = sp_array_open() + inner@ + seq![44u8] + dec_digits(n as nat) + seq![41u8];
            &&& r matches Some(a) ==> a@ == want && want.len() <= ATOM_CAP
            &&& r is None ==> want.len() > ATOM_CAP
        }),
{
    let ghost want = sp_array_open() + inner@ + seq![44u8] + dec_digits(n as nat) + seq![41u8];
    let inner_bytes = inner.to_vec();
    let comma: [u8; 1] = [44];
    let close: [u8; 1] = [41];
    let mut buf = [0u8; 32];
    let k0 = match push_bytes(&mut buf, 0, &lit_array_open()) {
        None => return None,
        Some(k) => k,
    };
    assert(buf@.subrange(0, k0 as int) =~= sp_array_open());
    let k1 = match push_bytes(&mut buf, k0, inner_bytes.as_slice()) {
        None => return None,
        Some(k) => k,
    };
    assert(buf@.subrange(0, k1 as int) =~= sp_array_open() + inner@);
    let k2 = match push_bytes(&mut buf, k1, &comma) {
        None => return None,
        Some(k) => k,
    };
    assert(buf@.subrange(0, k2 as int) =~= sp_array_open() + inner@ + seq![44u8]);
    let k3 = match push_u32_dec(&mut buf, k2, n) {
        None => return None,
        Some(k) => k,
    };
    assert(buf@.subrange(0, k3 as int) =~= sp_array_open() + inner@ + seq![44u8] + dec_digits(n as nat));
    let k4 = match push_bytes(&mut buf, k3, &close) {
        None => return None,
        Some(k) => k,
    };
    assert(buf@.subrange(0, k4 as int) =~= want);
    let atom = TypeAtom::new(&buf.as_slice()[0..k4]).unwrap();
    Some(atom)
}

fn render_wrapped(head: &[u8], inner: &TypeAtom) -> (r: Option<TypeAtom>)
    ensures
        ({
            let want = head@ + seq![40u8] + inner@ + seq![41u8];
            &&& r matches Some(a) ==> a@ == want && want.len() <= ATOM_CAP
            &&& r is None ==> want.len() > ATOM_CAP
        }),
{
    let inner_bytes = inner.to_vec();
    let open: [u8; 1] = [40];
    let close: [u8; 1] = [41];
    let mut buf = [0u8; 32];
    let k0 = match push_bytes(&mut buf, 0, head) {
        None => return None,
        Some(k) => k,
    };
    assert(buf@.subrange(0, k0 as int) =~= head@);
    let k1 = match push_bytes(&mut buf, k0, &open) {
        None => return None,
        Some(k) => k,
    };
    assert(buf@.subrange(0, k1 as int) =~= head@ + seq![40u8]);
    let k2 = match push_bytes(&mut buf, k1, inner_bytes.as_slice()) {
        None => return None,
        Some(k) => k,
    };
    assert(buf@.subrange(0, k2 as int) =~= head@ + seq![40u8] + inner@);
    let k3 = match push_bytes(&mut buf, k2, &close) {
        None => return None,
        Some(k) => k,
    };
    assert(buf@.subrange(0, k3 as int) =~= head@ + seq![40u8] + inner@ + seq![41u8]);
    let atom = TypeAtom::new(&buf.as_slice()[0..k3]).unwrap();
    Some(atom)
}

fn close_args(slice: &[u8], name: &[u8], inner: &TypeAtom, j0: usize) -> (r: Option<(TypeAtom, usize)>)
    requires
        j0 <= slice@.len(),
    ensures
        r matches Some((a, n)) ==> close_type_args(slice@, name@, inner@, j0 as int) == Some((a@, n as int)),
        r is None ==> close_type_args(slice@, name@, inner@, j0 as int) is None,
{
    let j = skip_ws_from(slice, j0);
    if bytes_eq(name, &lit_array()) {
        if j >= slice.len() || slice[j] != 44 {
            return None;
        }
        let j1 = skip_ws_from(slice, j + 1);
        let ne = count_end_from(slice, j1);
        let n = match parse_u32_any(&slice[j1..ne]) {
            None => return None,
            Some(n) => n,
        };
        let j2 = skip_ws_from(slice, ne);
        if j2 >= slice.len() || slice[j2] != 41 {
            return None;
        }
        return match render_array(inner, n) {
            None => None,
            Some(a) => Some((a, j2 + 1)),
        };
    }
    if bytes_eq(name, &lit_chan()) || bytes_eq(name, &lit_slice()) || bytes_eq(name, &lit_slice_mut()) {
        let j1 = skip_ws_from(slice, j);
        if j1 >= slice.len() || slice[j1] != 41 {
            return None;
        }
        return match render_wrapped(name, inner) {
            None => None,
            Some(a) => Some((a, j1 + 1)),
        };
    }
    None
}

/// Parses the type expression that starts at `i` (see `spec_type_expr`),
/// returning its atom and the index just past it.
pub fn parse_type_expr(slice: &[u8], i: usize) -> (r: Option<(TypeAtom, usize)>)
    ensures
        r matches Some((a, n)) ==> spec_type_expr(slice@, i as int) == Some((a@, n as int)),
        r is None ==> spec_type_expr(slice@, i as int) is None,
    decreases slice@.len() - i,
{
    let ghost s = slice@;
    if i >= slice.len() {
        return None;
    }
    let i1 = skip_ws_from(slice, i);
    if i1 >= slice.len() {
        return None;
    }
    let e = name_end_from(slice, i1);
    if e == i1 {
        return None;
    }
    let name = &slice[i1..e];
    let i2 = skip_ws_from(slice, e);
    if i2 < slice.len() && slice[i2] == 40 {
        let (inner, j0) = match parse_type_expr(slice, i2 + 1) {
            None => return None,
            Some(p) => p,
        };
        proof {
            lemma_type_expr_advances(s, i2 + 1);
        }
        close_args(slice, name, &inner, j0)
    } else {
        let atom = match TypeAtom::new(name) {
            None => return None,
            Some(a) => a,
        };
        Some((atom, i2))
    }
}

/// The whole of `s` is one type expression, possibly followed by whitespace.
pub open spec fn spec_type_atom_of(s: Seq<u8>) -> Option<Seq<u8>> {
    match spec_type_expr(s, 0) {
        Some((a, n)) => if skip_ws(s, n) == s.len() { Some(a) } else { None },
        None => None,
    }
}

/// Parses the type written in `src[span]`, allowing trailing whitespace.
pub fn parse_type_atom_from_span(src: &[u8], span: Span) -> (r: Option<TypeAtom>)
    requires
        span.within(src@.len()),
    ensures
        r matches Some(a) ==> spec_type_atom_of(src@.subrange(span.start as int, span.end as int)) == Some(a@),
        r is None ==> spec_type_atom_of(src@.subrange(span.start as int, span.end as int)) is None,
{
    let slice = &src[span.start..span.end];
    let (atom, next) = match parse_type_expr(slice, 0) {
        None => return None,
        Some(p) => p,
    };
    proof {
        lemma_type_expr_advances(slice@, 0);
    }
    let i = skip_ws_from(slice, next);
    if i != slice.len() {
        return None;
    }
    Some(atom)
}

/// Reading a signature `( in.. -- out.. )` from position `i` on, with the
/// atoms read so far.  Parentheses are plain delimiters, `--` switches
/// from inputs to outputs.  A type that does not parse is error 3100 at its
/// first byte; a ninth input is 3102 and a ninth output 3103, both over
/// the whole signature.  `base` is where `s` starts in the source.
pub open spec fn sig_scan(
    s: Seq<u8>,
    base: int,
    whole: Span,
    i: int,
    in_phase: bool,
    ins: Seq<Seq<u8>>,
    outs: Seq<Seq<u8>>,
) -> Result<(Seq<Seq<u8>>, Seq<Seq<u8>>), SigParseError>
    decreases s.len() - i,
{
    let i1 = skip_ws(s, i);
    if i1 < i || i1 < 0 || i1 >= s.len() {
        Ok((ins, outs))
    } else if s[i1] == 40u8 || s[i1] == 41u8 {
        sig_scan(s, base, whole, i1 + 1, in_phase, ins, outs)
    } else if i1 + 1 < s.len() && s[i1] == 45u8 && s[i1 + 1] == 45u8 {
        sig_scan(s, base, whole, i1 + 2, false, ins, outs)
    } else {
        match spec_type_expr(s, i1) {
            None => Err(
                SigParseError {
                    code: 3100,
                    span: Span {
                        start: (base + i1) as usize,
                        end: (base + if i1 + 1 < s.len() { i1 + 1 } else { s.len() as int }) as usize,
                    },
                },
            ),
            Some((a, next)) => {
                if next <= i1 || next > s.len() {
                    Ok((ins, outs))
                } else if in_phase {
                    if ins.len() >= MAX_SIG_ARITY {
                        Err(SigParseError { code: 3102, span: whole })
                    } else {
                        sig_scan(s, base, whole, next, in_phase, ins.push(a), outs)
                    }
                } else {
                    if outs.len() >= MAX_SIG_ARITY {
                        Err(SigParseError { code: 3103, span: whole })
                    } else {
                        sig_scan(s, base, whole, next, in_phase, ins, outs.push(a))
                    }
                }
            },
        }
    }
}

/// Reading a signature only adds to what was read before: the inputs and
/// outputs read so far stay, in order, at the front of the result, and
/// each type read later comes after them.
pub proof fn lemma_sig_scan_keeps_what_was_read(
    s: Seq<u8>,
    base: int,
    whole: Span,
    i: int,
    in_phase: bool,
    ins: Seq<Seq<u8>>,
    outs: Seq<Seq<u8>>,
)
    requires
        sig_scan(s, base, whole, i, in_phase, ins, outs) is Ok,
    ensures
        ({
            let (ri, ro) = sig_scan(s, base, whole, i, in_phase, ins, outs)->Ok_0;
            &&& ri.len() >= ins.len() && ri.subrange(0, ins.len() as int) == ins
            &&& ro.len() >= outs.len() && ro.subrange(0, outs.len() as int) == outs
        }),
    decreases s.len() - i,
{
    let i1 = skip_ws(s, i);
    if i1 < i || i1 < 0 || i1 >= s.len() {
        assert(ins.subrange(0, ins.len() as int) =~= ins);
        assert(outs.subrange(0, outs.len() as int) =~= outs);
    } else if s[i1] == 40u8 || s[i1] == 41u8 {
        lemma_skip_ws_ge(s, i);
        lemma_sig_scan_keeps_what_was_read(s, base, whole, i1 + 1, in_phase, ins, outs);
    } else if i1 + 1 < s.len() && s[i1] == 45u8 && s[i1 + 1] == 45u8 {
        lemma_skip_ws_ge(s, i);
        lemma_sig_scan_keeps_what_was_read(s, base, whole, i1 + 2, false, ins, outs);
    } else {
        match spec_type_expr(s, i1) {
            None => {},
            Some((a, next)) => {
                if next <= i1 || next > s.len() {
                    assert(ins.subrange(0, ins.len() as int) =~= ins);
                    assert(outs.subrange(0, outs.len() as int) =~= outs);
                } else if in_phase {
                    lemma_skip_ws_ge(s, i);
                    lemma_sig_scan_keeps_what_was_read(s, base, whole, next, in_phase, ins.push(a), outs);
                    let (ri, ro) = sig_scan(s, base, whole, i, in_phase, ins, outs)->Ok_0;
                    assert(ri.subrange(0, ins.len() as int) =~= ri.subrange(0, ins.len() + 1 as int).subrange(0, ins.len() as int));
                    assert(ins.push(a).subrange(0, ins.len() as int) =~= ins);
                    assert(outs.subrange(0, outs.len() as int) =~= outs);
                } else {
                    lemma_skip_ws_ge(s, i);
                    lemma_sig_scan_keeps_what_was_read(s, base, whole, next, in_phase, ins, outs.push(a));
                    let (ri, ro) = sig_scan(s, base, whole, i, in_phase, ins, outs)->Ok_0;
                    assert(ro.subrange(0, outs.len() as int) =~= ro.subrange(0, outs.len() + 1 as int).subrange(0, outs.len() as int));
                    assert(outs.push(a).subrange(0, outs.len() as int) =~= outs);
                }
            },
        }
    }
}

/// The signature written in `src[sig_span]`.
pub open spec fn spec_word_sig(src: Seq<u8>, sig_span: Span) -> Result<(Seq<Seq<u8>>, Seq<Seq<u8>>), SigParseError> {
    sig_scan(
        src.subrange(sig_span.start as int, sig_span.end as int),
        sig_span.start as int,
        sig_span,
        0,
        true,
        Seq::empty(),
        Seq::empty(),
    )
}

/// Parses a word's stack signature, `( inputs -- outputs )`.
pub fn parse_word_sig(src: &[u8], sig_span: Span) -> (r: Result<WordSig, SigParseError>)
    requires
        sig_span.within(src@.len()),
    ensures
        r matches Ok(sig) ==> spec_word_sig(src@, sig_span) == Ok::<_, SigParseError>((sig.ins(), sig.outs())),
        r matches Err(e) ==> spec_word_sig(src@, sig_span) == Err::<(Seq<Seq<u8>>, Seq<Seq<u8>>), _>(e),
{
    let mut sig = WordSig::empty();
    let mut in_phase = true;
    let slice = &src[sig_span.start..sig_span.end];
    let ghost s = slice@;
    let ghost goal = spec_word_sig(src@, sig_span);
    let mut i: usize = 0;
    assert(atoms_view(sig.inputs@) =~= Seq::<Seq<u8>>::empty());
    assert(atoms_view(sig.outputs@) =~= Seq::<Seq<u8>>::empty());
    while i < slice.len()
        invariant
            s == slice@,
            s.len() == sig_span.end - sig_span.start,
            sig_span.within(src@.len()),
            i <= s.len(),
            sig.inputs@.len() <= MAX_SIG_ARITY,
            sig.outputs@.len() <= MAX_SIG_ARITY,
            goal == spec_word_sig(src@, sig_span),
            s == src@.subrange(sig_span.start as int, sig_span.end as int),
            goal == sig_scan(s, sig_span.start as int, sig_span, i as int, in_phase, sig.ins(), sig.outs()),
        decreases s.len() - i,
    {
        let i1 = skip_ws_from(slice, i);
        proof {
            lemma_skip_ws_ge(s, i as int);
        }
        if i1 >= slice.len() {
            return Ok(sig);
        }
        if slice[i1] == 40 || slice[i1] == 41 {
            i = i1 + 1;
            continue;
        }
        if i1 + 1 < slice.len() && slice[i1] == 45 && slice[i1 + 1] == 45 {
            in_phase = false;
            i = i1 + 2;
            continue;
        }
        let (atom, next) = match parse_type_expr(slice, i1) {
            None => {
                let end = if i1 + 1 < slice.len() { i1 + 1 } else { slice.len() };
                return Err(SigParseError {
                    code: 3100,
                    span: Span::new(sig_span.start + i1, sig_span.start + end),
                });
            },
            Some(p) => p,
        };
        proof {
            lemma_type_expr_advances(s, i1 as int);
        }
        if in_phase {
            if sig.inputs.len() >= MAX_SIG_ARITY {
                return Err(SigParseError { code: 3102, span: sig_span });
            }
            let ghost before = sig.inputs@;
            sig.inputs.push(atom);
            assert(atoms_view(sig.inputs@) =~= atoms_view(before).push(atom@));
        } else {
            if sig.outputs.len() >= MAX_SIG_ARITY {
                return Err(SigParseError { code: 3103, span: sig_span });
            }
            let ghost before = sig.outputs@;
            sig.outputs.push(atom);
            assert(atoms_view(sig.outputs@) =~= atoms_view(before).push(atom@));
        }
        i = next;
    }
    Ok(sig)
}


// ---------------------------------------------------------------------------
// The canonical spelling of a type expression reads back as itself
// ---------------------------------------------------------------------------

proof fn lemma_skip_stop(u: Seq<u8>, p: int)
    requires
        0 <= p,
        p >= u.len() || !is_ws(u[p]),
    ensures
        skip_ws(u, p) == p,
{
}

proof fn lemma_name_chars(s: Seq<u8>, i: int)
    requires
        0 <= i,
    ensures
        forall|t: int| i <= t < name_end(s, i) ==> !ends_name(#[trigger] s[t]),
    decreases s.len() - i,
{
    if 0 <= i < s.len() && !ends_name(s[i]) {
        lemma_name_chars(s, i + 1);
    }
}

/// Where `u` holds `a` at `k`, its pieces stand at the same offsets.
proof fn lemma_holds_at(u: Seq<u8>, k: int, a: Seq<u8>, x: int, y: int)
    requires
        0 <= k,
        k + a.len() <= u.len(),
        u.subrange(k, k + a.len()) == a,
        0 <= x <= y <= a.len(),
    ensures
        u.subrange(k + x, k + y) == a.subrange(x, y),
        forall|t: int| 0 <= t < a.len() ==> u[k + t] == #[trigger] a[t],
{
    assert forall|t: int| 0 <= t < a.len() implies u[k + t] == #[trigger] a[t] by {
        assert(u.subrange(k, k + a.len())[t] == u[k + t]);
    }
    assert(u.subrange(k + x, k + y) =~= a.subrange(x, y));
}

proof fn lemma_name_transfer(u: Seq<u8>, k: int, w: Seq<u8>, t: int)
    requires
        0 <= k,
        k + w.len() <= u.len(),
        0 <= t <= w.len(),
        u.subrange(k, k + w.len()) == w,
        forall|c: int| 0 <= c < w.len() ==> !ends_name(#[trigger] w[c]),
        k + w.len() == u.len() || ends_name(u[k + w.len()]),
    ensures
        name_end(u, k + t) == k + w.len(),
    decreases w.len() - t,
{
    if t < w.len() {
        lemma_holds_at(u, k, w, 0, w.len() as int);
        assert(u[k + t] == w[t]);
        lemma_name_transfer(u, k, w, t + 1);
    }
}

proof fn lemma_count_transfer(u: Seq<u8>, k: int, w: Seq<u8>, t: int)
    requires
        0 <= k,
        k + w.len() < u.len(),
        0 <= t <= w.len(),
        u.subrange(k, k + w.len()) == w,
        forall|c: int| 0 <= c < w.len() ==> 48 <= #[trigger] w[c] <= 57,
        u[k + w.len()] == 41u8,
    ensures
        count_end(u, k + t) == k + w.len(),
    decreases w.len() - t,
{
    if t < w.len() {
        lemma_holds_at(u, k, w, 0, w.len() as int);
        assert(u[k + t] == w[t]);
        lemma_count_transfer(u, k, w, t + 1);
    }
}

proof fn lemma_dec_digits(n: nat)
    ensures
        dec_digits(n).len() >= 1,
        forall|t: int| 0 <= t < dec_digits(n).len() ==> 48 <= #[trigger] dec_digits(n)[t] <= 57,
        digits_value(dec_digits(n), 10) == n,
    decreases n,
{
    let d = dec_digits(n);
    if n >= 10 {
        lemma_dec_digits(n / 10);
        let p = dec_digits(n / 10);
        assert(d.drop_last() =~= p);
        assert(n / 10 * 10 + n % 10 == n) by (nonlinear_arith);
        let c = (48 + n % 10) as u8;
        assert(c == 48 + n % 10);
        assert(d.last() == c);
        assert(digit_value(c, 10) == Some((n % 10) as nat));
        assert(digits_value(d, 10) == digits_value(p, 10) * 10 + n % 10);
        assert forall|t: int| 0 <= t < d.len() implies 48 <= #[trigger] d[t] <= 57 by {
            if t < d.len() - 1 {
                assert(d[t] == p[t]);
            }
        }
    } else {
        let c = (48 + n) as u8;
        assert(c == 48 + n);
        assert(d.last() == c);
        assert(d.drop_last() =~= Seq::<u8>::empty());
        assert(digit_value(c, 10) == Some(n));
        assert(digits_value(d.drop_last(), 10) == 0);
    }
}

proof fn lemma_parse_dec(n: u32)
    ensures
        spec_parse_u32_any(dec_digits(n as nat)) == Some(n),
{
    lemma_dec_digits(n as nat);
    let d = dec_digits(n as nat);
    if d.len() >= 2 {
        assert(48 <= d[1] <= 57);
    }
    assert(!has_hex_prefix(d));
    assert forall|t: int| 0 <= t < d.len() implies (d[t] == 95u8 || digit_value(d[t], 10) is Some) by {
        assert(48 <= d[t] <= 57);
    }
}

/// A type expression's canonical spelling, standing anywhere in a text and
/// followed by the text's end, a `,` or a `)`, reads back as itself.
#[verifier::rlimit(100)]
#[verifier::spinoff_prover]
proof fn lemma_type_expr_in(s: Seq<u8>, i: int, u: Seq<u8>, k: int)
    requires
        0 <= i <= s.len(),
        spec_type_expr(s, i) is Some,
        0 <= k,
        k + spec_type_expr(s, i).unwrap().0.len() <= u.len(),
        u.subrange(k, k + spec_type_expr(s, i).unwrap().0.len()) == spec_type_expr(s, i).unwrap().0,
        ({
            let m = k + spec_type_expr(s, i).unwrap().0.len();
            &&& m == u.len() || u[m] == 44u8 || u[m] == 41u8 || is_ws(u[m])
            &&& skip_ws(u, m) >= u.len() || u[skip_ws(u, m)] != 40u8
        }),
    ensures
        ({
            let m = k + spec_type_expr(s, i).unwrap().0.len();
            &&& spec_type_expr(u, k) is Some
            &&& spec_type_expr(u, k).unwrap().0 == spec_type_expr(s, i).unwrap().0
            &&& m <= spec_type_expr(u, k).unwrap().1
            &&& skip_ws(u, spec_type_expr(u, k).unwrap().1) == skip_ws(u, m)
        }),
    decreases s.len() - i,
{
    let a = spec_type_expr(s, i).unwrap().0;
    let m = k + a.len();
    lemma_skip_ws_ge(s, i);
    let i1 = skip_ws(s, i);
    lemma_name_end_ge(s, i1);
    let e = name_end(s, i1);
    lemma_name_chars(s, i1);
    let name = s.subrange(i1, e);
    lemma_skip_ws_ge(s, e);
    let i2 = skip_ws(s, e);
    assert forall|c: int| 0 <= c < name.len() implies !ends_name(#[trigger] name[c]) by {
        assert(name[c] == s[i1 + c]);
    }
    assert(!ends_name(name[0]));
    if 0 <= i2 < s.len() && s[i2] == 40u8 {
        let (inner, j0) = spec_type_expr(s, i2 + 1).unwrap();
        let nl = name.len() as int;
        let q = k + nl + 1;
        lemma_type_expr_advances(s, i2 + 1);
        if name == sp_array() {
            let j = skip_ws(s, j0);
            let j1 = skip_ws(s, j + 1);
            let ne = count_end(s, j1);
            let n = spec_parse_u32_any(s.subrange(j1, ne)).unwrap();
            let dd = dec_digits(n as nat);
            assert(sp_array_open() =~= name + seq![40u8]);
            assert(a == name + seq![40u8] + inner + seq![44u8] + dd + seq![41u8]);
            lemma_dec_digits(n as nat);
            let pi = nl + 1 + inner.len();
            assert(a.subrange(0, nl) =~= name);
            assert(a[nl] == 40u8);
            assert(a.subrange(nl + 1, pi) =~= inner);
            assert(a[pi] == 44u8);
            assert(a.subrange(pi + 1, pi + 1 + dd.len()) =~= dd);
            assert(a[pi + 1 + dd.len()] == 41u8);
            assert(a.len() == pi + 1 + dd.len() + 1);
            lemma_holds_at(u, k, a, 0, nl);
            lemma_holds_at(u, k, a, nl + 1, pi);
            lemma_holds_at(u, k, a, pi + 1, pi + 1 + dd.len());
            assert(u[k] == name[0]);
            lemma_skip_stop(u, k);
            lemma_name_transfer(u, k, name, 0);
            lemma_skip_stop(u, k + nl);
            lemma_skip_stop(u, q + inner.len());
            lemma_type_expr_in(s, i2 + 1, u, q);
            lemma_skip_ws_ge(u, spec_type_expr(u, q).unwrap().1);
            let j0u = q + inner.len();
            lemma_skip_stop(u, j0u);
            assert(u[j0u + 1] == dd[0]);
            lemma_skip_stop(u, j0u + 1);
            lemma_count_transfer(u, j0u + 1, dd, 0);
            lemma_parse_dec(n);
            let neu = j0u + 1 + dd.len();
            lemma_skip_stop(u, neu);
            assert(close_type_args(u, name, inner, j0u) == Some((a, neu + 1)));
        } else {
            assert(name == sp_slice() || name == sp_slice_mut() || name == sp_chan());
            assert(a == name + seq![40u8] + inner + seq![41u8]);
            let pi = nl + 1 + inner.len();
            assert(a.subrange(0, nl) =~= name);
            assert(a[nl] == 40u8);
            assert(a.subrange(nl + 1, pi) =~= inner);
            assert(a[pi] == 41u8);
            assert(a.len() == pi + 1);
            lemma_holds_at(u, k, a, 0, nl);
            lemma_holds_at(u, k, a, nl + 1, pi);
            assert(u[k] == name[0]);
            lemma_skip_stop(u, k);
            lemma_name_transfer(u, k, name, 0);
            lemma_skip_stop(u, k + nl);
            lemma_skip_stop(u, q + inner.len());
            lemma_type_expr_in(s, i2 + 1, u, q);
            lemma_skip_ws_ge(u, spec_type_expr(u, q).unwrap().1);
            let j0u = q + inner.len();
            lemma_skip_stop(u, j0u);
            assert(close_type_args(u, name, inner, j0u) == Some((a, j0u + 1)));
        }
    } else {
        assert(a == name);
        lemma_holds_at(u, k, a, 0, a.len() as int);
        assert(u[k] == name[0]);
        lemma_skip_stop(u, k);
        lemma_name_transfer(u, k, name, 0);
        lemma_skip_ws_stops(u, m);
        lemma_skip_ws_ge(u, m);
        lemma_skip_stop(u, skip_ws(u, m));
    }
}

proof fn lemma_skip_ws_stops(s: Seq<u8>, i: int)
    requires
        0 <= i,
    ensures
        skip_ws(s, i) >= s.len() || !is_ws(s[skip_ws(s, i)]),
    decreases s.len() - i,
{
    if 0 <= i < s.len() && is_ws(s[i]) {
        lemma_skip_ws_stops(s, i + 1);
    }
}

/// The canonical spelling that `parse_type_expr` gives (no whitespace, a
/// decimal array length) reads back as itself, and the parse ends inside
/// the text, past where it began.
pub proof fn lemma_type_expr_reparses(s: Seq<u8>, i: int)
    requires
        0 <= i <= s.len(),
        spec_type_expr(s, i) is Some,
    ensures
        i < spec_type_expr(s, i).unwrap().1 <= s.len(),
        spec_type_expr(spec_type_expr(s, i).unwrap().0, 0) == Some(
            (spec_type_expr(s, i).unwrap().0, spec_type_expr(s, i).unwrap().0.len() as int),
        ),
{
    lemma_type_expr_advances(s, i);
    let a = spec_type_expr(s, i).unwrap().0;
    assert(a.subrange(0, a.len() as int) =~= a);
    lemma_type_expr_in(s, i, a, 0);
    lemma_skip_ws_ge(a, spec_type_expr(a, 0).unwrap().1);
}

/// A type expression's spelling is not empty and starts with a byte that
/// can begin a name.
proof fn lemma_type_expr_first(s: Seq<u8>, i: int)
    requires
        0 <= i <= s.len(),
        spec_type_expr(s, i) is Some,
    ensures
        spec_type_expr(s, i).unwrap().0.len() >= 1,
        !ends_name(spec_type_expr(s, i).unwrap().0[0]),
{
    let a = spec_type_expr(s, i).unwrap().0;
    lemma_skip_ws_ge(s, i);
    let i1 = skip_ws(s, i);
    lemma_name_end_ge(s, i1);
    let e = name_end(s, i1);
    lemma_name_chars(s, i1);
    let name = s.subrange(i1, e);
    assert(!ends_name(s[i1]));
    assert(name[0] == s[i1]);
    let i2 = skip_ws(s, e);
    if 0 <= i2 < s.len() && s[i2] == 40u8 {
        let inner = spec_type_expr(s, i2 + 1).unwrap().0;
        if name == sp_array() {
            assert(sp_array_open() =~= name + seq![40u8]);
            assert(a[0] == name[0]);
        } else {
            assert(a == name + seq![40u8] + inner + seq![41u8]);
            assert(a[0] == name[0]);
        }
    }
}

/// A signature type in its canonical spelling: it reads back as itself
/// and is not the `--` separator.
pub open spec fn is_type_spelling(x: Seq<u8>) -> bool {
    &&& spec_type_expr(x, 0) == Some((x, x.len() as int))
    &&& !(x.len() >= 2 && x[0] == 45u8 && x[1] == 45u8)
}

/// The types `parts`, each after one space.
pub open spec fn spaced(parts: Seq<Seq<u8>>) -> Seq<u8>
    decreases parts.len(),
{
    if parts.len() == 0 {
        Seq::empty()
    } else {
        seq![32u8] + parts[0] + spaced(parts.drop_first())
    }
}

/// The signature `( in.. -- out.. )` written with single spaces.
pub open spec fn sig_text(ins: Seq<Seq<u8>>, outs: Seq<Seq<u8>>) -> Seq<u8> {
    seq![40u8] + spaced(ins) + seq![32u8, 45u8, 45u8] + spaced(outs) + seq![32u8, 41u8]
}

/// Reading a signature goes on the same way from any two positions with
/// the same next non-space byte.
proof fn lemma_sig_scan_same_stop(
    s: Seq<u8>,
    base: int,
    whole: Span,
    i: int,
    j: int,
    in_phase: bool,
    ins: Seq<Seq<u8>>,
    outs: Seq<Seq<u8>>,
)
    requires
        0 <= i,
        0 <= j,
        skip_ws(s, i) == skip_ws(s, j),
    ensures
        sig_scan(s, base, whole, i, in_phase, ins, outs) == sig_scan(s, base, whole, j, in_phase, ins, outs),
{
    lemma_skip_ws_ge(s, i);
    lemma_skip_ws_ge(s, j);
}

/// Reading one type at `i` (after spaces) adds it to the inputs or the
/// outputs and goes on just past it.
proof fn lemma_sig_scan_reads_type(
    u: Seq<u8>,
    base: int,
    whole: Span,
    i: int,
    in_phase: bool,
    ins: Seq<Seq<u8>>,
    outs: Seq<Seq<u8>>,
)
    requires
        0 <= i,
        0 <= skip_ws(u, i) < u.len(),
        u[skip_ws(u, i)] != 40u8 && u[skip_ws(u, i)] != 41u8,
        !(skip_ws(u, i) + 1 < u.len() && u[skip_ws(u, i)] == 45u8 && u[skip_ws(u, i) + 1] == 45u8),
        spec_type_expr(u, skip_ws(u, i)) is Some,
        skip_ws(u, i) < spec_type_expr(u, skip_ws(u, i)).unwrap().1 <= u.len(),
        in_phase ==> ins.len() < MAX_SIG_ARITY,
        !in_phase ==> outs.len() < MAX_SIG_ARITY,
    ensures
        ({
            let (a, n) = spec_type_expr(u, skip_ws(u, i)).unwrap();
            &&& in_phase ==> sig_scan(u, base, whole, i, in_phase, ins, outs) == sig_scan(u, base, whole, n, in_phase, ins.push(a), outs)
            &&& !in_phase ==> sig_scan(u, base, whole, i, in_phase, ins, outs) == sig_scan(u, base, whole, n, in_phase, ins, outs.push(a))
        }),
{
    lemma_skip_ws_ge(u, i);
}

/// Where `u` holds `spaced(parts)` at `k`, with `parts` not empty: a space,
/// the first type right after it, and the spaced rest after that type.
proof fn lemma_spaced_at(u: Seq<u8>, k: int, parts: Seq<Seq<u8>>)
    requires
        0 <= k,
        parts.len() > 0,
        k + spaced(parts).len() <= u.len(),
        u.subrange(k, k + spaced(parts).len()) == spaced(parts),
    ensures
        u[k] == 32u8,
        u.subrange(k + 1, k + 1 + parts[0].len()) == parts[0],
        u.subrange(k + 1 + parts[0].len(), k + spaced(parts).len()) == spaced(parts.drop_first()),
        k + 1 + parts[0].len() + spaced(parts.drop_first()).len() == k + spaced(parts).len(),
        parts[0].len() >= 1 ==> u[k + 1] == parts[0][0],
        parts[0].len() >= 2 ==> u[k + 2] == parts[0][1],
{
    let sp = spaced(parts);
    let x = parts[0];
    let xl: int = x.len() as int;
    let sr = spaced(parts.drop_first());
    assert(sp == seq![32u8] + x + sr);
    assert(sp.subrange(1, 1 + xl) =~= x);
    assert(sp.subrange(1 + xl, sp.len() as int) =~= sr);
    lemma_holds_at(u, k, sp, 1, 1 + xl);
    lemma_holds_at(u, k, sp, 1 + xl, sp.len() as int);
    assert(u[k] == sp[0]);
    if xl >= 1 {
        assert(u[k + 1] == sp[1]);
    }
    if xl >= 2 {
        assert(u[k + 2] == sp[2]);
    }
}

/// The first of the spaced types at `k` reads back as itself from `k`,
/// and reading goes on where the spaced rest begins.
#[verifier::spinoff_prover]
proof fn lemma_spaced_first_type(u: Seq<u8>, k: int, parts: Seq<Seq<u8>>)
    requires
        0 <= k,
        parts.len() > 0,
        k + spaced(parts).len() < u.len(),
        u.subrange(k, k + spaced(parts).len()) == spaced(parts),
        forall|t: int| 0 <= t < parts.len() ==> is_type_spelling(#[trigger] parts[t]),
        is_ws(u[k + spaced(parts).len()]),
        skip_ws(u, k + spaced(parts).len()) >= u.len() || u[skip_ws(u, k + spaced(parts).len())] != 40u8,
    ensures
        ({
            let m1 = k + 1 + parts[0].len();
            &&& skip_ws(u, k) == k + 1
            &&& u[k + 1] != 40u8 && u[k + 1] != 41u8
            &&& !(u[k + 1] == 45u8 && u[k + 2] == 45u8)
            &&& spec_type_expr(u, k + 1) == Some((parts[0], spec_type_expr(u, k + 1).unwrap().1))
            &&& k + 1 < spec_type_expr(u, k + 1).unwrap().1 <= u.len()
            &&& m1 <= spec_type_expr(u, k + 1).unwrap().1
            &&& skip_ws(u, spec_type_expr(u, k + 1).unwrap().1) == skip_ws(u, m1)
            &&& is_ws(u[m1])
            &&& skip_ws(u, m1) >= u.len() || u[skip_ws(u, m1)] != 40u8
        }),
{
    let x = parts[0];
    let rest = parts.drop_first();
    let m: int = k + spaced(parts).len() as int;
    let m1: int = k + 1 + x.len() as int;
    lemma_spaced_at(u, k, parts);
    assert(is_type_spelling(x));
    lemma_type_expr_first(x, 0);
    lemma_skip_stop(u, k + 1);
    assert(skip_ws(u, k) == k + 1);
    if rest.len() > 0 {
        lemma_spaced_at(u, m1, rest);
        assert(is_type_spelling(rest[0]));
        assert(rest[0] == parts[1]);
        lemma_type_expr_first(rest[0], 0);
        lemma_skip_stop(u, m1 + 1);
        assert(skip_ws(u, m1) == m1 + 1);
    } else {
        assert(m1 == m);
    }
    lemma_type_expr_in(x, 0, u, k + 1);
    lemma_type_expr_advances(u, k + 1);
}

/// Reading spaced types appends them, in order, to what was read so far.
#[verifier::spinoff_prover]
proof fn lemma_sig_scan_spaced(
    u: Seq<u8>,
    base: int,
    whole: Span,
    k: int,
    in_phase: bool,
    ins: Seq<Seq<u8>>,
    outs: Seq<Seq<u8>>,
    parts: Seq<Seq<u8>>,
)
    requires
        0 <= k,
        k + spaced(parts).len() < u.len(),
        u.subrange(k, k + spaced(parts).len()) == spaced(parts),
        forall|t: int| 0 <= t < parts.len() ==> is_type_spelling(#[trigger] parts[t]),
        is_ws(u[k + spaced(parts).len()]),
        skip_ws(u, k + spaced(parts).len()) >= u.len() || u[skip_ws(u, k + spaced(parts).len())] != 40u8,
        in_phase ==> ins.len() + parts.len() <= MAX_SIG_ARITY,
        !in_phase ==> outs.len() + parts.len() <= MAX_SIG_ARITY,
    ensures
        in_phase ==> sig_scan(u, base, whole, k, in_phase, ins, outs) == sig_scan(
            u,
            base,
            whole,
            k + spaced(parts).len(),
            in_phase,
            ins + parts,
            outs,
        ),
        !in_phase ==> sig_scan(u, base, whole, k, in_phase, ins, outs) == sig_scan(
            u,
            base,
            whole,
            k + spaced(parts).len(),
            in_phase,
            ins,
            outs + parts,
        ),
    decreases parts.len(),
{
    if parts.len() == 0 {
        assert(ins + parts =~= ins);
        assert(outs + parts =~= outs);
    } else {
        let x = parts[0];
        let rest = parts.drop_first();
        let m1: int = k + 1 + x.len() as int;
        lemma_spaced_at(u, k, parts);
        lemma_spaced_first_type(u, k, parts);
        let n = spec_type_expr(u, k + 1).unwrap().1;
        lemma_skip_ws_ge(u, m1);
        assert forall|t: int| 0 <= t < rest.len() implies is_type_spelling(#[trigger] rest[t]) by {
            assert(rest[t] == parts[t + 1]);
        }
        if in_phase {
            lemma_sig_scan_reads_type(u, base, whole, k, in_phase, ins, outs);
            lemma_sig_scan_same_stop(u, base, whole, n, m1, in_phase, ins.push(x), outs);
            lemma_sig_scan_spaced(u, base, whole, m1, in_phase, ins.push(x), outs, rest);
            assert(ins.push(x) + rest =~= ins + parts);
        } else {
            lemma_sig_scan_reads_type(u, base, whole, k, in_phase, ins, outs);
            lemma_sig_scan_same_stop(u, base, whole, n, m1, in_phase, ins, outs.push(x));
            lemma_sig_scan_spaced(u, base, whole, m1, in_phase, ins, outs.push(x), rest);
            assert(outs.push(x) + rest =~= outs + parts);
        }
    }
}

/// A signature written as `( in.. -- out.. )`, each type in its canonical
/// spelling after one space, reads back as exactly those inputs and
/// outputs, each list in the order written.
#[verifier::spinoff_prover]
pub proof fn lemma_word_sig_reads_back(ins: Seq<Seq<u8>>, outs: Seq<Seq<u8>>)
    requires
        forall|t: int| 0 <= t < ins.len() ==> is_type_spelling(#[trigger] ins[t]),
        forall|t: int| 0 <= t < outs.len() ==> is_type_spelling(#[trigger] outs[t]),
        ins.len() <= MAX_SIG_ARITY,
        outs.len() <= MAX_SIG_ARITY,
        sig_text(ins, outs).len() <= usize::MAX,
    ensures
        spec_word_sig(sig_text(ins, outs), (Span { start: 0, end: sig_text(ins, outs).len() as usize }))
            == Ok::<_, SigParseError>((ins, outs)),
{
    let t = sig_text(ins, outs);
    let whole = Span { start: 0, end: t.len() as usize };
    let si = spaced(ins);
    let so = spaced(outs);
    let m: int = 1 + si.len() as int;
    let m2: int = m + 3 + so.len() as int;
    assert(t.subrange(0, t.len() as int) =~= t);
    assert(t.len() == m2 + 2);
    assert(t.subrange(1, m) =~= si);
    assert(t.subrange(m + 3, m2) =~= so);
    assert(t[0] == 40u8);
    assert(t[m] == 32u8 && t[m + 1] == 45u8 && t[m + 2] == 45u8);
    assert(t[m2] == 32u8 && t[m2 + 1] == 41u8);
    let e: Seq<Seq<u8>> = Seq::empty();
    lemma_skip_stop(t, 0);
    lemma_skip_stop(t, m + 1);
    lemma_skip_stop(t, m2 + 1);
    lemma_skip_stop(t, m2 + 2);
    assert(skip_ws(t, m) == m + 1);
    assert(skip_ws(t, m2) == m2 + 1);
    lemma_sig_scan_spaced(t, 0, whole, 1, true, e, e, ins);
    lemma_sig_scan_spaced(t, 0, whole, m + 3, false, ins, e, outs);
    assert(e + ins =~= ins);
    assert(e + outs =~= outs);
    assert(sig_scan(t, 0, whole, 0, true, e, e) == sig_scan(t, 0, whole, 1, true, e, e));
    assert(sig_scan(t, 0, whole, m, true, ins, e) == sig_scan(t, 0, whole, m + 3, false, ins, e));
    assert(sig_scan(t, 0, whole, m2, false, ins, outs) == sig_scan(t, 0, whole, m2 + 2, false, ins, outs));
    assert(sig_scan(t, 0, whole, m2 + 2, false, ins, outs) == Ok::<_, SigParseError>((ins, outs)));
}

} // verus!
