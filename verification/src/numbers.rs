use vstd::prelude::*;

verus! {

/// Value of an ASCII digit in `base` (10 or 16); letters count only in base 16.
pub open spec fn digit_value(b: u8, base: nat) -> Option<nat> {
    if 48 <= b <= 57 {
        Some((b - 48) as nat)
    } else if base == 16 && 97 <= b <= 102 {
        Some((b - 97 + 10) as nat)
    } else if base == 16 && 65 <= b <= 70 {
        Some((b - 65 + 10) as nat)
    } else {
        None
    }
}

/// Every byte is a digit of `base` or an underscore separator.
pub open spec fn digits_ok(s: Seq<u8>, base: nat) -> bool {
    forall|i: int| 0 <= i < s.len() ==> (s[i] == 95u8 || digit_value(s[i], base) is Some)
}

/// The number the digits spell in `base`, ignoring underscores and any
/// byte that is not a digit.
pub open spec fn digits_value(s: Seq<u8>, base: nat) -> nat
    decreases s.len(),
{
    if s.len() == 0 {
        0
    } else {
        let prev = digits_value(s.drop_last(), base);
        match digit_value(s.last(), base) {
            Some(d) => prev * base + d,
            None => prev,
        }
    }
}

/// `s` starts with `0x` or `0X`.
pub open spec fn has_hex_prefix(s: Seq<u8>) -> bool {
    s.len() >= 2 && s[0] == 48u8 && (s[1] == 120u8 || s[1] == 88u8)
}

/// An unsigned 32-bit literal: decimal, or hex after `0x`; underscores are
/// separators.  `None` for an empty token, a stray byte, or overflow.
pub open spec fn spec_parse_u32_any(s: Seq<u8>) -> Option<u32> {
    if s.len() == 0 {
        None
    } else {
        let base: nat = if has_hex_prefix(s) { 16 } else { 10 };
        let body = if has_hex_prefix(s) { s.subrange(2, s.len() as int) } else { s };
        if digits_ok(body, base) && digits_value(body, base) <= u32::MAX {
            Some(digits_value(body, base) as u32)
        } else {
            None
        }
    }
}

proof fn lemma_digits_value_prefix_mono(s: Seq<u8>, base: nat, k: int)
    requires
        base >= 1,
        0 <= k <= s.len(),
    ensures
        digits_value(s.subrange(0, k), base) <= digits_value(s, base),
    decreases s.len(),
{
    if k < s.len() {
        lemma_digits_value_prefix_mono(s.drop_last(), base, k);
        assert(s.drop_last().subrange(0, k) =~= s.subrange(0, k));
        let prev = digits_value(s.drop_last(), base);
        match digit_value(s.last(), base) {
            Some(d) => {
                assert(prev * base >= prev) by (nonlinear_arith)
                    requires
                        base >= 1,
                ;
            },
            None => {},
        }
    } else {
        assert(s.subrange(0, k) =~= s);
    }
}

fn digit_of(b: u8, base: u32) -> (r: Option<u32>)
    requires
        base == 10 || base == 16,
    ensures
        r matches Some(d) ==> digit_value(b, base as nat) == Some(d as nat),
        r is None ==> digit_value(b, base as nat) is None,
{
    if 48 <= b && b <= 57 {
        Some((b - 48) as u32)
    } else if base == 16 && 97 <= b && b <= 102 {
        Some((b - 97 + 10) as u32)
    } else if base == 16 && 65 <= b && b <= 70 {
        Some((b - 65 + 10) as u32)
    } else {
        None
    }
}

/// Parses an unsigned decimal or `0x` hexadecimal literal, with `_`
/// separators, refusing anything that does not fit in 32 bits.
pub fn parse_u32_any(bytes: &[u8]) -> (r: Option<u32>)
    ensures
        r == spec_parse_u32_any(bytes@),
{
    if bytes.len() == 0 {
        return None;
    }
    let mut i: usize = 0;
    let mut base: u32 = 10;
    if bytes.len() >= 2 && bytes[0] == 48 && (bytes[1] == 120 || bytes[1] == 88) {
        base = 16;
        i = 2;
    }
    let ghost s = bytes@;
    let ghost start = i as int;
    let ghost body = s.subrange(start, s.len() as int);
    assert(has_hex_prefix(s) <==> base == 16);
    assert(base == 10 ==> body =~= s);
    let mut v: u32 = 0;
    while i < bytes.len()
        invariant
            s == bytes@,
            base == 10 || base == 16,
            has_hex_prefix(s) <==> base == 16,
            start == (if base == 16 { 2int } else { 0int }),
            start <= i <= s.len(),
            body == s.subrange(start, s.len() as int),
            base == 10 ==> body == s,
            digits_ok(s.subrange(start, i as int), base as nat),
            v == digits_value(s.subrange(start, i as int), base as nat),
        decreases s.len() - i,
    {
        let b = bytes[i];
        let ghost pre = s.subrange(start, i as int);
        let ghost next = s.subrange(start, i + 1);
        assert(next.drop_last() =~= pre);
        assert(next.last() == b);
        if b == 95 {
            i += 1;
            assert(digits_ok(next, base as nat));
            continue;
        }
        let d = match digit_of(b, base) {
            Some(d) => d,
            None => {
                assert(body[i - start] == b);
                assert(!digits_ok(body, base as nat));
                return None;
            },
        };
        assert(digits_value(next, base as nat) == v * base + d);
        let q = (u32::MAX - d) / base;
        if v > q {
            proof {
                assert(v * base + d > u32::MAX) by (nonlinear_arith)
                    requires
                        v > q,
                        q == (u32::MAX - d) / (base as int),
                        base > 0,
                        d <= u32::MAX,
                ;
                if digits_ok(body, base as nat) {
                    lemma_digits_value_prefix_mono(body, base as nat, i + 1 - start);
                    assert(body.subrange(0, i + 1 - start) =~= next);
                    assert(digits_value(body, base as nat) > u32::MAX);
                }
                assert(spec_parse_u32_any(s) is None);
            }
            return None;
        }
        assert(v * base + d <= u32::MAX) by (nonlinear_arith)
            requires
                v <= q,
                q == (u32::MAX - d) / (base as int),
                base > 0,
                d <= u32::MAX,
        ;
        v = v * base + d;
        i += 1;
    }
    assert(s.subrange(start, i as int) =~= body);
    Some(v)
}

/// Saturating left-to-right fold of the digits of `s` in `base`, starting
/// from `acc`: underscores are skipped and the first non-digit ends it.
pub open spec fn sat_digits(s: Seq<u8>, base: nat, acc: int) -> int
    decreases s.len(),
{
    if s.len() == 0 {
        acc
    } else if s[0] == 95u8 {
        sat_digits(s.drop_first(), base, acc)
    } else {
        match digit_value(s[0], base) {
            Some(d) => {
                let n = acc * base + d;
                sat_digits(s.drop_first(), base, if n > i64::MAX { i64::MAX as int } else { n })
            },
            None => acc,
        }
    }
}

/// A signed integer literal: optional `-`, optional `0x`, digits with `_`
/// separators; the magnitude saturates at `i64::MAX` and parsing stops
/// quietly at the first byte that is not a digit.  `None` only for an
/// empty token.
pub open spec fn spec_parse_i64_token(t: Seq<u8>) -> Option<i64> {
    if t.len() == 0 {
        None
    } else {
        let neg = t[0] == 45u8;
        let i0: int = if neg { 1 } else { 0 };
        let hex = i0 + 2 <= t.len() && t[i0] == 48u8 && (t[i0 + 1] == 120u8 || t[i0 + 1] == 88u8);
        let start = if hex { i0 + 2 } else { i0 };
        let base: nat = if hex { 16 } else { 10 };
        let v = sat_digits(t.subrange(start, t.len() as int), base, 0);
        Some((if neg { -v } else { v }) as i64)
    }
}

proof fn lemma_sat_digits_bounds(s: Seq<u8>, base: nat, acc: int)
    requires
        0 <= acc <= i64::MAX,
    ensures
        0 <= sat_digits(s, base, acc) <= i64::MAX,
    decreases s.len(),
{
    if s.len() > 0 {
        if s[0] == 95u8 {
            lemma_sat_digits_bounds(s.drop_first(), base, acc);
        } else {
            match digit_value(s[0], base) {
                Some(d) => {
                    let n = acc * base + d;
                    assert(n >= 0) by (nonlinear_arith)
                        requires
                            acc >= 0,
                            n == acc * base + d,
                    ;
                    lemma_sat_digits_bounds(
                        s.drop_first(),
                        base,
                        if n > i64::MAX { i64::MAX as int } else { n },
                    );
                },
                None => {},
            }
        }
    }
}

/// Parses a signed integer token the way the checker reads numeric
/// literals (see `spec_parse_i64_token`).
pub fn parse_i64_token(token: &[u8]) -> (r: Option<i64>)
    ensures
        r == spec_parse_i64_token(token@),
{
    if token.len() == 0 {
        return None;
    }
    let ghost t = token@;
    let mut v: i64 = 0;
    let mut i: usize = 0;
    let mut neg = false;
    if i < token.len() && token[i] == 45 {
        neg = true;
        i += 1;
    }
    let mut base: i64 = 10;
    if i + 2 <= token.len() && token[i] == 48 && (token[i + 1] == 120 || token[i + 1] == 88) {
        base = 16;
        i += 2;
    }
    let ghost start = i as int;
    let ghost i0: int = if neg { 1 } else { 0 };
    let ghost hex = i0 + 2 <= t.len() && t[i0] == 48u8 && (t[i0 + 1] == 120u8 || t[i0 + 1] == 88u8);
    assert(start == (if hex { i0 + 2 } else { i0 }));
    assert(base == 16 <==> hex);
    assert(neg == (t[0] == 45u8));
    let ghost total = sat_digits(t.subrange(start, t.len() as int), base as nat, 0);
    assert(t.subrange(start, t.len() as int) =~= t.subrange(i as int, t.len() as int));
    while i < token.len()
        invariant
            t == token@,
            t.len() > 0,
            base == 10 || base == 16,
            neg == (t[0] == 45u8),
            i0 == (if neg { 1int } else { 0int }),
            hex == (i0 + 2 <= t.len() && t[i0] == 48u8 && (t[i0 + 1] == 120u8 || t[i0 + 1] == 88u8)),
            start == (if hex { i0 + 2 } else { i0 }),
            base == 16 <==> hex,
            start <= i <= t.len(),
            0 <= v <= i64::MAX,
            total == sat_digits(t.subrange(start, t.len() as int), base as nat, 0),
            total == sat_digits(t.subrange(i as int, t.len() as int), base as nat, v as int),
        decreases t.len() - i,
    {
        let ghost rest = t.subrange(i as int, t.len() as int);
        assert(rest.drop_first() =~= t.subrange(i + 1, t.len() as int));
        assert(rest[0] == token[i as int]);
        if token[i] == 95 {
            i += 1;
            continue;
        }
        let d: i64 = match digit_of(token[i], base as u32) {
            Some(d) => d as i64,
            None => {
                assert(sat_digits(rest, base as nat, v as int) == v);
                return Some(if neg { -v } else { v });
            },
        };
        let q = (i64::MAX - d) / base;
        if v > q {
            assert(v * base + d > i64::MAX) by (nonlinear_arith)
                requires
                    v > q,
                    q == (i64::MAX - d) / (base as int),
                    base > 0,
                    0 <= d <= 15,
            ;
            v = i64::MAX;
        } else {
            assert(v * base + d <= i64::MAX) by (nonlinear_arith)
                requires
                    v <= q,
                    q == (i64::MAX - d) / (base as int),
                    base > 0,
                    0 <= d <= 15,
                    v >= 0,
            ;
            v = v * base + d;
        }
        i += 1;
    }
    proof {
        let rest = t.subrange(i as int, t.len() as int);
        assert(rest.len() == 0);
    }
    Some(if neg { -v } else { v })
}

} // verus!
