use semantics::numbers::{parse_i64_token, parse_u32_any};
use semantics::parse::{parse_type_atom_from_span, parse_type_expr, parse_word_sig, push_bytes, push_u32_dec};
use semantics::types::Span;

fn ins(sig: &semantics::types::WordSig) -> Vec<Vec<u8>> {
    sig.inputs.iter().map(|a| a.to_vec()).collect()
}

fn outs(sig: &semantics::types::WordSig) -> Vec<Vec<u8>> {
    sig.outputs.iter().map(|a| a.to_vec()).collect()
}

#[test]
fn word_sig_reads_inputs_and_outputs() {
    let src = b"word add ( i64 i64 -- i64 ) body";
    let sig = parse_word_sig(src, Span::new(9, 27)).unwrap();
    assert_eq!(ins(&sig), vec![b"i64".to_vec(), b"i64".to_vec()]);
    assert_eq!(outs(&sig), vec![b"i64".to_vec()]);
}

#[test]
fn word_sig_with_compound_types() {
    let src = b"( Array(u8, 0x10) Slice( i32 ) -- Chan(bool) )";
    let sig = parse_word_sig(src, Span::new(0, src.len())).unwrap();
    assert_eq!(ins(&sig), vec![b"Array(u8,16)".to_vec(), b"Slice(i32)".to_vec()]);
    assert_eq!(outs(&sig), vec![b"Chan(bool)".to_vec()]);
}

#[test]
fn word_sig_empty_is_empty() {
    let src = b"( -- )";
    let sig = parse_word_sig(src, Span::new(0, src.len())).unwrap();
    assert!(sig.inputs.is_empty());
    assert!(sig.outputs.is_empty());
}

#[test]
fn word_sig_bad_type_is_3100() {
    let src = b"( Array(u8 x) -- )";
    let err = parse_word_sig(src, Span::new(0, src.len())).unwrap_err();
    assert_eq!(err.code, 3100);
    assert_eq!(err.span, Span::new(2, 3));
}

#[test]
fn word_sig_too_many_inputs_is_3102() {
    let src = b"( a b c d e f g h i -- )";
    let err = parse_word_sig(src, Span::new(0, src.len())).unwrap_err();
    assert_eq!(err.code, 3102);
    assert_eq!(err.span, Span::new(0, src.len()));
}

#[test]
fn word_sig_too_many_outputs_is_3103() {
    let src = b"( -- a b c d e f g h i )";
    let err = parse_word_sig(src, Span::new(0, src.len())).unwrap_err();
    assert_eq!(err.code, 3103);
}

#[test]
fn type_expr_stops_after_the_type() {
    let (a, next) = parse_type_expr(b"  u32 rest", 0).unwrap();
    assert!(a.is(b"u32"));
    assert_eq!(next, 6);
    let (a, next) = parse_type_expr(b"SliceMut(u8) x", 0).unwrap();
    assert!(a.is(b"SliceMut(u8)"));
    assert_eq!(next, 12);
    assert!(parse_type_expr(b"Foo(u8)", 0).is_none());
    assert!(parse_type_expr(b"   ", 0).is_none());
    assert!(parse_type_expr(b"abcdefghijklmnopqrstuvwxyz0123456789", 0).is_none());
}

#[test]
fn push_bytes_and_decimal() {
    let mut buf = [0u8; 32];
    let k = push_bytes(&mut buf, 0, b"Array(").unwrap();
    assert_eq!(k, 6);
    let k = push_u32_dec(&mut buf, k, 4096).unwrap();
    assert_eq!(&buf[..k], b"Array(4096");
    assert!(push_bytes(&mut buf, 30, b"abc").is_none());
    assert_eq!(&buf[..k], b"Array(4096");
    assert!(push_u32_dec(&mut buf, 31, 100).is_none());
}

#[test]
fn type_atom_from_span() {
    let src = b"x Array(i64 , 3) y";
    let a = parse_type_atom_from_span(src, Span::new(2, 16)).unwrap();
    assert!(a.is(b"Array(i64,3)"));
}

#[test]
fn u32_numbers_in_decimal_and_hex() {
    assert_eq!(parse_u32_any(b"42"), Some(42));
    assert_eq!(parse_u32_any(b"0x1F"), Some(31));
    assert_eq!(parse_u32_any(b"0X10"), Some(16));
    assert_eq!(parse_u32_any(b"4294967295"), Some(u32::MAX));
    assert_eq!(parse_u32_any(b"4294967296"), None);
    assert_eq!(parse_u32_any(b""), None);
    assert_eq!(parse_u32_any(b"12a"), None);
    assert_eq!(parse_u32_any(b"0x"), Some(0));
    assert_eq!(parse_u32_any(b"1_0"), Some(10));
}

#[test]
fn i64_tokens_saturate_and_skip_underscores() {
    assert_eq!(parse_i64_token(b"1_000"), Some(1000));
    assert_eq!(parse_i64_token(b"-0x10"), Some(-16));
    assert_eq!(parse_i64_token(b"99999999999999999999"), Some(i64::MAX));
    assert_eq!(parse_i64_token(b"12z9"), Some(12));
    assert_eq!(parse_i64_token(b""), None);
    assert_eq!(parse_i64_token(b"-"), Some(0));
}

#[test]
fn canonical_type_spellings_read_back_as_themselves() {
    for text in [&b"  Array( Slice( u8 ) , 0x10 ) rest"[..], b"Chan(bool)", b"u32  ", b"SliceMut(Array(i8,3))"] {
        let (a, _) = parse_type_expr(text, 0).unwrap();
        let canon = a.to_vec();
        let (b, end) = parse_type_expr(&canon, 0).unwrap();
        assert_eq!(b.to_vec(), canon);
        assert_eq!(end, canon.len());
    }
    let (a, _) = parse_type_expr(b"Array( Slice( u8 ) , 0x10 )", 0).unwrap();
    assert!(a.is(b"Array(Slice(u8),16)"));
}
