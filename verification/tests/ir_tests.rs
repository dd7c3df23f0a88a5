use semantics::arena::{ArenaAllocator, WORD_ARENA_CAP};
use semantics::db::{
    EnumInfo, EnumVariantInfo, NominalDb, ResourceDb, ResourceInfo, StructFieldInfo, StructInfo, SubtypeInfo,
};
use semantics::irtypes::{
    check_raw_cast_allowed, effect_has_suspend, enum_base_ty, parse_quote_sig, prim_bits_signed, quote_word_name,
    resolve_place_pointee_ty, ty_bits_signed,
};
use semantics::tokens::{Token, TokenKind};
use semantics::scopes::{stack_has_scope, Scopes};
use semantics::types::{Span, TypeAtom};
use semantics::value::Value;

fn atom(s: &str) -> TypeAtom {
    TypeAtom::new(s.as_bytes()).unwrap()
}

fn nominals() -> NominalDb {
    NominalDb {
        structs: Vec::new(),
        enums: vec![
            EnumInfo {
                name: atom("Color"),
                base: atom("u8"),
                variants: vec![EnumVariantInfo { name: atom("Red"), value: 0 }],
            },
            EnumInfo { name: atom("Color"), base: atom("i32"), variants: Vec::new() },
            EnumInfo { name: atom("Odd"), base: atom("Point"), variants: Vec::new() },
        ],
    }
}

#[test]
fn primitive_widths() {
    assert_eq!(prim_bits_signed(atom("u8")), Some((8, false)));
    assert_eq!(prim_bits_signed(atom("u16")), Some((16, false)));
    assert_eq!(prim_bits_signed(atom("u32")), Some((32, false)));
    assert_eq!(prim_bits_signed(atom("usize")), Some((64, false)));
    assert_eq!(prim_bits_signed(atom("i8")), Some((8, true)));
    assert_eq!(prim_bits_signed(atom("i64")), Some((64, true)));
    assert_eq!(prim_bits_signed(atom("isize")), Some((64, true)));
    assert_eq!(prim_bits_signed(atom("bool")), Some((8, false)));
    assert_eq!(prim_bits_signed(atom("ptr_mut")), Some((64, false)));
    assert_eq!(prim_bits_signed(atom("str")), Some((64, false)));
    assert_eq!(prim_bits_signed(atom("mmio")), Some((64, false)));
    assert_eq!(prim_bits_signed(atom("Chan(i64)")), Some((64, false)));
    assert_eq!(prim_bits_signed(atom("Chan")), None);
    assert_eq!(prim_bits_signed(atom("u128")), None);
    assert_eq!(prim_bits_signed(atom("Point")), None);
}

#[test]
fn enum_and_subtype_widths_come_from_their_base() {
    let db = nominals();
    assert!(enum_base_ty(&db, atom("Color")).unwrap().is(b"u8"));
    assert!(enum_base_ty(&db, atom("Shade")).is_none());
    let subs = vec![SubtypeInfo { name: atom("Percent"), base: atom("i16"), min: 0, max: 100 }];
    assert_eq!(ty_bits_signed(&db, &subs, atom("Color")), Some((8, false)));
    assert_eq!(ty_bits_signed(&db, &subs, atom("Percent")), Some((16, true)));
    assert_eq!(ty_bits_signed(&db, &subs, atom("u64")), Some((64, false)));
    assert_eq!(ty_bits_signed(&db, &subs, atom("Odd")), None);
    assert_eq!(ty_bits_signed(&db, &subs, atom("Point")), None);
}

#[test]
fn raw_casts_need_permission() {
    assert!(!check_raw_cast_allowed(false, atom("ptr"), atom("u64")));
    assert!(check_raw_cast_allowed(true, atom("ptr"), atom("u64")));
    assert!(!check_raw_cast_allowed(false, atom("i32"), atom("ptr_mut")));
    assert!(!check_raw_cast_allowed(false, atom("ptr"), atom("ptr_mut")));
    assert!(check_raw_cast_allowed(false, atom("ptr"), atom("ptr")));
    assert!(check_raw_cast_allowed(false, atom("u8"), atom("i64")));
    assert!(check_raw_cast_allowed(false, atom("ptr"), atom("bool")));
}

#[test]
fn effect_annotations_naming_suspend() {
    assert!(effect_has_suspend(b"{suspend}"));
    assert!(effect_has_suspend(b"{io,suspend}"));
    assert!(effect_has_suspend(b"suspend"));
    assert!(!effect_has_suspend(b"{io}"));
    assert!(!effect_has_suspend(b"{suspen}"));
    assert!(!effect_has_suspend(b"sus"));
}

#[test]
fn lifted_quotations_are_numbered() {
    let mut counter: u32 = 0;
    let a = quote_word_name(&mut counter);
    assert!(a.is(b"__quot_00000000"));
    assert_eq!(counter, 1);
    let mut counter: u32 = 0x1234_abcd;
    let b = quote_word_name(&mut counter);
    assert!(b.is(b"__quot_dcba4321"));
    assert_eq!(counter, 0x1234_abce);
    let mut counter: u32 = u32::MAX;
    let c = quote_word_name(&mut counter);
    assert!(c.is(b"__quot_ffffffff"));
    assert_eq!(counter, 0);
}

#[test]
fn scopes_open_and_close_in_order() {
    let mut s = Scopes::new();
    let a = s.enter_scope().unwrap();
    let b = s.enter_scope().unwrap();
    assert_eq!((a, b), (1, 2));
    assert_eq!(s.open, vec![1, 2]);
    s.leave_scope(a);
    assert_eq!(s.open, vec![1, 2]);
    s.leave_scope(b);
    assert_eq!(s.open, vec![1]);
    s.leave_scope(a);
    assert!(s.open.is_empty());
    s.leave_scope(a);
    assert!(s.open.is_empty());
    for _ in 0..16 {
        assert!(s.enter_scope().is_some());
    }
    assert!(s.enter_scope().is_none());
    assert_eq!(s.open.len(), 16);
    assert_eq!(s.next_scope, 19);
}

#[test]
fn closing_a_scope_that_something_carries_is_an_escape() {
    let mut s = Scopes::new();
    let id = s.enter_scope().unwrap();
    s.local_live = vec![true, true];
    s.local_scoped = vec![0, id];
    let span = Span::new(3, 9);
    let stack = vec![Value::Plain(atom("i64"))];
    let err = s.close_scope(&stack, id, span).unwrap_err();
    assert_eq!(err.code(), 5020);
    assert_eq!(err.span(), span);
    assert!(s.any_scoped_live(&stack));
    s.invalidate_scope_locals(id);
    assert_eq!(s.local_live, vec![true, false]);
    assert_eq!(s.local_scoped, vec![0, 0]);
    assert!(s.close_scope(&stack, id, span).is_ok());
    assert!(!s.any_scoped_live(&stack));
    let held = vec![Value::Scoped { ty: atom("Array(u8,4)"), scope: id }];
    assert!(stack_has_scope(&held, id));
    assert!(!stack_has_scope(&held, id + 1));
    assert_eq!(s.close_scope(&held, id, span).unwrap_err().code(), 5020);
    assert!(s.any_scoped_live(&held));
    s.leave_scope(id);
    assert!(s.open.is_empty());
}

#[test]
fn places_point_at_field_and_element_types() {
    let resources = ResourceDb {
        items: vec![ResourceInfo { name: atom("uart"), ty: atom("Uart"), sharing_class: 0, isr_reachable: false }],
    };
    let db = NominalDb {
        structs: vec![
            StructInfo {
                name: atom("Uart"),
                fields: vec![
                    StructFieldInfo { name: atom("buf"), ty: atom("Array(Cell,4)") },
                    StructFieldInfo { name: atom("len"), ty: atom("u16") },
                ],
            },
            StructInfo { name: atom("Cell"), fields: vec![StructFieldInfo { name: atom("v"), ty: atom("u8") }] },
        ],
        enums: Vec::new(),
    };
    let mut locals = [atom(""); 64];
    let mut local_tys = [atom(""); 64];
    locals[0] = atom("p");
    local_tys[0] = atom("Array(Uart,2)");
    let span = Span::new(10, 20);
    let r = |place: &str| resolve_place_pointee_ty(place.as_bytes(), span, &resources, &locals, &local_tys, 1, &db);
    assert!(r("uart").unwrap().unwrap().is(b"Uart"));
    assert!(r("uart.len").unwrap().unwrap().is(b"u16"));
    assert!(r("uart.buf").unwrap().unwrap().is(b"Array(Cell,4)"));
    assert!(r("uart.buf'2.v").unwrap().unwrap().is(b"u8"));
    assert!(r("p'0.len").unwrap().unwrap().is(b"u16"));
    assert!(r("q.len").unwrap().is_none());
    let e = r("uart.nope").unwrap_err();
    assert_eq!((e.code(), e.span()), (3716, span));
    assert_eq!(r("uart'1").unwrap_err().code(), 3716);
    assert_eq!(r("uart..len").unwrap_err().code(), 3715);
    assert_eq!(r("").unwrap_err().code(), 3715);
    assert_eq!(r("a.b.c.d.e.f.g.h.i").unwrap_err().code(), 3715);
    assert!(r("a.b.c.d.e.f.g.h").unwrap().is_none());
    assert_eq!(r("abcdefghijklmnopqrstuvwxyz0123456").unwrap_err().code(), 3715);
}

/// Splits `text` at whitespace; `(`, `)`, `[`, `]` and `{...}` effect
/// annotations get their own kinds.
fn lex(text: &[u8]) -> Vec<Token> {
    let mut toks = Vec::new();
    let mut i = 0;
    while i < text.len() {
        if text[i].is_ascii_whitespace() {
            i += 1;
            continue;
        }
        let s = i;
        while i < text.len() && !text[i].is_ascii_whitespace() {
            i += 1;
        }
        let kind = match &text[s..i] {
            b"(" => TokenKind::PunctLParen,
            b")" => TokenKind::PunctRParen,
            b"[" => TokenKind::PunctLBracket,
            b"]" => TokenKind::PunctRBracket,
            w if w[0] == b'{' => TokenKind::EffectSet,
            _ => TokenKind::Ident,
        };
        toks.push(Token { kind, span: Span::new(s, i) });
    }
    toks.push(Token { kind: TokenKind::Eof, span: Span::new(text.len(), text.len()) });
    toks
}

#[test]
fn quotation_signatures_are_read() {
    let src = b"[ ( i64 -- bool ) {suspend} dup ]";
    let toks = lex(src);
    let body = Span::new(0, src.len());
    let q = parse_quote_sig(src, body, &toks, Span::new(0, src.len()), 1, 8).unwrap();
    assert!(q.sig.inputs[0].is(b"i64"));
    assert!(q.sig.outputs[0].is(b"bool"));
    assert!(q.may_suspend);
    assert_eq!(q.body, Span::new(28, 32));

    let src = b"[ ( -- ) ]";
    let toks = lex(src);
    let q = parse_quote_sig(src, Span::new(0, src.len()), &toks, Span::new(0, src.len()), 1, 4).unwrap();
    assert!(q.sig.inputs.is_empty() && q.sig.outputs.is_empty());
    assert!(!q.may_suspend);
    assert_eq!(q.body, Span::new(9, 9));

    let src = b"[ ( -- ) {io} 1 ]";
    let toks = lex(src);
    let q = parse_quote_sig(src, Span::new(0, src.len()), &toks, Span::new(0, src.len()), 1, 6).unwrap();
    assert!(!q.may_suspend);
    assert_eq!(q.body, Span::new(14, 16));
}

#[test]
fn malformed_quotation_signatures() {
    let src = b"[ dup ]";
    let toks = lex(src);
    let span = Span::new(0, src.len());
    let e = parse_quote_sig(src, span, &toks, span, 1, 2).unwrap_err();
    assert_eq!((e.code(), e.span()), (3760, span));
    let src = b"[]";
    let toks = lex(src);
    let e = parse_quote_sig(src, Span::new(0, 2), &toks, Span::new(0, 2), 0, 1).unwrap_err();
    assert_eq!(e.code(), 3760);
    let src = b"[ ( i64 ]";
    let toks = lex(src);
    let span = Span::new(0, src.len());
    let e = parse_quote_sig(src, span, &toks, span, 1, 3).unwrap_err();
    assert_eq!((e.code(), e.span()), (3290, span));
    let src = b"[ ( Bad( -- ) ]";
    let toks = lex(src);
    let span = Span::new(0, src.len());
    let e = parse_quote_sig(src, span, &toks, span, 1, 5).unwrap_err();
    assert_eq!(e.code(), 3100);
}

#[test]
fn the_word_arena_is_bounded() {
    let mut a: ArenaAllocator<u32> = ArenaAllocator::new();
    let span = Span::new(1, 2);
    for i in 0..WORD_ARENA_CAP {
        assert_eq!(*a.alloc_word(i as u32 * 10, span).unwrap(), i as u32 * 10);
    }
    assert_eq!(a.len(), 17);
    let e = a.alloc_word(99, span).unwrap_err();
    assert_eq!((e.code(), e.span()), (3906, span));
    assert_eq!(a.len(), 17);
    a.reset();
    assert_eq!(a.len(), 0);
    assert_eq!(*a.alloc_word(7, span).unwrap(), 7);
    let d: ArenaAllocator<u32> = ArenaAllocator::default();
    assert_eq!(d.len(), 0);
}
