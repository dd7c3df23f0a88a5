use semantics::ast::{DeclAst, DeclKind, InstanceAst, ModuleAst};
use semantics::mmio::{
    access_can_read, access_can_write, field_mask_shift, mmio_type_width_bytes, parse_access_mode, parse_name_array,
    split_segments, AccessMode, MmioFieldInfo,
};
use semantics::mmiodb::{
    build_mmio_db, check_atomic_width, check_store_semantics, find_instance, find_map_decl, resolve_mmio_place,
    MmioAccessMeta, MmioResolved, ReadKind, WriteKind,
};
use semantics::regmap::{scan_regmap_for_reg, validate_regmap_body};
use semantics::tokens::{Token, TokenKind};
use semantics::types::{Span, TypeAtom};

fn atom(s: &str) -> TypeAtom {
    TypeAtom::new(s.as_bytes()).unwrap()
}

/// Splits `text` at whitespace into tokens whose spans are relative to `text`.
fn lex(text: &[u8]) -> Vec<Token> {
    let mut toks = Vec::new();
    let mut i = 0;
    while i < text.len() {
        if text[i].is_ascii_whitespace() {
            i += 1;
            continue;
        }
        let s = i;
        while i < text.len() && !text[i].is_ascii_whitespace() {
            i += 1;
        }
        let w = &text[s..i];
        let kind = match w {
            b"{" => TokenKind::PunctLBrace,
            b"}" => TokenKind::PunctRBrace,
            b".." => TokenKind::PunctDblDot,
            b"." => TokenKind::PunctDot,
            _ if w[0].is_ascii_digit() => TokenKind::Number,
            _ => TokenKind::Ident,
        };
        toks.push(Token { kind, span: Span::new(s, i) });
    }
    toks.push(Token { kind: TokenKind::Eof, span: Span::new(text.len(), text.len()) });
    toks
}

const GPIO_BODY: &str =
    "0x00 CTRL u32 rw volatile { EN 0 u8 rw MODE 1 .. 3 u8 rw } 0x04 STATUS u32 ro 0x08 OUT_SET u32 wo 0x10 BUF[4] u16 rw";

fn gpio_module() -> (Vec<u8>, ModuleAst) {
    let mut src = Vec::new();
    src.extend_from_slice(b"GPIO ");
    let name = Span::new(0, 4);
    let body_start = src.len();
    src.extend_from_slice(GPIO_BODY.as_bytes());
    let body = Span::new(body_start, src.len());
    src.extend_from_slice(b" gpio 0x40000000");
    let inst_name = Span::new(src.len() - 15, src.len() - 11);
    let base = Span::new(src.len() - 10, src.len());
    let decl = DeclAst {
        kind: DeclKind::RegisterMap,
        name,
        sig: None,
        attrs: Vec::new(),
        body: Some(body),
        body_tokens: lex(GPIO_BODY.as_bytes()),
    };
    let module = ModuleAst {
        name,
        decls: vec![decl],
        structs: Vec::new(),
        enums: Vec::new(),
        instances: vec![InstanceAst { name: inst_name, map: name, base_addr: base }],
    };
    (src, module)
}

#[test]
fn access_modes_and_widths() {
    assert_eq!(parse_access_mode(b"w1c"), Some(AccessMode::W1c));
    assert_eq!(parse_access_mode(b"rx"), None);
    assert!(!access_can_read(AccessMode::Wo));
    assert!(access_can_read(AccessMode::Rc));
    assert!(!access_can_write(AccessMode::Ro));
    assert!(access_can_write(AccessMode::W1s));
    assert_eq!(mmio_type_width_bytes(b"bool"), Some(1));
    assert_eq!(mmio_type_width_bytes(b"i16"), Some(2));
    assert_eq!(mmio_type_width_bytes(b"u32"), Some(4));
    assert_eq!(mmio_type_width_bytes(b"i64"), Some(8));
    assert_eq!(mmio_type_width_bytes(b"f32"), None);
}

#[test]
fn name_arrays_and_segments() {
    assert_eq!(parse_name_array(b"BUF[4]"), (&b"BUF"[..], Some(4)));
    assert_eq!(parse_name_array(b"BUF[x]"), (&b"BUF"[..], None));
    assert_eq!(parse_name_array(b"BUF[4"), (&b"BUF[4"[..], None));
    assert_eq!(parse_name_array(b"CTRL"), (&b"CTRL"[..], None));
    let mut out: [&[u8]; 8] = [&[]; 8];
    let n = split_segments(b"gpio.CTRL.EN", &mut out);
    assert_eq!(n, 3);
    assert_eq!(out[0], b"gpio");
    assert_eq!(out[1], b"CTRL");
    assert_eq!(out[2], b"EN");
    let n = split_segments(b"a.b.c.d.e.f.g.h.i.j", &mut out);
    assert_eq!(n, 8);
    assert_eq!(out[7], b"h");
    let n = split_segments(b"x..y", &mut out);
    assert_eq!(n, 3);
    assert_eq!(out[1], b"");
}

#[test]
fn field_masks() {
    let f = MmioFieldInfo { name: atom("MODE"), lo: 1, hi: 3, ty: atom("u8"), access: AccessMode::Rw };
    assert_eq!(field_mask_shift(&f), (0b1110, 1));
    let f = MmioFieldInfo { name: atom("ALL"), lo: 0, hi: 63, ty: atom("u64"), access: AccessMode::Rw };
    assert_eq!(field_mask_shift(&f), (u64::MAX, 0));
    let f = MmioFieldInfo { name: atom("REV"), lo: 5, hi: 2, ty: atom("u8"), access: AccessMode::Rw };
    assert_eq!(field_mask_shift(&f), (1 << 5, 5));
}

#[test]
fn register_map_bodies_validate() {
    let toks = lex(GPIO_BODY.as_bytes());
    assert!(validate_regmap_body(GPIO_BODY.as_bytes(), Span::new(0, GPIO_BODY.len()), &toks).is_ok());

    let bad = b"0x02 CTRL u32 rw";
    let err = validate_regmap_body(bad, Span::new(0, bad.len()), &lex(bad)).unwrap_err();
    assert_eq!(err.code(), 3611);
    assert_eq!(err.span(), Span::new(0, 4));

    let bad = b"0x00 CTRL f32 rw";
    assert_eq!(validate_regmap_body(bad, Span::new(0, bad.len()), &lex(bad)).unwrap_err().code(), 3612);

    let bad = b"0x00 CTRL u8 rw { EN 9 u8 rw }";
    assert_eq!(validate_regmap_body(bad, Span::new(0, bad.len()), &lex(bad)).unwrap_err().code(), 3617);

    let bad = b"0x00 CTRL u8 xx";
    assert_eq!(validate_regmap_body(bad, Span::new(0, bad.len()), &lex(bad)).unwrap_err().code(), 3621);

    let bad = b"0x00 CTRL u8 rw { EN 0 u8 rw";
    assert_eq!(validate_regmap_body(bad, Span::new(0, bad.len()), &lex(bad)).unwrap_err().code(), 3622);
}

#[test]
fn register_scan_finds_registers_and_fields() {
    let body = GPIO_BODY.as_bytes();
    let toks = lex(body);
    let whole = Span::new(0, body.len());
    let place = Span::new(100, 110);
    let (reg, field) = scan_regmap_for_reg(body, whole, &toks, atom("CTRL"), Some(atom("MODE")), place).unwrap().unwrap();
    assert_eq!(reg.offset, 0);
    assert!(reg.reg_ty.is(b"u32"));
    assert!(reg.volatile);
    let field = field.unwrap();
    assert_eq!((field.lo, field.hi), (1, 3));
    let (reg, _) = scan_regmap_for_reg(body, whole, &toks, atom("BUF"), None, place).unwrap().unwrap();
    assert_eq!(reg.array_len, Some(4));
    assert_eq!(reg.offset, 0x10);
    assert!(scan_regmap_for_reg(body, whole, &toks, atom("NOPE"), None, place).unwrap().is_none());
    let err = scan_regmap_for_reg(body, whole, &toks, atom("CTRL"), Some(atom("NOPE")), place).unwrap_err();
    assert_eq!(err.code(), 3607);
    assert_eq!(err.span(), place);
}

#[test]
fn mmio_db_and_place_resolution() {
    let (src, module) = gpio_module();
    let db = build_mmio_db(&module, &src).unwrap();
    assert_eq!(db.maps.len(), 1);
    assert_eq!(db.instances.len(), 1);
    let inst = find_instance(&db, atom("gpio")).unwrap();
    assert_eq!(inst.base_addr, 0x4000_0000);
    assert_eq!(find_map_decl(&db, atom("GPIO")), Some(0));
    assert_eq!(find_map_decl(&db, atom("UART")), None);

    let span = Span::new(1, 2);
    match resolve_mmio_place(&db, &src, b"gpio.STATUS", span).unwrap().unwrap() {
        MmioResolved::Reg(r) => {
            assert_eq!(r.addr, 0x4000_0004);
            assert_eq!(r.access, AccessMode::Ro);
            assert!(r.map.is(b"GPIO"));
            assert_eq!(r.place_span, span);
        }
        MmioResolved::Field(_) => panic!("expected a register"),
    }
    match resolve_mmio_place(&db, &src, b"gpio.BUF[3]", span).unwrap().unwrap() {
        MmioResolved::Reg(r) => assert_eq!(r.addr, 0x4000_0010 + 3 * 2),
        MmioResolved::Field(_) => panic!("expected a register"),
    }
    match resolve_mmio_place(&db, &src, b"gpio.CTRL.MODE", span).unwrap().unwrap() {
        MmioResolved::Field(f) => {
            assert_eq!(f.addr, 0x4000_0000);
            assert_eq!((f.field.lo, f.field.hi), (1, 3));
            assert!(f.volatile);
        }
        MmioResolved::Reg(_) => panic!("expected a field"),
    }
    assert!(resolve_mmio_place(&db, &src, b"gpio", span).unwrap().is_none());
    assert!(resolve_mmio_place(&db, &src, b"uart.CTRL", span).unwrap().is_none());
    let code = |name: &[u8]| resolve_mmio_place(&db, &src, name, span).unwrap_err().code();
    assert_eq!(code(b"gpio.NOPE"), 3603);
    assert_eq!(code(b"gpio.BUF[4]"), 3604);
    assert_eq!(code(b"gpio.BUF"), 3605);
    assert_eq!(code(b"gpio.CTRL[1]"), 3606);
    assert_eq!(code(b"gpio.CTRL.NOPE"), 3607);
    assert_eq!(code(b"gpio.CTRL.EN.X"), 3600);
}

#[test]
fn instance_of_unknown_map_is_an_error() {
    let (src, mut module) = gpio_module();
    module.decls.clear();
    let db = build_mmio_db(&module, &src).unwrap();
    assert!(db.maps.is_empty());
    let err = resolve_mmio_place(&db, &src, b"gpio.CTRL", Span::new(0, 1)).unwrap_err();
    assert_eq!(err.code(), 3602);
}

#[test]
fn invalid_map_body_fails_the_database() {
    let (mut src, mut module) = gpio_module();
    let bad = b" 0x03 X u32 rw";
    let s = src.len();
    src.extend_from_slice(bad);
    module.decls[0].body = Some(Span::new(s, src.len()));
    module.decls[0].body_tokens = lex(bad);
    let err = build_mmio_db(&module, &src).err().unwrap();
    assert_eq!(err.code(), 3611);
}

#[test]
fn access_width_rules() {
    let meta = MmioAccessMeta { read_kind: ReadKind::Pure, write_kind: WriteKind::Plain, atomic_max: 16 };
    let span = Span::new(3, 4);
    assert!(check_atomic_width(atom("u16"), meta, span).is_ok());
    assert_eq!(check_atomic_width(atom("u32"), meta, span).unwrap_err().code(), 3643);
    assert!(check_atomic_width(atom("weird"), meta, span).is_ok());
    let rmw = MmioAccessMeta { read_kind: ReadKind::Effectful, write_kind: WriteKind::SetOnOne, atomic_max: 64 };
    assert_eq!(check_store_semantics(atom("u8"), rmw, span).unwrap_err().code(), 3642);
    let plain = MmioAccessMeta { read_kind: ReadKind::Effectful, write_kind: WriteKind::Plain, atomic_max: 8 };
    assert!(check_store_semantics(atom("u8"), plain, span).is_ok());
    assert_eq!(check_store_semantics(atom("u64"), plain, span).unwrap_err().code(), 3643);
}
