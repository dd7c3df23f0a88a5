use semantics::ast::{AttrAst, DeclAst, DeclKind, EnumDeclAst, FieldAst, InstanceAst, ModuleAst, StructDeclAst, VariantAst};
use semantics::db::{
    build_iso_db, build_nominal_db, build_resource_db, compute_resource_sharing, enum_variant_value, is_iso_type,
    resource_is_isr_reachable, resource_sharing_class, resource_ty, struct_field_ty, ResourceDb,
};
use semantics::tokens::{Token, TokenKind};
use semantics::types::{Span, TypeAtom};

fn atom(s: &str) -> TypeAtom {
    TypeAtom::new(s.as_bytes()).unwrap()
}

fn add(src: &mut Vec<u8>, text: &str) -> Span {
    let s = src.len();
    src.extend_from_slice(text.as_bytes());
    let span = Span::new(s, src.len());
    src.push(b'\n');
    span
}

fn word_tokens(len: usize) -> Vec<Token> {
    vec![
        Token { kind: TokenKind::Ident, span: Span::new(0, len) },
        Token { kind: TokenKind::Eof, span: Span::new(len, len) },
    ]
}

fn decl(kind: DeclKind, name: Span, sig: Option<Span>, attrs: Vec<AttrAst>, body: Option<Span>) -> DeclAst {
    let body_tokens = match body {
        Some(b) => word_tokens(b.end - b.start),
        None => Vec::new(),
    };
    DeclAst { kind, name, sig, attrs, body, body_tokens }
}

fn isr_word(src: &mut Vec<u8>, decls: &mut Vec<DeclAst>, name: &str, body: &str) {
    let name_span = add(src, name);
    let bs = src.len();
    let body_span = add(src, body);
    let attrs = vec![AttrAst::Interrupt { vector: Span::new(bs, bs + 4) }];
    decls.push(decl(DeclKind::Word, name_span, None, attrs, Some(body_span)));
}

fn module(src: &[u8], decls: Vec<DeclAst>) -> ModuleAst {
    ModuleAst {
        name: Span::new(0, 4.min(src.len())),
        decls,
        structs: Vec::new(),
        enums: Vec::new(),
        instances: Vec::new(),
    }
}

#[test]
fn sixty_fifth_isr_body_is_capacity_error() {
    let mut src = Vec::new();
    let mut decls = Vec::new();
    for i in 0..65 {
        isr_word(&mut src, &mut decls, &format!("isr{}", i), "noop");
    }
    let module = module(&src, decls);
    let mut resources = ResourceDb { items: Vec::new() };
    let err = compute_resource_sharing(&module, &src, &mut resources).unwrap_err();
    assert_eq!(err.code(), 3523, "65th ISR body must be IsrCapacityExceeded");
}

#[test]
fn sixty_four_isr_bodies_are_accepted() {
    let mut src = Vec::new();
    let mut decls = Vec::new();
    for i in 0..64 {
        isr_word(&mut src, &mut decls, &format!("isr{}", i), "noop");
    }
    let module = module(&src, decls);
    let mut resources = ResourceDb { items: Vec::new() };
    assert!(compute_resource_sharing(&module, &src, &mut resources).is_ok(), "64 ISR bodies fit the budget");
}

#[test]
fn resources_named_in_isr_become_shared() {
    let mut src = Vec::new();
    let counter = add(&mut src, "counter");
    let counter_ty = add(&mut src, "u32");
    let other = add(&mut src, "other");
    let mut decls = vec![
        decl(DeclKind::Resource, counter, Some(counter_ty), Vec::new(), None),
        decl(DeclKind::Resource, other, None, Vec::new(), None),
    ];
    isr_word(&mut src, &mut decls, "tick", "counter 1 +");
    let module = module(&src, decls);
    let mut db = build_resource_db(&module, &src).unwrap();
    assert_eq!(db.items.len(), 2);
    assert!(resource_ty(&db, atom("counter")).unwrap().is(b"u32"));
    assert!(resource_ty(&db, atom("other")).unwrap().is(b"i64"));
    assert!(resource_ty(&db, atom("missing")).is_none());
    compute_resource_sharing(&module, &src, &mut db).unwrap();
    assert!(resource_is_isr_reachable(&db, atom("counter")));
    assert_eq!(resource_sharing_class(&db, atom("counter")), 1);
    assert!(!resource_is_isr_reachable(&db, atom("other")));
    assert_eq!(resource_sharing_class(&db, atom("other")), 0);
}

#[test]
fn resource_with_long_name_is_an_error() {
    let mut src = Vec::new();
    let name = add(&mut src, "a_resource_name_that_is_far_too_long_for_an_atom");
    let module = module(&src, vec![decl(DeclKind::Resource, name, None, Vec::new(), None)]);
    let err = build_resource_db(&module, &src).err().unwrap();
    assert_eq!(err.code(), 3520);
}

#[test]
fn iso_and_owned_types_are_collected() {
    let mut src = Vec::new();
    let a = add(&mut src, "Packet");
    let b = add(&mut src, "Handle");
    let c = add(&mut src, "plain");
    let module = module(
        &src,
        vec![
            decl(DeclKind::Iso, a, None, Vec::new(), None),
            decl(DeclKind::Owned, b, None, Vec::new(), None),
            decl(DeclKind::Word, c, None, Vec::new(), None),
        ],
    );
    let iso = build_iso_db(&module, &src).unwrap();
    assert!(is_iso_type(&iso, atom("Packet")));
    assert!(is_iso_type(&iso, atom("Handle")));
    assert!(!is_iso_type(&iso, atom("plain")));
}

#[test]
fn nominal_db_reads_structs_and_enums() {
    let mut src = Vec::new();
    let s_name = add(&mut src, "Point");
    let fx = add(&mut src, "x");
    let fx_ty = add(&mut src, "i32");
    let fy = add(&mut src, "y");
    let fy_ty = add(&mut src, "u8");
    let e_name = add(&mut src, "Color");
    let e_base = add(&mut src, "u8");
    let red = add(&mut src, "Red");
    let green = add(&mut src, "Green");
    let mut m = module(&src, Vec::new());
    m.structs.push(StructDeclAst {
        name: s_name,
        fields: vec![FieldAst { name: fx, ty: fx_ty }, FieldAst { name: fy, ty: fy_ty }],
    });
    m.enums.push(EnumDeclAst {
        name: e_name,
        base: Some(e_base),
        variants: vec![VariantAst { name: red }, VariantAst { name: green }],
    });
    let db = build_nominal_db(&m, &src).unwrap();
    assert!(struct_field_ty(&db, atom("Point"), atom("x")).unwrap().is(b"i32"));
    assert!(struct_field_ty(&db, atom("Point"), atom("y")).unwrap().is(b"u8"));
    assert!(struct_field_ty(&db, atom("Point"), atom("z")).is_none());
    assert!(struct_field_ty(&db, atom("Line"), atom("x")).is_none());
    assert_eq!(enum_variant_value(&db, atom("Color"), atom("Red")), Some(0));
    assert_eq!(enum_variant_value(&db, atom("Color"), atom("Blue")), None);
    let _ = InstanceAst { name: s_name, map: s_name, base_addr: s_name };
}
