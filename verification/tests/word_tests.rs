use semantics::ast::{DeclAst, DeclKind, InstanceAst, ModuleAst};
use semantics::builtins::{builtin_words, entry};
use semantics::db::SubtypeInfo;
use semantics::effects::{EffectSet, StackBound};
use semantics::error::{ChecksMode, TcError};
use semantics::mmiodb::{build_mmio_db, MmioDb};
use semantics::tokens::{Token, TokenKind};
use semantics::types::{Span, TypeAtom, WordEntry, WordSig};
use semantics::stackcheck::{BodyMode, Checker};
use semantics::value::Value;
use semantics::wordcheck::{
    emit_stackcheck, stackcheck_stops_at_long_root, typecheck_word_body, word_body_stops_at_long_root,
};

fn atom(s: &str) -> TypeAtom {
    TypeAtom::new(s.as_bytes()).unwrap()
}

fn sig(ins: &[&str], outs: &[&str]) -> WordSig {
    let mut s = WordSig::empty();
    for i in ins {
        s.inputs.push(atom(i));
    }
    for o in outs {
        s.outputs.push(atom(o));
    }
    s
}

fn is_ident_byte(b: u8) -> bool {
    b.is_ascii_alphanumeric() || b == b'_' || b == b'@' || b == b'!' || b == b'?'
}

fn is_symbol_byte(b: u8) -> bool {
    matches!(b, b'+' | b'-' | b'*' | b'/' | b'%' | b'<' | b'>' | b'=')
}

/// Tokenises a word body the way the front end does, with spans relative
/// to `text`, ending with an end-of-input token.
fn lex(text: &[u8]) -> Vec<Token> {
    let puncts: [(&[u8], TokenKind); 18] = [
        (b"&![", TokenKind::PunctAmpBangLBracket),
        (b"&[", TokenKind::PunctAmpLBracket),
        (b"&!", TokenKind::PunctAmpBang),
        (b"&", TokenKind::PunctAmp),
        (b"->", TokenKind::PunctArrowBind),
        (b">=", TokenKind::PunctGe),
        (b"<=", TokenKind::PunctLe),
        (b"==", TokenKind::PunctEqEq),
        (b"!=", TokenKind::PunctNe),
        (b"..", TokenKind::PunctDblDot),
        (b".", TokenKind::PunctDot),
        (b"[", TokenKind::PunctLBracket),
        (b"]", TokenKind::PunctRBracket),
        (b"(", TokenKind::PunctLParen),
        (b")", TokenKind::PunctRParen),
        (b"{", TokenKind::PunctLBrace),
        (b"}", TokenKind::PunctRBrace),
        (b",", TokenKind::Other),
    ];
    let mut toks = Vec::new();
    let mut i = 0;
    'outer: while i < text.len() {
        let c = text[i];
        if c.is_ascii_whitespace() {
            i += 1;
            continue;
        }
        for (p, k) in puncts.iter() {
            if text[i..].starts_with(p) {
                toks.push(Token { kind: *k, span: Span::new(i, i + p.len()) });
                i += p.len();
                continue 'outer;
            }
        }
        let s = i;
        if c.is_ascii_digit() {
            while i < text.len() && text[i].is_ascii_alphanumeric() {
                i += 1;
            }
            toks.push(Token { kind: TokenKind::Number, span: Span::new(s, i) });
        } else if is_ident_byte(c) {
            while i < text.len() && is_ident_byte(text[i]) {
                i += 1;
            }
            toks.push(Token { kind: TokenKind::Ident, span: Span::new(s, i) });
        } else if is_symbol_byte(c) {
            while i < text.len() && is_symbol_byte(text[i]) {
                i += 1;
            }
            toks.push(Token { kind: TokenKind::Ident, span: Span::new(s, i) });
        } else {
            i += 1;
            toks.push(Token { kind: TokenKind::Other, span: Span::new(s, i) });
        }
    }
    toks.push(Token { kind: TokenKind::Eof, span: Span::new(text.len(), text.len()) });
    toks
}

fn empty_module() -> ModuleAst {
    ModuleAst {
        name: Span::new(0, 0),
        decls: Vec::new(),
        structs: Vec::new(),
        enums: Vec::new(),
        instances: Vec::new(),
    }
}

fn no_mmio(src: &[u8]) -> MmioDb {
    build_mmio_db(&empty_module(), src).unwrap()
}

struct Run {
    out: Vec<u8>,
    res: Result<(), TcError>,
}

impl Run {
    fn text(&self) -> String {
        String::from_utf8(self.out.clone()).unwrap()
    }
}

fn check_with(
    body: &str,
    declared: &WordSig,
    env: &[WordEntry],
    subtypes: &[SubtypeInfo],
    checks: ChecksMode,
    allow_suspend: bool,
) -> Run {
    let src = body.as_bytes();
    let toks = lex(src);
    let mmio = no_mmio(src);
    let mut out: Vec<u8> = Vec::new();
    let res = typecheck_word_body(
        &mut out,
        src,
        Span::new(0, src.len()),
        &toks,
        declared,
        env,
        subtypes,
        &mmio,
        checks,
        allow_suspend,
    );
    Run { out, res }
}

fn check(body: &str, declared: &WordSig) -> Run {
    check_with(body, declared, &builtin_words(), &[], ChecksMode::Off, true)
}

fn err_of(r: &Run) -> (u32, Span) {
    let e = r.res.unwrap_err();
    (e.code(), e.span())
}

#[test]
fn numbers_and_calls_are_traced() {
    let r = check("1 2 +", &sig(&[], &["i64"]));
    assert!(r.res.is_ok());
    assert_eq!(r.text(), "  1 | stack: i64\n  2 | stack: i64 i64\n  + | stack: i64\n");
}

#[test]
fn declared_inputs_seed_the_stack() {
    let r = check("<", &sig(&["i64", "i64"], &["bool"]));
    assert!(r.res.is_ok());
    assert_eq!(r.text(), "  < | stack: bool\n");
}

#[test]
fn leftover_values_are_an_output_count_mismatch() {
    let r = check("1", &sig(&[], &[]));
    assert_eq!(err_of(&r), (3220, Span::new(0, 1)));
    assert_eq!(r.text(), "  1 | stack: i64\n");
}

#[test]
fn wrong_output_type_is_reported() {
    let r = check("true", &sig(&[], &["i64"]));
    assert_eq!(err_of(&r), (3221, Span::new(0, 4)));
}

#[test]
fn unknown_word_is_reported_at_its_span() {
    let r = check("1 frob", &sig(&[], &[]));
    assert_eq!(err_of(&r), (3210, Span::new(2, 6)));
}

#[test]
fn call_with_too_few_values_underflows() {
    let r = check("1 +", &sig(&[], &["i64"]));
    assert_eq!(err_of(&r), (3211, Span::new(2, 3)));
}

#[test]
fn shuffles_rearrange_the_stack() {
    let r = check("1 true swap drop dup", &sig(&[], &["bool", "bool"]));
    assert!(r.res.is_ok());
    assert_eq!(
        r.text(),
        "  1 | stack: i64\n  true | stack: i64 bool\n  swap | stack: bool i64\n  drop | stack: bool\n  dup | stack: bool bool\n"
    );
    let r = check("drop", &sig(&[], &[]));
    assert_eq!(err_of(&r), (3202, Span::new(0, 4)));
}

#[test]
fn bindings_name_values() {
    let r = check("5 -> x x x +", &sig(&[], &["i64"]));
    assert!(r.res.is_ok());
    assert_eq!(
        r.text(),
        "  5 | stack: i64\n  => x | stack: \n  x | stack: i64\n  x | stack: i64 i64\n  + | stack: i64\n"
    );
    let r = check("1 -> x 2 -> x", &sig(&[], &[]));
    assert_eq!(err_of(&r), (3204, Span::new(12, 13)));
    let r = check("-> x", &sig(&[], &[]));
    assert_eq!(err_of(&r), (3202, Span::new(0, 2)));
    let r = check("1 -> 2", &sig(&[], &[]));
    assert_eq!(err_of(&r), (3201, Span::new(5, 6)));
}

#[test]
fn if_runs_both_branches() {
    let r = check("true [ 1 ] [ 2 ] if", &sig(&[], &["i64"]));
    assert!(r.res.is_ok());
    assert_eq!(
        r.text(),
        "  true | stack: bool\n  <quot> | stack: bool quot\n  <quot> | stack: bool quot quot\n  if | stack: i64\n"
    );
}

#[test]
fn if_branches_must_agree() {
    let r = check("true [ 1 ] [ ] if", &sig(&[], &[]));
    assert_eq!(err_of(&r).0, 3246);
    let r = check("true [ 1 ] [ true ] if", &sig(&[], &[]));
    assert_eq!(err_of(&r).0, 3247);
    let r = check("1 [ ] [ ] if", &sig(&[], &[]));
    assert_eq!(err_of(&r).0, 3243);
    let r = check("[ ] [ ] if", &sig(&[], &[]));
    assert_eq!(err_of(&r).0, 3242);
}

#[test]
fn while_and_loop_keep_the_stack() {
    let r = check("[ true ] [ ] while", &sig(&[], &[]));
    assert!(r.res.is_ok());
    assert_eq!(r.text(), "  <quot> | stack: quot\n  <quot> | stack: quot quot\n  while | stack: \n");
    let r = check("[ 1 ] [ ] while", &sig(&[], &[]));
    assert_eq!(err_of(&r).0, 3255);
    let r = check("[ true ] [ 1 ] while", &sig(&[], &[]));
    assert_eq!(err_of(&r).0, 3257);
    let r = check("[ 1 drop ] loop", &sig(&[], &[]));
    assert!(r.res.is_ok());
    let r = check("[ 1 ] loop", &sig(&[], &[]));
    assert_eq!(err_of(&r).0, 3262);
    let r = check("1 loop", &sig(&[], &[]));
    assert_eq!(err_of(&r).0, 3261);
}

#[test]
fn quotations_may_not_bind_or_call_unknown_words() {
    let r = check("[ frob ] loop", &sig(&[], &[]));
    assert_eq!(err_of(&r).0, 3280);
    let r = check("[ 1 -> x ] loop", &sig(&[], &[]));
    assert_eq!(err_of(&r).0, 3281);
    let r = check("[ 1", &sig(&[], &[]));
    assert_eq!(err_of(&r).0, 3290);
}

#[test]
fn return_ends_the_body() {
    let r = check("1 return 2 3", &sig(&[], &["i64"]));
    assert!(r.res.is_ok());
    assert_eq!(r.text(), "  1 | stack: i64\n  return | stack: i64\n");
    let r = check("return", &sig(&[], &["i64"]));
    assert_eq!(err_of(&r), (3230, Span::new(0, 6)));
}

#[test]
fn suspending_words_need_a_suspending_context() {
    let env = builtin_words();
    let r = check_with("platform.task.yield", &sig(&[], &[]), &env, &[], ChecksMode::Off, true);
    assert!(r.res.is_ok());
    assert_eq!(r.text(), "  platform.task.yield | stack: \n");
    let r = check_with("platform.task.yield", &sig(&[], &[]), &env, &[], ChecksMode::Off, false);
    assert_eq!(err_of(&r), (3503, Span::new(0, 19)));
    let r = check_with("[ platform.task.yield ] lock", &sig(&[], &[]), &env, &[], ChecksMode::Off, true);
    assert_eq!(err_of(&r).0, 3503);
}

#[test]
fn casts_to_subtypes() {
    let subs = vec![SubtypeInfo { name: atom("Percent"), base: atom("i64"), min: 0, max: 100 }];
    let env = builtin_words();
    let r = check_with("5 as Percent", &sig(&[], &["Percent"]), &env, &subs, ChecksMode::All, true);
    assert!(r.res.is_ok());
    assert_eq!(
        r.text(),
        "  5 | stack: i64\n  check_subtype Percent\n  trap_if_false SUBTYPE_FAIL\n  as Percent | stack: Percent\n"
    );
    let r = check_with("5 as Percent", &sig(&[], &["Percent"]), &env, &subs, ChecksMode::Off, true);
    assert_eq!(r.text(), "  5 | stack: i64\n  as Percent | stack: Percent\n");
    let r = check_with("5 as? Percent", &sig(&[], &["Percent", "bool"]), &env, &subs, ChecksMode::Off, true);
    assert!(r.res.is_ok());
    assert_eq!(r.text(), "  5 | stack: i64\n  as? Percent | stack: Percent bool\n");
    let r = check_with("true as Percent", &sig(&[], &["Percent"]), &env, &subs, ChecksMode::Off, true);
    assert_eq!(err_of(&r).0, 3300);
    let r = check_with("true as? Percent", &sig(&[], &["Percent", "bool"]), &env, &subs, ChecksMode::Off, true);
    assert_eq!(err_of(&r).0, 3298);
    let r = check_with("as u8", &sig(&[], &[]), &env, &subs, ChecksMode::Off, true);
    assert_eq!(err_of(&r).0, 3299);
    let r = check_with("1 as [", &sig(&[], &[]), &env, &subs, ChecksMode::Off, true);
    assert_eq!(err_of(&r), (3295, Span::new(5, 6)));
}

#[test]
fn suspending_entry_of_the_caller() {
    let e: WordEntry = entry(b"nap", &[], &[], EffectSet::from_bits(EffectSet::SUSPEND), StackBound::id());
    let env = vec![e];
    let r = check_with("nap", &sig(&[], &[]), &env, &[], ChecksMode::Off, false);
    assert_eq!(err_of(&r), (3503, Span::new(0, 3)));
    let r = check_with("&[ drop nap ]", &sig(&["Array(u8,4)"], &["Array(u8,4)"]), &env, &[], ChecksMode::Off, true);
    assert!(r.res.is_ok());
    assert_eq!(r.text(), "  &[...] | stack: Array(u8,4)\n");
    let r = check_with("&![ drop nap ]", &sig(&["Array(u8,4)"], &["Array(u8,4)"]), &env, &[], ChecksMode::Off, true);
    assert_eq!(err_of(&r).0, 3503);
}

#[test]
fn scoped_blocks_need_an_array_or_region() {
    let r = check("&[ ]", &sig(&["i64"], &["i64"]));
    assert_eq!(err_of(&r).0, 3515);
    let r = check("&[ ]", &sig(&[], &[]));
    assert_eq!(err_of(&r).0, 3505);
    let r = check("&[ 1", &sig(&["Region"], &["Region"]));
    assert_eq!(err_of(&r).0, 3590);
}

#[test]
fn borrows_of_locals_push_pointers() {
    let r = check("1 -> x &x", &sig(&[], &["ptr"]));
    assert!(r.res.is_ok());
    assert_eq!(r.text(), "  1 | stack: i64\n  => x | stack: \n  &x | stack: ptr\n");
    let r = check("1 -> x &!x", &sig(&[], &["ptr_mut"]));
    assert_eq!(err_of(&r), (3501, Span::new(9, 10)));
    let r = check("&!buf @u32", &sig(&[], &["u32"]));
    assert!(r.res.is_ok());
    assert_eq!(r.text(), "  &!buf | stack: ptr_mut\n  @u32 | stack: u32\n");
    let r = check("1 @u32", &sig(&[], &[]));
    assert_eq!(err_of(&r), (3614, Span::new(2, 6)));
}

const GPIO_BODY: &str =
    "0x00 CTRL u32 rw volatile { EN 0 u8 rw MODE 1 .. 3 u8 rw } 0x04 STATUS u32 ro 0x08 OUT_SET u32 wo";

/// A module holding the register map `GPIO`, its instance `gpio`, and one
/// word `w` with the given signature and body.
fn gpio_word(sig_text: &str, body_text: &str) -> (Vec<u8>, ModuleAst, Span) {
    let mut src = Vec::new();
    src.extend_from_slice(b"GPIO ");
    let map_name = Span::new(0, 4);
    let map_body = Span::new(src.len(), src.len() + GPIO_BODY.len());
    src.extend_from_slice(GPIO_BODY.as_bytes());
    src.extend_from_slice(b" gpio 0x40000000 word w ");
    let inst_name = Span::new(map_body.end + 1, map_body.end + 5);
    let base = Span::new(map_body.end + 6, map_body.end + 16);
    let word_name = Span::new(src.len() - 2, src.len() - 1);
    let sig_span = Span::new(src.len(), src.len() + sig_text.len());
    src.extend_from_slice(sig_text.as_bytes());
    src.push(b' ');
    let body = Span::new(src.len(), src.len() + body_text.len());
    src.extend_from_slice(body_text.as_bytes());
    let map = DeclAst {
        kind: DeclKind::RegisterMap,
        name: map_name,
        sig: None,
        attrs: Vec::new(),
        body: Some(map_body),
        body_tokens: lex(GPIO_BODY.as_bytes()),
    };
    let word = DeclAst {
        kind: DeclKind::Word,
        name: word_name,
        sig: Some(sig_span),
        attrs: Vec::new(),
        body: Some(body),
        body_tokens: lex(body_text.as_bytes()),
    };
    let module = ModuleAst {
        name: map_name,
        decls: vec![map, word],
        structs: Vec::new(),
        enums: Vec::new(),
        instances: vec![InstanceAst { name: inst_name, map: map_name, base_addr: base }],
    };
    (src, module, body)
}

fn gpio_check(body_text: &str, declared: &WordSig) -> (Run, Span) {
    let (src, module, body) = gpio_word("( -- )", body_text);
    let mmio = build_mmio_db(&module, &src).unwrap();
    let toks = lex(body_text.as_bytes());
    let mut out: Vec<u8> = Vec::new();
    let res = typecheck_word_body(
        &mut out,
        &src,
        body,
        &toks,
        declared,
        &builtin_words(),
        &[],
        &mmio,
        ChecksMode::Off,
        true,
    );
    (Run { out, res }, body)
}

#[test]
fn register_loads_and_stores_are_traced() {
    let (r, _) = gpio_check("&!gpio.CTRL &gpio.STATUS @ !", &sig(&[], &[]));
    assert!(r.res.is_ok());
    assert_eq!(
        r.text(),
        "  &!gpio.CTRL | stack: mmio_ptr_mut\n  &gpio.STATUS | stack: mmio_ptr_mut mmio_ptr\n  load u32 gpio.STATUS | stack: mmio_ptr_mut u32\n  vol_store u32 gpio.CTRL | stack: \n"
    );
}

#[test]
fn field_loads_carry_mask_and_shift() {
    let (r, _) = gpio_check("gpio.CTRL.MODE @", &sig(&[], &["u8"]));
    assert!(r.res.is_ok());
    assert_eq!(
        r.text(),
        "  mmio gpio.CTRL.MODE | stack: mmio\n  vol_load_field u8 gpio.CTRL.MODE mask=0xe shift=1 | stack: u8\n"
    );
}

#[test]
fn register_access_modes_are_enforced() {
    let (r, body) = gpio_check("&!gpio.STATUS", &sig(&[], &[]));
    assert_eq!(err_of(&r), (3609, Span::new(body.start + 2, body.start + 13)));
    let (r, body) = gpio_check("&gpio.OUT_SET @", &sig(&[], &[]));
    assert_eq!(err_of(&r), (3610, Span::new(body.start + 14, body.start + 15)));
    let (r, _) = gpio_check("&gpio.CTRL.EN", &sig(&[], &[]));
    assert_eq!(err_of(&r).0, 3608);
    let (r, _) = gpio_check("&gpio.CTRL @u16", &sig(&[], &[]));
    assert_eq!(err_of(&r).0, 3613);
}

#[test]
fn stackcheck_lists_every_word() {
    let (src, module, _) = gpio_word("( -- i64 )", "1 2 +");
    let mut out: Vec<u8> = Vec::new();
    let res = emit_stackcheck(&module, &src, &builtin_words(), &[], ChecksMode::Off, &mut out);
    assert!(res.is_ok());
    assert_eq!(
        String::from_utf8(out).unwrap(),
        "word w (  -- i64 )\n  1 | stack: i64\n  2 | stack: i64 i64\n  + | stack: i64\n"
    );
}

#[test]
fn stackcheck_stops_at_the_first_error() {
    let (src, module, body) = gpio_word("( -- )", "1");
    let mut out: Vec<u8> = Vec::new();
    let err = emit_stackcheck(&module, &src, &builtin_words(), &[], ChecksMode::Off, &mut out).unwrap_err();
    assert_eq!(err.code(), 3220);
    assert_eq!(err.span(), body);
    assert_eq!(String::from_utf8(out).unwrap(), "word w (  -- )\n  1 | stack: i64\n");

    let (src, module, _) = gpio_word("( Bad( -- )", "1");
    let mut out: Vec<u8> = Vec::new();
    let err = emit_stackcheck(&module, &src, &builtin_words(), &[], ChecksMode::Off, &mut out).unwrap_err();
    assert_eq!(err.code(), 3100);
    assert!(out.is_empty());
}

#[test]
fn a_failing_quotation_leaves_the_stack_where_it_stopped() {
    let src = b"[ -> x ]";
    let toks = lex(src);
    let mmio = no_mmio(src);
    let env = builtin_words();
    let ck = Checker { src, body: Span::new(0, src.len()), toks: &toks, env: &env, subtypes: &[], mmio: &mmio };
    let q = Value::Quot { span: Span::new(0, 8), first: 1, close: 3 };
    let mut stack: Vec<Value> = Vec::new();
    let e = ck.typecheck_quote_body(64, q, &mut stack, true).unwrap_err();
    assert_eq!((e.code(), e.span()), (3281, Span::new(0, 8)));
    assert!(stack.is_empty());
}

#[test]
fn a_failing_block_leaves_the_stack_where_it_stopped() {
    let src = b"frob";
    let toks = lex(src);
    let mmio = no_mmio(src);
    let env = builtin_words();
    let ck = Checker { src, body: Span::new(0, src.len()), toks: &toks, env: &env, subtypes: &[], mmio: &mmio };
    let mut stack: Vec<Value> = Vec::new();
    let e = ck.check_seq(64, BodyMode::Plain { span: Span::new(0, 4) }, 1, 0, &mut stack, true).unwrap_err();
    assert_eq!((e.code(), e.span()), (3280, Span::new(0, 4)));
    assert!(stack.is_empty());

    let src = b"1 true frob";
    let toks = lex(src);
    let ck = Checker { src, body: Span::new(0, src.len()), toks: &toks, env: &env, subtypes: &[], mmio: &mmio };
    let mut stack: Vec<Value> = Vec::new();
    let e = ck.check_seq(64, BodyMode::Plain { span: Span::new(0, 11) }, 3, 0, &mut stack, true).unwrap_err();
    assert_eq!(e.code(), 3280);
    assert_eq!(stack.len(), 2);
    assert!(matches!(stack[1], Value::Plain(t) if t.is(b"bool")));

    let src = b"1 +";
    let toks = lex(src);
    let ck = Checker { src, body: Span::new(0, src.len()), toks: &toks, env: &env, subtypes: &[], mmio: &mmio };
    let mut stack: Vec<Value> = Vec::new();
    let e = ck.check_seq(64, BodyMode::Plain { span: Span::new(0, 3) }, 2, 0, &mut stack, true).unwrap_err();
    assert_eq!(e.code(), 3211);
    assert_eq!(stack.len(), 1);
}

#[test]
fn a_quotation_running_itself_is_cut_off() {
    let r = check("[ dup loop ] dup loop", &sig(&[], &[]));
    let (code, span) = err_of(&r);
    assert_eq!(code, 3512);
    assert_eq!(span, Span::new(0, 12));
}

#[test]
fn long_mutable_roots_are_found_beforehand() {
    let env = builtin_words();
    let long = "&!abcdefghijklmnopqrstuvwxyz0123456789";
    let short = "&!buf @u32 drop";
    for (body, want) in [(long, true), (short, false), ("frob", false)] {
        let src = body.as_bytes();
        let toks = lex(src);
        let mmio = no_mmio(src);
        let got = word_body_stops_at_long_root(
            src,
            Span::new(0, src.len()),
            &toks,
            &sig(&[], &[]),
            &env,
            &[],
            &mmio,
            ChecksMode::Off,
            true,
        );
        assert_eq!(got, want, "{}", body);
    }
    let (src, module, _) = gpio_word("( -- )", "&!abcdefghijklmnopqrstuvwxyz0123456789");
    assert!(stackcheck_stops_at_long_root(&module, &src, &env, &[], ChecksMode::Off));
    let (src, module, _) = gpio_word("( -- )", "1 drop");
    assert!(!stackcheck_stops_at_long_root(&module, &src, &env, &[], ChecksMode::Off));
}
