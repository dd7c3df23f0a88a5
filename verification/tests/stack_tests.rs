use semantics::borrow::{mint_id, scan_conflict, PlaceKey, LEDGER_CAP};
use semantics::builtins::{builtin_words, entry, make_table, mk, ta};
use semantics::db::SubtypeInfo;
use semantics::effects::{bound_delta, EffectSet, High, StackBound};
use semantics::output::{write_sig, write_u64_dec, write_u64_hex, Output};
use semantics::typeops::{
    array_elem_type, chan_elem_type, find_local, find_subtype, lookup, region_ref_type, slice_type_of_elem,
    type_compatible,
};
use semantics::types::{Span, TypeAtom, WordSig};
use semantics::value::{
    apply_sig, check_no_scoped_live, pop, push, value_eq, value_type, write_stack, PlaceId, Value, PLACE_NONE,
    STACK_CAP,
};

fn atom(s: &str) -> TypeAtom {
    TypeAtom::new(s.as_bytes()).unwrap()
}

fn text(v: &Vec<u8>) -> String {
    String::from_utf8(v.clone()).unwrap()
}

fn plain(s: &str) -> Value {
    Value::Plain(atom(s))
}

#[test]
fn subtypes_and_compatibility() {
    let subs = vec![
        SubtypeInfo { name: atom("Percent"), base: atom("i64"), min: 0, max: 100 },
        SubtypeInfo { name: atom("Percent"), base: atom("u8"), min: 0, max: 100 },
    ];
    let st = find_subtype(&subs, atom("Percent")).unwrap();
    assert!(st.base.is(b"i64"));
    assert!(find_subtype(&subs, atom("Other")).is_none());
    assert!(type_compatible(atom("i64"), atom("i64"), &subs));
    assert!(type_compatible(atom("Percent"), atom("i64"), &subs));
    assert!(!type_compatible(atom("Percent"), atom("u8"), &subs));
    assert!(!type_compatible(atom("i64"), atom("Percent"), &subs));
}

#[test]
fn compound_element_types() {
    assert!(array_elem_type(atom("Array(u8,16)")).unwrap().is(b"u8"));
    assert!(array_elem_type(atom("Array(Array(u8,2),3)")).unwrap().is(b"Array(u8,2)"));
    assert!(array_elem_type(atom("Array(u8)")).is_none());
    assert!(array_elem_type(atom("Slice(u8)")).is_none());
    assert!(chan_elem_type(atom("Chan(i64)")).unwrap().is(b"i64"));
    assert!(chan_elem_type(atom("Chan(")).is_none());
    assert!(chan_elem_type(atom("Chan()")).unwrap().is(b""));
    assert!(slice_type_of_elem(atom("u8"), false).unwrap().is(b"Slice(u8)"));
    assert!(slice_type_of_elem(atom("u8"), true).unwrap().is(b"SliceMut(u8)"));
    assert!(slice_type_of_elem(atom("abcdefghijklmnopqrstuvw"), true).is_none());
    assert!(slice_type_of_elem(atom("abcdefghijklmnopqrstuv"), true).unwrap().is(b"SliceMut(abcdefghijklmnopqrstuv)"));
    assert!(region_ref_type(true).is(b"RegionRefMut"));
    assert!(region_ref_type(false).is(b"RegionRef"));
}

#[test]
fn lookups_find_first_match() {
    let env = builtin_words();
    let e = lookup(&env, b"swap").unwrap();
    assert_eq!(e.sig.inputs.len(), 2);
    assert!(lookup(&env, b"rot").is_none());
    let mut locals = [atom(""); 64];
    locals[0] = atom("x");
    locals[1] = atom("y");
    locals[2] = atom("x");
    assert_eq!(find_local(&locals, 3, atom("x")), Some(0));
    assert_eq!(find_local(&locals, 3, atom("y")), Some(1));
    assert_eq!(find_local(&locals, 1, atom("y")), None);
}

#[test]
fn output_writers() {
    let mut out: Vec<u8> = Vec::new();
    out.write(b"n=");
    write_u64_dec(&mut out, 0);
    out.write(b" ");
    write_u64_dec(&mut out, 18446744073709551615);
    out.write(b" 0x");
    write_u64_hex(&mut out, 0xdead_beef);
    out.write(b" 0x");
    write_u64_hex(&mut out, 0);
    assert_eq!(text(&out), "n=0 18446744073709551615 0xdeadbeef 0x0");

    let sig = WordSig { inputs: vec![atom("i64"), atom("bool")], outputs: vec![atom("i64")] };
    let mut out: Vec<u8> = Vec::new();
    write_sig(&mut out, &sig);
    assert_eq!(text(&out), "( i64 bool -- i64 )");
    let mut out: Vec<u8> = Vec::new();
    write_sig(&mut out, &WordSig::empty());
    assert_eq!(text(&out), "(  -- )");
}

#[test]
fn builtin_table_matches_the_words() {
    let t = make_table();
    assert_eq!(t.len(), 16);
    let names: Vec<Vec<u8>> = t.iter().map(|e| e.name.to_vec()).collect();
    let want: Vec<&[u8]> = vec![
        b"dup", b"drop", b"swap", b"+", b"-", b"*", b">", b"<", b">=", b"<=", b"==", b"and", b"or", b"not", b"call",
        b"platform.task.yield",
    ];
    for (n, w) in names.iter().zip(want.iter()) {
        assert_eq!(&n[..], *w);
    }
    let dup = &t[0];
    assert_eq!(dup.bound, StackBound { net: 1, high: High::Slots(1) });
    assert_eq!(dup.sig.outputs.len(), 2);
    let eq = &t[10];
    assert!(eq.sig.outputs[0].is(b"bool"));
    let call = &t[14];
    assert_eq!(call.bound.high, High::Top);
    assert!(call.sig.inputs[0].is(b"quot"));
    let y = &t[15];
    assert!(y.may_suspend());
    assert!(!dup.may_suspend());
    assert_eq!(y.requires.bits(), 0);
    assert_eq!(builtin_words().len(), 16);
}

#[test]
fn entries_are_built_from_spellings() {
    let a = ta(b"u8");
    assert!(a.is(b"u8"));
    let inp: [&[u8]; 2] = [b"u8", b"i64"];
    let out: [&[u8]; 1] = [b"bool"];
    let e = entry(b"cmp", &inp, &out, EffectSet::empty(), StackBound::id());
    assert!(e.name.is(b"cmp"));
    assert!(e.sig.inputs[1].is(b"i64"));
    assert!(e.sig.outputs[0].is(b"bool"));
    let e2 = mk(b"cmp", &inp, &out, EffectSet::from_bits(EffectSet::SUSPEND), StackBound::id());
    assert!(e2.may_suspend());
}

#[test]
fn stack_push_pop_and_overflow() {
    let mut s: Vec<Value> = Vec::new();
    assert!(pop(&mut s).is_none());
    for _ in 0..STACK_CAP {
        push(&mut s, plain("i64")).unwrap();
    }
    let err = push(&mut s, plain("i64")).unwrap_err();
    assert_eq!(err.code(), 3206);
    assert_eq!(err.span(), Span::new(0, 0));
    assert_eq!(s.len(), STACK_CAP);
    let v = pop(&mut s).unwrap();
    assert!(value_eq(&v, &plain("i64")));
    assert_eq!(s.len(), STACK_CAP - 1);
}

#[test]
fn apply_sig_replaces_inputs_by_outputs() {
    let env = builtin_words();
    let subs: Vec<SubtypeInfo> = vec![SubtypeInfo { name: atom("Small"), base: atom("i64"), min: 0, max: 9 }];
    let span = Span::new(4, 5);
    let mut s = vec![plain("bool"), plain("Small"), plain("i64")];
    apply_sig(&mut s, lookup(&env, b"<").unwrap(), span, &subs).unwrap();
    assert_eq!(s.len(), 2);
    assert!(value_type(&s[1]).is(b"bool"));

    let mut s = vec![plain("i64")];
    let err = apply_sig(&mut s, lookup(&env, b"+").unwrap(), span, &subs).unwrap_err();
    assert_eq!(err.code(), 3211);
    assert_eq!(err.span(), span);
    assert_eq!(s.len(), 1);

    let mut s = vec![plain("bool"), plain("i64")];
    let err = apply_sig(&mut s, lookup(&env, b"+").unwrap(), span, &subs).unwrap_err();
    assert_eq!(err.code(), 3212);

    let mut s = vec![Value::Scoped { ty: atom("Array(u8,4)"), scope: 1 }];
    let err = apply_sig(&mut s, lookup(&env, b"platform.task.yield").unwrap(), span, &subs).unwrap_err();
    assert_eq!(err.code(), 3502);
    assert!(!check_no_scoped_live(&s));

    let mut s: Vec<Value> = (0..STACK_CAP).map(|_| plain("i64")).collect();
    let err = apply_sig(&mut s, lookup(&env, b"dup").unwrap(), span, &subs).unwrap_err();
    assert_eq!(err.code(), 3206);
}

#[test]
fn values_print_and_compare() {
    let s = vec![
        plain("i64"),
        Value::Quot { span: Span::new(1, 4), first: 1, close: 2 },
        Value::Resource(atom("counter")),
        Value::Ptr { ty: atom("u8"), mutable: true, place: PlaceId(0) },
        plain("scoped"),
    ];
    let mut out: Vec<u8> = Vec::new();
    write_stack(&mut out, &s);
    assert_eq!(text(&out), "i64 quot counter ptr_mut scoped");
    assert!(!check_no_scoped_live(&s));
    assert!(check_no_scoped_live(&s[..4]));
    assert!(value_type(&s[2]).is(b"resource"));
    assert!(value_type(&s[1]).is(b"quot"));
    assert!(value_eq(&s[1], &Value::Quot { span: Span::new(1, 4), first: 1, close: 2 }));
    assert!(!value_eq(&s[1], &Value::Quot { span: Span::new(1, 5), first: 1, close: 2 }));
    assert!(!value_eq(&s[0], &s[1]));
}

#[test]
fn ledger_interns_places() {
    let blank = PlaceKey { root: atom(""), full: atom(""), origin: Span::new(0, 0) };
    let mut ledger = [blank; LEDGER_CAP];
    let mut len: u8 = 0;
    let a = mint_id(&mut ledger, &mut len, atom("buf"), atom("buf.x"), Span::new(1, 2)).unwrap();
    let b = mint_id(&mut ledger, &mut len, atom("buf"), atom("buf.y"), Span::new(3, 4)).unwrap();
    let a2 = mint_id(&mut ledger, &mut len, atom("buf"), atom("buf.x"), Span::new(9, 9)).unwrap();
    assert_eq!(a, PlaceId(0));
    assert_eq!(b, PlaceId(1));
    assert_eq!(a2, a);
    assert_eq!(len, 2);
    assert_eq!(ledger[0].origin, Span::new(1, 2));

    let mut full_len: u8 = LEDGER_CAP as u8;
    let err = mint_id(&mut ledger, &mut full_len, atom("other"), atom("other"), Span::new(5, 6)).unwrap_err();
    assert_eq!(err.code(), 3908);
    assert_eq!(err.span(), Span::new(5, 6));
}

#[test]
fn borrow_conflicts() {
    let blank = PlaceKey { root: atom(""), full: atom(""), origin: Span::new(0, 0) };
    let mut ledger = [blank; LEDGER_CAP];
    let mut len: u8 = 0;
    let id = mint_id(&mut ledger, &mut len, atom("buf"), atom("buf"), Span::new(7, 8)).unwrap();
    let places = [PlaceId(PLACE_NONE); 64];
    let live = [false; 64];
    let tys = [atom(""); 64];
    let shared = vec![Value::Ptr { ty: atom("u8"), mutable: false, place: id }];
    let new_span = Span::new(20, 21);
    assert!(scan_conflict(&shared, &ledger, len, &places, &live, &tys, 0, atom("buf"), false, new_span).is_ok());
    let err = scan_conflict(&shared, &ledger, len, &places, &live, &tys, 0, atom("buf"), true, new_span).unwrap_err();
    assert_eq!(err.code(), 5021);
    assert_eq!(err.span(), new_span);
    assert!(scan_conflict(&shared, &ledger, len, &places, &live, &tys, 0, atom("other"), true, new_span).is_ok());

    let mut places = places;
    let mut live = live;
    let mut tys = tys;
    places[0] = id;
    live[0] = true;
    tys[0] = atom("ptr_mut");
    let err = scan_conflict(&[], &ledger, len, &places, &live, &tys, 1, atom("buf"), false, new_span).unwrap_err();
    assert_eq!(err.code(), 5021);
    live[0] = false;
    assert!(scan_conflict(&[], &ledger, len, &places, &live, &tys, 1, atom("buf"), true, new_span).is_ok());
}

#[test]
fn bound_delta_examples() {
    let prev = StackBound { net: 2, high: High::Slots(3) };
    let curr = StackBound { net: 5, high: High::Slots(4) };
    assert_eq!(bound_delta(prev, curr), StackBound { net: 3, high: High::Slots(2) });
    let curr = StackBound { net: 0, high: High::Slots(1) };
    assert_eq!(bound_delta(prev, curr), StackBound { net: -2, high: High::Slots(0) });
    let curr = StackBound { net: 1, high: High::Top };
    assert_eq!(bound_delta(prev, curr).high, High::Top);
    let wrap = bound_delta(StackBound { net: -1, high: High::Slots(0) }, StackBound { net: i32::MAX, high: High::Slots(0) });
    assert_eq!(wrap.net, i32::MIN);
}
