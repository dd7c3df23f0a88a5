//! The builtin word table: the words every program may call without
//! declaring them, with their signatures, effects and stack bounds.
use vstd::prelude::*;

use crate::effects::{CapSet, EffectSet, High, StackBound};
use crate::lit::{
    lit_and, lit_bool, lit_call, lit_drop, lit_dup, lit_eqeq, lit_ge, lit_gt, lit_i64, lit_le,
    lit_lt, lit_minus, lit_not, lit_or, lit_plus, lit_quot, lit_star, lit_swap, lit_task_yield,
    sp_and, sp_bool, sp_call, sp_drop, sp_dup, sp_eqeq, sp_ge, sp_gt, sp_i64, sp_le, sp_lt,
    sp_minus, sp_not, sp_or, sp_plus, sp_quot, sp_star, sp_swap, sp_task_yield,
};
use crate::types::{TypeAtom, WordEntry, WordSig, ATOM_CAP};

verus! {

/// The byte strings in `parts`.
pub open spec fn byte_views(parts: Seq<&[u8]>) -> Seq<Seq<u8>> {
    parts.map_values(|b: &[u8]| b@)
}

/// Every string in `parts` fits in an atom.
pub open spec fn all_fit(parts: Seq<&[u8]>) -> bool {
    forall|i: int| 0 <= i < parts.len() ==> (#[trigger] parts[i])@.len() <= ATOM_CAP
}

/// The atom spelled `bytes`.
pub fn ta(bytes: &[u8]) -> (a: TypeAtom)
    requires
        bytes@.len() <= ATOM_CAP,
    ensures
        a@ == bytes@,
{
    TypeAtom::new(bytes).unwrap()
}

fn atoms_of(parts: &[&[u8]]) -> (v: Vec<TypeAtom>)
    requires
        all_fit(parts@),
    ensures
        crate::types::atoms_view(v@) == byte_views(parts@),
{
    let mut v: Vec<TypeAtom> = Vec::new();
    let mut i: usize = 0;
    while i < parts.len()
        invariant
            i <= parts@.len(),
            all_fit(parts@),
            v@.len() == i,
            crate::types::atoms_view(v@) == byte_views(parts@).subrange(0, i as int),
        decreases parts@.len() - i,
    {
        let b: &[u8] = parts[i];
        assert(parts@[i as int]@.len() <= ATOM_CAP);
        assert(byte_views(parts@)[i as int] == b@);
        let a = ta(b);
        let ghost before = v@;
        v.push(a);
        assert(crate::types::atoms_view(v@)[i as int] == a@);
        assert(crate::types::atoms_view(v@).subrange(0, i as int) =~= crate::types::atoms_view(before));
        i += 1;
        assert(crate::types::atoms_view(v@) =~= byte_views(parts@).subrange(0, i as int));
    }
    assert(byte_views(parts@).subrange(0, i as int) =~= byte_views(parts@));
    v
}

/// A builtin entry: name, input and output types, effects and bound;
/// builtins require no capabilities.
pub fn entry(
    name: &[u8],
    inp: &[&[u8]],
    out: &[&[u8]],
    performs: EffectSet,
    bound: StackBound,
) -> (e: WordEntry)
    requires
        name@.len() <= ATOM_CAP,
        all_fit(inp@),
        all_fit(out@),
    ensures
        e.name@ == name@,
        e.sig.ins() == byte_views(inp@),
        e.sig.outs() == byte_views(out@),
        e.performs == performs,
        e.requires@ == 0,
        e.bound == bound,
{
    let sig = WordSig { inputs: atoms_of(inp), outputs: atoms_of(out) };
    WordEntry { name: ta(name), sig, performs, requires: CapSet::empty(), bound }
}

/// Same as `entry`; the table below is written with it.
pub fn mk(
    name: &[u8],
    inp: &[&[u8]],
    out: &[&[u8]],
    performs: EffectSet,
    bound: StackBound,
) -> (e: WordEntry)
    requires
        name@.len() <= ATOM_CAP,
        all_fit(inp@),
        all_fit(out@),
    ensures
        e.name@ == name@,
        e.sig.ins() == byte_views(inp@),
        e.sig.outs() == byte_views(out@),
        e.performs == performs,
        e.requires@ == 0,
        e.bound == bound,
{
    entry(name, inp, out, performs, bound)
}

/// Bound of a word that leaves one value fewer and touches nothing above.
pub open spec fn pop_bound() -> StackBound {
    StackBound { net: -1i32, high: High::Slots(0) }
}

/// Bound of a word that leaves one value more, one slot above its entry.
pub open spec fn dup_bound() -> StackBound {
    StackBound { net: 1, high: High::Slots(1) }
}

/// Bound of `call`: whatever the called quotation needs, unknown here.
pub open spec fn call_bound() -> StackBound {
    StackBound { net: 0, high: High::Top }
}

/// The identity bound.
pub open spec fn zero_bound() -> StackBound {
    StackBound { net: 0, high: High::Slots(0) }
}

/// What a builtin entry holds: name, inputs, outputs, effect bits, bound.
pub type BuiltinSpec = (Seq<u8>, Seq<Seq<u8>>, Seq<Seq<u8>>, u32, StackBound);

/// `e` holds exactly what `s` describes, and requires no capability.
pub open spec fn entry_is(e: WordEntry, s: BuiltinSpec) -> bool {
    &&& e.name@ == s.0
    &&& e.sig.ins() == s.1
    &&& e.sig.outs() == s.2
    &&& e.performs@ == s.3
    &&& e.requires@ == 0
    &&& e.bound == s.4
}

/// Two `i64`s in, one `i64` out.
pub open spec fn arith(name: Seq<u8>) -> BuiltinSpec {
    (name, seq![sp_i64(), sp_i64()], seq![sp_i64()], 0, pop_bound())
}

/// Two `i64`s in, one `bool` out.
pub open spec fn compare(name: Seq<u8>) -> BuiltinSpec {
    (name, seq![sp_i64(), sp_i64()], seq![sp_bool()], 0, pop_bound())
}

/// Two `bool`s in, one `bool` out.
pub open spec fn logic(name: Seq<u8>) -> BuiltinSpec {
    (name, seq![sp_bool(), sp_bool()], seq![sp_bool()], 0, pop_bound())
}

/// The builtin words, in table order.
pub open spec fn builtin_spec(i: int) -> BuiltinSpec {
    if i == 0 {
        (sp_dup(), seq![sp_i64()], seq![sp_i64(), sp_i64()], 0, dup_bound())
    } else if i == 1 {
        (sp_drop(), seq![sp_i64()], Seq::empty(), 0, pop_bound())
    } else if i == 2 {
        (sp_swap(), seq![sp_i64(), sp_i64()], seq![sp_i64(), sp_i64()], 0, zero_bound())
    } else if i == 3 {
        arith(sp_plus())
    } else if i == 4 {
        arith(sp_minus())
    } else if i == 5 {
        arith(sp_star())
    } else if i == 6 {
        compare(sp_gt())
    } else if i == 7 {
        compare(sp_lt())
    } else if i == 8 {
        compare(sp_ge())
    } else if i == 9 {
        compare(sp_le())
    } else if i == 10 {
        compare(sp_eqeq())
    } else if i == 11 {
        logic(sp_and())
    } else if i == 12 {
        logic(sp_or())
    } else if i == 13 {
        (sp_not(), seq![sp_bool()], seq![sp_bool()], 0, zero_bound())
    } else if i == 14 {
        (sp_call(), seq![sp_quot()], Seq::empty(), 0, call_bound())
    } else {
        (sp_task_yield(), Seq::empty(), Seq::empty(), EffectSet::SUSPEND, zero_bound())
    }
}

/// Number of builtin words.
pub const BUILTIN_COUNT: usize = 16;

/// The table is exactly the builtin words, in order.
pub open spec fn is_builtin_table(t: Seq<WordEntry>) -> bool {
    t.len() == BUILTIN_COUNT && forall|i: int| 0 <= i < t.len() ==> entry_is(#[trigger] t[i], builtin_spec(i))
}

fn two_in_one_out(
    t: &mut Vec<WordEntry>,
    name: &[u8],
    a: &[u8],
    r: &[u8],
    bound: StackBound,
)
    requires
        name@.len() <= ATOM_CAP,
        a@.len() <= ATOM_CAP,
        r@.len() <= ATOM_CAP,
    ensures
        final(t)@.len() == old(t)@.len() + 1,
        final(t)@.subrange(0, old(t)@.len() as int) == old(t)@,
        entry_is(
            final(t)@.last(),
            (name@, seq![a@, a@], seq![r@], 0, bound),
        ),
{
    let inp: [&[u8]; 2] = [a, a];
    let out: [&[u8]; 1] = [r];
    assert(byte_views(inp@) =~= seq![a@, a@]);
    assert(byte_views(out@) =~= seq![r@]);
    let e = mk(name, &inp, &out, EffectSet::empty(), bound);
    t.push(e);
    assert(final(t)@.subrange(0, old(t)@.len() as int) =~= old(t)@);
}

/// Builds the builtin word table.
pub fn make_table() -> (t: Vec<WordEntry>)
    ensures
        is_builtin_table(t@),
{
    let i64t = lit_i64();
    let boolt = lit_bool();
    let quott = lit_quot();
    let pop_b = StackBound { net: -1, high: High::Slots(0) };
    let dup_b = StackBound { net: 1, high: High::Slots(1) };
    let call_b = StackBound { net: 0, high: High::Top };
    let zero_b = StackBound::id();
    let mut t: Vec<WordEntry> = Vec::new();

    let n = lit_dup();
    let inp: [&[u8]; 1] = [&i64t];
    let out: [&[u8]; 2] = [&i64t, &i64t];
    assert(byte_views(inp@) =~= seq![sp_i64()]);
    assert(byte_views(out@) =~= seq![sp_i64(), sp_i64()]);
    t.push(mk(&n, &inp, &out, EffectSet::empty(), dup_b));
    assert(entry_is(t@[0], builtin_spec(0)));

    let n = lit_drop();
    let inp: [&[u8]; 1] = [&i64t];
    let out: [&[u8]; 0] = [];
    assert(byte_views(inp@) =~= seq![sp_i64()]);
    assert(byte_views(out@) =~= Seq::<Seq<u8>>::empty());
    t.push(mk(&n, &inp, &out, EffectSet::empty(), pop_b));
    assert(entry_is(t@[1], builtin_spec(1)));

    let n = lit_swap();
    let inp: [&[u8]; 2] = [&i64t, &i64t];
    let out: [&[u8]; 2] = [&i64t, &i64t];
    assert(byte_views(inp@) =~= seq![sp_i64(), sp_i64()]);
    assert(byte_views(out@) =~= seq![sp_i64(), sp_i64()]);
    t.push(mk(&n, &inp, &out, EffectSet::empty(), zero_b));
    assert(entry_is(t@[2], builtin_spec(2)));

    let ghost t2 = t@;
    let n = lit_plus();
    two_in_one_out(&mut t, &n, &i64t, &i64t, pop_b);
    let n = lit_minus();
    two_in_one_out(&mut t, &n, &i64t, &i64t, pop_b);
    let n = lit_star();
    two_in_one_out(&mut t, &n, &i64t, &i64t, pop_b);
    let n = lit_gt();
    two_in_one_out(&mut t, &n, &i64t, &boolt, pop_b);
    let n = lit_lt();
    two_in_one_out(&mut t, &n, &i64t, &boolt, pop_b);
    let n = lit_ge();
    two_in_one_out(&mut t, &n, &i64t, &boolt, pop_b);
    let n = lit_le();
    two_in_one_out(&mut t, &n, &i64t, &boolt, pop_b);
    let n = lit_eqeq();
    two_in_one_out(&mut t, &n, &i64t, &boolt, pop_b);
    let n = lit_and();
    two_in_one_out(&mut t, &n, &boolt, &boolt, pop_b);
    let n = lit_or();
    two_in_one_out(&mut t, &n, &boolt, &boolt, pop_b);
    assert(t@.len() == 13);
    assert(t@.subrange(0, 3) == t2);
    assert forall|i: int| 0 <= i < 13 implies entry_is(#[trigger] t@[i], builtin_spec(i)) by {
        if i < 3 {
            assert(t@[i] == t@.subrange(0, 3)[i]);
        }
    }

    let n = lit_not();
    let inp: [&[u8]; 1] = [&boolt];
    let out: [&[u8]; 1] = [&boolt];
    assert(byte_views(inp@) =~= seq![sp_bool()]);
    assert(byte_views(out@) =~= seq![sp_bool()]);
    t.push(mk(&n, &inp, &out, EffectSet::empty(), zero_b));

    let n = lit_call();
    let inp: [&[u8]; 1] = [&quott];
    let out: [&[u8]; 0] = [];
    assert(byte_views(inp@) =~= seq![sp_quot()]);
    assert(byte_views(out@) =~= Seq::<Seq<u8>>::empty());
    t.push(mk(&n, &inp, &out, EffectSet::empty(), call_b));

    let n = lit_task_yield();
    let inp: [&[u8]; 0] = [];
    let out: [&[u8]; 0] = [];
    assert(byte_views(inp@) =~= Seq::<Seq<u8>>::empty());
    assert(byte_views(out@) =~= Seq::<Seq<u8>>::empty());
    t.push(mk(&n, &inp, &out, EffectSet::from_bits(EffectSet::SUSPEND), zero_b));
    t
}

/// The builtin words known to the checker, using `i64` as the native
/// integer type.
pub fn builtin_words() -> (t: Vec<WordEntry>)
    ensures
        is_builtin_table(t@),
{
    make_table()
}

} // verus!
