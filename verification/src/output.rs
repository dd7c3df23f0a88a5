use vstd::prelude::*;

use crate::parse::dec_digits;
use crate::types::WordSig;

verus! {

/// A byte sink the checker writes its trace to.
pub trait Output {
    /// Everything written to the sink so far.
    spec fn written(&self) -> Seq<u8>;

    /// Appends `bytes` to the sink.
    fn write(&mut self, bytes: &[u8])
        ensures
            final(self).written() == old(self).written() + bytes@,
    ;
}

impl Output for Vec<u8> {
    open spec fn written(&self) -> Seq<u8> {
        self@
    }

    fn write(&mut self, bytes: &[u8]) {
        let ghost start = self@;
        let mut i: usize = 0;
        while i < bytes.len()
            invariant
                i <= bytes@.len(),
                self@ == start + bytes@.subrange(0, i as int),
            decreases bytes@.len() - i,
        {
            self.push(bytes[i]);
            i += 1;
            assert(self@ =~= start + bytes@.subrange(0, i as int));
        }
        assert(bytes@.subrange(0, i as int) =~= bytes@);
    }
}

/// `parts` joined by single spaces.
pub open spec fn spaced(parts: Seq<Seq<u8>>) -> Seq<u8>
    decreases parts.len(),
{
    if parts.len() == 0 {
        Seq::empty()
    } else if parts.len() == 1 {
        parts[0]
    } else {
        spaced(parts.drop_last()) + seq![32u8] + parts.last()
    }
}

/// How a signature is printed: `( a b -- c )`, or `( a b -- )` with no outputs.
pub open spec fn sig_text(ins: Seq<Seq<u8>>, outs: Seq<Seq<u8>>) -> Seq<u8> {
    seq![40u8, 32u8] + spaced(ins) + seq![32u8, 45u8, 45u8] + (if outs.len() > 0 {
        seq![32u8]
    } else {
        Seq::empty()
    }) + spaced(outs) + seq![32u8, 41u8]
}

pub proof fn lemma_spaced_step(parts: Seq<Seq<u8>>, i: int)
    requires
        0 <= i < parts.len(),
    ensures
        spaced(parts.subrange(0, i + 1)) == spaced(parts.subrange(0, i)) + (if i == 0 {
            Seq::<u8>::empty()
        } else {
            seq![32u8]
        }) + parts[i],
{
    let next = parts.subrange(0, i + 1);
    assert(next.drop_last() =~= parts.subrange(0, i));
    if i == 0 {
        assert(spaced(parts.subrange(0, 0)) =~= Seq::<u8>::empty());
        assert(Seq::<u8>::empty() + Seq::<u8>::empty() + parts[0] =~= parts[0]);
    }
}

/// Writes the atoms of `atoms` separated by single spaces.
fn write_spaced<O: Output>(out: &mut O, atoms: &Vec<crate::types::TypeAtom>)
    ensures
        final(out).written() == old(out).written() + spaced(crate::types::atoms_view(atoms@)),
{
    let ghost start = out.written();
    let ghost parts = crate::types::atoms_view(atoms@);
    let mut i: usize = 0;
    while i < atoms.len()
        invariant
            i <= atoms@.len(),
            parts == crate::types::atoms_view(atoms@),
            out.written() == start + spaced(parts.subrange(0, i as int)),
        decreases atoms@.len() - i,
    {
        if i != 0 {
            let sp: [u8; 1] = [32u8];
            out.write(&sp);
        }
        let bytes = atoms[i].to_vec();
        out.write(bytes.as_slice());
        proof {
            lemma_spaced_step(parts, i as int);
            assert(parts[i as int] == atoms@[i as int]@);
        }
        i += 1;
    }
    assert(parts.subrange(0, i as int) =~= parts);
}

/// Writes `sig` as `( inputs -- outputs )`.
pub fn write_sig<O: Output>(out: &mut O, sig: &WordSig)
    ensures
        final(out).written() == old(out).written() + sig_text(sig.ins(), sig.outs()),
{
    let ghost start = out.written();
    let open: [u8; 2] = [40u8, 32u8];
    out.write(&open);
    write_spaced(out, &sig.inputs);
    let dashes: [u8; 3] = [32u8, 45u8, 45u8];
    out.write(&dashes);
    if sig.outputs.len() > 0 {
        let sp: [u8; 1] = [32u8];
        out.write(&sp);
    }
    write_spaced(out, &sig.outputs);
    let close: [u8; 2] = [32u8, 41u8];
    out.write(&close);
    assert(out.written() =~= start + sig_text(sig.ins(), sig.outs()));
}

/// Writes `v` in decimal.
pub fn write_u64_dec<O: Output>(out: &mut O, v: u64)
    ensures
        final(out).written() == old(out).written() + dec_digits(v as nat),
    decreases v,
{
    let ghost start = out.written();
    if v >= 10 {
        write_u64_dec(out, v / 10);
    }
    let d: [u8; 1] = [(48 + v % 10) as u8];
    out.write(&d);
    if v < 10 {
        assert(out.written() =~= start + dec_digits(v as nat));
    } else {
        assert(out.written() =~= start + dec_digits(v as nat));
    }
}

/// The lowercase hexadecimal digit for `d < 16`.
pub open spec fn hex_char(d: nat) -> u8 {
    if d < 10 { (48 + d) as u8 } else { (97 + d - 10) as u8 }
}

/// Lowercase hexadecimal spelling of `n`, most significant digit first.
pub open spec fn hex_digits(n: nat) -> Seq<u8>
    decreases n,
{
    if n < 16 {
        seq![hex_char(n)]
    } else {
        hex_digits(n / 16).push(hex_char(n % 16))
    }
}

/// Writes `v` in lowercase hexadecimal, without a prefix.
pub fn write_u64_hex<O: Output>(out: &mut O, v: u64)
    ensures
        final(out).written() == old(out).written() + hex_digits(v as nat),
    decreases v,
{
    let ghost start = out.written();
    if v >= 16 {
        write_u64_hex(out, v / 16);
    }
    let d = v % 16;
    let c: u8 = if d < 10 { (48 + d) as u8 } else { (97 + d - 10) as u8 };
    let buf: [u8; 1] = [c];
    out.write(&buf);
    assert(out.written() =~= start + hex_digits(v as nat));
}

} // verus!
