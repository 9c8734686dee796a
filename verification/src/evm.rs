use vstd::prelude::*;

use crate::builder::CircuitBuilder;
use crate::circuit::CompiledCircuit;
use crate::gate::Gate;
use crate::vars::{BoolVariable, CircuitVariable, Variable};

verus! {

/// The little-endian bit encoding of one byte, as field elements.
pub open spec fn byte_bits(b: u8) -> Seq<u64> {
    Seq::new(8, |i: int| ((b as u64) >> (i as u64)) & 1)
}

/// The byte a little-endian field-element bit string encodes.
pub open spec fn bits_byte(s: Seq<u64>) -> u8
    recommends
        s.len() == 8,
{
    (s[0] + s[1] * 2 + s[2] * 4 + s[3] * 8 + s[4] * 16 + s[5] * 32 + s[6] * 64 + s[7] * 128) as u8
}

/// Splits a byte into its eight field-element bits, little-endian; the unit
/// of the externally-verifiable byte encoding.
pub fn byte_to_field_bits(b: u8) -> (r: Vec<u64>)
    ensures
        r@ == byte_bits(b),
{
    let mut r: Vec<u64> = Vec::new();
    let mut i: usize = 0;
    while i < 8
        invariant
            0 <= i <= 8,
            r@ =~= byte_bits(b).take(i as int),
        decreases 8 - i,
    {
        r.push(((b as u64) >> (i as u64)) & 1);
        proof {
            assert(r@ =~= byte_bits(b).take(i as int + 1));
        }
        i = i + 1;
    }
    proof {
        assert(byte_bits(b).take(8) =~= byte_bits(b));
    }
    r
}

/// Reassembles a byte from eight field-element bits; yields nothing when a
/// purported bit is not `0` or `1`.
pub fn field_bits_to_byte(bits: &Vec<u64>) -> (r: Option<u8>)
    requires
        bits@.len() == 8,
    ensures
        match r {
            Some(v) => (forall|i: int| 0 <= i < 8 ==> bits@[i] <= 1) && v == bits_byte(bits@),
            None => exists|i: int| 0 <= i < 8 && bits@[i] > 1,
        },
{
    let mut i: usize = 0;
    while i < 8
        invariant
            0 <= i <= 8,
            bits@.len() == 8,
            forall|t: int| 0 <= t < i ==> bits@[t] <= 1,
        decreases 8 - i,
    {
        if bits[i] > 1 {
            return None;
        }
        i = i + 1;
    }
    let v = (bits[0] + bits[1] * 2 + bits[2] * 4 + bits[3] * 8 + bits[4] * 16 + bits[5] * 32
        + bits[6] * 64 + bits[7] * 128) as u8;
    Some(v)
}

/// Byte/bit round-trip: a byte split into field bits reassembles to itself.
pub proof fn lemma_byte_bits_roundtrip(b: u8)
    ensures
        bits_byte(byte_bits(b)) == b,
        forall|i: int| 0 <= i < 8 ==> byte_bits(b)[i] <= 1,
{
    let x = b as u64;
    assert forall|i: int| 0 <= i < 8 implies byte_bits(b)[i] <= 1 by {
        let iu = i as u64;
        assert((x >> iu) & 1 <= 1) by (bit_vector);
    }
    assert(((x >> 0u64) & 1) + ((x >> 1u64) & 1) * 2 + ((x >> 2u64) & 1) * 4 + ((x >> 3u64) & 1)
        * 8 + ((x >> 4u64) & 1) * 16 + ((x >> 5u64) & 1) * 32 + ((x >> 6u64) & 1) * 64 + ((x
        >> 7u64) & 1) * 128 == x) by (bit_vector)
        requires
            x < 256,
    ;
}

/// The gates the exclusive-or gadget appends for boolean wires `a`, `b`
/// when the next fresh wire is `k`: the arithmetic form `a + b - 2ab`.
pub open spec fn xor_gates(a: usize, b: usize, k: usize) -> Seq<Gate>
    recommends
        k + 4 <= usize::MAX,
{
    seq![
        Gate::Mul { a, b, out: k },
        Gate::Add { a, b, out: (k + 1) as usize },
        Gate::Sub { a: (k + 1) as usize, b: k, out: (k + 2) as usize },
        Gate::Sub { a: (k + 2) as usize, b: k, out: (k + 3) as usize },
    ]
}

impl CircuitBuilder {
    /// The exclusive-or of two boolean wires, as the arithmetic form
    /// `a + b - 2ab` over three fresh gates.
    pub fn xor(&mut self, a: BoolVariable, b: BoolVariable) -> (r: BoolVariable)
        requires
            old(self).wf(),
            old(self).defined().contains(a.0.0 as int),
            old(self).defined().contains(b.0.0 as int),
            old(self).num_wires + 4 <= usize::MAX,
        ensures
            final(self).wf(),
            r.0.0 == old(self).num_wires + 3,
            final(self).num_wires == old(self).num_wires + 4,
            final(self).gates@ == old(self).gates@ + xor_gates(a.0.0, b.0.0, old(self).num_wires),
            final(self).input_wires@ == old(self).input_wires@,
            final(self).output_wires@ == old(self).output_wires@,
            final(self).constants@ == old(self).constants@ + Seq::new(
                4,
                |i: int| Option::<u64>::None,
            ),
            final(self).defined() =~= old(self).defined().union(
                Set::new(|j: int| old(self).num_wires <= j < old(self).num_wires + 4),
            ),
    {
        let ghost k = old(self).num_wires;
        let m = self.mul(a.0, b.0);
        let s = self.add(a.0, b.0);
        let d1 = self.sub(s, m);
        let d2 = self.sub(d1, m);
        proof {
            assert(self.gates@ =~= old(self).gates@ + xor_gates(a.0.0, b.0.0, k));
            assert(self.constants@ =~= old(self).constants@ + Seq::new(
                4,
                |i: int| Option::<u64>::None,
            ));
            assert(self.defined() =~= old(self).defined().union(
                Set::new(|j: int| k <= j < k + 4),
            ));
        }
        BoolVariable(d2)
    }

    /// Declares the next eight public input wires as one byte of the
    /// externally-verifiable interface, little-endian, each wire constrained
    /// to hold a bit.
    pub fn evm_read(&mut self) -> (r: Vec<BoolVariable>)
        requires
            old(self).wf(),
            old(self).num_wires + 8 <= usize::MAX,
        ensures
            final(self).wf(),
            r@.len() == 8,
            forall|i: int|
                0 <= i < 8 ==> (#[trigger] r@[i]).0.0 == old(self).num_wires + i,
            forall|i: int|
                0 <= i < 8 ==> final(self).defined().contains((#[trigger] r@[i]).0.0 as int),
            final(self).num_wires == old(self).num_wires + 8,
            final(self).gates@ == old(self).gates@ + Seq::new(
                8,
                |i: int| Gate::AssertBool { a: (old(self).num_wires + i) as usize },
            ),
            final(self).input_wires@ == old(self).input_wires@ + Seq::new(
                8,
                |i: int| (old(self).num_wires + i) as usize,
            ),
            final(self).output_wires@ == old(self).output_wires@,
            final(self).constants@ == old(self).constants@ + Seq::new(
                8,
                |i: int| Option::<u64>::None,
            ),
            forall|k: int| old(self).defined().contains(k) ==> final(self).defined().contains(k),
    {
        let mut bits: Vec<BoolVariable> = Vec::new();
        let mut i: usize = 0;
        while i < 8
            invariant
                0 <= i <= 8,
                self.wf(),
                old(self).wf(),
                old(self).num_wires + 8 <= usize::MAX,
                bits@.len() == i,
                forall|t: int|
                    0 <= t < i ==> (#[trigger] bits@[t]).0.0 == old(self).num_wires + t,
                forall|k: int|
                    old(self).defined().contains(k) ==> self.defined().contains(k),
                self.num_wires == old(self).num_wires + i,
                self.gates@ == old(self).gates@ + Seq::new(
                    i as nat,
                    |t: int| Gate::AssertBool { a: (old(self).num_wires + t) as usize },
                ),
                self.input_wires@ == old(self).input_wires@ + Seq::new(
                    i as nat,
                    |t: int| (old(self).num_wires + t) as usize,
                ),
                self.output_wires@ == old(self).output_wires@,
                self.constants@ == old(self).constants@ + Seq::new(
                    i as nat,
                    |t: int| Option::<u64>::None,
                ),
                forall|t: int|
                    0 <= t < i ==> self.defined().contains((#[trigger] bits@[t]).0.0 as int),
            decreases 8 - i,
        {
            let bv: BoolVariable = self.read::<BoolVariable>();
            proof {
                bv.lemma_arity();
                assert(bv.repr()[0] == bv.0);
                assert(bv.0.0 == old(self).num_wires + i);
            }
            self.assert_bool(bv.0);
            bits.push(bv);
            proof {
                assert(self.gates@ =~= old(self).gates@ + Seq::new(
                    (i + 1) as nat,
                    |t: int| Gate::AssertBool { a: (old(self).num_wires + t) as usize },
                ));
                assert(self.input_wires@ =~= old(self).input_wires@ + Seq::new(
                    (i + 1) as nat,
                    |t: int| (old(self).num_wires + t) as usize,
                ));
                assert(self.constants@ =~= old(self).constants@ + Seq::new(
                    (i + 1) as nat,
                    |t: int| Option::<u64>::None,
                ));
            }
            i = i + 1;
        }
        bits
    }

    /// Declares one byte's bit wires as the next eight public outputs of the
    /// externally-verifiable interface.
    pub fn evm_write(&mut self, bits: &Vec<BoolVariable>)
        requires
            old(self).wf(),
            bits@.len() == 8,
            forall|i: int|
                0 <= i < 8 ==> old(self).defined().contains((#[trigger] bits@[i]).0.0 as int),
        ensures
            final(self).wf(),
            final(self).num_wires == old(self).num_wires,
            final(self).gates@ == old(self).gates@,
            final(self).constants@ == old(self).constants@,
            final(self).input_wires@ == old(self).input_wires@,
            final(self).output_wires@ == old(self).output_wires@ + Seq::new(
                8,
                |i: int| bits@[i].0.0,
            ),
    {
        let mut i: usize = 0;
        while i < 8
            invariant
                0 <= i <= 8,
                self.wf(),
                bits@.len() == 8,
                self.num_wires == old(self).num_wires,
                self.gates@ == old(self).gates@,
                self.constants@ == old(self).constants@,
                self.input_wires@ == old(self).input_wires@,
                self.output_wires@ == old(self).output_wires@ + Seq::new(
                    i as nat,
                    |t: int| bits@[t].0.0,
                ),
                forall|t: int|
                    0 <= t < 8 ==> self.defined().contains((#[trigger] bits@[t]).0.0 as int),
            decreases 8 - i,
        {
            let bv = bits[i];
            proof {
                bv.lemma_arity();
                assert(bv.repr()[0] == bv.0);
            }
            self.write::<BoolVariable>(bv);
            proof {
                assert(bv.repr().map_values(|x: Variable| x.0) =~= seq![bv.0.0]);
                assert(self.output_wires@ =~= old(self).output_wires@ + Seq::new(
                    (i + 1) as nat,
                    |t: int| bits@[t].0.0,
                ));
            }
            i = i + 1;
        }
    }
}

/// The boolean constraints on `n` consecutive wires starting at `base`.
pub open spec fn ab_gates(base: usize, n: nat) -> Seq<Gate> {
    Seq::new(n, |t: int| Gate::AssertBool { a: (base + t) as usize })
}

/// The exclusive-or blocks of the byte circuit for the first `i` bit
/// positions: block `t` combines input wires `t` and `8 + t` on four fresh
/// wires starting at `16 + 4t`.
pub open spec fn xor_block_prefix(i: int) -> Seq<Gate>
    decreases i,
{
    if i <= 0 {
        Seq::empty()
    } else {
        xor_block_prefix(i - 1) + xor_gates(
            (i - 1) as usize,
            (8 + i - 1) as usize,
            (16 + 4 * (i - 1)) as usize,
        )
    }
}

/// The full gate list of the byte-xor example circuit: boolean constraints
/// on the sixteen input bit wires, then one exclusive-or block per bit.
pub open spec fn byte_xor_gates() -> Seq<Gate> {
    ab_gates(0, 8) + ab_gates(8, 8) + xor_block_prefix(8)
}

/// Boolean constraints pass over already-boolean wires and bind nothing.
proof fn lemma_ab_eval(base: usize, n: nat, m: Map<int, u64>)
    requires
        base + n <= usize::MAX,
        forall|w: int|
            base <= w < base + n ==> #[trigger] m.dom().contains(w) && m[w] <= 1,
    ensures
        crate::gate::eval_gates(ab_gates(base, n), m) == Some(m),
    decreases n,
{
    if n > 0 {
        assert(ab_gates(base, n).drop_last() =~= ab_gates(base, (n - 1) as nat));
        assert(ab_gates(base, n).last() == Gate::AssertBool {
            a: (base + n - 1) as usize,
        });
        lemma_ab_eval(base, (n - 1) as nat, m);
        let w: int = base + n - 1;
        assert(base <= w < base + n);
        assert(m.dom().contains(w) && m[w] <= 1);
        assert(((base + n - 1) as usize) as int == w);
        assert(crate::gate::eval_gate(ab_gates(base, n).last(), m) == Some(m));
    }
}

/// The first `i` exclusive-or blocks evaluate over the sixteen input bit
/// wires of bytes `a` and `b`: they define exactly the block wires, keep the
/// inputs, and put bit `t` of `a ^ b` on wire `19 + 4t`.
proof fn lemma_xor_blocks_eval(a: u8, b: u8, i: int, m0: Map<int, u64>)
    requires
        0 <= i <= 8,
        m0.dom() =~= Set::new(|k: int| 0 <= k < 16),
        forall|t: int| 0 <= t < 8 ==> m0[t] == byte_bits(a)[t],
        forall|t: int| 0 <= t < 8 ==> m0[8 + t] == byte_bits(b)[t],
    ensures
        ({
            let r = crate::gate::eval_gates(xor_block_prefix(i), m0);
            r matches Some(m) && {
                &&& m.dom() =~= Set::new(|k: int| 0 <= k < 16 + 4 * i)
                &&& forall|t: int|
                    m0.dom().contains(t) ==> m.dom().contains(t) && m[t] == m0[t]
                &&& forall|t: int| 0 <= t < i ==> m[19 + 4 * t] == byte_bits(a ^ b)[t]
                &&& crate::gate::bounded(m)
            }
        }),
    decreases i,
{
    lemma_byte_bits_roundtrip(a);
    lemma_byte_bits_roundtrip(b);
    lemma_byte_bits_roundtrip(a ^ b);
    assert(crate::gate::bounded(m0)) by {
        assert forall|k: int| m0.dom().contains(k) implies m0[k] < crate::field::P by {
            if k < 8 {
                assert(m0[k] == byte_bits(a)[k]);
            } else {
                assert(m0[k] == byte_bits(b)[k - 8]);
            }
        }
    }
    if i == 0 {
        assert(crate::gate::eval_gates(xor_block_prefix(0), m0) == Some(m0)) by {
            assert(xor_block_prefix(0) =~= Seq::<Gate>::empty());
        }
    } else {
        lemma_xor_blocks_eval(a, b, i - 1, m0);
        let m1 = crate::gate::eval_gates(xor_block_prefix(i - 1), m0)->Some_0;
        let aw = (i - 1) as usize;
        let bw = (8 + i - 1) as usize;
        let kw = (16 + 4 * (i - 1)) as usize;
        crate::gate::lemma_eval_append(
            xor_block_prefix(i - 1),
            xor_gates(aw, bw, kw),
            m0,
        );
        assert(m1[aw as int] == byte_bits(a)[i - 1] && m1[bw as int] == byte_bits(b)[i - 1]);
        lemma_xor_eval(aw, bw, kw, m1);
        let m = crate::gate::eval_gates(xor_block_prefix(i), m0)->Some_0;
        let xa = a as u64;
        let xb = b as u64;
        let tu = (i - 1) as u64;
        assert((((xa ^ xb) >> tu) & 1) == (if ((xa >> tu) & 1) != ((xb >> tu) & 1) {
            1u64
        } else {
            0u64
        })) by (bit_vector)
            requires
                tu < 8u64,
        ;
        assert(((a ^ b) as u64) == (a as u64) ^ (b as u64)) by (bit_vector);
        assert(byte_bits(a ^ b)[i - 1] == (((xa ^ xb) >> tu) & 1));
        assert(m[19 + 4 * (i - 1)] == byte_bits(a ^ b)[i - 1]);
        assert(m.dom() =~= Set::new(|k: int| 0 <= k < 16 + 4 * i));
        assert forall|t: int| 0 <= t < i implies m[19 + 4 * t] == byte_bits(a ^ b)[t] by {
            if t < i - 1 {
                assert(m1.dom().contains(19 + 4 * t));
                assert(m[19 + 4 * t] == m1[19 + 4 * t]);
            }
        }
        assert(crate::gate::bounded(m)) by {
            assert forall|k: int| m.dom().contains(k) implies m[k] < crate::field::P by {
                if m1.dom().contains(k) {
                    assert(m[k] == m1[k]);
                } else {
                    assert(kw <= k < kw + 4);
                }
            }
        }
    }
}

/// Byte-xor circuit correctness: in a compiled circuit of the shape
/// `build_byte_xor_circuit` produces, evaluating on the bit encodings of any
/// two bytes succeeds and puts the bits of their exclusive-or, in order, on
/// the declared output wires.
pub proof fn lemma_byte_xor_circuit_eval(c: CompiledCircuit, a: u8, b: u8)
    requires
        c.gates@ == byte_xor_gates(),
        c.input_wires@ == Seq::new(16, |i: int| i as usize),
        c.output_wires@ == Seq::new(8, |i: int| (19 + 4 * i) as usize),
        c.num_wires == 48,
    ensures
        ({
            let r = c.eval(byte_bits(a) + byte_bits(b));
            r matches Some(m) && forall|i: int|
                0 <= i < 8 ==> m[#[trigger] c.output_wires@[i] as int] == byte_bits(a ^ b)[i]
        }),
{
    lemma_byte_bits_roundtrip(a);
    lemma_byte_bits_roundtrip(b);
    let iw = c.input_wires@;
    let vals = byte_bits(a) + byte_bits(b);
    let m0 = crate::circuit::input_map(iw, vals);
    assert(crate::builder::distinct_wires(iw));
    crate::circuit::lemma_input_map_props(iw, vals);
    assert(m0.dom() =~= Set::new(|k: int| 0 <= k < 16)) by {
        assert forall|k: int| crate::builder::wire_set(iw).contains(k) implies 0 <= k
            < 16 by {
            let idx = choose|idx: int| 0 <= idx < iw.len() && iw[idx] as int == k;
        }
        assert forall|k: int| 0 <= k < 16 implies crate::builder::wire_set(iw).contains(
            k,
        ) by {
            assert(iw[k] as int == k);
        }
    }
    assert forall|t: int| 0 <= t < 8 implies m0[t] == byte_bits(a)[t] by {
        assert(m0[iw[t] as int] == vals[t]);
    }
    assert forall|t: int| 0 <= t < 8 implies m0[8 + t] == byte_bits(b)[t] by {
        assert(m0[iw[8 + t] as int] == vals[8 + t]);
    }
    crate::gate::lemma_eval_append(ab_gates(0, 8) + ab_gates(8, 8), xor_block_prefix(8), m0);
    crate::gate::lemma_eval_append(ab_gates(0, 8), ab_gates(8, 8), m0);
    assert forall|w: int| 0 <= w < 8 implies #[trigger] m0.dom().contains(w) && m0[w] <= 1 by {
        assert(m0[w] == byte_bits(a)[w]);
    }
    assert forall|w: int| 8 <= w < 16 implies #[trigger] m0.dom().contains(w) && m0[w] <= 1 by {
        assert(m0[8 + (w - 8)] == byte_bits(b)[w - 8]);
        assert(m0[w] == byte_bits(b)[w - 8]);
    }
    lemma_ab_eval(0, 8, m0);
    lemma_ab_eval(8, 8, m0);
    lemma_xor_blocks_eval(a, b, 8, m0);
    let m = c.eval(vals)->Some_0;
    assert forall|i: int| 0 <= i < 8 implies m[#[trigger] c.output_wires@[i] as int]
        == byte_bits(a ^ b)[i] by {
        assert(c.output_wires@[i] == (19 + 4 * i) as usize);
        assert(m[19 + 4 * i] == byte_bits(a ^ b)[i]);
    }
}

/// Builds the externally-verifiable example circuit: reads two bytes over
/// the byte-oriented interface, combines them bitwise with exclusive-or, and
/// writes the resulting byte back.
pub fn build_byte_xor_circuit() -> (r: CompiledCircuit)
    ensures
        r.wf(),
        r.num_wires == 48,
        r.gates@ == byte_xor_gates(),
        r.input_wires@ == Seq::new(16, |i: int| i as usize),
        r.output_wires@ == Seq::new(8, |i: int| (19 + 4 * i) as usize),
        forall|a: u8, b: u8|
            (#[trigger] r.eval(byte_bits(a) + byte_bits(b))) matches Some(m) && (forall|i: int|
                0 <= i < 8 ==> m[19 + 4 * i] == byte_bits(a ^ b)[i]),
{
    let mut builder = CircuitBuilder::new();
    let a = builder.evm_read();
    let b = builder.evm_read();
    proof {
        assert(builder.gates@ =~= ab_gates(0, 8) + ab_gates(8, 8));
        assert(builder.input_wires@ =~= Seq::new(16, |i: int| i as usize));
    }
    let mut c: Vec<BoolVariable> = Vec::new();
    let mut i: usize = 0;
    while i < 8
        invariant
            0 <= i <= 8,
            builder.wf(),
            a@.len() == 8,
            b@.len() == 8,
            c@.len() == i,
            forall|t: int| 0 <= t < 8 ==> (#[trigger] a@[t]).0.0 == t,
            forall|t: int| 0 <= t < 8 ==> (#[trigger] b@[t]).0.0 == 8 + t,
            forall|t: int| 0 <= t < i ==> (#[trigger] c@[t]).0.0 == 19 + 4 * t,
            builder.num_wires == 16 + 4 * i,
            builder.gates@ == ab_gates(0, 8) + ab_gates(8, 8) + xor_block_prefix(i as int),
            builder.input_wires@ == Seq::new(16, |t: int| t as usize),
            builder.output_wires@.len() == 0,
            forall|t: int|
                0 <= t < 8 ==> builder.defined().contains((#[trigger] a@[t]).0.0 as int),
            forall|t: int|
                0 <= t < 8 ==> builder.defined().contains((#[trigger] b@[t]).0.0 as int),
            forall|t: int|
                0 <= t < i ==> builder.defined().contains((#[trigger] c@[t]).0.0 as int),
        decreases 8 - i,
    {
        let x = builder.xor(a[i], b[i]);
        c.push(x);
        proof {
            assert(xor_block_prefix(i as int + 1) == xor_block_prefix(i as int) + xor_gates(
                i,
                (8 + i) as usize,
                (16 + 4 * i) as usize,
            ));
            assert(builder.gates@ =~= ab_gates(0, 8) + ab_gates(8, 8) + xor_block_prefix(
                i as int + 1,
            ));
        }
        i = i + 1;
    }
    builder.evm_write(&c);
    proof {
        assert(builder.output_wires@ =~= Seq::new(8, |t: int| (19 + 4 * t) as usize));
        assert(builder.gates@ == byte_xor_gates());
    }
    let circuit = builder.build();
    proof {
        assert forall|x: u8, y: u8|
            (#[trigger] circuit.eval(byte_bits(x) + byte_bits(y))) matches Some(m) && (forall|
                t: int,
            |
                0 <= t < 8 ==> m[19 + 4 * t] == byte_bits(x ^ y)[t]) by {
            lemma_byte_xor_circuit_eval(circuit, x, y);
            let m = circuit.eval(byte_bits(x) + byte_bits(y))->Some_0;
            assert forall|t: int| 0 <= t < 8 implies m[19 + 4 * t] == byte_bits(x ^ y)[t] by {
                assert(circuit.output_wires@[t] == (19 + 4 * t) as usize);
                assert(m[circuit.output_wires@[t] as int] == byte_bits(x ^ y)[t]);
            }
        }
    }
    circuit
}

/// Exclusive-or correctness: for boolean wire values the gadget's output
/// wire evaluates to `1` exactly when the two values differ.
pub proof fn lemma_xor_eval(a: usize, b: usize, k: usize, m: Map<int, u64>)
    requires
        m.dom().contains(a as int),
        m.dom().contains(b as int),
        crate::gate::bounded(m),
        m[a as int] <= 1,
        m[b as int] <= 1,
        a < k,
        b < k,
        k + 4 <= usize::MAX,
        forall|j: int| k <= j < k + 4 ==> !m.dom().contains(j),
    ensures
        ({
            let x = m[a as int];
            let y = m[b as int];
            let r = crate::gate::eval_gates(xor_gates(a, b, k), m);
            r matches Some(m2) && {
                &&& m2[(k + 3) as int] == (if x != y {
                    1u64
                } else {
                    0u64
                })
                &&& forall|t: int|
                    m.dom().contains(t) ==> m2.dom().contains(t) && m2[t] == m[t]
                &&& m2.dom() =~= m.dom().union(Set::new(|j: int| k <= j < k + 4))
                &&& crate::gate::bounded(m2)
            }
        }),
{
    let x = m[a as int];
    let y = m[b as int];
    let gs = xor_gates(a, b, k);
    let g0 = gs[0];
    let g1 = gs[1];
    let g2 = gs[2];
    let g3 = gs[3];
    let s0 = Seq::<Gate>::empty();
    let s1 = s0.push(g0);
    let s2 = s1.push(g1);
    let s3 = s2.push(g2);
    let s4 = s3.push(g3);
    assert(gs =~= s4);
    crate::gate::lemma_eval_snoc(s0, g0, m);
    crate::gate::lemma_eval_snoc(s1, g1, m);
    crate::gate::lemma_eval_snoc(s2, g2, m);
    crate::gate::lemma_eval_snoc(s3, g3, m);
    let prod = crate::field::f_mul(x as int, y as int) as u64;
    assert(prod == (if x == 1 && y == 1 {
        1u64
    } else {
        0u64
    })) by {
        assert((0int * 0int) % (crate::field::P as int) == 0);
        assert((0int * 1int) % (crate::field::P as int) == 0);
        assert((1int * 0int) % (crate::field::P as int) == 0);
        assert((1int * 1int) % (crate::field::P as int) == 1);
    }
    let m1 = m.insert(k as int, prod);
    assert(crate::gate::eval_gate(g0, m) == Some(m1));
    assert(m1[a as int] == x && m1[b as int] == y);
    let s = crate::field::f_add(x as int, y as int) as u64;
    let m2 = m1.insert((k + 1) as int, s);
    assert(crate::gate::eval_gate(g1, m1) == Some(m2));
    assert(m2[(k + 1) as int] == s && m2[k as int] == prod);
    let d1 = crate::field::f_sub(s as int, prod as int) as u64;
    let m3 = m2.insert((k + 2) as int, d1);
    assert(crate::gate::eval_gate(g2, m2) == Some(m3));
    assert(m3[(k + 2) as int] == d1 && m3[k as int] == prod);
    let d2 = crate::field::f_sub(d1 as int, prod as int) as u64;
    let m4 = m3.insert((k + 3) as int, d2);
    assert(crate::gate::eval_gate(g3, m3) == Some(m4));
    assert(crate::gate::eval_gates(gs, m) == Some(m4));
    assert(d2 == (if x != y {
        1u64
    } else {
        0u64
    }));
    assert forall|t: int| m.dom().contains(t) implies m4.dom().contains(t) && m4[t] == m[t] by {
        assert(!(k <= t < k + 4));
    }
    assert(m4.dom() =~= m.dom().union(Set::new(|j: int| k <= j < k + 4)));
    assert forall|t: int| m4.dom().contains(t) implies m4[t] < crate::field::P by {
        if m.dom().contains(t) {
            assert(m4[t] == m[t]);
        } else {
            assert(k <= t < k + 4);
        }
    }
}

} // verus!
