use vstd::prelude::*;

use crate::builder::wire_set;
use crate::circuit::{witness_seq, CircuitError, CompiledCircuit, PublicInput, PublicOutput};
use crate::codec::{bytes_values, decode_values, encode_values};
use crate::field::{field_add, field_inv, field_mul, field_neg, field_sub, P};
use crate::gate::{
    bounded, defined_after, gate_ok, gate_satisfied, lemma_eval_props, lemma_take_props, Gate,
};

verus! {

/// The proof artifact: an opaque byte string bound to one compiled circuit
/// and one public input.
#[derive(Debug)]
pub struct Proof {
    /// The canonical byte encoding of the full witness assignment.
    pub bytes: Vec<u8>,
}

/// What it means for a proof to pass verification against a circuit, an
/// input assignment, and claimed outputs: the bytes decode to a canonical
/// total witness of the right size that satisfies every gate constraint,
/// binds each declared input wire to its input value, and shows each claimed
/// output on its declared output wire.
pub open spec fn verifies(
    c: CompiledCircuit,
    pbytes: Seq<u8>,
    invals: Seq<u64>,
    outvals: Seq<u64>,
) -> bool {
    match bytes_values(pbytes, c.num_wires as nat) {
        Some(w) => {
            &&& invals.len() == c.input_wires@.len()
            &&& forall|i: int|
                0 <= i < c.input_wires@.len() ==> w[#[trigger] c.input_wires@[i] as int]
                    == invals[i]
            &&& c.satisfied(w)
            &&& outvals.len() == c.output_wires@.len()
            &&& forall|i: int|
                0 <= i < c.output_wires@.len() ==> outvals[i] == w[#[trigger] c.output_wires@[i] as int]
        },
        None => false,
    }
}

impl CompiledCircuit {
    /// Proves one input assignment: generates the full witness by the
    /// reference semantics, extracts the declared outputs, and emits the
    /// proof artifact.
    ///
    /// Succeeds exactly when the input matches the declared arity and the
    /// witness satisfies every gate; the outputs equal the reference
    /// evaluation of the circuit on the inputs, and the returned proof
    /// passes `verify` against this circuit, this input, and these outputs.
    pub fn prove(&self, input: &PublicInput) -> (r: Result<(Proof, PublicOutput), CircuitError>)
        requires
            self.wf(),
            input.wf(),
        ensures
            match r {
                Ok((proof, output)) => {
                    &&& input.values@.len() == self.input_wires@.len()
                    &&& self.eval(input.values@) is Some
                    &&& output.values@.len() == self.output_wires@.len()
                    &&& output.pos == 0
                    &&& forall|i: int|
                        0 <= i < self.output_wires@.len() ==> output.values@[i] == witness_seq(
                            self.num_wires as nat,
                            self.eval(input.values@)->Some_0,
                        )[#[trigger] self.output_wires@[i] as int]
                    &&& verifies(*self, proof.bytes@, input.values@, output.values@)
                },
                Err(e) => {
                    &&& (e == CircuitError::SerializationFailure <==> input.values@.len()
                        != self.input_wires@.len())
                    &&& (e == CircuitError::ConstraintUnsatisfied <==> (input.values@.len()
                        == self.input_wires@.len() && self.eval(input.values@) is None))
                },
            },
    {
        let w = match self.generate_witness(input) {
            Ok(w) => w,
            Err(e) => {
                return Err(e);
            },
        };
        let mut outs: Vec<u64> = Vec::new();
        let mut i: usize = 0;
        while i < self.output_wires.len()
            invariant
                0 <= i <= self.output_wires@.len(),
                self.wf(),
                w.values@.len() == self.num_wires,
                outs@.len() == i,
                forall|t: int| 0 <= t < i ==> outs@[t] == w.values@[#[trigger] self.output_wires@[t] as int],
            decreases self.output_wires@.len() - i,
        {
            let ow = self.output_wires[i];
            proof {
                assert(self.defined().contains(self.output_wires@[i as int] as int));
            }
            outs.push(w.values[ow]);
            i = i + 1;
        }
        let bytes = encode_values(&w.values);
        proof {
            let m = self.eval(input.values@)->Some_0;
            lemma_input_map_bound(*self, input);
            assert forall|k: int| 0 <= k < w.values@.len() implies w.values@[k] < P by {
                if m.dom().contains(k) {
                    assert(w.values@[k] == m[k]);
                } else {
                    assert(w.values@[k] == 0);
                }
            }
            crate::codec::lemma_values_roundtrip(w.values@);
            assert(bytes_values(bytes@, self.num_wires as nat) == Some(w.values@));
        }
        Ok((Proof { bytes }, PublicOutput { values: outs, pos: 0 }))
    }

    /// Verifies a proof against this circuit, an input assignment, and
    /// claimed outputs, by re-checking every gate constraint on the decoded
    /// witness. Returns exactly whether the proof verifies.
    pub fn verify(&self, proof: &Proof, input: &PublicInput, output: &PublicOutput) -> (r: bool)
        requires
            self.wf(),
        ensures
            r == verifies(*self, proof.bytes@, input.values@, output.values@),
    {
        let blen = proof.bytes.len();
        if self.num_wires > usize::MAX / 8 {
            proof {
                assert(blen == proof.bytes@.len());
                assert(self.num_wires * 8 > usize::MAX);
                assert(proof.bytes@.len() != self.num_wires as nat * 8);
            }
            return false;
        }
        let wv = match decode_values(&proof.bytes, self.num_wires) {
            Some(wv) => wv,
            None => {
                return false;
            },
        };
        proof {
            assert(bytes_values(proof.bytes@, self.num_wires as nat) == Some(wv@));
            assert forall|k: int| 0 <= k < wv@.len() implies #[trigger] wv@[k] < P by {
                assert(wv@[k] == le_bytes_at(proof.bytes@, k));
            }
        }
        if input.values.len() != self.input_wires.len() {
            return false;
        }
        if output.values.len() != self.output_wires.len() {
            return false;
        }
        let mut i: usize = 0;
        while i < self.input_wires.len()
            invariant
                0 <= i <= self.input_wires@.len(),
                self.wf(),
                wv@.len() == self.num_wires,
                bytes_values(proof.bytes@, self.num_wires as nat) == Some(wv@),
                input.values@.len() == self.input_wires@.len(),
                output.values@.len() == self.output_wires@.len(),
                forall|t: int|
                    0 <= t < i ==> wv@[#[trigger] self.input_wires@[t] as int]
                        == input.values@[t],
            decreases self.input_wires@.len() - i,
        {
            let iw = self.input_wires[i];
            if wv[iw] != input.values[i] {
                proof {
                    assert(wv@[self.input_wires@[i as int] as int] != input.values@[i as int]);
                }
                return false;
            }
            i = i + 1;
        }
        let mut gi: usize = 0;
        while gi < self.gates.len()
            invariant
                0 <= gi <= self.gates@.len(),
                self.wf(),
                wv@.len() == self.num_wires,
                bytes_values(proof.bytes@, self.num_wires as nat) == Some(wv@),
                input.values@.len() == self.input_wires@.len(),
                output.values@.len() == self.output_wires@.len(),
                forall|t: int|
                    0 <= t < self.input_wires@.len() ==> wv@[#[trigger] self.input_wires@[t] as int]
                        == input.values@[t],
                forall|k: int| 0 <= k < wv@.len() ==> #[trigger] wv@[k] < P,
                forall|t: int| 0 <= t < gi ==> gate_satisfied(#[trigger] self.gates@[t], wv@),
            decreases self.gates@.len() - gi,
        {
            proof {
                lemma_take_props(self.gates@, wire_set(self.input_wires@), gi as int);
                lemma_take_props(self.gates@, wire_set(self.input_wires@), gi as int + 1);
                assert(self.gates@.take(gi as int + 1).drop_last() =~= self.gates@.take(
                    gi as int,
                ));
                assert(self.gates@.take(gi as int + 1).last() == self.gates@[gi as int]);
                assert(gate_ok(
                    self.gates@[gi as int],
                    defined_after(self.gates@.take(gi as int), wire_set(self.input_wires@)),
                ));
                assert forall|k: int|
                    #[trigger] defined_after(
                        self.gates@.take(gi as int),
                        wire_set(self.input_wires@),
                    ).contains(k) implies 0 <= k < self.num_wires by {
                    assert(self.defined().contains(k));
                }
                assert forall|k: int|
                    #[trigger] defined_after(
                        self.gates@.take(gi as int + 1),
                        wire_set(self.input_wires@),
                    ).contains(k) implies 0 <= k < self.num_wires by {
                    assert(self.defined().contains(k));
                }
            }
            let g = self.gates[gi];
            let ok: bool = match g {
                Gate::Const { out, val } => {
                    proof {
                        out_in_range(*self, gi as int, out);
                    }
                    wv[out] == val
                },
                Gate::Add { a, b, out } => {
                    proof {
                        out_in_range(*self, gi as int, out);
                    }
                    wv[out] == field_add(wv[a], wv[b])
                },
                Gate::Sub { a, b, out } => {
                    proof {
                        out_in_range(*self, gi as int, out);
                    }
                    wv[out] == field_sub(wv[a], wv[b])
                },
                Gate::Mul { a, b, out } => {
                    proof {
                        out_in_range(*self, gi as int, out);
                    }
                    wv[out] == field_mul(wv[a], wv[b])
                },
                Gate::Neg { a, out } => {
                    proof {
                        out_in_range(*self, gi as int, out);
                    }
                    wv[out] == field_neg(wv[a])
                },
                Gate::Div { a, b, out } => {
                    proof {
                        out_in_range(*self, gi as int, out);
                    }
                    if wv[b] == 0 {
                        false
                    } else {
                        wv[out] == field_mul(wv[a], field_inv(wv[b]))
                    }
                },
                Gate::IsEqual { a, b, out } => {
                    proof {
                        out_in_range(*self, gi as int, out);
                    }
                    let e: u64 = if wv[a] == wv[b] {
                        1
                    } else {
                        0
                    };
                    wv[out] == e
                },
                Gate::AssertBool { a } => wv[a] <= 1,
                Gate::Split { a, bit0, n: nb } => {
                    proof {
                        assert(defined_after(
                            self.gates@.take(gi as int + 1),
                            wire_set(self.input_wires@),
                        ).contains(bit0 + nb - 1));
                        assert(bit0 + nb <= self.num_wires);
                    }
                    let x = wv[a];
                    if nb < 64 && (x >> (nb as u64)) != 0 {
                        false
                    } else {
                        let mut j: usize = 0;
                        let mut bits_ok = true;
                        while j < nb
                            invariant
                                0 <= j <= nb,
                                1 <= nb <= 64,
                                x == wv@[a as int],
                                wv@.len() == self.num_wires,
                                bit0 + nb <= self.num_wires,
                                bits_ok == (forall|t: int|
                                    0 <= t < j ==> #[trigger] wv@[bit0 + t] == crate::gate::bit_at(
                                        x,
                                        t as u64,
                                    )),
                            decreases nb - j,
                        {
                            if wv[bit0 + j] != (x >> (j as u64)) & 1 {
                                bits_ok = false;
                            }
                            proof {
                                if wv@[bit0 + j as int] == crate::gate::bit_at(x, j as u64) {
                                } else {
                                }
                            }
                            j = j + 1;
                        }
                        bits_ok
                    }
                },
            };
            if !ok {
                proof {
                    assert(!gate_satisfied(self.gates@[gi as int], wv@));
                }
                return false;
            }
            proof {
                assert(gate_satisfied(self.gates@[gi as int], wv@));
            }
            gi = gi + 1;
        }
        proof {
            assert(self.satisfied(wv@));
        }
        let mut oi: usize = 0;
        while oi < self.output_wires.len()
            invariant
                0 <= oi <= self.output_wires@.len(),
                self.wf(),
                wv@.len() == self.num_wires,
                bytes_values(proof.bytes@, self.num_wires as nat) == Some(wv@),
                input.values@.len() == self.input_wires@.len(),
                output.values@.len() == self.output_wires@.len(),
                forall|t: int|
                    0 <= t < self.input_wires@.len() ==> wv@[#[trigger] self.input_wires@[t] as int]
                        == input.values@[t],
                self.satisfied(wv@),
                forall|t: int|
                    0 <= t < oi ==> output.values@[t] == wv@[#[trigger] self.output_wires@[t] as int],
            decreases self.output_wires@.len() - oi,
        {
            let ow = self.output_wires[oi];
            proof {
                assert(self.defined().contains(self.output_wires@[oi as int] as int));
            }
            if output.values[oi] != wv[ow] {
                return false;
            }
            oi = oi + 1;
        }
        true
    }
}

/// The value a decoded witness holds at index `k`.
spec fn le_bytes_at(bs: Seq<u8>, k: int) -> u64 {
    crate::codec::le_bytes_u64(bs.subrange(k * 8, k * 8 + 8))
}

/// A gate output wire lies inside the circuit's wire range.
proof fn out_in_range(c: CompiledCircuit, gi: int, out: usize)
    requires
        c.wf(),
        0 <= gi < c.gates@.len(),
        crate::gate::gate_outs(c.gates@[gi]).contains(out as int),
    ensures
        0 <= out < c.num_wires,
{
    lemma_take_props(c.gates@, wire_set(c.input_wires@), gi + 1);
    assert(c.gates@.take(gi + 1).drop_last() =~= c.gates@.take(gi));
    assert(c.gates@.take(gi + 1).last() == c.gates@[gi]);
    assert(defined_after(c.gates@.take(gi + 1), wire_set(c.input_wires@)).contains(out as int));
    assert(defined_after(c.gates@, wire_set(c.input_wires@)).contains(out as int));
    assert(c.defined().contains(out as int));
}

/// All values of a generated witness are canonical.
proof fn lemma_input_map_bound(c: CompiledCircuit, input: &PublicInput)
    requires
        c.wf(),
        input.wf(),
        input.values@.len() == c.input_wires@.len(),
        c.eval(input.values@) is Some,
    ensures
        bounded(c.eval(input.values@)->Some_0),
        forall|k: int|
            #[trigger] c.eval(input.values@)->Some_0.dom().contains(k) ==> 0 <= k < c.num_wires,
{
    let m0 = crate::circuit::input_map(c.input_wires@, input.values@);
    crate::circuit::lemma_input_map_props(c.input_wires@, input.values@);
    assert(m0.dom() == wire_set(c.input_wires@));
    lemma_eval_props(c.gates@, m0);
    let m = c.eval(input.values@)->Some_0;
    assert forall|k: int| #[trigger] m.dom().contains(k) implies 0 <= k < c.num_wires by {
        assert(defined_after(c.gates@, m0.dom()).contains(k));
        assert(defined_after(c.gates@, wire_set(c.input_wires@)).contains(k));
        assert(c.defined().contains(k));
    }
}

/// A prover that generates proofs locally: synchronous and in-process, it
/// invokes the reference witness generation and proof routine directly.
#[derive(Debug, Clone)]
pub struct LocalProver;

impl LocalProver {
    /// Creates the local prover.
    pub fn new() -> (r: LocalProver) {
        LocalProver {  }
    }

    /// Turns a compiled circuit plus a public input into a proof and the
    /// derived public outputs; the proof passes `verify` against the same
    /// circuit and input, and the outputs match the declared output wire
    /// order of the reference evaluation.
    pub fn prove(&self, circuit: &CompiledCircuit, input: &PublicInput) -> (r: Result<
        (Proof, PublicOutput),
        CircuitError,
    >)
        requires
            circuit.wf(),
            input.wf(),
        ensures
            match r {
                Ok((proof, output)) => {
                    &&& input.values@.len() == circuit.input_wires@.len()
                    &&& circuit.eval(input.values@) is Some
                    &&& output.values@.len() == circuit.output_wires@.len()
                    &&& output.pos == 0
                    &&& forall|i: int|
                        0 <= i < circuit.output_wires@.len() ==> output.values@[i] == witness_seq(
                            circuit.num_wires as nat,
                            circuit.eval(input.values@)->Some_0,
                        )[#[trigger] circuit.output_wires@[i] as int]
                    &&& verifies(*circuit, proof.bytes@, input.values@, output.values@)
                },
                Err(e) => {
                    &&& (e == CircuitError::SerializationFailure <==> input.values@.len()
                        != circuit.input_wires@.len())
                    &&& (e == CircuitError::ConstraintUnsatisfied <==> (input.values@.len()
                        == circuit.input_wires@.len() && circuit.eval(input.values@) is None))
                },
            },
    {
        circuit.prove(input)
    }
}

} // verus!
