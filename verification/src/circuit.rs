use vstd::prelude::*;

use crate::builder::{distinct_wires, wire_set, CircuitBuilder};
use crate::field::{field_add, field_inv, field_mul, field_neg, field_sub, P};
use crate::gate::{
    bounded, defined_after, eval_gate, eval_gates, gate_ok, gate_satisfied, lemma_eval_none_take,
    lemma_eval_props, lemma_eval_satisfies, lemma_take_props, split_map, wf_gates, Gate,
};
use crate::vars::{CircuitVariable, WitnessTable};

verus! {

/// How circuit construction and proving fail.
#[derive(Debug, Clone, Copy, PartialEq, Eq, Structural)]
pub enum CircuitError {
    /// The witness values cannot satisfy the compiled circuit's gates:
    /// division by the zero element, a value outside a decomposition's
    /// range, or a non-boolean value on a boolean-constrained wire.
    ConstraintUnsatisfied,
    /// Input or output data does not match the circuit's declared schema:
    /// a wrong field-value count or a non-canonical byte encoding.
    SerializationFailure,
}

/// The immutable, finalized constraint graph produced by `build`, with its
/// declared public input and output wire order.
pub struct CompiledCircuit {
    /// Wires of the graph; handles run from `0` to `num_wires - 1`.
    pub num_wires: usize,
    /// The gates, in construction order.
    pub gates: Vec<Gate>,
    /// The constant registry carried over from the builder.
    pub constants: Vec<Option<u64>>,
    /// Declared public input wires, in declaration order.
    pub input_wires: Vec<usize>,
    /// Declared public output wires, in declaration order.
    pub output_wires: Vec<usize>,
}

/// Ordered witness values for the declared public input wires.
#[derive(Debug)]
pub struct PublicInput {
    /// One canonical field element per declared input wire, in order.
    pub values: Vec<u64>,
}

/// Ordered witness values read off the declared public output wires.
#[derive(Debug)]
pub struct PublicOutput {
    /// One canonical field element per declared output wire, in order.
    pub values: Vec<u64>,
    /// Read cursor for typed reads.
    pub pos: usize,
}

impl PublicInput {
    /// All values are canonical field elements.
    pub open spec fn wf(self) -> bool {
        forall|i: int| 0 <= i < self.values@.len() ==> self.values@[i] < P
    }

    /// Appends the field encoding of one typed value to the input buffer.
    pub fn write<T: CircuitVariable>(&mut self, value: T::Value)
        requires
            old(self).wf(),
            old(self).values@.len() + T::arity() <= usize::MAX,
        ensures
            final(self).wf(),
            final(self).values@ == old(self).values@ + T::value_elems(value),
    {
        proof {
            T::lemma_value_elems(value);
        }
        let elems = T::encode_value(value);
        let mut i: usize = 0;
        while i < elems.len()
            invariant
                0 <= i <= elems@.len(),
                elems@ == T::value_elems(value),
                forall|j: int| 0 <= j < elems@.len() ==> elems@[j] < P,
                self.values@ == old(self).values@ + elems@.take(i as int),
                old(self).wf(),
            decreases elems@.len() - i,
        {
            self.values.push(elems[i]);
            proof {
                assert(self.values@ =~= old(self).values@ + elems@.take(i as int + 1));
            }
            i = i + 1;
        }
        proof {
            assert(elems@.take(elems@.len() as int) =~= elems@);
        }
    }
}

impl PublicOutput {
    /// Reads the next typed value off the output buffer, advancing the
    /// cursor by the type's arity.
    pub fn read<T: CircuitVariable>(&mut self) -> (r: T::Value)
        requires
            old(self).pos + T::arity() <= old(self).values@.len(),
        ensures
            final(self).values@ == old(self).values@,
            final(self).pos == old(self).pos + T::arity(),
            r == T::elems_value(
                old(self).values@.subrange(
                    old(self).pos as int,
                    old(self).pos + T::arity() as int,
                ),
            ),
    {
        let mut elems: Vec<u64> = Vec::new();
        let n = T::arity_exec();
        let len = self.values.len();
        let mut i: usize = 0;
        while i < n
            invariant
                0 <= i <= n,
                n == T::arity(),
                len == old(self).values@.len(),
                old(self).pos + n <= old(self).values@.len(),
                *self == *old(self),
                elems@ == old(self).values@.subrange(
                    old(self).pos as int,
                    old(self).pos + i as int,
                ),
            decreases n - i,
        {
            elems.push(self.values[self.pos + i]);
            proof {
                assert(elems@ =~= old(self).values@.subrange(
                    old(self).pos as int,
                    old(self).pos + i as int + 1,
                ));
            }
            i = i + 1;
        }
        self.pos = self.pos + n;
        T::decode_value(elems.as_slice())
    }
}

/// The initial partial witness: each declared input wire bound to its value.
pub open spec fn input_map(iw: Seq<usize>, vals: Seq<u64>) -> Map<int, u64>
    decreases iw.len(),
{
    if iw.len() == 0 || iw.len() != vals.len() {
        Map::empty()
    } else {
        input_map(iw.drop_last(), vals.drop_last()).insert(iw.last() as int, vals.last())
    }
}

/// The initial witness binds exactly the input wires, to their values.
pub proof fn lemma_input_map_props(iw: Seq<usize>, vals: Seq<u64>)
    requires
        iw.len() == vals.len(),
    ensures
        input_map(iw, vals).dom() =~= wire_set(iw),
        distinct_wires(iw) ==> forall|i: int|
            0 <= i < iw.len() ==> input_map(iw, vals)[#[trigger] iw[i] as int] == vals[i],
        (forall|i: int| 0 <= i < vals.len() ==> vals[i] < P) ==> bounded(input_map(iw, vals)),
    decreases iw.len(),
{
    if iw.len() == 0 {
        assert(input_map(iw, vals).dom() =~= wire_set(iw));
    } else {
        lemma_input_map_props(iw.drop_last(), vals.drop_last());
        let m = input_map(iw, vals);
        let mp = input_map(iw.drop_last(), vals.drop_last());
        assert forall|k: int| m.dom().contains(k) implies wire_set(iw).contains(k) by {
            if k == iw.last() as int {
                assert(iw[iw.len() - 1] as int == k);
            } else {
                let idx = choose|idx: int|
                    0 <= idx < iw.drop_last().len() && iw.drop_last()[idx] as int == k;
                assert(iw[idx] as int == k);
            }
        }
        assert forall|k: int| wire_set(iw).contains(k) implies m.dom().contains(k) by {
            let idx = choose|idx: int| 0 <= idx < iw.len() && iw[idx] as int == k;
            if idx < iw.len() - 1 {
                assert(iw.drop_last()[idx] as int == k);
            }
        }
        if distinct_wires(iw) {
            assert forall|i: int| 0 <= i < iw.len() implies m[#[trigger] iw[i] as int]
                == vals[i] by {
                if i < iw.len() - 1 {
                    assert(distinct_wires(iw.drop_last()));
                    assert(iw.drop_last()[i] == iw[i]);
                    assert(iw[i] != iw.last());
                }
            }
        }
    }
}

impl CircuitBuilder {
    /// Finalizes construction: the builder is consumed and the graph can no
    /// longer change.
    pub fn build(self) -> (r: CompiledCircuit)
        requires
            self.wf(),
        ensures
            r.wf(),
            r.num_wires == self.num_wires,
            r.gates@ == self.gates@,
            r.constants@ == self.constants@,
            r.input_wires@ == self.input_wires@,
            r.output_wires@ == self.output_wires@,
    {
        let c = CompiledCircuit {
            num_wires: self.num_wires,
            gates: self.gates,
            constants: self.constants,
            input_wires: self.input_wires,
            output_wires: self.output_wires,
        };
        proof {
            assert(c.defined() == self.defined());
            assert forall|k: int| c.defined().contains(k) implies 0 <= k < c.num_wires by {
                assert(self.defined().contains(k));
            }
            assert forall|w: int|
                0 <= w < c.constants@.len() implies ((#[trigger] c.constants@[w]) matches Some(x)
                ==> c.gates@.contains(Gate::Const { out: w as usize, val: x }) && x < P) by {
                assert(c.constants@[w] == self.constants@[w]);
            }
            assert forall|i: int|
                0 <= i < c.output_wires@.len() implies c.defined().contains(
                c.output_wires@[i] as int,
            ) by {
                assert(self.defined().contains(self.output_wires@[i] as int));
            }
        }
        c
    }
}

impl CompiledCircuit {
    /// The wires evaluation defines: declared inputs plus gate outputs.
    pub open spec fn defined(self) -> Set<int> {
        defined_after(self.gates@, wire_set(self.input_wires@))
    }

    /// Same shape of well-formedness the builder maintains.
    pub open spec fn wf(self) -> bool {
        &&& self.constants@.len() == self.num_wires
        &&& distinct_wires(self.input_wires@)
        &&& forall|i: int|
            0 <= i < self.input_wires@.len() ==> self.input_wires@[i] < self.num_wires
        &&& wf_gates(self.gates@, wire_set(self.input_wires@))
        &&& forall|k: int| self.defined().contains(k) ==> 0 <= k < self.num_wires
        &&& forall|w: int|
            0 <= w < self.constants@.len() ==> ((#[trigger] self.constants@[w]) matches Some(x)
                ==> self.gates@.contains(Gate::Const { out: w as usize, val: x }) && x < P)
        &&& forall|i: int|
            0 <= i < self.output_wires@.len() ==> self.defined().contains(
                self.output_wires@[i] as int,
            )
    }

    /// The reference semantics: evaluating the gates over the inputs.
    pub open spec fn eval(self, invals: Seq<u64>) -> Option<Map<int, u64>> {
        eval_gates(self.gates@, input_map(self.input_wires@, invals))
    }

    /// Every gate's constraint holds of a total witness assignment.
    pub open spec fn satisfied(self, w: Seq<u64>) -> bool {
        forall|i: int| 0 <= i < self.gates@.len() ==> gate_satisfied(#[trigger] self.gates@[i], w)
    }

    /// An empty input buffer for one proving session over this circuit.
    pub fn input(&self) -> (r: PublicInput)
        ensures
            r.wf(),
            r.values@ == Seq::<u64>::empty(),
    {
        PublicInput { values: Vec::new() }
    }
}

/// The total witness assignment a partial witness induces: defined wires
/// keep their value, all others hold zero.
pub open spec fn witness_seq(n: nat, m: Map<int, u64>) -> Seq<u64> {
    Seq::new(
        n,
        |k: int|
            if m.dom().contains(k) {
                m[k]
            } else {
                0u64
            },
    )
}

impl CompiledCircuit {
    /// Generates the full witness for one input assignment by running every
    /// gate of the reference semantics in order.
    ///
    /// Succeeds exactly when the input matches the declared arity and every
    /// gate's constraint is satisfiable; on success the table holds the
    /// reference evaluation of the circuit, every declared input wire holds
    /// its input value, and every registered constant wire holds its
    /// literal with no prior assignment.
    pub fn generate_witness(&self, input: &PublicInput) -> (r: Result<
        WitnessTable,
        CircuitError,
    >)
        requires
            self.wf(),
            input.wf(),
        ensures
            match r {
                Ok(w) => {
                    &&& input.values@.len() == self.input_wires@.len()
                    &&& self.eval(input.values@) is Some
                    &&& w.values@ == witness_seq(
                        self.num_wires as nat,
                        self.eval(input.values@)->Some_0,
                    )
                    &&& self.satisfied(w.values@)
                    &&& forall|i: int|
                        0 <= i < self.input_wires@.len() ==> w.values@[#[trigger] self.input_wires@[i] as int]
                            == input.values@[i]
                    &&& forall|c: int|
                        0 <= c < self.constants@.len() ==> ((#[trigger] self.constants@[c]) matches Some(
                        x) ==> w.values@[c] == x)
                },
                Err(e) => {
                    &&& (e == CircuitError::SerializationFailure <==> input.values@.len()
                        != self.input_wires@.len())
                    &&& (e == CircuitError::ConstraintUnsatisfied <==> (input.values@.len()
                        == self.input_wires@.len() && self.eval(input.values@) is None))
                },
            },
    {
        if input.values.len() != self.input_wires.len() {
            return Err(CircuitError::SerializationFailure);
        }
        let ghost m0 = input_map(self.input_wires@, input.values@);
        proof {
            lemma_input_map_props(self.input_wires@, input.values@);
        }
        let n = self.num_wires;
        let mut values: Vec<u64> = Vec::new();
        let mut z: usize = 0;
        while z < n
            invariant
                0 <= z <= n,
                values@.len() == z,
                forall|k: int| 0 <= k < z ==> values@[k] == 0u64,
            decreases n - z,
        {
            values.push(0);
            z = z + 1;
        }
        let mut i: usize = 0;
        while i < self.input_wires.len()
            invariant
                0 <= i <= self.input_wires@.len(),
                self.wf(),
                input.wf(),
                input.values@.len() == self.input_wires@.len(),
                values@.len() == self.num_wires,
                n == self.num_wires,
                values@ =~= witness_seq(
                    self.num_wires as nat,
                    input_map(
                        self.input_wires@.take(i as int),
                        input.values@.take(i as int),
                    ),
                ),
            decreases self.input_wires@.len() - i,
        {
            let w = self.input_wires[i];
            values.set(w, input.values[i]);
            proof {
                let iwt = self.input_wires@.take(i as int + 1);
                let vst = input.values@.take(i as int + 1);
                assert(iwt.drop_last() =~= self.input_wires@.take(i as int));
                assert(vst.drop_last() =~= input.values@.take(i as int));
                assert(iwt.last() == self.input_wires@[i as int]);
                assert(vst.last() == input.values@[i as int]);
                assert(values@ =~= witness_seq(
                    self.num_wires as nat,
                    input_map(iwt, vst),
                ));
            }
            i = i + 1;
        }
        proof {
            assert(self.input_wires@.take(self.input_wires@.len() as int) =~= self.input_wires@);
            assert(input.values@.take(input.values@.len() as int) =~= input.values@);
            assert(m0.dom() =~= wire_set(self.input_wires@));
            assert(wf_gates(self.gates@, m0.dom()));
            assert(bounded(m0));
        }
        let mut gi: usize = 0;
        while gi < self.gates.len()
            invariant
                0 <= gi <= self.gates@.len(),
                self.wf(),
                input.wf(),
                input.values@.len() == self.input_wires@.len(),
                values@.len() == self.num_wires,
                m0 == input_map(self.input_wires@, input.values@),
                m0.dom() =~= wire_set(self.input_wires@),
                wf_gates(self.gates@, m0.dom()),
                bounded(m0),
                eval_gates(self.gates@.take(gi as int), m0) is Some,
                values@ =~= witness_seq(
                    self.num_wires as nat,
                    eval_gates(self.gates@.take(gi as int), m0)->Some_0,
                ),
            decreases self.gates@.len() - gi,
        {
            let ghost pre = self.gates@.take(gi as int);
            let ghost mi = eval_gates(pre, m0)->Some_0;
            proof {
                lemma_take_props(self.gates@, m0.dom(), gi as int);
                lemma_take_props(self.gates@, m0.dom(), gi as int + 1);
                assert(self.gates@.take(gi as int + 1).drop_last() =~= pre);
                assert(self.gates@.take(gi as int + 1).last() == self.gates@[gi as int]);
                assert(gate_ok(self.gates@[gi as int], defined_after(pre, m0.dom())));
                lemma_eval_props(pre, m0);
                assert(mi.dom() =~= defined_after(pre, m0.dom()));
                assert(m0.dom() == wire_set(self.input_wires@));
                assert forall|k: int| mi.dom().contains(k) implies 0 <= k
                    < self.num_wires by {
                    assert(defined_after(pre, m0.dom()).contains(k));
                    assert(defined_after(self.gates@, m0.dom()).contains(k));
                    assert(defined_after(self.gates@, wire_set(self.input_wires@)).contains(k));
                    assert(self.defined().contains(k));
                }
                assert forall|k: int|
                    #[trigger] defined_after(
                        self.gates@.take(gi as int + 1),
                        m0.dom(),
                    ).contains(k) implies 0 <= k < self.num_wires by {
                    assert(defined_after(self.gates@, m0.dom()).contains(k));
                    assert(defined_after(self.gates@, wire_set(self.input_wires@)).contains(k));
                    assert(self.defined().contains(k));
                }
            }
            let g = self.gates[gi];
            let ghost step = eval_gate(g, mi);
            match g {
                Gate::Const { out, val } => {
                    proof {
                        assert(defined_after(
                            self.gates@.take(gi as int + 1),
                            m0.dom(),
                        ).contains(out as int));
                    }
                    values.set(out, val);
                    proof {
                        assert(values@ =~= witness_seq(
                            self.num_wires as nat,
                            mi.insert(out as int, val),
                        ));
                    }
                },
                Gate::Add { a, b, out } => {
                    proof {
                        assert(mi.dom().contains(a as int) && mi.dom().contains(b as int));
                        assert(defined_after(
                            self.gates@.take(gi as int + 1),
                            m0.dom(),
                        ).contains(out as int));
                    }
                    let x = values[a];
                    let y = values[b];
                    proof {
                        assert(x == mi[a as int] && y == mi[b as int]);
                    }
                    values.set(out, field_add(x, y));
                    proof {
                        assert(values@ =~= witness_seq(self.num_wires as nat, step->Some_0));
                    }
                },
                Gate::Sub { a, b, out } => {
                    proof {
                        assert(mi.dom().contains(a as int) && mi.dom().contains(b as int));
                        assert(defined_after(
                            self.gates@.take(gi as int + 1),
                            m0.dom(),
                        ).contains(out as int));
                    }
                    let x = values[a];
                    let y = values[b];
                    proof {
                        assert(x == mi[a as int] && y == mi[b as int]);
                    }
                    values.set(out, field_sub(x, y));
                    proof {
                        assert(values@ =~= witness_seq(self.num_wires as nat, step->Some_0));
                    }
                },
                Gate::Mul { a, b, out } => {
                    proof {
                        assert(mi.dom().contains(a as int) && mi.dom().contains(b as int));
                        assert(defined_after(
                            self.gates@.take(gi as int + 1),
                            m0.dom(),
                        ).contains(out as int));
                    }
                    let x = values[a];
                    let y = values[b];
                    proof {
                        assert(x == mi[a as int] && y == mi[b as int]);
                    }
                    values.set(out, field_mul(x, y));
                    proof {
                        assert(values@ =~= witness_seq(self.num_wires as nat, step->Some_0));
                    }
                },
                Gate::Neg { a, out } => {
                    proof {
                        assert(mi.dom().contains(a as int));
                        assert(defined_after(
                            self.gates@.take(gi as int + 1),
                            m0.dom(),
                        ).contains(out as int));
                    }
                    let x = values[a];
                    proof {
                        assert(x == mi[a as int]);
                    }
                    values.set(out, field_neg(x));
                    proof {
                        assert(values@ =~= witness_seq(self.num_wires as nat, step->Some_0));
                    }
                },
                Gate::Div { a, b, out } => {
                    proof {
                        assert(mi.dom().contains(a as int) && mi.dom().contains(b as int));
                        assert(defined_after(
                            self.gates@.take(gi as int + 1),
                            m0.dom(),
                        ).contains(out as int));
                    }
                    let x = values[a];
                    let y = values[b];
                    proof {
                        assert(x == mi[a as int] && y == mi[b as int]);
                    }
                    if y == 0 {
                        proof {
                            lemma_eval_none_take(self.gates@, m0, gi as int + 1);
                        }
                        return Err(CircuitError::ConstraintUnsatisfied);
                    }
                    values.set(out, field_mul(x, field_inv(y)));
                    proof {
                        assert(values@ =~= witness_seq(self.num_wires as nat, step->Some_0));
                    }
                },
                Gate::IsEqual { a, b, out } => {
                    proof {
                        assert(mi.dom().contains(a as int) && mi.dom().contains(b as int));
                        assert(defined_after(
                            self.gates@.take(gi as int + 1),
                            m0.dom(),
                        ).contains(out as int));
                    }
                    let x = values[a];
                    let y = values[b];
                    proof {
                        assert(x == mi[a as int] && y == mi[b as int]);
                    }
                    let e: u64 = if x == y {
                        1
                    } else {
                        0
                    };
                    values.set(out, e);
                    proof {
                        assert(values@ =~= witness_seq(self.num_wires as nat, step->Some_0));
                    }
                },
                Gate::AssertBool { a } => {
                    proof {
                        assert(mi.dom().contains(a as int));
                    }
                    let x = values[a];
                    proof {
                        assert(x == mi[a as int]);
                    }
                    if x > 1 {
                        proof {
                            lemma_eval_none_take(self.gates@, m0, gi as int + 1);
                        }
                        return Err(CircuitError::ConstraintUnsatisfied);
                    }
                    proof {
                        assert(values@ =~= witness_seq(self.num_wires as nat, step->Some_0));
                    }
                },
                Gate::Split { a, bit0, n: nb } => {
                    proof {
                        assert(mi.dom().contains(a as int));
                        assert(1 <= nb <= 64);
                    }
                    let x = values[a];
                    proof {
                        assert(x == mi[a as int]);
                    }
                    if nb < 64 {
                        if (x >> (nb as u64)) != 0 {
                            proof {
                                lemma_eval_none_take(self.gates@, m0, gi as int + 1);
                            }
                            return Err(CircuitError::ConstraintUnsatisfied);
                        }
                    }
                    proof {
                        assert(defined_after(
                            self.gates@.take(gi as int + 1),
                            m0.dom(),
                        ).contains(bit0 + nb - 1));
                        assert(bit0 + nb <= self.num_wires);
                    }
                    let mut j: usize = 0;
                    while j < nb
                        invariant
                            0 <= j <= nb,
                            1 <= nb <= 64,
                            x == mi[a as int],
                            values@.len() == self.num_wires,
                            bit0 + nb <= self.num_wires,
                            values@ =~= witness_seq(
                                self.num_wires as nat,
                                mi.union_prefer_right(split_map(x, bit0, j)),
                            ),
                        decreases nb - j,
                    {
                        let bitv = (x >> (j as u64)) & 1;
                        values.set(bit0 + j, bitv);
                        proof {
                            assert(mi.union_prefer_right(split_map(x, bit0, (j + 1) as usize))
                                =~= mi.union_prefer_right(split_map(x, bit0, j)).insert(
                                bit0 + j,
                                bitv,
                            ));
                            assert(values@ =~= witness_seq(
                                self.num_wires as nat,
                                mi.union_prefer_right(split_map(x, bit0, (j + 1) as usize)),
                            ));
                        }
                        j = j + 1;
                    }
                    proof {
                        assert(step == Some(
                            mi.union_prefer_right(split_map(x, bit0, nb)),
                        ));
                    }
                },
            }
            proof {
                assert(eval_gates(self.gates@.take(gi as int + 1), m0) == step);
                assert(step is Some);
                assert(values@ =~= witness_seq(self.num_wires as nat, step->Some_0));
            }
            gi = gi + 1;
        }
        proof {
            assert(self.gates@.take(self.gates@.len() as int) =~= self.gates@);
            let m = self.eval(input.values@)->Some_0;
            lemma_eval_props(self.gates@, m0);
            assert(m0.dom() == wire_set(self.input_wires@));
            assert(eval_gates(self.gates@, m0) == self.eval(input.values@));
            assert(values@ == witness_seq(self.num_wires as nat, m));
            assert forall|k: int| m.dom().contains(k) implies 0 <= k < values@.len() && values@[k]
                == m[k] by {
                assert(defined_after(self.gates@, m0.dom()).contains(k));
                assert(defined_after(self.gates@, wire_set(self.input_wires@)).contains(k));
                assert(self.defined().contains(k));
            }
            lemma_eval_satisfies(self.gates@, m0, values@);
            assert forall|i2: int| 0 <= i2 < self.input_wires@.len() implies values@[#[trigger] self.input_wires@[i2] as int]
                == input.values@[i2] by {
                assert(m0.dom().contains(self.input_wires@[i2] as int));
                assert(m[self.input_wires@[i2] as int] == m0[self.input_wires@[i2] as int]);
            }
            assert forall|c: int|
                0 <= c < self.constants@.len() implies ((#[trigger] self.constants@[c]) matches Some(
            x) ==> values@[c] == x) by {
                if self.constants@[c] is Some {
                    let x = self.constants@[c]->0;
                    assert(self.gates@.contains(Gate::Const { out: c as usize, val: x }));
                    let idx = choose|idx: int|
                        0 <= idx < self.gates@.len() && self.gates@[idx] == (Gate::Const {
                            out: c as usize,
                            val: x,
                        });
                    assert(gate_satisfied(self.gates@[idx], values@));
                }
            }
        }
        Ok(WitnessTable { values })
    }
}

} // verus!
