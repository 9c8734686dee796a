use vstd::prelude::*;

use crate::builder::CircuitBuilder;
use crate::field::P;
use crate::gate::Gate;

verus! {

/// A variable in the circuit: a handle to one wire of the constraint graph.
/// It represents a field element in `[0, P)`; equality is handle equality.
#[derive(Clone, Copy)]
pub struct Variable(pub usize);

/// A variable whose witness value is constrained to `{0, 1}`. Built from
/// `Variable` through the `CircuitVariable` contract, not a distinct primitive.
#[derive(Clone, Copy)]
pub struct BoolVariable(pub Variable);

/// A witness assignment table, keyed by wire handle.
#[derive(Debug)]
pub struct WitnessTable {
    /// `values[w]` is the field element assigned to wire `w`.
    pub values: Vec<u64>,
}

/// `s` updated so that the wires of `vars` hold `elems`, in order; a later
/// entry wins over an earlier one.
pub open spec fn update_wires(s: Seq<u64>, vars: Seq<Variable>, elems: Seq<u64>) -> Seq<u64>
    decreases vars.len(),
{
    if vars.len() == 0 || vars.len() != elems.len() {
        s
    } else {
        update_wires(s, vars.drop_last(), elems.drop_last()).update(
            vars.last().0 as int,
            elems.last(),
        )
    }
}

/// The capability every typed circuit value satisfies: it flattens to a
/// fixed-size ordered sequence of `Variable`s, rebuilds losslessly from that
/// flat form, allocates through a builder, and reads and writes its concrete
/// value in a witness table.
pub trait CircuitVariable: Sized {
    /// The concrete value type this variable carries.
    type Value;

    /// The fixed number of field wires of this type.
    spec fn arity() -> nat;

    /// The flat, order-significant wire representation.
    spec fn repr(&self) -> Seq<Variable>;

    /// Whether a concrete value is representable by this type.
    spec fn value_ok(v: Self::Value) -> bool;

    /// The canonical field encoding of a concrete value.
    spec fn value_elems(v: Self::Value) -> Seq<u64>;

    /// The concrete value read back from a field encoding.
    spec fn elems_value(s: Seq<u64>) -> Self::Value;

    /// The flat representation has exactly `arity()` wires.
    proof fn lemma_arity(&self)
        ensures
            self.repr().len() == Self::arity(),
    ;

    /// The flat representation determines the variable: flatten/reconstruct
    /// loses nothing.
    proof fn lemma_repr_inj(a: &Self, b: &Self)
        requires
            a.repr() == b.repr(),
        ensures
            *a == *b,
    ;

    /// The field encoding has `arity()` canonical elements and decodes back
    /// to the value it encodes.
    proof fn lemma_value_elems(v: Self::Value)
        ensures
            Self::value_elems(v).len() == Self::arity(),
            forall|i: int| 0 <= i < Self::value_elems(v).len() ==> Self::value_elems(v)[i] < P,
            Self::value_ok(v) ==> Self::elems_value(Self::value_elems(v)) == v,
    ;

    /// The fixed number of field wires of this type, as a runtime value.
    fn arity_exec() -> (r: usize)
        ensures
            r == Self::arity(),
    ;

    /// Computes the canonical field encoding of a concrete value.
    fn encode_value(value: Self::Value) -> (r: Vec<u64>)
        ensures
            r@ == Self::value_elems(value),
    ;

    /// Reads a concrete value back from a field encoding of matching arity.
    fn decode_value(elems: &[u64]) -> (r: Self::Value)
        requires
            elems@.len() == Self::arity(),
        ensures
            r == Self::elems_value(elems@),
    ;

    /// Flattens to the atomic representation.
    fn variables(&self) -> (r: Vec<Variable>)
        ensures
            r@ == self.repr(),
    ;

    /// Rebuilds from the atomic representation; the sequence length must
    /// match the type's fixed arity.
    fn from_variables(vars: &[Variable]) -> (r: Self)
        requires
            vars@.len() == Self::arity(),
        ensures
            r.repr() == vars@,
    ;

    /// Allocates fresh, unconstrained wires; the witness value is
    /// undetermined until assignment.
    fn init(builder: &mut CircuitBuilder) -> (r: Self)
        requires
            old(builder).wf(),
            old(builder).num_wires + Self::arity() <= usize::MAX,
        ensures
            final(builder).wf(),
            r.repr() == Seq::new(
                Self::arity(),
                |i: int| Variable((old(builder).num_wires + i) as usize),
            ),
            final(builder).num_wires == old(builder).num_wires + Self::arity(),
            final(builder).gates@ == old(builder).gates@,
            final(builder).input_wires@ == old(builder).input_wires@,
            final(builder).output_wires@ == old(builder).output_wires@,
            final(builder).constants@ == old(builder).constants@ + Seq::new(
                Self::arity(),
                |i: int| Option::<u64>::None,
            ),
    ;

    /// Reads the concrete value underlying this variable from a witness
    /// assignment table.
    fn get(&self, witness: &WitnessTable) -> (r: Self::Value)
        requires
            forall|i: int|
                0 <= i < self.repr().len() ==> (#[trigger] self.repr()[i]).0
                    < witness.values@.len(),
        ensures
            r == Self::elems_value(
                Seq::new(self.repr().len(), |i: int| witness.values@[self.repr()[i].0 as int]),
            ),
    ;

    /// Writes a concrete value for this variable into a witness assignment
    /// table.
    fn set(&self, witness: &mut WitnessTable, value: Self::Value)
        requires
            forall|i: int|
                0 <= i < self.repr().len() ==> (#[trigger] self.repr()[i]).0 < old(
                    witness,
                ).values@.len(),
        ensures
            final(witness).values@ == update_wires(
                old(witness).values@,
                self.repr(),
                Self::value_elems(value),
            ),
    ;
}

impl CircuitVariable for Variable {
    type Value = u64;

    open spec fn arity() -> nat {
        1
    }

    open spec fn repr(&self) -> Seq<Variable> {
        seq![*self]
    }

    open spec fn value_ok(v: u64) -> bool {
        v < P
    }

    open spec fn value_elems(v: u64) -> Seq<u64> {
        seq![v % P]
    }

    open spec fn elems_value(s: Seq<u64>) -> u64 {
        s[0]
    }

    proof fn lemma_arity(&self) {
    }

    proof fn lemma_repr_inj(a: &Self, b: &Self) {
        assert(a.repr()[0] == *a);
        assert(b.repr()[0] == *b);
        assert(a.repr()[0] == b.repr()[0]);
    }

    proof fn lemma_value_elems(v: u64) {
    }

    fn arity_exec() -> (r: usize) {
        1
    }

    fn encode_value(value: u64) -> (r: Vec<u64>) {
        let mut r: Vec<u64> = Vec::new();
        r.push(value % P);
        proof {
            assert(r@ =~= Self::value_elems(value));
        }
        r
    }

    fn decode_value(elems: &[u64]) -> (r: u64) {
        *vstd::slice::slice_index_get(elems, 0)
    }

    fn variables(&self) -> (r: Vec<Variable>) {
        let mut r: Vec<Variable> = Vec::new();
        r.push(*self);
        proof {
            assert(r@ =~= self.repr());
        }
        r
    }

    fn from_variables(vars: &[Variable]) -> (r: Self) {
        let v = *vstd::slice::slice_index_get(vars, 0);
        proof {
            assert(v.repr() =~= vars@);
        }
        v
    }

    fn init(builder: &mut CircuitBuilder) -> (r: Self) {
        let w = builder.alloc_wire();
        let v = Variable(w);
        proof {
            assert(v.repr() =~= Seq::new(
                1,
                |i: int| Variable((old(builder).num_wires + i) as usize),
            ));
            assert(builder.constants@ =~= old(builder).constants@ + Seq::new(
                1,
                |i: int| Option::<u64>::None,
            ));
        }
        v
    }

    fn get(&self, witness: &WitnessTable) -> (r: u64) {
        proof {
            assert(self.repr()[0] == *self);
        }
        let r = witness.values[self.0];
        proof {
            let s = Seq::new(self.repr().len(), |i: int| witness.values@[self.repr()[i].0 as int]);
            assert(s[0] == witness.values@[self.0 as int]);
        }
        r
    }

    fn set(&self, witness: &mut WitnessTable, value: u64) {
        proof {
            assert(self.repr()[0] == *self);
        }
        let reduced = value % P;
        witness.values.set(self.0, reduced);
        proof {
            let vars = self.repr();
            let elems = Self::value_elems(value);
            assert(update_wires(old(witness).values@, vars, elems) == update_wires(
                old(witness).values@,
                vars.drop_last(),
                elems.drop_last(),
            ).update(vars.last().0 as int, elems.last()));
            assert(vars.drop_last() =~= Seq::<Variable>::empty());
            assert(witness.values@ =~= update_wires(old(witness).values@, vars, elems));
        }
    }
}

impl CircuitVariable for BoolVariable {
    type Value = bool;

    open spec fn arity() -> nat {
        1
    }

    open spec fn repr(&self) -> Seq<Variable> {
        seq![self.0]
    }

    open spec fn value_ok(v: bool) -> bool {
        true
    }

    open spec fn value_elems(v: bool) -> Seq<u64> {
        seq![if v { 1u64 } else { 0u64 }]
    }

    open spec fn elems_value(s: Seq<u64>) -> bool {
        s[0] == 1
    }

    proof fn lemma_arity(&self) {
    }

    proof fn lemma_repr_inj(a: &Self, b: &Self) {
        assert(a.repr()[0] == a.0);
        assert(b.repr()[0] == b.0);
        assert(a.repr()[0] == b.repr()[0]);
        assert(*a == BoolVariable(a.0));
        assert(*b == BoolVariable(b.0));
    }

    proof fn lemma_value_elems(v: bool) {
    }

    fn arity_exec() -> (r: usize) {
        1
    }

    fn encode_value(value: bool) -> (r: Vec<u64>) {
        let mut r: Vec<u64> = Vec::new();
        r.push(if value { 1 } else { 0 });
        proof {
            assert(r@ =~= Self::value_elems(value));
        }
        r
    }

    fn decode_value(elems: &[u64]) -> (r: bool) {
        *vstd::slice::slice_index_get(elems, 0) == 1
    }

    fn variables(&self) -> (r: Vec<Variable>) {
        let mut r: Vec<Variable> = Vec::new();
        r.push(self.0);
        proof {
            assert(r@ =~= self.repr());
        }
        r
    }

    fn from_variables(vars: &[Variable]) -> (r: Self) {
        let v = BoolVariable(*vstd::slice::slice_index_get(vars, 0));
        proof {
            assert(v.repr() =~= vars@);
        }
        v
    }

    fn init(builder: &mut CircuitBuilder) -> (r: Self) {
        let w = builder.alloc_wire();
        let v = BoolVariable(Variable(w));
        proof {
            assert(v.repr() =~= Seq::new(
                1,
                |i: int| Variable((old(builder).num_wires + i) as usize),
            ));
            assert(builder.constants@ =~= old(builder).constants@ + Seq::new(
                1,
                |i: int| Option::<u64>::None,
            ));
        }
        v
    }

    fn get(&self, witness: &WitnessTable) -> (r: bool) {
        proof {
            assert(self.repr()[0] == self.0);
        }
        let r = witness.values[self.0 .0] == 1;
        proof {
            let s = Seq::new(self.repr().len(), |i: int| witness.values@[self.repr()[i].0 as int]);
            assert(s[0] == witness.values@[self.0 .0 as int]);
        }
        r
    }

    fn set(&self, witness: &mut WitnessTable, value: bool) {
        proof {
            assert(self.repr()[0] == self.0);
        }
        let elem: u64 = if value {
            1
        } else {
            0
        };
        witness.values.set(self.0 .0, elem);
        proof {
            let vars = self.repr();
            let elems = Self::value_elems(value);
            assert(update_wires(old(witness).values@, vars, elems) == update_wires(
                old(witness).values@,
                vars.drop_last(),
                elems.drop_last(),
            ).update(vars.last().0 as int, elems.last()));
            assert(vars.drop_last() =~= Seq::<Variable>::empty());
            assert(witness.values@ =~= update_wires(old(witness).values@, vars, elems));
        }
    }
}

impl From<usize> for Variable {
    fn from(target: usize) -> (r: Self) {
        Variable(target)
    }
}

impl vstd::std_specs::convert::FromSpecImpl<usize> for Variable {
    open spec fn obeys_from_spec() -> bool {
        true
    }

    open spec fn from_spec(target: usize) -> Variable {
        Variable(target)
    }
}

impl Variable {
    /// Allocates a wire fixed to `value` (reduced to its canonical field
    /// representative) and records the literal in the builder's constant
    /// registry, so output decoding can recover it without a witness pass.
    pub fn constant(builder: &mut CircuitBuilder, value: u64) -> (r: Variable)
        requires
            old(builder).wf(),
            old(builder).num_wires < usize::MAX,
        ensures
            final(builder).wf(),
            r.0 == old(builder).num_wires,
            final(builder).num_wires == old(builder).num_wires + 1,
            final(builder).gates@ == old(builder).gates@.push(
                Gate::Const { out: r.0, val: (value % P) as u64 },
            ),
            final(builder).constants@ == old(builder).constants@.push(
                Option::Some((value % P) as u64),
            ),
            final(builder).input_wires@ == old(builder).input_wires@,
            final(builder).output_wires@ == old(builder).output_wires@,
            final(builder).defined() =~= old(builder).defined().insert(r.0 as int),
    {
        let reduced = value % P;
        let w = builder.const_wire(reduced);
        Variable(w)
    }
}

impl BoolVariable {
    /// Allocates a wire fixed to `1` or `0` for `true` or `false`.
    pub fn constant(builder: &mut CircuitBuilder, value: bool) -> (r: BoolVariable)
        requires
            old(builder).wf(),
            old(builder).num_wires < usize::MAX,
        ensures
            final(builder).wf(),
            r.0.0 == old(builder).num_wires,
            final(builder).num_wires == old(builder).num_wires + 1,
            final(builder).gates@ == old(builder).gates@.push(
                Gate::Const { out: r.0.0, val: if value { 1u64 } else { 0u64 } },
            ),
            final(builder).constants@ == old(builder).constants@.push(
                Option::Some(if value { 1u64 } else { 0u64 }),
            ),
            final(builder).input_wires@ == old(builder).input_wires@,
            final(builder).output_wires@ == old(builder).output_wires@,
            final(builder).defined() =~= old(builder).defined().insert(r.0.0 as int),
    {
        let elem: u64 = if value {
            1
        } else {
            0
        };
        let w = builder.const_wire(elem);
        BoolVariable(Variable(w))
    }
}

/// Flatten/reconstruct round-trip: for every `CircuitVariable` type, a value
/// rebuilt from its own flat wire representation is the value itself.
pub fn roundtrip_through_variables<T: CircuitVariable>(v: &T) -> (r: T)
    ensures
        r == *v,
{
    let vars = v.variables();
    proof {
        v.lemma_arity();
    }
    let r = T::from_variables(vars.as_slice());
    proof {
        T::lemma_repr_inj(&r, v);
    }
    r
}

} // verus!
