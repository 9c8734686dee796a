use vstd::prelude::*;

use crate::field::P;
use crate::gate::{defined_after, gate_ok, gate_outs, lemma_wf_gates_grow, wf_gates, Gate};
use crate::vars::{BoolVariable, CircuitVariable, Variable};

verus! {

/// The set of wire handles in a handle list.
pub open spec fn wire_set(s: Seq<usize>) -> Set<int> {
    Set::new(|k: int| exists|i: int| 0 <= i < s.len() && s[i] as int == k)
}

/// All handles in a list are distinct.
pub open spec fn distinct_wires(s: Seq<usize>) -> bool {
    forall|i: int, j: int| 0 <= i < j < s.len() ==> s[i] != s[j]
}

/// The mutable construction context: allocates wires, records gates, tracks
/// constants, and accumulates the declared public input and output wires.
pub struct CircuitBuilder {
    /// Wires allocated so far; handles run from `0` to `num_wires - 1`.
    pub num_wires: usize,
    /// The recorded gates, in construction order.
    pub gates: Vec<Gate>,
    /// The constant registry: `constants[w]` holds the literal fixed on wire
    /// `w` when `w` was allocated through the constant path.
    pub constants: Vec<Option<u64>>,
    /// Declared public input wires, in declaration order.
    pub input_wires: Vec<usize>,
    /// Declared public output wires, in declaration order.
    pub output_wires: Vec<usize>,
}

impl CircuitBuilder {
    /// The wires that evaluation defines: the declared inputs plus every
    /// gate output.
    pub open spec fn defined(self) -> Set<int> {
        defined_after(self.gates@, wire_set(self.input_wires@))
    }

    /// Well-formedness: the registry covers every wire, inputs are distinct
    /// fresh wires, every gate reads defined wires and writes fresh ones,
    /// all handles are in range, registry entries come from constant gates,
    /// and declared outputs are defined.
    pub open spec fn wf(self) -> bool {
        &&& self.constants@.len() == self.num_wires
        &&& distinct_wires(self.input_wires@)
        &&& forall|i: int|
            0 <= i < self.input_wires@.len() ==> self.input_wires@[i] < self.num_wires
        &&& wf_gates(self.gates@, wire_set(self.input_wires@))
        &&& forall|k: int| self.defined().contains(k) ==> 0 <= k < self.num_wires
        &&& forall|w: int|
            0 <= w < self.constants@.len() ==> ((#[trigger] self.constants@[w]) matches Some(x)
                ==> self.gates@.contains(Gate::Const { out: w as usize, val: x }) && x < P)
        &&& forall|i: int|
            0 <= i < self.output_wires@.len() ==> self.defined().contains(
                self.output_wires@[i] as int,
            )
    }

    /// Creates an empty builder.
    pub fn new() -> (r: CircuitBuilder)
        ensures
            r.wf(),
            r.num_wires == 0,
            r.gates@ == Seq::<Gate>::empty(),
            r.constants@ == Seq::<Option<u64>>::empty(),
            r.input_wires@ == Seq::<usize>::empty(),
            r.output_wires@ == Seq::<usize>::empty(),
    {
        CircuitBuilder {
            num_wires: 0,
            gates: Vec::new(),
            constants: Vec::new(),
            input_wires: Vec::new(),
            output_wires: Vec::new(),
        }
    }

    /// Allocates one fresh, unconstrained wire.
    pub(crate) fn alloc_wire(&mut self) -> (w: usize)
        requires
            old(self).wf(),
            old(self).num_wires < usize::MAX,
        ensures
            final(self).wf(),
            w == old(self).num_wires,
            final(self).num_wires == old(self).num_wires + 1,
            final(self).gates@ == old(self).gates@,
            final(self).constants@ == old(self).constants@.push(Option::None),
            final(self).input_wires@ == old(self).input_wires@,
            final(self).output_wires@ == old(self).output_wires@,
    {
        let w = self.num_wires;
        self.num_wires = self.num_wires + 1;
        self.constants.push(None);
        proof {
            assert(wire_set(self.input_wires@) =~= wire_set(old(self).input_wires@));
            assert(self.defined() == old(self).defined());
            assert forall|v: int|
                0 <= v < self.constants@.len() implies ((#[trigger] self.constants@[v]) matches Some(
                x,
            ) ==> self.gates@.contains(Gate::Const { out: v as usize, val: x }) && x < P) by {
                if v < old(self).constants@.len() {
                    assert(self.constants@[v] == old(self).constants@[v]);
                }
            }
        }
        w
    }

    /// Records one gate that defines the single fresh wire `out`.
    ///
    /// `out` must be the wire just allocated for its output, and `g`
    /// must read only defined wires.
    pub(crate) fn push_gate(&mut self, g: Gate)
        requires
            old(self).wf(),
            gate_ok(g, old(self).defined()),
            forall|k: int| gate_outs(g).contains(k) ==> 0 <= k < old(self).num_wires,
            !(g matches Gate::Const { .. }),
        ensures
            final(self).wf(),
            final(self).gates@ == old(self).gates@.push(g),
            final(self).num_wires == old(self).num_wires,
            final(self).constants@ == old(self).constants@,
            final(self).input_wires@ == old(self).input_wires@,
            final(self).output_wires@ == old(self).output_wires@,
            final(self).defined() =~= old(self).defined().union(gate_outs(g)),
    {
        self.gates.push(g);
        proof {
            assert(self.gates@.drop_last() =~= old(self).gates@);
            assert forall|x: Gate| old(self).gates@.contains(x) implies self.gates@.contains(
                x,
            ) by {
                let i = choose|i: int| 0 <= i < old(self).gates@.len() && old(self).gates@[i] == x;
                assert(self.gates@[i] == x);
            }
        }
    }

    /// Allocates a wire fixed to the canonical field element `val`, records
    /// the constant gate, and enters the literal in the registry.
    pub(crate) fn const_wire(&mut self, val: u64) -> (w: usize)
        requires
            old(self).wf(),
            old(self).num_wires < usize::MAX,
            val < P,
        ensures
            final(self).wf(),
            w == old(self).num_wires,
            final(self).num_wires == old(self).num_wires + 1,
            final(self).gates@ == old(self).gates@.push(Gate::Const { out: w, val }),
            final(self).constants@ == old(self).constants@.push(Option::Some(val)),
            final(self).input_wires@ == old(self).input_wires@,
            final(self).output_wires@ == old(self).output_wires@,
            final(self).defined() =~= old(self).defined().insert(w as int),
    {
        let w = self.num_wires;
        self.num_wires = self.num_wires + 1;
        self.constants.push(Some(val));
        self.gates.push(Gate::Const { out: w, val });
        proof {
            assert(self.gates@.drop_last() =~= old(self).gates@);
            assert forall|x: Gate| old(self).gates@.contains(x) implies self.gates@.contains(
                x,
            ) by {
                let i = choose|i: int| 0 <= i < old(self).gates@.len() && old(self).gates@[i] == x;
                assert(self.gates@[i] == x);
            }
            assert(self.gates@.contains(Gate::Const { out: w, val })) by {
                assert(self.gates@.last() == Gate::Const { out: w, val });
            }
            assert(self.defined() =~= old(self).defined().insert(w as int));
        }
        w
    }

    /// Records one binary arithmetic gate on a fresh output wire.
    fn binary_op(&mut self, a: Variable, b: Variable, kind: u8) -> (r: Variable)
        requires
            old(self).wf(),
            old(self).defined().contains(a.0 as int),
            old(self).defined().contains(b.0 as int),
            old(self).num_wires < usize::MAX,
            kind < 5,
        ensures
            final(self).wf(),
            r.0 == old(self).num_wires,
            final(self).num_wires == old(self).num_wires + 1,
            final(self).gates@ == old(self).gates@.push(
                match kind {
                    0u8 => Gate::Add { a: a.0, b: b.0, out: r.0 },
                    1u8 => Gate::Sub { a: a.0, b: b.0, out: r.0 },
                    2u8 => Gate::Mul { a: a.0, b: b.0, out: r.0 },
                    3u8 => Gate::Div { a: a.0, b: b.0, out: r.0 },
                    _ => Gate::IsEqual { a: a.0, b: b.0, out: r.0 },
                },
            ),
            final(self).constants@ == old(self).constants@.push(Option::None),
            final(self).input_wires@ == old(self).input_wires@,
            final(self).output_wires@ == old(self).output_wires@,
            final(self).defined() =~= old(self).defined().insert(r.0 as int),
    {
        let w = self.alloc_wire();
        let g = if kind == 0 {
            Gate::Add { a: a.0, b: b.0, out: w }
        } else if kind == 1 {
            Gate::Sub { a: a.0, b: b.0, out: w }
        } else if kind == 2 {
            Gate::Mul { a: a.0, b: b.0, out: w }
        } else if kind == 3 {
            Gate::Div { a: a.0, b: b.0, out: w }
        } else {
            Gate::IsEqual { a: a.0, b: b.0, out: w }
        };
        self.push_gate(g);
        proof {
            assert(self.defined() =~= old(self).defined().insert(w as int));
        }
        Variable(w)
    }

    /// `a + b` in the field, as a new wire.
    pub fn add(&mut self, a: Variable, b: Variable) -> (r: Variable)
        requires
            old(self).wf(),
            old(self).defined().contains(a.0 as int),
            old(self).defined().contains(b.0 as int),
            old(self).num_wires < usize::MAX,
        ensures
            final(self).wf(),
            r.0 == old(self).num_wires,
            final(self).num_wires == old(self).num_wires + 1,
            final(self).gates@ == old(self).gates@.push(Gate::Add { a: a.0, b: b.0, out: r.0 }),
            final(self).constants@ == old(self).constants@.push(Option::None),
            final(self).input_wires@ == old(self).input_wires@,
            final(self).output_wires@ == old(self).output_wires@,
            final(self).defined() =~= old(self).defined().insert(r.0 as int),
    {
        self.binary_op(a, b, 0)
    }

    /// `a - b` in the field, as a new wire.
    pub fn sub(&mut self, a: Variable, b: Variable) -> (r: Variable)
        requires
            old(self).wf(),
            old(self).defined().contains(a.0 as int),
            old(self).defined().contains(b.0 as int),
            old(self).num_wires < usize::MAX,
        ensures
            final(self).wf(),
            r.0 == old(self).num_wires,
            final(self).num_wires == old(self).num_wires + 1,
            final(self).gates@ == old(self).gates@.push(Gate::Sub { a: a.0, b: b.0, out: r.0 }),
            final(self).constants@ == old(self).constants@.push(Option::None),
            final(self).input_wires@ == old(self).input_wires@,
            final(self).output_wires@ == old(self).output_wires@,
            final(self).defined() =~= old(self).defined().insert(r.0 as int),
    {
        self.binary_op(a, b, 1)
    }

    /// `a * b` in the field, as a new wire.
    pub fn mul(&mut self, a: Variable, b: Variable) -> (r: Variable)
        requires
            old(self).wf(),
            old(self).defined().contains(a.0 as int),
            old(self).defined().contains(b.0 as int),
            old(self).num_wires < usize::MAX,
        ensures
            final(self).wf(),
            r.0 == old(self).num_wires,
            final(self).num_wires == old(self).num_wires + 1,
            final(self).gates@ == old(self).gates@.push(Gate::Mul { a: a.0, b: b.0, out: r.0 }),
            final(self).constants@ == old(self).constants@.push(Option::None),
            final(self).input_wires@ == old(self).input_wires@,
            final(self).output_wires@ == old(self).output_wires@,
            final(self).defined() =~= old(self).defined().insert(r.0 as int),
    {
        self.binary_op(a, b, 2)
    }

    /// `a * b^-1` in the field, as a new wire; the witness cannot satisfy the
    /// gate when `b` holds the zero element.
    pub fn div(&mut self, a: Variable, b: Variable) -> (r: Variable)
        requires
            old(self).wf(),
            old(self).defined().contains(a.0 as int),
            old(self).defined().contains(b.0 as int),
            old(self).num_wires < usize::MAX,
        ensures
            final(self).wf(),
            r.0 == old(self).num_wires,
            final(self).num_wires == old(self).num_wires + 1,
            final(self).gates@ == old(self).gates@.push(Gate::Div { a: a.0, b: b.0, out: r.0 }),
            final(self).constants@ == old(self).constants@.push(Option::None),
            final(self).input_wires@ == old(self).input_wires@,
            final(self).output_wires@ == old(self).output_wires@,
            final(self).defined() =~= old(self).defined().insert(r.0 as int),
    {
        self.binary_op(a, b, 3)
    }

    /// A boolean wire holding `1` when `a` and `b` carry the same field
    /// element, else `0`.
    pub fn is_equal(&mut self, a: Variable, b: Variable) -> (r: BoolVariable)
        requires
            old(self).wf(),
            old(self).defined().contains(a.0 as int),
            old(self).defined().contains(b.0 as int),
            old(self).num_wires < usize::MAX,
        ensures
            final(self).wf(),
            r.0.0 == old(self).num_wires,
            final(self).num_wires == old(self).num_wires + 1,
            final(self).gates@ == old(self).gates@.push(
                Gate::IsEqual { a: a.0, b: b.0, out: r.0.0 },
            ),
            final(self).constants@ == old(self).constants@.push(Option::None),
            final(self).input_wires@ == old(self).input_wires@,
            final(self).output_wires@ == old(self).output_wires@,
            final(self).defined() =~= old(self).defined().insert(r.0.0 as int),
    {
        BoolVariable(self.binary_op(a, b, 4))
    }

    /// `-a` in the field, as a new wire.
    pub fn neg(&mut self, a: Variable) -> (r: Variable)
        requires
            old(self).wf(),
            old(self).defined().contains(a.0 as int),
            old(self).num_wires < usize::MAX,
        ensures
            final(self).wf(),
            r.0 == old(self).num_wires,
            final(self).num_wires == old(self).num_wires + 1,
            final(self).gates@ == old(self).gates@.push(Gate::Neg { a: a.0, out: r.0 }),
            final(self).constants@ == old(self).constants@.push(Option::None),
            final(self).input_wires@ == old(self).input_wires@,
            final(self).output_wires@ == old(self).output_wires@,
            final(self).defined() =~= old(self).defined().insert(r.0 as int),
    {
        let w = self.alloc_wire();
        self.push_gate(Gate::Neg { a: a.0, out: w });
        proof {
            assert(self.defined() =~= old(self).defined().insert(w as int));
        }
        Variable(w)
    }

    /// Decomposes `a` into its `n` low-order bits, little-endian, on `n`
    /// fresh wires; no witness satisfies such a decomposition when `a` does not
    /// fit in `n` bits.
    pub fn split(&mut self, a: Variable, n: usize) -> (bits: Vec<Variable>)
        requires
            old(self).wf(),
            old(self).defined().contains(a.0 as int),
            1 <= n <= 64,
            old(self).num_wires + n <= usize::MAX,
        ensures
            final(self).wf(),
            bits@.len() == n,
            forall|i: int| 0 <= i < n ==> (#[trigger] bits@[i]).0 == old(self).num_wires + i,
            final(self).num_wires == old(self).num_wires + n,
            final(self).gates@ == old(self).gates@.push(
                Gate::Split { a: a.0, bit0: old(self).num_wires, n },
            ),
            final(self).constants@ == old(self).constants@ + Seq::new(
                n as nat,
                |i: int| Option::<u64>::None,
            ),
            final(self).input_wires@ == old(self).input_wires@,
            final(self).output_wires@ == old(self).output_wires@,
            final(self).defined() =~= old(self).defined().union(
                Set::new(|j: int| old(self).num_wires <= j < old(self).num_wires + n),
            ),
    {
        let bit0 = self.num_wires;
        let mut bits: Vec<Variable> = Vec::new();
        let mut i: usize = 0;
        while i < n
            invariant
                self.wf(),
                0 <= i <= n,
                old(self).num_wires + n <= usize::MAX,
                self.num_wires == old(self).num_wires + i,
                bit0 == old(self).num_wires,
                self.gates@ == old(self).gates@,
                self.constants@ == old(self).constants@ + Seq::new(
                    i as nat,
                    |j: int| Option::<u64>::None,
                ),
                self.input_wires@ == old(self).input_wires@,
                self.output_wires@ == old(self).output_wires@,
                bits@.len() == i,
                forall|j: int| 0 <= j < i ==> (#[trigger] bits@[j]).0 == old(self).num_wires + j,
            decreases n - i,
        {
            let w = self.alloc_wire();
            bits.push(Variable(w));
            proof {
                assert(self.constants@ =~= old(self).constants@ + Seq::new(
                    (i + 1) as nat,
                    |j: int| Option::<u64>::None,
                ));
            }
            i = i + 1;
        }
        let g = Gate::Split { a: a.0, bit0, n };
        proof {
            assert(self.defined() == old(self).defined());
            assert(gate_ok(g, self.defined())) by {
                assert(forall|j: int|
                    bit0 <= j < bit0 + n ==> !old(self).defined().contains(j));
            }
            assert(gate_outs(g) =~= Set::new(
                |j: int| old(self).num_wires <= j < old(self).num_wires + n,
            ));
        }
        self.push_gate(g);
        proof {
            assert(self.defined() =~= old(self).defined().union(
                Set::new(|j: int| old(self).num_wires <= j < old(self).num_wires + n),
            ));
        }
        bits
    }

    /// Constrains `a` to hold `0` or `1`.
    pub fn assert_bool(&mut self, a: Variable)
        requires
            old(self).wf(),
            old(self).defined().contains(a.0 as int),
        ensures
            final(self).wf(),
            final(self).num_wires == old(self).num_wires,
            final(self).gates@ == old(self).gates@.push(Gate::AssertBool { a: a.0 }),
            final(self).constants@ == old(self).constants@,
            final(self).input_wires@ == old(self).input_wires@,
            final(self).output_wires@ == old(self).output_wires@,
            final(self).defined() =~= old(self).defined(),
    {
        self.push_gate(Gate::AssertBool { a: a.0 });
        proof {
            assert(self.defined() =~= old(self).defined());
        }
    }

    /// A wire fixed to the zero element.
    pub fn zero(&mut self) -> (r: Variable)
        requires
            old(self).wf(),
            old(self).num_wires < usize::MAX,
        ensures
            final(self).wf(),
            r.0 == old(self).num_wires,
            final(self).num_wires == old(self).num_wires + 1,
            final(self).gates@ == old(self).gates@.push(Gate::Const { out: r.0, val: 0 }),
            final(self).constants@ == old(self).constants@.push(Option::Some(0u64)),
            final(self).input_wires@ == old(self).input_wires@,
            final(self).output_wires@ == old(self).output_wires@,
            final(self).defined() =~= old(self).defined().insert(r.0 as int),
    {
        Variable::constant(self, 0)
    }

    /// A wire fixed to the one element.
    pub fn one(&mut self) -> (r: Variable)
        requires
            old(self).wf(),
            old(self).num_wires < usize::MAX,
        ensures
            final(self).wf(),
            r.0 == old(self).num_wires,
            final(self).num_wires == old(self).num_wires + 1,
            final(self).gates@ == old(self).gates@.push(Gate::Const { out: r.0, val: 1 }),
            final(self).constants@ == old(self).constants@.push(Option::Some(1u64)),
            final(self).input_wires@ == old(self).input_wires@,
            final(self).output_wires@ == old(self).output_wires@,
            final(self).defined() =~= old(self).defined().insert(r.0 as int),
    {
        Variable::constant(self, 1)
    }

    /// Declares the wires of a typed variable as the next public inputs.
    pub fn read<T: CircuitVariable>(&mut self) -> (r: T)
        requires
            old(self).wf(),
            old(self).num_wires + T::arity() <= usize::MAX,
        ensures
            final(self).wf(),
            r.repr() == Seq::new(
                T::arity(),
                |i: int| Variable((old(self).num_wires + i) as usize),
            ),
            final(self).num_wires == old(self).num_wires + T::arity(),
            final(self).gates@ == old(self).gates@,
            final(self).input_wires@ == old(self).input_wires@ + Seq::new(
                T::arity(),
                |i: int| (old(self).num_wires + i) as usize,
            ),
            final(self).output_wires@ == old(self).output_wires@,
            final(self).constants@ == old(self).constants@ + Seq::new(
                T::arity(),
                |i: int| Option::<u64>::None,
            ),
            final(self).defined() =~= old(self).defined().union(
                Set::new(
                    |j: int| old(self).num_wires <= j < old(self).num_wires + T::arity(),
                ),
            ),
    {
        let v: T = T::init(self);
        let vars = v.variables();
        proof {
            v.lemma_arity();
        }
        let ghost mid = *self;
        let mut i: usize = 0;
        while i < vars.len()
            invariant
                0 <= i <= vars@.len(),
                vars@ == v.repr(),
                v.repr() == Seq::new(
                    T::arity(),
                    |j: int| Variable((old(self).num_wires + j) as usize),
                ),
                v.repr().len() == T::arity(),
                mid == (CircuitBuilder { input_wires: mid.input_wires, ..*self }),
                mid.wf(),
                mid.num_wires == old(self).num_wires + T::arity(),
                mid.gates@ == old(self).gates@,
                mid.input_wires@ == old(self).input_wires@,
                self.input_wires@ == old(self).input_wires@ + Seq::new(
                    i as nat,
                    |j: int| (old(self).num_wires + j) as usize,
                ),
            decreases vars@.len() - i,
        {
            let w = vars[i];
            self.input_wires.push(w.0);
            proof {
                assert(self.input_wires@ =~= old(self).input_wires@ + Seq::new(
                    (i + 1) as nat,
                    |j: int| (old(self).num_wires + j) as usize,
                ));
            }
            i = i + 1;
        }
        proof {
            let base = wire_set(mid.input_wires@);
            let news = Set::new(
                |j: int| old(self).num_wires <= j < old(self).num_wires + T::arity(),
            );
            assert(wire_set(self.input_wires@) =~= base.union(news)) by {
                assert forall|k: int| wire_set(self.input_wires@).contains(k) implies base.union(
                    news,
                ).contains(k) by {
                    let idx = choose|idx: int|
                        0 <= idx < self.input_wires@.len() && self.input_wires@[idx] as int == k;
                    if idx < mid.input_wires@.len() {
                        assert(base.contains(k));
                    } else {
                        assert(news.contains(k));
                    }
                }
                assert forall|k: int| base.union(news).contains(k) implies wire_set(
                    self.input_wires@,
                ).contains(k) by {
                    if base.contains(k) {
                        let idx = choose|idx: int|
                            0 <= idx < mid.input_wires@.len() && mid.input_wires@[idx] as int == k;
                        assert(self.input_wires@[idx] as int == k);
                    } else {
                        let j = k - old(self).num_wires;
                        assert(self.input_wires@[mid.input_wires@.len() + j] as int == k);
                    }
                }
            }
            assert(defined_after(mid.gates@, base) == old(self).defined());
            assert(forall|k: int|
                news.contains(k) ==> !defined_after(mid.gates@, base).contains(k));
            lemma_wf_gates_grow(mid.gates@, base, news);
            assert(self.defined() =~= old(self).defined().union(news));
            assert forall|i2: int, j2: int|
                0 <= i2 < j2 < self.input_wires@.len() implies self.input_wires@[i2]
                != self.input_wires@[j2] by {
                if j2 >= mid.input_wires@.len() {
                    if i2 < mid.input_wires@.len() {
                        assert(self.input_wires@[i2] < mid.num_wires - T::arity());
                    }
                }
            }
        }
        v
    }

    /// Declares the wires of a typed variable as the next public outputs.
    pub fn write<T: CircuitVariable>(&mut self, v: T)
        requires
            old(self).wf(),
            forall|i: int|
                0 <= i < v.repr().len() ==> old(self).defined().contains(
                    (#[trigger] v.repr()[i]).0 as int,
                ),
        ensures
            final(self).wf(),
            final(self).num_wires == old(self).num_wires,
            final(self).gates@ == old(self).gates@,
            final(self).constants@ == old(self).constants@,
            final(self).input_wires@ == old(self).input_wires@,
            final(self).output_wires@ == old(self).output_wires@ + v.repr().map_values(
                |x: Variable| x.0,
            ),
            final(self).defined() =~= old(self).defined(),
    {
        let vars = v.variables();
        let mut i: usize = 0;
        while i < vars.len()
            invariant
                0 <= i <= vars@.len(),
                vars@ == v.repr(),
                forall|j: int|
                    0 <= j < v.repr().len() ==> old(self).defined().contains(
                        (#[trigger] v.repr()[j]).0 as int,
                    ),
                *self == (CircuitBuilder { output_wires: self.output_wires, ..*old(self) }),
                old(self).wf(),
                self.output_wires@ == old(self).output_wires@ + v.repr().take(i as int).map_values(
                    |x: Variable| x.0,
                ),
            decreases vars@.len() - i,
        {
            let w = vars[i];
            self.output_wires.push(w.0);
            proof {
                assert(self.output_wires@ =~= old(self).output_wires@ + v.repr().take(
                    i + 1,
                ).map_values(|x: Variable| x.0));
            }
            i = i + 1;
        }
        proof {
            assert(v.repr().take(vars@.len() as int) =~= v.repr());
            assert(self.defined() =~= old(self).defined());
            assert forall|j: int|
                0 <= j < self.output_wires@.len() implies self.defined().contains(
                self.output_wires@[j] as int,
            ) by {
                if j < old(self).output_wires@.len() {
                } else {
                    let jj = j - old(self).output_wires@.len();
                    assert(self.output_wires@[j] == v.repr().map_values(|x: Variable| x.0)[jj]);
                    assert(v.repr().map_values(|x: Variable| x.0)[jj] == v.repr()[jj].0);
                }
            }
        }
    }
}

} // verus!
