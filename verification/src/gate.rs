use vstd::prelude::*;

use crate::field::{f_add, f_inv, f_mul, f_neg, f_sub, P};

verus! {

/// One constraint-graph gate. Each gate reads previously defined wires and
/// defines its output wires; `AssertBool` defines nothing and only constrains.
#[derive(Clone, Copy)]
pub enum Gate {
    /// Fixes `out` to the literal field element `val`.
    Const { out: usize, val: u64 },
    /// `out = a + b` in the field.
    Add { a: usize, b: usize, out: usize },
    /// `out = a - b` in the field.
    Sub { a: usize, b: usize, out: usize },
    /// `out = a * b` in the field.
    Mul { a: usize, b: usize, out: usize },
    /// `out = -a` in the field.
    Neg { a: usize, out: usize },
    /// `out = a * b^-1`; unsatisfiable when `b` is the zero element.
    Div { a: usize, b: usize, out: usize },
    /// `out = 1` when `a == b`, else `out = 0`.
    IsEqual { a: usize, b: usize, out: usize },
    /// Constrains `a` to hold `0` or `1`; defines no wire.
    AssertBool { a: usize },
    /// Decomposes `a` into its `n` low-order bits, little-endian, on wires
    /// `bit0 .. bit0 + n`; unsatisfiable when `a` does not fit in `n` bits.
    Split { a: usize, bit0: usize, n: usize },
}

/// Bit `i` of `v`, as a field element (`0` or `1`).
pub open spec fn bit_at(v: u64, i: u64) -> u64 {
    (v >> i) & 1
}

/// The wires a gate defines.
pub open spec fn gate_outs(g: Gate) -> Set<int> {
    match g {
        Gate::Const { out, .. } => set![out as int],
        Gate::Add { out, .. } => set![out as int],
        Gate::Sub { out, .. } => set![out as int],
        Gate::Mul { out, .. } => set![out as int],
        Gate::Neg { out, .. } => set![out as int],
        Gate::Div { out, .. } => set![out as int],
        Gate::IsEqual { out, .. } => set![out as int],
        Gate::AssertBool { .. } => Set::empty(),
        Gate::Split { bit0, n, .. } => Set::new(|j: int| bit0 <= j < bit0 + n),
    }
}

/// A gate is well-placed over a set `d` of already-defined wires: its operands
/// are defined, its outputs are fresh, and its literals are canonical.
pub open spec fn gate_ok(g: Gate, d: Set<int>) -> bool {
    match g {
        Gate::Const { out, val } => val < P && !d.contains(out as int),
        Gate::Add { a, b, out } => d.contains(a as int) && d.contains(b as int) && !d.contains(
            out as int,
        ),
        Gate::Sub { a, b, out } => d.contains(a as int) && d.contains(b as int) && !d.contains(
            out as int,
        ),
        Gate::Mul { a, b, out } => d.contains(a as int) && d.contains(b as int) && !d.contains(
            out as int,
        ),
        Gate::Neg { a, out } => d.contains(a as int) && !d.contains(out as int),
        Gate::Div { a, b, out } => d.contains(a as int) && d.contains(b as int) && !d.contains(
            out as int,
        ),
        Gate::IsEqual { a, b, out } => d.contains(a as int) && d.contains(b as int) && !d.contains(
            out as int,
        ),
        Gate::AssertBool { a } => d.contains(a as int),
        Gate::Split { a, bit0, n } => d.contains(a as int) && 1 <= n <= 64 && bit0 + n
            <= usize::MAX && (forall|j: int| bit0 <= j < bit0 + n ==> !d.contains(j)),
    }
}

/// The wires defined after running `gates` over the initially defined set `d`.
pub open spec fn defined_after(gates: Seq<Gate>, d: Set<int>) -> Set<int>
    decreases gates.len(),
{
    if gates.len() == 0 {
        d
    } else {
        defined_after(gates.drop_last(), d).union(gate_outs(gates.last()))
    }
}

/// Every gate in `gates` is well-placed over the wires defined before it.
pub open spec fn wf_gates(gates: Seq<Gate>, d: Set<int>) -> bool
    decreases gates.len(),
{
    gates.len() == 0 || (wf_gates(gates.drop_last(), d) && gate_ok(
        gates.last(),
        defined_after(gates.drop_last(), d),
    ))
}

/// The little-endian bits of `v` laid out on wires `bit0 .. bit0 + n`.
pub open spec fn split_map(v: u64, bit0: usize, n: usize) -> Map<int, u64> {
    Map::new(|j: int| bit0 <= j < bit0 + n, |j: int| bit_at(v, (j - bit0) as u64))
}

/// Whether `v` fits in `n` bits, for `1 <= n <= 64`.
pub open spec fn fits_bits(v: u64, n: usize) -> bool {
    n >= 64 || v >> (n as u64) == 0
}

/// Runs one gate over a partial witness: extends it with that gate's outputs,
/// or yields `None` when its constraint cannot be satisfied.
pub open spec fn eval_gate(g: Gate, m: Map<int, u64>) -> Option<Map<int, u64>> {
    match g {
        Gate::Const { out, val } => Some(m.insert(out as int, val)),
        Gate::Add { a, b, out } => Some(
            m.insert(out as int, f_add(m[a as int] as int, m[b as int] as int) as u64),
        ),
        Gate::Sub { a, b, out } => Some(
            m.insert(out as int, f_sub(m[a as int] as int, m[b as int] as int) as u64),
        ),
        Gate::Mul { a, b, out } => Some(
            m.insert(out as int, f_mul(m[a as int] as int, m[b as int] as int) as u64),
        ),
        Gate::Neg { a, out } => Some(m.insert(out as int, f_neg(m[a as int] as int) as u64)),
        Gate::Div { a, b, out } => if m[b as int] == 0 {
            None
        } else {
            Some(
                m.insert(
                    out as int,
                    f_mul(m[a as int] as int, f_inv(m[b as int] as int)) as u64,
                ),
            )
        },
        Gate::IsEqual { a, b, out } => Some(
            m.insert(out as int, if m[a as int] == m[b as int] { 1u64 } else { 0u64 }),
        ),
        Gate::AssertBool { a } => if m[a as int] <= 1 {
            Some(m)
        } else {
            None
        },
        Gate::Split { a, bit0, n } => if fits_bits(m[a as int], n) {
            Some(m.union_prefer_right(split_map(m[a as int], bit0, n)))
        } else {
            None
        },
    }
}

/// Runs all gates in order over an initial partial witness.
pub open spec fn eval_gates(gates: Seq<Gate>, m: Map<int, u64>) -> Option<Map<int, u64>>
    decreases gates.len(),
{
    if gates.len() == 0 {
        Some(m)
    } else {
        match eval_gates(gates.drop_last(), m) {
            Some(m1) => eval_gate(gates.last(), m1),
            None => None,
        }
    }
}

/// Appending one gate evaluates the prefix, then that gate.
pub proof fn lemma_eval_snoc(gs: Seq<Gate>, g: Gate, m: Map<int, u64>)
    ensures
        eval_gates(gs.push(g), m) == (match eval_gates(gs, m) {
            Some(m1) => eval_gate(g, m1),
            None => None,
        }),
{
    assert(gs.push(g).drop_last() =~= gs);
    assert(gs.push(g).last() == g);
}

/// Evaluation of concatenated gate lists runs the first list, then the
/// second over its result.
pub proof fn lemma_eval_append(g1: Seq<Gate>, g2: Seq<Gate>, m: Map<int, u64>)
    ensures
        eval_gates(g1 + g2, m) == (match eval_gates(g1, m) {
            Some(m1) => eval_gates(g2, m1),
            None => None,
        }),
    decreases g2.len(),
{
    if g2.len() == 0 {
        assert(g1 + g2 =~= g1);
    } else {
        lemma_eval_append(g1, g2.drop_last(), m);
        assert((g1 + g2).drop_last() =~= g1 + g2.drop_last());
        assert((g1 + g2).last() == g2.last());
    }
}

/// Growing the initially defined set with wires that evaluation never
/// defines keeps a gate list well-formed.
pub proof fn lemma_wf_gates_grow(gates: Seq<Gate>, d: Set<int>, e: Set<int>)
    requires
        wf_gates(gates, d),
        forall|k: int| e.contains(k) ==> !defined_after(gates, d).contains(k),
    ensures
        wf_gates(gates, d.union(e)),
        defined_after(gates, d.union(e)) =~= defined_after(gates, d).union(e),
    decreases gates.len(),
{
    if gates.len() > 0 {
        assert(forall|k: int|
            e.contains(k) ==> !defined_after(gates.drop_last(), d).contains(k));
        lemma_wf_gates_grow(gates.drop_last(), d, e);
        let g = gates.last();
        let d1 = defined_after(gates.drop_last(), d);
        assert(gate_ok(g, d1.union(e))) by {
            assert(forall|k: int| gate_outs(g).contains(k) ==> !e.contains(k));
            match g {
                Gate::Split { a, bit0, n } => {
                    assert forall|j: int| bit0 <= j < bit0 + n implies !d1.union(e).contains(
                        j,
                    ) by {
                        assert(gate_outs(g).contains(j));
                    }
                },
                _ => {},
            }
        }
    }
}

/// All values of a partial witness are canonical field elements.
pub open spec fn bounded(m: Map<int, u64>) -> bool {
    forall|k: int| m.dom().contains(k) ==> m[k] < P
}

/// Whether a total witness assignment satisfies one gate's constraint.
pub open spec fn gate_satisfied(g: Gate, w: Seq<u64>) -> bool {
    match g {
        Gate::Const { out, val } => w[out as int] == val,
        Gate::Add { a, b, out } => w[out as int] == f_add(w[a as int] as int, w[b as int] as int),
        Gate::Sub { a, b, out } => w[out as int] == f_sub(w[a as int] as int, w[b as int] as int),
        Gate::Mul { a, b, out } => w[out as int] == f_mul(w[a as int] as int, w[b as int] as int),
        Gate::Neg { a, out } => w[out as int] == f_neg(w[a as int] as int),
        Gate::Div { a, b, out } => w[b as int] != 0 && w[out as int] == f_mul(
            w[a as int] as int,
            f_inv(w[b as int] as int),
        ),
        Gate::IsEqual { a, b, out } => w[out as int] == (if w[a as int] == w[b as int] {
            1u64
        } else {
            0u64
        }),
        Gate::AssertBool { a } => w[a as int] <= 1,
        Gate::Split { a, bit0, n } => fits_bits(w[a as int], n) && (forall|i: int|
            0 <= i < n ==> #[trigger] w[bit0 + i] == bit_at(w[a as int], i as u64)),
    }
}

/// Every prefix of a well-formed gate list is well-formed, and defines only
/// wires the whole list defines.
pub proof fn lemma_take_props(gs: Seq<Gate>, d: Set<int>, i: int)
    requires
        wf_gates(gs, d),
        0 <= i <= gs.len(),
    ensures
        wf_gates(gs.take(i), d),
        forall|k: int|
            defined_after(gs.take(i), d).contains(k) ==> defined_after(gs, d).contains(k),
    decreases gs.len() - i,
{
    if i == gs.len() {
        assert(gs.take(i) =~= gs);
    } else {
        lemma_take_props(gs, d, i + 1);
        assert(gs.take(i + 1).drop_last() =~= gs.take(i));
        assert(gs.take(i + 1).last() == gs[i]);
    }
}

/// Once a prefix fails to evaluate, the whole list fails.
pub proof fn lemma_eval_none_take(gs: Seq<Gate>, m0: Map<int, u64>, i: int)
    requires
        0 <= i <= gs.len(),
        eval_gates(gs.take(i), m0) is None,
    ensures
        eval_gates(gs, m0) is None,
    decreases gs.len() - i,
{
    if i == gs.len() {
        assert(gs.take(i) =~= gs);
    } else {
        assert(gs.take(i + 1).drop_last() =~= gs.take(i));
        assert(eval_gates(gs.take(i + 1), m0) is None);
        lemma_eval_none_take(gs, m0, i + 1);
    }
}

/// Witness generation is sound: any total assignment that agrees with a
/// successful evaluation satisfies every gate's constraint.
pub proof fn lemma_eval_satisfies(gs: Seq<Gate>, m0: Map<int, u64>, w: Seq<u64>)
    requires
        wf_gates(gs, m0.dom()),
        bounded(m0),
        eval_gates(gs, m0) is Some,
        forall|k: int|
            #[trigger] eval_gates(gs, m0)->Some_0.dom().contains(k) ==> 0 <= k < w.len() && w[k]
                == eval_gates(gs, m0)->Some_0[k],
    ensures
        forall|i: int| 0 <= i < gs.len() ==> gate_satisfied(gs[i], w),
    decreases gs.len(),
{
    if gs.len() > 0 {
        let m1 = eval_gates(gs.drop_last(), m0)->Some_0;
        let m = eval_gates(gs, m0)->Some_0;
        let g = gs.last();
        lemma_eval_props(gs.drop_last(), m0);
        let d1 = defined_after(gs.drop_last(), m0.dom());
        assert(m1.dom() =~= d1);
        assert(gate_ok(g, d1));
        assert(eval_gate(g, m1) == Some(m));
        assert forall|k: int| m1.dom().contains(k) implies m.dom().contains(k) && m[k]
            == m1[k] by {
            match g {
                Gate::Split { a, bit0, n } => {
                    assert(!(bit0 <= k < bit0 + n));
                },
                _ => {},
            }
        }
        assert forall|k: int| m1.dom().contains(k) implies 0 <= k < w.len() && w[k]
            == m1[k] by {
            assert(m.dom().contains(k));
            assert(m[k] == m1[k]);
            assert(0 <= k < w.len() && w[k] == m[k]);
        }
        lemma_eval_satisfies(gs.drop_last(), m0, w);
        assert forall|i: int| 0 <= i < gs.len() implies gate_satisfied(gs[i], w) by {
            if i < gs.len() - 1 {
                assert(gs.drop_last()[i] == gs[i]);
            } else {
                assert(gate_satisfied(g, w)) by {
                    match g {
                        Gate::Const { out, val } => {
                            assert(m.dom().contains(out as int));
                            assert(w[out as int] == m[out as int]);
                        },
                        Gate::Add { a, b, out } => {
                            assert(m.dom().contains(out as int));
                            assert(w[a as int] == m1[a as int]);
                            assert(w[b as int] == m1[b as int]);
                            assert(w[out as int] == m[out as int]);
                        },
                        Gate::Sub { a, b, out } => {
                            assert(m.dom().contains(out as int));
                            assert(w[a as int] == m1[a as int]);
                            assert(w[b as int] == m1[b as int]);
                            assert(w[out as int] == m[out as int]);
                        },
                        Gate::Mul { a, b, out } => {
                            assert(m.dom().contains(out as int));
                            assert(w[a as int] == m1[a as int]);
                            assert(w[b as int] == m1[b as int]);
                            assert(w[out as int] == m[out as int]);
                        },
                        Gate::Neg { a, out } => {
                            assert(m.dom().contains(out as int));
                            assert(w[a as int] == m1[a as int]);
                            assert(w[out as int] == m[out as int]);
                        },
                        Gate::Div { a, b, out } => {
                            assert(m.dom().contains(out as int));
                            assert(w[a as int] == m1[a as int]);
                            assert(w[b as int] == m1[b as int]);
                            assert(w[out as int] == m[out as int]);
                            assert(m1[b as int] != 0);
                            crate::field::lemma_f_pow_bounded(m1[b as int] as int, (P - 2) as nat);
                        },
                        Gate::IsEqual { a, b, out } => {
                            assert(m.dom().contains(out as int));
                            assert(w[a as int] == m1[a as int]);
                            assert(w[b as int] == m1[b as int]);
                            assert(w[out as int] == m[out as int]);
                        },
                        Gate::AssertBool { a } => {
                            assert(w[a as int] == m1[a as int]);
                        },
                        Gate::Split { a, bit0, n } => {
                            let v = m1[a as int];
                            assert(w[a as int] == v);
                            assert(fits_bits(v, n));
                            assert forall|j: int| 0 <= j < n implies #[trigger] w[bit0 + j]
                                == bit_at(w[a as int], j as u64) by {
                                assert(m.dom().contains(bit0 + j));
                                assert(m[bit0 + j] == bit_at(v, j as u64));
                            }
                        },
                    }
                }
            }
        }
    }
}

/// Evaluation defines exactly the gates' output wires, keeps every wire it
/// started with at its initial value, and keeps all values canonical.
pub proof fn lemma_eval_props(gates: Seq<Gate>, m0: Map<int, u64>)
    requires
        wf_gates(gates, m0.dom()),
        bounded(m0),
    ensures
        match eval_gates(gates, m0) {
            Some(m) => {
                &&& m.dom() =~= defined_after(gates, m0.dom())
                &&& bounded(m)
                &&& forall|k: int| m0.dom().contains(k) ==> m.dom().contains(k) && m[k] == m0[k]
            },
            None => true,
        },
    decreases gates.len(),
{
    if gates.len() > 0 {
        lemma_eval_props(gates.drop_last(), m0);
        match eval_gates(gates.drop_last(), m0) {
            Some(m1) => {
                let g = gates.last();
                match eval_gate(g, m1) {
                    Some(m) => {
                        match g {
                            Gate::Split { a, bit0, n } => {
                                assert(m.dom() =~= m1.dom().union(gate_outs(g)));
                                assert forall|k: int| m.dom().contains(k) implies m[k]
                                    < P by {
                                    if bit0 <= k < bit0 + n {
                                        let i = (k - bit0) as u64;
                                        let v = m1[a as int];
                                        assert((v >> i) & 1 <= 1) by (bit_vector);
                                    }
                                }
                            },
                            _ => {},
                        }
                    },
                    None => {},
                }
            },
            None => {},
        }
    }
}

} // verus!
