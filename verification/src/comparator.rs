use vstd::prelude::*;

use crate::builder::CircuitBuilder;
use crate::field::{f_add, f_mul, f_sub, P};
use crate::gate::{bit_at, bounded, eval_gate, eval_gates, lemma_eval_append,
    lemma_eval_snoc, split_map, Gate};
use crate::vars::{BoolVariable, Variable};

verus! {

/// `2^63`: the shift applied before subtracting, so that the comparison
/// becomes a test of the top bit of a 64-bit decomposition.
pub const SHIFT: u64 = 0x8000_0000_0000_0000;

/// `2^62`: the exclusive bound of the comparator's valid operand sub-range.
/// The shift-and-decompose trick wraps in the field outside it.
pub const CMP_LIMIT: u64 = 0x4000_0000_0000_0000;

/// The gates the strict comparator appends, for operands `a`, `b` when the
/// next fresh wire is `k`: two range checks keeping the operands inside the
/// valid sub-range, the shifted difference, its 64-bit decomposition, and
/// the complement of the top bit.
pub open spec fn comparator_gates(a: usize, b: usize, k: usize) -> Seq<Gate>
    recommends
        k + 193 <= usize::MAX,
{
    seq![
        Gate::Split { a, bit0: k, n: 62 },
        Gate::Split { a: b, bit0: (k + 62) as usize, n: 62 },
        Gate::Const { out: (k + 124) as usize, val: SHIFT },
        Gate::Const { out: (k + 125) as usize, val: 1 },
        Gate::Add { a, b: (k + 124) as usize, out: (k + 126) as usize },
        Gate::Sub { a: (k + 126) as usize, b, out: (k + 127) as usize },
        Gate::Split { a: (k + 127) as usize, bit0: (k + 128) as usize, n: 64 },
        Gate::Sub { a: (k + 125) as usize, b: (k + 191) as usize, out: (k + 192) as usize },
    ]
}

/// The gates `lte` appends after the strict comparator: an equality wire and
/// the arithmetic disjunction `lt + eq - lt*eq`.
pub open spec fn lte_tail_gates(a: usize, b: usize, k: usize) -> Seq<Gate>
    recommends
        k + 197 <= usize::MAX,
{
    seq![
        Gate::IsEqual { a, b, out: (k + 193) as usize },
        Gate::Mul { a: (k + 192) as usize, b: (k + 193) as usize, out: (k + 194) as usize },
        Gate::Add { a: (k + 192) as usize, b: (k + 193) as usize, out: (k + 195) as usize },
        Gate::Sub { a: (k + 195) as usize, b: (k + 194) as usize, out: (k + 196) as usize },
    ]
}

impl CircuitBuilder {
    /// A boolean wire holding `1` when the field element on `a` is strictly
    /// below the one on `b`, both read as unsigned integers.
    ///
    /// Both operands are range-checked into `[0, CMP_LIMIT)`: outside that
    /// sub-range the shift-and-decompose trick would wrap in the field, so
    /// the gadget makes such witnesses unsatisfiable rather than silently
    /// wrong.
    pub fn lt(&mut self, a: Variable, b: Variable) -> (r: BoolVariable)
        requires
            old(self).wf(),
            old(self).defined().contains(a.0 as int),
            old(self).defined().contains(b.0 as int),
            old(self).num_wires + 193 <= usize::MAX,
        ensures
            final(self).wf(),
            r.0.0 == old(self).num_wires + 192,
            final(self).num_wires == old(self).num_wires + 193,
            final(self).gates@ == old(self).gates@ + comparator_gates(
                a.0,
                b.0,
                old(self).num_wires,
            ),
            final(self).input_wires@ == old(self).input_wires@,
            final(self).output_wires@ == old(self).output_wires@,
            final(self).constants@ == old(self).constants@ + Seq::new(
                193,
                |i: int|
                    if i == 124 {
                        Option::Some(SHIFT)
                    } else if i == 125 {
                        Option::Some(1u64)
                    } else {
                        Option::<u64>::None
                    },
            ),
            final(self).defined() =~= old(self).defined().union(
                Set::new(|j: int| old(self).num_wires <= j < old(self).num_wires + 193),
            ),
    {
        let ghost k = old(self).num_wires;
        let _bits_a = self.split(a, 62);
        let _bits_b = self.split(b, 62);
        let max = Variable::constant(self, SHIFT);
        let one = Variable::constant(self, 1);
        let tmp = self.add(a, max);
        let res = self.sub(tmp, b);
        let res_bits = self.split(res, 64);
        let last_bit = res_bits[63];
        let lt_var = self.sub(one, last_bit);
        proof {
            assert(self.gates@ =~= old(self).gates@ + comparator_gates(a.0, b.0, k));
            assert(self.constants@ =~= old(self).constants@ + Seq::new(
                193,
                |i: int|
                    if i == 124 {
                        Option::Some(SHIFT)
                    } else if i == 125 {
                        Option::Some(1u64)
                    } else {
                        Option::<u64>::None
                    },
            ));
            assert(self.defined() =~= old(self).defined().union(
                Set::new(|j: int| k <= j < k + 193),
            ));
        }
        BoolVariable(lt_var)
    }

    /// A boolean wire holding `1` when the field element on `a` is at most
    /// the one on `b`: the disjunction of `lt` and equality, under the same
    /// operand sub-range as `lt`.
    pub fn lte(&mut self, a: Variable, b: Variable) -> (r: BoolVariable)
        requires
            old(self).wf(),
            old(self).defined().contains(a.0 as int),
            old(self).defined().contains(b.0 as int),
            old(self).num_wires + 197 <= usize::MAX,
        ensures
            final(self).wf(),
            r.0.0 == old(self).num_wires + 196,
            final(self).num_wires == old(self).num_wires + 197,
            final(self).gates@ == old(self).gates@ + comparator_gates(
                a.0,
                b.0,
                old(self).num_wires,
            ) + lte_tail_gates(a.0, b.0, old(self).num_wires),
            final(self).input_wires@ == old(self).input_wires@,
            final(self).output_wires@ == old(self).output_wires@,
            final(self).constants@ == old(self).constants@ + Seq::new(
                197,
                |i: int|
                    if i == 124 {
                        Option::Some(SHIFT)
                    } else if i == 125 {
                        Option::Some(1u64)
                    } else {
                        Option::<u64>::None
                    },
            ),
            final(self).defined() =~= old(self).defined().union(
                Set::new(|j: int| old(self).num_wires <= j < old(self).num_wires + 197),
            ),
    {
        let ghost k = old(self).num_wires;
        let lt = self.lt(a, b);
        let eq = self.is_equal(a, b);
        let m = self.mul(lt.0, eq.0);
        let s = self.add(lt.0, eq.0);
        let or_var = self.sub(s, m);
        proof {
            assert(self.gates@ =~= old(self).gates@ + comparator_gates(a.0, b.0, k)
                + lte_tail_gates(a.0, b.0, k));
            assert(self.constants@ =~= old(self).constants@ + Seq::new(
                197,
                |i: int|
                    if i == 124 {
                        Option::Some(SHIFT)
                    } else if i == 125 {
                        Option::Some(1u64)
                    } else {
                        Option::<u64>::None
                    },
            ));
            assert(self.defined() =~= old(self).defined().union(
                Set::new(|j: int| k <= j < k + 197),
            ));
        }
        BoolVariable(or_var)
    }
}

/// Comparator correctness: for operand values inside the documented
/// sub-range `[0, CMP_LIMIT)`, the comparator's output wire evaluates to `1`
/// exactly when the unsigned integer value of `a`'s wire is less than that
/// of `b`'s; for values outside the sub-range, evaluation is unsatisfiable —
/// never a silent wrong answer.
pub proof fn lemma_comparator_eval(a: usize, b: usize, k: usize, m: Map<int, u64>)
    requires
        m.dom().contains(a as int),
        m.dom().contains(b as int),
        bounded(m),
        a < k,
        b < k,
        k + 193 <= usize::MAX,
        forall|j: int| k <= j < k + 193 ==> !m.dom().contains(j),
    ensures
        ({
            let x = m[a as int];
            let y = m[b as int];
            let r = eval_gates(comparator_gates(a, b, k), m);
            &&& (x < CMP_LIMIT && y < CMP_LIMIT ==> (r matches Some(m2) && {
                &&& m2[(k + 192) as int] == (if x < y {
                    1u64
                } else {
                    0u64
                })
                &&& forall|t: int|
                    m.dom().contains(t) ==> m2.dom().contains(t) && m2[t] == m[t]
                &&& m2.dom() =~= m.dom().union(Set::new(|j: int| k <= j < k + 193))
            }))
            &&& (!(x < CMP_LIMIT && y < CMP_LIMIT) ==> r is None)
        }),
{
    let x = m[a as int];
    let y = m[b as int];
    let gs = comparator_gates(a, b, k);
    let g0 = gs[0];
    let g1 = gs[1];
    let g2 = gs[2];
    let g3 = gs[3];
    let g4 = gs[4];
    let g5 = gs[5];
    let g6 = gs[6];
    let g7 = gs[7];
    let s0 = Seq::<Gate>::empty();
    let s1 = s0.push(g0);
    let s2 = s1.push(g1);
    let s3 = s2.push(g2);
    let s4 = s3.push(g3);
    let s5 = s4.push(g4);
    let s6 = s5.push(g5);
    let s7 = s6.push(g6);
    let s8 = s7.push(g7);
    assert(gs =~= s8);
    lemma_eval_snoc(s0, g0, m);
    lemma_eval_snoc(s1, g1, m);
    lemma_eval_snoc(s2, g2, m);
    lemma_eval_snoc(s3, g3, m);
    lemma_eval_snoc(s4, g4, m);
    lemma_eval_snoc(s5, g5, m);
    lemma_eval_snoc(s6, g6, m);
    lemma_eval_snoc(s7, g7, m);
    assert(eval_gates(s0, m) == Some(m));
    assert((x >> 62u64 == 0) <==> (x < 0x4000_0000_0000_0000u64)) by (bit_vector);
    assert((y >> 62u64 == 0) <==> (y < 0x4000_0000_0000_0000u64)) by (bit_vector);
    if x < CMP_LIMIT && y < CMP_LIMIT {
        let m1 = m.union_prefer_right(split_map(x, k, 62));
        assert(eval_gate(g0, m) == Some(m1));
        assert(m1[a as int] == x && m1[b as int] == y);
        let m2 = m1.union_prefer_right(split_map(y, (k + 62) as usize, 62));
        assert(eval_gate(g1, m1) == Some(m2));
        assert(m2[a as int] == x && m2[b as int] == y);
        let m3 = m2.insert((k + 124) as int, SHIFT);
        assert(eval_gate(g2, m2) == Some(m3));
        let m4 = m3.insert((k + 125) as int, 1u64);
        assert(eval_gate(g3, m3) == Some(m4));
        assert(m4[a as int] == x && m4[b as int] == y && m4[(k + 124) as int] == SHIFT);
        let tmp = f_add(x as int, SHIFT as int) as u64;
        assert(tmp == x + SHIFT);
        let m5 = m4.insert((k + 126) as int, tmp);
        assert(eval_gate(g4, m4) == Some(m5));
        assert(m5[b as int] == y && m5[(k + 126) as int] == tmp);
        let res = f_sub(tmp as int, y as int) as u64;
        assert(res == x + SHIFT - y);
        let m6 = m5.insert((k + 127) as int, res);
        assert(eval_gate(g5, m5) == Some(m6));
        assert(m6[(k + 127) as int] == res);
        let m7 = m6.union_prefer_right(split_map(res, (k + 128) as usize, 64));
        assert(eval_gate(g6, m6) == Some(m7));
        let bit = bit_at(res, 63);
        assert(m7[(k + 191) as int] == bit);
        assert(m7[(k + 125) as int] == 1u64);
        assert(((res >> 63u64) & 1 == 1u64) <==> (res >= 0x8000_0000_0000_0000u64))
            by (bit_vector);
        assert(((res >> 63u64) & 1 == 1u64) || ((res >> 63u64) & 1 == 0u64)) by (bit_vector);
        let ltv = f_sub(1, bit as int) as u64;
        assert(ltv == (if x < y {
            1u64
        } else {
            0u64
        }));
        let m8 = m7.insert((k + 192) as int, ltv);
        assert(eval_gate(g7, m7) == Some(m8));
        assert(eval_gates(gs, m) == Some(m8));
        assert(m8[(k + 192) as int] == ltv);
        assert forall|t: int| m.dom().contains(t) implies m8.dom().contains(t) && m8[t]
            == m[t] by {
            assert(!(k <= t < k + 193));
        }
        assert(m8.dom() =~= m.dom().union(Set::new(|j: int| k <= j < k + 193)));
    } else {
        if x >= CMP_LIMIT {
            assert(eval_gate(g0, m) is None);
            assert(eval_gates(s1, m) is None);
        } else {
            let m1 = m.union_prefer_right(split_map(x, k, 62));
            assert(eval_gate(g0, m) == Some(m1));
            assert(m1[b as int] == y);
            assert(eval_gate(g1, m1) is None);
            assert(eval_gates(s2, m) is None);
        }
        assert(eval_gates(s8, m) is None);
    }
}

/// Comparator correctness at the circuit boundary: in a compiled circuit
/// that reads two variables and compares them, the declared output wire
/// carries `1` under the reference evaluation exactly when the first input
/// is less than the second, for inputs inside the valid sub-range.
pub proof fn lemma_lt_circuit_eval(c: crate::circuit::CompiledCircuit, x: u64, y: u64)
    requires
        c.wf(),
        c.gates@ == comparator_gates(0, 1, 2),
        c.input_wires@ == seq![0usize, 1usize],
        c.num_wires == 195,
        x < CMP_LIMIT,
        y < CMP_LIMIT,
    ensures
        c.eval(seq![x, y]) matches Some(m) && m[194] == (if x < y {
            1u64
        } else {
            0u64
        }),
{
    let iw = seq![0usize, 1usize];
    let vals = seq![x, y];
    let m0 = crate::circuit::input_map(iw, vals);
    assert(iw.drop_last() =~= seq![0usize]);
    assert(vals.drop_last() =~= seq![x]);
    assert(seq![0usize].drop_last() =~= Seq::<usize>::empty());
    assert(seq![x].drop_last() =~= Seq::<u64>::empty());
    let m0a = crate::circuit::input_map(seq![0usize], seq![x]);
    assert(m0a == crate::circuit::input_map(Seq::<usize>::empty(), Seq::<u64>::empty()).insert(
        0,
        x,
    ));
    assert(m0a == Map::<int, u64>::empty().insert(0, x));
    assert(m0 == m0a.insert(1, y));
    assert(m0 == Map::<int, u64>::empty().insert(0, x).insert(1, y));
    assert(m0.dom() =~= set![0int, 1int]);
    assert(m0[0] == x && m0[1] == y);
    lemma_comparator_eval(0, 1, 2, m0);
}

/// Non-strict comparator correctness: `lte` is the disjunction of `lt` and
/// equality. For operand values inside `[0, CMP_LIMIT)` its output wire
/// evaluates to `1` exactly when the value of `a`'s wire is at most that of
/// `b`'s; outside the sub-range, evaluation is unsatisfiable.
pub proof fn lemma_lte_eval(a: usize, b: usize, k: usize, m: Map<int, u64>)
    requires
        m.dom().contains(a as int),
        m.dom().contains(b as int),
        bounded(m),
        a < k,
        b < k,
        k + 197 <= usize::MAX,
        forall|j: int| k <= j < k + 197 ==> !m.dom().contains(j),
    ensures
        ({
            let x = m[a as int];
            let y = m[b as int];
            let r = eval_gates(
                comparator_gates(a, b, k) + lte_tail_gates(a, b, k),
                m,
            );
            &&& (x < CMP_LIMIT && y < CMP_LIMIT ==> (r matches Some(m2) && {
                &&& m2[(k + 196) as int] == (if x <= y {
                    1u64
                } else {
                    0u64
                })
                &&& forall|t: int|
                    m.dom().contains(t) ==> m2.dom().contains(t) && m2[t] == m[t]
            }))
            &&& (!(x < CMP_LIMIT && y < CMP_LIMIT) ==> r is None)
        }),
{
    let x = m[a as int];
    let y = m[b as int];
    let comp = comparator_gates(a, b, k);
    let tail = lte_tail_gates(a, b, k);
    lemma_comparator_eval(a, b, k, m);
    lemma_eval_append(comp, tail, m);
    if x < CMP_LIMIT && y < CMP_LIMIT {
        let m1 = eval_gates(comp, m)->Some_0;
        let lt = m1[(k + 192) as int];
        assert(m1[a as int] == x && m1[b as int] == y);
        let t0 = tail[0];
        let t1 = tail[1];
        let t2 = tail[2];
        let t3 = tail[3];
        let s0 = Seq::<Gate>::empty();
        let s1 = s0.push(t0);
        let s2 = s1.push(t1);
        let s3 = s2.push(t2);
        let s4 = s3.push(t3);
        assert(tail =~= s4);
        lemma_eval_snoc(s0, t0, m1);
        lemma_eval_snoc(s1, t1, m1);
        lemma_eval_snoc(s2, t2, m1);
        lemma_eval_snoc(s3, t3, m1);
        let eq: u64 = if x == y {
            1
        } else {
            0
        };
        let m2 = m1.insert((k + 193) as int, eq);
        assert(eval_gate(t0, m1) == Some(m2));
        assert(m2[(k + 192) as int] == lt && m2[(k + 193) as int] == eq);
        let prod = f_mul(lt as int, eq as int) as u64;
        assert(prod == (if lt == 1 && eq == 1 {
            1u64
        } else {
            0u64
        })) by {
            assert((0int * 0int) % (P as int) == 0);
            assert((0int * 1int) % (P as int) == 0);
            assert((1int * 0int) % (P as int) == 0);
            assert((1int * 1int) % (P as int) == 1);
        }
        let m3 = m2.insert((k + 194) as int, prod);
        assert(eval_gate(t1, m2) == Some(m3));
        let s = f_add(lt as int, eq as int) as u64;
        let m4 = m3.insert((k + 195) as int, s);
        assert(eval_gate(t2, m3) == Some(m4));
        assert(m4[(k + 195) as int] == s && m4[(k + 194) as int] == prod);
        let orv = f_sub(s as int, prod as int) as u64;
        assert(orv == (if x <= y {
            1u64
        } else {
            0u64
        }));
        let m5 = m4.insert((k + 196) as int, orv);
        assert(eval_gate(t3, m4) == Some(m5));
        assert(eval_gates(comp + tail, m) == Some(m5));
        assert forall|t: int| m.dom().contains(t) implies m5.dom().contains(t) && m5[t]
            == m[t] by {
            assert(!(k <= t < k + 197));
        }
    }
}

} // verus!
