use vstd::prelude::*;

use crate::field::P;

verus! {

/// The canonical little-endian byte encoding of one field element.
pub open spec fn u64_le_bytes(x: u64) -> Seq<u8> {
    Seq::new(8, |i: int| ((x >> (8 * i) as u64) & 0xFF) as u8)
}

/// The field element read back from eight little-endian bytes.
pub open spec fn le_bytes_u64(s: Seq<u8>) -> u64
    recommends
        s.len() == 8,
{
    (s[0] as u64) | (s[1] as u64) << 8u64 | (s[2] as u64) << 16u64 | (s[3] as u64) << 24u64 | (
    s[4] as u64) << 32u64 | (s[5] as u64) << 40u64 | (s[6] as u64) << 48u64 | (s[7] as u64)
        << 56u64
}

/// The canonical byte encoding of a value list: eight bytes per value,
/// little-endian, concatenated in order.
pub open spec fn values_bytes(vs: Seq<u64>) -> Seq<u8> {
    Seq::new(vs.len() * 8, |i: int| u64_le_bytes(vs[i / 8])[i % 8])
}

/// The value list read back from a byte string, when the string has exactly
/// `n` eight-byte groups and every group decodes to a canonical field
/// element; otherwise nothing.
pub open spec fn bytes_values(bs: Seq<u8>, n: nat) -> Option<Seq<u64>> {
    if bs.len() == n * 8 && (forall|i: int|
        0 <= i < n ==> le_bytes_u64(#[trigger] bs.subrange(i * 8, i * 8 + 8)) < P) {
        Some(Seq::new(n, |i: int| le_bytes_u64(bs.subrange(i * 8, i * 8 + 8))))
    } else {
        None
    }
}

/// Byte round-trip for one value: decoding the encoding gives the value back.
pub proof fn lemma_u64_roundtrip(x: u64)
    ensures
        le_bytes_u64(u64_le_bytes(x)) == x,
{
    let s = u64_le_bytes(x);
    assert(s[0] == ((x >> 0u64) & 0xFF) as u8 && s[1] == ((x >> 8u64) & 0xFF) as u8 && s[2] == ((x
        >> 16u64) & 0xFF) as u8 && s[3] == ((x >> 24u64) & 0xFF) as u8 && s[4] == ((x >> 32u64)
        & 0xFF) as u8 && s[5] == ((x >> 40u64) & 0xFF) as u8 && s[6] == ((x >> 48u64) & 0xFF) as u8
        && s[7] == ((x >> 56u64) & 0xFF) as u8);
    assert(((((x >> 0u64) & 0xFF) as u8) as u64) | (((((x >> 8u64) & 0xFF) as u8) as u64) << 8u64)
        | (((((x >> 16u64) & 0xFF) as u8) as u64) << 16u64) | (((((x >> 24u64) & 0xFF) as u8)
        as u64) << 24u64) | (((((x >> 32u64) & 0xFF) as u8) as u64) << 32u64) | (((((x >> 40u64)
        & 0xFF) as u8) as u64) << 40u64) | (((((x >> 48u64) & 0xFF) as u8) as u64) << 48u64) | ((((
    (x >> 56u64) & 0xFF) as u8) as u64) << 56u64) == x) by (bit_vector);
}

/// Byte round-trip for a canonical value list.
pub proof fn lemma_values_roundtrip(vs: Seq<u64>)
    requires
        forall|i: int| 0 <= i < vs.len() ==> vs[i] < P,
    ensures
        bytes_values(values_bytes(vs), vs.len()) == Some(vs),
{
    let bs = values_bytes(vs);
    assert(bs.len() == vs.len() * 8);
    assert forall|i: int| 0 <= i < vs.len() implies #[trigger] bs.subrange(i * 8, i * 8 + 8)
        =~= u64_le_bytes(vs[i]) by {
        assert forall|j: int| 0 <= j < 8 implies bs.subrange(i * 8, i * 8 + 8)[j] == u64_le_bytes(
            vs[i],
        )[j] by {
            assert(bs[i * 8 + j] == u64_le_bytes(vs[(i * 8 + j) / 8])[(i * 8 + j) % 8]);
            vstd::arithmetic::div_mod::lemma_fundamental_div_mod_converse(i * 8 + j, 8, i, j);
        }
    }
    assert forall|i: int| 0 <= i < vs.len() implies le_bytes_u64(
        #[trigger] bs.subrange(i * 8, i * 8 + 8),
    ) < P by {
        lemma_u64_roundtrip(vs[i]);
    }
    let out = bytes_values(bs, vs.len())->Some_0;
    assert forall|i: int| 0 <= i < vs.len() implies out[i] == vs[i] by {
        lemma_u64_roundtrip(vs[i]);
    }
    assert(out =~= vs);
}

/// Encodes a value list to its canonical byte string.
pub fn encode_values(vs: &Vec<u64>) -> (r: Vec<u8>)
    ensures
        r@ == values_bytes(vs@),
{
    let mut r: Vec<u8> = Vec::new();
    let mut i: usize = 0;
    while i < vs.len()
        invariant
            0 <= i <= vs@.len(),
            r@ =~= values_bytes(vs@.take(i as int)),
        decreases vs@.len() - i,
    {
        let x = vs[i];
        let mut j: usize = 0;
        while j < 8
            invariant
                0 <= j <= 8,
                x == vs@[i as int],
                0 <= i < vs@.len(),
                r@ =~= values_bytes(vs@.take(i as int)) + u64_le_bytes(x).take(j as int),
            decreases 8 - j,
        {
            let b = ((x >> (8 * (j as u64))) & 0xFF) as u8;
            r.push(b);
            proof {
                assert(b == u64_le_bytes(x)[j as int]);
                assert(r@ =~= values_bytes(vs@.take(i as int)) + u64_le_bytes(x).take(
                    j as int + 1,
                ));
            }
            j = j + 1;
        }
        proof {
            assert(u64_le_bytes(x).take(8) =~= u64_le_bytes(x));
            assert forall|t: int|
                0 <= t < (i + 1) * 8 implies (values_bytes(vs@.take(i as int)) + u64_le_bytes(
                x,
            ))[t] == values_bytes(vs@.take(i as int + 1))[t] by {
                let q = t / 8;
                let rr = t % 8;
                vstd::arithmetic::div_mod::lemma_fundamental_div_mod(t, 8);
                assert(t == 8 * q + rr && 0 <= rr < 8);
                assert(0 <= q <= i);
                if q < i {
                    assert(t < i * 8);
                    assert(vs@.take(i as int + 1)[q] == vs@.take(i as int)[q]);
                } else {
                    assert(t >= i * 8);
                    assert(vs@.take(i as int + 1)[q] == x);
                }
            }
            assert(r@ =~= values_bytes(vs@.take(i as int + 1)));
        }
        i = i + 1;
    }
    proof {
        assert(vs@.take(vs@.len() as int) =~= vs@);
    }
    r
}

/// Decodes a byte string expected to hold exactly `n` canonical values;
/// yields nothing on a length mismatch or a non-canonical group.
pub fn decode_values(bs: &Vec<u8>, n: usize) -> (r: Option<Vec<u64>>)
    requires
        n * 8 <= usize::MAX,
    ensures
        match r {
            Some(vs) => bytes_values(bs@, n as nat) == Some(vs@),
            None => bytes_values(bs@, n as nat) is None,
        },
{
    if bs.len() != n * 8 {
        return None;
    }
    let mut vs: Vec<u64> = Vec::new();
    let mut i: usize = 0;
    while i < n
        invariant
            0 <= i <= n,
            bs@.len() == n * 8,
            n * 8 <= usize::MAX,
            vs@.len() == i,
            forall|t: int|
                0 <= t < i ==> le_bytes_u64(#[trigger] bs@.subrange(t * 8, t * 8 + 8)) < P
                    && vs@[t] == le_bytes_u64(bs@.subrange(t * 8, t * 8 + 8)),
        decreases n - i,
    {
        proof {
            assert(i * 8 + 8 <= n * 8) by (nonlinear_arith)
                requires
                    i < n,
            ;
            assert(i * 8 >= 0);
        }
        let base = i * 8;
        let x: u64 = (bs[base] as u64) | (bs[base + 1] as u64) << 8 | (bs[base + 2] as u64) << 16
            | (bs[base + 3] as u64) << 24 | (bs[base + 4] as u64) << 32 | (bs[base + 5] as u64)
            << 40 | (bs[base + 6] as u64) << 48 | (bs[base + 7] as u64) << 56;
        proof {
            let ss = bs@.subrange(i as int * 8, i as int * 8 + 8);
            assert(ss[0] == bs@[base as int] && ss[1] == bs@[base as int + 1] && ss[2]
                == bs@[base as int + 2] && ss[3] == bs@[base as int + 3] && ss[4] == bs@[base as int
                + 4] && ss[5] == bs@[base as int + 5] && ss[6] == bs@[base as int + 6] && ss[7]
                == bs@[base as int + 7]);
            assert(x == le_bytes_u64(ss));
        }
        if x >= P {
            return None;
        }
        vs.push(x);
        i = i + 1;
    }
    proof {
        let out = Seq::new(n as nat, |t: int| le_bytes_u64(bs@.subrange(t * 8, t * 8 + 8)));
        assert(vs@ =~= out);
    }
    Some(vs)
}

} // verus!
