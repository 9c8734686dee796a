use plonky2x::builder::CircuitBuilder;
use plonky2x::circuit::CircuitError;
use plonky2x::codec::{decode_values, encode_values};
use plonky2x::field::{field_add, field_inv, field_mul, field_neg, field_sub, P};
use plonky2x::prover::LocalProver;
use plonky2x::vars::{
    roundtrip_through_variables, BoolVariable, CircuitVariable, Variable,
};

#[test]
fn test_variable_roundtrip() {
    let v = Variable(7);
    let vars = v.variables();
    assert_eq!(vars.len(), 1);
    assert_eq!(vars[0].0, 7);
    let back = Variable::from_variables(vars.as_slice());
    assert_eq!(back.0, v.0);
    let again = roundtrip_through_variables(&v);
    assert_eq!(again.0, 7);
}

#[test]
fn test_bool_variable_roundtrip() {
    let b = BoolVariable(Variable(3));
    let back = roundtrip_through_variables(&b);
    assert_eq!(back.0 .0, 3);
}

#[test]
fn test_constant_get_without_set() {
    let mut builder = CircuitBuilder::new();
    let c = Variable::constant(&mut builder, 42);
    let circuit = builder.build();
    let inputs = circuit.input();
    let witness = circuit.generate_witness(&inputs).unwrap();
    assert_eq!(c.get(&witness), 42);
}

#[test]
fn test_constant_reduces_modulo_field_order() {
    let mut builder = CircuitBuilder::new();
    let c = Variable::constant(&mut builder, u64::MAX);
    let circuit = builder.build();
    let witness = circuit.generate_witness(&circuit.input()).unwrap();
    // u64::MAX reduces to 2^32 - 2 in the Goldilocks field.
    assert_eq!(c.get(&witness), 0xFFFF_FFFE);
}

#[test]
fn test_set_then_get() {
    let mut builder = CircuitBuilder::new();
    let v = builder.read::<Variable>();
    let circuit = builder.build();
    let mut inputs = circuit.input();
    inputs.write::<Variable>(9);
    let mut witness = circuit.generate_witness(&inputs).unwrap();
    v.set(&mut witness, 123);
    assert_eq!(v.get(&witness), 123);
}

#[test]
fn test_arithmetic_matches_plain_evaluation() {
    // The same circuit proved on two different inputs agrees with plain
    // field arithmetic on those inputs.
    let mut builder = CircuitBuilder::new();
    let a = builder.read::<Variable>();
    let b = builder.read::<Variable>();
    let s = builder.add(a, b);
    let d = builder.sub(a, b);
    let p = builder.mul(a, b);
    builder.write::<Variable>(s);
    builder.write::<Variable>(d);
    builder.write::<Variable>(p);
    let circuit = builder.build();

    for (x, y) in [(3u64, 4u64), (P - 1, 5)] {
        let mut inputs = circuit.input();
        inputs.write::<Variable>(x);
        inputs.write::<Variable>(y);
        let (proof, mut output) = circuit.prove(&inputs).unwrap();
        assert!(circuit.verify(&proof, &inputs, &output));
        assert_eq!(output.read::<Variable>(), field_add(x % P, y % P));
        assert_eq!(output.read::<Variable>(), field_sub(x % P, y % P));
        assert_eq!(output.read::<Variable>(), field_mul(x % P, y % P));
    }
}

#[test]
fn test_local_prover_matches_verifier() {
    let mut builder = CircuitBuilder::new();
    let a = builder.read::<Variable>();
    let b = builder.read::<Variable>();
    let q = builder.div(a, b);
    builder.write::<Variable>(q);
    let circuit = builder.build();

    let mut inputs = circuit.input();
    inputs.write::<Variable>(10);
    inputs.write::<Variable>(5);
    let prover = LocalProver::new();
    let (proof, mut output) = prover.prove(&circuit, &inputs).unwrap();
    assert!(circuit.verify(&proof, &inputs, &output));
    assert_eq!(output.read::<Variable>(), 2);
}

#[test]
fn test_division_by_zero_is_constraint_unsatisfied() {
    let mut builder = CircuitBuilder::new();
    let a = builder.read::<Variable>();
    let b = builder.read::<Variable>();
    let q = builder.div(a, b);
    builder.write::<Variable>(q);
    let circuit = builder.build();

    let mut inputs = circuit.input();
    inputs.write::<Variable>(10);
    inputs.write::<Variable>(0);
    let err = circuit.prove(&inputs).unwrap_err();
    assert_eq!(err, CircuitError::ConstraintUnsatisfied);
}

#[test]
fn test_field_operations_exact_values() {
    assert_eq!(field_add(P - 1, 1), 0);
    assert_eq!(field_add(2, 3), 5);
    assert_eq!(field_sub(0, 1), P - 1);
    assert_eq!(field_neg(1), P - 1);
    assert_eq!(field_neg(0), 0);
    assert_eq!(field_mul(1 << 32, 1 << 32), 0xFFFF_FFFF);
    assert_eq!(field_mul(5, field_inv(5)), 1);
}

#[test]
fn test_is_equal_and_logic() {
    let mut builder = CircuitBuilder::new();
    let a = builder.read::<Variable>();
    let b = builder.read::<Variable>();
    let e = builder.is_equal(a, b);
    builder.write::<BoolVariable>(e);
    let circuit = builder.build();

    for (x, y, want) in [(4u64, 4u64, true), (4, 5, false)] {
        let mut inputs = circuit.input();
        inputs.write::<Variable>(x);
        inputs.write::<Variable>(y);
        let (proof, mut output) = circuit.prove(&inputs).unwrap();
        assert!(circuit.verify(&proof, &inputs, &output));
        assert_eq!(output.read::<BoolVariable>(), want);
    }
}

#[test]
fn test_codec_roundtrip_boundary_bytes() {
    // decode(encode(x)) == x, for values whose encodings exercise the
    // boundary byte values 0x00 and 0xFF and multi-byte composites.
    let vals: Vec<u64> = vec![0x00, 0xFF, 0xFF00, 0xDEAD_BEEF_0123, P - 1];
    let bytes = encode_values(&vals);
    assert_eq!(bytes.len(), vals.len() * 8);
    assert_eq!(bytes[0], 0x00);
    assert_eq!(bytes[8], 0xFF);
    assert_eq!(bytes[9], 0x00);
    let back = decode_values(&bytes, vals.len()).unwrap();
    assert_eq!(back, vals);
}

#[test]
fn test_codec_rejects_bad_input() {
    // A byte string of the wrong length decodes to nothing.
    let bytes: Vec<u8> = vec![1, 2, 3];
    assert!(decode_values(&bytes, 1).is_none());
    // A non-canonical group (>= P) decodes to nothing.
    let bytes: Vec<u8> = vec![0xFF; 8];
    assert!(decode_values(&bytes, 1).is_none());
}

#[test]
fn test_tampered_proof_fails_verification() {
    let mut builder = CircuitBuilder::new();
    let a = builder.read::<Variable>();
    let b = builder.read::<Variable>();
    let s = builder.add(a, b);
    builder.write::<Variable>(s);
    let circuit = builder.build();

    let mut inputs = circuit.input();
    inputs.write::<Variable>(1);
    inputs.write::<Variable>(2);
    let (mut proof, output) = circuit.prove(&inputs).unwrap();
    assert!(circuit.verify(&proof, &inputs, &output));
    // Flip the witness value of the sum wire: verification must fail.
    let last = proof.bytes.len() - 8;
    proof.bytes[last] ^= 1;
    assert!(!circuit.verify(&proof, &inputs, &output));
}
