use plonky2x::circuit::CircuitError;
use plonky2x::evm::{build_byte_xor_circuit, byte_to_field_bits, field_bits_to_byte};
use plonky2x::prover::LocalProver;
use plonky2x::vars::{BoolVariable, CircuitVariable, Variable};

fn xor_bytes(a: u8, b: u8) -> u8 {
    let circuit = build_byte_xor_circuit();
    let mut inputs = circuit.input();
    for byte in [a, b] {
        for bit in byte_to_field_bits(byte) {
            inputs.write::<BoolVariable>(bit == 1);
        }
    }
    let prover = LocalProver::new();
    let (proof, mut output) = prover.prove(&circuit, &inputs).unwrap();
    assert!(circuit.verify(&proof, &inputs, &output));
    let mut bits: Vec<u64> = Vec::new();
    for _ in 0..8 {
        bits.push(if output.read::<BoolVariable>() { 1 } else { 0 });
    }
    field_bits_to_byte(&bits).unwrap()
}

#[test]
fn test_byte_xor_circuit() {
    assert_eq!(xor_bytes(0x3C, 0xA5), 0x99);
    assert_eq!(xor_bytes(0x00, 0x00), 0x00);
    assert_eq!(xor_bytes(0x00, 0xFF), 0xFF);
    assert_eq!(xor_bytes(0xFF, 0xFF), 0x00);
}

#[test]
fn test_byte_bits_roundtrip() {
    for b in [0x00u8, 0x01, 0x80, 0xFF, 0x5A] {
        let bits = byte_to_field_bits(b);
        assert_eq!(bits.len(), 8);
        assert_eq!(field_bits_to_byte(&bits), Some(b));
    }
    // A purported bit outside {0, 1} reassembles to nothing.
    let bad: Vec<u64> = vec![2, 0, 0, 0, 0, 0, 0, 0];
    assert_eq!(field_bits_to_byte(&bad), None);
}

#[test]
fn test_non_boolean_byte_input_is_rejected() {
    let circuit = build_byte_xor_circuit();
    let mut inputs = circuit.input();
    // One wire of the first byte holds 2: the boolean constraint on the
    // byte-oriented inputs must make the witness unsatisfiable.
    inputs.write::<Variable>(2);
    for _ in 0..15 {
        inputs.write::<BoolVariable>(false);
    }
    let err = circuit.prove(&inputs).unwrap_err();
    assert_eq!(err, CircuitError::ConstraintUnsatisfied);
}
