use plonky2x::builder::CircuitBuilder;
use plonky2x::circuit::CircuitError;
use plonky2x::vars::{BoolVariable, Variable};

// The comparator's documented valid sub-range is [0, 2^62); values are drawn
// from it, since operands outside it make the witness unsatisfiable by design.
const SUB_RANGE: u64 = 1u64 << 62;

#[test]
fn test_lt() {
    let mut builder = CircuitBuilder::new();
    let lhs = builder.read::<Variable>();
    let rhs = builder.read::<Variable>();
    let less_than = builder.lt(lhs, rhs);
    builder.write::<BoolVariable>(less_than);

    let circuit = builder.build();

    let rand_lhs = rand::random::<u64>() % SUB_RANGE;
    let rand_rhs = rand::random::<u64>() % SUB_RANGE;
    let mut inputs = circuit.input();
    inputs.write::<Variable>(rand_lhs);
    inputs.write::<Variable>(rand_rhs);

    let (proof, mut output) = circuit.prove(&inputs).unwrap();
    assert!(circuit.verify(&proof, &inputs, &output));

    let expected_lt = rand_lhs < rand_rhs;
    let proof_lt = output.read::<BoolVariable>();

    assert_eq!(expected_lt, proof_lt);
}

#[test]
fn test_lt_edge_cases() {
    let mut builder = CircuitBuilder::new();
    let lhs = builder.read::<Variable>();
    let rhs = builder.read::<Variable>();
    let less_than = builder.lt(lhs, rhs);
    builder.write::<BoolVariable>(less_than);

    let circuit = builder.build();

    let max_lhs = u64::MAX;
    let max_rhs = u64::MAX;
    let mut inputs = circuit.input();
    inputs.write::<Variable>(max_lhs);
    inputs.write::<Variable>(max_rhs);

    let (proof, mut output) = circuit.prove(&inputs).unwrap();
    assert!(circuit.verify(&proof, &inputs, &output));

    let expected_lt = max_lhs < max_rhs;
    let proof_lt = output.read::<BoolVariable>();

    assert_eq!(expected_lt, proof_lt);
}

#[test]
fn test_lte() {
    let mut builder = CircuitBuilder::new();
    let lhs = builder.read::<Variable>();
    let rhs = builder.read::<Variable>();
    let less_than_or_eq = builder.lte(lhs, rhs);
    builder.write::<BoolVariable>(less_than_or_eq);

    let circuit = builder.build();

    let rand_lhs = rand::random::<u64>() % SUB_RANGE;
    let rand_rhs = rand::random::<u64>() % SUB_RANGE;
    let mut inputs = circuit.input();
    inputs.write::<Variable>(rand_lhs);
    inputs.write::<Variable>(rand_rhs);

    let (proof, mut output) = circuit.prove(&inputs).unwrap();
    assert!(circuit.verify(&proof, &inputs, &output));

    let expected_lte = rand_lhs <= rand_rhs;
    let proof_lte = output.read::<BoolVariable>();

    assert_eq!(expected_lte, proof_lte);
}

#[test]
fn test_lte_edge_cases() {
    let mut builder = CircuitBuilder::new();
    let lhs = builder.read::<Variable>();
    let rhs = builder.read::<Variable>();
    let less_than_or_equal = builder.lte(lhs, rhs);
    builder.write::<BoolVariable>(less_than_or_equal);

    let circuit = builder.build();

    let max_lhs = u64::MAX;
    let max_rhs = u64::MAX;
    let mut inputs = circuit.input();
    inputs.write::<Variable>(max_lhs);
    inputs.write::<Variable>(max_rhs);

    let (proof, mut output) = circuit.prove(&inputs).unwrap();
    assert!(circuit.verify(&proof, &inputs, &output));

    let expected_lte = max_lhs <= max_rhs;
    let proof_lte = output.read::<BoolVariable>();

    assert_eq!(expected_lte, proof_lte);
}

#[test]
fn test_lt_concrete_pairs() {
    for (a, b, want_lt, want_lte) in [
        (5u64, 10u64, true, true),
        (10, 5, false, false),
        (7, 7, false, true),
        (0, 0, false, true),
        (0, 1, true, true),
    ] {
        let mut builder = CircuitBuilder::new();
        let lhs = builder.read::<Variable>();
        let rhs = builder.read::<Variable>();
        let lt = builder.lt(lhs, rhs);
        let lte = builder.lte(lhs, rhs);
        builder.write::<BoolVariable>(lt);
        builder.write::<BoolVariable>(lte);
        let circuit = builder.build();

        let mut inputs = circuit.input();
        inputs.write::<Variable>(a);
        inputs.write::<Variable>(b);
        let (proof, mut output) = circuit.prove(&inputs).unwrap();
        assert!(circuit.verify(&proof, &inputs, &output));
        assert_eq!(output.read::<BoolVariable>(), want_lt);
        assert_eq!(output.read::<BoolVariable>(), want_lte);
    }
}

#[test]
fn test_lt_rejects_out_of_range_operand() {
    let mut builder = CircuitBuilder::new();
    let lhs = builder.read::<Variable>();
    let rhs = builder.read::<Variable>();
    let less_than = builder.lt(lhs, rhs);
    builder.write::<BoolVariable>(less_than);
    let circuit = builder.build();

    let mut inputs = circuit.input();
    inputs.write::<Variable>(SUB_RANGE);
    inputs.write::<Variable>(1);
    let err = circuit.prove(&inputs).unwrap_err();
    assert_eq!(err, CircuitError::ConstraintUnsatisfied);
}

#[test]
fn test_prove_rejects_wrong_input_count() {
    let mut builder = CircuitBuilder::new();
    let lhs = builder.read::<Variable>();
    let rhs = builder.read::<Variable>();
    let less_than = builder.lt(lhs, rhs);
    builder.write::<BoolVariable>(less_than);
    let circuit = builder.build();

    let mut inputs = circuit.input();
    inputs.write::<Variable>(5);
    let err = circuit.prove(&inputs).unwrap_err();
    assert_eq!(err, CircuitError::SerializationFailure);
}
