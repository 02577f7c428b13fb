use zkfl::aggregation::{AddCircuit, AddGate};
use zkfl::endpoint::{rocket, Handler, Method};
use zkfl::field::Scalar;

fn s(x: u64) -> Scalar {
    Scalar::from_u64(x)
}

fn two_pow_64_plus_one() -> Scalar {
    let mut bytes = [0u8; 32];
    bytes[0] = 1;
    bytes[8] = 1;
    Scalar::from_repr(bytes).unwrap()
}

#[test]
fn add_circuit_from_values() {
    let c = AddCircuit::from_values(&vec![1, 2], &vec![3, 4]);
    assert_eq!(c.a, vec![s(1), s(2)]);
    assert_eq!(c.b, vec![s(3), s(4)]);
}

#[test]
fn add_circuit_new_has_the_requested_length() {
    let c = AddCircuit::new(8);
    assert_eq!(c.a.len(), 8);
    assert_eq!(c.b.len(), 8);
    let e = AddCircuit::new(0);
    assert!(e.a.is_empty() && e.b.is_empty());
}

#[test]
fn add_circuit_gates_hold_sums() {
    let c = AddCircuit::from_values(&vec![2, u64::MAX, 0], &vec![3, 2, 7]);
    let (gates, next) = c.synthesize();
    assert_eq!(
        gates,
        vec![
            AddGate { a: s(2), b: s(3), c: s(5) },
            AddGate { a: s(u64::MAX), b: s(2), c: two_pow_64_plus_one() },
            AddGate { a: s(0), b: s(7), c: s(7) },
        ]
    );
    assert_eq!(next, vec![s(1)]);
}

#[test]
fn add_circuit_random_gates_hold_sums() {
    let c = AddCircuit::new(16);
    let (gates, next) = c.synthesize();
    assert_eq!(gates.len(), 16);
    for (i, g) in gates.iter().enumerate() {
        assert_eq!(g.a, c.a[i]);
        assert_eq!(g.b, c.b[i]);
        assert_eq!(g.c, c.a[i].add(&c.b[i]));
    }
    assert_eq!(next, vec![s(1)]);
}

#[test]
fn add_circuit_arity_is_one() {
    assert_eq!(AddCircuit::from_values(&vec![], &vec![]).arity(), 1);
}

#[test]
fn adapter_routes() {
    let m = rocket();
    assert_eq!(m.base, "/");
    assert_eq!(m.routes.len(), 1);
    let r = &m.routes[0];
    assert_eq!(r.method, Method::Post);
    assert_eq!(r.path, "/compute");
    assert_eq!(r.format, "json");
    assert_eq!(r.data, "compute_request");
    assert_eq!(r.handler, Handler::Compute);
}
