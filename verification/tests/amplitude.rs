use qvnt::operator::amplitude::{amplitude_terms, Coef, Term};
use qvnt::operator::angle::Angle;
use qvnt::operator::single::{pauli, rotate, swap};
use qvnt::backend::{BackendError, MultiThreadBuilder};

fn root(source: usize, k: u8, h: u8) -> Term {
    Term { source, coef: Coef::Root(k, h) }
}

#[test]
fn pauli_terms() {
    let x = pauli::x(0b01);
    assert_eq!(amplitude_terms(&x, 0b10), vec![root(0b11, 0, 0)]);
    let y = pauli::y(0b1);
    assert_eq!(amplitude_terms(&y, 0), vec![root(1, 6, 0)]);
    assert_eq!(amplitude_terms(&y, 1), vec![root(0, 2, 0)]);
    let z = pauli::z(0b11);
    assert_eq!(amplitude_terms(&z, 0b01), vec![root(0b01, 4, 0)]);
    assert_eq!(amplitude_terms(&z, 0b11), vec![root(0b11, 0, 0)]);
    let s = pauli::s(0b111);
    assert_eq!(amplitude_terms(&s, 0b011), vec![root(0b011, 4, 0)]);
    assert_eq!(amplitude_terms(&s.dgr(), 0b001), vec![root(0b001, 6, 0)]);
    let t = pauli::t(0b111);
    assert_eq!(amplitude_terms(&t, 0b111), vec![root(0b111, 3, 0)]);
    assert_eq!(amplitude_terms(&t.dgr(), 0b111), vec![root(0b111, 5, 0)]);
}

#[test]
fn controlled_terms() {
    let cx = pauli::x(0b01).c(0b10).unwrap();
    assert_eq!(amplitude_terms(&cx, 0b00), vec![root(0b00, 0, 0)]);
    assert_eq!(amplitude_terms(&cx, 0b10), vec![root(0b11, 0, 0)]);
}

#[test]
fn hadamard_and_swap_terms() {
    let h = qvnt::operator::h(0b1);
    assert_eq!(amplitude_terms(h.get(0), 1), vec![root(1, 4, 1), root(0, 0, 1)]);
    let sw = swap::swap(0b101).unwrap();
    assert_eq!(amplitude_terms(&sw, 0b001), vec![root(0b100, 0, 0)]);
    assert_eq!(amplitude_terms(&sw, 0b101), vec![root(0b101, 0, 0)]);
    let isw = swap::i_swap(0b11).unwrap();
    assert_eq!(amplitude_terms(&isw, 0b01), vec![root(0b10, 2, 0)]);
    assert_eq!(amplitude_terms(&isw.dgr(), 0b01), vec![root(0b10, 6, 0)]);
    let sq = swap::sqrt_swap(0b11).unwrap();
    assert_eq!(
        amplitude_terms(&sq, 0b10),
        vec![root(0b10, 1, 1), root(0b01, 7, 1)]
    );
}

#[test]
fn rotation_terms() {
    let a = Angle::from_bits(1.25f64.to_bits());
    let rx = rotate::rx(0b10, a).unwrap();
    assert_eq!(
        amplitude_terms(&rx, 0b00),
        vec![
            Term { source: 0b00, coef: Coef::Cos(a) },
            Term { source: 0b10, coef: Coef::Sin(a, 6) }
        ]
    );
    let ry = rotate::ry(0b1, a).unwrap();
    assert_eq!(
        amplitude_terms(&ry, 0)[1],
        Term { source: 1, coef: Coef::Sin(a, 4) }
    );
    let rz = rotate::rz(0b1, a).unwrap();
    assert_eq!(
        amplitude_terms(&rz, 0),
        vec![Term { source: 0, coef: Coef::Exp(a, true) }]
    );
    assert_eq!(
        amplitude_terms(&rz.dgr(), 1),
        vec![Term { source: 1, coef: Coef::Exp(a.neg(), false) }]
    );
}

#[test]
fn phase_terms() {
    let a = Angle::from_bits(0.5f64.to_bits());
    let b = Angle::from_bits(2.0f64.to_bits());
    let p = pauli::phi(vec![(a, 0b11), (b, 0b100)]);
    assert_eq!(
        amplitude_terms(&p, 0b111),
        vec![Term { source: 0b111, coef: Coef::Phases(vec![(a, 2), (b, 1)]) }]
    );
}

#[test]
fn builders_and_errors() {
    assert_eq!(MultiThreadBuilder::with(0).num_threads, None);
    assert_eq!(MultiThreadBuilder::with(4).num_threads, Some(4));
    match "boom".parse::<BackendError>() {
        Ok(BackendError::Custom(s)) => assert_eq!(s, "boom"),
        Err(_) => unreachable!(),
    }
    match BackendError::from("x".to_string()) {
        BackendError::Custom(s) => assert_eq!(s, "x"),
    }
}
