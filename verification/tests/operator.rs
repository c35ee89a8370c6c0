use qvnt::operator as op;
use qvnt::operator::angle::Angle;
use qvnt::operator::single::{pauli, rotate, swap, SingleOp};

fn angle(x: f64) -> Angle {
    Angle::from_bits(x.to_bits())
}

#[test]
fn name() {
    // The name stands in for the printed form: a type of the library has no
    // hand-written `Debug`.
    let single_op = pauli::x(123);
    assert_eq!(single_op.name(""), format!("X123"));

    let single_op = single_op.c(4).unwrap();
    assert_eq!(single_op.name(""), format!("C4_X123"));
}

#[test]
fn unwrap_op() {
    assert!(rotate::ryy(0b001, angle(1.35)).is_none());
    assert!(rotate::ryy(0b101, angle(1.35)).unwrap().c(0b001).is_none());
    let _ = rotate::ryy(0b101, angle(1.35)).unwrap().c(0b010).unwrap();

    assert!(swap::swap(0b001).is_none());
    assert!(swap::swap(0b101).unwrap().c(0b100).is_none());
    let _ = swap::swap(0b101).unwrap().c(0b010).unwrap();
}

#[test]
fn ops() {
    let pend_ops = op::id()
        * op::h(0b001).c(0b010).unwrap()
        * op::x(0b011).c(0b100).unwrap()
        * op::phi(vec![(angle(5.0), 0b001)]);

    assert_eq!(pend_ops.len(), 3);
}

fn names(m: &op::multi::MultiOp) -> Vec<String> {
    (0..m.len()).map(|i| m.get(i).name("")).collect()
}

#[test]
fn gate_names() {
    assert_eq!(pauli::x(1).name(""), "X1");
    assert_eq!(pauli::y(3).name(""), "Y3");
    assert_eq!(pauli::z(1).name(""), "Z1");
    assert_eq!(pauli::s(1).dgr().name(""), "S1");
    assert_eq!(pauli::t(2).name(""), "T2");
    assert_eq!(swap::swap(0b11).unwrap().name(""), "SWAP3");
    assert_eq!(swap::i_swap(0b11).unwrap().dgr().name(""), "iSWAP3");
    assert_eq!(swap::sqrt_swap(0b11).unwrap().name(""), "sqrt(SWAP3)");
    assert_eq!(swap::sqrt_i_swap(0b11).unwrap().name(""), "sqrt(iSWAP3)");
    assert_eq!(rotate::rx(0b1, angle(1.23456)).unwrap().name("1.23456"), "RX1[1.23456]");
    assert_eq!(rotate::rxx(0b11, angle(1.23456)).unwrap().name("1.23456"), "RXX3(1.23456)");
    assert_eq!(rotate::ry(0b1, angle(1.23456)).unwrap().name("1.23456"), "RY1(1.23456)");
    assert_eq!(rotate::ryy(0b11, angle(1.23456)).unwrap().name("1.23456"), "RYY3[1.23456]");
    assert_eq!(rotate::rz(0b1, angle(1.23456)).unwrap().name("1.23456"), "RZ1(1.23456)");
    assert_eq!(rotate::rzz(0b11, angle(1.23456)).unwrap().name("1.23456"), "RZZ3[1.23456]");
    assert_eq!(pauli::x(1).name("ignored"), "X1");
    assert_eq!(pauli::phi(vec![(angle(1.0), 0b1)]).name("{1: 1}"), "Phase{1: 1}");
}

#[test]
fn rotation_mask_checks() {
    assert!(rotate::rx(0b11, angle(1.0)).is_none());
    assert!(rotate::rx(0, angle(1.0)).is_none());
    assert!(rotate::rxx(0b1, angle(1.0)).is_none());
    assert!(rotate::rz(0b100, angle(1.0)).is_some());
    assert!(swap::sqrt_swap(0b111).is_none());
}

#[test]
fn control_overlap() {
    let x = pauli::x(0b01);
    assert!(x.clone().c(0b01).is_none());
    let cx = x.c(0b10).unwrap();
    assert_eq!(cx.ctrl(), 0b10);
    assert_eq!(cx.act(), 0b01);
    assert_eq!(cx.act_on(), 0b11);
    let ccx = cx.c(0b100).unwrap();
    assert_eq!(ccx.ctrl(), 0b110);
}

#[test]
fn hadamard_transform() {
    assert_eq!(op::h(0).len(), 0);
    assert_eq!(names(&op::h(0b1)), vec!["H1"]);
    let h = op::h(0b10110);
    assert_eq!(names(&h), vec!["H6", "H16"]);
    assert_eq!(h.act_on(), 0b10110);
}

#[test]
fn fourier_transform() {
    let q = op::qft(0b111);
    assert_eq!(names(&q), vec!["H1", "C1_Phase", "H2", "C2_Phase", "H4"]);
    assert_eq!(q.get(1).act(), 0b110);
    assert_eq!(q.act_on(), 0b111);
    let qs = op::qft_swapped(0b111);
    assert_eq!(qs.len(), 6);
    assert_eq!(qs.get(0).name(""), "SWAP5");
    assert_eq!(op::qft_swapped(0b1111).len(), 7 + 2);
}

#[test]
fn inverse_queue() {
    let q = op::s(0b1) * op::x(0b10) * op::t(0b100);
    let d = q.clone().dgr();
    assert_eq!(names(&d), vec!["T4", "X2", "S1"]);
    let dd = d.dgr();
    assert_eq!(names(&dd), names(&q));
    match dd.get(0).func() {
        qvnt::operator::atomic::AtomicOpDispatch::S(1, false) => {}
        _ => panic!("the inverse of the inverse is this gate itself"),
    }
}

#[test]
fn control_queue() {
    let q = op::x(0b1) * op::y(0b10);
    assert!(q.clone().c(0b10).is_none());
    let c = q.c(0b100).unwrap();
    assert_eq!(names(&c), vec!["C4_X1", "C4_Y2"]);
}

#[test]
fn angle_bits() {
    assert_eq!(
        Angle::pi_over_pow2(1).to_bits(),
        std::f64::consts::FRAC_PI_2.to_bits()
    );
    assert_eq!(
        Angle::pi_over_pow2(3).to_bits(),
        std::f64::consts::FRAC_PI_8.to_bits()
    );
    assert_eq!(
        Angle::pi_over_pow2(1000).to_bits(),
        (std::f64::consts::PI * 0.5f64.powi(1000)).to_bits()
    );
    assert_eq!(angle(1.5).neg().to_bits(), (-1.5f64).to_bits());
    assert_eq!(angle(1.5).neg().neg(), angle(1.5));
}

#[test]
fn single_from_gate() {
    let s = SingleOp::from(qvnt::operator::atomic::AtomicOpDispatch::H2(0b1, 0b100));
    assert_eq!(s.act(), 0b101);
    assert_eq!(s.name(""), "H5");
    assert!(!s.is_id());
    assert!(SingleOp::from(qvnt::operator::atomic::AtomicOpDispatch::Id).is_id());
}

#[test]
fn bench_circuit_builds() {
    let frac_pi_6 = angle(std::f64::consts::FRAC_PI_6);
    let ops = op::id()
        * op::h(0b111)
        * op::h(0b100).c(0b001).unwrap()
        * op::x(0b001).c(0b110).unwrap()
        * op::rx(angle(1.2), 0b100)
        * op::rz(angle(1.0), 0b010).c(0b001).unwrap()
        * op::h(0b001).c(0b100).unwrap()
        * op::z(0b010)
        * op::rxx(frac_pi_6, 0b101);
    assert_eq!(
        names(&ops),
        vec!["H3", "H4", "C1_H4", "C6_X1", "RX4[]", "C1_RZ2()", "C4_H1", "Z2", "RXX5()"]
    );
}

#[test]
fn phase_without_qubits_is_identity() {
    assert_eq!(op::phi(vec![]).len(), 0);
    assert_eq!(op::phi(vec![(angle(1.0), 0), (angle(2.0), 0)]).len(), 0);
    assert!(pauli::phi(vec![(angle(1.0), 0)]).is_id());
    assert_eq!(op::phi(vec![(angle(1.0), 0), (angle(2.0), 0b10)]).len(), 1);
}

#[test]
fn queue_equality_and_products() {
    assert!(op::rx(angle(0.5), 1) == op::rx(angle(0.5), 1));
    assert!(op::rx(angle(0.5), 1) != op::rx(angle(0.25), 1));
    assert!(op::s(1) == op::s(1).dgr());
    assert!(op::x(1) * op::y(2) == op::x(1) * op::y(2));
    assert!(op::x(1) != op::x(2));
    assert!(op::x(1) * op::y(2) != op::x(1));
    let q = op::id()
        * pauli::x(1)
        * SingleOp::from(qvnt::operator::atomic::AtomicOpDispatch::Id)
        * pauli::z(2);
    assert_eq!(q.len(), 2);
    assert_eq!(q.front().unwrap().name(""), "X1");
    assert_eq!(q.back().unwrap().name(""), "Z2");
    let mut r = op::x(4);
    r.mul_assign_single(pauli::y(8));
    r.mul_assign(op::h(1));
    assert_eq!(names(&r), vec!["X4", "Y8", "H1"]);
}

#[test]
fn conversions() {
    let s: SingleOp = qvnt::operator::atomic::AtomicOpDispatch::Swap(0b11).into();
    assert_eq!(s.name(""), "SWAP3");
    assert_eq!(s.act(), 0b11);
    let m: op::multi::MultiOp = s.into();
    assert_eq!(m.len(), 1);
    let id: op::multi::MultiOp = SingleOp::from(qvnt::operator::atomic::AtomicOpDispatch::Id).into();
    assert_eq!(id.len(), 0);
}
