use num_complex::Complex64 as C;
use qvnt::operator::amplitude::{amplitude_terms, Coef};
use qvnt::operator::angle::Angle;
use qvnt::operator::single::{pauli, rotate, swap, SingleOp};

fn radians(a: Angle) -> f64 {
    f64::from_bits(a.to_bits())
}

fn value(c: &Coef) -> C {
    let w = |k: u8| C::from_polar(1.0, std::f64::consts::FRAC_PI_4 * (k % 8) as f64);
    match c {
        Coef::Root(k, h) => w(*k) * std::f64::consts::FRAC_1_SQRT_2.powi(*h as i32),
        Coef::Cos(a) => C::new((0.5 * radians(*a)).cos(), 0.0),
        Coef::Sin(a, k) => w(*k) * (0.5 * radians(*a)).sin(),
        Coef::Exp(a, n) => {
            let t = 0.5 * radians(*a);
            C::from_polar(1.0, if *n { -t } else { t })
        }
        Coef::Phases(p) => p
            .iter()
            .map(|(a, n)| C::from_polar(1.0, radians(*a) * *n as f64))
            .product(),
    }
}

fn matrix(op: &SingleOp, size: usize) -> Vec<Vec<C>> {
    (0..size)
        .map(|i| {
            let mut row = vec![C::new(0.0, 0.0); size];
            for t in amplitude_terms(op, i) {
                row[t.source] += value(&t.coef);
            }
            row
        })
        .collect()
}

fn product(first: &[Vec<C>], second: &[Vec<C>]) -> Vec<Vec<C>> {
    let n = first.len();
    (0..n)
        .map(|i| {
            (0..n)
                .map(|l| (0..n).map(|j| second[i][j] * first[j][l]).sum())
                .collect()
        })
        .collect()
}

fn close(a: &[Vec<C>], b: &[Vec<C>]) -> bool {
    a.iter()
        .zip(b)
        .all(|(x, y)| x.iter().zip(y).all(|(p, q)| (p - q).norm() < 1e-12))
}

fn angle(x: f64) -> Angle {
    Angle::from_bits(x.to_bits())
}

#[test]
fn squares_of_roots() {
    let s = matrix(&pauli::s(0b11), 4);
    let z = matrix(&pauli::z(0b11), 4);
    assert!(close(&product(&s, &s), &z));
    let t = matrix(&pauli::t(0b1), 2);
    assert!(close(&product(&t, &t), &matrix(&pauli::s(0b1), 2)));
    let sq = matrix(&swap::sqrt_swap(0b11).unwrap(), 4);
    assert!(close(&product(&sq, &sq), &matrix(&swap::swap(0b11).unwrap(), 4)));
    let sqi = matrix(&swap::sqrt_i_swap(0b11).unwrap(), 4);
    assert!(close(&product(&sqi, &sqi), &matrix(&swap::i_swap(0b11).unwrap(), 4)));
    let h = qvnt::operator::h(0b1);
    let hm = matrix(h.get(0), 2);
    let id: Vec<Vec<C>> = (0..2)
        .map(|i| (0..2).map(|j| if i == j { C::new(1.0, 0.0) } else { C::new(0.0, 0.0) }).collect())
        .collect();
    assert!(close(&product(&hm, &hm), &id));
}

#[test]
fn y_is_i_x_z() {
    for m in [0b1usize, 0b11, 0b101] {
        let size = 8;
        let xz = product(&matrix(&pauli::z(m), size), &matrix(&pauli::x(m), size));
        let phase = C::from_polar(1.0, std::f64::consts::FRAC_PI_2 * m.count_ones() as f64);
        let scaled: Vec<Vec<C>> = xz.iter().map(|r| r.iter().map(|v| v * phase).collect()).collect();
        assert!(close(&matrix(&pauli::y(m), size), &scaled));
    }
}

#[test]
fn inverse_is_conjugate_transpose() {
    let a = angle(0.7);
    let ops = vec![
        rotate::rx(0b10, a).unwrap(),
        rotate::ry(0b1, a).unwrap(),
        rotate::ryy(0b11, a).unwrap(),
        rotate::rz(0b100, a).unwrap(),
        rotate::rzz(0b101, angle(-1.3)).unwrap(),
        pauli::y(0b110),
        pauli::t(0b11),
        pauli::phi(vec![(a, 0b11), (angle(0.2), 0b100)]),
        swap::i_swap(0b110).unwrap(),
        swap::sqrt_swap(0b11).unwrap(),
        swap::sqrt_i_swap(0b101).unwrap().c(0b10).unwrap(),
        SingleOp::from(qvnt::operator::atomic::AtomicOpDispatch::H2(0b1, 0b100)),
    ];
    for op in ops {
        let m = matrix(&op, 8);
        let d = matrix(&op.clone().dgr(), 8);
        for i in 0..8 {
            for j in 0..8 {
                assert!((d[i][j] - m[j][i].conj()).norm() < 1e-12, "{} at {} {}", op.name(""), i, j);
            }
        }
        let unit = product(&m, &d);
        for i in 0..8 {
            for j in 0..8 {
                let want = if i == j { 1.0 } else { 0.0 };
                assert!((unit[i][j] - C::new(want, 0.0)).norm() < 1e-12);
            }
        }
    }
}

#[test]
fn gates_stay_on_their_qubits() {
    let ops = vec![
        swap::swap(0b1010).unwrap(),
        qvnt::operator::h(0b1100).get(0).clone(),
        rotate::rxx(0b11000, angle(0.3)).unwrap(),
        pauli::x(0b101).c(0b10).unwrap(),
    ];
    for op in ops {
        for i in 0..32usize {
            for t in amplitude_terms(&op, i) {
                assert_eq!((t.source ^ i) & !op.act(), 0);
            }
        }
    }
}

fn identity(size: usize) -> Vec<Vec<C>> {
    (0..size)
        .map(|i| (0..size).map(|j| C::new(if i == j { 1.0 } else { 0.0 }, 0.0)).collect())
        .collect()
}

fn queue_matrix(q: &qvnt::operator::multi::MultiOp, size: usize) -> Vec<Vec<C>> {
    let mut m = identity(size);
    for k in 0..q.len() {
        m = product(&m, &matrix(q.get(k), size));
    }
    m
}

#[test]
fn hadamard_queue_is_transform() {
    for mask in [0b1usize, 0b101, 0b1011, 0b1111] {
        let size = 16;
        let c = mask.count_ones() as i32;
        let m = queue_matrix(&qvnt::operator::h(mask), size);
        for k in 0..size {
            for x in 0..size {
                let want = if (x ^ k) & !mask == 0 {
                    let sign = if (x & k & mask).count_ones() % 2 == 1 { -1.0 } else { 1.0 };
                    sign * std::f64::consts::FRAC_1_SQRT_2.powi(c)
                } else {
                    0.0
                };
                assert!((m[k][x] - C::new(want, 0.0)).norm() < 1e-12, "{mask} {k} {x}");
            }
        }
    }
}

fn reversed(x: usize, n: u32) -> usize {
    (0..n).fold(0, |r, b| r | (((x >> b) & 1) << (n - 1 - b)))
}

#[test]
fn fourier_queue_is_dft() {
    for n in 1..4u32 {
        let size = 1usize << n;
        let mask = size - 1;
        let omega = |e: usize| {
            C::from_polar(
                1.0 / (size as f64).sqrt(),
                2.0 * std::f64::consts::PI * (e % size) as f64 / size as f64,
            )
        };
        let natural = queue_matrix(&qvnt::operator::qft_swapped(mask), size);
        let plain = queue_matrix(&qvnt::operator::qft(mask), size);
        for k in 0..size {
            for x in 0..size {
                assert!((natural[k][x] - omega(x * k)).norm() < 1e-12, "{n} {k} {x}");
                assert!((plain[k][x] - omega(reversed(x, n) * k)).norm() < 1e-12, "{n} {k} {x}");
            }
        }
    }
    let e1 = queue_matrix(&qvnt::operator::qft_swapped(0b11), 4);
    let want = [C::new(0.5, 0.0), C::new(0.0, 0.5), C::new(-0.5, 0.0), C::new(0.0, -0.5)];
    for k in 0..4 {
        assert!((e1[k][1] - want[k]).norm() < 1e-12);
    }
}

#[test]
fn queue_then_inverse_is_identity() {
    let a = angle(0.9);
    let q = qvnt::operator::s(0b1)
        * qvnt::operator::h(0b110)
        * qvnt::operator::x(0b10)
        * qvnt::operator::qft(0b111)
        * qvnt::operator::multi::MultiOp::from(rotate::ry(0b100, a).unwrap());
    let both = q.clone() * q.dgr();
    assert!(close(&queue_matrix(&both, 8), &identity(8)));
}

#[test]
fn four_t_make_z() {
    for m in [0b1usize, 0b101] {
        let t = qvnt::operator::t(m);
        let four = t.clone() * t.clone() * t.clone() * t;
        assert!(close(&queue_matrix(&four, 8), &queue_matrix(&qvnt::operator::z(m), 8)));
        let d = qvnt::operator::t(m).dgr();
        let four_d = d.clone() * d.clone() * d.clone() * d;
        assert!(close(&queue_matrix(&four_d, 8), &queue_matrix(&qvnt::operator::z(m), 8)));
    }
}
