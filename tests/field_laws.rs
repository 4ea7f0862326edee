use bn128::gfp::{self, Gfp};

fn a() -> Gfp {
    Gfp([11250488846250692438, 4656389213572280514, 8950588588633063607, 123])
}

fn b() -> Gfp {
    Gfp([1755467536201717349, 17175472035685840286, 213721987, 10355184993929758713])
}

fn c() -> Gfp {
    Gfp([123123123, 432432523, 12343432423, 5234543534])
}

#[test]
fn one_is_montgomery_unit() {
    assert_eq!(
        Gfp::one(),
        Gfp([16691276537507834265, 1271272038023711329, 6165449088192685022, 8091559079779792902])
    );
    assert_eq!(a() * Gfp::one(), a());
    assert_eq!(Gfp::one() * b(), b());
}

#[test]
fn additive_identities() {
    assert_eq!(a() + Gfp::zero(), a());
    assert_eq!(a() + (-a()), Gfp::zero());
    assert_eq!(b() - b(), Gfp::zero());
    assert_eq!(-Gfp::zero(), Gfp::zero());
}

#[test]
fn ring_laws_on_values() {
    assert_eq!(a() + b(), b() + a());
    assert_eq!(a() * b(), b() * a());
    assert_eq!((a() + b()) + c(), a() + (b() + c()));
    assert_eq!((a() * b()) * c(), a() * (b() * c()));
    assert_eq!(a() * (b() + c()), a() * b() + a() * c());
}

#[test]
fn assign_operators() {
    let mut x = a();
    x += b();
    assert_eq!(x, a() + b());
    x -= b();
    assert_eq!(x, a());
}

#[test]
fn encode_then_decode_is_identity() {
    let mut v = [a(), b(), c()];
    gfp::mont_encode(&mut v);
    assert_ne!(v[0], a());
    gfp::mont_decode(&mut v);
    assert_eq!(v, [a(), b(), c()]);
}

#[test]
fn invert_gives_multiplicative_inverse() {
    for x in [a(), b(), c()] {
        let mut y = x;
        y.invert();
        assert_eq!(x * y, Gfp::one());
    }
}

#[test]
fn invert_of_zero_is_zero() {
    let mut z = Gfp::zero();
    z.invert();
    assert_eq!(z, Gfp::zero());
}

#[test]
fn sqrt_of_square_squares_back() {
    let x = a() * b();
    let sq = x * x;
    let mut s = sq;
    s.sqrt();
    assert_eq!(s * s, sq);
}

#[test]
fn exp_small_powers() {
    let mut x = a();
    x.exp(&[0, 0, 0, 0]);
    assert_eq!(x, Gfp::one());
    let mut y = a();
    y.exp(&[1, 0, 0, 0]);
    assert_eq!(y, a());
    let mut z = a();
    z.exp(&[5, 0, 0, 0]);
    assert_eq!(z, a() * a() * a() * a() * a());
}

#[test]
fn batch_matches_scalar_for_many_lengths() {
    for n in [1usize, 2, 3, 7, 8, 9, 53] {
        let xs = vec![a(); n];
        let ys = vec![b(); n];
        let mut out = vec![Gfp::default(); n];
        gfp::mul(&xs, &ys, &mut out);
        assert!(out.iter().all(|v| *v == a() * b()));
        gfp::add(&xs, &ys, &mut out);
        assert!(out.iter().all(|v| *v == a() + b()));
        gfp::sub(&xs, &ys, &mut out);
        assert!(out.iter().all(|v| *v == a() - b()));
        let mut d = xs.clone();
        gfp::mul_mov(&mut d, &ys);
        assert!(d.iter().all(|v| *v == a() * b()));
        let mut d = xs.clone();
        gfp::add_mov(&mut d, &ys);
        assert!(d.iter().all(|v| *v == a() + b()));
        let mut d = xs.clone();
        gfp::sub_mov(&mut d, &ys);
        assert!(d.iter().all(|v| *v == a() - b()));
        let mut d = xs.clone();
        gfp::square(&mut d);
        assert!(d.iter().all(|v| *v == a() * a()));
        let mut d = xs.clone();
        gfp::double(&mut d);
        assert!(d.iter().all(|v| *v == a() + a()));
        let mut d = xs.clone();
        gfp::neg(&mut d);
        assert!(d.iter().all(|v| *v == -a()));
        let mut d = xs.clone();
        gfp::mul_mov_scalar(&mut d, &c());
        assert!(d.iter().all(|v| *v == a() * c()));
    }
}

#[test]
fn normalize_subtracts_modulus_once() {
    let mut v = [
        Gfp([1755467536201717354, 17175472035685840286, 12281294985516866593, 10355184993929758713]),
        Gfp([5, 0, 0, 0]),
    ];
    gfp::normalize(&mut v);
    assert_eq!(v, [Gfp([3, 0, 0, 0]), Gfp([5, 0, 0, 0])]);
}

#[test]
fn new_from_int64_reduces_mod_p() {
    assert_eq!(Gfp::new_from_int64(7), Gfp([7, 0, 0, 0]));
    assert_eq!(
        Gfp::new_from_int64(-5),
        Gfp([1755467536201717346, 17175472035685840286, 12281294985516866593, 10355184993929758713])
    );
    assert_eq!(
        Gfp::new_from_int64(i64::MIN),
        Gfp([10978839573056493159, 17175472035685840285, 12281294985516866593, 10355184993929758713])
    );
    assert_eq!(Gfp::new_from_int64(0), Gfp::zero());
}

#[test]
fn set_copies_value() {
    let mut x = Gfp::zero();
    x.set(&b());
    assert_eq!(x, b());
}
