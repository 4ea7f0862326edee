use bn128::gfp::Gfp;
use bn128::gfp12::Gfp12;
use bn128::gfp2::Gfp2;
use bn128::gfp6::Gfp6;

fn e2(k: u64) -> Gfp2 {
    Gfp2([
        Gfp([123123123 + k, 432432523, 12343432423, 5234543534]),
        Gfp([16045690984833335023, 188899839028173 + k, 72057594037927935, 320263130583841]),
    ])
}

fn one2() -> Gfp2 {
    Gfp2([Gfp::zero(), Gfp::one()])
}

fn e6(k: u64) -> Gfp6 {
    Gfp6([e2(k), e2(k + 1), e2(k + 2)])
}

fn one6() -> Gfp6 {
    Gfp6([Gfp2::default(), Gfp2::default(), one2()])
}

#[test]
fn gfp2_square_matches_mul() {
    let a = e2(0);
    let mut s = a;
    s.square();
    let mut m = a;
    m.mul_ref(&a);
    assert_eq!(s, m);
}

#[test]
fn gfp2_conjugate_twice_is_identity() {
    let a = e2(3);
    let mut c = a;
    c.conjugate();
    assert_ne!(c, a);
    c.conjugate();
    assert_eq!(c, a);
}

#[test]
fn gfp2_invert_gives_inverse() {
    let a = e2(5);
    let mut i = a;
    i.invert();
    let mut p = a;
    p.mul_ref(&i);
    assert_eq!(p, one2());
}

#[test]
fn gfp2_add_sub_neg() {
    let a = e2(1);
    let b = e2(9);
    let mut s = a;
    s.add_ref(&b);
    s.sub_ref(&b);
    assert_eq!(s, a);
    let mut n = a;
    n.neg();
    n.add_ref(&a);
    assert_eq!(n, Gfp2::default());
}

#[test]
fn gfp2_mul_xi_is_mul_by_i_plus_3() {
    let a = e2(2);
    let xi = Gfp2([Gfp::one(), Gfp::one() + Gfp::one() + Gfp::one()]);
    let mut m = a;
    m.mul_ref(&xi);
    let mut x = a;
    x.mul_xi();
    assert_eq!(x, m);
}

#[test]
fn gfp6_invert_gives_inverse() {
    let a = e6(0);
    let mut i = a;
    i.invert();
    let mut p = a;
    p.mul(&i);
    assert_eq!(p, one6());
}

#[test]
fn gfp6_square_matches_mul_and_tau_cubed_is_xi() {
    let a = e6(4);
    let mut s = a;
    s.square();
    let mut m = a;
    m.mul(&a);
    assert_eq!(s, m);
    let mut t = a;
    t.mul_tau();
    t.mul_tau();
    t.mul_tau();
    let mut x = a;
    x.mul_scalar(&Gfp2([Gfp::one(), Gfp::one() + Gfp::one() + Gfp::one()]));
    assert_eq!(t, x);
}

#[test]
fn gfp6_add_sub_and_scalars() {
    let a = e6(1);
    let b = e6(7);
    let mut s = a;
    s.add(&b);
    s.sub(&b);
    assert_eq!(s, a);
    let mut n = a;
    n.neg();
    n.add(&a);
    assert_eq!(n, Gfp6::default());
    let mut g = a;
    g.mul_gfp(&Gfp::one());
    assert_eq!(g, a);
}

#[test]
fn gfp12_invert_gives_inverse() {
    let a = Gfp12([e6(0), e6(10)]);
    let mut i = a;
    i.invert();
    let mut p = a;
    p.mul(&i);
    assert_eq!(p, Gfp12([Gfp6::default(), one6()]));
}

#[test]
fn gfp12_square_conjugate_and_scalar() {
    let a = Gfp12([e6(2), e6(5)]);
    let mut s = a;
    s.square();
    let mut m = a;
    m.mul(&a);
    assert_eq!(s, m);
    let mut c = a;
    c.conjugate();
    c.conjugate();
    assert_eq!(c, a);
    let mut k = a;
    k.mul_scalar(&one6());
    assert_eq!(k, a);
    let mut d = a;
    d.add(&a);
    d.sub(&a);
    assert_eq!(d, a);
    let mut n = a;
    n.neg();
    n.add(&a);
    assert_eq!(n, Gfp12::default());
}
