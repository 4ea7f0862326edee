use bn128::mont::{egcd, multi, reduce, to_mont, Mont, MONT_R};

#[test]
fn egcd_small_values() {
    assert_eq!(egcd(0, 5), (5, 0, 1));
    assert_eq!(egcd(12, 18), (6, -1, 1));
    assert_eq!(egcd(240, 460), (20, 2, -1));
    assert_eq!(egcd(17, 1 << 32), (1, -252645135, 1));
}

#[test]
fn mont_constants_for_seventeen() {
    let mut m = Mont::new(17);
    assert_eq!((m.r, m.n, m.rp1, m.np1, m.bits), (MONT_R, 17, 0, 0, 32));
    m.precompute();
    assert_eq!(m.np1, 252645135);
    assert_eq!(m.rp1, 1);
}

#[test]
fn mont_round_of_seventeen() {
    let x2 = to_mont(MONT_R, 17, 100);
    let y2 = to_mont(MONT_R, 17, 200);
    assert_eq!((x2, y2), (15, 13));
    assert_eq!(multi(252645135, 17, x2, y2), 195);
    assert_eq!(reduce(252645135, 17, 5), 5);
}
