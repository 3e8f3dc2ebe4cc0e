use mapgen::rng::Random;
use mapgen::rng::LCG_MOD;

#[test]
fn first_draws_from_seed_42() {
    let mut r = Random::create(42);
    assert_eq!(r.next(), 206659);
    assert_eq!(r.next(), 190736);
    assert_eq!(r.next(), 223713);
    assert_eq!(r.next(), 179590);
    assert_eq!(r.next(), 131087);
    assert_eq!(r.next(), 168204);
}

#[test]
fn negative_seed_uses_magnitude() {
    let mut a = Random::create(-42);
    let mut b = Random::create(42);
    for _ in 0..32 {
        assert_eq!(a.next(), b.next());
    }
}

#[test]
fn single_step_recurrence() {
    let mut r = Random::create(7);
    assert_eq!(r.next(), (7 * 9301 + 49297) % 233280);
    let mut edge = Random::create(233279);
    assert_eq!(edge.next(), 39996);
}

#[test]
fn draws_stay_below_modulus() {
    let mut r = Random::create(987654321);
    for _ in 0..1000 {
        let v = r.next();
        assert!(0 <= v && v < LCG_MOD);
    }
}

#[test]
fn equal_seeds_give_identical_streams() {
    let mut a = Random::create(12345);
    let mut b = Random::create(12345);
    for _ in 0..200 {
        assert_eq!(a.next(), b.next());
    }
}
