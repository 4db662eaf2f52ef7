use puzzle_generator::Prand;
use puzzle_generator::entropy;
use puzzle_generator::hash;
use puzzle_generator::splitmix;

#[test]
fn hash_of_empty_string_is_initial_state() {
    assert_eq!(hash(""), 3581);
}

#[test]
fn hash_exact_values() {
    assert_eq!(hash("abc"), 128790717);
    assert_eq!(hash("FIXED"), 2780455691);
}

#[test]
fn splitmix_exact_values() {
    assert_eq!(splitmix(0), 16294208416658607535);
    assert_eq!(splitmix(1), 10451216379200822465);
}

#[test]
fn entropy_exact_values() {
    assert_eq!(entropy("abc"), 15031833725952477035);
    assert_eq!(entropy(""), 17846411025006366976);
}

#[test]
fn entropy_is_deterministic() {
    assert_eq!(entropy("key"), entropy("key"));
}

#[test]
fn prand_follows_xorshift_sequence() {
    let mut rng = Prand::new(42);
    assert_eq!(rng.get_rand_int_with_max(10), 3);
    assert_eq!(rng.get_rand_int_with_max(10), 3);
    assert_eq!(rng.get_rand_int_with_max(10), 5);
}

#[test]
fn prand_stays_in_range() {
    let mut rng = Prand::new(7);
    for _ in 0..100 {
        let v = rng.get_rand_int_with_max(6);
        assert!(v >= 1 && v <= 6);
    }
}

#[test]
fn prand_with_max_one_is_one() {
    let mut rng = Prand::new(12345);
    assert_eq!(rng.get_rand_int_with_max(1), 1);
}
