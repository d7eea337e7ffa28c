use protohackers_rs::prime_time::{integral_is_prime, reply_to, Method, Reply, Response};

fn floor_sqrt(n: u64) -> u64 {
    let mut r: u64 = 0;
    while (r + 1) * (r + 1) <= n {
        r += 1;
    }
    r
}

#[test]
fn response_new_names_is_prime() {
    let r = Response::new(true);
    assert_eq!(r.get_method(), Method::IsPrime);
    assert!(r.get_prime());
    let r = Response::new(false);
    assert!(!r.get_prime());
}

#[test]
fn small_numbers_are_prime() {
    assert!(integral_is_prime(2, 1));
    assert!(integral_is_prime(3, 1));
}

#[test]
fn integral_primality_matches_known_values() {
    let primes = [5u64, 7, 11, 13, 97, 7919];
    for p in primes {
        assert!(integral_is_prime(p, floor_sqrt(p)), "{}", p);
    }
    let composites = [4u64, 6, 9, 25, 49, 91, 7917];
    for c in composites {
        assert!(!integral_is_prime(c, floor_sqrt(c)), "{}", c);
    }
}

#[test]
fn integral_primality_only_tries_divisors_up_to_root() {
    assert!(integral_is_prime(49, 6));
    assert!(!integral_is_prime(49, 7));
}

#[test]
fn reply_answers_requests_and_refuses_malformed_lines() {
    assert_eq!(reply_to(Some(true)), Reply::Answer(Response::new(true)));
    assert_eq!(reply_to(Some(false)), Reply::Answer(Response::new(false)));
    assert_eq!(reply_to(None), Reply::Malformed);
}
