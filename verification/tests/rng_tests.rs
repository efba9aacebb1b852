use fieldsim::rng::{hash, rand};

#[test]
fn hash_reference_values() {
    assert_eq!(hash(0), 0);
    assert_eq!(hash(1), 69681622);
    assert_eq!(hash(42), 2590465940);
    assert_eq!(hash(0xdeadbeef), 153186910);
    assert_eq!(hash(123456789), 162129505);
}

#[test]
fn hash_deterministic_across_calls() {
    for i in 0..2000u32 {
        let x = i.wrapping_mul(2654435761);
        assert_eq!(hash(x), hash(x));
    }
}

#[test]
fn rand_reference_values() {
    assert_eq!(rand(128, 3, 5, 7, 0), 3325833080);
    assert_eq!(rand(128, 3, 5, 7, 1), 1450717926);
    assert_eq!(rand(4, 1, 1, 1, 0), 1490876534);
}

#[test]
fn rand_deterministic_across_calls() {
    for t in 0..50u32 {
        for x in 0..4u32 {
            for y in 0..4u32 {
                assert_eq!(rand(128, x, y, t, 0), rand(128, x, y, t, 0));
                assert_eq!(rand(128, x, y, t, 1), rand(128, x, y, t, 1));
            }
        }
    }
}

#[test]
fn rand_distinguishes_channels() {
    assert_ne!(rand(128, 3, 5, 7, 0), rand(128, 3, 5, 7, 1));
}
