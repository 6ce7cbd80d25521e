use perlin_noise::perlin::{xorshift64, NoiseError, PerlinNoise};

#[test]
fn it_works() {
    assert_eq!(2 + 2, 4);
}

#[test]
fn new_rejects_zero_grid() {
    for seed in [0usize, 1, 42, 2000000000, usize::MAX] {
        assert_eq!(
            PerlinNoise::new(seed, 0),
            Err(NoiseError::InvalidConfiguration)
        );
    }
}

#[test]
fn new_accepts_positive_grid() {
    let p = PerlinNoise::new(7, 3).unwrap();
    assert_eq!(p.seed, 7);
    assert_eq!(p.grid_size, 3);
}

#[test]
fn error_kinds_are_distinct() {
    assert_ne!(NoiseError::InvalidConfiguration, NoiseError::OutOfRange);
}

#[test]
fn xorshift64_known_values() {
    assert_eq!(xorshift64(0), 0);
    assert_eq!(xorshift64(1), 0x40822041);
    assert_eq!(xorshift64(123456789), 132100702508589007);
}

#[test]
fn grad_bits_known_values() {
    let p = PerlinNoise::new(2000000000, 8).unwrap();
    assert_eq!(
        p.grad_bits(&vec![0, 1]),
        vec![0x3ff9fa31c624bf8e, 0x3fffcb9d1194d571]
    );
    let q = PerlinNoise::new(7, 3).unwrap();
    assert_eq!(
        q.grad_bits(&vec![2, 1, 3]),
        vec![0x3ff9a056bc1ef814, 0x3ff1028e481240e4, 0x3ff9ba06a2c4dd65]
    );
}

#[test]
fn grad_bits_zero_state() {
    // Seed zero at the origin: the hash and the mixer stay at zero, so the
    // one draw is the bare exponent pattern, the bits of 1.0.
    let p = PerlinNoise::new(0, 1).unwrap();
    assert_eq!(p.grad_bits(&vec![0]), vec![0x3ff0000000000000]);
}

#[test]
fn grad_bits_deterministic() {
    let p = PerlinNoise::new(987654321, 5).unwrap();
    let corner = vec![3, 0, 4];
    assert_eq!(p.grad_bits(&corner), p.grad_bits(&corner));
}

#[test]
fn grad_bits_finite_doubles() {
    let p = PerlinNoise::new(2000000000, 8).unwrap();
    for corner in [vec![0], vec![5], vec![1, 2], vec![8, 8, 8]] {
        for &b in p.grad_bits(&corner).iter() {
            assert_eq!(b >> 52, 0x3ff);
            let r = f64::from_bits(b);
            assert!(r >= 1.0 && r < 2.0);
            let y = 2.0 * r - 3.0;
            assert!(y.is_finite());
            assert!(-1.0 <= y && y < 1.0);
        }
    }
}

#[test]
fn grad_bits_length_matches_dimension() {
    let p = PerlinNoise::new(13, 4).unwrap();
    for n in 0..5u64 {
        let corner: Vec<u64> = (0..n).collect();
        assert_eq!(p.grad_bits(&corner).len(), n as usize);
    }
}

#[test]
fn grad_bits_reads_whole_corner() {
    // The hash folds every coordinate in order, so a longer lattice point and
    // a swapped one both change the draws.
    let p = PerlinNoise::new(11, 2).unwrap();
    let long = p.grad_bits(&vec![1, 2]);
    assert_eq!(long.len(), 2);
    assert_ne!(long[0], p.grad_bits(&vec![1])[0]);
    assert_ne!(long, p.grad_bits(&vec![2, 1]));
}
