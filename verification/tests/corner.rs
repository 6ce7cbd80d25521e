use itertools::Itertools;
use perlin_noise::corner::{corner_offsets, Mute};

#[test]
fn mute() {
    let mut iter = Mute::<f64>::new(vec![0., 1.], 2);
    assert_eq!(iter.next(), Some(vec![0., 0.]));
    assert_eq!(iter.next(), Some(vec![1., 0.]));
    assert_eq!(iter.next(), Some(vec![0., 1.]));
    assert_eq!(iter.next(), Some(vec![1., 1.]));
}

#[test]
fn cartesian_product() {
    let mut iter = (0..3).cartesian_product(0..2);
    assert_eq!(iter.next(), Some((0, 0)));
    assert_eq!(iter.next(), Some((0, 1)));
    assert_eq!(iter.next(), Some((1, 0)));
    assert_eq!(iter.next(), Some((1, 1)));
    assert_eq!(iter.next(), Some((2, 0)));
    assert_eq!(iter.next(), Some((2, 1)));
}

#[test]
fn mute_exhausts_and_stands_still() {
    let mut iter = Mute::<u64>::new(vec![0, 1], 1);
    assert_eq!(iter.next(), Some(vec![0]));
    assert_eq!(iter.next(), Some(vec![1]));
    assert_eq!(iter.next(), None);
    assert_eq!(iter.next(), None);
}

#[test]
fn mute_three_values() {
    let mut iter = Mute::<u8>::new(vec![5, 6, 7], 2);
    assert_eq!(iter.next(), Some(vec![5, 5]));
    assert_eq!(iter.next(), Some(vec![6, 5]));
    assert_eq!(iter.next(), Some(vec![7, 5]));
    assert_eq!(iter.next(), Some(vec![5, 6]));
}

#[test]
fn corner_offsets_n1() {
    assert_eq!(corner_offsets(1), vec![vec![0], vec![1]]);
}

#[test]
fn corner_offsets_n2() {
    assert_eq!(
        corner_offsets(2),
        vec![vec![0, 0], vec![1, 0], vec![0, 1], vec![1, 1]]
    );
}

#[test]
fn corner_offsets_n3() {
    let cs = corner_offsets(3);
    assert_eq!(cs.len(), 8);
    for (k, c) in cs.iter().enumerate() {
        assert_eq!(c.len(), 3);
        for (i, &b) in c.iter().enumerate() {
            assert!(b == 0 || b == 1);
            assert_eq!(b, ((k >> i) & 1) as u64);
        }
    }
    for k1 in 0..cs.len() {
        for k2 in 0..k1 {
            assert_ne!(cs[k1], cs[k2]);
        }
    }
}

#[test]
fn corner_offsets_n0() {
    assert_eq!(corner_offsets(0), vec![Vec::<u64>::new()]);
}
