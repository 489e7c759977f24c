use seedroad::terrain::perlin::{gradient, Gradient};
use seedroad::terrain::Perlin;

fn table(p: &Perlin) -> Vec<u8> {
    (0..512).map(|i| p.entry(i)).collect()
}

#[test]
fn perlin_seed_42_table_prefix() {
    let t = table(&Perlin::new(42));
    assert_eq!(&t[..10], &[253, 168, 148, 251, 19, 249, 66, 143, 94, 121]);
    assert_eq!(&t[250..256], &[250, 182, 152, 160, 71, 118]);
}

#[test]
fn perlin_seed_0_and_12345_table_prefix() {
    let t = table(&Perlin::new(0));
    assert_eq!(&t[..10], &[159, 246, 82, 153, 116, 223, 54, 124, 252, 94]);
    let t = table(&Perlin::new(12345));
    assert_eq!(&t[..10], &[177, 1, 73, 219, 191, 130, 15, 152, 253, 166]);
}

#[test]
fn perlin_table_is_doubled_permutation() {
    for seed in [0u64, 1, 42, 7_777_777, u64::MAX] {
        let t = table(&Perlin::new(seed));
        let mut seen = [false; 256];
        for i in 0..256 {
            assert!(!seen[t[i] as usize]);
            seen[t[i] as usize] = true;
            assert_eq!(t[i], t[i + 256]);
        }
        assert!(seen.iter().all(|&b| b));
    }
}

#[test]
fn perlin_same_seed_same_table() {
    assert_eq!(table(&Perlin::new(99)), table(&Perlin::new(99)));
    assert_ne!(table(&Perlin::new(99)), table(&Perlin::new(100)));
}

#[test]
fn perlin_corners_at_origin() {
    let p = Perlin::new(42);
    let c = p.corners(0, 0);
    assert_eq!((c.aa, c.ab, c.ba, c.bb), (160, 71, 54, 218));
}

#[test]
fn perlin_corners_negative_cell_wraps() {
    let p = Perlin::new(42);
    let c = p.corners(-1, -1);
    assert_eq!((c.aa, c.ab, c.ba, c.bb), (82, 0, 152, 160));
}

#[test]
fn perlin_corners_repeat_every_256_cells() {
    let p = Perlin::new(42);
    for (x, z) in [(0, 0), (3, -9), (-200, 17), (255, 255)] {
        let a = p.corners(x, z);
        let b = p.corners(x + 256, z);
        let c = p.corners(x, z - 256);
        assert_eq!(a, b);
        assert_eq!(a, c);
    }
}

#[test]
fn perlin_corners_at_i32_extremes() {
    let p = Perlin::new(42);
    let c = p.corners(i32::MAX, i32::MIN);
    let t = table(&p);
    let h = |x: usize, z: usize| t[t[x] as usize + z];
    assert_eq!(c.aa, h(255, 0));
    assert_eq!(c.ab, h(255, 1));
    assert_eq!(c.ba, h(0, 0));
    assert_eq!(c.bb, h(0, 1));
}

#[test]
fn gradient_uses_low_two_bits() {
    assert_eq!(gradient(0), Gradient::PlusXPlusZ);
    assert_eq!(gradient(1), Gradient::MinusXPlusZ);
    assert_eq!(gradient(2), Gradient::PlusXMinusZ);
    assert_eq!(gradient(3), Gradient::MinusXMinusZ);
    assert_eq!(gradient(254), Gradient::PlusXMinusZ);
    assert_eq!(gradient(255), Gradient::MinusXMinusZ);
}
