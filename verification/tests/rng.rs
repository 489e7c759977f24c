use seedroad::rng::{cell_seed, erosion_seed, tree_seed, xorshift32};
use seedroad::terrain::erosion::{droplet_start, erosion_rng};

#[test]
fn xorshift_known_values() {
    assert_eq!(xorshift32(1), 270369);
    assert_eq!(xorshift32(0xDEAD_BEEF), 1199382711);
    assert_eq!(xorshift32(1199382711), 2384302402);
}

#[test]
fn xorshift_zero_stays_zero_and_nonzero_never_reaches_zero() {
    assert_eq!(xorshift32(0), 0);
    let mut x = 12345u32;
    for _ in 0..10_000 {
        x = xorshift32(x);
        assert_ne!(x, 0);
    }
}

#[test]
fn cell_seed_wraps_negative_coordinates() {
    assert_eq!(cell_seed(3, -5), 2893786168);
    assert_eq!(cell_seed(-1, 0), 1640531535);
    assert_eq!(cell_seed(0, 0), 0);
}

#[test]
fn tree_seed_known_and_never_zero() {
    assert_eq!(tree_seed(7, 9), 391444833);
    // the position hash of (0, 0) is 0, which xorshift keeps at 0
    assert_eq!(tree_seed(0, 0), 1);
}

#[test]
fn erosion_seed_wraps() {
    assert_eq!(erosion_seed(2, -3), 1997015);
    assert_eq!(erosion_seed(-1, 0), 4293967293);
    assert_eq!(erosion_seed(0, 0), 0);
}

#[test]
fn droplet_start_draws_column_then_row() {
    let r = erosion_rng(erosion_seed(0, 0));
    assert_eq!(r, 0xDEAD_BEEF);
    let d = droplet_start(r);
    assert_eq!(d.rng, 2384302402);
    assert_eq!(d.col, 55);
    assert_eq!(d.row, 2);
}
