use mandelbrot::palette::{gen_palette, gen_palette_random};

#[test]
fn palette_has_256_triples() {
    let p = gen_palette(1, 2, 3);
    assert_eq!(p.len(), 768);
}

#[test]
fn palette_entries_follow_steps() {
    let p = gen_palette(1, 2, 3);
    // Entry 0 is black, entry 1 holds the raw steps.
    assert_eq!(&p[0..3], &[0, 0, 0]);
    assert_eq!(&p[3..6], &[1, 2, 3]);
    for i in 0..256usize {
        assert_eq!(p[3 * i] as usize, (i * 1) % 255);
        assert_eq!(p[3 * i + 1] as usize, (i * 2) % 255);
        assert_eq!(p[3 * i + 2] as usize, (i * 3) % 255);
    }
    // The red channel wraps: entry 255 with step 1 is back at 0.
    assert_eq!(p[3 * 255], 0);
}

#[test]
fn palette_zero_steps_all_black() {
    let p = gen_palette(0, 0, 0);
    assert!(p.iter().all(|&b| b == 0));
    assert_eq!(p.len(), 768);
}

#[test]
fn palette_channels_stay_below_255() {
    let p = gen_palette(19, 19, 19);
    assert_eq!(p.len(), 768);
    assert!(p.iter().all(|&b| b <= 254));
}

#[test]
fn random_palette_is_well_formed() {
    let p = gen_palette_random();
    assert_eq!(p.len(), 768);
    assert!(p.iter().all(|&b| b <= 254));
    // Entry 1 holds the three steps; each must lie in [0, 20).
    let (rs, gs, bs) = (p[3] as usize, p[4] as usize, p[5] as usize);
    assert!(rs < 20 && gs < 20 && bs < 20);
    // The whole palette follows the recovered steps.
    for i in 0..256usize {
        assert_eq!(p[3 * i] as usize, (i * rs) % 255);
        assert_eq!(p[3 * i + 1] as usize, (i * gs) % 255);
        assert_eq!(p[3 * i + 2] as usize, (i * bs) % 255);
    }
}
