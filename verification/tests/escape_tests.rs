use mandelbrot::escape::escape_iterations;
use mandelbrot::fixed::SCALE;

#[test]
fn origin_returns_cap() {
    // The origin never escapes: the count is always the iteration cap.
    assert_eq!(escape_iterations(0, 0, 0), 0);
    assert_eq!(escape_iterations(0, 0, 1), 1);
    assert_eq!(escape_iterations(0, 0, 5), 5);
    assert_eq!(escape_iterations(0, 0, 300), 300);
}

#[test]
fn outside_radius_returns_zero() {
    // Points with squared magnitude at least 4 escape before any iteration.
    let two = 2 * SCALE;
    assert_eq!(escape_iterations(two, 0, 0), 0);
    assert_eq!(escape_iterations(two, 0, 1), 0);
    assert_eq!(escape_iterations(two, 0, 100), 0);
    assert_eq!(escape_iterations(0, -two, 50), 0);
    assert_eq!(escape_iterations(two, two, 7), 0);
    // 1.5^2 + 1.5^2 = 4.5 >= 4
    let x = 3 * SCALE / 2;
    assert_eq!(escape_iterations(x, x, 25), 0);
}

#[test]
fn one_escapes_after_one_step() {
    // c = 1: the orbit starts at 1, one step gives 2, whose square is 4.
    assert_eq!(escape_iterations(SCALE, 0, 10), 1);
}

#[test]
fn minus_one_never_escapes() {
    // c = -1: the orbit alternates between -1 and 0 forever.
    assert_eq!(escape_iterations(-SCALE, 0, 17), 17);
    assert_eq!(escape_iterations(-SCALE, 0, 1000), 1000);
}

#[test]
fn cap_bounds_the_count() {
    // A point that escapes late is cut off by a small cap.
    let x = -3 * SCALE / 2;
    let big = escape_iterations(x, 0, 1000);
    let small = escape_iterations(x, 0, 2);
    assert!(small <= 2);
    assert!(small <= big);
}
