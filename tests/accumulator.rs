use mcts_engine::networks::Accumulator;

#[test]
fn add_is_elementwise() {
    let mut a = Accumulator([1i16, -2, 300, 0]);
    let b = Accumulator([10i16, 20, -300, 7]);
    a.add(&b);
    assert_eq!(a.0, [11, 18, 0, 7]);
}

#[test]
fn madd_scales_then_adds() {
    let mut a = Accumulator([1i16, 2, 3]);
    let b = Accumulator([4i16, -5, 6]);
    a.madd(3, &b);
    assert_eq!(a.0, [13, -13, 21]);
}

#[test]
fn madd_by_zero_leaves_values() {
    let mut a = Accumulator([i16::MAX, i16::MIN]);
    let b = Accumulator([i16::MAX, i16::MAX]);
    a.madd(0, &b);
    assert_eq!(a.0, [i16::MAX, i16::MIN]);
}
