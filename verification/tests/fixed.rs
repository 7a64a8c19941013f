use canvas_diagram::fixed::{Fixed, MAX_STEPS, UNIT};

#[test]
fn a_half_is_half_of_a_unit() {
    assert_eq!(Fixed::ratio(1, 2).steps, 0x8000_0000);
    assert_eq!(Fixed::whole(3).half(), Fixed::ratio(3, 2));
    assert_eq!(Fixed::whole(-3).half(), Fixed::ratio(-3, 2));
}

#[test]
fn ratios_drop_their_last_step_toward_zero() {
    assert_eq!(Fixed::ratio(1, 3).steps, 1_431_655_765);
    assert_eq!(Fixed::ratio(-1, 3).steps, -1_431_655_765);
    assert_eq!(Fixed::fraction(2, 3).steps, 2_863_311_530);
}

#[test]
fn products_and_quotients() {
    assert_eq!(Fixed::ratio(3, 2).times(Fixed::ratio(5, 2)), Fixed::ratio(15, 4));
    assert_eq!(Fixed::ratio(-3, 2).times(Fixed::whole(2)), Fixed::whole(-3));
    assert_eq!(Fixed::whole(7).over(Fixed::whole(2)), Fixed::ratio(7, 2));
    assert_eq!(Fixed::ratio(7, 10).many(10).steps, 10 * Fixed::ratio(7, 10).steps);
}

#[test]
fn operations_stop_at_the_bounds() {
    let most = Fixed { steps: MAX_STEPS };
    assert_eq!(most.plus(Fixed::whole(1)), most);
    assert_eq!(most.negated().minus(Fixed::whole(1)), Fixed { steps: -MAX_STEPS });
    assert_eq!(most.times(most), most);
    assert_eq!(Fixed::whole(1).many(u64::MAX), most);
    assert_eq!(Fixed { steps: i64::MIN }.abs(), most);
}

#[test]
fn clamping_and_comparing() {
    let low = Fixed::whole(-1);
    let high = Fixed::whole(1);
    assert_eq!(Fixed::whole(5).clamped(low, high), high);
    assert_eq!(Fixed::whole(-5).clamped(low, high), low);
    assert_eq!(Fixed { steps: 7 }.clamped(low, high), Fixed { steps: 7 });
    assert_eq!(low.larger(high), high);
    assert_eq!(low.smaller(high), low);
    assert_eq!(low.abs().steps, UNIT);
}
