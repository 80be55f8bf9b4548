use fractal_renderer::algorithms::{
    escape_step, get_plotting_algorithm, Algorithm, BurningShip, EscapeStep, EscapeTime,
};

#[test]
fn algorithm_is_picked_by_name() {
    assert_eq!(get_plotting_algorithm("burning_ship"), Algorithm::BurningShip(BurningShip));
    assert_eq!(get_plotting_algorithm("escape_time"), Algorithm::EscapeTime(EscapeTime));
}

#[test]
fn unknown_name_falls_back_to_classic() {
    assert_eq!(get_plotting_algorithm(""), Algorithm::EscapeTime(EscapeTime));
    assert_eq!(get_plotting_algorithm("burning_shi"), Algorithm::EscapeTime(EscapeTime));
    assert_eq!(get_plotting_algorithm("burning_ship "), Algorithm::EscapeTime(EscapeTime));
    assert_eq!(get_plotting_algorithm("Burning_Ship"), Algorithm::EscapeTime(EscapeTime));
}

#[test]
fn thresholds_differ_between_algorithms() {
    assert_eq!(EscapeTime.escape_threshold(), 32);
    assert_eq!(BurningShip.escape_threshold(), 4);
    assert_eq!(get_plotting_algorithm("escape_time").escape_threshold(), 32);
    assert_eq!(get_plotting_algorithm("burning_ship").escape_threshold(), 4);
}

#[test]
fn escape_steps_follow_the_tests() {
    assert_eq!(escape_step(0, 10, true), EscapeStep::Escaped(0));
    assert_eq!(escape_step(3, 10, false), EscapeStep::Continue(4));
    assert_eq!(escape_step(9, 10, true), EscapeStep::Escaped(9));
    assert_eq!(escape_step(10, 10, true), EscapeStep::Bounded);
    assert_eq!(escape_step(0, 0, true), EscapeStep::Bounded);
}

#[test]
fn limit_of_one_escapes_at_zero_or_not_at_all() {
    assert_eq!(escape_step(0, 1, true), EscapeStep::Escaped(0));
    assert_eq!(escape_step(0, 1, false), EscapeStep::Continue(1));
    assert_eq!(escape_step(1, 1, true), EscapeStep::Bounded);
    assert_eq!(escape_step(1, 1, false), EscapeStep::Bounded);
}
