use ralph_os::timer::{ms_to_ticks, ticks, ticks_per_second, ticks_to_ms, Timer};

#[test]
fn ms_to_ticks_rounds_up() {
    assert_eq!(ms_to_ticks(0), 0);
    assert_eq!(ms_to_ticks(1), 1);
    assert_eq!(ms_to_ticks(10), 1);
    assert_eq!(ms_to_ticks(11), 2);
    assert_eq!(ms_to_ticks(500), 50);
    assert_eq!(ms_to_ticks(u64::MAX), u64::MAX / 10 + 1);
}

#[test]
fn tick_rate_is_100_hz() {
    assert_eq!(ticks_per_second(), 100);
    assert_eq!(ticks_to_ms(7), 70);
    let t = Timer::new();
    assert_eq!(ticks(&t), 0);
}
