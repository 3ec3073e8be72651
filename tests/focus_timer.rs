use focus_timer::duration::{duration_from_arg, parse_seconds, DEFAULT_DURATION_MS};
use focus_timer::geometry::{bar_geometry, Rect};
use focus_timer::progress::{progress, Fraction};
use focus_timer::widget::{FocusTimer, Message};

fn square(side: u32) -> Rect {
    Rect { x: 0, y: 0, width: side, height: side }
}

#[test]
fn progress_is_ratio_below_duration() {
    assert_eq!(progress(2_500, 10_000), Fraction { num: 2_500, den: 10_000 });
}

#[test]
fn progress_is_monotone() {
    let mut last = 0u64;
    for t in [0u64, 1, 999, 5_000, 9_999, 10_000, 20_000] {
        let p = progress(t, 10_000);
        assert_eq!(p.den, 10_000);
        assert!(p.num >= last);
        last = p.num;
    }
}

#[test]
fn progress_starts_at_zero() {
    assert_eq!(progress(0, 1).num, 0);
    assert_eq!(progress(0, 60_000).num, 0);
}

#[test]
fn progress_saturates_at_one() {
    for t in [10_000u64, 10_001, u64::MAX] {
        let p = progress(t, 10_000);
        assert_eq!(p.num, p.den);
    }
}

#[test]
fn parses_whole_seconds() {
    assert_eq!(duration_from_arg(Some("30")), 30_000);
}

#[test]
fn falls_back_on_text_that_is_not_a_number() {
    assert_eq!(duration_from_arg(Some("abc")), 60_000);
}

#[test]
fn falls_back_without_argument() {
    assert_eq!(duration_from_arg(None), DEFAULT_DURATION_MS);
    assert_eq!(DEFAULT_DURATION_MS, 60_000);
}

#[test]
fn parses_fractions_of_seconds() {
    assert_eq!(parse_seconds("1.5"), Some(1_500));
    assert_eq!(parse_seconds(".25"), Some(250));
    assert_eq!(parse_seconds("2."), Some(2_000));
    assert_eq!(parse_seconds("0.001"), Some(1));
    assert_eq!(parse_seconds("1.23456"), Some(1_235));
    assert_eq!(parse_seconds("1.234"), Some(1_234));
}

#[test]
fn parses_signs_and_exponents() {
    assert_eq!(parse_seconds("+5"), Some(5_000));
    assert_eq!(parse_seconds("1e3"), Some(1_000_000));
    assert_eq!(parse_seconds("1E3"), Some(1_000_000));
    assert_eq!(parse_seconds("2.5e1"), Some(25_000));
    assert_eq!(parse_seconds("2.5E-1"), Some(250));
    assert_eq!(parse_seconds("123.456e+1"), Some(1_234_560));
    assert_eq!(parse_seconds(".5e1"), Some(5_000));
    assert_eq!(parse_seconds("5.e0"), Some(5_000));
    assert_eq!(parse_seconds("15e-2"), Some(150));
    assert_eq!(duration_from_arg(Some("1e3")), 1_000_000);
    assert_eq!(duration_from_arg(Some("+5")), 5_000);
}

#[test]
fn parses_infinity() {
    for s in ["inf", "INF", "Inf", "infinity", "Infinity", "+inf", "+INFINITY"] {
        assert_eq!(parse_seconds(s), Some(u64::MAX), "{}", s);
    }
    assert_eq!(duration_from_arg(Some("inf")), u64::MAX);
}

#[test]
fn rejects_malformed_text() {
    for s in [
        "", ".", "1.2.3", " 30", "30s", "..5", "1e", "e3", "1e+", "1e-", ".e1", "+-5", "++5",
        "nan", "NaN", "infinit", "infinityy", "in", "1e3.5", "1 e3",
    ] {
        assert_eq!(parse_seconds(s), None, "{}", s);
        assert_eq!(duration_from_arg(Some(s)), DEFAULT_DURATION_MS);
    }
}

#[test]
fn negative_text_falls_back() {
    for s in ["-5", "-0", "-1e3", "-inf", "-.5"] {
        assert_eq!(parse_seconds(s), None, "{}", s);
        assert_eq!(duration_from_arg(Some(s)), DEFAULT_DURATION_MS);
    }
}

#[test]
fn zero_falls_back_to_default() {
    for s in ["0", "0.0", "+0", "0e5", "0e99999999999999999999999999", "000.000"] {
        assert_eq!(parse_seconds(s), None, "{}", s);
        assert_eq!(duration_from_arg(Some(s)), DEFAULT_DURATION_MS);
    }
}

#[test]
fn tiny_positive_rounds_up_to_one_millisecond() {
    assert_eq!(parse_seconds("0.0004"), Some(1));
    assert_eq!(duration_from_arg(Some("0.0004")), 1);
    assert_eq!(parse_seconds("1.5e-4"), Some(1));
    assert_eq!(parse_seconds("1e-99999999999999999999999999"), Some(1));
}

#[test]
fn large_durations_saturate() {
    assert_eq!(parse_seconds("18446744073709551.615"), Some(u64::MAX));
    assert_eq!(parse_seconds("18446744073709551.614"), Some(u64::MAX - 1));
    assert_eq!(parse_seconds("18446744073709551.616"), Some(u64::MAX));
    assert_eq!(parse_seconds("18446744073709552"), Some(u64::MAX));
    assert_eq!(parse_seconds("99999999999999999999999"), Some(u64::MAX));
    assert_eq!(parse_seconds("1e99999999999999999999999999"), Some(u64::MAX));
}

#[test]
fn bar_width_is_bounds_width_times_progress() {
    let bounds = Rect { x: 3, y: -4, width: 250, height: 40 };
    let bar = bar_geometry(bounds, Fraction { num: 1, den: 2 });
    assert_eq!(bar, Rect { x: 3, y: -4, width: 125, height: 40 });
    let bar = bar_geometry(bounds, Fraction { num: 1, den: 3 });
    assert_eq!(bar.width, 83);
    assert_eq!(bar.height, 40);
    assert_eq!(bar_geometry(bounds, Fraction { num: 7, den: 7 }).width, 250);
    assert_eq!(bar_geometry(bounds, Fraction { num: 0, den: 7 }).width, 0);
}

#[test]
fn bar_width_does_not_overflow() {
    let bounds = square(u32::MAX);
    let p = Fraction { num: u64::MAX - 1, den: u64::MAX };
    assert_eq!(bar_geometry(bounds, p).width, u32::MAX - 1);
}

#[test]
fn render_twice_without_tick_reuses_bar() {
    let mut timer = FocusTimer::new(10_000);
    let first = timer.render(square(250), 1_000);
    let second = timer.render(square(250), 9_000);
    assert_eq!(first.width, 25);
    assert_eq!(second, first);
}

#[test]
fn tick_forces_a_new_bar() {
    let mut timer = FocusTimer::new(10_000);
    assert_eq!(timer.render(square(250), 1_000).width, 25);
    timer.update(Message::Tick);
    assert_eq!(timer.render(square(250), 9_000).width, 225);
}

#[test]
fn resize_forces_a_new_bar() {
    let mut timer = FocusTimer::new(10_000);
    assert_eq!(timer.render(square(250), 5_000).width, 125);
    assert_eq!(timer.render(square(100), 5_000).width, 50);
}

#[test]
fn ten_second_timer_end_to_end() {
    let mut timer = FocusTimer::from_arg(Some("10"));
    assert_eq!(timer.duration_ms(), 10_000);
    let bounds = square(250);
    assert_eq!(timer.render(bounds, 5_000).width, 125);
    timer.update(Message::Tick);
    assert_eq!(timer.render(bounds, 10_000).width, 250);
    timer.update(Message::Tick);
    assert_eq!(timer.render(bounds, 25_000).width, 250);
}

#[test]
fn window_title() {
    let timer = FocusTimer::from_arg(None);
    assert_eq!(timer.title(), "Focus timer");
    assert_eq!(timer.duration_ms(), 60_000);
}

#[test]
fn bars_after_ticks_never_narrow() {
    let mut timer = FocusTimer::new(7_000);
    let bounds = Rect { x: 0, y: 0, width: 333, height: 10 };
    let mut last = 0u32;
    for t in [0u64, 1, 20, 999, 3_500, 6_999, 7_000, 9_000] {
        timer.update(Message::Tick);
        let w = timer.render(bounds, t).width;
        assert!(w >= last);
        last = w;
    }
    assert_eq!(last, 333);
}
