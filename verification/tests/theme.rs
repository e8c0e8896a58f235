use dfrs::args::ColumnType;
use dfrs::percentage::Percentage;
use dfrs::theme::{named_char, Color, Theme, UsageLevel};

#[test]
fn standard_theme() {
    let t = Theme::new();
    assert_eq!(t.char_bar_filled, '\u{2587}');
    assert_eq!(t.char_bar_empty, '\u{254d}');
    assert_eq!(t.char_bar_filled, named_char::HEAVY_BOX);
    assert_eq!(t.char_bar_empty, named_char::HEAVY_DOUBLE_DASH);
    assert_eq!(t.char_bar_open, "");
    assert_eq!(t.char_bar_close, "");
    assert_eq!(t.threshold_usage_medium, Percentage { part: 50, whole: 100 });
    assert_eq!(t.threshold_usage_high, Percentage { part: 75, whole: 100 });
    assert_eq!(t.color_heading, Some(Color::Blue));
    assert_eq!(t.color_usage_low, Some(Color::Green));
    assert_eq!(t.color_usage_medium, Some(Color::Yellow));
    assert_eq!(t.color_usage_high, Some(Color::Red));
    assert_eq!(t.color_usage_void, Some(Color::Blue));
    assert_eq!(t.columns, ColumnType::defaults());
    assert_eq!(t.bar_width, 20);
}

#[test]
fn levels_include_their_threshold() {
    let t = Theme::new();
    assert_eq!(t.level(None), UsageLevel::Void);
    assert_eq!(t.level(Some(Percentage::from_percent(0))), UsageLevel::Low);
    assert_eq!(t.level(Some(Percentage { part: 4999, whole: 10000 })), UsageLevel::Low);
    assert_eq!(t.level(Some(Percentage::from_percent(50))), UsageLevel::Medium);
    assert_eq!(t.level(Some(Percentage { part: 1, whole: 2 })), UsageLevel::Medium);
    assert_eq!(t.level(Some(Percentage { part: 7499, whole: 10000 })), UsageLevel::Medium);
    assert_eq!(t.level(Some(Percentage { part: 3, whole: 4 })), UsageLevel::High);
    assert_eq!(t.level(Some(Percentage::from_percent(100))), UsageLevel::High);
}

#[test]
fn levels_follow_configured_thresholds() {
    let mut t = Theme::new();
    t.threshold_usage_medium = Percentage { part: 1, whole: 3 };
    t.threshold_usage_high = Percentage { part: 5, whole: 8 };
    assert_eq!(t.level(Some(Percentage { part: 33, whole: 100 })), UsageLevel::Low);
    assert_eq!(t.level(Some(Percentage { part: 2, whole: 6 })), UsageLevel::Medium);
    assert_eq!(t.level(Some(Percentage { part: 62, whole: 100 })), UsageLevel::Medium);
    assert_eq!(t.level(Some(Percentage { part: 625, whole: 1000 })), UsageLevel::High);
    let big = Percentage { part: u64::MAX, whole: u64::MAX };
    assert_eq!(t.level(Some(big)), UsageLevel::High);
}

#[test]
fn colors_of_usage_and_heading() {
    let mut t = Theme::new();
    assert_eq!(t.usage_color(None), Color::Blue);
    assert_eq!(t.usage_color(Some(Percentage::from_percent(10))), Color::Green);
    assert_eq!(t.usage_color(Some(Percentage::from_percent(60))), Color::Yellow);
    assert_eq!(t.usage_color(Some(Percentage::from_percent(80))), Color::Red);
    assert_eq!(t.heading_color(), Color::Blue);
    t.color_heading = None;
    t.color_usage_low = None;
    assert_eq!(t.heading_color(), Color::White);
    assert_eq!(t.usage_color(Some(Percentage::from_percent(10))), Color::White);
}

#[test]
fn percentage_cells_round_up_and_stop_at_the_width() {
    assert_eq!(Percentage::from_percent(50).cell_count(20), 10);
    assert_eq!(Percentage::from_percent(75).cell_count(20), 15);
    assert_eq!(Percentage::from_percent(0).cell_count(20), 0);
    assert_eq!(Percentage::from_percent(1).cell_count(20), 1);
    assert_eq!(Percentage::from_percent(51).cell_count(20), 11);
    assert_eq!(Percentage::from_percent(100).cell_count(20), 20);
    assert_eq!(Percentage::from_percent(250).cell_count(20), 20);
    assert_eq!(Percentage { part: 1, whole: 3 }.cell_count(3), 1);
    assert_eq!(Percentage { part: 1, whole: 3 }.cell_count(4), 2);
    assert_eq!(Percentage { part: 1, whole: 3 }.cell_count(0), 0);
    assert_eq!(Percentage { part: u64::MAX, whole: u64::MAX }.cell_count(usize::MAX), usize::MAX);
    assert_eq!(Percentage { part: u64::MAX - 1, whole: u64::MAX }.cell_count(10), 10);
}

#[test]
fn percentage_tenths_round_to_the_nearest() {
    assert_eq!(Percentage { part: 1, whole: 3 }.rounded_tenths(), 333);
    assert_eq!(Percentage { part: 2, whole: 3 }.rounded_tenths(), 667);
    assert_eq!(Percentage { part: 1, whole: 2000 }.rounded_tenths(), 0);
    assert_eq!(Percentage { part: 3, whole: 2000 }.rounded_tenths(), 2);
    assert_eq!(Percentage { part: 1, whole: 1 }.rounded_tenths(), 1000);
    assert_eq!(Percentage { part: u64::MAX, whole: 1 }.rounded_tenths(), u64::MAX as u128 * 1000);
}

#[test]
fn percentages_compare_as_fractions() {
    let half = Percentage { part: 1, whole: 2 };
    assert!(half.is_at_least(&Percentage::from_percent(50)));
    assert!(Percentage::from_percent(50).is_at_least(&half));
    assert!(!half.is_at_least(&Percentage::from_percent(51)));
    assert!(Percentage { part: 2, whole: 3 }.is_at_least(&half));
    assert!(!Percentage { part: 1, whole: 3 }.is_at_least(&half));
}
