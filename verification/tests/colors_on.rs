use dfrs::args::{ColumnType, NumberFormat};
use dfrs::mount::Mount;
use dfrs::paint::{render, Span};
use dfrs::percentage::Percentage;
use dfrs::table::display_mounts;
use dfrs::theme::{Color, Theme};
use dfrs::util::bar;

#[test]
fn colored_bar_paints_each_run() {
    colored::control::set_override(true);
    let theme = Theme::new();
    let s = bar(20, Some(Percentage::from_percent(90)), &theme);
    assert_eq!(
        s,
        format!(
            "\x1b[32m{}\x1b[0m\x1b[33m{}\x1b[0m\x1b[31m{}\x1b[0m\x1b[32m{}\x1b[0m",
            "\u{2587}".repeat(10),
            "\u{2587}".repeat(5),
            "\u{2587}".repeat(3),
            "\u{254d}".repeat(2)
        )
    );
}

#[test]
fn colored_bar_of_unknown_usage_uses_the_void_color() {
    colored::control::set_override(true);
    let theme = Theme::new();
    let s = bar(4, None, &theme);
    assert_eq!(
        s,
        format!("\x1b[32m\x1b[0m\x1b[33m\x1b[0m\x1b[31m\x1b[0m\x1b[34m{}\x1b[0m", "\u{254d}".repeat(4))
    );
}

#[test]
fn colored_bar_falls_back_where_no_color_is_set() {
    colored::control::set_override(true);
    let mut theme = Theme::new();
    theme.color_usage_low = None;
    theme.color_usage_medium = None;
    theme.color_usage_high = None;
    theme.color_usage_void = None;
    let s = bar(4, Some(Percentage::from_percent(100)), &theme);
    assert_eq!(s, "\x1b[32m\u{2587}\u{2587}\x1b[0m\x1b[33m\u{2587}\x1b[0m\x1b[31m\u{2587}\x1b[0m\x1b[32m\x1b[0m");
    let s = bar(1, None, &theme);
    assert_eq!(s, "\x1b[32m\x1b[0m\x1b[33m\x1b[0m\x1b[31m\x1b[0m\x1b[32m\u{254d}\x1b[0m");
}

#[test]
fn colored_render_knows_all_eight_colors() {
    colored::control::set_override(true);
    let colors = [
        Color::Black,
        Color::Red,
        Color::Green,
        Color::Yellow,
        Color::Blue,
        Color::Magenta,
        Color::Cyan,
        Color::White,
    ];
    for (n, color) in colors.iter().enumerate() {
        let spans = vec![Span { text: "x".to_string(), color: Some(*color) }];
        assert_eq!(render(&spans), format!("\x1b[3{}mx\x1b[0m", n));
    }
    let spans = vec![Span { text: "x".to_string(), color: None }];
    assert_eq!(render(&spans), "x");
}

#[test]
fn colored_table_paints_heading_and_numbers() {
    colored::control::set_override(true);
    let mut m = Mount::named("/dev/sda1".to_string());
    m.mnt_dir = "/".to_string();
    m.mnt_type = "ext4".to_string();
    m.capacity = 1000;
    m.free = 100;
    m.used = 900;
    let mut theme = Theme::new();
    theme.columns = vec![ColumnType::Filesystem, ColumnType::UsedPercentage, ColumnType::Used];
    let lines = display_mounts(&[m], &theme, &NumberFormat::Base10, false, false);
    assert_eq!(
        lines,
        vec![
            "\x1b[34mFilesystem\x1b[0m \x1b[34m Used%\x1b[0m \x1b[34m  Used\x1b[0m",
            "/dev/sda1  \x1b[31m 90.0%\x1b[0m \x1b[31m900.0B\x1b[0m",
        ]
    );
}

#[test]
fn colored_heading_keeps_its_padding() {
    colored::control::set_override(true);
    let mut theme = Theme::new();
    theme.columns = vec![ColumnType::Bar, ColumnType::Type];
    theme.bar_width = 3;
    theme.color_heading = None;
    let mut m = Mount::named("a".to_string());
    m.mnt_type = "btrfs".to_string();
    let lines = display_mounts(&[m], &theme, &NumberFormat::Base2, false, false);
    assert_eq!(
        lines,
        vec![
            "\x1b[37m   \x1b[0m \x1b[37mType \x1b[0m",
            "\x1b[32m\x1b[0m\x1b[33m\x1b[0m\x1b[31m\x1b[0m\x1b[34m\u{254d}\u{254d}\u{254d}\x1b[0m btrfs",
        ]
    );
    let lines = display_mounts(&[], &theme, &NumberFormat::Base2, false, false);
    assert_eq!(lines, vec!["\x1b[37m\x1b[0m \x1b[37mType\x1b[0m"]);
}

#[test]
fn colored_text_keeps_its_color_after_an_inner_reset() {
    colored::control::set_override(true);
    let spans = vec![
        Span { text: "a\x1b[0mb\x1b[0m".to_string(), color: Some(Color::Red) },
        Span { text: "\x1b[0m".to_string(), color: None },
    ];
    assert_eq!(render(&spans), "\x1b[31ma\x1b[0m\x1b[31mb\x1b[0m\x1b[31m\x1b[0m\x1b[0m");
}
