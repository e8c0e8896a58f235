use dfrs::args::{ColumnType, NumberFormat};
use dfrs::mount::Mount;
use dfrs::paint::{render, Span};
use dfrs::percentage::Percentage;
use dfrs::table::{column_width, display_mounts};
use dfrs::theme::{Color, Theme};
use dfrs::util::bar;

fn mount(fsname: &str, dir: &str, kind: &str, capacity: u64, free: u64) -> Mount {
    let mut m = Mount::named(fsname.to_string());
    m.mnt_dir = dir.to_string();
    m.mnt_type = kind.to_string();
    m.capacity = capacity;
    m.free = free;
    m.used = capacity - free;
    m
}

#[test]
fn plain_bar_has_one_cell_per_unit_of_width() {
    colored::control::set_override(false);
    let theme = Theme::new();
    let s = bar(20, Some(Percentage { part: 3, whole: 4 }), &theme);
    assert_eq!(s, format!("{}{}", "\u{2587}".repeat(15), "\u{254d}".repeat(5)));
}

#[test]
fn plain_bar_of_unknown_usage_is_empty() {
    colored::control::set_override(false);
    let theme = Theme::new();
    assert_eq!(bar(8, None, &theme), "\u{254d}".repeat(8));
}

#[test]
fn plain_bar_boundaries_do_not_underflow() {
    colored::control::set_override(false);
    let theme = Theme::new();
    assert_eq!(bar(10, Some(Percentage { part: 0, whole: 7 }), &theme), "\u{254d}".repeat(10));
    assert_eq!(bar(10, Some(Percentage { part: 7, whole: 7 }), &theme), "\u{2587}".repeat(10));
    assert_eq!(bar(0, Some(Percentage { part: 1, whole: 2 }), &theme), "");
}

#[test]
fn plain_bar_rounds_filled_cells_up() {
    colored::control::set_override(false);
    let theme = Theme::new();
    let s = bar(10, Some(Percentage { part: 1, whole: 1000 }), &theme);
    assert_eq!(s, format!("{}{}", "\u{2587}", "\u{254d}".repeat(9)));
}

#[test]
fn plain_bar_keeps_open_and_close() {
    colored::control::set_override(false);
    let mut theme = Theme::new();
    theme.char_bar_open = "[".to_string();
    theme.char_bar_close = "]".to_string();
    theme.char_bar_filled = '#';
    theme.char_bar_empty = '.';
    assert_eq!(bar(4, Some(Percentage::from_percent(50)), &theme), "[##..]");
}

#[test]
fn plain_render_joins_spans() {
    colored::control::set_override(false);
    let spans = vec![
        Span { text: "a".to_string(), color: Some(Color::Red) },
        Span { text: "b ".to_string(), color: None },
        Span { text: "c".to_string(), color: Some(Color::Blue) },
    ];
    assert_eq!(render(&spans), "ab c");
}

#[test]
fn plain_table_with_standard_columns() {
    colored::control::set_override(false);
    let mnts = vec![
        mount("/dev/sda1", "/", "ext4", 1000, 250),
        mount("tmpfs", "/run", "tmpfs", 0, 0),
    ];
    let theme = Theme::new();
    let lines = display_mounts(&mnts, &theme, &NumberFormat::Base2, false, false);
    assert_eq!(lines.len(), 3);
    assert_eq!(
        lines[0],
        "Filesystem Type                        Used%  Avail   Used    Size Mounted on"
    );
    assert_eq!(
        lines[1],
        format!(
            "/dev/sda1  ext4  {}{}  75.0% 250.0B 750.0B 1000.0B /",
            "\u{2587}".repeat(15),
            "\u{254d}".repeat(5)
        )
    );
    assert_eq!(
        lines[2],
        format!("tmpfs      tmpfs {}      -      0      0       0 /run", "\u{254d}".repeat(20))
    );
}

#[test]
fn plain_table_follows_the_column_list() {
    colored::control::set_override(false);
    let mnts = vec![mount("/dev/mapper/vg0-root", "/", "ext4", 2048, 1024)];
    let mut theme = Theme::new();
    theme.columns = vec![
        ColumnType::MountedOn,
        ColumnType::AvailablePercentage,
        ColumnType::Capacity,
        ColumnType::Filesystem,
    ];
    let lines = display_mounts(&mnts, &theme, &NumberFormat::Base2, true, false);
    assert_eq!(lines, vec!["Mounted on Avail% Inodes Filesystem", "/           50.0%   2.0k /dev/vg0/root"]);
    let lines = display_mounts(&mnts, &theme, &NumberFormat::Base10, false, true);
    assert_eq!(
        lines,
        vec!["Mounted on Avail% Size Filesystem", "/           50.0% 2.0k /dev/mapper/vg0-root"]
    );
}

#[test]
fn plain_table_without_mounts_or_columns() {
    colored::control::set_override(false);
    let mut theme = Theme::new();
    let lines = display_mounts(&[], &theme, &NumberFormat::Base2, false, false);
    assert_eq!(
        lines,
        vec!["Filesystem Type  Used% Avail Used Size Mounted on"]
    );
    theme.columns = Vec::new();
    let lines = display_mounts(&[mount("a", "/", "b", 1, 1)], &theme, &NumberFormat::Base2, false, false);
    assert_eq!(lines, vec!["", ""]);
}

#[test]
fn column_width_is_the_longest_of_cells_and_heading() {
    let cells = vec!["ab".to_string(), "abcdef".to_string(), "".to_string()];
    assert_eq!(column_width(&cells, "Type"), 6);
    assert_eq!(column_width(&cells, "Filesystem"), 10);
    assert_eq!(column_width(&[], "Size"), 4);
    assert_eq!(column_width(&["\u{2587}".to_string()], ""), 1);
    assert_eq!(column_width(&["\u{2587}\u{254d}".to_string()], "\u{e9}"), 2);
}

#[test]
fn plain_table_counts_characters_not_bytes() {
    colored::control::set_override(false);
    let mnts = vec![mount("d\u{e9}j\u{e0}", "/\u{2587}", "x", 0, 0), mount("abcdef", "/", "x", 0, 0)];
    let mut theme = Theme::new();
    theme.columns = vec![ColumnType::Filesystem, ColumnType::MountedOn, ColumnType::Type];
    let lines = display_mounts(&mnts, &theme, &NumberFormat::Base2, false, true);
    assert_eq!(
        lines,
        vec![
            "Filesystem Mounted on Type",
            "d\u{e9}j\u{e0}       /\u{2587}         x",
            "abcdef     /          x",
        ]
    );
}

#[test]
fn plain_table_heading_spans_the_whole_bar() {
    colored::control::set_override(false);
    let mnts = vec![mount("a", "/", "x", 4, 1)];
    let mut theme = Theme::new();
    theme.columns = vec![ColumnType::Bar, ColumnType::Type];
    theme.bar_width = 4;
    theme.char_bar_open = "[".to_string();
    theme.char_bar_close = "]".to_string();
    theme.char_bar_filled = '#';
    theme.char_bar_empty = '.';
    let lines = display_mounts(&mnts, &theme, &NumberFormat::Base2, false, true);
    assert_eq!(lines, vec!["       Type", "[###.] x"]);
}

#[test]
fn plain_table_widens_for_long_percentages() {
    colored::control::set_override(false);
    let mut big = mount("a", "/", "x", 1, 0);
    big.free = 100;
    let mnts = vec![big, mount("b", "/b", "x", 2, 1)];
    let mut theme = Theme::new();
    theme.columns = vec![ColumnType::AvailablePercentage, ColumnType::UsedPercentage];
    let lines = display_mounts(&mnts, &theme, &NumberFormat::Base2, false, true);
    assert_eq!(lines, vec!["  Avail%  Used%", "10000.0%   0.0%", "   50.0%  50.0%"]);
}
