use dfrs::args::{ColorOpt, ColumnType, DisplayFilter, NumberFormat};

#[test]
fn display_filter_from_count() {
    assert_eq!(DisplayFilter::from_u8(0), DisplayFilter::Minimal);
    assert_eq!(DisplayFilter::from_u8(1), DisplayFilter::More);
    assert_eq!(DisplayFilter::from_u8(2), DisplayFilter::All);
    assert_eq!(DisplayFilter::from_u8(255), DisplayFilter::All);
}

#[test]
fn display_filter_flags_win_over_count() {
    assert_eq!(DisplayFilter::from_flags(true, false, 0), DisplayFilter::All);
    assert_eq!(DisplayFilter::from_flags(false, true, 0), DisplayFilter::More);
    assert_eq!(DisplayFilter::from_flags(false, true, 2), DisplayFilter::More);
    assert_eq!(DisplayFilter::from_flags(true, true, 0), DisplayFilter::All);
    assert_eq!(DisplayFilter::from_flags(false, false, 1), DisplayFilter::More);
    assert_eq!(DisplayFilter::from_flags(false, false, 0), DisplayFilter::Minimal);
}

#[test]
fn display_filter_patterns() {
    assert_eq!(DisplayFilter::Minimal.get_mnt_fsname_filter(), vec!["/dev*", "storage"]);
    assert_eq!(
        DisplayFilter::More.get_mnt_fsname_filter(),
        vec!["dev", "run", "tmpfs", "/dev*", "storage"]
    );
    assert_eq!(DisplayFilter::All.get_mnt_fsname_filter(), vec!["*"]);
}

#[test]
fn number_format_bases() {
    assert_eq!(NumberFormat::Base10.get_powers_of(), 1000);
    assert_eq!(NumberFormat::Base2.get_powers_of(), 1024);
    assert_eq!(NumberFormat::from_flag(true), NumberFormat::Base10);
    assert_eq!(NumberFormat::from_flag(false), NumberFormat::Base2);
}

#[test]
fn column_labels() {
    assert_eq!(ColumnType::Filesystem.label(false), "Filesystem");
    assert_eq!(ColumnType::Type.label(false), "Type");
    assert_eq!(ColumnType::Bar.label(false), "");
    assert_eq!(ColumnType::Used.label(false), "Used");
    assert_eq!(ColumnType::UsedPercentage.label(false), "Used%");
    assert_eq!(ColumnType::Available.label(true), "Avail");
    assert_eq!(ColumnType::AvailablePercentage.label(true), "Avail%");
    assert_eq!(ColumnType::Capacity.label(true), "Inodes");
    assert_eq!(ColumnType::Capacity.label(false), "Size");
    assert_eq!(ColumnType::MountedOn.label(false), "Mounted on");
}

#[test]
fn column_justification_and_defaults() {
    assert!(ColumnType::Filesystem.is_left_justified());
    assert!(ColumnType::Type.is_left_justified());
    assert!(ColumnType::Bar.is_left_justified());
    assert!(ColumnType::MountedOn.is_left_justified());
    assert!(!ColumnType::Used.is_left_justified());
    assert!(!ColumnType::UsedPercentage.is_left_justified());
    assert!(!ColumnType::Available.is_left_justified());
    assert!(!ColumnType::AvailablePercentage.is_left_justified());
    assert!(!ColumnType::Capacity.is_left_justified());
    assert_eq!(
        ColumnType::defaults(),
        vec![
            ColumnType::Filesystem,
            ColumnType::Type,
            ColumnType::Bar,
            ColumnType::UsedPercentage,
            ColumnType::Available,
            ColumnType::Used,
            ColumnType::Capacity,
            ColumnType::MountedOn,
        ]
    );
}

#[test]
fn color_choice_and_switch_force_colors() {
    assert_eq!(ColorOpt::color_override(None, false), None);
    assert_eq!(ColorOpt::color_override(Some(ColorOpt::Auto), false), None);
    assert_eq!(ColorOpt::color_override(Some(ColorOpt::Always), false), Some(true));
    assert_eq!(ColorOpt::color_override(Some(ColorOpt::Never), false), Some(false));
    assert_eq!(ColorOpt::color_override(Some(ColorOpt::Never), true), Some(true));
    assert_eq!(ColorOpt::color_override(Some(ColorOpt::Auto), true), Some(true));
    assert_eq!(ColorOpt::color_override(None, true), Some(true));
}
