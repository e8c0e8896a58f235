use dfrs::mount::Mount;
use dfrs::percentage::Percentage;
use dfrs::util::{
    best_mount_index, calc_total, calculate_path_match_score, cmp_by_capacity_and_dir_name,
    format_count, format_percentage, get_best_mount_match, lvm_alias, mnt_matches_filter,
    totals_fit,
};
use std::cmp;

#[test]
fn format_count_zero() {
    let s = format_count(0, 1024);
    assert_eq!(s, "0");
}

#[test]
fn format_count_bytes() {
    let s = format_count(12, 1024);
    assert_eq!(s, "12.0B");
}

#[test]
fn format_count_megabyte() {
    let s = format_count(12693000, 1024);
    assert_eq!(s, "12.1M");
}

#[test]
fn format_count_very_large() {
    let s = format_count(2535301200456458802993406410752, 1024);
    assert_eq!(s, "2097152.0Y");
}

fn float_count(num: f64, delimiter: f64) -> String {
    let units = ["B", "k", "M", "G", "T", "P", "E", "Z", "Y"];
    if num < 1_f64 {
        return format!("{}", num);
    }
    let exponent = cmp::min(num.log(delimiter).floor() as i32, (units.len() - 1) as i32);
    let pretty_bytes = format!("{:.*}", 1, num / delimiter.powi(exponent));
    let unit = units[exponent as usize];
    format!("{}{}", pretty_bytes, unit)
}

#[test]
fn format_count_agrees_with_floating_point_on_binary_units() {
    let counts: [u64; 16] = [
        0,
        1,
        12,
        1000,
        1023,
        1025,
        1280,
        1792,
        12693000,
        1048575,
        1073741823,
        5368709120,
        1099511627775,
        1125899906842624,
        4503599627370495,
        9007199254740992,
    ];
    for n in counts {
        assert_eq!(format_count(n as u128, 1024), float_count(n as f64, 1024.0), "{}", n);
    }
}

#[test]
fn format_count_agrees_with_floating_point_on_decimal_units_off_ties() {
    let counts: [u64; 14] = [
        0,
        1,
        999,
        1000,
        1049,
        1051,
        1149,
        1151,
        12693000,
        999_949,
        1_000_000,
        123_456_789,
        1_999_999_999_999,
        9_007_199_254_740_993,
    ];
    for n in counts {
        assert_eq!(format_count(n as u128, 1000), float_count(n as f64, 1000.0), "{}", n);
    }
}

#[test]
fn format_count_unit_ladder() {
    assert_eq!(format_count(1, 1000), "1.0B");
    assert_eq!(format_count(999, 1000), "999.0B");
    assert_eq!(format_count(1000, 1000), "1.0k");
    assert_eq!(format_count(1024, 1024), "1.0k");
    assert_eq!(format_count(1023, 1024), "1023.0B");
    assert_eq!(format_count(1_000_000, 1000), "1.0M");
    assert_eq!(format_count(1_500_000_000, 1000), "1.5G");
    assert_eq!(format_count(1 << 40, 1024), "1.0T");
    assert_eq!(format_count(1 << 50, 1024), "1.0P");
    assert_eq!(format_count(1 << 60, 1024), "1.0E");
    assert_eq!(format_count(1 << 70, 1024), "1.0Z");
    assert_eq!(format_count(1 << 80, 1024), "1.0Y");
    assert_eq!(format_count(1 << 90, 1024), "1024.0Y");
    assert_eq!(format_count(u64::MAX as u128, 1024), "16.0E");
    assert_eq!(format_count(u128::MAX, 1024), "281474976710656.0Y");
    assert_eq!(format_count(u128::MAX, 2), "1329227995784915872903807060280344576.0Y");
}

#[test]
fn format_count_rounds_to_the_nearest_tenth() {
    assert_eq!(format_count(1049, 1000), "1.0k");
    assert_eq!(format_count(1051, 1000), "1.1k");
    assert_eq!(format_count(1999, 1000), "2.0k");
    assert_eq!(format_count(999_999, 1000), "1000.0k");
    assert_eq!(format_count(1048575, 1024), "1024.0k");
}

#[test]
fn format_count_sends_ties_to_the_even_tenth() {
    assert_eq!(format_count(1280, 1024), "1.2k");
    assert_eq!(format_count(1792, 1024), "1.8k");
    assert_eq!(format_count(1050, 1000), "1.0k");
    assert_eq!(format_count(1150, 1000), "1.2k");
}

#[test]
fn lvm_alias_none() {
    let s = lvm_alias("/dev/mapper/crypto");
    assert_eq!(s, None);
}

#[test]
fn lvm_alias_simple() {
    let s = lvm_alias("/dev/mapper/crypto-foo");
    assert_eq!(s, Some("/dev/crypto/foo".to_string()));
}

#[test]
fn lvm_alias_two_dashes() {
    let s = lvm_alias("/dev/mapper/crypto--foo");
    assert_eq!(s, None);
}

#[test]
fn lvm_alias_three_dashes() {
    let s = lvm_alias("/dev/mapper/crypto---foo");
    assert_eq!(s, Some("/dev/crypto-/foo".to_string()));
}

#[test]
fn lvm_alias_four_dashes() {
    let s = lvm_alias("/dev/mapper/crypto----foo");
    assert_eq!(s, None);
}

#[test]
fn lvm_alias_five_dashes() {
    let s = lvm_alias("/dev/mapper/crypto-----foo");
    assert_eq!(s, Some("/dev/crypto--/foo".to_string()));
}

#[test]
fn get_best_mount_match_simple() {
    let mut mnt1 = Mount::named("foo".into());
    mnt1.mnt_dir = "/a".to_string();
    let mut mnt2 = Mount::named("bar".into());
    mnt2.mnt_dir = "/a/b".to_string();
    let mut mnt3 = Mount::named("fizz".into());
    mnt3.mnt_dir = "/a/b/c".to_string();
    let mut mnt4 = Mount::named("buzz".into());
    mnt4.mnt_dir = "/a/b/c/d".to_string();

    let mnts = &[mnt1, mnt2, mnt3, mnt4];
    let matched = get_best_mount_match("/a/b/c", mnts).unwrap();
    assert_eq!(matched.mnt_dir, "/a/b/c");
}

#[test]
fn calculate_path_match_score_simple() {
    let mut mnt1 = Mount::named("foo".into());
    mnt1.mnt_dir = "/a/s/d".to_string();
    let score = calculate_path_match_score("/a/s/d/f", &mnt1);
    assert_eq!(score, 6);
}

#[test]
fn cmp_by_capacity_and_dir_name_equal() {
    let mnt1 = Mount::named("foo".into());
    let mnt2 = Mount::named("bar".into());

    let ord = cmp_by_capacity_and_dir_name(&mnt1, &mnt2);
    assert_eq!(ord, cmp::Ordering::Equal);
}

#[test]
fn cmp_by_capacity_and_dir_name_greater_capacity_greater_name() {
    let mut mnt1 = Mount::named("foo".into());
    mnt1.capacity = 123;
    mnt1.mnt_dir = "/b".to_string();
    let mut mnt2 = Mount::named("bar".into());
    mnt2.capacity = 64;
    mnt2.mnt_dir = "/a".to_string();

    let ord = cmp_by_capacity_and_dir_name(&mnt1, &mnt2);
    assert_eq!(ord, cmp::Ordering::Greater);
}

#[test]
fn cmp_by_capacity_and_dir_name_smaller_capacity_greater_name() {
    let mut mnt1 = Mount::named("foo".into());
    mnt1.capacity = 64;
    mnt1.mnt_dir = "/b".to_string();
    let mut mnt2 = Mount::named("bar".into());
    mnt2.capacity = 123;
    mnt2.mnt_dir = "/a".to_string();

    let ord = cmp_by_capacity_and_dir_name(&mnt1, &mnt2);
    assert_eq!(ord, cmp::Ordering::Greater);
}

#[test]
fn cmp_by_capacity_and_dir_name_greater_capacity_smaller_name() {
    let mut mnt1 = Mount::named("foo".into());
    mnt1.capacity = 123;
    mnt1.mnt_dir = "/a".to_string();
    let mut mnt2 = Mount::named("bar".into());
    mnt2.capacity = 64;
    mnt2.mnt_dir = "/b".to_string();

    let ord = cmp_by_capacity_and_dir_name(&mnt1, &mnt2);
    assert_eq!(ord, cmp::Ordering::Less);
}

#[test]
fn cmp_by_capacity_and_dir_name_smaller_capacity_smaller_name() {
    let mut mnt1 = Mount::named("foo".into());
    mnt1.capacity = 64;
    mnt1.mnt_dir = "/a".to_string();
    let mut mnt2 = Mount::named("bar".into());
    mnt2.capacity = 123;
    mnt2.mnt_dir = "/b".to_string();

    let ord = cmp_by_capacity_and_dir_name(&mnt1, &mnt2);
    assert_eq!(ord, cmp::Ordering::Less);
}

#[test]
fn cmp_by_capacity_and_dir_name_equal_capacity_greater_name() {
    let mut mnt1 = Mount::named("foo".into());
    mnt1.capacity = 123;
    mnt1.mnt_dir = "/b".to_string();
    let mut mnt2 = Mount::named("bar".into());
    mnt2.capacity = 123;
    mnt2.mnt_dir = "/a".to_string();

    let ord = cmp_by_capacity_and_dir_name(&mnt1, &mnt2);
    assert_eq!(ord, cmp::Ordering::Greater);
}

#[test]
fn cmp_by_capacity_and_dir_name_greater_capacity_equal_name() {
    let mut mnt1 = Mount::named("foo".into());
    mnt1.capacity = 123;
    mnt1.mnt_dir = "/a".to_string();
    let mut mnt2 = Mount::named("bar".into());
    mnt2.capacity = 64;
    mnt2.mnt_dir = "/a".to_string();

    let ord = cmp_by_capacity_and_dir_name(&mnt1, &mnt2);
    assert_eq!(ord, cmp::Ordering::Equal);
}

#[test]
fn calc_total_simple() {
    let mut mnt1 = Mount::named("foo".into());
    mnt1.free = 123;
    mnt1.used = 456;
    mnt1.capacity = 123 + 456;
    let mut mnt2 = Mount::named("bar".into());
    mnt2.free = 678;
    mnt2.used = 9123;
    mnt2.capacity = 678 + 9123;
    let mut mnt3 = Mount::named("fizz".into());
    mnt3.free = 4567;
    mnt3.used = 0;
    mnt3.capacity = 4567;
    let mut mnt4 = Mount::named("buzz".into());
    mnt4.free = 0;
    mnt4.used = 890123;
    mnt4.capacity = 890123;

    let total = calc_total(&[mnt1, mnt2, mnt3, mnt4]);
    assert_eq!(total.mnt_fsname, "total");
    assert_eq!(total.free, 5368);
    assert_eq!(total.used, 899702);
    assert_eq!(total.capacity, 5368 + 899702);
}

#[test]
fn calc_total_of_nothing_is_zero() {
    let total = calc_total(&[]);
    assert_eq!(total.mnt_fsname, "total");
    assert_eq!(total.mnt_dir, "-");
    assert_eq!(total.mnt_type, "-");
    assert_eq!(total.mnt_opts, "");
    assert_eq!((total.free, total.used, total.capacity), (0, 0, 0));
    assert!(total.statfs.is_none());
}

#[test]
fn totals_fit_tells_when_a_sum_overflows() {
    let mut a = Mount::named("a".into());
    a.capacity = u64::MAX;
    let mut b = Mount::named("b".into());
    b.capacity = 1;
    assert!(totals_fit(&[a.clone()]));
    assert!(!totals_fit(&[a.clone(), b.clone()]));
    b.capacity = 0;
    b.used = 5;
    assert!(totals_fit(&[a, b]));
}

#[test]
fn lvm_alias_needs_the_mapper_prefix() {
    assert_eq!(lvm_alias("/dev/sda1"), None);
    assert_eq!(lvm_alias("/dev/mapper"), None);
    assert_eq!(lvm_alias("dev/mapper/a-b"), None);
    assert_eq!(lvm_alias(""), None);
}

#[test]
fn lvm_alias_splits_at_the_first_single_dash() {
    assert_eq!(lvm_alias("/dev/mapper/vg0-root"), Some("/dev/vg0/root".to_string()));
    assert_eq!(lvm_alias("/dev/mapper/a-b-c"), Some("/dev/a/b-c".to_string()));
    assert_eq!(lvm_alias("/dev/mapper/-"), Some("/dev//".to_string()));
    assert_eq!(lvm_alias("/dev/mapper/my--vg-my--lv"), Some("/dev/my-vg/my-lv".to_string()));
    assert_eq!(lvm_alias("/dev/mapper/a-"), Some("/dev/a/".to_string()));
    assert_eq!(lvm_alias("/dev/mapper/a-b--"), Some("/dev/a/b-".to_string()));
    assert_eq!(lvm_alias("/dev/mapper/--a-b"), Some("/dev/-a/b".to_string()));
    assert_eq!(lvm_alias("/dev/mapper/a-b---c"), Some("/dev/a/b--c".to_string()));
}

#[test]
fn best_match_prefers_the_longest_directory() {
    let dirs = ["/", "/home", "/home/user", "/var", "/home/user"];
    let mnts: Vec<Mount> = dirs
        .iter()
        .map(|d| {
            let mut m = Mount::named((*d).to_string());
            m.mnt_dir = (*d).to_string();
            m
        })
        .collect();
    assert_eq!(best_mount_index("/home/user/docs", &mnts), Some(2));
    assert_eq!(best_mount_index("/home/user", &mnts), Some(2));
    assert_eq!(best_mount_index("/home/username", &mnts), Some(1));
    assert_eq!(best_mount_index("/var/log", &mnts), Some(3));
    assert_eq!(best_mount_index("/etc", &mnts), Some(0));
    assert_eq!(best_mount_index("relative", &mnts), None);
}

#[test]
fn best_match_is_nothing_where_no_mount_covers() {
    let mut m = Mount::named("a".into());
    m.mnt_dir = "/a/b".to_string();
    let mnts = [m];
    assert!(get_best_mount_match("/a", &mnts).is_none());
    assert!(get_best_mount_match("/a/bc", &mnts).is_none());
    assert!(get_best_mount_match("/c", &mnts).is_none());
    assert!(get_best_mount_match("/a/b", &[]).is_none());
    assert_eq!(get_best_mount_match("/a/b/", &mnts).unwrap().mnt_fsname, "a");
}

#[test]
fn path_match_score_is_zero_without_a_match() {
    let mut m = Mount::named("a".into());
    m.mnt_dir = "/a/s/d".to_string();
    assert_eq!(calculate_path_match_score("/a/s", &m), 0);
    assert_eq!(calculate_path_match_score("/a/s/dd", &m), 0);
    assert_eq!(calculate_path_match_score("/a/s/d", &m), 6);
    m.mnt_dir = "/\u{e9}".to_string();
    assert_eq!(calculate_path_match_score("/\u{e9}/x", &m), 3);
}

#[test]
fn filter_patterns_match_by_prefix_or_equality() {
    let mut m = Mount::named("/dev/sda1".into());
    assert!(mnt_matches_filter(&m, "/dev*"));
    assert!(mnt_matches_filter(&m, "*"));
    assert!(mnt_matches_filter(&m, "/dev/sda1"));
    assert!(!mnt_matches_filter(&m, "/dev"));
    assert!(!mnt_matches_filter(&m, "dev*"));
    assert!(!mnt_matches_filter(&m, ""));
    m.mnt_fsname = "storage".to_string();
    assert!(mnt_matches_filter(&m, "storage"));
    assert!(!mnt_matches_filter(&m, "stor"));
    assert!(mnt_matches_filter(&m, "stor*"));
    m.mnt_fsname = "a*".to_string();
    assert!(mnt_matches_filter(&m, "a**"));
    assert!(!mnt_matches_filter(&m, "a***"));
}

#[test]
fn percentages_are_written_with_one_decimal_place() {
    assert_eq!(format_percentage(None), "     -");
    assert_eq!(format_percentage(Some(Percentage::from_percent(0))), "  0.0%");
    assert_eq!(format_percentage(Some(Percentage::from_percent(100))), "100.0%");
    assert_eq!(format_percentage(Some(Percentage { part: 1, whole: 3 })), " 33.3%");
    assert_eq!(format_percentage(Some(Percentage { part: 2, whole: 3 })), " 66.7%");
    assert_eq!(format_percentage(Some(Percentage { part: 1, whole: 800 })), "  0.1%");
    assert_eq!(format_percentage(Some(Percentage { part: 3, whole: 800 })), "  0.4%");
    assert_eq!(format_percentage(Some(Percentage { part: 5, whole: 2 })), "250.0%");
    assert_eq!(format_percentage(Some(Percentage { part: 100, whole: 1 })), "10000.0%");
    assert_eq!(
        format_percentage(Some(Percentage { part: u64::MAX, whole: u64::MAX })),
        "100.0%"
    );
}

#[test]
fn lvm_alias_leaves_other_characters_as_they_are() {
    assert_eq!(lvm_alias("/dev/mapper/a$$b-c"), Some("/dev/a$$b/c".to_string()));
    assert_eq!(lvm_alias("/dev/mapper/a$$b"), None);
    assert_eq!(lvm_alias("/dev/mapper/$$-$$"), Some("/dev/$$/$$".to_string()));
    assert_eq!(lvm_alias("/dev/mapper/a$--$b-c$$"), Some("/dev/a$-$b/c$$".to_string()));
    assert_eq!(lvm_alias("/dev/mapper/$-$"), Some("/dev/$/$".to_string()));
    assert_eq!(lvm_alias("/dev/mapper/v\u{e9}g-l_v.0+1"), Some("/dev/v\u{e9}g/l_v.0+1".to_string()));
}

#[test]
fn lvm_alias_reads_pairs_of_dashes_from_the_left() {
    let names = ["x", "x-y", "x--y", "x---y", "x----y", "x-----y", "-", "--", "---", "----", "a-b-c", "a--b-c--d", "-a", "a-", "a--", "--a--", "a-b--c---d"];
    for name in names {
        let expected = {
            let marked = name.replace("--", "\u{0}");
            marked.split_once('-').map(|(group, volume)| format!("/dev/{}/{}", group, volume).replace('\u{0}', "-"))
        };
        assert_eq!(lvm_alias(&format!("/dev/mapper/{}", name)), expected, "{}", name);
    }
}
