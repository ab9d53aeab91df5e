use package_fetch::app::PackageStats;
use package_fetch::codec::u64_to_string;
use package_fetch::utils::{format_package_name, format_version, generate_funny_comment};
use package_fetch::widgets::{PackageGraph, PackageStatsWidget, PackageTable};

#[test]
fn package_name_keeps_first_token() {
    assert_eq!(format_package_name("vim 9.0-1"), "vim");
    assert_eq!(format_package_name("   spaced   name"), "spaced");
    assert_eq!(format_package_name(""), "");
    assert_eq!(format_package_name("   "), "   ");
}

#[test]
fn version_placeholder_for_empty() {
    assert_eq!(format_version(""), "unknown");
    assert_eq!(format_version("1.2.3"), "1.2.3");
}

#[test]
fn numbers_render_in_decimal() {
    assert_eq!(u64_to_string(0), "0");
    assert_eq!(u64_to_string(7), "7");
    assert_eq!(u64_to_string(1234567890), "1234567890");
    assert_eq!(u64_to_string(u64::MAX), "18446744073709551615");
}

#[test]
fn funny_comment_is_one_of_the_fixed_remarks() {
    let expected = vec![
        "42 packages installed. System is happy.".to_string(),
        "42 packages installed. Don't forget Ctrl+Z!".to_string(),
        "42 packages. The system is getting fat.".to_string(),
        "You installed Vim again... what now?".to_string(),
        "All your packages are belong to us.".to_string(),
        "Package addiction is real.".to_string(),
    ];
    for _ in 0..50 {
        let comment = generate_funny_comment(42);
        assert!(expected.contains(&comment), "unexpected comment: {}", comment);
    }
}

#[test]
fn widget_builders_keep_their_data() {
    let table = PackageTable::new(vec!["a".to_string(), "b".to_string()]);
    assert_eq!(table.packages, vec!["a".to_string(), "b".to_string()]);
    let graph = PackageGraph::new(vec![1, 2, 3]);
    assert_eq!(graph.data, vec![1, 2, 3]);
    let stats = PackageStats {
        total: 2,
        pacman: 1,
        aur: 1,
        apt: 0,
        dnf: 0,
        flatpak: 0,
        unknown: 0,
        outdated: 0,
    };
    let widget = PackageStatsWidget::new(stats);
    assert_eq!(widget.stats.total, 2);
    assert_eq!(widget.stats.pacman, 1);
}
