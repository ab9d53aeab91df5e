use package_fetch::app::{App, RefreshInputs};
use package_fetch::outcome::ToolOutcome;
use package_fetch::packages::SourceRun;
use package_fetch::records::{PackageInfo, PackageSource};
use package_fetch::stats::count_packages_by_source;

fn success(s: &str) -> ToolOutcome {
    ToolOutcome::Success(s.to_string())
}

fn record(name: &str, source: PackageSource) -> PackageInfo {
    PackageInfo { name: name.to_string(), version: String::new(), source }
}

fn inputs_with(installed: Vec<SourceRun>, pacman_outdated: ToolOutcome) -> RefreshInputs {
    RefreshInputs {
        installed,
        pacman_outdated,
        yay_outdated: ToolOutcome::Absent,
        dnf_outdated: ToolOutcome::Absent,
        pacman_recent: ToolOutcome::Absent,
        dnf_recent: ToolOutcome::Absent,
        disk: ToolOutcome::Absent,
    }
}

#[test]
fn failed_outdated_query_empties_outdated_and_sets_error() {
    let inputs = RefreshInputs {
        installed: vec![SourceRun { source: PackageSource::Pacman, outcome: success("a\nb\n") }],
        pacman_outdated: ToolOutcome::Failed("pacman -Qu exited with status 1".to_string()),
        yay_outdated: ToolOutcome::Absent,
        dnf_outdated: ToolOutcome::Absent,
        pacman_recent: success("a\nb\n"),
        dnf_recent: ToolOutcome::Absent,
        disk: ToolOutcome::Absent,
    };
    let app = App::new(&inputs);
    // installed and recent queries succeeded and stay populated
    assert_eq!(app.packages.len(), 2);
    assert_eq!(app.recent_packages.len(), 2);
    // the outdated list is empty and the failure is surfaced, non-empty
    assert!(app.outdated_packages.is_empty());
    let message = app.error_message.expect("the failure must be surfaced");
    assert!(!message.is_empty());
    assert_eq!(message, "pacman -Qu exited with status 1");
}

#[test]
fn update_replaces_every_field_from_the_new_cycle() {
    let first = inputs_with(
        vec![SourceRun { source: PackageSource::Pacman, outcome: success("old1\nold2\n") }],
        ToolOutcome::Failed("transient failure".to_string()),
    );
    let mut app = App::new(&first);
    assert!(app.error_message.is_some());
    let second = inputs_with(
        vec![SourceRun { source: PackageSource::Aur, outcome: success("new1\n") }],
        success("up1\n"),
    );
    app.update(&second);
    // nothing of the first cycle survives
    assert_eq!(app.packages.len(), 1);
    assert_eq!(app.packages[0].name, "new1");
    assert_eq!(app.packages[0].source, PackageSource::Aur);
    assert_eq!(app.outdated_packages.len(), 1);
    assert_eq!(app.outdated_packages[0].name, "up1");
    assert!(app.error_message.is_none());
}

#[test]
fn update_after_success_clears_stale_outdated_on_failure() {
    let good = inputs_with(Vec::new(), success("up1\nup2\n"));
    let mut app = App::new(&good);
    assert_eq!(app.outdated_packages.len(), 2);
    let bad = inputs_with(Vec::new(), ToolOutcome::Failed("sync broke".to_string()));
    app.update(&bad);
    assert!(app.outdated_packages.is_empty());
    assert_eq!(app.error_message.as_deref(), Some("sync broke"));
}

#[test]
fn stats_bucket_by_source_with_unknown_counted() {
    let app = App {
        packages: vec![
            record("n1", PackageSource::Pacman),
            record("n2", PackageSource::Pacman),
            record("n3", PackageSource::Pacman),
            record("c1", PackageSource::Aur),
            record("u1", PackageSource::Unknown),
            record("u2", PackageSource::Unknown),
        ],
        outdated_packages: vec![record("o1", PackageSource::Pacman)],
        recent_packages: Vec::new(),
        disk_info: Vec::new(),
        error_message: None,
    };
    let stats = app.get_package_stats();
    assert_eq!(stats.total, 6);
    assert_eq!(stats.pacman, 3);
    assert_eq!(stats.aur, 1);
    assert_eq!(stats.apt, 0);
    assert_eq!(stats.dnf, 0);
    assert_eq!(stats.flatpak, 0);
    assert_eq!(stats.unknown, 2);
    assert_eq!(stats.outdated, app.outdated_packages.len());
}

#[test]
fn counts_partition_the_records() {
    let packages = vec![
        record("a", PackageSource::Apt),
        record("b", PackageSource::Flatpak),
        record("c", PackageSource::Dnf),
        record("d", PackageSource::Unknown),
    ];
    let counts = count_packages_by_source(&packages);
    assert_eq!(counts.total, 4);
    assert_eq!(counts.apt, 1);
    assert_eq!(counts.flatpak, 1);
    assert_eq!(counts.dnf, 1);
    assert_eq!(counts.unknown, 1);
    assert_eq!(counts.pacman, 0);
    assert_eq!(counts.aur, 0);
    assert_eq!(
        counts.total,
        counts.pacman + counts.aur + counts.apt + counts.dnf + counts.flatpak + counts.unknown
    );
}
