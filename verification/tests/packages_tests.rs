use package_fetch::outcome::ToolOutcome;
use package_fetch::packages::{
    detect_system, get_outdated_packages, get_packages, get_recent_packages, SourceRun,
};
use package_fetch::records::PackageSource;

fn success(s: &str) -> ToolOutcome {
    ToolOutcome::Success(s.to_string())
}

#[test]
fn detect_prefers_pacman() {
    let cmds = detect_system(true, true, true);
    assert_eq!(cmds.len(), 2);
    assert_eq!(cmds[0].program, "pacman");
    assert_eq!(cmds[0].args, vec!["-Q"]);
    assert_eq!(cmds[0].source, PackageSource::Pacman);
    assert_eq!(cmds[1].program, "yay");
    assert_eq!(cmds[1].args, vec!["-Qm"]);
    assert_eq!(cmds[1].source, PackageSource::Aur);
}

#[test]
fn detect_debian_then_rpm_then_nothing() {
    let deb = detect_system(false, true, true);
    assert_eq!(deb[0].program, "dpkg");
    assert_eq!(deb[0].args, vec!["-l"]);
    assert_eq!(deb[1].program, "flatpak");
    assert_eq!(deb[1].args, vec!["list"]);
    let rpm = detect_system(false, false, true);
    assert_eq!(rpm[0].program, "rpm");
    assert_eq!(rpm[0].args, vec!["-qa"]);
    assert_eq!(rpm[0].source, PackageSource::Dnf);
    assert_eq!(rpm[1].program, "flatpak");
    let none = detect_system(false, false, false);
    assert!(none.is_empty());
}

#[test]
fn installed_concatenates_two_adapters() {
    let runs = vec![
        SourceRun { source: PackageSource::Pacman, outcome: success("a\nb\nc\n") },
        SourceRun { source: PackageSource::Aur, outcome: success("d\n\ne\n") },
    ];
    let packages = get_packages(&runs);
    assert_eq!(packages.len(), 5);
    for p in &packages {
        assert_eq!(p.version, "");
    }
    let names: Vec<&str> = packages.iter().map(|p| p.name.as_str()).collect();
    assert_eq!(names, vec!["a", "b", "c", "d", "e"]);
    for p in &packages[..3] {
        assert_eq!(p.source, PackageSource::Pacman);
    }
    for p in &packages[3..] {
        assert_eq!(p.source, PackageSource::Aur);
    }
}

#[test]
fn installed_skips_failed_and_absent_tools() {
    let runs = vec![
        SourceRun { source: PackageSource::Pacman, outcome: ToolOutcome::Failed("boom".to_string()) },
        SourceRun { source: PackageSource::Aur, outcome: ToolOutcome::Absent },
        SourceRun { source: PackageSource::Flatpak, outcome: success("f1\n") },
    ];
    let packages = get_packages(&runs);
    assert_eq!(packages.len(), 1);
    assert_eq!(packages[0].name, "f1");
    assert_eq!(packages[0].source, PackageSource::Flatpak);
}

#[test]
fn recent_native_reverses_last_five_of_eight() {
    let listing = "p1\np2\np3\np4\np5\np6\np7\np8\n";
    let recent = get_recent_packages(&success(listing), &ToolOutcome::Absent);
    let names: Vec<&str> = recent.iter().map(|p| p.name.as_str()).collect();
    assert_eq!(names, vec!["p8", "p7", "p6", "p5", "p4"]);
    for p in &recent {
        assert_eq!(p.source, PackageSource::Pacman);
        assert_eq!(p.version, "");
    }
}

#[test]
fn recent_rpm_reads_history_install_lines() {
    let history = "ID | Command | Date\n1 2 install vim -y\n3 4 remove foo\n5 6 installonly\n";
    let recent = get_recent_packages(&ToolOutcome::Absent, &success(history));
    let names: Vec<&str> = recent.iter().map(|p| p.name.as_str()).collect();
    assert_eq!(names, vec!["vim", "unknown"]);
    for p in &recent {
        assert_eq!(p.source, PackageSource::Dnf);
    }
}

#[test]
fn outdated_rpm_skips_header_and_metadata_banner() {
    let out = get_outdated_packages(
        &ToolOutcome::Absent,
        &ToolOutcome::Absent,
        &success("header\n pkgA 1.2\nLast metadata ...\npkgB 3.4\n"),
    );
    let records = out.expect("no failure was reported");
    assert_eq!(records.len(), 2);
    assert_eq!(records[0].name, "pkgA");
    assert_eq!(records[0].version, "1.2");
    assert_eq!(records[1].name, "pkgB");
    assert_eq!(records[1].version, "3.4");
    for r in &records {
        assert_eq!(r.source, PackageSource::Dnf);
    }
}

#[test]
fn outdated_failure_discards_other_successes() {
    let out = get_outdated_packages(
        &ToolOutcome::Failed("pacman -Qu exited with status 1".to_string()),
        &success("aurpkg\n"),
        &ToolOutcome::Absent,
    );
    assert_eq!(out.unwrap_err(), "pacman -Qu exited with status 1");
}

#[test]
fn outdated_last_failure_wins() {
    let out = get_outdated_packages(
        &ToolOutcome::Failed("first".to_string()),
        &ToolOutcome::Failed("second".to_string()),
        &ToolOutcome::Failed("third".to_string()),
    );
    assert_eq!(out.unwrap_err(), "third");
}

#[test]
fn outdated_absent_tools_are_silent() {
    let out = get_outdated_packages(
        &ToolOutcome::Absent,
        &ToolOutcome::Absent,
        &ToolOutcome::Absent,
    );
    assert_eq!(out.unwrap().len(), 0);
}

#[test]
fn outdated_native_lines_become_records() {
    let out = get_outdated_packages(
        &success("pkg1 1.0 -> 2.0\npkg2 3.0 -> 3.1\n"),
        &ToolOutcome::Absent,
        &ToolOutcome::Absent,
    );
    let records = out.unwrap();
    assert_eq!(records.len(), 2);
    assert_eq!(records[0].name, "pkg1 1.0 -> 2.0");
    assert_eq!(records[0].version, "");
    assert_eq!(records[0].source, PackageSource::Pacman);
}
