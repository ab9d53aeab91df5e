use package_fetch::disk_info::get_disk_info;
use package_fetch::outcome::ToolOutcome;

const DF_OUTPUT: &str = "Filesystem Mounted-on Size Used Avail Use%\n\
/dev/sda1 / 100G 50G 45G 50%\n\
/dev/sdb1 /data 10G 9G 1G 90%\n\
tmpfs /tmp 8G 1G 7G 13%\n\
/dev/loop0 /snap 50M 50M 0 100%\n\
/dev/sdc1 /bad abc 1G 1G 10%\n";

#[test]
fn disk_rows_filtered_and_sorted_descending() {
    let disks = get_disk_info(&ToolOutcome::Success(DF_OUTPUT.to_string()));
    // tmpfs (no device prefix), loop0 (loop device) and the undecodable
    // row are dropped; the rest sort descending by usage share
    assert_eq!(disks.len(), 2);
    assert_eq!(disks[0].device, "/dev/sdb1");
    assert_eq!(disks[0].mount_point, "/data");
    assert_eq!(disks[0].total, 10 * 1024 * 1024 * 1024);
    assert_eq!(disks[0].used, 9 * 1024 * 1024 * 1024);
    assert_eq!(disks[0].available, 1024 * 1024 * 1024);
    assert_eq!(disks[1].device, "/dev/sda1");
    assert!(disks[0].usage_basis_points() >= disks[1].usage_basis_points());
}

#[test]
fn usage_basis_points_formula() {
    let disks = get_disk_info(&ToolOutcome::Success(DF_OUTPUT.to_string()));
    assert_eq!(disks[0].usage_basis_points(), 9000);
    assert_eq!(disks[1].usage_basis_points(), 5000);
}

#[test]
fn zero_total_counts_as_zero_usage() {
    let out = "hdr a b c d e\n/dev/sdz1 /z 0 0 0 -\n/dev/sda1 / 10K 5K 5K 50%\n";
    let disks = get_disk_info(&ToolOutcome::Success(out.to_string()));
    assert_eq!(disks.len(), 2);
    assert_eq!(disks[0].device, "/dev/sda1");
    assert_eq!(disks[1].device, "/dev/sdz1");
    assert_eq!(disks[1].usage_basis_points(), 0);
}

#[test]
fn failed_or_absent_probe_yields_no_volumes() {
    assert!(get_disk_info(&ToolOutcome::Failed("df: not found".to_string())).is_empty());
    assert!(get_disk_info(&ToolOutcome::Absent).is_empty());
}

#[test]
fn short_rows_are_dropped() {
    let out = "hdr\n/dev/sda1 / 10K 5K 5K\n";
    let disks = get_disk_info(&ToolOutcome::Success(out.to_string()));
    assert!(disks.is_empty());
}
