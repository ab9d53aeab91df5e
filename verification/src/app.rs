//! The inventory aggregator: one refresh turns the outcomes of every
//! external invocation into one fully-formed snapshot, and statistics are
//! derived from the snapshot on demand.

use vstd::prelude::*;

use crate::disk_info::{get_disk_info, sorted_by_usage, spec_disk_records};
use crate::outcome::{ToolOutcome, ToolOutcomeView};
use crate::packages::{
    get_outdated_packages, get_packages, get_recent_packages, spec_installed_agg,
    spec_outdated_error, spec_outdated_records, spec_recent, SourceRun, SourceRunView,
};
use crate::records::{DiskInfo, PackageInfo, PackageSource};
use crate::stats::count_source;

verus! {

/// The outcome of every external invocation one refresh performs, as
/// gathered by the surrounding application.
///
/// The application must run the native tool's best-effort database sync
/// before the native outdated query and discard its outcome; the sync
/// never appears here. Within one family the invocations are ordered;
/// across families and the disk probe they are independent.
pub struct RefreshInputs {
    /// The detected family's installed listings, in detection order.
    pub installed: Vec<SourceRun>,
    /// The native tool's outdated query.
    pub pacman_outdated: ToolOutcome,
    /// The AUR helper's outdated query.
    pub yay_outdated: ToolOutcome,
    /// The RPM-family upgrade listing.
    pub dnf_outdated: ToolOutcome,
    /// The native tool's full installed listing, for the recent view.
    pub pacman_recent: ToolOutcome,
    /// The RPM-family transaction history, limited to five entries.
    pub dnf_recent: ToolOutcome,
    /// The disk-usage utility.
    pub disk: ToolOutcome,
}

/// Mathematical image of a `RefreshInputs`.
pub ghost struct RefreshInputsView {
    pub installed: Seq<SourceRunView>,
    pub pacman_outdated: ToolOutcomeView,
    pub yay_outdated: ToolOutcomeView,
    pub dnf_outdated: ToolOutcomeView,
    pub pacman_recent: ToolOutcomeView,
    pub dnf_recent: ToolOutcomeView,
    pub disk: ToolOutcomeView,
}

impl View for RefreshInputs {
    type V = RefreshInputsView;

    open spec fn view(&self) -> RefreshInputsView {
        RefreshInputsView {
            installed: self.installed.deep_view(),
            pacman_outdated: self.pacman_outdated@,
            yay_outdated: self.yay_outdated@,
            dnf_outdated: self.dnf_outdated@,
            pacman_recent: self.pacman_recent@,
            dnf_recent: self.dnf_recent@,
            disk: self.disk@,
        }
    }
}

/// One immutable snapshot of the host's package inventory and disk
/// usage. Produced whole by one refresh and never mutated field by
/// field: a new refresh yields a replacement.
pub struct App {
    /// Installed packages, concatenated across the family's tools.
    pub packages: Vec<PackageInfo>,
    /// Outdated packages; empty whenever `error_message` is set.
    pub outdated_packages: Vec<PackageInfo>,
    /// Recently-installed packages, most capable source first.
    pub recent_packages: Vec<PackageInfo>,
    /// Real-device volumes, sorted descending by usage share.
    pub disk_info: Vec<DiskInfo>,
    /// The single surfaced failure of the outdated queries, if any.
    pub error_message: Option<String>,
}

/// Every field of `app` is what one refresh over exactly the outcomes in
/// `iv` produces; no field can come from any other refresh cycle.
pub open spec fn snapshot_matches(iv: RefreshInputsView, app: App) -> bool {
    &&& app.packages.deep_view() == spec_installed_agg(iv.installed)
    &&& match spec_outdated_error(iv.pacman_outdated, iv.yay_outdated, iv.dnf_outdated) {
        None => app.outdated_packages.deep_view() == spec_outdated_records(
            iv.pacman_outdated,
            iv.yay_outdated,
            iv.dnf_outdated,
        ) && app.error_message is None,
        Some(m) => app.outdated_packages.deep_view() == Seq::<
            crate::records::PackageInfoView,
        >::empty() && app.error_message is Some && app.error_message->0@ == m,
    }
    &&& app.recent_packages.deep_view() == spec_recent(iv.pacman_recent, iv.dnf_recent)
    &&& sorted_by_usage(app.disk_info.deep_view())
    &&& app.disk_info.deep_view().to_multiset() == spec_disk_records(iv.disk).to_multiset()
}

impl App {
    /// Builds the first snapshot from one refresh's outcomes.
    ///
    /// No failure aborts the refresh: a failed outdated query empties the
    /// outdated list and sets `error_message`; everything else degrades
    /// to empty fields.
    pub fn new(inputs: &RefreshInputs) -> (r: App)
        ensures
            snapshot_matches(inputs@, r),
    {
        let packages = get_packages(&inputs.installed);
        let (outdated_packages, error_message): (Vec<PackageInfo>, Option<String>) =
            match get_outdated_packages(
            &inputs.pacman_outdated,
            &inputs.yay_outdated,
            &inputs.dnf_outdated,
        ) {
            Ok(v) => (v, None),
            Err(e) => {
                let empty: Vec<PackageInfo> = Vec::new();
                proof {
                    assert(empty.deep_view() =~= Seq::<
                        crate::records::PackageInfoView,
                    >::empty());
                }
                (empty, Some(e))
            },
        };
        let recent_packages = get_recent_packages(&inputs.pacman_recent, &inputs.dnf_recent);
        let disk_info = get_disk_info(&inputs.disk);
        App { packages, outdated_packages, recent_packages, disk_info, error_message }
    }

    /// Replaces every field with what one new refresh produces.
    ///
    /// The contract does not mention the previous snapshot at all: the
    /// new state is a function of this refresh's inputs alone, so no
    /// field of an older cycle can survive into the new snapshot.
    pub fn update(&mut self, inputs: &RefreshInputs)
        ensures
            snapshot_matches(inputs@, *final(self)),
    {
        self.packages = get_packages(&inputs.installed);
        match get_outdated_packages(
            &inputs.pacman_outdated,
            &inputs.yay_outdated,
            &inputs.dnf_outdated,
        ) {
            Ok(v) => {
                self.outdated_packages = v;
                self.error_message = None;
            },
            Err(e) => {
                self.outdated_packages.clear();
                self.error_message = Some(e);
                proof {
                    assert(self.outdated_packages.deep_view() =~= Seq::<
                        crate::records::PackageInfoView,
                    >::empty());
                }
            },
        }
        self.recent_packages = get_recent_packages(&inputs.pacman_recent, &inputs.dnf_recent);
        self.disk_info = get_disk_info(&inputs.disk);
    }

    /// Derives the per-source statistics from this snapshot, in one pass
    /// over `packages`. Records of every source count toward `total`,
    /// unrecognised ones in their own bucket; `outdated` is the length
    /// of the outdated list. Pure: the snapshot is not touched.
    pub fn get_package_stats(&self) -> (r: PackageStats)
        ensures
            r.pacman as int == count_source(self.packages.deep_view(), PackageSource::Pacman),
            r.aur as int == count_source(self.packages.deep_view(), PackageSource::Aur),
            r.apt as int == count_source(self.packages.deep_view(), PackageSource::Apt),
            r.dnf as int == count_source(self.packages.deep_view(), PackageSource::Dnf),
            r.flatpak as int == count_source(self.packages.deep_view(), PackageSource::Flatpak),
            r.unknown as int == count_source(self.packages.deep_view(), PackageSource::Unknown),
            r.total == self.packages@.len(),
            r.total as int == r.pacman + r.aur + r.apt + r.dnf + r.flatpak + r.unknown,
            r.outdated == self.outdated_packages@.len(),
    {
        let counts = crate::stats::count_packages_by_source(&self.packages);
        PackageStats {
            total: counts.total,
            pacman: counts.pacman,
            aur: counts.aur,
            apt: counts.apt,
            dnf: counts.dnf,
            flatpak: counts.flatpak,
            unknown: counts.unknown,
            outdated: self.outdated_packages.len(),
        }
    }
}

/// Statistics derived from one snapshot; recomputed on request, never
/// cached across a snapshot replacement.
#[derive(Debug)]
pub struct PackageStats {
    pub total: usize,
    pub pacman: usize,
    pub aur: usize,
    pub apt: usize,
    pub dnf: usize,
    pub flatpak: usize,
    pub unknown: usize,
    pub outdated: usize,
}

/// Law: a native outdated query that started and failed empties the
/// snapshot's outdated list and surfaces a failure message, whatever the
/// installed, recent and disk outcomes were; when no later query also
/// failed, the surfaced message is exactly that failure's own. The
/// message is as non-empty as the detail the invoker recorded.
pub proof fn lemma_outdated_failure_surfaces(iv: RefreshInputsView, a: App)
    requires
        snapshot_matches(iv, a),
        iv.pacman_outdated is Failed,
    ensures
        a.outdated_packages.deep_view() == Seq::<crate::records::PackageInfoView>::empty(),
        a.error_message is Some,
        !(iv.yay_outdated is Failed) && !(iv.dnf_outdated is Failed) ==> a.error_message->0@
            == iv.pacman_outdated->Failed_0,
{
}

/// Law: two snapshots refreshed from the same inputs agree on every
/// field (the volume lists as equal multisets, both sorted descending).
/// A reader that holds a snapshot therefore sees one refresh cycle's
/// data in every field, never a mixture of two cycles.
pub proof fn lemma_refresh_determined(iv: RefreshInputsView, a: App, b: App)
    requires
        snapshot_matches(iv, a),
        snapshot_matches(iv, b),
    ensures
        a.packages.deep_view() == b.packages.deep_view(),
        a.outdated_packages.deep_view() == b.outdated_packages.deep_view(),
        a.recent_packages.deep_view() == b.recent_packages.deep_view(),
        a.disk_info.deep_view().to_multiset() == b.disk_info.deep_view().to_multiset(),
        a.error_message is Some <==> b.error_message is Some,
        a.error_message is Some ==> a.error_message->0@ == b.error_message->0@,
{
}

} // verus!
