//! The normalized record model: one package, one disk volume.

use vstd::prelude::*;

verus! {

/// Which package-manager family reported a record.
///
/// A name may legitimately appear under two sources (a distro package and
/// a Flatpak of the same name are distinct records); no de-duplication is
/// ever applied.
#[derive(Clone, Copy, PartialEq, Eq, Structural, Debug)]
pub enum PackageSource {
    Pacman,
    Aur,
    Apt,
    Dnf,
    Flatpak,
    Unknown,
}

/// One installed, outdated or recently-installed package, as reported by
/// one tool. Immutable once produced.
#[derive(Clone, Debug)]
pub struct PackageInfo {
    /// Raw tool-reported identifier (for most listings: the whole line).
    pub name: String,
    /// Version text; empty where the invocation shape yields none.
    pub version: String,
    /// The family whose tool reported this record.
    pub source: PackageSource,
}

/// Mathematical image of a `PackageInfo`.
pub ghost struct PackageInfoView {
    pub name: Seq<char>,
    pub version: Seq<char>,
    pub source: PackageSource,
}

impl View for PackageInfo {
    type V = PackageInfoView;

    open spec fn view(&self) -> PackageInfoView {
        PackageInfoView { name: self.name@, version: self.version@, source: self.source }
    }
}

impl DeepView for PackageInfo {
    type V = PackageInfoView;

    open spec fn deep_view(&self) -> PackageInfoView {
        self.view()
    }
}

/// One mounted real-device volume, decoded from the disk-usage utility.
///
/// The byte counts are trusted from the probe: `used + available` may
/// legitimately be less than `total` (reserved filesystem blocks), and no
/// relation between them is enforced.
#[derive(Clone, Debug)]
pub struct DiskInfo {
    pub device: String,
    pub mount_point: String,
    pub total: u64,
    pub used: u64,
    pub available: u64,
}

/// Mathematical image of a `DiskInfo`.
pub ghost struct DiskInfoView {
    pub device: Seq<char>,
    pub mount_point: Seq<char>,
    pub total: u64,
    pub used: u64,
    pub available: u64,
}

impl View for DiskInfo {
    type V = DiskInfoView;

    open spec fn view(&self) -> DiskInfoView {
        DiskInfoView {
            device: self.device@,
            mount_point: self.mount_point@,
            total: self.total,
            used: self.used,
            available: self.available,
        }
    }
}

impl DeepView for DiskInfo {
    type V = DiskInfoView;

    open spec fn deep_view(&self) -> DiskInfoView {
        self.view()
    }
}

/// Usage share of a volume, as basis points of the percentage scale:
/// `floor(used * 10000 / total)` (two decimals of a percent), and 0 when
/// `total` is 0. Capped at `u64::MAX` where the probe reported `used`
/// absurdly larger than `total`.
pub open spec fn spec_usage_basis_points(v: DiskInfoView) -> int {
    if v.total == 0 {
        0
    } else if v.used as int * 10000 / v.total as int > u64::MAX as int {
        u64::MAX as int
    } else {
        v.used as int * 10000 / v.total as int
    }
}

/// Descending order on the usage ratio `used / total` (a volume with
/// `total == 0` counts as ratio 0). Stated over the exact rational by
/// cross-multiplication, so ties are exact.
pub open spec fn spec_usage_ge(a: DiskInfoView, b: DiskInfoView) -> bool {
    if b.total == 0 {
        true
    } else if a.total == 0 {
        b.used == 0
    } else {
        a.used as int * b.total as int >= b.used as int * a.total as int
    }
}

impl DiskInfo {
    /// Usage share in basis points (hundredths of a percent):
    /// 10000 means the volume is full.
    pub fn usage_basis_points(&self) -> (r: u64)
        ensures
            r as int == spec_usage_basis_points(self@),
    {
        if self.total == 0 {
            0u64
        } else {
            let q: u128 = (self.used as u128) * 10000u128 / (self.total as u128);
            if q > u64::MAX as u128 {
                u64::MAX
            } else {
                q as u64
            }
        }
    }

    /// Whether this volume's usage ratio is at least `other`'s.
    pub fn usage_ge(&self, other: &DiskInfo) -> (r: bool)
        ensures
            r == spec_usage_ge(self@, other@),
    {
        if other.total == 0 {
            true
        } else if self.total == 0 {
            other.used == 0
        } else {
            let a: u128 = self.used as u128;
            let b: u128 = other.total as u128;
            let c: u128 = other.used as u128;
            let d: u128 = self.total as u128;
            proof {
                assert(a * b <= 0xffffffffffffffff * 0xffffffffffffffff) by (nonlinear_arith)
                    requires
                        a <= 0xffffffffffffffff,
                        b <= 0xffffffffffffffff,
                ;
                assert(c * d <= 0xffffffffffffffff * 0xffffffffffffffff) by (nonlinear_arith)
                    requires
                        c <= 0xffffffffffffffff,
                        d <= 0xffffffffffffffff,
                ;
            }
            a * b >= c * d
        }
    }
}

} // verus!
