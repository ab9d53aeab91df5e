//! Counting package records by source.

use vstd::prelude::*;

use crate::records::{PackageInfo, PackageInfoView, PackageSource};

verus! {

/// How many records of `s` carry the source `src`.
pub open spec fn count_source(s: Seq<PackageInfoView>, src: PackageSource) -> int
    decreases s.len(),
{
    if s.len() == 0 {
        0int
    } else {
        (if s[0].source == src {
            1int
        } else {
            0int
        }) + count_source(s.subrange(1, s.len() as int), src)
    }
}

/// The six source buckets partition the records: their counts sum to the
/// number of records.
pub proof fn lemma_counts_partition(s: Seq<PackageInfoView>)
    ensures
        count_source(s, PackageSource::Pacman) + count_source(s, PackageSource::Aur)
            + count_source(s, PackageSource::Apt) + count_source(s, PackageSource::Dnf)
            + count_source(s, PackageSource::Flatpak) + count_source(s, PackageSource::Unknown)
            == s.len(),
    decreases s.len(),
{
    if s.len() > 0 {
        lemma_counts_partition(s.subrange(1, s.len() as int));
    }
}

/// Per-source record counts over one list of packages.
#[derive(Debug, Default)]
pub struct PackageCounts {
    pub total: usize,
    pub pacman: usize,
    pub aur: usize,
    pub apt: usize,
    pub dnf: usize,
    pub flatpak: usize,
    pub unknown: usize,
}

/// Buckets the records by source in a single pass. Every record counts
/// toward `total`; records of an unrecognised source get their own
/// bucket.
pub fn count_packages_by_source(packages: &Vec<PackageInfo>) -> (r: PackageCounts)
    ensures
        r.pacman as int == count_source(packages.deep_view(), PackageSource::Pacman),
        r.aur as int == count_source(packages.deep_view(), PackageSource::Aur),
        r.apt as int == count_source(packages.deep_view(), PackageSource::Apt),
        r.dnf as int == count_source(packages.deep_view(), PackageSource::Dnf),
        r.flatpak as int == count_source(packages.deep_view(), PackageSource::Flatpak),
        r.unknown as int == count_source(packages.deep_view(), PackageSource::Unknown),
        r.total == packages.deep_view().len(),
        r.total as int == r.pacman + r.aur + r.apt + r.dnf + r.flatpak + r.unknown,
{
    let ghost pv = packages.deep_view();
    let mut pacman: usize = 0;
    let mut aur: usize = 0;
    let mut apt: usize = 0;
    let mut dnf: usize = 0;
    let mut flatpak: usize = 0;
    let mut unknown: usize = 0;
    let mut i: usize = 0;
    proof {
        assert(pv.subrange(0, pv.len() as int) =~= pv);
    }
    while i < packages.len()
        invariant
            0 <= i <= packages@.len(),
            pv == packages.deep_view(),
            pacman <= i && aur <= i && apt <= i && dnf <= i && flatpak <= i && unknown <= i,
            count_source(pv, PackageSource::Pacman) == pacman + count_source(
                pv.subrange(i as int, pv.len() as int),
                PackageSource::Pacman,
            ),
            count_source(pv, PackageSource::Aur) == aur + count_source(
                pv.subrange(i as int, pv.len() as int),
                PackageSource::Aur,
            ),
            count_source(pv, PackageSource::Apt) == apt + count_source(
                pv.subrange(i as int, pv.len() as int),
                PackageSource::Apt,
            ),
            count_source(pv, PackageSource::Dnf) == dnf + count_source(
                pv.subrange(i as int, pv.len() as int),
                PackageSource::Dnf,
            ),
            count_source(pv, PackageSource::Flatpak) == flatpak + count_source(
                pv.subrange(i as int, pv.len() as int),
                PackageSource::Flatpak,
            ),
            count_source(pv, PackageSource::Unknown) == unknown + count_source(
                pv.subrange(i as int, pv.len() as int),
                PackageSource::Unknown,
            ),
        decreases packages@.len() - i,
    {
        let ghost suffix = pv.subrange(i as int, pv.len() as int);
        proof {
            assert(suffix[0] == pv[i as int]);
            assert(suffix.subrange(1, suffix.len() as int) =~= pv.subrange(
                i + 1,
                pv.len() as int,
            ));
        }
        match packages[i].source {
            PackageSource::Pacman => {
                pacman = pacman + 1;
            },
            PackageSource::Aur => {
                aur = aur + 1;
            },
            PackageSource::Apt => {
                apt = apt + 1;
            },
            PackageSource::Dnf => {
                dnf = dnf + 1;
            },
            PackageSource::Flatpak => {
                flatpak = flatpak + 1;
            },
            PackageSource::Unknown => {
                unknown = unknown + 1;
            },
        }
        i = i + 1;
    }
    proof {
        assert(pv.subrange(pv.len() as int, pv.len() as int) =~= Seq::<PackageInfoView>::empty());
        lemma_counts_partition(pv);
    }
    let total = pacman + aur + apt + dnf + flatpak + unknown;
    PackageCounts { total, pacman, aur, apt, dnf, flatpak, unknown }
}

} // verus!
