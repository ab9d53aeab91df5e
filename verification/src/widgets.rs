//! Plain data holders for the renderer's widgets. Drawing them is the
//! surrounding application's concern; the library only carries the data.

use vstd::prelude::*;

use crate::app::PackageStats;

verus! {

/// The names a package table displays.
pub struct PackageTable {
    pub packages: Vec<String>,
}

/// The statistics a stats panel displays.
pub struct PackageStatsWidget {
    pub stats: PackageStats,
}

/// The values a bar graph displays.
pub struct PackageGraph {
    pub data: Vec<u64>,
}

impl PackageTable {
    pub fn new(packages: Vec<String>) -> (r: PackageTable)
        ensures
            r.packages == packages,
    {
        PackageTable { packages }
    }
}

impl PackageStatsWidget {
    pub fn new(stats: PackageStats) -> (r: PackageStatsWidget)
        ensures
            r.stats == stats,
    {
        PackageStatsWidget { stats }
    }
}

impl PackageGraph {
    pub fn new(data: Vec<u64>) -> (r: PackageGraph)
        ensures
            r.data == data,
    {
        PackageGraph { data }
    }
}

} // verus!
