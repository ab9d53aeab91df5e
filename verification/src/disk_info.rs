//! The disk probe's parsing half: decoding the disk-usage utility's
//! fixed-width table into volume records, filtering out virtual and
//! pseudo filesystems, and ordering by usage share.

use vstd::prelude::*;
use vstd::seq_lib::lemma_multiset_commutative;

use crate::codec::{parse_size, spec_parse_size};
use crate::outcome::{ToolOutcome, ToolOutcomeView};
use crate::records::{spec_usage_ge, DiskInfo, DiskInfoView};
use crate::text::{
    contains_str, spec_contains, spec_lines, spec_starts_with, spec_tokens, split_lines,
    split_tokens, starts_with_str,
};

verus! {

/// The volume a table row denotes, if the row is kept: at least six
/// whitespace tokens, a device token that names a real device (the
/// device-path prefix) and not a loop device, and three size tokens that
/// all decode. Size, used and available are tokens 2, 3 and 4.
pub open spec fn spec_disk_row(l: Seq<char>) -> Option<DiskInfoView> {
    let ts = spec_tokens(l);
    if ts.len() >= 6 && spec_starts_with(ts[0], "/dev/"@) && !spec_contains(ts[0], "loop"@) {
        let t2 = spec_parse_size(ts[2]);
        let t3 = spec_parse_size(ts[3]);
        let t4 = spec_parse_size(ts[4]);
        if t2 is Some && t3 is Some && t4 is Some {
            Some(
                DiskInfoView {
                    device: ts[0],
                    mount_point: ts[1],
                    total: t2->0 as u64,
                    used: t3->0 as u64,
                    available: t4->0 as u64,
                },
            )
        } else {
            None
        }
    } else {
        None
    }
}

/// The volumes of the table body, in row order.
pub open spec fn spec_disk_rows(rows: Seq<Seq<char>>) -> Seq<DiskInfoView>
    decreases rows.len(),
{
    if rows.len() == 0 {
        Seq::empty()
    } else {
        let rest = spec_disk_rows(rows.subrange(1, rows.len() as int));
        match spec_disk_row(rows[0]) {
            Some(v) => seq![v] + rest,
            None => rest,
        }
    }
}

/// The volumes of the whole utility output: the first line is the column
/// header and is skipped.
pub open spec fn spec_disk_info(lines: Seq<Seq<char>>) -> Seq<DiskInfoView> {
    if lines.len() == 0 {
        Seq::empty()
    } else {
        spec_disk_rows(lines.subrange(1, lines.len() as int))
    }
}

/// The volumes a probe outcome yields before sorting: a failed or absent
/// utility yields none, never an error.
pub open spec fn spec_disk_records(o: ToolOutcomeView) -> Seq<DiskInfoView> {
    match o {
        ToolOutcomeView::Success(out) => spec_disk_info(spec_lines(out)),
        ToolOutcomeView::Failed(_) => Seq::empty(),
        ToolOutcomeView::Absent => Seq::empty(),
    }
}

/// Descending order by usage share.
pub open spec fn sorted_by_usage(s: Seq<DiskInfoView>) -> bool {
    forall|i: int, j: int| 0 <= i < j < s.len() ==> spec_usage_ge(#[trigger] s[i], #[trigger] s[j])
}

/// The usage order relates every pair of volumes, one way or the other.
pub proof fn lemma_usage_ge_total(a: DiskInfoView, b: DiskInfoView)
    ensures
        spec_usage_ge(a, b) || spec_usage_ge(b, a),
{
}

/// The usage order is transitive.
pub proof fn lemma_usage_ge_trans(a: DiskInfoView, b: DiskInfoView, c: DiskInfoView)
    requires
        spec_usage_ge(a, b),
        spec_usage_ge(b, c),
    ensures
        spec_usage_ge(a, c),
{
    if c.total != 0 {
        if a.total == 0 {
            if b.total != 0 {
                assert(c.used as int * b.total as int <= 0) by (nonlinear_arith)
                    requires
                        b.used == 0,
                        spec_usage_ge(b, c),
                        b.total > 0,
                        c.total > 0,
                ;
                assert(c.used as int * b.total as int >= 0) by (nonlinear_arith)
                    requires
                        c.used >= 0,
                        b.total > 0,
                ;
                assert(c.used == 0) by (nonlinear_arith)
                    requires
                        c.used as int * b.total as int == 0,
                        b.total > 0,
                ;
            }
        } else if b.total == 0 {
            assert(a.used as int * c.total as int >= c.used as int * a.total as int)
                by (nonlinear_arith)
                requires
                    c.used == 0,
                    a.used >= 0,
                    c.total > 0,
                    a.total > 0,
            ;
        } else {
            assert(a.used as int * c.total as int >= c.used as int * a.total as int)
                by (nonlinear_arith)
                requires
                    a.used as int * b.total as int >= b.used as int * a.total as int,
                    b.used as int * c.total as int >= c.used as int * b.total as int,
                    a.total > 0,
                    b.total > 0,
                    c.total > 0,
            ;
        }
    }
}

/// A copy of a volume record with the same mathematical image.
fn clone_disk(d: &DiskInfo) -> (r: DiskInfo)
    ensures
        r@ == d@,
{
    DiskInfo {
        device: d.device.clone(),
        mount_point: d.mount_point.clone(),
        total: d.total,
        used: d.used,
        available: d.available,
    }
}

/// Parses the table body into volume records, per `spec_disk_info`.
fn parse_disk_rows(output: &str) -> (r: Vec<DiskInfo>)
    ensures
        r.deep_view() == spec_disk_info(spec_lines(output@)),
{
    let lines = split_lines(output);
    let ghost lv = lines.deep_view();
    let mut r: Vec<DiskInfo> = Vec::new();
    if lines.len() == 0 {
        return r;
    }
    let mut i: usize = 1;
    proof {
        assert(lv.subrange(1, lv.len() as int).subrange(
            0,
            lv.subrange(1, lv.len() as int).len() as int,
        ) =~= lv.subrange(1, lv.len() as int));
    }
    while i < lines.len()
        invariant
            1 <= i <= lines@.len(),
            lv == lines.deep_view(),
            lv.len() > 0,
            spec_disk_rows(lv.subrange(1, lv.len() as int)) == r.deep_view() + spec_disk_rows(
                lv.subrange(i as int, lv.len() as int),
            ),
        decreases lines@.len() - i,
    {
        let ghost prev = r.deep_view();
        let ghost suffix = lv.subrange(i as int, lv.len() as int);
        proof {
            assert(suffix[0] == lv[i as int]);
            assert(suffix.subrange(1, suffix.len() as int) =~= lv.subrange(
                i + 1,
                lv.len() as int,
            ));
        }
        let toks = split_tokens(lines[i].as_str());
        proof {
            assert(toks.deep_view() == spec_tokens(lv[i as int]));
        }
        if toks.len() >= 6 {
            if starts_with_str(toks[0].as_str(), "/dev/") && !contains_str(
                toks[0].as_str(),
                "loop",
            ) {
                let total = parse_size(toks[2].as_str());
                let used = parse_size(toks[3].as_str());
                let available = parse_size(toks[4].as_str());
                match (total, used, available) {
                    (Some(t), Some(u), Some(a)) => {
                        let rec = DiskInfo {
                            device: toks[0].clone(),
                            mount_point: toks[1].clone(),
                            total: t,
                            used: u,
                            available: a,
                        };
                        r.push(rec);
                        proof {
                            assert(toks.deep_view()[0] == toks@[0]@);
                            assert(toks.deep_view()[1] == toks@[1]@);
                            assert(toks.deep_view()[2] == toks@[2]@);
                            assert(toks.deep_view()[3] == toks@[3]@);
                            assert(toks.deep_view()[4] == toks@[4]@);
                            assert(spec_disk_row(lv[i as int]) == Some(
                                DiskInfoView {
                                    device: toks.deep_view()[0],
                                    mount_point: toks.deep_view()[1],
                                    total: t,
                                    used: u,
                                    available: a,
                                },
                            ));
                            assert(r.deep_view() =~= prev.push(
                                spec_disk_row(lv[i as int])->0,
                            ));
                            assert(r.deep_view() + spec_disk_rows(
                                lv.subrange(i + 1, lv.len() as int),
                            ) =~= prev + spec_disk_rows(suffix));
                        }
                    },
                    _ => {},
                }
            }
        }
        i = i + 1;
    }
    proof {
        assert(spec_disk_rows(lv.subrange(lv.len() as int, lv.len() as int)) =~= Seq::<
            DiskInfoView,
        >::empty());
        assert(r.deep_view() + spec_disk_rows(lv.subrange(lv.len() as int, lv.len() as int)) =~= r.deep_view());
    }
    r
}

/// Sorts volume records descending by usage share: insertion into an
/// output vector, preserving the records as a multiset.
fn sort_by_usage(v: Vec<DiskInfo>) -> (r: Vec<DiskInfo>)
    ensures
        sorted_by_usage(r.deep_view()),
        r.deep_view().to_multiset() == v.deep_view().to_multiset(),
{
    let ghost vv = v.deep_view();
    let mut r: Vec<DiskInfo> = Vec::new();
    let mut i: usize = 0;
    proof {
        assert(vv.subrange(0, 0) =~= Seq::<DiskInfoView>::empty());
        assert(r.deep_view() =~= Seq::<DiskInfoView>::empty());
        assert(r.deep_view().to_multiset() =~= vv.subrange(0, 0).to_multiset());
    }
    while i < v.len()
        invariant
            0 <= i <= v@.len(),
            vv == v.deep_view(),
            sorted_by_usage(r.deep_view()),
            r.deep_view().to_multiset() == vv.subrange(0, i as int).to_multiset(),
        decreases v@.len() - i,
    {
        let ghost before = r.deep_view();
        let x = clone_disk(&v[i]);
        let ghost xv = x@;
        // find the first position whose record is not at least as used
        let mut pos: usize = 0;
        while pos < r.len() && r[pos].usage_ge(&x)
            invariant
                0 <= pos <= r@.len(),
                before == r.deep_view(),
                xv == x@,
                forall|k: int| 0 <= k < pos ==> spec_usage_ge(#[trigger] before[k], xv),
            decreases r@.len() - pos,
        {
            proof {
                assert(before[pos as int] == r@[pos as int]@);
            }
            pos = pos + 1;
        }
        r.insert(pos, x);
        proof {
            let after = r.deep_view();
            assert(after =~= before.subrange(0, pos as int) + seq![xv] + before.subrange(
                pos as int,
                before.len() as int,
            ));
            // order: everything before `pos` dominates x, x dominates the rest
            if pos < before.len() {
                lemma_usage_ge_total(before[pos as int], xv);
            }
            assert forall|a: int, b: int| 0 <= a < b < after.len() implies spec_usage_ge(
                #[trigger] after[a],
                #[trigger] after[b],
            ) by {
                if a < pos && b == pos {
                } else if a < pos && b > pos {
                    assert(after[b] == before[b - 1]);
                } else if a == pos && b > pos {
                    assert(spec_usage_ge(xv, before[pos as int]));
                    lemma_usage_ge_trans(xv, before[pos as int], before[b - 1]);
                } else if a > pos && b > pos {
                    assert(after[a] == before[a - 1] && after[b] == before[b - 1]);
                }
            }
            // multiset: one more copy of x
            broadcast use vstd::seq_lib::group_to_multiset_ensures;

            let pre = before.subrange(0, pos as int);
            let suf = before.subrange(pos as int, before.len() as int);
            assert(after =~= pre.push(xv) + suf);
            lemma_multiset_commutative(pre.push(xv), suf);
            lemma_multiset_commutative(pre, suf);
            assert(pre + suf =~= before);
            assert(pre.push(xv).to_multiset() =~= pre.to_multiset().insert(xv));
            assert(after.to_multiset() =~= before.to_multiset().insert(xv));
            assert(vv.subrange(0, i + 1) =~= vv.subrange(0, i as int).push(xv));
            assert(vv.subrange(0, i as int).push(xv).to_multiset() =~= vv.subrange(
                0,
                i as int,
            ).to_multiset().insert(xv));
            assert(after.to_multiset() =~= vv.subrange(0, i + 1).to_multiset());
        }
        i = i + 1;
    }
    proof {
        assert(vv.subrange(0, vv.len() as int) =~= vv);
    }
    r
}

/// Decodes and orders the disk-usage utility's output.
///
/// Keeps exactly the rows `spec_disk_row` keeps — real, non-loop devices
/// with six decodable columns — and returns them sorted descending by
/// usage share. A utility that failed or could not run yields an empty
/// list, never an error.
pub fn get_disk_info(outcome: &ToolOutcome) -> (r: Vec<DiskInfo>)
    ensures
        sorted_by_usage(r.deep_view()),
        r.deep_view().to_multiset() == spec_disk_records(outcome@).to_multiset(),
{
    match outcome {
        ToolOutcome::Success(out) => {
            let rows = parse_disk_rows(out.as_str());
            sort_by_usage(rows)
        },
        ToolOutcome::Failed(_) => {
            let r: Vec<DiskInfo> = Vec::new();
            proof {
                assert(r.deep_view() =~= Seq::<DiskInfoView>::empty());
                assert(r.deep_view().to_multiset() =~= spec_disk_records(
                    outcome@,
                ).to_multiset());
            }
            r
        },
        ToolOutcome::Absent => {
            let r: Vec<DiskInfo> = Vec::new();
            proof {
                assert(r.deep_view() =~= Seq::<DiskInfoView>::empty());
                assert(r.deep_view().to_multiset() =~= spec_disk_records(
                    outcome@,
                ).to_multiset());
            }
            r
        },
    }
}

} // verus!
