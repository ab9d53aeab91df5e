//! Package-manager adapters: which tools to run for the detected family,
//! and how each tool's text output becomes normalized package records.

use vstd::prelude::*;

use crate::outcome::{ToolOutcome, ToolOutcomeView};
use crate::records::{PackageInfo, PackageInfoView, PackageSource};
use crate::text::{
    contains_str, is_blank, is_blank_str, join_tokens_from, spec_contains, spec_join_space,
    spec_lines, spec_starts_with, spec_tokens, split_lines, split_tokens, starts_with_str,
};

verus! {

/// The outcome of one installed-listing invocation, tagged with the
/// family the tool reports for.
pub struct SourceRun {
    pub source: PackageSource,
    pub outcome: ToolOutcome,
}

/// Mathematical image of a `SourceRun`.
pub ghost struct SourceRunView {
    pub source: PackageSource,
    pub outcome: ToolOutcomeView,
}

impl View for SourceRun {
    type V = SourceRunView;

    open spec fn view(&self) -> SourceRunView {
        SourceRunView { source: self.source, outcome: self.outcome@ }
    }
}

impl DeepView for SourceRun {
    type V = SourceRunView;

    open spec fn deep_view(&self) -> SourceRunView {
        self.view()
    }
}

/// One record per non-blank line: the raw line is the name, the version
/// is empty (this invocation shape yields none), the source is `src`.
pub open spec fn spec_install_records(lines: Seq<Seq<char>>, src: PackageSource) -> Seq<
    PackageInfoView,
>
    decreases lines.len(),
{
    if lines.len() == 0 {
        Seq::empty()
    } else {
        let rest = spec_install_records(lines.subrange(1, lines.len() as int), src);
        if is_blank(lines[0]) {
            rest
        } else {
            seq![
                PackageInfoView { name: lines[0], version: Seq::empty(), source: src },
            ] + rest
        }
    }
}

/// How many lines are not blank.
pub open spec fn count_nonblank(lines: Seq<Seq<char>>) -> int
    decreases lines.len(),
{
    if lines.len() == 0 {
        0int
    } else {
        count_nonblank(lines.subrange(1, lines.len() as int)) + if is_blank(lines[0]) {
            0int
        } else {
            1int
        }
    }
}

/// The shape of a line-per-record listing: one record per non-blank line,
/// names in line order, versions empty, all tagged `src`.
pub proof fn lemma_install_records_shape(lines: Seq<Seq<char>>, src: PackageSource)
    ensures
        spec_install_records(lines, src).len() == count_nonblank(lines),
        forall|i: int|
            0 <= i < spec_install_records(lines, src).len() ==> {
                let r = #[trigger] spec_install_records(lines, src)[i];
                r.version == Seq::<char>::empty() && r.source == src
            },
    decreases lines.len(),
{
    if lines.len() > 0 {
        lemma_install_records_shape(lines.subrange(1, lines.len() as int), src);
    }
}

/// Parses a line-per-record listing: each non-blank line of `output` is
/// one record named by the whole raw line, with empty version, tagged
/// `source`.
pub fn parse_tool_lines(output: &str, source: PackageSource) -> (r: Vec<PackageInfo>)
    ensures
        r.deep_view() == spec_install_records(spec_lines(output@), source),
{
    let lines = split_lines(output);
    let ghost lv = lines.deep_view();
    let mut r: Vec<PackageInfo> = Vec::new();
    let mut i: usize = 0;
    proof {
        assert(lv.subrange(0, lv.len() as int) =~= lv);
    }
    while i < lines.len()
        invariant
            0 <= i <= lines@.len(),
            lv == lines.deep_view(),
            spec_install_records(lv, source) == r.deep_view() + spec_install_records(
                lv.subrange(i as int, lv.len() as int),
                source,
            ),
        decreases lines@.len() - i,
    {
        let ghost prev = r.deep_view();
        let ghost suffix = lv.subrange(i as int, lv.len() as int);
        proof {
            assert(suffix[0] == lv[i as int]);
            assert(suffix.subrange(1, suffix.len() as int) =~= lv.subrange(
                i + 1,
                lv.len() as int,
            ));
        }
        if !is_blank_str(lines[i].as_str()) {
            let rec = PackageInfo {
                name: lines[i].clone(),
                version: String::new(),
                source,
            };
            r.push(rec);
            proof {
                assert(r.deep_view() =~= prev.push(
                    PackageInfoView { name: lv[i as int], version: Seq::empty(), source },
                ));
                assert(r.deep_view() + spec_install_records(
                    lv.subrange(i + 1, lv.len() as int),
                    source,
                ) =~= prev + spec_install_records(suffix, source));
            }
        }
        i = i + 1;
    }
    proof {
        assert(spec_install_records(lv.subrange(lv.len() as int, lv.len() as int), source)
            =~= Seq::<PackageInfoView>::empty());
        assert(r.deep_view() + spec_install_records(
            lv.subrange(lv.len() as int, lv.len() as int),
            source,
        ) =~= r.deep_view());
    }
    r
}

/// The records one tagged invocation contributes to the installed list:
/// its parsed listing on success, nothing on a failed or absent tool.
pub open spec fn spec_run_records(run: SourceRunView) -> Seq<PackageInfoView> {
    match run.outcome {
        ToolOutcomeView::Success(out) => spec_install_records(spec_lines(out), run.source),
        ToolOutcomeView::Failed(_) => Seq::empty(),
        ToolOutcomeView::Absent => Seq::empty(),
    }
}

/// Concatenation of every run's records, in run order, without
/// de-duplication.
pub open spec fn spec_installed_agg(runs: Seq<SourceRunView>) -> Seq<PackageInfoView>
    decreases runs.len(),
{
    if runs.len() == 0 {
        Seq::empty()
    } else {
        spec_run_records(runs[0]) + spec_installed_agg(runs.subrange(1, runs.len() as int))
    }
}

/// Merges the installed listings of the detected family's tools.
///
/// Each successful run contributes one record per non-blank output line;
/// a failed or absent tool contributes nothing (the failure is only a
/// diagnostic concern for installed listings). Records are concatenated
/// in run order and never de-duplicated.
pub fn get_packages(runs: &Vec<SourceRun>) -> (r: Vec<PackageInfo>)
    ensures
        r.deep_view() == spec_installed_agg(runs.deep_view()),
{
    let ghost rv = runs.deep_view();
    let mut r: Vec<PackageInfo> = Vec::new();
    let mut i: usize = 0;
    proof {
        assert(rv.subrange(0, rv.len() as int) =~= rv);
    }
    while i < runs.len()
        invariant
            0 <= i <= runs@.len(),
            rv == runs.deep_view(),
            spec_installed_agg(rv) == r.deep_view() + spec_installed_agg(
                rv.subrange(i as int, rv.len() as int),
            ),
        decreases runs@.len() - i,
    {
        let ghost prev = r.deep_view();
        let ghost suffix = rv.subrange(i as int, rv.len() as int);
        proof {
            assert(suffix[0] == rv[i as int]);
            assert(suffix.subrange(1, suffix.len() as int) =~= rv.subrange(
                i + 1,
                rv.len() as int,
            ));
        }
        match &runs[i].outcome {
            ToolOutcome::Success(out) => {
                let mut recs = parse_tool_lines(out.as_str(), runs[i].source);
                let ghost recsv = recs.deep_view();
                r.append(&mut recs);
                proof {
                    assert(r.deep_view() =~= prev + recsv);
                }
            },
            ToolOutcome::Failed(_) => {},
            ToolOutcome::Absent => {},
        }
        proof {
            assert(r.deep_view() + spec_installed_agg(rv.subrange(i + 1, rv.len() as int))
                =~= prev + spec_installed_agg(suffix));
        }
        i = i + 1;
    }
    proof {
        assert(spec_installed_agg(rv.subrange(rv.len() as int, rv.len() as int)) =~= Seq::<
            PackageInfoView,
        >::empty());
        assert(r.deep_view() + spec_installed_agg(rv.subrange(rv.len() as int, rv.len() as int))
            =~= r.deep_view());
    }
    r
}

/// One tool invocation the detector prescribes: the program, its
/// arguments for the installed query, and the family tag for the records
/// it will report.
pub struct ToolCommand {
    pub program: &'static str,
    pub args: Vec<&'static str>,
    pub source: PackageSource,
}

/// Mathematical image of a `ToolCommand`.
pub ghost struct ToolCommandView {
    pub program: Seq<char>,
    pub args: Seq<Seq<char>>,
    pub source: PackageSource,
}

impl View for ToolCommand {
    type V = ToolCommandView;

    open spec fn view(&self) -> ToolCommandView {
        ToolCommandView {
            program: self.program@,
            args: self.args.deep_view(),
            source: self.source,
        }
    }
}

impl DeepView for ToolCommand {
    type V = ToolCommandView;

    open spec fn deep_view(&self) -> ToolCommandView {
        self.view()
    }
}

/// Detection policy: exactly one family wins, probed in a fixed priority
/// order — the Arch-style native tool first, then the Debian-style tool,
/// then the RPM-style tool. Each `*_ok` flag says whether that family's
/// primary tool answered its version probe. The winner's companion tool
/// (AUR helper or Flatpak) is appended unconditionally; a companion that
/// turns out to be absent is a silent per-run miss later, not a concern
/// here. No responding family is a supported state and yields an empty
/// list, not an error.
pub fn detect_system(pacman_ok: bool, apt_ok: bool, dnf_ok: bool) -> (r: Vec<ToolCommand>)
    ensures
        pacman_ok ==> r.deep_view().len() == 2 && r@[0].program@ == "pacman"@ && r@[0].args.deep_view()
            == seq!["-Q"@] && r@[0].source == PackageSource::Pacman && r@[1].program@ == "yay"@
            && r@[1].args.deep_view() == seq!["-Qm"@] && r@[1].source == PackageSource::Aur,
        !pacman_ok && apt_ok ==> r.deep_view().len() == 2 && r@[0].program@ == "dpkg"@
            && r@[0].args.deep_view() == seq!["-l"@] && r@[0].source == PackageSource::Apt
            && r@[1].program@ == "flatpak"@ && r@[1].args.deep_view() == seq!["list"@]
            && r@[1].source == PackageSource::Flatpak,
        !pacman_ok && !apt_ok && dnf_ok ==> r.deep_view().len() == 2 && r@[0].program@ == "rpm"@
            && r@[0].args.deep_view() == seq!["-qa"@] && r@[0].source == PackageSource::Dnf
            && r@[1].program@ == "flatpak"@ && r@[1].args.deep_view() == seq!["list"@]
            && r@[1].source == PackageSource::Flatpak,
        !pacman_ok && !apt_ok && !dnf_ok ==> r.deep_view().len() == 0,
{
    let mut r: Vec<ToolCommand> = Vec::new();
    if pacman_ok {
        let mut a0: Vec<&'static str> = Vec::new();
        a0.push("-Q");
        let mut a1: Vec<&'static str> = Vec::new();
        a1.push("-Qm");
        proof {
            assert(a0.deep_view() =~= seq!["-Q"@]);
            assert(a1.deep_view() =~= seq!["-Qm"@]);
        }
        r.push(ToolCommand { program: "pacman", args: a0, source: PackageSource::Pacman });
        r.push(ToolCommand { program: "yay", args: a1, source: PackageSource::Aur });
    } else if apt_ok {
        let mut a0: Vec<&'static str> = Vec::new();
        a0.push("-l");
        let mut a1: Vec<&'static str> = Vec::new();
        a1.push("list");
        proof {
            assert(a0.deep_view() =~= seq!["-l"@]);
            assert(a1.deep_view() =~= seq!["list"@]);
        }
        r.push(ToolCommand { program: "dpkg", args: a0, source: PackageSource::Apt });
        r.push(ToolCommand { program: "flatpak", args: a1, source: PackageSource::Flatpak });
    } else if dnf_ok {
        let mut a0: Vec<&'static str> = Vec::new();
        a0.push("-qa");
        let mut a1: Vec<&'static str> = Vec::new();
        a1.push("list");
        proof {
            assert(a0.deep_view() =~= seq!["-qa"@]);
            assert(a1.deep_view() =~= seq!["list"@]);
        }
        r.push(ToolCommand { program: "rpm", args: a0, source: PackageSource::Dnf });
        r.push(ToolCommand { program: "flatpak", args: a1, source: PackageSource::Flatpak });
    }
    r
}

/// One upgrade row of the RPM-family upgrade listing: a row past the
/// header is kept when it is not blank, does not begin with the
/// metadata-freshness banner, and splits into at least two whitespace
/// tokens — token 0 is the name, token 1 the version.
pub open spec fn spec_dnf_outdated_rows(rows: Seq<Seq<char>>) -> Seq<PackageInfoView>
    decreases rows.len(),
{
    if rows.len() == 0 {
        Seq::empty()
    } else {
        let l = rows[0];
        let rest = spec_dnf_outdated_rows(rows.subrange(1, rows.len() as int));
        if !is_blank(l) && !spec_starts_with(l, "Last metadata"@) && spec_tokens(l).len() >= 2 {
            seq![
                PackageInfoView {
                    name: spec_tokens(l)[0],
                    version: spec_tokens(l)[1],
                    source: PackageSource::Dnf,
                },
            ] + rest
        } else {
            rest
        }
    }
}

/// The RPM-family upgrade listing: the first line is a header and is
/// skipped; the remaining rows are read per `spec_dnf_outdated_rows`.
pub open spec fn spec_dnf_outdated(lines: Seq<Seq<char>>) -> Seq<PackageInfoView> {
    if lines.len() == 0 {
        Seq::empty()
    } else {
        spec_dnf_outdated_rows(lines.subrange(1, lines.len() as int))
    }
}

/// Parses the RPM-family upgrade listing, per `spec_dnf_outdated`.
pub fn parse_dnf_outdated(output: &str) -> (r: Vec<PackageInfo>)
    ensures
        r.deep_view() == spec_dnf_outdated(spec_lines(output@)),
{
    let lines = split_lines(output);
    let ghost lv = lines.deep_view();
    let mut r: Vec<PackageInfo> = Vec::new();
    if lines.len() == 0 {
        return r;
    }
    let mut i: usize = 1;
    proof {
        assert(lv.subrange(1, lv.len() as int).subrange(
            0,
            lv.subrange(1, lv.len() as int).len() as int,
        ) =~= lv.subrange(1, lv.len() as int));
    }
    while i < lines.len()
        invariant
            1 <= i <= lines@.len(),
            lv == lines.deep_view(),
            lv.len() > 0,
            spec_dnf_outdated_rows(lv.subrange(1, lv.len() as int)) == r.deep_view()
                + spec_dnf_outdated_rows(lv.subrange(i as int, lv.len() as int)),
        decreases lines@.len() - i,
    {
        let ghost prev = r.deep_view();
        let ghost suffix = lv.subrange(i as int, lv.len() as int);
        proof {
            assert(suffix[0] == lv[i as int]);
            assert(suffix.subrange(1, suffix.len() as int) =~= lv.subrange(
                i + 1,
                lv.len() as int,
            ));
        }
        let line = lines[i].as_str();
        if !is_blank_str(line) && !starts_with_str(line, "Last metadata") {
            let toks = split_tokens(line);
            proof {
                assert(toks.deep_view() == spec_tokens(lv[i as int]));
            }
            if toks.len() >= 2 {
                let rec = PackageInfo {
                    name: toks[0].clone(),
                    version: toks[1].clone(),
                    source: PackageSource::Dnf,
                };
                r.push(rec);
                proof {
                    assert(toks.deep_view()[0] == toks@[0]@);
                    assert(toks.deep_view()[1] == toks@[1]@);
                    assert(r.deep_view() =~= prev.push(
                        PackageInfoView {
                            name: spec_tokens(lv[i as int])[0],
                            version: spec_tokens(lv[i as int])[1],
                            source: PackageSource::Dnf,
                        },
                    ));
                    assert(r.deep_view() + spec_dnf_outdated_rows(
                        lv.subrange(i + 1, lv.len() as int),
                    ) =~= prev + spec_dnf_outdated_rows(suffix));
                }
            }
        }
        i = i + 1;
    }
    proof {
        assert(spec_dnf_outdated_rows(lv.subrange(lv.len() as int, lv.len() as int)) =~= Seq::<
            PackageInfoView,
        >::empty());
        assert(r.deep_view() + spec_dnf_outdated_rows(
            lv.subrange(lv.len() as int, lv.len() as int),
        ) =~= r.deep_view());
    }
    r
}

/// Which failure message the outdated query surfaces: a tool that
/// started but exited with failure status, the RPM-family tool taking
/// precedence over the helper, which takes precedence over the native
/// tool (the last failure encountered wins). Absent tools are silent.
pub open spec fn spec_outdated_error(
    pacman: ToolOutcomeView,
    yay: ToolOutcomeView,
    dnf: ToolOutcomeView,
) -> Option<Seq<char>> {
    if dnf is Failed {
        Some(dnf->Failed_0)
    } else if yay is Failed {
        Some(yay->Failed_0)
    } else if pacman is Failed {
        Some(pacman->Failed_0)
    } else {
        None
    }
}

/// The outdated records the three tools contribute when none of them
/// fails: line-per-record listings from the native tool and the helper,
/// and the parsed upgrade listing from the RPM-family tool.
pub open spec fn spec_outdated_records(
    pacman: ToolOutcomeView,
    yay: ToolOutcomeView,
    dnf: ToolOutcomeView,
) -> Seq<PackageInfoView> {
    (match pacman {
        ToolOutcomeView::Success(out) => spec_install_records(spec_lines(out), PackageSource::Pacman),
        _ => Seq::empty(),
    }) + (match yay {
        ToolOutcomeView::Success(out) => spec_install_records(spec_lines(out), PackageSource::Aur),
        _ => Seq::empty(),
    }) + (match dnf {
        ToolOutcomeView::Success(out) => spec_dnf_outdated(spec_lines(out)),
        _ => Seq::empty(),
    })
}

/// Collects outdated packages across the tools that define the query.
///
/// Failure policy: if any of the three invocations started but exited
/// with failure status, the whole outdated listing is discarded and that
/// failure's message is returned — even when another tool's query
/// succeeded. An absent tool is a silent miss. The caller is expected to
/// have run the native tool's best-effort database sync first and
/// discarded its outcome; that sync never influences this result.
pub fn get_outdated_packages(
    pacman: &ToolOutcome,
    yay: &ToolOutcome,
    dnf: &ToolOutcome,
) -> (r: Result<Vec<PackageInfo>, String>)
    ensures
        spec_outdated_error(pacman@, yay@, dnf@) is None ==> r is Ok
            && r->Ok_0.deep_view() == spec_outdated_records(pacman@, yay@, dnf@),
        spec_outdated_error(pacman@, yay@, dnf@) is Some ==> r is Err && r->Err_0@
            == spec_outdated_error(pacman@, yay@, dnf@)->0,
{
    let mut err: Option<String> = None;
    let mut records: Vec<PackageInfo> = Vec::new();
    match pacman {
        ToolOutcome::Success(out) => {
            let mut recs = parse_tool_lines(out.as_str(), PackageSource::Pacman);
            records.append(&mut recs);
        },
        ToolOutcome::Failed(m) => {
            err = Some(m.clone());
        },
        ToolOutcome::Absent => {},
    }
    let ghost after_pacman = records.deep_view();
    match yay {
        ToolOutcome::Success(out) => {
            let mut recs = parse_tool_lines(out.as_str(), PackageSource::Aur);
            let ghost recsv = recs.deep_view();
            records.append(&mut recs);
            proof {
                assert(records.deep_view() =~= after_pacman + recsv);
            }
        },
        ToolOutcome::Failed(m) => {
            err = Some(m.clone());
        },
        ToolOutcome::Absent => {},
    }
    let ghost after_yay = records.deep_view();
    match dnf {
        ToolOutcome::Success(out) => {
            let mut recs = parse_dnf_outdated(out.as_str());
            let ghost recsv = recs.deep_view();
            records.append(&mut recs);
            proof {
                assert(records.deep_view() =~= after_yay + recsv);
            }
        },
        ToolOutcome::Failed(m) => {
            err = Some(m.clone());
        },
        ToolOutcome::Absent => {},
    }
    match err {
        Some(m) => Err(m),
        None => {
            proof {
                assert(records.deep_view() =~= spec_outdated_records(pacman@, yay@, dnf@));
            }
            Ok(records)
        },
    }
}

/// The native tool's recently-installed view: the full installed listing
/// in reverse line order, truncated to the `limit` most recent entries
/// (blank lines among those are dropped, not replaced).
pub open spec fn spec_recent_pacman(out: Seq<char>, limit: int) -> Seq<PackageInfoView> {
    let lines = spec_lines(out);
    let lim = if lines.len() < limit {
        lines.len() as int
    } else {
        limit
    };
    spec_install_records(lines.reverse().take(lim), PackageSource::Pacman)
}

/// Parses the native tool's installed listing into the recent view, per
/// `spec_recent_pacman`.
pub fn parse_pacman_recent(output: &str, limit: usize) -> (r: Vec<PackageInfo>)
    ensures
        r.deep_view() == spec_recent_pacman(output@, limit as int),
{
    let lines = split_lines(output);
    let ghost lv = lines.deep_view();
    let n = lines.len();
    let lim: usize = if n < limit {
        n
    } else {
        limit
    };
    let ghost revtake = lv.reverse().take(lim as int);
    let mut r: Vec<PackageInfo> = Vec::new();
    let mut k: usize = 0;
    proof {
        assert(revtake.subrange(0, lim as int) =~= revtake);
    }
    while k < lim
        invariant
            0 <= k <= lim <= lines@.len(),
            lines@.len() == lv.len(),
            lv == lines.deep_view(),
            lv.len() < limit ==> lim == lv.len(),
            lv.len() >= limit ==> lim == limit,
            revtake == lv.reverse().take(lim as int),
            spec_install_records(revtake, PackageSource::Pacman) == r.deep_view()
                + spec_install_records(
                revtake.subrange(k as int, lim as int),
                PackageSource::Pacman,
            ),
        decreases lim - k,
    {
        let ghost prev = r.deep_view();
        let ghost suffix = revtake.subrange(k as int, lim as int);
        proof {
            assert(suffix[0] == revtake[k as int]);
            assert(revtake[k as int] == lv[lv.len() - 1 - k]);
            assert(suffix.subrange(1, suffix.len() as int) =~= revtake.subrange(
                k + 1,
                lim as int,
            ));
        }
        let idx = lines.len() - 1 - k;
        if !is_blank_str(lines[idx].as_str()) {
            let rec = PackageInfo {
                name: lines[idx].clone(),
                version: String::new(),
                source: PackageSource::Pacman,
            };
            r.push(rec);
            proof {
                assert(r.deep_view() =~= prev.push(
                    PackageInfoView {
                        name: lv[idx as int],
                        version: Seq::empty(),
                        source: PackageSource::Pacman,
                    },
                ));
                assert(r.deep_view() + spec_install_records(
                    revtake.subrange(k + 1, lim as int),
                    PackageSource::Pacman,
                ) =~= prev + spec_install_records(suffix, PackageSource::Pacman));
            }
        }
        k = k + 1;
    }
    proof {
        assert(spec_install_records(
            revtake.subrange(lim as int, lim as int),
            PackageSource::Pacman,
        ) =~= Seq::<PackageInfoView>::empty());
        assert(r.deep_view() + spec_install_records(
            revtake.subrange(lim as int, lim as int),
            PackageSource::Pacman,
        ) =~= r.deep_view());
    }
    r
}

/// The first token that names a package in a transaction-history command
/// column: neither the install-action token itself nor an option flag,
/// with a literal fallback when no token qualifies.
pub open spec fn spec_find_name(ts: Seq<Seq<char>>) -> Seq<char>
    decreases ts.len(),
{
    if ts.len() == 0 {
        "unknown"@
    } else if !spec_starts_with(ts[0], "install"@) && !spec_starts_with(ts[0], "-"@) {
        ts[0]
    } else {
        spec_find_name(ts.subrange(1, ts.len() as int))
    }
}

/// Finds the package-name token, per `spec_find_name`.
fn find_package_token(ts: &Vec<String>) -> (r: String)
    ensures
        r@ == spec_find_name(ts.deep_view()),
{
    let ghost tv = ts.deep_view();
    let mut j: usize = 0;
    proof {
        assert(tv.subrange(0, tv.len() as int) =~= tv);
    }
    while j < ts.len()
        invariant
            0 <= j <= ts@.len(),
            tv == ts.deep_view(),
            spec_find_name(tv) == spec_find_name(tv.subrange(j as int, tv.len() as int)),
        decreases ts@.len() - j,
    {
        let ghost suffix = tv.subrange(j as int, tv.len() as int);
        proof {
            assert(suffix[0] == tv[j as int]);
            assert(suffix.subrange(1, suffix.len() as int) =~= tv.subrange(
                j + 1,
                tv.len() as int,
            ));
        }
        let tok = ts[j].as_str();
        if !starts_with_str(tok, "install") && !starts_with_str(tok, "-") {
            return ts[j].clone();
        }
        j = j + 1;
    }
    proof {
        assert(spec_find_name(tv.subrange(tv.len() as int, tv.len() as int)) == "unknown"@);
    }
    "unknown".to_owned()
}

/// One row of the RPM-family transaction history: a row past the header
/// is kept when it is not blank and splits into at least three tokens;
/// the tokens from index 2 on are rejoined, and if that command column
/// mentions the install action, its first token that is neither the
/// action nor an option flag names the package (a literal fallback
/// otherwise).
pub open spec fn spec_dnf_recent_rows(rows: Seq<Seq<char>>) -> Seq<PackageInfoView>
    decreases rows.len(),
{
    if rows.len() == 0 {
        Seq::empty()
    } else {
        let l = rows[0];
        let rest = spec_dnf_recent_rows(rows.subrange(1, rows.len() as int));
        if !is_blank(l) && spec_tokens(l).len() >= 3 {
            let joined = spec_join_space(
                spec_tokens(l).subrange(2, spec_tokens(l).len() as int),
            );
            if spec_contains(joined, "install"@) {
                seq![
                    PackageInfoView {
                        name: spec_find_name(spec_tokens(joined)),
                        version: Seq::empty(),
                        source: PackageSource::Dnf,
                    },
                ] + rest
            } else {
                rest
            }
        } else {
            rest
        }
    }
}

/// The RPM-family transaction history: the first line is a header and is
/// skipped; the remaining rows are read per `spec_dnf_recent_rows`.
pub open spec fn spec_dnf_recent(lines: Seq<Seq<char>>) -> Seq<PackageInfoView> {
    if lines.len() == 0 {
        Seq::empty()
    } else {
        spec_dnf_recent_rows(lines.subrange(1, lines.len() as int))
    }
}

/// Parses the RPM-family transaction history, per `spec_dnf_recent`.
pub fn parse_dnf_recent(output: &str) -> (r: Vec<PackageInfo>)
    ensures
        r.deep_view() == spec_dnf_recent(spec_lines(output@)),
{
    let lines = split_lines(output);
    let ghost lv = lines.deep_view();
    let mut r: Vec<PackageInfo> = Vec::new();
    if lines.len() == 0 {
        return r;
    }
    let mut i: usize = 1;
    proof {
        assert(lv.subrange(1, lv.len() as int).subrange(
            0,
            lv.subrange(1, lv.len() as int).len() as int,
        ) =~= lv.subrange(1, lv.len() as int));
    }
    while i < lines.len()
        invariant
            1 <= i <= lines@.len(),
            lv == lines.deep_view(),
            lv.len() > 0,
            spec_dnf_recent_rows(lv.subrange(1, lv.len() as int)) == r.deep_view()
                + spec_dnf_recent_rows(lv.subrange(i as int, lv.len() as int)),
        decreases lines@.len() - i,
    {
        let ghost prev = r.deep_view();
        let ghost suffix = lv.subrange(i as int, lv.len() as int);
        proof {
            assert(suffix[0] == lv[i as int]);
            assert(suffix.subrange(1, suffix.len() as int) =~= lv.subrange(
                i + 1,
                lv.len() as int,
            ));
        }
        let line = lines[i].as_str();
        if !is_blank_str(line) {
            let toks = split_tokens(line);
            proof {
                assert(toks.deep_view() == spec_tokens(lv[i as int]));
            }
            if toks.len() >= 3 {
                let joined = join_tokens_from(&toks, 2);
                if contains_str(joined.as_str(), "install") {
                    let toks2 = split_tokens(joined.as_str());
                    let name = find_package_token(&toks2);
                    let rec = PackageInfo {
                        name,
                        version: String::new(),
                        source: PackageSource::Dnf,
                    };
                    r.push(rec);
                    proof {
                        assert(r.deep_view() =~= prev.push(
                            PackageInfoView {
                                name: spec_find_name(
                                    spec_tokens(
                                        spec_join_space(
                                            spec_tokens(lv[i as int]).subrange(
                                                2,
                                                spec_tokens(lv[i as int]).len() as int,
                                            ),
                                        ),
                                    ),
                                ),
                                version: Seq::empty(),
                                source: PackageSource::Dnf,
                            },
                        ));
                        assert(r.deep_view() + spec_dnf_recent_rows(
                            lv.subrange(i + 1, lv.len() as int),
                        ) =~= prev + spec_dnf_recent_rows(suffix));
                    }
                }
            }
        }
        i = i + 1;
    }
    proof {
        assert(spec_dnf_recent_rows(lv.subrange(lv.len() as int, lv.len() as int)) =~= Seq::<
            PackageInfoView,
        >::empty());
        assert(r.deep_view() + spec_dnf_recent_rows(lv.subrange(lv.len() as int, lv.len() as int))
            =~= r.deep_view());
    }
    r
}

/// What the recent query returns for the pair of tools that define it:
/// the native tool with its fixed limit of five, then the transaction
/// history (whose own limit the invocation itself carries).
pub open spec fn spec_recent(pacman: ToolOutcomeView, dnf: ToolOutcomeView) -> Seq<
    PackageInfoView,
> {
    (match pacman {
        ToolOutcomeView::Success(out) => spec_recent_pacman(out, 5),
        _ => Seq::empty(),
    }) + (match dnf {
        ToolOutcomeView::Success(out) => spec_dnf_recent(spec_lines(out)),
        _ => Seq::empty(),
    })
}

/// Collects recently-installed packages: the native tool's reversed,
/// truncated installed listing first, then the RPM-family transaction
/// history. A failed or absent tool contributes nothing and raises no
/// error (recent listings are best-effort).
pub fn get_recent_packages(pacman: &ToolOutcome, dnf: &ToolOutcome) -> (r: Vec<PackageInfo>)
    ensures
        r.deep_view() == spec_recent(pacman@, dnf@),
{
    let mut r: Vec<PackageInfo> = Vec::new();
    match pacman {
        ToolOutcome::Success(out) => {
            let mut recs = parse_pacman_recent(out.as_str(), 5);
            r.append(&mut recs);
        },
        ToolOutcome::Failed(_) => {},
        ToolOutcome::Absent => {},
    }
    let ghost after_pacman = r.deep_view();
    match dnf {
        ToolOutcome::Success(out) => {
            let mut recs = parse_dnf_recent(out.as_str());
            let ghost recsv = recs.deep_view();
            r.append(&mut recs);
            proof {
                assert(r.deep_view() =~= after_pacman + recsv);
            }
        },
        ToolOutcome::Failed(_) => {},
        ToolOutcome::Absent => {},
    }
    proof {
        assert(r.deep_view() =~= spec_recent(pacman@, dnf@));
    }
    r
}

/// Over lines that are all non-blank, the line-per-record listing keeps
/// every line as a record name, in order.
pub proof fn lemma_install_records_all_nonblank(lines: Seq<Seq<char>>, src: PackageSource)
    requires
        forall|i: int| 0 <= i < lines.len() ==> !is_blank(#[trigger] lines[i]),
    ensures
        spec_install_records(lines, src).len() == lines.len(),
        forall|i: int|
            0 <= i < lines.len() ==> #[trigger] spec_install_records(lines, src)[i]
                == (PackageInfoView { name: lines[i], version: Seq::empty(), source: src }),
    decreases lines.len(),
{
    if lines.len() > 0 {
        let t = lines.subrange(1, lines.len() as int);
        lemma_install_records_all_nonblank(t, src);
        assert forall|i: int| 0 <= i < lines.len() implies #[trigger] spec_install_records(
            lines,
            src,
        )[i] == (PackageInfoView { name: lines[i], version: Seq::empty(), source: src }) by {
            if i > 0 {
                assert(spec_install_records(t, src)[i - 1] == (PackageInfoView {
                    name: t[i - 1],
                    version: Seq::empty(),
                    source: src,
                }));
            }
        };
    }
}

/// Law: aggregating the installed listings of two adapters yields
/// exactly one record per non-blank line of each listing — the first
/// adapter's records first — every record carrying an empty version and
/// its own adapter's source tag.
pub proof fn lemma_installed_two_sources(
    out1: Seq<char>,
    src1: PackageSource,
    out2: Seq<char>,
    src2: PackageSource,
)
    ensures
        ({
            let agg = spec_installed_agg(
                seq![
                    SourceRunView { source: src1, outcome: ToolOutcomeView::Success(out1) },
                    SourceRunView { source: src2, outcome: ToolOutcomeView::Success(out2) },
                ],
            );
            let r1 = spec_install_records(spec_lines(out1), src1);
            let r2 = spec_install_records(spec_lines(out2), src2);
            agg == r1 + r2 && agg.len() == count_nonblank(spec_lines(out1)) + count_nonblank(
                spec_lines(out2),
            ) && (forall|i: int|
                0 <= i < r1.len() ==> (#[trigger] agg[i]).version == Seq::<char>::empty()
                    && agg[i].source == src1) && (forall|i: int|
                r1.len() <= i < agg.len() ==> (#[trigger] agg[i]).version == Seq::<char>::empty()
                    && agg[i].source == src2)
        }),
{
    let runs = seq![
        SourceRunView { source: src1, outcome: ToolOutcomeView::Success(out1) },
        SourceRunView { source: src2, outcome: ToolOutcomeView::Success(out2) },
    ];
    let r1 = spec_install_records(spec_lines(out1), src1);
    let r2 = spec_install_records(spec_lines(out2), src2);
    let tail = runs.subrange(1, 2);
    assert(tail[0] == runs[1]);
    assert(tail.subrange(1, 1) =~= Seq::<SourceRunView>::empty());
    assert(spec_installed_agg(tail.subrange(1, 1)) =~= Seq::<PackageInfoView>::empty());
    assert(spec_installed_agg(tail) =~= r2);
    assert(spec_installed_agg(runs) =~= r1 + r2);
    lemma_install_records_shape(spec_lines(out1), src1);
    lemma_install_records_shape(spec_lines(out2), src2);
    assert forall|i: int| r1.len() <= i < spec_installed_agg(runs).len() implies (
    #[trigger] spec_installed_agg(runs)[i]).version == Seq::<char>::empty()
        && spec_installed_agg(runs)[i].source == src2 by {
        assert(spec_installed_agg(runs)[i] == r2[i - r1.len()]);
    };
}

/// Law: over an installed listing of at least `limit` lines, none
/// blank, the native tool's recent view is exactly the last `limit`
/// lines in reverse order, each a record with an empty version.
pub proof fn lemma_recent_reverses_tail(out: Seq<char>, limit: int)
    requires
        limit >= 0,
        spec_lines(out).len() >= limit,
        forall|i: int| 0 <= i < spec_lines(out).len() ==> !is_blank(#[trigger] spec_lines(out)[i]),
    ensures
        spec_recent_pacman(out, limit).len() == limit,
        forall|k: int|
            0 <= k < limit ==> #[trigger] spec_recent_pacman(out, limit)[k] == (PackageInfoView {
                name: spec_lines(out)[spec_lines(out).len() - 1 - k],
                version: Seq::empty(),
                source: PackageSource::Pacman,
            }),
{
    let lines = spec_lines(out);
    let rt = lines.reverse().take(limit);
    assert(rt.len() == limit);
    assert forall|i: int| 0 <= i < rt.len() implies !is_blank(#[trigger] rt[i]) by {
        assert(rt[i] == lines[lines.len() - 1 - i]);
    };
    lemma_install_records_all_nonblank(rt, PackageSource::Pacman);
    assert forall|k: int| 0 <= k < limit implies #[trigger] spec_recent_pacman(out, limit)[k]
        == (PackageInfoView {
        name: lines[lines.len() - 1 - k],
        version: Seq::empty(),
        source: PackageSource::Pacman,
    }) by {
        assert(rt[k] == lines[lines.len() - 1 - k]);
        assert(spec_install_records(rt, PackageSource::Pacman)[k] == (PackageInfoView {
            name: rt[k],
            version: Seq::empty(),
            source: PackageSource::Pacman,
        }));
    };
}

} // verus!
