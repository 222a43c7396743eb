//! Vulnerability scans: an image's layers are merged into a throwaway view,
//! an outside scanner reads it, and a summary of what it found is kept.

use crate::codec::{
    json_array, json_list, json_map, json_member, json_object, json_opt_str, json_opt_string, json_pair, json_str,
    json_string,
};
use crate::error::Error;
use crate::image::opt_text;
use crate::num::{decimal, u64_text};
use crate::paths::{joined_path, path_join};
use crate::rootfs::OverlaySpec;
use crate::text::{cat2, cat3, cat4, str_eq, views};
use vstd::prelude::*;

verus! {

/// One vulnerability in an image.
#[derive(Debug)]
pub struct Finding {
    pub id: String,
    pub package: String,
    pub installed_version: String,
    pub fixed_version: Option<String>,
    pub severity: String,
    pub url: Option<String>,
}

/// What is known of one vulnerability.
pub struct FindingView {
    pub id: Seq<char>,
    pub package: Seq<char>,
    pub installed_version: Seq<char>,
    pub fixed_version: Option<Seq<char>>,
    pub severity: Seq<char>,
    pub url: Option<Seq<char>>,
}

impl View for Finding {
    type V = FindingView;

    open spec fn view(&self) -> FindingView {
        FindingView {
            id: self.id@,
            package: self.package@,
            installed_version: self.installed_version@,
            fixed_version: opt_text(self.fixed_version),
            severity: self.severity@,
            url: opt_text(self.url),
        }
    }
}

/// What a scan found, and how many vulnerabilities of each severity.
#[derive(Debug)]
pub struct ScanReport {
    pub critical: usize,
    pub high: usize,
    pub medium: usize,
    pub low: usize,
    pub findings: Vec<Finding>,
}

/// What several vulnerabilities are.
pub open spec fn finding_views(v: Seq<Finding>) -> Seq<FindingView> {
    v.map_values(|f: Finding| f@)
}

/// How many vulnerabilities have a severity.
pub open spec fn count_of(v: Seq<FindingView>, severity: Seq<char>) -> nat
    decreases v.len(),
{
    if v.len() == 0 {
        0
    } else {
        count_of(v.drop_last(), severity) + (if v.last().severity == severity {
            1nat
        } else {
            0nat
        })
    }
}

impl Default for ScanReport {
    fn default() -> (r: ScanReport)
        ensures
            r.critical == 0,
            r.high == 0,
            r.medium == 0,
            r.low == 0,
            r.findings@.len() == 0,
    {
        ScanReport { critical: 0, high: 0, medium: 0, low: 0, findings: Vec::new() }
    }
}

impl ScanReport {
    /// Whether the counts are those of the findings.
    pub open spec fn tallied(&self) -> bool {
        let f = finding_views(self.findings@);
        &&& self.critical == count_of(f, "CRITICAL"@)
        &&& self.high == count_of(f, "HIGH"@)
        &&& self.medium == count_of(f, "MEDIUM"@)
        &&& self.low == count_of(f, "LOW"@)
    }

    /// How many vulnerabilities were counted.
    pub fn total(&self) -> (r: usize)
        requires
            self.critical + self.high + self.medium + self.low <= usize::MAX,
        ensures
            r == self.critical + self.high + self.medium + self.low,
    {
        self.critical + self.high + self.medium + self.low
    }
}

/// The counts of a report never come to more than its findings: a finding has
/// one severity, and one of a severity that is not counted counts for none.
pub proof fn counts_stay_within_findings(v: Seq<FindingView>)
    ensures
        count_of(v, "CRITICAL"@) + count_of(v, "HIGH"@) + count_of(v, "MEDIUM"@) + count_of(v, "LOW"@) <= v.len(),
    decreases v.len(),
{
    reveal_strlit("CRITICAL");
    reveal_strlit("HIGH");
    reveal_strlit("MEDIUM");
    reveal_strlit("LOW");
    if v.len() > 0 {
        counts_stay_within_findings(v.drop_last());
        assert("HIGH"@.len() == 4 && "CRITICAL"@.len() == 8 && "MEDIUM"@.len() == 6 && "LOW"@.len() == 3);
    }
}

/// One vulnerability as the scanner reports it; what is not known is empty.
pub struct Vulnerability {
    pub vulnerability_id: String,
    pub pkg_name: String,
    pub installed_version: String,
    pub fixed_version: String,
    pub severity: String,
    pub primary_url: String,
}

/// A text, unless it is empty.
pub open spec fn unless_empty(s: Seq<char>) -> Option<Seq<char>> {
    if s.len() == 0 {
        None
    } else {
        Some(s)
    }
}

/// What is kept of a reported vulnerability.
pub open spec fn kept(v: Vulnerability) -> FindingView {
    FindingView {
        id: v.vulnerability_id@,
        package: v.pkg_name@,
        installed_version: v.installed_version@,
        fixed_version: unless_empty(v.fixed_version@),
        severity: v.severity@,
        url: unless_empty(v.primary_url@),
    }
}

/// A text, unless it is empty.
fn some_unless_empty(s: String) -> (r: Option<String>)
    ensures
        opt_text(r) == unless_empty(s@),
{
    if s.as_str().unicode_len() == 0 {
        None
    } else {
        Some(s)
    }
}

/// How the scanner came out.
pub enum Scanned {
    NotStarted(String),
    Failed { status: String, stderr: String },
    Unreadable(String),
    /// What it reported, target by target.
    Found(Vec<Vec<Vulnerability>>),
}

/// The vulnerabilities of all targets, in order.
pub open spec fn all_kept(results: Seq<Vec<Vulnerability>>) -> Seq<FindingView>
    decreases results.len(),
{
    if results.len() == 0 {
        Seq::empty()
    } else {
        all_kept(results.drop_last()) + results.last()@.map_values(|v: Vulnerability| kept(v))
    }
}

/// Where the scanner is to be had.
pub open spec fn install_hint() -> Seq<char> {
    " - is it installed? see https://aquasecurity.github.io/trivy/latest/getting-started/installation/"@
}

/// The layers of an image, merged below `scratch` for a scan: its three
/// directories there are made first. An image without layers cannot be scanned.
pub fn scan_overlay(lower_dirs: Vec<String>, scratch: &str) -> (r: Result<OverlaySpec, Error>)
    ensures
        match r {
            Ok(o) => lower_dirs@.len() > 0 && o.lower_dirs == lower_dirs && o.upper_dir@ == joined_path(
                scratch@,
                "upper"@,
            ) && o.work_dir@ == joined_path(scratch@, "work"@) && o.merged_dir@ == joined_path(scratch@, "merged"@),
            Err(e) => lower_dirs@.len() == 0 && (e matches Error::Scan(m) && m@
                == "cannot scan an image with no layers"@),
        },
{
    if lower_dirs.len() == 0 {
        return Err(Error::Scan("cannot scan an image with no layers".to_owned()));
    }
    Ok(
        OverlaySpec {
            lower_dirs,
            upper_dir: path_join(scratch, "upper"),
            work_dir: path_join(scratch, "work"),
            merged_dir: path_join(scratch, "merged"),
        },
    )
}

/// The arguments of the scanner for a merged view.
pub open spec fn scanner_args(target: Seq<char>) -> Seq<Seq<char>> {
    seq!["rootfs"@, "--format"@, "json"@, "--quiet"@, "--scanners"@, "vuln"@, target]
}

/// The arguments of the scanner for a merged view.
pub fn trivy_args(target: &str) -> (r: Vec<String>)
    ensures
        views(r@) == scanner_args(target@),
{
    let out: Vec<String> = vec![
        "rootfs".to_owned(),
        "--format".to_owned(),
        "json".to_owned(),
        "--quiet".to_owned(),
        "--scanners".to_owned(),
        "vuln".to_owned(),
        target.to_owned(),
    ];
    assert(views(out@) =~= scanner_args(target@));
    out
}

/// Adds one reported vulnerability to a report.
fn note(report: &mut ScanReport, v: Vulnerability)
    requires
        old(report).tallied(),
        old(report).findings@.len() < usize::MAX,
    ensures
        final(report).tallied(),
        finding_views(final(report).findings@) == finding_views(old(report).findings@).push(kept(v)),
{
    let ghost before = finding_views(report.findings@);
    proof {
        counts_stay_within_findings(before);
        assert(before.push(kept(v)).drop_last() =~= before);
        reveal_strlit("CRITICAL");
        reveal_strlit("HIGH");
        reveal_strlit("MEDIUM");
        reveal_strlit("LOW");
        assert("HIGH"@.len() == 4 && "CRITICAL"@.len() == 8 && "MEDIUM"@.len() == 6 && "LOW"@.len() == 3);
    }
    let severity = v.severity.as_str();
    if str_eq(severity, "CRITICAL") {
        report.critical = report.critical + 1;
    } else if str_eq(severity, "HIGH") {
        report.high = report.high + 1;
    } else if str_eq(severity, "MEDIUM") {
        report.medium = report.medium + 1;
    } else if str_eq(severity, "LOW") {
        report.low = report.low + 1;
    }
    let f = Finding {
        id: v.vulnerability_id,
        package: v.pkg_name,
        installed_version: v.installed_version,
        fixed_version: some_unless_empty(v.fixed_version),
        severity: v.severity,
        url: some_unless_empty(v.primary_url),
    };
    assert(finding_views(report.findings@.push(f)) =~= before.push(f@));
    report.findings.push(f);
}

/// How many vulnerabilities were reported.
pub open spec fn reported(s: Scanned) -> nat {
    match s {
        Scanned::Found(results) => all_kept(results@).len(),
        _ => 0,
    }
}

/// The report of a scan, given how the scanner came out: everything it
/// reported, counted by severity, or why there is no report.
pub fn run_trivy(scanned: Scanned) -> (r: Result<ScanReport, Error>)
    requires
        reported(scanned) <= usize::MAX,
    ensures
        match (scanned, r) {
            (Scanned::Found(results), Ok(report)) => finding_views(report.findings@) == all_kept(results@)
                && report.tallied(),
            (Scanned::NotStarted(e), Err(Error::Scan(m))) => m@ == "running trivy: "@ + e@ + install_hint(),
            (Scanned::Failed { status, stderr }, Err(Error::Scan(m))) => m@ == "trivy exited with "@ + status@
                + ": "@ + stderr@,
            (Scanned::Unreadable(e), Err(Error::Scan(m))) => m@ == "parsing trivy output: "@ + e@,
            _ => false,
        },
{
    let results = match scanned {
        Scanned::NotStarted(e) => {
            return Err(
                Error::Scan(
                    cat3(
                        "running trivy: ",
                        e.as_str(),
                        " - is it installed? see https://aquasecurity.github.io/trivy/latest/getting-started/installation/",
                    ),
                ),
            );
        },
        Scanned::Failed { status, stderr } => {
            return Err(Error::Scan(cat4("trivy exited with ", status.as_str(), ": ", stderr.as_str())));
        },
        Scanned::Unreadable(e) => {
            return Err(Error::Scan(cat2("parsing trivy output: ", e.as_str())));
        },
        Scanned::Found(results) => results,
    };
    let ghost whole = results@;
    let mut report = ScanReport::default();
    let mut rest = crate::order::reversed(results);
    assert(finding_views(report.findings@) =~= Seq::<FindingView>::empty());
    assert(rest@ =~= whole.reverse().take(rest@.len() as int));
    assert(whole.take(0) =~= Seq::<Vec<Vulnerability>>::empty());
    while rest.len() > 0
        invariant
            rest@.len() <= whole.len(),
            rest@ == whole.reverse().take(rest@.len() as int),
            report.tallied(),
            all_kept(whole).len() <= usize::MAX,
            finding_views(report.findings@) == all_kept(whole.take(whole.len() - rest@.len())),
        decreases rest.len(),
    {
        let ghost n = whole.len() - rest@.len();
        let one = match rest.pop() {
            Some(v) => v,
            None => Vec::new(),
        };
        proof {
            assert(one == whole[n]);
            assert(rest@ =~= whole.reverse().take(rest@.len() as int));
            assert(whole.take(n + 1).drop_last() =~= whole.take(n));
            assert(whole.take(n + 1).last() == one);
            lemma_kept_grows(whole, n + 1);
        }
        let ghost before = all_kept(whole.take(n));
        let ghost added = one@.map_values(|v: Vulnerability| kept(v));
        let ghost target = one@;
        let mut items = crate::order::reversed(one);
        assert(items@ =~= target.reverse().take(items@.len() as int));
        assert(before + added.take(0) =~= before);
        while items.len() > 0
            invariant
                items@.len() <= target.len(),
                items@ == target.reverse().take(items@.len() as int),
                report.tallied(),
                added == target.map_values(|v: Vulnerability| kept(v)),
                (before + added).len() <= usize::MAX,
                finding_views(report.findings@) == before + added.take(target.len() - items@.len()),
            decreases items.len(),
        {
            let ghost k = target.len() - items@.len();
            if let Some(v) = items.pop() {
                proof {
                    assert(v == target[k]);
                    assert(items@ =~= target.reverse().take(items@.len() as int));
                    assert(added.take(k + 1) =~= added.take(k).push(kept(v)));
                    assert(before + added.take(k + 1) =~= (before + added.take(k)).push(kept(v)));
                    assert(finding_views(report.findings@).len() == report.findings@.len());
                }
                note(&mut report, v);
            }
        }
        proof {
            assert(added.take(target.len() as int) =~= added);
        }
    }
    assert(whole.take(whole.len() as int) =~= whole);
    Ok(report)
}

/// The first targets report no more than all of them.
proof fn lemma_kept_grows(results: Seq<Vec<Vulnerability>>, n: int)
    requires
        0 <= n <= results.len(),
    ensures
        all_kept(results.take(n)).len() <= all_kept(results).len(),
    decreases results.len() - n,
{
    if n == results.len() {
        assert(results.take(n) =~= results);
    } else {
        lemma_kept_grows(results, n + 1);
        assert(results.take(n + 1).drop_last() =~= results.take(n));
    }
}

// ---- As JSON ---------------------------------------------------------------

/// A vulnerability as JSON.
pub open spec fn finding_json(f: FindingView) -> Seq<char> {
    json_object(
        seq![
            json_member("id"@, json_string(f.id)),
            json_member("package"@, json_string(f.package)),
            json_member("installed_version"@, json_string(f.installed_version)),
            json_member("fixed_version"@, json_opt_string(f.fixed_version)),
            json_member("severity"@, json_string(f.severity)),
            json_member("url"@, json_opt_string(f.url)),
        ],
    )
}

impl Finding {
    /// The vulnerability as JSON.
    pub fn to_json(&self) -> (r: String)
        ensures
            r@ == finding_json(self@),
    {
        let mut m: Vec<String> = Vec::new();
        let v = json_str(self.id.as_str());
        m.push(json_pair("id", v.as_str()));
        let v = json_str(self.package.as_str());
        m.push(json_pair("package", v.as_str()));
        let v = json_str(self.installed_version.as_str());
        m.push(json_pair("installed_version", v.as_str()));
        let v = json_opt_str(&self.fixed_version);
        m.push(json_pair("fixed_version", v.as_str()));
        let v = json_str(self.severity.as_str());
        m.push(json_pair("severity", v.as_str()));
        let v = json_opt_str(&self.url);
        m.push(json_pair("url", v.as_str()));
        assert(views(m@) =~= seq![
            json_member("id"@, json_string(self@.id)),
            json_member("package"@, json_string(self@.package)),
            json_member("installed_version"@, json_string(self@.installed_version)),
            json_member("fixed_version"@, json_opt_string(self@.fixed_version)),
            json_member("severity"@, json_string(self@.severity)),
            json_member("url"@, json_opt_string(self@.url)),
        ]);
        json_map(&m)
    }
}

/// A report as JSON.
pub open spec fn report_json(r: ScanReport) -> Seq<char> {
    json_object(
        seq![
            json_member("critical"@, decimal(r.critical as nat)),
            json_member("high"@, decimal(r.high as nat)),
            json_member("medium"@, decimal(r.medium as nat)),
            json_member("low"@, decimal(r.low as nat)),
            json_member(
                "findings"@,
                json_array(finding_views(r.findings@).map_values(|f: FindingView| finding_json(f))),
            ),
        ],
    )
}

impl ScanReport {
    /// The report as JSON.
    pub fn to_json(&self) -> (r: String)
        ensures
            r@ == report_json(*self),
    {
        let ghost all = finding_views(self.findings@).map_values(|f: FindingView| finding_json(f));
        let mut items: Vec<String> = Vec::new();
        let mut i: usize = 0;
        while i < self.findings.len()
            invariant
                i <= self.findings@.len(),
                all == finding_views(self.findings@).map_values(|f: FindingView| finding_json(f)),
                views(items@) == all.take(i as int),
            decreases self.findings.len() - i,
        {
            let j = self.findings[i].to_json();
            assert(views(items@.push(j)) =~= views(items@).push(j@));
            assert(all.take(i + 1) =~= all.take(i as int).push(j@));
            items.push(j);
            i += 1;
        }
        assert(all.take(i as int) =~= all);
        let mut m: Vec<String> = Vec::new();
        let v = u64_text(self.critical as u64);
        m.push(json_pair("critical", v.as_str()));
        let v = u64_text(self.high as u64);
        m.push(json_pair("high", v.as_str()));
        let v = u64_text(self.medium as u64);
        m.push(json_pair("medium", v.as_str()));
        let v = u64_text(self.low as u64);
        m.push(json_pair("low", v.as_str()));
        let v = json_list(&items);
        m.push(json_pair("findings", v.as_str()));
        assert(views(m@) =~= seq![
            json_member("critical"@, decimal(self.critical as nat)),
            json_member("high"@, decimal(self.high as nat)),
            json_member("medium"@, decimal(self.medium as nat)),
            json_member("low"@, decimal(self.low as nat)),
            json_member("findings"@, json_array(all)),
        ]);
        json_map(&m)
    }
}

/// Counting goes vulnerability by vulnerability, each by its own severity.
pub proof fn counts_add_up(a: Seq<FindingView>, b: Seq<FindingView>, f: FindingView, severity: Seq<char>)
    ensures
        count_of(a + b, severity) == count_of(a, severity) + count_of(b, severity),
        count_of(seq![f], severity) == (if f.severity == severity {
            1nat
        } else {
            0nat
        }),
        count_of(Seq::empty(), severity) == 0,
    decreases b.len(),
{
    reveal_with_fuel(count_of, 2);
    assert(seq![f].drop_last() =~= Seq::<FindingView>::empty());
    if b.len() == 0 {
        assert(a + b =~= a);
    } else {
        counts_add_up(a, b.drop_last(), f, severity);
        assert((a + b).drop_last() =~= a + b.drop_last());
        assert((a + b).last() == b.last());
    }
}

/// A report that was tallied has the count of each severity in its own place.
pub proof fn reports_count_by_severity(r: ScanReport)
    requires
        r.tallied(),
    ensures
        r.critical == finding_views(r.findings@).filter(|f: FindingView| f.severity == "CRITICAL"@).len(),
        r.high == finding_views(r.findings@).filter(|f: FindingView| f.severity == "HIGH"@).len(),
        r.medium == finding_views(r.findings@).filter(|f: FindingView| f.severity == "MEDIUM"@).len(),
        r.low == finding_views(r.findings@).filter(|f: FindingView| f.severity == "LOW"@).len(),
{
    let v = finding_views(r.findings@);
    lemma_count(v, "CRITICAL"@);
    lemma_count(v, "HIGH"@);
    lemma_count(v, "MEDIUM"@);
    lemma_count(v, "LOW"@);
}

/// A count is how many vulnerabilities are left of a severity.
proof fn lemma_count(v: Seq<FindingView>, severity: Seq<char>)
    ensures
        count_of(v, severity) == v.filter(|f: FindingView| f.severity == severity).len(),
    decreases v.len(),
{
    reveal(Seq::filter);
    if v.len() > 0 {
        lemma_count(v.drop_last(), severity);
    }
}

/// Everything that the scanner reported is kept, target by target and in order,
/// with each field where it belongs; of the two that may be missing, an empty
/// one counts as missing.
pub proof fn nothing_reported_is_lost(
    a: Seq<Vec<Vulnerability>>,
    b: Seq<Vec<Vulnerability>>,
    one: Vec<Vulnerability>,
    i: int,
)
    requires
        0 <= i < one@.len(),
    ensures
        all_kept(a + b) == all_kept(a) + all_kept(b),
        all_kept(seq![one]).len() == one@.len(),
        ({
            let f = all_kept(seq![one])[i];
            let v = one@[i];
            &&& f.id == v.vulnerability_id@
            &&& f.package == v.pkg_name@
            &&& f.installed_version == v.installed_version@
            &&& f.severity == v.severity@
            &&& f.fixed_version == (if v.fixed_version@.len() > 0 {
                Some(v.fixed_version@)
            } else {
                None
            })
            &&& f.url == (if v.primary_url@.len() > 0 {
                Some(v.primary_url@)
            } else {
                None
            })
        }),
    decreases b.len(),
{
    reveal_with_fuel(all_kept, 2);
    assert(seq![one].drop_last() =~= Seq::<Vec<Vulnerability>>::empty());
    assert(all_kept(seq![one]) =~= one@.map_values(|v: Vulnerability| kept(v)));
    if b.len() == 0 {
        assert(a + b =~= a);
        assert(all_kept(a + b) =~= all_kept(a) + all_kept(b));
    } else {
        nothing_reported_is_lost(a, b.drop_last(), one, i);
        assert((a + b).drop_last() =~= a + b.drop_last());
        assert((a + b).last() == b.last());
        assert(all_kept(a + b) =~= all_kept(a) + all_kept(b));
    }
}

} // verus!
