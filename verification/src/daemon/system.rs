//! Disk usage, garbage collection and metrics.

use crate::codec::{add_member, json_map, json_member, json_object, ToJson};
use crate::http::{json_response, text_response, Response};
use crate::num::{decimal, u64_text};
use crate::text::{cat3, cat4, cat5, chars_of, views};
use vstd::prelude::*;

verus! {

/// How much room the parts of a store take.
pub struct DiskUsageJson {
    pub blobs_bytes: u64,
    pub layers_bytes: u64,
    pub volumes_bytes: u64,
    pub containers_bytes: u64,
    pub total_bytes: u64,
}

impl ToJson for DiskUsageJson {
    open spec fn json(&self) -> Seq<char> {
        json_object(
            seq![
                json_member("blobs_bytes"@, decimal(self.blobs_bytes as nat)),
                json_member("layers_bytes"@, decimal(self.layers_bytes as nat)),
                json_member("volumes_bytes"@, decimal(self.volumes_bytes as nat)),
                json_member("containers_bytes"@, decimal(self.containers_bytes as nat)),
                json_member("total_bytes"@, decimal(self.total_bytes as nat)),
            ],
        )
    }

    fn to_json(&self) -> (r: String) {
        let mut m: Vec<String> = Vec::new();
        add_member(&mut m, "blobs_bytes", u64_text(self.blobs_bytes).as_str());
        add_member(&mut m, "layers_bytes", u64_text(self.layers_bytes).as_str());
        add_member(&mut m, "volumes_bytes", u64_text(self.volumes_bytes).as_str());
        add_member(&mut m, "containers_bytes", u64_text(self.containers_bytes).as_str());
        add_member(&mut m, "total_bytes", u64_text(self.total_bytes).as_str());
        assert(views(m@) =~= seq![
            json_member("blobs_bytes"@, decimal(self.blobs_bytes as nat)),
            json_member("layers_bytes"@, decimal(self.layers_bytes as nat)),
            json_member("volumes_bytes"@, decimal(self.volumes_bytes as nat)),
            json_member("containers_bytes"@, decimal(self.containers_bytes as nat)),
            json_member("total_bytes"@, decimal(self.total_bytes as nat)),
        ]);
        json_map(&m)
    }
}

/// How much room a store takes, part by part and in all, given the parts.
pub fn disk_usage(blobs_bytes: u64, layers_bytes: u64, volumes_bytes: u64, containers_bytes: u64) -> (r: Response)
    requires
        blobs_bytes + layers_bytes + volumes_bytes + containers_bytes <= u64::MAX,
    ensures
        r@ == json_response(
            200,
            (DiskUsageJson {
                blobs_bytes,
                layers_bytes,
                volumes_bytes,
                containers_bytes,
                total_bytes: (blobs_bytes + layers_bytes + volumes_bytes + containers_bytes) as u64,
            }).json(),
        ),
{
    let usage = DiskUsageJson {
        blobs_bytes,
        layers_bytes,
        volumes_bytes,
        containers_bytes,
        total_bytes: blobs_bytes + layers_bytes + volumes_bytes + containers_bytes,
    };
    let json = usage.to_json();
    Response::json(200, json.as_str())
}

/// What a garbage collection did.
pub struct GcResultJson {
    pub blobs_removed: u64,
    pub bytes_freed: u64,
    pub images_removed: u64,
}

impl ToJson for GcResultJson {
    open spec fn json(&self) -> Seq<char> {
        json_object(
            seq![
                json_member("blobs_removed"@, decimal(self.blobs_removed as nat)),
                json_member("bytes_freed"@, decimal(self.bytes_freed as nat)),
                json_member("images_removed"@, decimal(self.images_removed as nat)),
            ],
        )
    }

    fn to_json(&self) -> (r: String) {
        let mut m: Vec<String> = Vec::new();
        add_member(&mut m, "blobs_removed", u64_text(self.blobs_removed).as_str());
        add_member(&mut m, "bytes_freed", u64_text(self.bytes_freed).as_str());
        add_member(&mut m, "images_removed", u64_text(self.images_removed).as_str());
        assert(views(m@) =~= seq![
            json_member("blobs_removed"@, decimal(self.blobs_removed as nat)),
            json_member("bytes_freed"@, decimal(self.bytes_freed as nat)),
            json_member("images_removed"@, decimal(self.images_removed as nat)),
        ]);
        json_map(&m)
    }
}

/// What a garbage collection did.
pub fn gc(summary: &GcResultJson) -> (r: Response)
    ensures
        r@ == json_response(200, summary.json()),
{
    let json = summary.to_json();
    Response::json(200, json.as_str())
}

// ---- Metrics ---------------------------------------------------------------

/// A character of a label's value: backslashes, double quotes and line ends
/// are escaped.
pub open spec fn label_char(c: char) -> Seq<char> {
    if c == '\\' {
        seq!['\\', '\\']
    } else if c == '"' {
        seq!['\\', '"']
    } else if c == '\n' {
        seq!['\\', 'n']
    } else {
        seq![c]
    }
}

/// A label's value.
pub open spec fn label_text(s: Seq<char>) -> Seq<char>
    decreases s.len(),
{
    if s.len() == 0 {
        Seq::empty()
    } else {
        label_text(s.drop_last()) + label_char(s.last())
    }
}

/// A label's value.
pub fn escape_label(s: &str) -> (r: String)
    ensures
        r@ == label_text(s@),
{
    let cs = chars_of(s);
    let mut out = String::new();
    let mut i: usize = 0;
    while i < cs.len()
        invariant
            i <= cs@.len(),
            cs@ == s@,
            out@ == label_text(s@.take(i as int)),
        decreases cs.len() - i,
    {
        assert(s@.take(i + 1).drop_last() =~= s@.take(i as int));
        let ghost before = out@;
        let c = cs[i];
        if c == '\\' {
            out.push('\\');
            out.push('\\');
        } else if c == '"' {
            out.push('\\');
            out.push('"');
        } else if c == '\n' {
            out.push('\\');
            out.push('n');
        } else {
            out.push(c);
        }
        assert(out@ =~= before + label_char(c));
        i += 1;
    }
    assert(s@.take(i as int) =~= s@);
    out
}

/// The use that a container makes of the host, in the way that numbers are
/// written in an exposition.
pub struct LiveUse {
    pub memory_current_bytes: String,
    pub cpu_seconds: String,
    pub pids_current: String,
    pub rx_bytes: Option<String>,
    pub tx_bytes: Option<String>,
}

/// What there is to say of a container.
pub struct ContainerMetrics {
    pub id: String,
    pub name: String,
    pub running: bool,
    pub healthy: bool,
    pub last_exit_oom_killed: bool,
    pub cpu_limit: Option<String>,
    pub memory_limit_bytes: Option<String>,
    pub live: Option<LiveUse>,
}

/// The metrics, in the order of the exposition.
#[derive(Clone, Copy)]
pub enum Metric {
    Up,
    Healthy,
    CpuLimit,
    MemoryLimit,
    MemoryCurrent,
    CpuSeconds,
    PidsCurrent,
    Received,
    Transmitted,
    OomKilled,
}

/// The metrics, in the order of the exposition.
pub open spec fn all_metrics() -> Seq<Metric> {
    seq![
        Metric::Up,
        Metric::Healthy,
        Metric::CpuLimit,
        Metric::MemoryLimit,
        Metric::MemoryCurrent,
        Metric::CpuSeconds,
        Metric::PidsCurrent,
        Metric::Received,
        Metric::Transmitted,
        Metric::OomKilled,
    ]
}

/// The name of a metric.
pub open spec fn metric_name(m: Metric) -> Seq<char> {
    match m {
        Metric::Up => "kiln_container_up"@,
        Metric::Healthy => "kiln_container_healthy"@,
        Metric::CpuLimit => "kiln_container_cpu_limit_cores"@,
        Metric::MemoryLimit => "kiln_container_memory_limit_bytes"@,
        Metric::MemoryCurrent => "kiln_container_memory_current_bytes"@,
        Metric::CpuSeconds => "kiln_container_cpu_seconds_total"@,
        Metric::PidsCurrent => "kiln_container_pids_current"@,
        Metric::Received => "kiln_container_network_receive_bytes_total"@,
        Metric::Transmitted => "kiln_container_network_transmit_bytes_total"@,
        Metric::OomKilled => "kiln_container_last_exit_oom_killed"@,
    }
}

/// What a metric means.
pub open spec fn metric_help(m: Metric) -> Seq<char> {
    match m {
        Metric::Up => "Whether the container is currently running (1) or not (0)."@,
        Metric::Healthy => "Healthcheck status: 1 if healthy, 0 otherwise (including a container with no healthcheck configured, which never leaves \"starting\")."@,
        Metric::CpuLimit => "Configured CPU limit in cores - absent (no sample) if unlimited."@,
        Metric::MemoryLimit => "Configured hard memory limit - absent (no sample) if unlimited."@,
        Metric::MemoryCurrent => "Current cgroup memory usage (memory.current)."@,
        Metric::CpuSeconds => "Cumulative CPU time consumed since the container started (cgroup cpu.stat usage_usec)."@,
        Metric::PidsCurrent => "Current number of processes in the container's cgroup."@,
        Metric::Received => "Cumulative bytes received on the container's network interface - absent (no sample) if it has no network attached."@,
        Metric::Transmitted => "Cumulative bytes transmitted on the container's network interface - absent (no sample) if it has no network attached."@,
        Metric::OomKilled => "Whether the container's most recent exit was an OOM-kill (1) or not (0)."@,
    }
}

/// Whether a metric only ever grows.
pub open spec fn is_counter(m: Metric) -> bool {
    m is CpuSeconds || m is Received || m is Transmitted
}

/// The kind of a metric.
pub open spec fn metric_kind(m: Metric) -> Seq<char> {
    if is_counter(m) {
        "counter"@
    } else {
        "gauge"@
    }
}

impl Metric {
    /// The name, what it means, and the kind.
    fn describe(self) -> (r: (&'static str, &'static str, &'static str))
        ensures
            r.0@ == metric_name(self),
            r.1@ == metric_help(self),
            r.2@ == metric_kind(self),
    {
        match self {
            Metric::Up => (
                "kiln_container_up",
                "Whether the container is currently running (1) or not (0).",
                "gauge",
            ),
            Metric::Healthy => (
                "kiln_container_healthy",
                "Healthcheck status: 1 if healthy, 0 otherwise (including a container with no healthcheck configured, which never leaves \"starting\").",
                "gauge",
            ),
            Metric::CpuLimit => (
                "kiln_container_cpu_limit_cores",
                "Configured CPU limit in cores - absent (no sample) if unlimited.",
                "gauge",
            ),
            Metric::MemoryLimit => (
                "kiln_container_memory_limit_bytes",
                "Configured hard memory limit - absent (no sample) if unlimited.",
                "gauge",
            ),
            Metric::MemoryCurrent => (
                "kiln_container_memory_current_bytes",
                "Current cgroup memory usage (memory.current).",
                "gauge",
            ),
            Metric::CpuSeconds => (
                "kiln_container_cpu_seconds_total",
                "Cumulative CPU time consumed since the container started (cgroup cpu.stat usage_usec).",
                "counter",
            ),
            Metric::PidsCurrent => (
                "kiln_container_pids_current",
                "Current number of processes in the container's cgroup.",
                "gauge",
            ),
            Metric::Received => (
                "kiln_container_network_receive_bytes_total",
                "Cumulative bytes received on the container's network interface - absent (no sample) if it has no network attached.",
                "counter",
            ),
            Metric::Transmitted => (
                "kiln_container_network_transmit_bytes_total",
                "Cumulative bytes transmitted on the container's network interface - absent (no sample) if it has no network attached.",
                "counter",
            ),
            Metric::OomKilled => (
                "kiln_container_last_exit_oom_killed",
                "Whether the container's most recent exit was an OOM-kill (1) or not (0).",
                "gauge",
            ),
        }
    }
}

/// A truth value as a sample.
pub open spec fn flag(b: bool) -> Seq<char> {
    if b {
        "1"@
    } else {
        "0"@
    }
}

/// The value of a metric for a container; none where there is nothing to say.
pub open spec fn value_for(m: Metric, c: ContainerMetrics) -> Option<Seq<char>> {
    match m {
        Metric::Up => Some(flag(c.running)),
        Metric::Healthy => Some(flag(c.healthy)),
        Metric::OomKilled => Some(flag(c.last_exit_oom_killed)),
        Metric::CpuLimit => crate::image::opt_text(c.cpu_limit),
        Metric::MemoryLimit => crate::image::opt_text(c.memory_limit_bytes),
        Metric::MemoryCurrent => match c.live {
            Some(l) => Some(l.memory_current_bytes@),
            None => None,
        },
        Metric::CpuSeconds => match c.live {
            Some(l) => Some(l.cpu_seconds@),
            None => None,
        },
        Metric::PidsCurrent => match c.live {
            Some(l) => Some(l.pids_current@),
            None => None,
        },
        Metric::Received => match c.live {
            Some(l) => crate::image::opt_text(l.rx_bytes),
            None => None,
        },
        Metric::Transmitted => match c.live {
            Some(l) => crate::image::opt_text(l.tx_bytes),
            None => None,
        },
    }
}

/// A truth value as a sample.
fn write_flag(b: bool) -> (r: &'static str)
    ensures
        r@ == flag(b),
{
    if b {
        "1"
    } else {
        "0"
    }
}

/// An optional text, borrowed.
fn borrowed<'a>(s: &'a Option<String>) -> (r: Option<&'a str>)
    ensures
        match r {
            Some(t) => crate::image::opt_text(*s) == Some(t@),
            None => *s is None,
        },
{
    match s {
        Some(t) => Some(t.as_str()),
        None => None,
    }
}

/// The value of a metric for a container.
fn value<'a>(m: Metric, c: &'a ContainerMetrics) -> (r: Option<&'a str>)
    ensures
        match r {
            Some(t) => value_for(m, *c) == Some(t@),
            None => value_for(m, *c) is None,
        },
{
    match m {
        Metric::Up => Some(write_flag(c.running)),
        Metric::Healthy => Some(write_flag(c.healthy)),
        Metric::OomKilled => Some(write_flag(c.last_exit_oom_killed)),
        Metric::CpuLimit => borrowed(&c.cpu_limit),
        Metric::MemoryLimit => borrowed(&c.memory_limit_bytes),
        Metric::MemoryCurrent => match &c.live {
            Some(l) => Some(l.memory_current_bytes.as_str()),
            None => None,
        },
        Metric::CpuSeconds => match &c.live {
            Some(l) => Some(l.cpu_seconds.as_str()),
            None => None,
        },
        Metric::PidsCurrent => match &c.live {
            Some(l) => Some(l.pids_current.as_str()),
            None => None,
        },
        Metric::Received => match &c.live {
            Some(l) => borrowed(&l.rx_bytes),
            None => None,
        },
        Metric::Transmitted => match &c.live {
            Some(l) => borrowed(&l.tx_bytes),
            None => None,
        },
    }
}

/// The line of a sample.
pub open spec fn sample_line(m: Metric, c: ContainerMetrics, v: Seq<char>) -> Seq<char> {
    metric_name(m) + "{id=\""@ + label_text(c.id@) + "\",name=\""@ + label_text(c.name@) + "\"} "@ + v + "\n"@
}

/// The lines of a metric's samples.
pub open spec fn sample_lines(m: Metric, cs: Seq<ContainerMetrics>) -> Seq<char>
    decreases cs.len(),
{
    if cs.len() == 0 {
        Seq::empty()
    } else {
        let before = sample_lines(m, cs.drop_last());
        match value_for(m, cs.last()) {
            Some(v) => before + sample_line(m, cs.last(), v),
            None => before,
        }
    }
}

/// Whether a metric has a sample.
pub open spec fn sampled(m: Metric, cs: Seq<ContainerMetrics>) -> bool {
    exists|i: int| 0 <= i < cs.len() && value_for(m, #[trigger] cs[i]) is Some
}

/// A metric: its header, and right behind it all of its samples. A metric
/// without samples is left out.
pub open spec fn metric_text(m: Metric, cs: Seq<ContainerMetrics>) -> Seq<char> {
    if sampled(m, cs) {
        "# HELP "@ + metric_name(m) + " "@ + metric_help(m) + "\n"@ + ("# TYPE "@ + metric_name(m) + " "@
            + metric_kind(m) + "\n"@) + sample_lines(m, cs)
    } else {
        Seq::empty()
    }
}

/// The first `n` metrics.
pub open spec fn exposition(cs: Seq<ContainerMetrics>, n: nat) -> Seq<char>
    decreases n,
{
    if n == 0 {
        Seq::empty()
    } else {
        exposition(cs, (n - 1) as nat) + metric_text(all_metrics()[n - 1], cs)
    }
}

/// The samples of a metric, and whether there is one.
fn render_samples(m: Metric, cs: &Vec<ContainerMetrics>) -> (r: (String, bool))
    ensures
        r.0@ == sample_lines(m, cs@),
        r.1 == sampled(m, cs@),
{
    let (name, _, _) = m.describe();
    let mut out = String::new();
    let mut any = false;
    let mut i: usize = 0;
    assert(cs@.take(0) =~= Seq::<ContainerMetrics>::empty());
    while i < cs.len()
        invariant
            i <= cs@.len(),
            name@ == metric_name(m),
            out@ == sample_lines(m, cs@.take(i as int)),
            any == (exists|j: int| 0 <= j < i && value_for(m, #[trigger] cs@[j]) is Some),
        decreases cs.len() - i,
    {
        proof {
            assert(cs@.take(i + 1).drop_last() =~= cs@.take(i as int));
            assert(cs@.take(i + 1).last() == cs@[i as int]);
        }
        if let Some(v) = value(m, &cs[i]) {
            let id = escape_label(cs[i].id.as_str());
            let label = escape_label(cs[i].name.as_str());
            let head = cat5(name, "{id=\"", id.as_str(), "\",name=\"", label.as_str());
            let line = cat4(head.as_str(), "\"} ", v, "\n");
            assert(line@ =~= sample_line(m, cs@[i as int], v@));
            out.append(line.as_str());
            any = true;
        }
        i += 1;
    }
    assert(cs@.take(i as int) =~= cs@);
    (out, any)
}

/// Adds a metric to an exposition.
pub fn render_metric(out: &mut String, m: Metric, cs: &Vec<ContainerMetrics>)
    ensures
        final(out)@ == old(out)@ + metric_text(m, cs@),
{
    let (samples, any) = render_samples(m, cs);
    if !any {
        assert(out@ + Seq::<char>::empty() =~= out@);
        return;
    }
    let (name, help, kind) = m.describe();
    let head = cat5("# HELP ", name, " ", help, "\n");
    let kind_line = cat5("# TYPE ", name, " ", kind, "\n");
    let all = cat3(head.as_str(), kind_line.as_str(), samples.as_str());
    out.append(all.as_str());
}

/// The metric at a place in the order.
fn metric_at(i: usize) -> (r: Metric)
    requires
        i < 10,
    ensures
        r == all_metrics()[i as int],
{
    match i {
        0 => Metric::Up,
        1 => Metric::Healthy,
        2 => Metric::CpuLimit,
        3 => Metric::MemoryLimit,
        4 => Metric::MemoryCurrent,
        5 => Metric::CpuSeconds,
        6 => Metric::PidsCurrent,
        7 => Metric::Received,
        8 => Metric::Transmitted,
        _ => Metric::OomKilled,
    }
}

/// What there is to say of all containers, in the exposition format.
pub fn metrics(containers: &Vec<ContainerMetrics>) -> (r: Response)
    ensures
        r@ == text_response(200, exposition(containers@, 10)),
{
    let mut out = String::new();
    let mut i: usize = 0;
    while i < 10
        invariant
            i <= 10,
            out@ == exposition(containers@, i as nat),
        decreases 10 - i,
    {
        let m = metric_at(i);
        render_metric(&mut out, m, containers);
        i += 1;
    }
    Response::text(200, out.as_str())
}

/// No two metrics have the same name, so each name is announced once at most.
pub proof fn metric_names_are_distinct(i: int, j: int)
    requires
        0 <= i < j < 10,
    ensures
        metric_name(all_metrics()[i]) != metric_name(all_metrics()[j]),
{
    reveal_strlit("kiln_container_up");
    reveal_strlit("kiln_container_healthy");
    reveal_strlit("kiln_container_cpu_limit_cores");
    reveal_strlit("kiln_container_memory_limit_bytes");
    reveal_strlit("kiln_container_memory_current_bytes");
    reveal_strlit("kiln_container_cpu_seconds_total");
    reveal_strlit("kiln_container_pids_current");
    reveal_strlit("kiln_container_network_receive_bytes_total");
    reveal_strlit("kiln_container_network_transmit_bytes_total");
    reveal_strlit("kiln_container_last_exit_oom_killed");
    assert("kiln_container_up"@.len() == 17);
    assert("kiln_container_healthy"@.len() == 22);
    assert("kiln_container_cpu_limit_cores"@.len() == 30);
    assert("kiln_container_memory_limit_bytes"@.len() == 33);
    assert("kiln_container_memory_current_bytes"@.len() == 35);
    assert("kiln_container_cpu_seconds_total"@.len() == 32);
    assert("kiln_container_pids_current"@.len() == 27);
    assert("kiln_container_network_receive_bytes_total"@.len() == 42);
    assert("kiln_container_network_transmit_bytes_total"@.len() == 43);
    assert("kiln_container_last_exit_oom_killed"@.len() == 35);
    assert("kiln_container_memory_current_bytes"@[15] == 'm');
    assert("kiln_container_last_exit_oom_killed"@[15] == 'l');
}

/// No line ends inside a label's value, whatever a container is called.
pub proof fn labels_stay_on_their_line(s: Seq<char>)
    ensures
        !label_text(s).contains('\n'),
    decreases s.len(),
{
    if s.len() > 0 {
        labels_stay_on_their_line(s.drop_last());
        let a = label_text(s.drop_last());
        let b = label_char(s.last());
        assert forall|k: int| 0 <= k < (a + b).len() implies (a + b)[k] != '\n' by {
            if k < a.len() {
                assert(a.contains(a[k]));
            }
        }
    }
}

/// The samples of a metric are listed container by container.
pub proof fn samples_follow_their_containers(m: Metric, a: Seq<ContainerMetrics>, b: Seq<ContainerMetrics>)
    ensures
        sample_lines(m, a + b) == sample_lines(m, a) + sample_lines(m, b),
    decreases b.len(),
{
    if b.len() == 0 {
        assert(a + b =~= a);
        assert(sample_lines(m, a + b) =~= sample_lines(m, a) + sample_lines(m, b));
    } else {
        samples_follow_their_containers(m, a, b.drop_last());
        assert((a + b).drop_last() =~= a + b.drop_last());
        assert((a + b).last() == b.last());
        assert(sample_lines(m, a + b) =~= sample_lines(m, a) + sample_lines(m, b));
    }
}

/// The line that a metric of this name and value gives for a container.
pub open spec fn labelled(name: Seq<char>, c: ContainerMetrics, value: Seq<char>) -> Seq<char> {
    name + "{id=\""@ + label_text(c.id@) + "\",name=\""@ + label_text(c.name@) + "\"} "@ + value + "\n"@
}

/// What the metrics say of a container that runs or not, is healthy or not and
/// was killed or not: 1 where it is so, and 0 where it is not.
pub proof fn states_are_sampled(c: ContainerMetrics)
    ensures
        sample_lines(Metric::Up, seq![c]) == labelled(
            "kiln_container_up"@,
            c,
            if c.running {
                "1"@
            } else {
                "0"@
            },
        ),
        sample_lines(Metric::Healthy, seq![c]) == labelled(
            "kiln_container_healthy"@,
            c,
            if c.healthy {
                "1"@
            } else {
                "0"@
            },
        ),
        sample_lines(Metric::OomKilled, seq![c]) == labelled(
            "kiln_container_last_exit_oom_killed"@,
            c,
            if c.last_exit_oom_killed {
                "1"@
            } else {
                "0"@
            },
        ),
{
    lemma_one_sample(Metric::Up, c);
    lemma_one_sample(Metric::Healthy, c);
    lemma_one_sample(Metric::OomKilled, c);
}

/// The limits of a container are sampled where there are any.
pub proof fn limits_are_sampled(c: ContainerMetrics)
    ensures
        c.cpu_limit matches Some(v) ==> sample_lines(Metric::CpuLimit, seq![c]) == labelled(
            "kiln_container_cpu_limit_cores"@,
            c,
            v@,
        ),
        c.cpu_limit is None ==> sample_lines(Metric::CpuLimit, seq![c]).len() == 0,
        c.memory_limit_bytes matches Some(v) ==> sample_lines(Metric::MemoryLimit, seq![c]) == labelled(
            "kiln_container_memory_limit_bytes"@,
            c,
            v@,
        ),
        c.memory_limit_bytes is None ==> sample_lines(Metric::MemoryLimit, seq![c]).len() == 0,
{
    lemma_one_sample(Metric::CpuLimit, c);
    lemma_one_sample(Metric::MemoryLimit, c);
}

/// The use that a container makes of the host is sampled while it makes any:
/// memory, CPU time, processes and, with a network, traffic both ways.
pub proof fn use_is_sampled(c: ContainerMetrics)
    ensures
        c.live matches Some(l) ==> {
            &&& sample_lines(Metric::MemoryCurrent, seq![c]) == labelled(
                "kiln_container_memory_current_bytes"@,
                c,
                l.memory_current_bytes@,
            )
            &&& sample_lines(Metric::CpuSeconds, seq![c]) == labelled(
                "kiln_container_cpu_seconds_total"@,
                c,
                l.cpu_seconds@,
            )
            &&& sample_lines(Metric::PidsCurrent, seq![c]) == labelled(
                "kiln_container_pids_current"@,
                c,
                l.pids_current@,
            )
            &&& l.rx_bytes matches Some(v) ==> sample_lines(Metric::Received, seq![c]) == labelled(
                "kiln_container_network_receive_bytes_total"@,
                c,
                v@,
            )
            &&& l.tx_bytes matches Some(v) ==> sample_lines(Metric::Transmitted, seq![c]) == labelled(
                "kiln_container_network_transmit_bytes_total"@,
                c,
                v@,
            )
        },
        c.live is None ==> {
            &&& sample_lines(Metric::MemoryCurrent, seq![c]).len() == 0
            &&& sample_lines(Metric::CpuSeconds, seq![c]).len() == 0
            &&& sample_lines(Metric::PidsCurrent, seq![c]).len() == 0
            &&& sample_lines(Metric::Received, seq![c]).len() == 0
            &&& sample_lines(Metric::Transmitted, seq![c]).len() == 0
        },
{
    lemma_one_sample(Metric::MemoryCurrent, c);
    lemma_one_sample(Metric::CpuSeconds, c);
    lemma_one_sample(Metric::PidsCurrent, c);
    lemma_one_sample(Metric::Received, c);
    lemma_one_sample(Metric::Transmitted, c);
}

/// The line of one container.
proof fn lemma_one_sample(m: Metric, c: ContainerMetrics)
    ensures
        sample_lines(m, seq![c]) == (match value_for(m, c) {
            Some(v) => labelled(metric_name(m), c, v),
            None => Seq::empty(),
        }),
{
    reveal_with_fuel(sample_lines, 2);
    assert(seq![c].drop_last() =~= Seq::<ContainerMetrics>::empty());
    assert(sample_lines(m, seq![c]) =~= (match value_for(m, c) {
        Some(v) => labelled(metric_name(m), c, v),
        None => Seq::empty(),
    }));
}

/// A metric is headed by its help and its kind, right in front of its samples,
/// and one that has no sample is left out. What only ever grows is a counter.
pub proof fn metrics_are_headed_by_their_kind(m: Metric, cs: Seq<ContainerMetrics>)
    ensures
        (exists|i: int| 0 <= i < cs.len() && value_for(m, #[trigger] cs[i]) is Some) ==> metric_text(m, cs)
            == "# HELP "@ + metric_name(m) + " "@ + metric_help(m) + "\n"@ + ("# TYPE "@ + metric_name(m) + " "@ + (
        match m {
            Metric::CpuSeconds => "counter"@,
            Metric::Received => "counter"@,
            Metric::Transmitted => "counter"@,
            _ => "gauge"@,
        }) + "\n"@) + sample_lines(m, cs),
        (forall|i: int| 0 <= i < cs.len() ==> value_for(m, #[trigger] cs[i]) is None) ==> metric_text(m, cs).len() == 0,
{
}

/// Whether a text holds another in one piece.
pub open spec fn holds(text: Seq<char>, part: Seq<char>) -> bool {
    exists|a: Seq<char>, b: Seq<char>| text == #[trigger] (a + part + b)
}

/// What one of the first metrics says is in the text of the first metrics.
proof fn lemma_exposed(cs: Seq<ContainerMetrics>, n: nat, k: int)
    requires
        0 <= k < n,
    ensures
        holds(exposition(cs, n), metric_text(all_metrics()[k], cs)),
    decreases n,
{
    let before = exposition(cs, (n - 1) as nat);
    let part = metric_text(all_metrics()[k], cs);
    let last = metric_text(all_metrics()[n - 1], cs);
    if k == n - 1 {
        assert(exposition(cs, n) =~= before + part + Seq::<char>::empty());
    } else {
        lemma_exposed(cs, (n - 1) as nat, k);
        let (a, b) = choose|a: Seq<char>, b: Seq<char>| before == #[trigger] (a + part + b);
        assert(exposition(cs, n) =~= a + part + (b + last));
    }
}

/// Every metric is in the exposition, with all of its samples in one piece.
pub proof fn all_metrics_are_exposed(cs: Seq<ContainerMetrics>, m: Metric)
    ensures
        holds(exposition(cs, 10), metric_text(m, cs)),
{
    let k: int = match m {
        Metric::Up => 0,
        Metric::Healthy => 1,
        Metric::CpuLimit => 2,
        Metric::MemoryLimit => 3,
        Metric::MemoryCurrent => 4,
        Metric::CpuSeconds => 5,
        Metric::PidsCurrent => 6,
        Metric::Received => 7,
        Metric::Transmitted => 8,
        Metric::OomKilled => 9,
    };
    assert(all_metrics()[k] == m);
    lemma_exposed(cs, 10, k);
}

} // verus!
