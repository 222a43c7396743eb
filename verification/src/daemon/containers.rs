//! Containers: what is shown of them, and the decisions about creating,
//! changing, following and removing them.

use crate::cgroups::Limits;
use crate::codec::{
    add_member, json_array, json_items, json_map, json_member, json_object, json_opt_number, json_opt_str,
    json_opt_string, json_opt_u64, json_str, json_string, json_texts, jsons, push_str_bytes, ToJson,
};
use crate::http::{
    chunk, chunk_bytes, json_response, text_response, value_of, with_content, write_final_chunk, Request, Response,
};
use crate::image::opt_text;
use crate::num::{decimal, i32_text, signed_decimal, u64_text};
use crate::security::SecurityProfile;
use crate::text::{cat2, cat3, str_eq, trim, trimmed, views};
use vstd::prelude::*;
use vstd::utf8::encode_utf8;

verus! {

/// Whether a container runs, and if not, how it ended.
#[derive(Debug, Clone, Copy, PartialEq, Eq, Structural)]
pub enum Status {
    Running,
    Exited(i32),
}

/// A container, as it is recorded and shown.
pub struct Container {
    pub id: String,
    pub name: String,
    pub image_reference: String,
    pub command: Vec<String>,
    pub status: Status,
    pub pid: Option<i32>,
    pub ip: Option<String>,
    pub network: Option<String>,
    pub created_at: u64,
    pub memory_limit_bytes: Option<u64>,
    /// The CPU limit in cores, in the way that JSON writes the number.
    pub cpu_limit: Option<String>,
    /// The volumes, each as `name:path`.
    pub volumes: Vec<String>,
}

/// A status as it is shown.
pub open spec fn status_word(s: Status) -> Seq<char> {
    match s {
        Status::Running => "running"@,
        Status::Exited(code) => "exited("@ + signed_decimal(code as int) + ")"@,
    }
}

/// A status as it is shown.
fn write_status(s: Status) -> (r: String)
    ensures
        r@ == status_word(s),
{
    match s {
        Status::Running => "running".to_owned(),
        Status::Exited(code) => {
            let n = i32_text(code);
            cat3("exited(", n.as_str(), ")")
        },
    }
}

/// An optional number of a process as JSON.
pub open spec fn pid_json(pid: Option<i32>) -> Seq<char> {
    match pid {
        Some(p) => signed_decimal(p as int),
        None => "null"@,
    }
}

/// An optional number text as JSON.
pub open spec fn number_json(n: Option<Seq<char>>) -> Seq<char> {
    match n {
        Some(t) => t,
        None => "null"@,
    }
}

/// An optional number.
pub open spec fn opt_nat(n: Option<u64>) -> Option<nat> {
    match n {
        Some(v) => Some(v as nat),
        None => None,
    }
}

/// The members of a container's JSON object.
pub open spec fn container_members(c: Container) -> Seq<Seq<char>> {
    seq![
        json_member("id"@, json_string(c.id@)),
        json_member("name"@, json_string(c.name@)),
        json_member("image"@, json_string(c.image_reference@)),
        json_member("command"@, json_array(views(c.command@).map_values(|s: Seq<char>| json_string(s)))),
        json_member("status"@, json_string(status_word(c.status))),
        json_member("pid"@, pid_json(c.pid)),
        json_member("ip"@, json_opt_string(opt_text(c.ip))),
        json_member("network"@, json_opt_string(opt_text(c.network))),
        json_member("created_at"@, decimal(c.created_at as nat)),
        json_member("memory_limit_bytes"@, json_opt_number(opt_nat(c.memory_limit_bytes))),
        json_member("cpu_limit"@, number_json(opt_text(c.cpu_limit))),
    ]
}

impl ToJson for Container {
    open spec fn json(&self) -> Seq<char> {
        json_object(container_members(*self))
    }

    fn to_json(&self) -> (r: String) {
        let pid = match self.pid {
            Some(p) => i32_text(p),
            None => "null".to_owned(),
        };
        let cpu = match &self.cpu_limit {
            Some(t) => t.as_str(),
            None => "null",
        };
        let status = write_status(self.status);
        let mut m: Vec<String> = Vec::new();
        add_member(&mut m, "id", json_str(self.id.as_str()).as_str());
        add_member(&mut m, "name", json_str(self.name.as_str()).as_str());
        add_member(&mut m, "image", json_str(self.image_reference.as_str()).as_str());
        add_member(&mut m, "command", json_texts(&self.command).as_str());
        add_member(&mut m, "status", json_str(status.as_str()).as_str());
        add_member(&mut m, "pid", pid.as_str());
        add_member(&mut m, "ip", json_opt_str(&self.ip).as_str());
        add_member(&mut m, "network", json_opt_str(&self.network).as_str());
        add_member(&mut m, "created_at", u64_text(self.created_at).as_str());
        add_member(&mut m, "memory_limit_bytes", json_opt_u64(self.memory_limit_bytes).as_str());
        add_member(&mut m, "cpu_limit", cpu);
        assert(views(m@) =~= container_members(*self));
        json_map(&m)
    }
}

/// What is said where there is no such container.
pub open spec fn no_such_container() -> crate::http::ResponseView {
    text_response(404, "no such container"@)
}

/// All containers.
pub fn list(containers: &Vec<Container>) -> (r: Response)
    ensures
        r@ == json_response(200, json_array(jsons(containers@))),
{
    let json = json_items(containers);
    Response::json(200, json.as_str())
}

/// One container, if there is one.
pub fn inspect(container: &Option<Container>) -> (r: Response)
    ensures
        r@ == (match *container {
            Some(c) => json_response(200, c.json()),
            None => no_such_container(),
        }),
{
    match container {
        Some(c) => {
            let json = c.to_json();
            Response::json(200, json.as_str())
        },
        None => Response::text(404, "no such container"),
    }
}

/// The use that a container makes of the host, given as JSON if it is known.
pub fn stats(found: bool, usage: &Option<String>) -> (r: Response)
    ensures
        r@ == (if !found {
            no_such_container()
        } else {
            match *usage {
                Some(json) => json_response(200, json@),
                None => text_response(404, "no stats available (container may not be running)"@),
            }
        }),
{
    if !found {
        return Response::text(404, "no such container");
    }
    match usage {
        Some(json) => Response::json(200, json.as_str()),
        None => Response::text(404, "no stats available (container may not be running)"),
    }
}

/// What is said of a body that cannot be read.
pub open spec fn invalid_body(reason: Seq<char>) -> crate::http::ResponseView {
    text_response(400, "invalid JSON body: "@ + reason)
}

/// What is said of a body that cannot be read.
pub fn refuse_body(reason: &str) -> (r: Response)
    ensures
        r@ == invalid_body(reason@),
{
    let text = cat2("invalid JSON body: ", reason);
    Response::text(400, text.as_str())
}

// ---- Limits ----------------------------------------------------------------

/// A request to change a container's limits. The size is still text.
pub struct UpdateLimitsRequest {
    pub memory: Option<String>,
    pub cpus: Option<String>,
}

/// The limits to put into force, and where; and the container to save once
/// they are, so that its next start brings them back.
pub struct LimitsUpdate {
    pub cgroup_dir: String,
    pub limits: Limits,
    pub container: Container,
}

/// A container with other limits, and all else as it was.
pub open spec fn with_limits(c: Container, memory: Option<u64>, cpus: Option<String>) -> Container {
    Container { memory_limit_bytes: memory, cpu_limit: cpus, ..c }
}

/// The limits of a container: with a memory limit, swapping is shut off too,
/// since the limit would be none otherwise.
pub open spec fn container_limits(cpu_max_us: Option<u64>, memory: Option<u64>) -> Limits {
    Limits {
        cpu_max_us,
        cpu_period_us: 100_000,
        memory_max_bytes: memory,
        memory_swap_max_bytes: if memory is Some {
            Some(0)
        } else {
            None
        },
        memory_high_bytes: None,
        pids_max: None,
    }
}

/// Whether a request to change a container's limits goes through: there must
/// be such a container, the body and the size in it must be readable, and the
/// container must have a group. `cpu_max_us` is the CPU time per period.
pub fn update_limits(
    container: Option<Container>,
    body: Result<UpdateLimitsRequest, String>,
    memory: &Result<Option<u64>, String>,
    cpu_max_us: Option<u64>,
    cgroup_dir: Option<String>,
) -> (r: Result<LimitsUpdate, Response>)
    ensures
        match r {
            Ok(u) => (container matches Some(c) && body matches Ok(b) && memory matches Ok(m) && u.limits
                == container_limits(cpu_max_us, *m) && u.container == with_limits(c, *m, b.cpus)) && cgroup_dir == Some(
                u.cgroup_dir,
            ),
            Err(e) => if container is None {
                e@ == no_such_container()
            } else {
                match (body, *memory) {
                    (Err(m), _) => e@ == invalid_body(m@),
                    (Ok(_), Err(m)) => e@ == text_response(400, m@),
                    (Ok(_), Ok(_)) => cgroup_dir is None && e@ == text_response(
                        404,
                        "container has no cgroup (has it ever been started?)"@,
                    ),
                }
            },
        },
{
    let c = match container {
        Some(c) => c,
        None => {
            return Err(Response::text(404, "no such container"));
        },
    };
    let cpus = match body {
        Ok(b) => b.cpus,
        Err(m) => {
            return Err(refuse_body(m.as_str()));
        },
    };
    let memory = match memory {
        Ok(m) => *m,
        Err(m) => {
            return Err(Response::text(400, m.as_str()));
        },
    };
    match cgroup_dir {
        Some(dir) => {
            let limits = Limits {
                cpu_max_us,
                cpu_period_us: 100_000,
                memory_max_bytes: memory,
                memory_swap_max_bytes: if memory.is_some() {
                    Some(0)
                } else {
                    None
                },
                memory_high_bytes: None,
                pids_max: None,
            };
            let container = Container { memory_limit_bytes: memory, cpu_limit: cpus, ..c };
            Ok(LimitsUpdate { cgroup_dir: dir, limits, container })
        },
        None => Err(Response::text(404, "container has no cgroup (has it ever been started?)")),
    }
}

/// How putting limits into force came out.
pub enum LimitsOutcome {
    NotApplied(String),
    NotSaved(String),
    Done(Container),
}

/// The answer to a change of limits.
pub fn limits_reply(outcome: &LimitsOutcome) -> (r: Response)
    ensures
        r@ == (match *outcome {
            LimitsOutcome::NotApplied(e) => text_response(500, e@),
            LimitsOutcome::NotSaved(e) => text_response(
                500,
                "limits applied live but failed to persist for next start: "@ + e@,
            ),
            LimitsOutcome::Done(c) => json_response(200, c.json()),
        }),
{
    match outcome {
        LimitsOutcome::NotApplied(e) => Response::text(500, e.as_str()),
        LimitsOutcome::NotSaved(e) => {
            let text = cat2("limits applied live but failed to persist for next start: ", e.as_str());
            Response::text(500, text.as_str())
        },
        LimitsOutcome::Done(c) => {
            let json = c.to_json();
            Response::json(200, json.as_str())
        },
    }
}

// ---- Starting --------------------------------------------------------------

/// A request to run a container. Sizes and policies are still text.
pub struct RunRequest {
    pub image: String,
    pub command: Vec<String>,
    pub name: Option<String>,
    pub volumes: Vec<String>,
    pub network: Option<String>,
    pub environment: Vec<(String, String)>,
    pub memory: Option<String>,
    pub cpus: Option<String>,
    pub ports: Vec<String>,
    pub restart: Option<String>,
    pub secrets: Vec<String>,
    pub seccomp_unconfined: bool,
    pub cap_add: Vec<String>,
    pub cap_drop: Vec<String>,
}

/// A container to run.
pub struct RunSpec {
    pub image: String,
    pub command: Vec<String>,
    pub name: Option<String>,
    pub volumes: Vec<String>,
    pub network: Option<String>,
    pub extra_env: Vec<(String, String)>,
    pub memory_limit_bytes: Option<u64>,
    pub cpu_limit: Option<String>,
    /// `no` unless the request says otherwise.
    pub restart_policy: String,
    pub ports: Vec<String>,
    pub secrets: Vec<String>,
    pub security: SecurityProfile,
}

/// Whether a container to run is the one that was asked for.
pub open spec fn asked_for(s: RunSpec, b: RunRequest, memory: Option<u64>) -> bool {
    &&& s.image == b.image
    &&& s.command == b.command
    &&& s.name == b.name
    &&& s.volumes == b.volumes
    &&& s.network == b.network
    &&& s.extra_env == b.environment
    &&& s.memory_limit_bytes == memory
    &&& s.cpu_limit == b.cpus
    &&& s.restart_policy@ == (match b.restart {
        Some(p) => p@,
        None => "no"@,
    })
    &&& s.ports == b.ports
    &&& s.secrets == b.secrets
    &&& s.security.seccomp_unconfined == b.seccomp_unconfined
    &&& s.security.cap_add == b.cap_add
    &&& s.security.cap_drop == b.cap_drop
}

/// Whether a request to run a container goes through, given what its size and
/// its policy were read as.
pub fn create(
    body: Result<RunRequest, String>,
    memory: &Result<Option<u64>, String>,
    restart: &Result<(), String>,
) -> (r: Result<RunSpec, Response>)
    ensures
        match (body, *memory, *restart) {
            (Err(m), _, _) => r matches Err(e) && e@ == invalid_body(m@),
            (Ok(_), Err(m), _) => r matches Err(e) && e@ == text_response(400, m@),
            (Ok(_), Ok(_), Err(m)) => r matches Err(e) && e@ == text_response(400, m@),
            (Ok(b), Ok(memory), Ok(_)) => r matches Ok(s) && asked_for(s, b, memory),
        },
{
    let b = match body {
        Ok(b) => b,
        Err(m) => {
            return Err(refuse_body(m.as_str()));
        },
    };
    let memory_limit_bytes = match memory {
        Ok(m) => *m,
        Err(m) => {
            return Err(Response::text(400, m.as_str()));
        },
    };
    if let Err(m) = restart {
        return Err(Response::text(400, m.as_str()));
    }
    let restart_policy = match b.restart {
        Some(p) => p,
        None => "no".to_owned(),
    };
    Ok(
        RunSpec {
            image: b.image,
            command: b.command,
            name: b.name,
            volumes: b.volumes,
            network: b.network,
            extra_env: b.environment,
            memory_limit_bytes,
            cpu_limit: b.cpus,
            restart_policy,
            ports: b.ports,
            secrets: b.secrets,
            security: SecurityProfile {
                seccomp_unconfined: b.seccomp_unconfined,
                cap_add: b.cap_add,
                cap_drop: b.cap_drop,
            },
        },
    )
}

/// The answer once a container was run, started again or stopped, by the
/// status that goes with success and the one that goes with failure.
pub open spec fn outcome_response(
    ok: u16,
    failed: u16,
    outcome: Result<Container, String>,
) -> crate::http::ResponseView {
    match outcome {
        Ok(c) => json_response(ok, c.json()),
        Err(e) => text_response(failed, e@),
    }
}

/// The answer once something was done to a container.
fn outcome_reply(ok: u16, failed: u16, outcome: &Result<Container, String>) -> (r: Response)
    ensures
        r@ == outcome_response(ok, failed, *outcome),
{
    match outcome {
        Ok(c) => {
            let json = c.to_json();
            Response::json(ok, json.as_str())
        },
        Err(e) => Response::text(failed, e.as_str()),
    }
}

/// The answer once a container was run.
pub fn create_reply(outcome: &Result<Container, String>) -> (r: Response)
    ensures
        r@ == outcome_response(201, 500, *outcome),
{
    outcome_reply(201, 500, outcome)
}

/// The answer once a container was started again.
pub fn start_existing(outcome: &Result<Container, String>) -> (r: Response)
    ensures
        r@ == outcome_response(200, 500, *outcome),
{
    outcome_reply(200, 500, outcome)
}

/// The answer once a container was stopped.
pub fn stop(outcome: &Result<Container, String>) -> (r: Response)
    ensures
        r@ == outcome_response(200, 404, *outcome),
{
    outcome_reply(200, 404, outcome)
}

// ---- Removing --------------------------------------------------------------

/// How often the group of a killed container is looked at.
pub const REMOVE_POLLS: u32 = 10;

/// How long to wait between two looks, in milliseconds.
pub const REMOVE_PAUSE_MS: u64 = 50;

/// How a container is removed: a process is killed, its group is waited for
/// to run empty, and then group and directory go.
#[derive(Debug, Clone, Copy)]
pub struct Removal {
    pub kill: Option<i32>,
    pub wait: bool,
}

/// How a container is removed, if there is one.
pub fn remove(container: &Option<Container>) -> (r: Result<Removal, Response>)
    ensures
        match (*container, r) {
            (Some(c), Ok(p)) => p.wait == (c.status is Running) && p.kill == (if c.status is Running {
                c.pid
            } else {
                None
            }),
            (None, Err(e)) => e@ == no_such_container(),
            _ => false,
        },
{
    match container {
        Some(c) => match c.status {
            Status::Running => Ok(Removal { kill: c.pid, wait: true }),
            Status::Exited(_) => Ok(Removal { kill: None, wait: false }),
        },
        None => Err(Response::text(404, "no such container")),
    }
}

/// Whether a group is empty, given its list of processes; one that cannot be
/// read is gone.
pub open spec fn empty_group(procs: Option<Seq<char>>) -> bool {
    match procs {
        Some(t) => trimmed(t).len() == 0,
        None => true,
    }
}

/// Whether a group is empty.
pub fn cgroup_is_empty(procs: &Option<String>) -> (r: bool)
    ensures
        r == empty_group(opt_text(*procs)),
{
    match procs {
        Some(t) => trim(t.as_str()).unicode_len() == 0,
        None => true,
    }
}

/// Whether to wait and look again after this look, the `looks`th, at a group.
pub fn keep_waiting(looks: u32, procs: &Option<String>) -> (r: bool)
    ensures
        r == (looks <= REMOVE_POLLS && !empty_group(opt_text(*procs))),
{
    looks <= REMOVE_POLLS && !cgroup_is_empty(procs)
}

/// The answer once a container's directory was removed.
pub fn remove_reply(outcome: &Result<(), String>) -> (r: Response)
    ensures
        r@ == (match *outcome {
            Ok(_) => text_response(204, ""@),
            Err(e) => text_response(500, e@),
        }),
{
    match outcome {
        Ok(_) => Response::text(204, ""),
        Err(e) => Response::text(500, e.as_str()),
    }
}

// ---- Logs ------------------------------------------------------------------

/// How long to wait before a log is looked at again, in milliseconds.
pub const FOLLOW_PAUSE_MS: u64 = 300;

/// Whether a request asks to follow a log.
pub open spec fn wants_follow(query: Seq<(Seq<char>, Seq<char>)>) -> bool {
    value_of(query, "follow"@) == Some("1"@) || value_of(query, "follow"@) == Some("true"@)
}

/// Whether a request asks to follow a log.
pub fn follows(req: &Request) -> (r: bool)
    ensures
        r == wants_follow(req@.query),
{
    match req.parameter("follow") {
        Some(v) => str_eq(v, "1") || str_eq(v, "true"),
        None => false,
    }
}

/// The whole log at once; a log that cannot be read is empty.
pub fn logs(log: Option<Vec<u8>>) -> (r: Response)
    ensures
        r@ == with_content(
            200,
            "text/plain"@,
            match log {
                Some(b) => b@,
                None => Seq::empty(),
            },
        ),
{
    let body = match log {
        Some(b) => b,
        None => Vec::new(),
    };
    Response::with(200, "text/plain", body)
}

/// The head of a log that is followed.
pub open spec fn follow_head() -> Seq<char> {
    "HTTP/1.1 200 OK\r\nContent-Type: text/plain\r\nTransfer-Encoding: chunked\r\nAccess-Control-Allow-Origin: *\r\nConnection: close\r\n\r\n"@
}

/// The head of a log that is followed.
pub fn start_following() -> (r: Vec<u8>)
    ensures
        r@ == encode_utf8(follow_head()),
{
    let mut out: Vec<u8> = Vec::new();
    push_str_bytes(
        &mut out,
        "HTTP/1.1 200 OK\r\nContent-Type: text/plain\r\nTransfer-Encoding: chunked\r\nAccess-Control-Allow-Origin: *\r\nConnection: close\r\n\r\n",
    );
    assert(out@ =~= encode_utf8(follow_head()));
    out
}

/// What to do after one look at a log that is followed: the bytes to send,
/// how much of the log was sent by then, and whether that was the end.
pub struct FollowStep {
    pub out: Vec<u8>,
    pub sent: u64,
    pub done: bool,
}

/// One look at a log that is followed: `sent` bytes were sent before, the log
/// has `len` bytes, and `fresh` is what a read from there to the end gave. The
/// container is asked after the log, so its last words are not missed.
pub fn follow_step(sent: u64, len: u64, fresh: Vec<u8>, running: bool) -> (r: FollowStep)
    requires
        sent + fresh@.len() <= u64::MAX,
    ensures
        ({
            let news = len > sent;
            &&& r.done == !running
            &&& r.sent == (if news {
                sent + fresh@.len()
            } else {
                sent as int
            })
            &&& r.out@ == (if news {
                chunk_bytes(fresh@)
            } else {
                Seq::empty()
            }) + (if running {
                Seq::empty()
            } else {
                encode_utf8("0\r\n\r\n"@)
            })
        }),
{
    let mut out: Vec<u8> = Vec::new();
    let mut now: u64 = sent;
    if len > sent {
        now = sent + fresh.len() as u64;
        out = chunk(&fresh);
    }
    let ghost data = out@;
    if !running {
        let mut end = write_final_chunk();
        out.append(&mut end);
    } else {
        assert(out@ =~= data + Seq::<u8>::empty());
    }
    FollowStep { out, sent: now, done: !running }
}

/// A container with a memory limit cannot escape it by swapping, and its CPU
/// time is given per tenth of a second; one without is not limited.
pub proof fn memory_limits_hold(cpu: Option<u64>, memory: Option<u64>)
    ensures
        ({
            let l = container_limits(cpu, memory);
            &&& l.memory_max_bytes == memory
            &&& l.cpu_max_us == cpu
            &&& l.cpu_period_us == 100_000
            &&& memory is Some ==> l.memory_swap_max_bytes == Some(0u64)
            &&& memory is None ==> l.memory_swap_max_bytes is None
            &&& l.memory_high_bytes is None
            &&& l.pids_max is None
        }),
{
}

/// Changing limits changes nothing else of a container.
pub proof fn only_limits_change(c: Container, memory: Option<u64>, cpus: Option<String>)
    ensures
        ({
            let d = with_limits(c, memory, cpus);
            &&& d.memory_limit_bytes == memory
            &&& d.cpu_limit == cpus
            &&& d.id == c.id
            &&& d.name == c.name
            &&& d.image_reference == c.image_reference
            &&& d.command == c.command
            &&& d.status == c.status
            &&& d.pid == c.pid
            &&& d.ip == c.ip
            &&& d.network == c.network
            &&& d.created_at == c.created_at
            &&& d.volumes == c.volumes
        }),
{
}

/// A container that is run has everything that was asked for.
pub proof fn requests_are_met(s: RunSpec, b: RunRequest, memory: Option<u64>)
    requires
        asked_for(s, b, memory),
    ensures
        s.image == b.image,
        s.command == b.command,
        s.name == b.name,
        s.volumes == b.volumes,
        s.network == b.network,
        s.extra_env == b.environment,
        s.memory_limit_bytes == memory,
        s.cpu_limit == b.cpus,
        b.restart matches Some(p) ==> s.restart_policy@ == p@,
        b.restart is None ==> s.restart_policy@ == "no"@,
        s.ports == b.ports,
        s.secrets == b.secrets,
        s.security.seccomp_unconfined == b.seccomp_unconfined,
        s.security.cap_add == b.cap_add,
        s.security.cap_drop == b.cap_drop,
{
}

/// A group is empty if nothing but white space lists its processes, or if it is
/// gone; a single process keeps it from being empty.
pub proof fn listed_processes_keep_a_group(t: Seq<char>, i: int)
    ensures
        (forall|k: int| 0 <= k < t.len() ==> crate::text::is_white(#[trigger] t[k])) ==> empty_group(Some(t)),
        0 <= i < t.len() && !crate::text::is_white(t[i]) ==> !empty_group(Some(t)),
        empty_group(None),
{
    crate::text::trimming_takes_white_space_only(t);
    let (a, b) = choose|a: int, b: int|
        #![trigger t.subrange(a, b)]
        {
            &&& 0 <= a <= b <= t.len()
            &&& trimmed(t) == t.subrange(a, b)
            &&& forall|k: int| 0 <= k < a || b <= k < t.len() ==> crate::text::is_white(#[trigger] t[k])
        };
    if trimmed(t).len() > 0 {
        assert(trimmed(t)[0] == t[a]);
    }
}

/// A log is followed where the request says `follow=1` or `follow=true`, and
/// not where it says anything else, or nothing.
pub proof fn logs_are_followed_on_request(query: Seq<(Seq<char>, Seq<char>)>, v: Seq<char>)
    ensures
        wants_follow(query.push(("follow"@, v))) <==> v == "1"@ || v == "true"@,
        (forall|i: int| 0 <= i < query.len() ==> (#[trigger] query[i]).0 != "follow"@) ==> !wants_follow(query),
{
    let longer = query.push(("follow"@, v));
    assert(longer[query.len() as int] == ("follow"@, v));
    crate::image::the_last_entry_counts(longer, "follow"@, query.len() as int);
    crate::image::the_last_entry_counts(query, "follow"@, 0);
}

/// The answer to what was done to a container shows the container with the
/// status of success, or says what went wrong with the other status.
pub proof fn answers_show_the_container(ok: u16, failed: u16, c: Container, e: String)
    ensures
        outcome_response(ok, failed, Ok(c)).status == ok,
        outcome_response(ok, failed, Ok(c)).body == encode_utf8(c.json()),
        outcome_response(ok, failed, Err(e)).status == failed,
        outcome_response(ok, failed, Err(e)).body == encode_utf8(e@),
        no_such_container().status == 404,
        invalid_body(e@).status == 400,
{
}

/// A container that runs is shown as running, and one that ended with the code
/// that it ended with.
pub proof fn states_are_shown(code: i32)
    ensures
        status_word(Status::Running) == "running"@,
        status_word(Status::Exited(code)) == "exited("@ + signed_decimal(code as int) + ")"@,
        pid_json(Some(code)) == signed_decimal(code as int),
        pid_json(None) == "null"@,
{
}

} // verus!
