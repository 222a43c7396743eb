//! Resource limits through the unified control group hierarchy: which file of
//! a group is written with what, and what the group's files say.

use crate::error::RuntimeError;
use crate::namespaces::file_texts;
use crate::num::{decimal, i32_text, is_digit, parse_i32, parse_unsigned, parsed_i32, parsed_unsigned, signed_decimal, u64_text};
use crate::paths::{joined_path, path_join};
use crate::store::listed;
use crate::text::{
    cat2, cat3, is_white, join, joined, joined_words_come_back, lines, lines_of, split_whitespace, strip_prefix, trim, trimmed, views, without_prefix,
    words,
};
use vstd::prelude::*;

verus! {

/// The controllers that every container gets.
pub const CONTROLLERS: [&'static str; 4] = ["cpu", "memory", "io", "pids"];

/// The period of the CPU limit where none is given, in microseconds.
pub const DEFAULT_PERIOD_US: u64 = 100_000;

/// The limits of one container. What is not given is unlimited.
#[derive(Debug, Clone, Copy)]
pub struct Limits {
    /// CPU time per period, in microseconds.
    pub cpu_max_us: Option<u64>,
    /// The period; 0 stands for the default one.
    pub cpu_period_us: u64,
    pub memory_max_bytes: Option<u64>,
    /// With 0 here, the memory limit cannot be escaped by swapping.
    pub memory_swap_max_bytes: Option<u64>,
    /// From here on the group is throttled, but nothing is killed.
    pub memory_high_bytes: Option<u64>,
    pub pids_max: Option<u64>,
}

impl Default for Limits {
    fn default() -> (r: Limits)
        ensures
            r == (Limits {
                cpu_max_us: None,
                cpu_period_us: 0,
                memory_max_bytes: None,
                memory_swap_max_bytes: None,
                memory_high_bytes: None,
                pids_max: None,
            }),
    {
        Limits {
            cpu_max_us: None,
            cpu_period_us: 0,
            memory_max_bytes: None,
            memory_swap_max_bytes: None,
            memory_high_bytes: None,
            pids_max: None,
        }
    }
}

// ---- Delegation ------------------------------------------------------------

/// The requests to enable those of the first `n` controllers that are available.
pub open spec fn requests(available: Seq<Seq<char>>, n: nat) -> Seq<Seq<char>>
    decreases n,
{
    if n == 0 {
        Seq::empty()
    } else {
        let before = requests(available, (n - 1) as nat);
        let name = CONTROLLERS@[n - 1]@;
        if available.contains(name) {
            before.push("+"@ + name)
        } else {
            before
        }
    }
}

/// What is written to a group's `cgroup.subtree_control`, given what its
/// `cgroup.controllers` holds, or why that could not be read: a request for
/// each of the controllers that is available, and nothing if none is.
pub fn enable_subtree_controllers(dir: &str, available: &Result<String, String>) -> (r: Result<
    Option<(String, String)>,
    RuntimeError,
>)
    ensures
        match (*available, r) {
            (Ok(text), Ok(None)) => requests(words(text@), 4).len() == 0,
            (Ok(text), Ok(Some(w))) => requests(words(text@), 4).len() > 0 && w.0@ == joined_path(
                dir@,
                "cgroup.subtree_control"@,
            ) && w.1@ == joined(requests(words(text@), 4), " "@),
            (Err(m), Err(e)) => e matches RuntimeError::Io { path, message } && path@ == joined_path(
                dir@,
                "cgroup.controllers"@,
            ) && message@ == m@,
            _ => false,
        },
{
    let text = match available {
        Ok(t) => t,
        Err(m) => {
            return Err(
                RuntimeError::Io { path: path_join(dir, "cgroup.controllers"), message: m.as_str().to_owned() },
            );
        },
    };
    let found = split_whitespace(text.as_str());
    let mut out: Vec<String> = Vec::new();
    let mut i: usize = 0;
    assert(views(out@) =~= requests(words(text@), 0));
    while i < 4
        invariant
            i <= 4,
            views(found@) == words(text@),
            views(out@) == requests(words(text@), i as nat),
        decreases 4 - i,
    {
        let name = CONTROLLERS[i];
        if listed(&found, name) {
            let request = cat2("+", name);
            assert(views(out@.push(request)) =~= views(out@).push(request@));
            out.push(request);
        }
        i += 1;
    }
    if out.len() == 0 {
        return Ok(None);
    }
    Ok(Some((path_join(dir, "cgroup.subtree_control"), join(&out, " "))))
}

/// How an attempt to make a directory came out.
pub enum Made {
    Created,
    AlreadyThere,
    Failed(String),
}

/// The group below which containers get theirs. The controllers of
/// `mount_root` are enabled first, then this directory is made, then its own
/// controllers are enabled.
pub fn delegated_root(mount_root: &str, name: &str) -> (r: String)
    ensures
        r@ == joined_path(mount_root@, name@),
{
    path_join(mount_root, name)
}

/// Whether the delegated group is there after the attempt to make it: one
/// that was there before will do.
pub fn ensure_delegated_root(mount_root: &str, name: &str, made: &Made) -> (r: Result<String, RuntimeError>)
    ensures
        match r {
            Ok(d) => !(made is Failed) && d@ == joined_path(mount_root@, name@),
            Err(e) => made matches Made::Failed(m) && (e matches RuntimeError::Io { path, message } && path@
                == joined_path(mount_root@, name@) && message@ == m@),
        },
{
    let dir = delegated_root(mount_root, name);
    match made {
        Made::Failed(m) => Err(RuntimeError::Io { path: dir, message: m.as_str().to_owned() }),
        _ => Ok(dir),
    }
}

// ---- One container's group -------------------------------------------------

/// A limit as the kernel reads it.
pub open spec fn limit_text(limit: Option<u64>) -> Seq<char> {
    match limit {
        Some(n) => decimal(n as nat),
        None => "max"@,
    }
}

/// A limit as the kernel reads it.
fn write_limit(limit: Option<u64>) -> (r: String)
    ensures
        r@ == limit_text(limit),
{
    match limit {
        Some(n) => u64_text(n),
        None => "max".to_owned(),
    }
}

/// The period that a limit is over.
pub open spec fn period_of(limits: Limits) -> u64 {
    if limits.cpu_period_us == 0 {
        DEFAULT_PERIOD_US
    } else {
        limits.cpu_period_us
    }
}

/// The files that put limits into force, and their contents.
pub open spec fn limit_files(dir: Seq<char>, l: Limits) -> Seq<(Seq<char>, Seq<char>)> {
    seq![
        (joined_path(dir, "cpu.max"@), limit_text(l.cpu_max_us) + " "@ + decimal(period_of(l) as nat)),
        (joined_path(dir, "memory.max"@), limit_text(l.memory_max_bytes)),
        (joined_path(dir, "memory.high"@), limit_text(l.memory_high_bytes)),
        (joined_path(dir, "memory.swap.max"@), limit_text(l.memory_swap_max_bytes)),
        (joined_path(dir, "pids.max"@), limit_text(l.pids_max)),
    ]
}

/// The numbers in the lines that hold one.
pub open spec fn pids_in(ls: Seq<Seq<char>>) -> Seq<int>
    decreases ls.len(),
{
    if ls.len() == 0 {
        Seq::empty()
    } else {
        let before = pids_in(ls.drop_last());
        match parsed_i32(trimmed(ls.last())) {
            Some(n) => before.push(n),
            None => before,
        }
    }
}

/// What follows `prefix` in the first line that starts with it.
pub open spec fn first_with(ls: Seq<Seq<char>>, prefix: Seq<char>) -> Option<Seq<char>>
    decreases ls.len(),
{
    if ls.len() == 0 {
        None
    } else {
        match without_prefix(ls[0], prefix) {
            Some(rest) => Some(rest),
            None => first_with(ls.skip(1), prefix),
        }
    }
}

/// How many processes the kernel killed for want of memory, by a group's
/// `memory.events`.
pub open spec fn kills_in(events: Seq<char>) -> nat {
    match first_with(lines_of(events), "oom_kill "@) {
        Some(v) => match parsed_unsigned(trimmed(v), u64::MAX as nat) {
            Some(n) => n,
            None => 0,
        },
        None => 0,
    }
}

/// One container's group.
pub struct CgroupV2 {
    pub dir: String,
}

/// How a group comes to be: the old directory goes if there is one, a new
/// one is made, and its limits are written.
pub struct Creation {
    pub group: CgroupV2,
    pub remove_first: bool,
    pub writes: Vec<(String, String)>,
}

/// The failure to read a file of a group.
pub open spec fn unreadable(e: RuntimeError, dir: Seq<char>, file: Seq<char>, reason: Seq<char>) -> bool {
    e matches RuntimeError::Io { path, message } && path@ == joined_path(dir, file) && message@ == reason
}

impl CgroupV2 {
    /// How the group of a container comes to be. An empty directory that an
    /// earlier run left behind is replaced.
    pub fn create(parent: &str, id: &str, exists: bool, limits: &Limits) -> (r: Creation)
        ensures
            r.group.dir@ == joined_path(parent@, id@),
            r.remove_first == exists,
            file_texts(r.writes@) == limit_files(r.group.dir@, *limits),
    {
        let group = CgroupV2 { dir: path_join(parent, id) };
        let writes = group.apply_limits(limits);
        Creation { group, remove_first: exists, writes }
    }

    /// Where the group is.
    pub fn path(&self) -> (r: &str)
        ensures
            r@ == self.dir@,
    {
        self.dir.as_str()
    }

    /// The group at a directory that is already there.
    pub fn from_existing(dir: String) -> (r: CgroupV2)
        ensures
            r.dir == dir,
    {
        CgroupV2 { dir }
    }

    /// The files to write for these limits, in order.
    pub fn apply_limits(&self, limits: &Limits) -> (r: Vec<(String, String)>)
        ensures
            file_texts(r@) == limit_files(self.dir@, *limits),
    {
        let dir = self.dir.as_str();
        let period = if limits.cpu_period_us == 0 {
            DEFAULT_PERIOD_US
        } else {
            limits.cpu_period_us
        };
        let quota = write_limit(limits.cpu_max_us);
        let period_text = u64_text(period);
        let mut out: Vec<(String, String)> = Vec::new();
        out.push((path_join(dir, "cpu.max"), cat3(quota.as_str(), " ", period_text.as_str())));
        out.push((path_join(dir, "memory.max"), write_limit(limits.memory_max_bytes)));
        out.push((path_join(dir, "memory.high"), write_limit(limits.memory_high_bytes)));
        out.push((path_join(dir, "memory.swap.max"), write_limit(limits.memory_swap_max_bytes)));
        out.push((path_join(dir, "pids.max"), write_limit(limits.pids_max)));
        assert(file_texts(out@) =~= limit_files(self.dir@, *limits));
        out
    }

    /// The file to write for a limit on a block device, given as
    /// `major:minor`, and its `key=value` parameters.
    pub fn set_io_max(&self, device: &str, params: &str) -> (r: (String, String))
        ensures
            r.0@ == joined_path(self.dir@, "io.max"@),
            r.1@ == device@ + " "@ + params@,
    {
        (path_join(self.dir.as_str(), "io.max"), cat3(device, " ", params))
    }

    /// The file to write to move a process into the group.
    pub fn add_process(&self, pid: i32) -> (r: (String, String))
        ensures
            r.0@ == joined_path(self.dir@, "cgroup.procs"@),
            r.1@ == signed_decimal(pid as int),
    {
        (path_join(self.dir.as_str(), "cgroup.procs"), i32_text(pid))
    }

    /// The processes in the group, given what its `cgroup.procs` holds.
    pub fn processes(&self, read: &Result<String, String>) -> (r: Result<Vec<i32>, RuntimeError>)
        ensures
            match (*read, r) {
                (Ok(t), Ok(v)) => v@.map_values(|p: i32| p as int) == pids_in(lines_of(t@)),
                (Err(m), Err(e)) => unreadable(e, self.dir@, "cgroup.procs"@, m@),
                _ => false,
            },
    {
        let text = match read {
            Ok(t) => t,
            Err(m) => {
                return Err(
                    RuntimeError::Io {
                        path: path_join(self.dir.as_str(), "cgroup.procs"),
                        message: m.as_str().to_owned(),
                    },
                );
            },
        };
        let ls = lines(text.as_str());
        let ghost all = lines_of(text@);
        let mut out: Vec<i32> = Vec::new();
        let mut i: usize = 0;
        assert(out@.map_values(|p: i32| p as int) =~= pids_in(all.take(0)));
        while i < ls.len()
            invariant
                i <= ls@.len(),
                views(ls@) == all,
                out@.map_values(|p: i32| p as int) == pids_in(all.take(i as int)),
            decreases ls.len() - i,
        {
            proof {
                assert(all.take(i + 1).drop_last() =~= all.take(i as int));
                assert(all.take(i + 1).last() == ls@[i as int]@);
            }
            match parse_i32(trim(ls[i].as_str())) {
                Some(n) => {
                    assert(out@.push(n).map_values(|p: i32| p as int) =~= out@.map_values(|p: i32| p as int).push(
                        n as int,
                    ));
                    out.push(n);
                },
                None => {},
            }
            i += 1;
        }
        assert(all.take(i as int) =~= all);
        Ok(out)
    }

    /// The memory in use, given what the group's `memory.current` holds.
    pub fn memory_current(&self, read: &Result<String, String>) -> (r: Result<u64, RuntimeError>)
        ensures
            match (*read, r) {
                (Ok(t), Ok(n)) => parsed_unsigned(trimmed(t@), u64::MAX as nat) == Some(n as nat),
                (Ok(t), Err(e)) => parsed_unsigned(trimmed(t@), u64::MAX as nat) is None && (
                e matches RuntimeError::InvalidArgument(m) && m@ == "memory.current not a number"@),
                (Err(m), Err(e)) => unreadable(e, self.dir@, "memory.current"@, m@),
                _ => false,
            },
    {
        match read {
            Ok(t) => match parse_unsigned(trim(t.as_str()), u64::MAX) {
                Some(n) => Ok(n),
                None => Err(RuntimeError::InvalidArgument("memory.current not a number".to_owned())),
            },
            Err(m) => Err(
                RuntimeError::Io {
                    path: path_join(self.dir.as_str(), "memory.current"),
                    message: m.as_str().to_owned(),
                },
            ),
        }
    }

    /// How often the kernel killed a process of the group for want of memory,
    /// given what its `memory.events` holds. A count that is not there is 0.
    pub fn oom_kill_count(&self, read: &Result<String, String>) -> (r: Result<u64, RuntimeError>)
        ensures
            match (*read, r) {
                (Ok(t), Ok(n)) => n == kills_in(t@),
                (Err(m), Err(e)) => unreadable(e, self.dir@, "memory.events"@, m@),
                _ => false,
            },
    {
        let text = match read {
            Ok(t) => t,
            Err(m) => {
                return Err(
                    RuntimeError::Io {
                        path: path_join(self.dir.as_str(), "memory.events"),
                        message: m.as_str().to_owned(),
                    },
                );
            },
        };
        let ls = lines(text.as_str());
        let ghost all = lines_of(text@);
        let mut i: usize = 0;
        assert(all.skip(0) =~= all);
        while i < ls.len()
            invariant
                i <= ls@.len(),
                *read == Ok::<String, String>(*text),
                views(ls@) == all,
                all == lines_of(text@),
                first_with(all.skip(i as int), "oom_kill "@) == first_with(all, "oom_kill "@),
            decreases ls.len() - i,
        {
            proof {
                assert(all.skip(i as int)[0] == ls@[i as int]@);
                assert(all.skip(i as int).skip(1) =~= all.skip(i + 1));
            }
            match strip_prefix(ls[i].as_str(), "oom_kill ") {
                Some(v) => {
                    return Ok(
                        match parse_unsigned(trim(v), u64::MAX) {
                            Some(n) => n,
                            None => 0,
                        },
                    );
                },
                None => {},
            }
            i += 1;
        }
        Ok(0)
    }

    /// The directory to remove; the kernel refuses while processes are left.
    pub fn remove(self) -> (r: String)
        ensures
            r == self.dir,
    {
        self.dir
    }
}

/// The text that moves a process into a group is the line by which the group
/// lists that process.
pub proof fn moved_process_is_listed(pid: i32)
    ensures
        pids_in(seq![signed_decimal(pid as int)]) == seq![pid as int],
{
    let t = signed_decimal(pid as int);
    let n = if pid < 0 {
        (-(pid as int)) as nat
    } else {
        pid as nat
    };
    let d = decimal(n);
    crate::num::lemma_decimal(n);
    assert(crate::num::is_digit(d[0]));
    assert(crate::num::is_digit(d[d.len() - 1]));
    if pid < 0 {
        assert(t.skip(1) =~= d);
    }
    assert(trimmed(t) == t);
    assert(parsed_i32(t) == Some(pid as int));
    let one = seq![t];
    assert(one.drop_last() =~= Seq::<Seq<char>>::empty());
    assert(pids_in(one.drop_last()) =~= Seq::<int>::empty());
    assert(one.last() == t);
    assert(pids_in(one) =~= seq![pid as int]);
}

/// What the kernel makes of the text of a limit: none, or the number. A text
/// that is neither is refused.
pub open spec fn limit_read(text: Seq<char>) -> Option<Option<u64>> {
    if text == "max"@ {
        Some(None)
    } else {
        match parsed_unsigned(text, u64::MAX as nat) {
            Some(n) => Some(Some(n as u64)),
            None => None,
        }
    }
}

/// A limit's text is read as the limit, and is one word.
proof fn lemma_limit_read(limit: Option<u64>)
    ensures
        limit_read(limit_text(limit)) == Some(limit),
        limit_text(limit).len() > 0,
        forall|k: int| 0 <= k < limit_text(limit).len() ==> !is_white(#[trigger] limit_text(limit)[k]),
{
    reveal_strlit("max");
    if limit is Some {
        let n = limit->0 as nat;
        crate::num::decimal_parses_back(n, u64::MAX as nat);
        crate::num::lemma_decimal(n);
        assert(is_digit(decimal(n)[0]));
        assert forall|k: int| 0 <= k < decimal(n).len() implies !is_white(#[trigger] decimal(n)[k]) by {
            assert(is_digit(decimal(n)[k]));
        }
    }
}

/// Each limit of a container is in force in the file of that limit, and reads
/// as the number that was given, or as none; CPU time is given per period,
/// which is a tenth of a second where none was given.
pub proof fn limits_are_in_force(dir: Seq<char>, l: Limits)
    ensures
        ({
            let files = limit_files(dir, l);
            &&& exists|t: Seq<char>| #[trigger]
                files.contains((joined_path(dir, "memory.max"@), t)) && limit_read(t) == Some(l.memory_max_bytes)
            &&& exists|t: Seq<char>| #[trigger]
                files.contains((joined_path(dir, "memory.high"@), t)) && limit_read(t) == Some(l.memory_high_bytes)
            &&& exists|t: Seq<char>| #[trigger]
                files.contains((joined_path(dir, "memory.swap.max"@), t)) && limit_read(t) == Some(
                    l.memory_swap_max_bytes,
                )
            &&& exists|t: Seq<char>| #[trigger]
                files.contains((joined_path(dir, "pids.max"@), t)) && limit_read(t) == Some(l.pids_max)
            &&& exists|t: Seq<char>|
                {
                    &&& #[trigger] files.contains((joined_path(dir, "cpu.max"@), t))
                    &&& words(t).len() == 2
                    &&& limit_read(words(t)[0]) == Some(l.cpu_max_us)
                    &&& limit_read(words(t)[1]) == Some(
                        Some(
                            if l.cpu_period_us == 0 {
                                100_000u64
                            } else {
                                l.cpu_period_us
                            },
                        ),
                    )
                }
        }),
{
    let files = limit_files(dir, l);
    lemma_limit_read(l.cpu_max_us);
    lemma_limit_read(l.memory_max_bytes);
    lemma_limit_read(l.memory_high_bytes);
    lemma_limit_read(l.memory_swap_max_bytes);
    lemma_limit_read(l.pids_max);
    let period = Some(period_of(l));
    lemma_limit_read(period);
    assert(files[1] == (joined_path(dir, "memory.max"@), limit_text(l.memory_max_bytes)));
    assert(files.contains((joined_path(dir, "memory.max"@), limit_text(l.memory_max_bytes))));
    assert(files[2] == (joined_path(dir, "memory.high"@), limit_text(l.memory_high_bytes)));
    assert(files.contains((joined_path(dir, "memory.high"@), limit_text(l.memory_high_bytes))));
    assert(files[3] == (joined_path(dir, "memory.swap.max"@), limit_text(l.memory_swap_max_bytes)));
    assert(files.contains((joined_path(dir, "memory.swap.max"@), limit_text(l.memory_swap_max_bytes))));
    assert(files[4] == (joined_path(dir, "pids.max"@), limit_text(l.pids_max)));
    assert(files.contains((joined_path(dir, "pids.max"@), limit_text(l.pids_max))));
    let t = limit_text(l.cpu_max_us) + " "@ + decimal(period_of(l) as nat);
    assert(files[0] == (joined_path(dir, "cpu.max"@), t));
    assert(files.contains((joined_path(dir, "cpu.max"@), t)));
    let v = seq![limit_text(l.cpu_max_us), limit_text(period)];
    reveal_strlit(" ");
    reveal_with_fuel(joined, 3);
    assert(v.drop_last() =~= seq![v[0]]);
    assert(seq![v[0]].drop_last() =~= Seq::<Seq<char>>::empty());
    assert(joined(v, seq![' ']) =~= t);
    joined_words_come_back(v);
}

/// Of the four controllers that containers need, those that are available are
/// asked for, and nothing else is.
pub proof fn available_controllers_are_enabled(available: Seq<Seq<char>>, x: Seq<char>)
    ensures
        ({
            let asked = requests(available, 4);
            &&& asked.contains("+"@ + "cpu"@) <==> available.contains("cpu"@)
            &&& asked.contains("+"@ + "memory"@) <==> available.contains("memory"@)
            &&& asked.contains("+"@ + "io"@) <==> available.contains("io"@)
            &&& asked.contains("+"@ + "pids"@) <==> available.contains("pids"@)
            &&& asked.contains(x) ==> {
                ||| x == "+"@ + "cpu"@
                ||| x == "+"@ + "memory"@
                ||| x == "+"@ + "io"@
                ||| x == "+"@ + "pids"@
            }
        }),
{
    reveal_strlit("+");
    reveal_strlit("cpu");
    reveal_strlit("memory");
    reveal_strlit("io");
    reveal_strlit("pids");
    reveal_with_fuel(requests, 5);
    assert(CONTROLLERS@[0]@ == "cpu"@ && CONTROLLERS@[1]@ == "memory"@);
    assert(CONTROLLERS@[2]@ == "io"@ && CONTROLLERS@[3]@ == "pids"@);
    let cpu = "+"@ + "cpu"@;
    let memory = "+"@ + "memory"@;
    let io = "+"@ + "io"@;
    let pids = "+"@ + "pids"@;
    assert(cpu.len() == 4 && memory.len() == 7 && io.len() == 3 && pids.len() == 5);
    let one = requests(available, 1);
    let two = requests(available, 2);
    let three = requests(available, 3);
    let four = requests(available, 4);
    lemma_asked(Seq::empty(), one, cpu, available.contains("cpu"@));
    lemma_asked(one, two, memory, available.contains("memory"@));
    lemma_asked(two, three, io, available.contains("io"@));
    lemma_asked(three, four, pids, available.contains("pids"@));
}

/// What a list holds once one more was added to it, or not.
proof fn lemma_asked(before: Seq<Seq<char>>, after: Seq<Seq<char>>, one: Seq<char>, added: bool)
    requires
        after == (if added {
            before.push(one)
        } else {
            before
        }),
    ensures
        forall|x: Seq<char>| #[trigger] after.contains(x) <==> before.contains(x) || (added && x == one),
{
    assert forall|x: Seq<char>| #[trigger] after.contains(x) <==> before.contains(x) || (added && x == one) by {
        if before.contains(x) {
            let i = choose|i: int| 0 <= i < before.len() && before[i] == x;
            assert(after[i] == x);
        }
        if added {
            assert(after[before.len() as int] == one);
        }
    }
}

/// Processes are listed line by line, and a line that is no number lists none.
pub proof fn processes_are_listed_line_by_line(a: Seq<Seq<char>>, b: Seq<Seq<char>>, line: Seq<char>)
    ensures
        pids_in(a + b) == pids_in(a) + pids_in(b),
        parsed_i32(trimmed(line)) is None ==> pids_in(seq![line]).len() == 0,
    decreases b.len(),
{
    reveal_with_fuel(pids_in, 2);
    assert(seq![line].drop_last() =~= Seq::<Seq<char>>::empty());
    if b.len() == 0 {
        assert(a + b =~= a);
        assert(pids_in(a + b) =~= pids_in(a) + pids_in(b));
    } else {
        processes_are_listed_line_by_line(a, b.drop_last(), line);
        assert((a + b).drop_last() =~= a + b.drop_last());
        assert((a + b).last() == b.last());
        assert(pids_in(a + b) =~= pids_in(a) + pids_in(b));
    }
}

/// The number of killed processes is the one that the first line about them
/// gives, whatever lines stand around it.
pub proof fn kills_are_counted(before: Seq<Seq<char>>, n: u64, events: Seq<char>, after: Seq<Seq<char>>)
    requires
        lines_of(events) == before + seq!["oom_kill "@ + decimal(n as nat)] + after,
        forall|i: int| 0 <= i < before.len() ==> without_prefix(#[trigger] before[i], "oom_kill "@) is None,
    ensures
        kills_in(events) == n,
{
    let p = "oom_kill "@;
    let line = p + decimal(n as nat);
    let rest = seq![line] + after;
    assert(lines_of(events) =~= before + rest);
    lemma_first_with(before, rest, p);
    crate::text::prefixes_and_suffixes_come_off(p, decimal(n as nat), line);
    assert(first_with(rest, p) == Some(decimal(n as nat)));
    crate::num::decimal_parses_back(n as nat, u64::MAX as nat);
    lemma_limit_read(Some(n));
    crate::text::trimmed_texts_stay(decimal(n as nat));
}

/// Lines without a prefix are passed over.
proof fn lemma_first_with(a: Seq<Seq<char>>, b: Seq<Seq<char>>, prefix: Seq<char>)
    requires
        forall|i: int| 0 <= i < a.len() ==> without_prefix(#[trigger] a[i], prefix) is None,
    ensures
        first_with(a + b, prefix) == first_with(b, prefix),
    decreases a.len(),
{
    if a.len() == 0 {
        assert(a + b =~= b);
    } else {
        assert((a + b)[0] == a[0]);
        assert((a + b).skip(1) =~= a.skip(1) + b);
        lemma_first_with(a.skip(1), b, prefix);
    }
}

/// A group whose events say nothing of killed processes, or nothing that is a
/// number, has none.
pub proof fn no_kills_are_made_up(events: Seq<char>, rest: Seq<char>)
    ensures
        (forall|i: int|
            0 <= i < lines_of(events).len() ==> without_prefix(#[trigger] lines_of(events)[i], "oom_kill "@) is None)
            ==> kills_in(events) == 0,
        first_with(lines_of(events), "oom_kill "@) == Some(rest) && parsed_unsigned(trimmed(rest), u64::MAX as nat) is None
            ==> kills_in(events) == 0,
{
    let ls = lines_of(events);
    if forall|i: int| 0 <= i < ls.len() ==> without_prefix(#[trigger] ls[i], "oom_kill "@) is None {
        lemma_first_with(ls, Seq::empty(), "oom_kill "@);
        assert(ls + Seq::<Seq<char>>::empty() =~= ls);
    }
}

} // verus!
