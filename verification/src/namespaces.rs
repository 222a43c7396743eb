//! Process isolation: which namespaces a new process gets, and the identity
//! maps that define its users.

use crate::num::{decimal, signed_decimal, u64_text};
use crate::text::{cat5, is_white, joined, joined_words_come_back, lemma_lines_behind, lines_of, pieces, words};
use vstd::prelude::*;

verus! {

/// One line of a process's `uid_map` or `gid_map`: `count` consecutive ids
/// from `container_id` inside the namespace are `host_id` onwards outside.
#[derive(Debug, Clone, Copy)]
pub struct IdMap {
    pub container_id: u32,
    pub host_id: u32,
    pub count: u32,
}

/// Which namespaces to isolate a process into.
#[derive(Debug, Clone, Copy)]
pub struct Namespaces {
    pub pid: bool,
    pub mount: bool,
    pub uts: bool,
    pub ipc: bool,
    pub net: bool,
    pub user: bool,
}

pub const CLONE_NEWNS: u64 = 0x0002_0000;

pub const CLONE_NEWCGROUP: u64 = 0x0200_0000;

pub const CLONE_NEWUTS: u64 = 0x0400_0000;

pub const CLONE_NEWIPC: u64 = 0x0800_0000;

pub const CLONE_NEWUSER: u64 = 0x1000_0000;

pub const CLONE_NEWPID: u64 = 0x2000_0000;

pub const CLONE_NEWNET: u64 = 0x4000_0000;

impl Namespaces {
    /// All six namespaces: the default for a container.
    pub fn all() -> (r: Namespaces)
        ensures
            r == (Namespaces { pid: true, mount: true, uts: true, ipc: true, net: true, user: true }),
    {
        Namespaces { pid: true, mount: true, uts: true, ipc: true, net: true, user: true }
    }

    /// The clone flags that create exactly the namespaces asked for.
    pub open spec fn flags(&self) -> u64 {
        (if self.pid { CLONE_NEWPID } else { 0u64 }) | (if self.mount { CLONE_NEWNS } else { 0u64 }) | (
        if self.uts { CLONE_NEWUTS } else { 0u64 }) | (if self.ipc { CLONE_NEWIPC } else { 0u64 }) | (
        if self.net { CLONE_NEWNET } else { 0u64 }) | (if self.user { CLONE_NEWUSER } else { 0u64 })
    }

    /// The clone flags that create exactly the namespaces asked for.
    pub fn to_clone_flags(self) -> (r: u64)
        ensures
            r == self.flags(),
    {
        (if self.pid { CLONE_NEWPID } else { 0u64 }) | (if self.mount { CLONE_NEWNS } else { 0u64 }) | (
        if self.uts { CLONE_NEWUTS } else { 0u64 }) | (if self.ipc { CLONE_NEWIPC } else { 0u64 }) | (
        if self.net { CLONE_NEWNET } else { 0u64 }) | (if self.user { CLONE_NEWUSER } else { 0u64 })
    }
}

/// A flag is set for exactly the namespaces asked for: each namespace left
/// out stays shared, each one asked for is new, and the flags hold nothing
/// else.
pub proof fn flags_are_the_namespaces_asked_for(n: Namespaces)
    ensures
        n.flags() & CLONE_NEWPID != 0 <==> n.pid,
        n.flags() & CLONE_NEWNS != 0 <==> n.mount,
        n.flags() & CLONE_NEWUTS != 0 <==> n.uts,
        n.flags() & CLONE_NEWIPC != 0 <==> n.ipc,
        n.flags() & CLONE_NEWNET != 0 <==> n.net,
        n.flags() & CLONE_NEWUSER != 0 <==> n.user,
        n.flags() & !(CLONE_NEWPID | CLONE_NEWNS | CLONE_NEWUTS | CLONE_NEWIPC | CLONE_NEWNET
            | CLONE_NEWUSER) == 0,
{
    let pid = n.pid;
    let mount = n.mount;
    let uts = n.uts;
    let ipc = n.ipc;
    let net = n.net;
    let user = n.user;
    let f: u64 = n.flags();
    assert(f == (if pid { 0x2000_0000u64 } else { 0u64 }) | (if mount { 0x0002_0000u64 } else { 0u64 })
        | (if uts { 0x0400_0000u64 } else { 0u64 }) | (if ipc { 0x0800_0000u64 } else { 0u64 }) | (
    if net { 0x4000_0000u64 } else { 0u64 }) | (if user { 0x1000_0000u64 } else { 0u64 }));
    assert((f & 0x2000_0000u64 != 0 <==> pid) && (f & 0x0002_0000u64 != 0 <==> mount) && (f
        & 0x0400_0000u64 != 0 <==> uts) && (f & 0x0800_0000u64 != 0 <==> ipc) && (f & 0x4000_0000u64
        != 0 <==> net) && (f & 0x1000_0000u64 != 0 <==> user) && f & !(0x2000_0000u64 | 0x0002_0000u64
        | 0x0400_0000u64 | 0x0800_0000u64 | 0x4000_0000u64 | 0x1000_0000u64) == 0) by (bit_vector)
        requires
            f == (if pid { 0x2000_0000u64 } else { 0u64 }) | (if mount { 0x0002_0000u64 } else { 0u64 })
                | (if uts { 0x0400_0000u64 } else { 0u64 }) | (if ipc { 0x0800_0000u64 } else { 0u64 })
                | (if net { 0x4000_0000u64 } else { 0u64 }) | (if user { 0x1000_0000u64 } else { 0u64 }),
    ;
}

/// How an isolated process is spawned.
pub struct Spawn {
    pub namespaces: Namespaces,
    pub uid_map: Vec<IdMap>,
    pub gid_map: Vec<IdMap>,
    pub hostname: Option<String>,
    pub stack_size: usize,
}

impl Default for Spawn {
    fn default() -> (r: Spawn)
        ensures
            r.namespaces == (Namespaces {
                pid: true,
                mount: true,
                uts: true,
                ipc: true,
                net: true,
                user: true,
            }),
            r.uid_map@.len() == 0,
            r.gid_map@.len() == 0,
            r.hostname is None,
            r.stack_size == 8 * 1024 * 1024,
    {
        Spawn {
            namespaces: Namespaces::all(),
            uid_map: Vec::new(),
            gid_map: Vec::new(),
            hostname: None,
            stack_size: 8 * 1024 * 1024,
        }
    }
}

/// One line of an identity map file.
pub open spec fn id_map_line(m: IdMap) -> Seq<char> {
    decimal(m.container_id as nat) + " "@ + decimal(m.host_id as nat) + " "@ + decimal(m.count as nat)
        + "\n"@
}

/// The contents of an identity map file: one line per entry.
pub open spec fn id_map_text(maps: Seq<IdMap>) -> Seq<char>
    decreases maps.len(),
{
    if maps.len() == 0 {
        Seq::empty()
    } else {
        id_map_text(maps.drop_last()) + id_map_line(maps.last())
    }
}

/// The contents of an identity map file.
pub fn id_map_body(maps: &Vec<IdMap>) -> (r: String)
    ensures
        r@ == id_map_text(maps@),
{
    let mut out = String::new();
    let mut i: usize = 0;
    while i < maps.len()
        invariant
            i <= maps@.len(),
            out@ == id_map_text(maps@.take(i as int)),
        decreases maps.len() - i,
    {
        assert(maps@.take(i + 1).drop_last() == maps@.take(i as int));
        let m = maps[i];
        let a = u64_text(m.container_id as u64);
        let b = u64_text(m.host_id as u64);
        let c = u64_text(m.count as u64);
        let mut line = cat5(a.as_str(), " ", b.as_str(), " ", c.as_str());
        line.append("\n");
        assert(line@ == id_map_line(m));
        out.append(line.as_str());
        i += 1;
    }
    assert(maps@.take(i as int) == maps@);
    out
}

/// Which identity map files to write for the child `pid`, and what goes into
/// them: none unless the child has a user namespace of its own, the group
/// map before the user map, and none for an empty map.
pub fn id_map_writes(opts: &Spawn, pid: i32) -> (r: Vec<(String, String)>)
    ensures
        file_texts(r@) == id_map_plan(*opts, pid as int),
{
    let mut out: Vec<(String, String)> = Vec::new();
    if opts.namespaces.user {
        if opts.gid_map.len() > 0 {
            let path = proc_path(pid, "gid_map");
            let body = id_map_body(&opts.gid_map);
            out.push((path, body));
        }
        if opts.uid_map.len() > 0 {
            let path = proc_path(pid, "uid_map");
            let body = id_map_body(&opts.uid_map);
            out.push((path, body));
        }
    }
    assert(file_texts(out@) =~= id_map_plan(*opts, pid as int));
    out
}

/// The paths and contents of files to write.
pub open spec fn file_texts(v: Seq<(String, String)>) -> Seq<(Seq<char>, Seq<char>)> {
    v.map_values(|p: (String, String)| (p.0@, p.1@))
}

/// The identity map files of a child.
pub open spec fn id_map_plan(opts: Spawn, pid: int) -> Seq<(Seq<char>, Seq<char>)> {
    if !opts.namespaces.user {
        Seq::empty()
    } else {
        let gid = (
            "/proc/"@ + signed_decimal(pid) + "/"@ + "gid_map"@,
            id_map_text(opts.gid_map@),
        );
        let uid = (
            "/proc/"@ + signed_decimal(pid) + "/"@ + "uid_map"@,
            id_map_text(opts.uid_map@),
        );
        (if opts.gid_map@.len() > 0 { seq![gid] } else { Seq::empty() }) + (if opts.uid_map@.len() > 0 {
            seq![uid]
        } else {
            Seq::empty()
        })
    }
}

/// A file of the process `pid`.
pub fn proc_path(pid: i32, file: &str) -> (r: String)
    ensures
        r@ == "/proc/"@ + signed_decimal(pid as int) + "/"@ + file@,
{
    let p = crate::num::i32_text(pid);
    crate::text::cat4("/proc/", p.as_str(), "/", file)
}

/// The file that identifies the namespace of the given kind that `pid` is in.
pub fn ns_path(pid: i32, kind: &str) -> (r: String)
    ensures
        r@ == "/proc/"@ + signed_decimal(pid as int) + "/"@ + ("ns/"@ + kind@),
{
    let file = crate::text::cat2("ns/", kind);
    proc_path(pid, file.as_str())
}

/// The files to open, all of them before the first is joined, to enter the
/// given namespaces of `pid`, in order.
pub fn ns_paths(pid: i32, kinds: &Vec<String>) -> (r: Vec<String>)
    ensures
        crate::text::views(r@) == Seq::new(
            kinds@.len(),
            |i: int| "/proc/"@ + signed_decimal(pid as int) + "/"@ + ("ns/"@ + kinds@[i]@),
        ),
{
    let mut out: Vec<String> = Vec::new();
    let mut i: usize = 0;
    while i < kinds.len()
        invariant
            i <= kinds@.len(),
            out@.len() == i,
            forall|j: int|
                0 <= j < i ==> #[trigger] out@[j]@ == "/proc/"@ + signed_decimal(pid as int) + "/"@ + (
                "ns/"@ + kinds@[j]@),
        decreases kinds.len() - i,
    {
        out.push(ns_path(pid, kinds[i].as_str()));
        i += 1;
    }
    assert(crate::text::views(out@) =~= Seq::new(
        kinds@.len(),
        |i: int| "/proc/"@ + signed_decimal(pid as int) + "/"@ + ("ns/"@ + kinds@[i]@),
    ));
    out
}

// ---- Starting a process ----------------------------------------------------

/// What the system is asked for a new process: the namespaces it gets, and
/// the stack it starts on.
#[derive(Debug, Clone, Copy)]
pub struct CloneRequest {
    pub flags: u64,
    pub stack_size: usize,
}

/// The process to ask for. It waits at a pipe until it is released; until
/// then its identity maps are written, and whatever else must come before it
/// runs.
pub fn spawn_paused(opts: &Spawn) -> (r: CloneRequest)
    ensures
        r.flags == opts.namespaces.flags(),
        r.stack_size == opts.stack_size,
{
    CloneRequest { flags: opts.namespaces.to_clone_flags(), stack_size: opts.stack_size }
}

/// The byte that releases the new process.
pub const RELEASE: u8 = 1;

/// What happened to the new process.
pub enum ChildEvent {
    Started,
    /// Its wait was interrupted.
    Interrupted,
    WaitFailed(String),
    Released,
    Named,
    NameFailed(String),
    Finished,
    Failed(String),
}

/// What the new process does next.
pub enum ChildAction {
    WaitForRelease,
    SetHostname(String),
    RunEntry,
    Exit { code: i32, complaint: Option<String> },
}

/// What the new process does next.
pub enum ChildActionView {
    WaitForRelease,
    SetHostname(Seq<char>),
    RunEntry,
    Exit { code: i32, complaint: Option<Seq<char>> },
}

impl View for ChildAction {
    type V = ChildActionView;

    open spec fn view(&self) -> ChildActionView {
        match *self {
            ChildAction::WaitForRelease => ChildActionView::WaitForRelease,
            ChildAction::SetHostname(n) => ChildActionView::SetHostname(n@),
            ChildAction::RunEntry => ChildActionView::RunEntry,
            ChildAction::Exit { code, complaint } => ChildActionView::Exit {
                code,
                complaint: crate::image::opt_text(complaint),
            },
        }
    }
}

/// The end of a process that could not go on.
pub open spec fn gives_up(complaint: Seq<char>) -> ChildActionView {
    ChildActionView::Exit { code: 1, complaint: Some(complaint) }
}

/// What the new process does after an event: it waits to be released, takes
/// its host name, and runs what it was made for.
pub open spec fn next_action(hostname: Option<Seq<char>>, event: ChildEvent) -> ChildActionView {
    match event {
        ChildEvent::Started => ChildActionView::WaitForRelease,
        ChildEvent::Interrupted => ChildActionView::WaitForRelease,
        ChildEvent::WaitFailed(e) => gives_up("kiln: container child: waiting for release failed: "@ + e@),
        ChildEvent::Released => match hostname {
            Some(n) => ChildActionView::SetHostname(n),
            None => ChildActionView::RunEntry,
        },
        ChildEvent::Named => ChildActionView::RunEntry,
        ChildEvent::NameFailed(e) => gives_up("kiln: container child: sethostname failed: "@ + e@),
        ChildEvent::Finished => ChildActionView::Exit { code: 0, complaint: None },
        ChildEvent::Failed(e) => gives_up("kiln: container child failed: "@ + e@),
    }
}

/// What the new process does after an event.
pub fn child_step(hostname: &Option<String>, event: &ChildEvent) -> (r: ChildAction)
    ensures
        r@ == next_action(crate::image::opt_text(*hostname), *event),
{
    match event {
        ChildEvent::Started => ChildAction::WaitForRelease,
        ChildEvent::Interrupted => ChildAction::WaitForRelease,
        ChildEvent::WaitFailed(e) => ChildAction::Exit {
            code: 1,
            complaint: Some(crate::text::cat2("kiln: container child: waiting for release failed: ", e.as_str())),
        },
        ChildEvent::Released => match hostname {
            Some(n) => ChildAction::SetHostname(n.as_str().to_owned()),
            None => ChildAction::RunEntry,
        },
        ChildEvent::Named => ChildAction::RunEntry,
        ChildEvent::NameFailed(e) => ChildAction::Exit {
            code: 1,
            complaint: Some(crate::text::cat2("kiln: container child: sethostname failed: ", e.as_str())),
        },
        ChildEvent::Finished => ChildAction::Exit { code: 0, complaint: None },
        ChildEvent::Failed(e) => ChildAction::Exit {
            code: 1,
            complaint: Some(crate::text::cat2("kiln: container child failed: ", e.as_str())),
        },
    }
}

/// Whether a series of events is one that a process can go through: it starts,
/// and each further event is an outcome of the action before it.
pub open spec fn possible(hostname: Option<Seq<char>>, events: Seq<ChildEvent>) -> bool
    decreases events.len(),
{
    if events.len() == 0 {
        true
    } else if events.len() == 1 {
        events[0] is Started
    } else {
        let last = events.last();
        possible(hostname, events.drop_last()) && match next_action(hostname, events[events.len() - 2]) {
            ChildActionView::WaitForRelease => last is Interrupted || last is Released || last is WaitFailed,
            ChildActionView::SetHostname(_) => last is Named || last is NameFailed,
            ChildActionView::RunEntry => last is Finished || last is Failed,
            ChildActionView::Exit { .. } => false,
        }
    }
}

/// A process does nothing of its own before it is released: until then, all
/// it does is to wait, or to give up.
pub proof fn nothing_runs_before_the_release(hostname: Option<Seq<char>>, events: Seq<ChildEvent>)
    requires
        possible(hostname, events),
        events.len() > 0,
        forall|i: int| 0 <= i < events.len() ==> !((#[trigger] events[i]) is Released),
    ensures
        next_action(hostname, events.last()) is WaitForRelease || next_action(hostname, events.last()) is Exit,
    decreases events.len(),
{
    if events.len() > 1 {
        let before = events.drop_last();
        assert forall|i: int| 0 <= i < before.len() implies !((#[trigger] before[i]) is Released) by {
            assert(before[i] == events[i]);
        }
        nothing_runs_before_the_release(hostname, before);
        assert(before.last() == events[events.len() - 2]);
        assert(!(events[events.len() - 1] is Released));
    }
}

/// One map: one line of three words.
proof fn lemma_map_line(m: IdMap)
    ensures
        lines_of(id_map_line(m)).len() == 1,
        words(lines_of(id_map_line(m))[0]) == seq![
            decimal(m.container_id as nat),
            decimal(m.host_id as nat),
            decimal(m.count as nat),
        ],
        id_map_line(m).last() == '\n',
        id_map_line(m).len() > 0,
{
    let a = decimal(m.container_id as nat);
    let b = decimal(m.host_id as nat);
    let c = decimal(m.count as nat);
    let v = seq![a, b, c];
    reveal_strlit(" ");
    reveal_strlit("\n");
    crate::num::lemma_decimal(m.container_id as nat);
    crate::num::lemma_decimal(m.host_id as nat);
    crate::num::lemma_decimal(m.count as nat);
    assert forall|i: int, k: int| 0 <= i < v.len() && 0 <= k < v[i].len() implies !is_white(#[trigger] v[i][k]) by {
        assert(i == 0 || i == 1 || i == 2);
        assert(crate::num::is_digit(v[i][k]));
    }
    assert forall|i: int| 0 <= i < v.len() implies (#[trigger] v[i]).len() > 0 by {
        assert(i == 0 || i == 1 || i == 2);
    }
    joined_words_come_back(v);
    reveal_with_fuel(joined, 4);
    assert(v.drop_last() =~= seq![a, b]);
    assert(seq![a, b].drop_last() =~= seq![a]);
    let line = joined(v, seq![' ']);
    assert(line =~= a + seq![' '] + b + seq![' '] + c);
    assert forall|k: int| 0 <= k < line.len() implies line[k] != '\n' && line[k] != '\r' by {
        let n = a.len() as int;
        let o = n + 1 + b.len();
        if k < n {
            assert(crate::num::is_digit(a[k]));
        } else if k > n && k < o {
            assert(crate::num::is_digit(b[k - n - 1]));
        } else if k > o {
            assert(crate::num::is_digit(c[k - o - 1]));
        }
    }
    let none = Seq::<char>::empty();
    assert(id_map_line(m) =~= line + seq!['\n'] + none);
    crate::text::lemma_pieces_append(line, none, '\n');
    crate::text::lemma_pieces_whole(line, '\n');
    let p = pieces(id_map_line(m), '\n');
    assert(p =~= seq![line, none]);
    assert(lines_of(id_map_line(m)) =~= seq![line]);
}

/// An identity map file has a line for each map, in order, and the line says
/// the first id inside, the first id outside and how many there are.
pub proof fn identity_maps_are_read_line_by_line(maps: Seq<IdMap>, i: int)
    requires
        0 <= i < maps.len(),
    ensures
        lines_of(id_map_text(maps)).len() == maps.len(),
        words(lines_of(id_map_text(maps))[i]) == seq![
            decimal(maps[i].container_id as nat),
            decimal(maps[i].host_id as nat),
            decimal(maps[i].count as nat),
        ],
        id_map_text(maps).last() == '\n',
    decreases maps.len(),
{
    let before = maps.drop_last();
    lemma_map_line(maps.last());
    if before.len() > 0 {
        identity_maps_are_read_line_by_line(before, if i < before.len() {
            i
        } else {
            0
        });
    } else {
        assert(id_map_text(before) =~= Seq::<char>::empty());
    }
    lemma_lines_behind(id_map_text(before), id_map_line(maps.last()));
    if before.len() == 0 {
        let p = pieces(id_map_text(before), '\n');
        assert(lines_of(id_map_text(before)) =~= Seq::<Seq<char>>::empty());
    }
}

/// The maps of a child in a user namespace of its own are written to its own
/// files, those of users to `uid_map` and those of groups to `gid_map`; a child
/// without such a namespace gets none.
pub proof fn identity_maps_reach_their_files(opts: Spawn, pid: i32, x: (Seq<char>, Seq<char>))
    ensures
        opts.namespaces.user && opts.uid_map@.len() > 0 ==> id_map_plan(opts, pid as int).contains(
            ("/proc/"@ + signed_decimal(pid as int) + "/"@ + "uid_map"@, id_map_text(opts.uid_map@)),
        ),
        opts.namespaces.user && opts.gid_map@.len() > 0 ==> id_map_plan(opts, pid as int).contains(
            ("/proc/"@ + signed_decimal(pid as int) + "/"@ + "gid_map"@, id_map_text(opts.gid_map@)),
        ),
        !opts.namespaces.user ==> id_map_plan(opts, pid as int).len() == 0,
        id_map_plan(opts, pid as int).len() <= 2,
{
    let plan = id_map_plan(opts, pid as int);
    let gid = ("/proc/"@ + signed_decimal(pid as int) + "/"@ + "gid_map"@, id_map_text(opts.gid_map@));
    let uid = ("/proc/"@ + signed_decimal(pid as int) + "/"@ + "uid_map"@, id_map_text(opts.uid_map@));
    if opts.namespaces.user {
        if opts.gid_map@.len() > 0 {
            assert(plan[0] == gid);
            if opts.uid_map@.len() > 0 {
                assert(plan[1] == uid);
            }
        } else if opts.uid_map@.len() > 0 {
            assert(plan[0] == uid);
        }
    }
}

} // verus!
