//! What the steps that fill a root filesystem come to: what stands where once
//! they were carried out, and that a change of root leaves nothing behind.

use crate::paths::joined_path;
use crate::rootfs::{
    bind_of, device_steps, link_steps, overlay_options, pivot_steps, resolver_steps, secret_steps, StepView, MS_BIND,
    MS_REC, STANDARD_DEVICES, STANDARD_DEV_SYMLINKS,
};
use crate::text::{joined, joined_pieces_come_back, pieces};
use vstd::prelude::*;

verus! {

/// What is mounted at a path.
pub struct Shown {
    pub source: Option<Seq<char>>,
    pub kind: Option<Seq<char>>,
    pub flags: u64,
    pub data: Option<Seq<char>>,
}

/// A tree of files: the directories and empty files that were made, what is
/// mounted, where links lead, and the files that were written with their modes.
#[verifier::ext_equal]
pub struct Place {
    pub made: Set<Seq<char>>,
    pub shown: Map<Seq<char>, Shown>,
    pub links: Map<Seq<char>, Seq<char>>,
    pub written: Map<Seq<char>, (Seq<u8>, u32)>,
}

/// A tree after a step. A mount needs something to be mounted over, and a link
/// needs a free place.
pub open spec fn step_ran(p: Place, s: StepView) -> Place {
    match s {
        StepView::MakeDirs(d) => Place { made: p.made.insert(d), ..p },
        StepView::CreateFile(f) => Place { made: p.made.insert(f), ..p },
        StepView::Discard(f) => Place { made: p.made.remove(f), links: p.links.remove(f), ..p },
        StepView::Mount { source, target, kind, flags, data, call } => if p.made.contains(target) {
            Place { shown: p.shown.insert(target, Shown { source, kind, flags, data }), ..p }
        } else {
            p
        },
        StepView::Link { link, target } => if p.made.contains(link) || p.links.contains_key(link) {
            p
        } else {
            Place { links: p.links.insert(link, target), ..p }
        },
        StepView::WriteFile { path, content, mode } => Place {
            written: p.written.insert(path, (content, mode)),
            ..p
        },
        _ => p,
    }
}

/// A tree after several steps.
pub open spec fn steps_ran(p: Place, steps: Seq<StepView>) -> Place
    decreases steps.len(),
{
    if steps.len() == 0 {
        p
    } else {
        step_ran(steps_ran(p, steps.drop_last()), steps.last())
    }
}

/// Steps behind others are carried out behind them.
proof fn lemma_ran_behind(p: Place, a: Seq<StepView>, b: Seq<StepView>)
    ensures
        steps_ran(p, a + b) == steps_ran(steps_ran(p, a), b),
    decreases b.len(),
{
    if b.len() == 0 {
        assert(a + b =~= a);
    } else {
        lemma_ran_behind(p, a, b.drop_last());
        assert((a + b).drop_last() =~= a + b.drop_last());
        assert((a + b).last() == b.last());
    }
}

/// Two and three steps, one after the other.
proof fn lemma_few(p: Place, a: StepView, b: StepView, c: StepView)
    ensures
        steps_ran(p, seq![a]) == step_ran(p, a),
        steps_ran(p, seq![a, b]) == step_ran(step_ran(p, a), b),
        steps_ran(p, seq![a, b, c]) == step_ran(step_ran(step_ran(p, a), b), c),
{
    reveal_with_fuel(steps_ran, 4);
    assert(seq![a].drop_last() =~= Seq::<StepView>::empty());
    assert(seq![a, b].drop_last() =~= seq![a]);
    assert(seq![a, b, c].drop_last() =~= seq![a, b]);
}

/// Different names below a directory are different paths.
proof fn lemma_paths_differ(dir: Seq<char>, a: Seq<char>, b: Seq<char>)
    requires
        a != b,
        a.len() > 0 ==> a[0] != '/',
        b.len() > 0 ==> b[0] != '/',
    ensures
        joined_path(dir, a) != joined_path(dir, b),
{
    let base = if dir.len() == 0 || dir.last() == '/' {
        dir
    } else {
        dir.push('/')
    };
    assert(joined_path(dir, a) == base + a && joined_path(dir, b) == base + b);
    assert((base + a).skip(base.len() as int) =~= a);
    assert((base + b).skip(base.len() as int) =~= b);
}

/// The names of the devices: which they are, and that they differ.
proof fn lemma_device_names()
    ensures
        STANDARD_DEVICES@.len() == 6,
        STANDARD_DEVICES@[0]@ == "null"@,
        STANDARD_DEVICES@[1]@ == "zero"@,
        STANDARD_DEVICES@[2]@ == "full"@,
        STANDARD_DEVICES@[3]@ == "random"@,
        STANDARD_DEVICES@[4]@ == "urandom"@,
        STANDARD_DEVICES@[5]@ == "tty"@,
        forall|i: int, j: int|
            0 <= i < j < 6 ==> #[trigger] STANDARD_DEVICES@[i]@ != #[trigger] STANDARD_DEVICES@[j]@,
        forall|i: int|
            0 <= i < 6 ==> (#[trigger] STANDARD_DEVICES@[i]@).len() > 0 && STANDARD_DEVICES@[i]@[0] != '/',
{
    reveal_strlit("null");
    reveal_strlit("zero");
    reveal_strlit("full");
    reveal_strlit("random");
    reveal_strlit("urandom");
    reveal_strlit("tty");
    assert("null"@[0] == 'n' && "zero"@[0] == 'z' && "full"@[0] == 'f');
    assert("random"@[0] == 'r' && "urandom"@[0] == 'u' && "tty"@[0] == 't');
    assert forall|i: int, j: int| 0 <= i < j < 6 implies #[trigger] STANDARD_DEVICES@[i]@
        != #[trigger] STANDARD_DEVICES@[j]@ by {
        assert(i == 0 || i == 1 || i == 2 || i == 3 || i == 4);
        assert(j == 1 || j == 2 || j == 3 || j == 4 || j == 5);
    }
    assert forall|i: int| 0 <= i < 6 implies (#[trigger] STANDARD_DEVICES@[i]@).len() > 0
        && STANDARD_DEVICES@[i]@[0] != '/' by {
        assert(i == 0 || i == 1 || i == 2 || i == 3 || i == 4 || i == 5);
    }
}

/// Whether a path of the host is what is shown at a place.
pub open spec fn shows_host(p: Place, target: Seq<char>, source: Seq<char>) -> bool {
    p.shown.contains_key(target) && p.shown[target] == (Shown {
        source: Some(source),
        kind: None,
        flags: 4096,
        data: None,
    })
}

/// Whether a place shows what it showed before.
pub open spec fn shows_the_same(p: Place, q: Place, target: Seq<char>) -> bool {
    p.shown.contains_key(target) == q.shown.contains_key(target) && p.shown[target] == q.shown[target]
}

/// The first `n` devices.
proof fn lemma_devices(p: Place, dev: Seq<char>, host: Seq<Seq<char>>, n: nat)
    requires
        n <= 6,
    ensures
        ({
            let q = steps_ran(p, device_steps(dev, host, n));
            &&& q.written == p.written
            &&& forall|k: int|
                0 <= k < n && host.contains(joined_path("/dev"@, #[trigger] STANDARD_DEVICES@[k]@)) ==> shows_host(
                    q,
                    joined_path(dev, STANDARD_DEVICES@[k]@),
                    joined_path("/dev"@, STANDARD_DEVICES@[k]@),
                )
            &&& forall|k: int|
                0 <= k < 6 && (k >= n || !host.contains(joined_path("/dev"@, #[trigger] STANDARD_DEVICES@[k]@)))
                    ==> shows_the_same(q, p, joined_path(dev, STANDARD_DEVICES@[k]@))
        }),
    decreases n,
{
    lemma_device_names();
    if n > 0 {
        lemma_devices(p, dev, host, (n - 1) as nat);
        let before = device_steps(dev, host, (n - 1) as nat);
        let m = n - 1;
        let name = STANDARD_DEVICES@[m]@;
        let source = joined_path("/dev"@, name);
        let target = joined_path(dev, name);
        let q = steps_ran(p, before);
        let discard = StepView::Discard(target);
        let create = StepView::CreateFile(target);
        let mount = bind_of(source, target, MS_BIND, "mount(bind device)"@);
        if host.contains(source) {
            lemma_ran_behind(p, before, seq![discard, create, mount]);
            lemma_few(q, discard, create, mount);
            assert forall|k: int| 0 <= k < 6 && k != m implies joined_path(dev, #[trigger] STANDARD_DEVICES@[k]@)
                != target by {
                if k < m {
                    assert(STANDARD_DEVICES@[k]@ != STANDARD_DEVICES@[m]@);
                } else {
                    assert(STANDARD_DEVICES@[m]@ != STANDARD_DEVICES@[k]@);
                }
                lemma_paths_differ(dev, STANDARD_DEVICES@[k]@, name);
            }
        }
    }
}

/// The container's `/dev` shows the host's null, zero, full, random, urandom
/// and tty devices, each that the host has, and leaves the others as they were.
pub proof fn host_devices_are_shown(p: Place, dev: Seq<char>, host: Seq<Seq<char>>)
    ensures
        ({
            let q = steps_ran(p, device_steps(dev, host, 6));
            let shows = |name: Seq<char>|
                if host.contains("/dev"@ + seq!['/'] + name) {
                    shows_host(q, joined_path(dev, name), "/dev"@ + seq!['/'] + name)
                } else {
                    shows_the_same(q, p, joined_path(dev, name))
                };
            &&& shows("null"@)
            &&& shows("zero"@)
            &&& shows("full"@)
            &&& shows("random"@)
            &&& shows("urandom"@)
            &&& shows("tty"@)
        }),
{
    lemma_device_names();
    lemma_devices(p, dev, host, 6);
    reveal_strlit("/dev");
    assert forall|k: int| 0 <= k < 6 implies joined_path("/dev"@, #[trigger] STANDARD_DEVICES@[k]@) == "/dev"@ + seq![
        '/',
    ] + STANDARD_DEVICES@[k]@ by {
        crate::paths::paths_are_seen_from_their_base("/dev"@, STANDARD_DEVICES@[k]@);
    }
    assert(STANDARD_DEVICES@[0]@ == "null"@);
    assert(STANDARD_DEVICES@[1]@ == "zero"@);
    assert(STANDARD_DEVICES@[2]@ == "full"@);
    assert(STANDARD_DEVICES@[3]@ == "random"@);
    assert(STANDARD_DEVICES@[4]@ == "urandom"@);
    assert(STANDARD_DEVICES@[5]@ == "tty"@);
}

/// The standard links lead where programs expect them to, whatever links stood
/// there before.
pub proof fn standard_links_lead_to_open_files(p: Place, dev: Seq<char>)
    ensures
        ({
            let q = steps_ran(p, link_steps(dev, 4));
            let leads = |name: Seq<char>, target: Seq<char>|
                q.links.contains_key(joined_path(dev, name)) && q.links[joined_path(dev, name)] == target;
            &&& leads("fd"@, "/proc/self/fd"@)
            &&& leads("stdin"@, "/proc/self/fd/0"@)
            &&& leads("stdout"@, "/proc/self/fd/1"@)
            &&& leads("stderr"@, "/proc/self/fd/2"@)
        }),
{
    reveal_strlit("fd");
    reveal_strlit("stdin");
    reveal_strlit("stdout");
    reveal_strlit("stderr");
    assert("fd"@[0] == 'f' && "stdin"@[0] == 's' && "stdout"@[0] == 's' && "stderr"@[0] == 's');
    assert("stdin"@.len() == 5 && "stdout"@.len() == 6 && "stderr"@.len() == 6);
    assert("stdout"@[3] == 'o' && "stderr"@[3] == 'e');
    let s = STANDARD_DEV_SYMLINKS@;
    assert(s[0].0@ == "fd"@ && s[0].1@ == "/proc/self/fd"@);
    assert(s[1].0@ == "stdin"@ && s[1].1@ == "/proc/self/fd/0"@);
    assert(s[2].0@ == "stdout"@ && s[2].1@ == "/proc/self/fd/1"@);
    assert(s[3].0@ == "stderr"@ && s[3].1@ == "/proc/self/fd/2"@);
    lemma_paths_differ(dev, "fd"@, "stdin"@);
    lemma_paths_differ(dev, "fd"@, "stdout"@);
    lemma_paths_differ(dev, "fd"@, "stderr"@);
    lemma_paths_differ(dev, "stdin"@, "stdout"@);
    lemma_paths_differ(dev, "stdin"@, "stderr"@);
    lemma_paths_differ(dev, "stdout"@, "stderr"@);
    lemma_link(p, dev, 1);
    lemma_link(p, dev, 2);
    lemma_link(p, dev, 3);
    lemma_link(p, dev, 4);
    assert(link_steps(dev, 0) =~= Seq::<StepView>::empty());
}

/// One more of the standard links.
proof fn lemma_link(p: Place, dev: Seq<char>, n: nat)
    requires
        1 <= n <= 4,
    ensures
        ({
            let before = steps_ran(p, link_steps(dev, (n - 1) as nat));
            let s = STANDARD_DEV_SYMLINKS@[n - 1];
            steps_ran(p, link_steps(dev, n)).links == before.links.insert(joined_path(dev, s.0@), s.1@)
        }),
{
    let s = STANDARD_DEV_SYMLINKS@[n - 1];
    let link = joined_path(dev, s.0@);
    let before = link_steps(dev, (n - 1) as nat);
    let q = steps_ran(p, before);
    let discard = StepView::Discard(link);
    let make = StepView::Link { link, target: s.1@ };
    lemma_ran_behind(p, before, seq![discard, make]);
    lemma_few(q, discard, make, make);
    assert(q.links.remove(link).insert(link, s.1@) =~= q.links.insert(link, s.1@));
}

/// The container looks names up as the host does: its `/etc/resolv.conf` shows
/// the host's.
pub proof fn names_are_looked_up_as_on_the_host(p: Place, merged: Seq<char>)
    ensures
        shows_host(
            steps_ran(p, resolver_steps(merged)),
            joined_path(merged, "etc/resolv.conf"@),
            "/etc/resolv.conf"@,
        ),
{
    let target = joined_path(merged, "etc/resolv.conf"@);
    let first = StepView::MakeDirs(joined_path(merged, "etc"@));
    let discard = StepView::Discard(target);
    let create = StepView::CreateFile(target);
    let mount = bind_of("/etc/resolv.conf"@, target, MS_BIND, "mount(bind resolv.conf)"@);
    assert(resolver_steps(merged) =~= seq![first] + seq![discard, create, mount]);
    lemma_ran_behind(p, seq![first], seq![discard, create, mount]);
    lemma_few(steps_ran(p, seq![first]), discard, create, mount);
}

/// Each secret is in a file of its own name below the directory, with its own
/// bytes, for its owner to read and nobody else.
pub proof fn secrets_are_readable_by_their_owner(p: Place, dir: Seq<char>, secrets: Seq<(String, Vec<u8>)>, i: int)
    requires
        0 <= i < secrets.len(),
        forall|j: int| 0 <= j < secrets.len() ==> (#[trigger] secrets[j]).0@.len() > 0 && secrets[j].0@[0] != '/',
        forall|j: int| i < j < secrets.len() ==> (#[trigger] secrets[j]).0@ != secrets[i].0@,
    ensures
        ({
            let q = steps_ran(p, secret_steps(dir, secrets));
            let path = joined_path(dir, secrets[i].0@);
            q.written.contains_key(path) && q.written[path] == (secrets[i].1@, 256u32)
        }),
    decreases secrets.len(),
{
    let before = secrets.drop_last();
    let steps = secret_steps(dir, secrets);
    assert(steps.drop_last() =~= secret_steps(dir, before));
    assert(steps.last() == (StepView::WriteFile {
        path: joined_path(dir, secrets.last().0@),
        content: secrets.last().1@,
        mode: 0o400u32,
    }));
    if i < before.len() {
        assert forall|j: int| 0 <= j < before.len() implies (#[trigger] before[j]).0@.len() > 0 && before[j].0@[0]
            != '/' by {
            assert(before[j] == secrets[j]);
        }
        assert forall|j: int| i < j < before.len() implies (#[trigger] before[j]).0@ != before[i].0@ by {
            assert(before[j] == secrets[j]);
        }
        secrets_are_readable_by_their_owner(p, dir, before, i);
        let last = secrets[secrets.len() - 1];
        lemma_paths_differ(dir, secrets[i].0@, last.0@);
    }
}

/// The options of an overlay mount are read as the layers in their order, the
/// writable layer and the scratch space beside it, where no path holds a
/// separator.
pub proof fn overlay_options_name_the_layers(lower: Seq<Seq<char>>, upper: Seq<char>, work: Seq<char>)
    requires
        lower.len() > 0,
        forall|i: int| 0 <= i < lower.len() ==> !(#[trigger] lower[i]).contains(':') && !lower[i].contains(','),
        !upper.contains(','),
        !work.contains(','),
    ensures
        ({
            let options = pieces(overlay_options(lower, upper, work), ',');
            &&& options.len() == 5
            &&& crate::text::without_prefix(options[0], "lowerdir="@) == Some(joined(lower, seq![':']))
            &&& pieces(joined(lower, seq![':']), ':') == lower
            &&& crate::text::without_prefix(options[1], "upperdir="@) == Some(upper)
            &&& crate::text::without_prefix(options[2], "workdir="@) == Some(work)
            &&& options[3] == "userxattr"@
            &&& options[4] == "xino=on"@
        }),
{
    let list = joined(lower, seq![':']);
    joined_pieces_come_back(lower, ':');
    assert(!list.contains(',')) by {
        lemma_joined_lacks(lower, ':', ',');
    }
    reveal_strlit(":");
    reveal_strlit("lowerdir=");
    reveal_strlit(",upperdir=");
    reveal_strlit("upperdir=");
    reveal_strlit(",workdir=");
    reveal_strlit("workdir=");
    reveal_strlit(",userxattr,xino=on");
    reveal_strlit("userxattr");
    reveal_strlit("xino=on");
    assert(":"@ =~= seq![':']);
    let a = "lowerdir="@ + list;
    let b = "upperdir="@ + upper;
    let c = "workdir="@ + work;
    let d = "userxattr"@;
    let e = "xino=on"@;
    let parts = seq![a, b, c, d, e];
    lemma_both_lack("lowerdir="@, list, ',');
    lemma_both_lack("upperdir="@, upper, ',');
    lemma_both_lack("workdir="@, work, ',');
    assert forall|i: int| 0 <= i < parts.len() implies !(#[trigger] parts[i]).contains(',') by {
        assert(i == 0 || i == 1 || i == 2 || i == 3 || i == 4);
    }
    joined_pieces_come_back(parts, ',');
    let t = overlay_options(lower, upper, work);
    lemma_five(a, b, c, d, e);
    assert(t =~= a + seq![','] + b + seq![','] + c + seq![','] + d + seq![','] + e);
    crate::text::prefixes_and_suffixes_come_off("lowerdir="@, list, a);
    crate::text::prefixes_and_suffixes_come_off("upperdir="@, upper, b);
    crate::text::prefixes_and_suffixes_come_off("workdir="@, work, c);
}

/// Five parts with commas between them.
proof fn lemma_five(a: Seq<char>, b: Seq<char>, c: Seq<char>, d: Seq<char>, e: Seq<char>)
    ensures
        joined(seq![a, b, c, d, e], seq![',']) == a + seq![','] + b + seq![','] + c + seq![','] + d + seq![','] + e,
{
    reveal_with_fuel(joined, 6);
    assert(seq![a, b, c, d, e].drop_last() =~= seq![a, b, c, d]);
    assert(seq![a, b, c, d].drop_last() =~= seq![a, b, c]);
    assert(seq![a, b, c].drop_last() =~= seq![a, b]);
    assert(seq![a, b].drop_last() =~= seq![a]);
}

/// A text of two parts lacks what both lack.
proof fn lemma_both_lack(a: Seq<char>, b: Seq<char>, c: char)
    requires
        forall|i: int| 0 <= i < a.len() ==> a[i] != c,
        !b.contains(c),
    ensures
        !(a + b).contains(c),
{
    let s = a + b;
    assert forall|i: int| 0 <= i < s.len() implies s[i] != c by {
        if i >= a.len() {
            assert(b.contains(b[i - a.len()]));
        }
    }
}

/// Joined parts lack what they and the separator lack.
proof fn lemma_joined_lacks(v: Seq<Seq<char>>, sep: char, c: char)
    requires
        sep != c,
        forall|i: int| 0 <= i < v.len() ==> !(#[trigger] v[i]).contains(c),
    ensures
        !joined(v, seq![sep]).contains(c),
    decreases v.len(),
{
    if v.len() > 1 {
        let before = v.drop_last();
        assert forall|i: int| 0 <= i < before.len() implies !(#[trigger] before[i]).contains(c) by {
            assert(before[i] == v[i]);
        }
        lemma_joined_lacks(before, sep, c);
        let head = joined(before, seq![sep]);
        assert forall|i: int| 0 <= i < head.len() implies head[i] != c by {
            assert(head.contains(head[i]));
        }
        let mid = head + seq![sep];
        assert(!v[v.len() - 1].contains(c));
        lemma_both_lack(mid, v.last(), c);
    }
}

// ---- The change of root ----------------------------------------------------

/// Where a process stands in the mount tree: its root and its directory, the
/// mount points and directories that were made, and where the old root and the
/// empty directory behind it are, if they are still there.
pub struct Standing {
    pub root: Seq<char>,
    pub dir: Seq<char>,
    pub mount_points: Set<Seq<char>>,
    pub made: Set<Seq<char>>,
    pub old_root: Option<Seq<char>>,
    pub left_behind: Option<Seq<char>>,
}

/// A process after a step of a change of root, or `None` where the step cannot
/// be carried out: the new root has to be a mount point, and the old root goes
/// to a directory below it; a directory can be removed once nothing is mounted
/// on it.
pub open spec fn moved(s: Standing, step: StepView) -> Option<Standing> {
    match step {
        StepView::Mount { source, target, kind, flags, data, call } => if source == Some(target) && flags == 20480 {
            Some(Standing { mount_points: s.mount_points.insert(target), ..s })
        } else {
            None
        },
        StepView::MakeDirs(d) => Some(Standing { made: s.made.insert(d), ..s }),
        StepView::ChangeDir { dir, call } => Some(Standing { dir, ..s }),
        StepView::PivotRoot { new_root, old_root } => if new_root == "."@ && s.mount_points.contains(s.dir)
            && s.made.contains(joined_path(s.dir, old_root)) && s.old_root is None {
            Some(
                Standing {
                    root: s.dir,
                    old_root: Some(seq!['/'] + old_root),
                    left_behind: Some(seq!['/'] + old_root),
                    ..s
                },
            )
        } else {
            None
        },
        StepView::Detach { target, call } => if s.old_root == Some(target) && s.dir == "/"@ {
            Some(Standing { old_root: None, ..s })
        } else {
            None
        },
        StepView::RemoveDir(d) => if s.left_behind == Some(d) && s.old_root is None {
            Some(Standing { left_behind: None, ..s })
        } else {
            None
        },
        _ => None,
    }
}

/// A process after several steps.
pub open spec fn all_moved(s: Standing, steps: Seq<StepView>) -> Option<Standing>
    decreases steps.len(),
{
    if steps.len() == 0 {
        Some(s)
    } else {
        match all_moved(s, steps.drop_last()) {
            Some(t) => moved(t, steps.last()),
            None => None,
        }
    }
}

/// One more step.
proof fn lemma_moved(s: Standing, steps: Seq<StepView>, k: int, t: Standing, u: Standing)
    requires
        0 <= k < steps.len(),
        all_moved(s, steps.take(k)) == Some(t),
        moved(t, steps[k]) == Some(u),
    ensures
        all_moved(s, steps.take(k + 1)) == Some(u),
{
    assert(steps.take(k + 1).drop_last() =~= steps.take(k));
    assert(steps.take(k + 1).last() == steps[k]);
}

/// After the change of root the process stands at the top of the new root, and
/// neither the old root nor the place it was moved to is left.
pub proof fn nothing_of_the_old_root_is_left(s: Standing, new_root: Seq<char>)
    requires
        s.old_root is None,
        s.left_behind is None,
    ensures
        ({
            let t = all_moved(s, pivot_steps(new_root));
            &&& t is Some
            &&& t->0.root == new_root
            &&& t->0.dir == "/"@
            &&& t->0.old_root is None
            &&& t->0.left_behind is None
        }),
{
    let steps = pivot_steps(new_root);
    assert(MS_BIND | MS_REC == 20480) by (bit_vector);
    reveal_strlit(".kiln-old-root");
    reveal_strlit("/.kiln-old-root");
    assert("/.kiln-old-root"@ =~= seq!['/'] + ".kiln-old-root"@);
    let place = joined_path(new_root, ".kiln-old-root"@);
    let a = Standing { mount_points: s.mount_points.insert(new_root), ..s };
    let b = Standing { made: a.made.insert(place), ..a };
    let c = Standing { dir: new_root, ..b };
    let old = Some("/.kiln-old-root"@);
    let d = Standing { root: new_root, old_root: old, left_behind: old, ..c };
    let e = Standing { dir: "/"@, ..d };
    let f = Standing { old_root: None, ..e };
    let g = Standing { left_behind: None, ..f };
    assert(steps.take(0) =~= Seq::<StepView>::empty());
    assert(all_moved(s, steps.take(0)) == Some(s));
    lemma_moved(s, steps, 0, s, a);
    lemma_moved(s, steps, 1, a, b);
    lemma_moved(s, steps, 2, b, c);
    lemma_moved(s, steps, 3, c, d);
    lemma_moved(s, steps, 4, d, e);
    lemma_moved(s, steps, 5, e, f);
    lemma_moved(s, steps, 6, f, g);
    assert(steps.take(7) =~= steps);
}

} // verus!
