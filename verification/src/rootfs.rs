//! A container's root filesystem: read-only layers under one writable layer,
//! merged into one view, which then becomes the process's root. Everything
//! here is a list of steps, carried out in order; the first that fails ends
//! the work, save where a step says otherwise.

use crate::error::RuntimeError;
use crate::paths::{joined_path, path_join};
use crate::store::listed;
use crate::text::{cat5, join, joined, views};
use vstd::prelude::*;

verus! {

/// Flags of a mount.
pub const MS_NOSUID: u64 = 2;
pub const MS_NODEV: u64 = 4;
pub const MS_NOEXEC: u64 = 8;
pub const MS_BIND: u64 = 4096;
pub const MS_REC: u64 = 16384;
pub const MS_PRIVATE: u64 = 262144;

/// The device nodes that almost every program takes for granted.
pub const STANDARD_DEVICES: [&'static str; 6] = ["null", "zero", "full", "random", "urandom", "tty"];

/// The standard links below `/dev`, and where each leads.
pub const STANDARD_DEV_SYMLINKS: [(&'static str, &'static str); 4] = [
    ("fd", "/proc/self/fd"),
    ("stdin", "/proc/self/fd/0"),
    ("stdout", "/proc/self/fd/1"),
    ("stderr", "/proc/self/fd/2"),
];

/// The paths of one overlay mount.
pub struct OverlaySpec {
    /// The read-only layers; where several hold a path, the first of them wins.
    pub lower_dirs: Vec<String>,
    /// The writable layer.
    pub upper_dir: String,
    /// Scratch space beside the writable layer, empty before the mount.
    pub work_dir: String,
    /// Where the merged view appears.
    pub merged_dir: String,
}

/// One step of the work. `call` is how a failure of the step is reported.
pub enum Step {
    /// Make a directory and what leads to it.
    MakeDirs(String),
    /// Mount something.
    Mount {
        source: Option<String>,
        target: String,
        kind: Option<String>,
        flags: u64,
        data: Option<String>,
        call: String,
    },
    /// Change the working directory.
    ChangeDir { dir: String, call: String },
    /// Swap the root, leaving the old one at the second path.
    PivotRoot { new_root: String, old_root: String },
    /// Unmount as soon as nothing refers to it any more.
    Detach { target: String, call: String },
    /// Remove an empty directory.
    RemoveDir(String),
    /// Remove a file if there is one; a failure does not matter.
    Discard(String),
    /// Make an empty file.
    CreateFile(String),
    /// Make a symbolic link.
    Link { link: String, target: String },
    /// Write a file and then set its mode.
    WriteFile { path: String, content: Vec<u8>, mode: u32 },
}

/// What a step does.
pub enum StepView {
    MakeDirs(Seq<char>),
    Mount {
        source: Option<Seq<char>>,
        target: Seq<char>,
        kind: Option<Seq<char>>,
        flags: u64,
        data: Option<Seq<char>>,
        call: Seq<char>,
    },
    ChangeDir { dir: Seq<char>, call: Seq<char> },
    PivotRoot { new_root: Seq<char>, old_root: Seq<char> },
    Detach { target: Seq<char>, call: Seq<char> },
    RemoveDir(Seq<char>),
    Discard(Seq<char>),
    CreateFile(Seq<char>),
    Link { link: Seq<char>, target: Seq<char> },
    WriteFile { path: Seq<char>, content: Seq<u8>, mode: u32 },
}

impl View for Step {
    type V = StepView;

    open spec fn view(&self) -> StepView {
        match *self {
            Step::MakeDirs(p) => StepView::MakeDirs(p@),
            Step::Mount { source, target, kind, flags, data, call } => StepView::Mount {
                source: crate::image::opt_text(source),
                target: target@,
                kind: crate::image::opt_text(kind),
                flags,
                data: crate::image::opt_text(data),
                call: call@,
            },
            Step::ChangeDir { dir, call } => StepView::ChangeDir { dir: dir@, call: call@ },
            Step::PivotRoot { new_root, old_root } => StepView::PivotRoot {
                new_root: new_root@,
                old_root: old_root@,
            },
            Step::Detach { target, call } => StepView::Detach { target: target@, call: call@ },
            Step::RemoveDir(p) => StepView::RemoveDir(p@),
            Step::Discard(p) => StepView::Discard(p@),
            Step::CreateFile(p) => StepView::CreateFile(p@),
            Step::Link { link, target } => StepView::Link { link: link@, target: target@ },
            Step::WriteFile { path, content, mode } => StepView::WriteFile { path: path@, content: content@, mode },
        }
    }
}

/// What a list of steps does.
pub open spec fn doing(steps: Seq<Step>) -> Seq<StepView> {
    steps.map_values(|s: Step| s@)
}

/// A mount of one directory or file onto another.
pub open spec fn bind_of(source: Seq<char>, target: Seq<char>, flags: u64, call: Seq<char>) -> StepView {
    StepView::Mount { source: Some(source), target, kind: None, flags, data: None, call }
}

/// A mount of one directory or file onto another.
fn bind(source: &str, target: &str, flags: u64, call: &str) -> (r: Step)
    ensures
        r@ == bind_of(source@, target@, flags, call@),
{
    Step::Mount {
        source: Some(source.to_owned()),
        target: target.to_owned(),
        kind: None,
        flags,
        data: None,
        call: call.to_owned(),
    }
}

/// A mount of a filesystem of its own.
pub open spec fn filesystem_of(
    kind: Seq<char>,
    target: Seq<char>,
    flags: u64,
    data: Option<Seq<char>>,
    call: Seq<char>,
) -> StepView {
    StepView::Mount { source: Some(kind), target, kind: Some(kind), flags, data, call }
}

/// A mount of a filesystem of its own.
fn filesystem(kind: &str, target: &str, flags: u64, data: Option<String>, call: &str) -> (r: Step)
    ensures
        r@ == filesystem_of(kind@, target@, flags, crate::image::opt_text(data), call@),
{
    Step::Mount {
        source: Some(kind.to_owned()),
        target: target.to_owned(),
        kind: Some(kind.to_owned()),
        flags,
        data,
        call: call.to_owned(),
    }
}

/// Adds a step.
proof fn lemma_push(steps: Seq<Step>, s: Step)
    ensures
        doing(steps.push(s)) == doing(steps).push(s@),
{
    assert(doing(steps.push(s)) =~= doing(steps).push(s@));
}

/// The options of an overlay mount. The bookkeeping lives in `user.*`
/// attributes, since the mount is made inside a user namespace, and inode
/// numbers are always the wide ones.
pub open spec fn overlay_options(lower: Seq<Seq<char>>, upper: Seq<char>, work: Seq<char>) -> Seq<char> {
    "lowerdir="@ + joined(lower, ":"@) + ",upperdir="@ + upper + ",workdir="@ + work + ",userxattr,xino=on"@
}

/// The mount of an overlay. It needs a layer at least.
pub fn mount_overlay(spec: &OverlaySpec) -> (r: Result<Step, RuntimeError>)
    ensures
        match r {
            Ok(s) => spec.lower_dirs@.len() > 0 && s@ == filesystem_of(
                "overlay"@,
                spec.merged_dir@,
                0,
                Some(overlay_options(views(spec.lower_dirs@), spec.upper_dir@, spec.work_dir@)),
                "mount(overlay)"@,
            ),
            Err(e) => spec.lower_dirs@.len() == 0 && (e matches RuntimeError::InvalidArgument(m) && m@
                == "overlay mount requires at least one lowerdir"@),
        },
{
    if spec.lower_dirs.len() == 0 {
        return Err(RuntimeError::InvalidArgument("overlay mount requires at least one lowerdir".to_owned()));
    }
    let lower = join(&spec.lower_dirs, ":");
    let head = cat5("lowerdir=", lower.as_str(), ",upperdir=", spec.upper_dir.as_str(), ",workdir=");
    let options = crate::text::cat3(head.as_str(), spec.work_dir.as_str(), ",userxattr,xino=on");
    Ok(filesystem("overlay", spec.merged_dir.as_str(), 0, Some(options), "mount(overlay)"))
}

/// Unmounts what is at `target`, as soon as nothing refers to it.
pub fn unmount(target: &str) -> (r: Step)
    ensures
        r@ == (StepView::Detach { target: target@, call: "umount2"@ }),
{
    Step::Detach { target: target.to_owned(), call: "umount2".to_owned() }
}

/// Cuts the mount tree off from the host's, before anything else is mounted.
pub fn make_mounts_private() -> (r: Step)
    ensures
        r@ == (StepView::Mount {
            source: None,
            target: "/"@,
            kind: None,
            flags: MS_PRIVATE | MS_REC,
            data: None,
            call: "mount(MS_PRIVATE)"@,
        }),
{
    Step::Mount {
        source: None,
        target: "/".to_owned(),
        kind: None,
        flags: MS_PRIVATE | MS_REC,
        data: None,
        call: "mount(MS_PRIVATE)".to_owned(),
    }
}

/// The change of root: the new root is made a mount point, the old root is
/// moved below it, and then detached and removed.
pub open spec fn pivot_steps(new_root: Seq<char>) -> Seq<StepView> {
    seq![
        bind_of(new_root, new_root, MS_BIND | MS_REC, "mount(bind self)"@),
        StepView::MakeDirs(joined_path(new_root, ".kiln-old-root"@)),
        StepView::ChangeDir { dir: new_root, call: "chdir(new_root)"@ },
        StepView::PivotRoot { new_root: "."@, old_root: ".kiln-old-root"@ },
        StepView::ChangeDir { dir: "/"@, call: "chdir(/)"@ },
        StepView::Detach { target: "/.kiln-old-root"@, call: "umount2(old root)"@ },
        StepView::RemoveDir("/.kiln-old-root"@),
    ]
}

/// The steps that make `new_root` the root of the process, with nothing of
/// the old root left.
pub fn pivot_root_into(new_root: &str) -> (r: Vec<Step>)
    ensures
        doing(r@) == pivot_steps(new_root@),
{
    let mut out: Vec<Step> = Vec::new();
    out.push(bind(new_root, new_root, MS_BIND | MS_REC, "mount(bind self)"));
    out.push(Step::MakeDirs(path_join(new_root, ".kiln-old-root")));
    out.push(Step::ChangeDir { dir: new_root.to_owned(), call: "chdir(new_root)".to_owned() });
    out.push(Step::PivotRoot { new_root: ".".to_owned(), old_root: ".kiln-old-root".to_owned() });
    out.push(Step::ChangeDir { dir: "/".to_owned(), call: "chdir(/)".to_owned() });
    out.push(Step::Detach { target: "/.kiln-old-root".to_owned(), call: "umount2(old root)".to_owned() });
    out.push(Step::RemoveDir("/.kiln-old-root".to_owned()));
    assert(doing(out@) =~= pivot_steps(new_root@));
    out
}

/// The steps that give the container a `/proc` of its own.
pub fn mount_proc(target: &str) -> (r: Vec<Step>)
    ensures
        doing(r@) == seq![
            StepView::MakeDirs(target@),
            filesystem_of("proc"@, target@, MS_NOSUID | MS_NODEV | MS_NOEXEC, None, "mount(proc)"@),
        ],
{
    let mut out: Vec<Step> = Vec::new();
    out.push(Step::MakeDirs(target.to_owned()));
    out.push(filesystem("proc", target, MS_NOSUID | MS_NODEV | MS_NOEXEC, None, "mount(proc)"));
    assert(doing(out@) =~= seq![
        StepView::MakeDirs(target@),
        filesystem_of("proc"@, target@, MS_NOSUID | MS_NODEV | MS_NOEXEC, None, "mount(proc)"@),
    ]);
    out
}

/// The steps that show the host directory `src` at `dest`, for a volume.
pub fn bind_mount(src: &str, dest: &str) -> (r: Vec<Step>)
    ensures
        doing(r@) == seq![
            StepView::MakeDirs(dest@),
            bind_of(src@, dest@, MS_BIND | MS_REC, "mount(bind volume)"@),
        ],
{
    let mut out: Vec<Step> = Vec::new();
    out.push(Step::MakeDirs(dest.to_owned()));
    out.push(bind(src, dest, MS_BIND | MS_REC, "mount(bind volume)"));
    assert(doing(out@) =~= seq![
        StepView::MakeDirs(dest@),
        bind_of(src@, dest@, MS_BIND | MS_REC, "mount(bind volume)"@),
    ]);
    out
}

/// The steps for the first `n` device nodes: each that the host has is shown
/// over a fresh empty file, and the others are left as they are.
pub open spec fn device_steps(dev: Seq<char>, host: Seq<Seq<char>>, n: nat) -> Seq<StepView>
    decreases n,
{
    if n == 0 {
        Seq::empty()
    } else {
        let before = device_steps(dev, host, (n - 1) as nat);
        let name = STANDARD_DEVICES@[n - 1]@;
        let source = joined_path("/dev"@, name);
        let target = joined_path(dev, name);
        if host.contains(source) {
            before + seq![
                StepView::Discard(target),
                StepView::CreateFile(target),
                bind_of(source, target, MS_BIND, "mount(bind device)"@),
            ]
        } else {
            before
        }
    }
}

/// The steps for the first `n` standard links.
pub open spec fn link_steps(dev: Seq<char>, n: nat) -> Seq<StepView>
    decreases n,
{
    if n == 0 {
        Seq::empty()
    } else {
        let p = STANDARD_DEV_SYMLINKS@[n - 1];
        let link = joined_path(dev, p.0@);
        link_steps(dev, (n - 1) as nat) + seq![StepView::Discard(link), StepView::Link { link, target: p.1@ }]
    }
}

/// The steps that fill the container's `/dev`, given which paths the host
/// has: the host's device nodes, since those of a layer do not work inside a
/// user namespace, and the standard links.
pub fn bind_mount_host_devices(merged_dir: &str, host: &Vec<String>) -> (r: Vec<Step>)
    ensures
        ({
            let dev = joined_path(merged_dir@, "dev"@);
            doing(r@) == seq![StepView::MakeDirs(dev)] + device_steps(dev, views(host@), 6) + link_steps(dev, 4)
        }),
{
    let dev = path_join(merged_dir, "dev");
    let ghost paths = views(host@);
    let mut out: Vec<Step> = Vec::new();
    out.push(Step::MakeDirs(dev.as_str().to_owned()));
    let ghost first = seq![StepView::MakeDirs(dev@)];
    assert(doing(out@) =~= first + device_steps(dev@, paths, 0));
    let mut i: usize = 0;
    while i < 6
        invariant
            i <= 6,
            paths == views(host@),
            doing(out@) == first + device_steps(dev@, paths, i as nat),
        decreases 6 - i,
    {
        let name = STANDARD_DEVICES[i];
        let source = path_join("/dev", name);
        if listed(host, source.as_str()) {
            let target = path_join(dev.as_str(), name);
            let ghost before = doing(out@);
            out.push(Step::Discard(target.as_str().to_owned()));
            out.push(Step::CreateFile(target.as_str().to_owned()));
            out.push(bind(source.as_str(), target.as_str(), MS_BIND, "mount(bind device)"));
            assert(doing(out@) =~= before + seq![
                StepView::Discard(target@),
                StepView::CreateFile(target@),
                bind_of(source@, target@, MS_BIND, "mount(bind device)"@),
            ]);
            assert(doing(out@) =~= first + device_steps(dev@, paths, (i + 1) as nat));
        }
        i += 1;
    }
    let ghost devices = first + device_steps(dev@, paths, 6);
    assert(doing(out@) =~= devices + link_steps(dev@, 0));
    let mut k: usize = 0;
    while k < 4
        invariant
            k <= 4,
            doing(out@) == devices + link_steps(dev@, k as nat),
        decreases 4 - k,
    {
        let (name, to) = STANDARD_DEV_SYMLINKS[k];
        let link = path_join(dev.as_str(), name);
        let ghost before = doing(out@);
        out.push(Step::Discard(link.as_str().to_owned()));
        out.push(Step::Link { link: link.as_str().to_owned(), target: to.to_owned() });
        assert(doing(out@) =~= before + seq![
            StepView::Discard(link@),
            StepView::Link { link: link@, target: to@ },
        ]);
        k += 1;
        assert(doing(out@) =~= devices + link_steps(dev@, k as nat));
    }
    out
}

/// The steps that show the host's `/etc/resolv.conf` in the container.
pub open spec fn resolver_steps(merged_dir: Seq<char>) -> Seq<StepView> {
    let target = joined_path(merged_dir, "etc/resolv.conf"@);
    seq![
        StepView::MakeDirs(joined_path(merged_dir, "etc"@)),
        StepView::Discard(target),
        StepView::CreateFile(target),
        bind_of("/etc/resolv.conf"@, target, MS_BIND, "mount(bind resolv.conf)"@),
    ]
}

/// The steps that make name lookups work in the container: none on a host
/// without `/etc/resolv.conf`.
pub fn bind_mount_host_resolv_conf(merged_dir: &str, host_has_one: bool) -> (r: Vec<Step>)
    ensures
        doing(r@) == (if host_has_one {
            resolver_steps(merged_dir@)
        } else {
            Seq::empty()
        }),
{
    let mut out: Vec<Step> = Vec::new();
    if !host_has_one {
        assert(doing(out@) =~= Seq::<StepView>::empty());
        return out;
    }
    let target = path_join(merged_dir, "etc/resolv.conf");
    out.push(Step::MakeDirs(path_join(merged_dir, "etc")));
    out.push(Step::Discard(target.as_str().to_owned()));
    out.push(Step::CreateFile(target.as_str().to_owned()));
    out.push(bind("/etc/resolv.conf", target.as_str(), MS_BIND, "mount(bind resolv.conf)"));
    assert(doing(out@) =~= resolver_steps(merged_dir@));
    out
}

/// The files that hold secrets, each readable by its owner alone.
pub open spec fn secret_steps(dir: Seq<char>, secrets: Seq<(String, Vec<u8>)>) -> Seq<StepView> {
    secrets.map_values(
        |s: (String, Vec<u8>)| StepView::WriteFile { path: joined_path(dir, s.0@), content: s.1@, mode: 0o400u32 },
    )
}

/// The steps that put secrets below `/run/secrets`, in memory only: nothing
/// of them reaches the disk. None without secrets.
pub fn mount_tmpfs_secrets(merged_dir: &str, secrets: &Vec<(String, Vec<u8>)>) -> (r: Vec<Step>)
    ensures
        doing(r@) == (if secrets@.len() == 0 {
            Seq::empty()
        } else {
            let dir = joined_path(joined_path(merged_dir@, "run"@), "secrets"@);
            seq![
                StepView::MakeDirs(dir),
                filesystem_of(
                    "tmpfs"@,
                    dir,
                    MS_NOSUID | MS_NODEV | MS_NOEXEC,
                    Some("mode=0700,size=1m"@),
                    "mount(tmpfs secrets)"@,
                ),
            ] + secret_steps(dir, secrets@)
        }),
{
    let mut out: Vec<Step> = Vec::new();
    if secrets.len() == 0 {
        assert(doing(out@) =~= Seq::<StepView>::empty());
        return out;
    }
    let run = path_join(merged_dir, "run");
    let dir = path_join(run.as_str(), "secrets");
    let options = Some("mode=0700,size=1m".to_owned());
    out.push(Step::MakeDirs(dir.as_str().to_owned()));
    out.push(
        filesystem("tmpfs", dir.as_str(), MS_NOSUID | MS_NODEV | MS_NOEXEC, options, "mount(tmpfs secrets)"),
    );
    let ghost head = doing(out@);
    let ghost files = secret_steps(dir@, secrets@);
    let mut i: usize = 0;
    assert(head + files.take(0) =~= head);
    while i < secrets.len()
        invariant
            i <= secrets@.len(),
            files == secret_steps(dir@, secrets@),
            doing(out@) == head + files.take(i as int),
        decreases secrets.len() - i,
    {
        let path = path_join(dir.as_str(), secrets[i].0.as_str());
        let content = vstd::slice::slice_to_vec(secrets[i].1.as_slice());
        let s = Step::WriteFile { path, content, mode: 0o400 };
        proof {
            lemma_push(out@, s);
            assert(files.take(i + 1) =~= files.take(i as int).push(s@));
        }
        out.push(s);
        i += 1;
        assert(doing(out@) =~= head + files.take(i as int));
    }
    proof {
        assert(files.take(i as int) =~= files);
        assert(head =~= seq![
            StepView::MakeDirs(dir@),
            filesystem_of(
                "tmpfs"@,
                dir@,
                MS_NOSUID | MS_NODEV | MS_NOEXEC,
                Some("mode=0700,size=1m"@),
                "mount(tmpfs secrets)"@,
            ),
        ]);
    }
    out
}

} // verus!
