//! Layers as other tools exchange them: gzipped tar archives, in which a
//! deletion is an empty file with a marked name.
//!
//! An empty `.wh.<name>` stands for the deletion of `<name>`, and
//! `.wh..wh..opq` inside a directory makes that directory opaque. A hard link
//! repeats content that the same archive holds under an earlier name; here it
//! becomes a file entry with the same blob.

use crate::archive::{
    all_faithful, append_link, append_member, faithful, finish_archive, kept_parts, link_fault, member_views, members,
    name_fault, new_archive, packed, read_archive, read_back, read_backs, recordable, recordable_target, recorded_path,
    written, MemberView, Packer, RecordView, TarRecord, Written, CONTINUOUS, DIRECTORY, HARD_LINK, PAX_GLOBAL_HEADER,
    PAX_HEADER, REGULAR, SYMLINK,
};
use crate::codec::{quoted, quoted_text};
use crate::error::Error;
use crate::layer::{entry_views, in_order, sort_entries, Entry, EntryKind, EntryView, KindView, LayerManifest};
use crate::order::reversed;
use crate::registry::{digest_of, digest_refusal, verify_digest};
use crate::store::{permission_bits, sha256};
use crate::text::{
    cat2, cat3, cat4, cat5, chars_of, cut_last, joined, lemma_pieces_append, pieces, rsplit_once, str_eq, string_of,
    strip_prefix, views, without_prefix,
};
use vstd::prelude::*;

verus! {

/// A path without the `./` in front of it, however often that is repeated.
pub open spec fn without_dots(s: Seq<char>) -> Seq<char>
    decreases s.len(),
{
    if s.len() >= 2 && s[0] == '.' && s[1] == '/' {
        without_dots(s.skip(2))
    } else {
        s
    }
}

/// A path without the `./` in front of it.
fn trim_dots(s: &str) -> (r: String)
    ensures
        r@ == without_dots(s@),
{
    let chars = chars_of(s);
    let mut i: usize = 0;
    assert(s@.skip(0) =~= s@);
    while chars.len() - i >= 2 && chars[i] == '.' && chars[i + 1] == '/'
        invariant
            i <= chars@.len(),
            chars@ == s@,
            without_dots(s@.skip(i as int)) == without_dots(s@),
        decreases chars.len() - i,
    {
        assert(s@.skip(i as int).skip(2) =~= s@.skip(i + 2));
        i += 2;
    }
    proof {
        let rest = s@.skip(i as int);
        assert(rest.len() >= 2 ==> rest[0] == s@[i as int] && rest[1] == s@[i + 1]);
        assert(rest =~= s@.subrange(i as int, s@.len() as int));
    }
    string_of(&chars, i, chars.len())
}

/// A path's directory, empty if there is none, and its last part.
pub open spec fn dir_and_base(path: Seq<char>) -> (Seq<char>, Seq<char>) {
    match cut_last(path, '/') {
        Some((dir, base)) => (dir, base),
        None => (Seq::empty(), path),
    }
}

/// A path's directory, empty if there is none, and its last part.
pub fn split_path(path: &str) -> (r: (String, String))
    ensures
        (r.0@, r.1@) == dir_and_base(path@),
{
    match rsplit_once(path, '/') {
        Some((dir, base)) => (dir.to_owned(), base.to_owned()),
        None => {
            let r = (String::new(), path.to_owned());
            assert(r.0@ =~= Seq::<char>::empty());
            r
        },
    }
}

// ---- From an archive to a layer --------------------------------------------

/// What a member of an archive means for the layer.
pub enum Meaning {
    /// Nothing at all.
    Nothing,
    /// One more entry.
    Add(EntryView),
    /// The directory of this path is opaque.
    Opaque(Seq<char>),
    /// The layer cannot be read: why.
    Refused(Seq<char>),
    /// A file's content cannot be read: why.
    Unreadable(Seq<char>),
}

/// The blob and size of the latest file entry for `path`.
pub open spec fn file_at(entries: Seq<EntryView>, path: Seq<char>) -> Option<(Seq<u8>, u64)>
    decreases entries.len(),
{
    if entries.len() == 0 {
        None
    } else {
        match entries.last().kind {
            KindView::File { blob, size } if entries.last().path == path => Some((blob, size)),
            _ => file_at(entries.drop_last(), path),
        }
    }
}

/// `name` in directory `dir`.
pub open spec fn in_dir(dir: Seq<char>, name: Seq<char>) -> Seq<char> {
    if dir.len() == 0 {
        name
    } else {
        dir + "/"@ + name
    }
}

/// A path without the slashes at its end.
pub open spec fn bare(path: Seq<char>) -> Seq<char>
    decreases path.len(),
{
    if path.len() > 0 && path.last() == '/' {
        bare(path.drop_last())
    } else {
        path
    }
}

/// The path of a directory, which archives name with a slash at the end: the
/// slash goes, unless it is all there is.
pub open spec fn directory_path(path: Seq<char>) -> Seq<char> {
    if bare(path).len() == 0 {
        path
    } else {
        bare(path)
    }
}

/// What a member means, behind the entries that earlier members added.
pub open spec fn meaning(m: RecordView, digest: Seq<char>, entries: Seq<EntryView>) -> Meaning {
    let path = without_dots(m.path);
    let (dir, base) = dir_and_base(path);
    let mode = permission_bits(
        match m.mode {
            Some(x) => x,
            None => 0o644,
        },
    );
    let uid = (match m.uid {
        Some(x) => x,
        None => 0,
    }) as u32;
    let gid = (match m.gid {
        Some(x) => x,
        None => 0,
    }) as u32;
    let link = match m.link {
        Some(t) => t,
        None => Seq::empty(),
    };
    if path.len() == 0 || path == "."@ {
        Meaning::Nothing
    } else if base == ".wh..wh..opq"@ {
        Meaning::Opaque(dir)
    } else if without_prefix(base, ".wh."@) is Some {
        let gone = in_dir(dir, without_prefix(base, ".wh."@)->0);
        Meaning::Add(EntryView { path: gone, mode: 0, uid: 0, gid: 0, kind: KindView::Whiteout })
    } else if m.kind == DIRECTORY {
        Meaning::Add(
            EntryView { path: directory_path(path), mode, uid, gid, kind: KindView::Dir { opaque: false } },
        )
    } else if m.kind == SYMLINK {
        Meaning::Add(EntryView { path, mode, uid, gid, kind: KindView::Symlink { target: link } })
    } else if m.kind == HARD_LINK {
        let target = without_dots(link);
        match file_at(entries, target) {
            Some((blob, size)) => Meaning::Add(
                EntryView { path, mode, uid, gid, kind: KindView::File { blob, size } },
            ),
            None => Meaning::Refused(
                "layer "@ + digest + ": hardlink "@ + quoted_text(path) + " -> "@ + quoted_text(target)
                    + " references a path not seen earlier in the same layer (cross-layer hardlinks are not supported)"@,
            ),
        }
    } else if m.kind == REGULAR || m.kind == CONTINUOUS {
        let size = match m.size {
            Some(x) => x,
            None => 0,
        };
        match m.content {
            Ok(c) => Meaning::Add(
                EntryView { path, mode, uid, gid, kind: KindView::File { blob: sha256(c), size } },
            ),
            Err(e) => Meaning::Unreadable(e),
        }
    } else if m.kind == PAX_GLOBAL_HEADER || m.kind == PAX_HEADER {
        Meaning::Nothing
    } else {
        Meaning::Refused(
            "layer "@ + digest + ": unsupported tar entry type "@ + m.kind_name + " at "@ + quoted_text(path),
        )
    }
}

/// Whether a member's content goes into the store.
pub open spec fn brings_content(m: RecordView) -> bool {
    (m.kind == REGULAR || m.kind == CONTINUOUS) && (m.content is Ok) && without_dots(m.path).len() > 0
        && without_dots(m.path) != "."@ && without_prefix(dir_and_base(without_dots(m.path)).1, ".wh."@) is None
}

/// What is known of a layer part way through its archive: the entries so
/// far, the directories marked opaque, and the contents to store.
#[verifier::ext_equal]
pub struct Unpacking {
    pub entries: Seq<EntryView>,
    pub opaque: Seq<Seq<char>>,
    pub contents: Seq<Seq<u8>>,
}

/// Why an archive is no layer.
pub enum UnpackFault {
    Message(Seq<char>),
    Content(Seq<char>),
}

/// What one more item of the archive adds.
pub open spec fn unpack_step(s: Unpacking, m: MemberView, digest: Seq<char>) -> Result<Unpacking, UnpackFault> {
    match m {
        Err(e) => Err(UnpackFault::Message("reading tar entry in "@ + digest + ": "@ + e)),
        Ok(record) => match meaning(record, digest, s.entries) {
            Meaning::Nothing => Ok(s),
            Meaning::Add(e) => Ok(
                Unpacking {
                    entries: s.entries.push(e),
                    opaque: s.opaque,
                    contents: if brings_content(record) {
                        s.contents.push(record.content->Ok_0)
                    } else {
                        s.contents
                    },
                },
            ),
            Meaning::Opaque(dir) => Ok(Unpacking { opaque: s.opaque.push(dir), ..s }),
            Meaning::Refused(m) => Err(UnpackFault::Message(m)),
            Meaning::Unreadable(m) => Err(UnpackFault::Content(m)),
        },
    }
}

/// What the items of an archive come to, up to the first that is refused.
pub open spec fn unpack_run(items: Seq<MemberView>, digest: Seq<char>) -> Result<Unpacking, UnpackFault>
    decreases items.len(),
{
    if items.len() == 0 {
        Ok(Unpacking { entries: Seq::empty(), opaque: Seq::empty(), contents: Seq::empty() })
    } else {
        match unpack_run(items.drop_last(), digest) {
            Ok(s) => unpack_step(s, items.last(), digest),
            Err(f) => Err(f),
        }
    }
}

/// A path without the slashes at its end.
fn bare_path(path: &str) -> (r: String)
    ensures
        r@ == bare(path@),
{
    let chars = chars_of(path);
    let mut n: usize = chars.len();
    assert(path@.take(n as int) =~= path@);
    while n > 0 && chars[n - 1] == '/'
        invariant
            n <= chars@.len(),
            chars@ == path@,
            bare(path@.take(n as int)) == bare(path@),
        decreases n,
    {
        assert(path@.take(n as int).drop_last() =~= path@.take(n - 1));
        n -= 1;
    }
    assert(path@.take(n as int) =~= path@.subrange(0, n as int));
    string_of(&chars, 0, n)
}

/// The index of the first entry for directory `path`, whatever slashes are at
/// its end.
pub open spec fn dir_index(entries: Seq<EntryView>, path: Seq<char>) -> Option<int>
    decreases entries.len(),
{
    if entries.len() == 0 {
        None
    } else {
        match dir_index(entries.drop_last(), path) {
            Some(i) => Some(i),
            None => if bare(entries.last().path) == bare(path) && entries.last().kind is Dir {
                Some(entries.len() - 1)
            } else {
                None
            },
        }
    }
}

/// The entry of a directory that only its opaque marker speaks of.
pub open spec fn opaque_entry(dir: Seq<char>) -> EntryView {
    EntryView { path: dir, mode: 0o755, uid: 0, gid: 0, kind: KindView::Dir { opaque: true } }
}

/// The entries with `dir` marked opaque.
pub open spec fn with_opaque(entries: Seq<EntryView>, dir: Seq<char>) -> Seq<EntryView> {
    match dir_index(entries, dir) {
        Some(i) => entries.update(i, EntryView { kind: KindView::Dir { opaque: true }, ..entries[i] }),
        None => entries.push(opaque_entry(dir)),
    }
}

/// The entries with each of `dirs` marked opaque.
pub open spec fn with_opaques(entries: Seq<EntryView>, dirs: Seq<Seq<char>>) -> Seq<EntryView>
    decreases dirs.len(),
{
    if dirs.len() == 0 {
        entries
    } else {
        with_opaque(with_opaques(entries, dirs.drop_last()), dirs.last())
    }
}

/// The manifest that a finished run over an archive leads to.
pub open spec fn unpacked_entries(s: Unpacking) -> Seq<EntryView> {
    in_order(with_opaques(s.entries, s.opaque))
}

/// A failure as it is reported; `temporary` is where content is staged.
pub open spec fn unpack_error(f: UnpackFault, temporary: Seq<char>, e: Error) -> bool {
    match f {
        UnpackFault::Message(m) => e matches Error::Registry(t) && t@ == m,
        UnpackFault::Content(m) => e matches Error::Io { path, message } && path@ == temporary && message@ == m,
    }
}

/// A layer read from an archive: its manifest, and the file contents to put
/// into the store before it.
pub struct UnpackedLayer {
    pub manifest: LayerManifest,
    pub contents: Vec<Vec<u8>>,
}

/// The contents of byte vectors.
pub open spec fn byte_views(v: Seq<Vec<u8>>) -> Seq<Seq<u8>> {
    v.map_values(|b: Vec<u8>| b@)
}

/// What has been read so far.
struct Progress {
    entries: Vec<Entry>,
    opaque: Vec<String>,
    contents: Vec<Vec<u8>>,
}

impl Progress {
    spec fn now(&self) -> Unpacking {
        Unpacking {
            entries: entry_views(self.entries@),
            opaque: views(self.opaque@),
            contents: byte_views(self.contents@),
        }
    }
}

/// The blob and size of the latest file entry for `path`.
fn find_file(entries: &Vec<Entry>, path: &str) -> (r: Option<(crate::store::Hash, u64)>)
    ensures
        match r {
            Some(f) => file_at(entry_views(entries@), path@) == Some((f.0@, f.1)),
            None => file_at(entry_views(entries@), path@) is None,
        },
{
    let ghost all = entry_views(entries@);
    let mut n: usize = entries.len();
    assert(all.take(n as int) =~= all);
    while n > 0
        invariant
            n <= entries@.len(),
            all == entry_views(entries@),
            file_at(all.take(n as int), path@) == file_at(all, path@),
        decreases n,
    {
        let e = &entries[n - 1];
        proof {
            assert(all.take(n as int).last() == e@);
            assert(all.take(n as int).drop_last() =~= all.take(n - 1));
        }
        match &e.kind {
            EntryKind::File { blob, size } => {
                if str_eq(e.path.as_str(), path) {
                    return Some((*blob, *size));
                }
            },
            _ => {},
        }
        n -= 1;
    }
    None
}

/// Takes one more member of the archive in.
fn take_member(p: &mut Progress, m: TarRecord, digest: &str, temporary: &str) -> (r: Result<(), Error>)
    ensures
        match r {
            Ok(_) => unpack_step(old(p).now(), Ok(m@), digest@) == Ok::<Unpacking, UnpackFault>(final(p).now()),
            Err(e) => unpack_step(old(p).now(), Ok(m@), digest@) matches Err(f) && unpack_error(
                f,
                temporary@,
                e,
            ),
        },
{
    let ghost record = m@;
    let ghost before = p.now();
    proof {
        reveal_strlit(".");
        reveal_strlit(".wh.");
        reveal_strlit(".wh..wh..opq");
    }
    let path = trim_dots(m.path.as_str());
    if path.as_str().unicode_len() == 0 || str_eq(path.as_str(), ".") {
        return Ok(());
    }
    let mode: u32 = (match m.mode {
        Some(x) => x,
        None => 0o644,
    }) & 0o7777;
    let uid: u32 = (match m.uid {
        Some(x) => x,
        None => 0,
    }) as u32;
    let gid: u32 = (match m.gid {
        Some(x) => x,
        None => 0,
    }) as u32;
    let (dir, base) = split_path(path.as_str());
    match strip_prefix(base.as_str(), ".wh.") {
        Some(stripped) => {
            if str_eq(base.as_str(), ".wh..wh..opq") {
                p.opaque.push(dir);
                assert(p.now() =~= (Unpacking { opaque: before.opaque.push(dir@), ..before }));
            } else {
                let gone = if dir.as_str().unicode_len() == 0 {
                    stripped.to_owned()
                } else {
                    cat3(dir.as_str(), "/", stripped)
                };
                let e = Entry { path: gone, mode: 0, uid: 0, gid: 0, kind: EntryKind::Whiteout };
                p.entries.push(e);
                assert(p.now() =~= (Unpacking { entries: before.entries.push(e@), ..before }));
            }
            return Ok(());
        },
        None => {
            assert(".wh."@.is_prefix_of(".wh..wh..opq"@));
        },
    }
    if m.kind == DIRECTORY {
        let cut = bare_path(path.as_str());
        let path = if cut.as_str().unicode_len() == 0 {
            path
        } else {
            cut
        };
        let e = Entry { path, mode, uid, gid, kind: EntryKind::Dir { opaque: false } };
        p.entries.push(e);
        assert(p.now() =~= (Unpacking { entries: before.entries.push(e@), ..before }));
        Ok(())
    } else if m.kind == SYMLINK {
        let target = match m.link {
            Some(t) => t,
            None => String::new(),
        };
        assert(record.link is None ==> target@ =~= Seq::<char>::empty());
        let e = Entry { path, mode, uid, gid, kind: EntryKind::Symlink { target } };
        p.entries.push(e);
        assert(p.now() =~= (Unpacking { entries: before.entries.push(e@), ..before }));
        Ok(())
    } else if m.kind == HARD_LINK {
        let link = match m.link {
            Some(t) => t,
            None => String::new(),
        };
        assert(record.link is None ==> link@ =~= Seq::<char>::empty());
        let target = trim_dots(link.as_str());
        match find_file(&p.entries, target.as_str()) {
            Some((blob, size)) => {
                let e = Entry { path, mode, uid, gid, kind: EntryKind::File { blob, size } };
                p.entries.push(e);
                assert(p.now() =~= (Unpacking { entries: before.entries.push(e@), ..before }));
                Ok(())
            },
            None => {
                let from = quoted(path.as_str());
                let to = quoted(target.as_str());
                let head = cat5("layer ", digest, ": hardlink ", from.as_str(), " -> ");
                let text = cat3(
                    head.as_str(),
                    to.as_str(),
                    " references a path not seen earlier in the same layer (cross-layer hardlinks are not supported)",
                );
                Err(Error::Registry(text))
            },
        }
    } else if m.kind == REGULAR || m.kind == CONTINUOUS {
        let size: u64 = match m.size {
            Some(x) => x,
            None => 0,
        };
        match m.content {
            Ok(content) => {
                let blob = crate::store::Hash::of_bytes(content.as_slice());
                let e = Entry { path, mode, uid, gid, kind: EntryKind::File { blob, size } };
                p.entries.push(e);
                p.contents.push(content);
                assert(p.now() =~= (Unpacking {
                    entries: before.entries.push(e@),
                    contents: before.contents.push(content@),
                    ..before
                }));
                Ok(())
            },
            Err(text) => Err(Error::io(temporary, text.as_str())),
        }
    } else if m.kind == PAX_GLOBAL_HEADER || m.kind == PAX_HEADER {
        Ok(())
    } else {
        let at = quoted(path.as_str());
        let head = cat4("layer ", digest, ": unsupported tar entry type ", m.kind_name.as_str());
        Err(Error::Registry(cat3(head.as_str(), " at ", at.as_str())))
    }
}

/// The first failure of a run stays its outcome.
proof fn lemma_fault_stays(items: Seq<MemberView>, n: int, digest: Seq<char>)
    requires
        0 <= n <= items.len(),
        unpack_run(items.take(n), digest) is Err,
    ensures
        unpack_run(items, digest) == unpack_run(items.take(n), digest),
    decreases items.len(),
{
    if n == items.len() {
        assert(items.take(n) =~= items);
    } else {
        assert(items.drop_last().take(n) =~= items.take(n));
        lemma_fault_stays(items.drop_last(), n, digest);
    }
}

/// Marks `dir` opaque: its first directory entry, or a new one.
fn mark_opaque(entries: &mut Vec<Entry>, dir: String)
    ensures
        entry_views(final(entries)@) == with_opaque(entry_views(old(entries)@), dir@),
{
    let ghost all = entry_views(entries@);
    let name = bare_path(dir.as_str());
    let mut i: usize = 0;
    assert(all.take(0) =~= Seq::<EntryView>::empty());
    while i < entries.len()
        invariant
            i <= entries@.len(),
            entries@ == old(entries)@,
            all == entry_views(entries@),
            name@ == bare(dir@),
            dir_index(all.take(i as int), dir@) is None,
        decreases entries.len() - i,
    {
        proof {
            assert(all.take(i + 1).drop_last() =~= all.take(i as int));
            assert(all.take(i + 1).last() == entries@[i as int]@);
        }
        let is_dir = match &entries[i].kind {
            EntryKind::Dir { opaque } => true,
            _ => false,
        };
        if is_dir && str_eq(bare_path(entries[i].path.as_str()).as_str(), name.as_str()) {
            proof {
                lemma_dir_index_stays(all, i + 1, dir@);
            }
            let path = entries[i].path.clone();
            let e = Entry {
                path,
                mode: entries[i].mode,
                uid: entries[i].uid,
                gid: entries[i].gid,
                kind: EntryKind::Dir { opaque: true },
            };
            entries.set(i, e);
            assert(entry_views(entries@) =~= all.update(i as int, e@));
            return;
        }
        i += 1;
    }
    assert(all.take(i as int) =~= all);
    let e = Entry { path: dir, mode: 0o755, uid: 0, gid: 0, kind: EntryKind::Dir { opaque: true } };
    entries.push(e);
    assert(entry_views(entries@) =~= all.push(e@));
}

/// The first directory entry for a path stays the first.
proof fn lemma_dir_index_stays(entries: Seq<EntryView>, n: int, path: Seq<char>)
    requires
        0 <= n <= entries.len(),
        dir_index(entries.take(n), path) is Some,
    ensures
        dir_index(entries, path) == dir_index(entries.take(n), path),
    decreases entries.len(),
{
    if n == entries.len() {
        assert(entries.take(n) =~= entries);
    } else {
        assert(entries.drop_last().take(n) =~= entries.take(n));
        lemma_dir_index_stays(entries.drop_last(), n, path);
    }
}

/// The layer that the items read from an archive describe. `digest` is the
/// archive's own, for messages; `temporary` is where content is staged.
pub fn unpack_layer(items: Vec<Result<TarRecord, String>>, digest: &str, temporary: &str) -> (r: Result<
    UnpackedLayer,
    Error,
>)
    ensures
        match r {
            Ok(u) => unpack_run(member_views(items@), digest@) matches Ok(s) && u.manifest@ == unpacked_entries(s)
                && byte_views(u.contents@) == s.contents,
            Err(e) => unpack_run(member_views(items@), digest@) matches Err(f) && unpack_error(f, temporary@, e),
        },
{
    let ghost all = member_views(items@);
    let ghost raw = items@;
    let mut rest = reversed(items);
    let mut p = Progress { entries: Vec::new(), opaque: Vec::new(), contents: Vec::new() };
    let mut done: usize = 0;
    proof {
        assert(all.take(0) =~= Seq::<MemberView>::empty());
        assert(p.now() =~= (Unpacking { entries: Seq::empty(), opaque: Seq::empty(), contents: Seq::empty() }));
    }
    let total: usize = rest.len();
    while rest.len() > 0
        invariant
            all == member_views(raw),
            raw == items@,
            total == raw.len(),
            done + rest@.len() == total,
            rest@ == raw.reverse().take(rest@.len() as int),
            unpack_run(all.take(done as int), digest@) == Ok::<Unpacking, UnpackFault>(p.now()),
        decreases rest@.len(),
    {
        let ghost before = rest@;
        match rest.pop() {
            Some(item) => {
                proof {
                    assert(item == raw[done as int]);
                    assert(rest@ =~= raw.reverse().take(rest@.len() as int));
                    assert(all.take(done + 1).drop_last() =~= all.take(done as int));
                    assert(all.take(done + 1).last() == all[done as int]);
                }
                match item {
                    Ok(record) => {
                        assert(all[done as int] == Ok::<RecordView, Seq<char>>(record@));
                        match take_member(&mut p, record, digest, temporary) {
                            Ok(_) => {},
                            Err(e) => {
                                proof {
                                    lemma_fault_stays(all, done + 1, digest@);
                                }
                                return Err(e);
                            },
                        }
                    },
                    Err(text) => {
                        proof {
                            assert(all[done as int] == Err::<RecordView, Seq<char>>(text@));
                            lemma_fault_stays(all, done + 1, digest@);
                        }
                        return Err(Error::Registry(cat4("reading tar entry in ", digest, ": ", text.as_str())));
                    },
                }
            },
            None => {},
        }
        done += 1;
    }
    assert(all.take(done as int) =~= all);
    let ghost s = p.now();
    let mut entries = p.entries;
    let mut k: usize = 0;
    assert(s.opaque.take(0) =~= Seq::<Seq<char>>::empty());
    while k < p.opaque.len()
        invariant
            k <= p.opaque@.len(),
            s.opaque == views(p.opaque@),
            entry_views(entries@) == with_opaques(s.entries, s.opaque.take(k as int)),
        decreases p.opaque.len() - k,
    {
        proof {
            assert(s.opaque.take(k + 1).drop_last() =~= s.opaque.take(k as int));
            assert(s.opaque.take(k + 1).last() == p.opaque@[k as int]@);
        }
        mark_opaque(&mut entries, p.opaque[k].clone());
        k += 1;
    }
    assert(s.opaque.take(k as int) =~= s.opaque);
    let manifest = LayerManifest { entries: sort_entries(entries) };
    Ok(UnpackedLayer { manifest, contents: p.contents })
}

/// The layer in a gzipped archive: what [`unpack_layer`] makes of its
/// members. Bytes that are not what the digest promises are no layer.
pub fn pull_layer(blob: &[u8], digest: &str, temporary: &str) -> (r: Result<UnpackedLayer, Error>)
    ensures
        digest@ != digest_of(blob@) ==> (r matches Err(Error::Registry(m)) && m@ == digest_refusal(digest@, blob@)),
        digest@ == digest_of(blob@) ==> match r {
            Ok(u) => unpack_run(members(blob@), digest@) matches Ok(s) && u.manifest@ == unpacked_entries(s)
                && byte_views(u.contents@) == s.contents,
            Err(e) => unpack_run(members(blob@), digest@) matches Err(f) && unpack_error(f, temporary@, e),
        },
{
    match verify_digest(digest, blob) {
        Ok(_) => {},
        Err(e) => {
            return Err(e);
        },
    }
    let items = read_archive(blob);
    unpack_layer(items, digest, temporary)
}

// ---- From a layer to an archive --------------------------------------------

/// The path of the first file entry with this blob.
pub open spec fn first_path(entries: Seq<EntryView>, blob: Seq<u8>) -> Option<Seq<char>>
    decreases entries.len(),
{
    if entries.len() == 0 {
        None
    } else {
        match first_path(entries.drop_last(), blob) {
            Some(p) => Some(p),
            None => match entries.last().kind {
                KindView::File { blob: b, size } if b == blob => Some(entries.last().path),
                _ => None,
            },
        }
    }
}

/// The blobs whose content an archive of these entries holds: each once, in
/// the order of first use.
pub open spec fn packed_blobs(entries: Seq<EntryView>) -> Seq<Seq<u8>>
    decreases entries.len(),
{
    if entries.len() == 0 {
        Seq::empty()
    } else {
        let before = packed_blobs(entries.drop_last());
        match entries.last().kind {
            KindView::File { blob, size } if first_path(entries.drop_last(), blob) is None => before.push(blob),
            _ => before,
        }
    }
}

/// The name of a whiteout's marker file.
pub open spec fn whiteout_name(path: Seq<char>) -> Seq<char> {
    let (dir, base) = dir_and_base(path);
    in_dir(dir, ".wh."@ + base)
}

/// The name of an opaque directory's marker file.
pub open spec fn opaque_name(path: Seq<char>) -> Seq<char> {
    path + "/.wh..wh..opq"@
}

/// A member with the mode and owner of `e`.
pub open spec fn member_for(
    e: EntryView,
    path: Seq<char>,
    kind: u8,
    size: u64,
    link: Option<Seq<char>>,
    content: Seq<u8>,
) -> Written {
    Written { path, mode: e.mode, uid: e.uid, gid: e.gid, size, kind, link, content }
}

/// The members for one entry. `first` is the earlier path of a file's blob,
/// if there is one; otherwise `content` is what the blob holds.
pub open spec fn members_for(e: EntryView, first: Option<Seq<char>>, content: Seq<u8>) -> Seq<Written> {
    match e.kind {
        KindView::Dir { opaque } => {
            let dir = member_for(e, e.path + "/"@, DIRECTORY, 0, None, Seq::empty());
            if opaque {
                seq![dir, member_for(e, opaque_name(e.path), REGULAR, 0, None, Seq::empty())]
            } else {
                seq![dir]
            }
        },
        KindView::Symlink { target } => seq![member_for(e, e.path, SYMLINK, 0, Some(target), Seq::empty())],
        KindView::Whiteout => seq![member_for(e, whiteout_name(e.path), REGULAR, 0, None, Seq::empty())],
        KindView::File { blob, size } => match first {
            Some(p) => seq![member_for(e, e.path, HARD_LINK, 0, Some(p), Seq::empty())],
            None => seq![member_for(e, e.path, REGULAR, size, None, content)],
        },
    }
}

/// The earlier path of the blob of the last entry.
pub open spec fn last_first(entries: Seq<EntryView>) -> Option<Seq<char>> {
    match entries.last().kind {
        KindView::File { blob, size } => first_path(entries.drop_last(), blob),
        _ => None,
    }
}

/// What is read of the blob that the last entry would be the first to use.
pub open spec fn last_content(entries: Seq<EntryView>, contents: Seq<Result<Vec<u8>, Error>>) -> Seq<u8> {
    match contents[packed_blobs(entries.drop_last()).len() as int] {
        Ok(c) => c@,
        Err(_) => Seq::empty(),
    }
}

/// The members of an archive of these entries. `contents` is what was read
/// of each of the packed blobs.
pub open spec fn packed_members(entries: Seq<EntryView>, contents: Seq<Result<Vec<u8>, Error>>) -> Seq<Written>
    decreases entries.len(),
{
    if entries.len() == 0 {
        Seq::empty()
    } else {
        packed_members(entries.drop_last(), contents) + members_for(
            entries.last(),
            last_first(entries),
            last_content(entries, contents),
        )
    }
}

/// Why a layer cannot be packed.
pub enum PackFault {
    Message(Seq<char>),
    Blob(Error),
}

/// A message about an entry that was not packed.
pub open spec fn not_packed(what: Seq<char>, e: EntryView, why: Seq<char>) -> PackFault {
    PackFault::Message("packing "@ + what + " "@ + e.path + ": "@ + why)
}

/// What is in the way of packing the last entry, if anything.
pub open spec fn last_fault(entries: Seq<EntryView>, contents: Seq<Result<Vec<u8>, Error>>) -> Option<PackFault> {
    let e = entries.last();
    match e.kind {
        KindView::Dir { opaque } => match name_fault(e.path + "/"@) {
            Some(f) => Some(not_packed("dir"@, e, f)),
            None => if opaque {
                match name_fault(opaque_name(e.path)) {
                    Some(f) => Some(not_packed("whiteout"@, e, f)),
                    None => None,
                }
            } else {
                None
            },
        },
        KindView::Symlink { target } => match link_fault(e.path, target) {
            Some(f) => Some(not_packed("symlink"@, e, f)),
            None => None,
        },
        KindView::Whiteout => match name_fault(whiteout_name(e.path)) {
            Some(f) => Some(not_packed("whiteout"@, e, f)),
            None => None,
        },
        KindView::File { blob, size } => match last_first(entries) {
            Some(p) => match link_fault(e.path, p) {
                Some(f) => Some(not_packed("hardlink"@, e, f)),
                None => None,
            },
            None => match contents[packed_blobs(entries.drop_last()).len() as int] {
                Err(x) => Some(PackFault::Blob(x)),
                Ok(_) => match name_fault(e.path) {
                    Some(f) => Some(not_packed("file"@, e, f)),
                    None => None,
                },
            },
        },
    }
}

/// The first thing in the way of packing the entries, if anything.
pub open spec fn pack_fault(entries: Seq<EntryView>, contents: Seq<Result<Vec<u8>, Error>>) -> Option<PackFault>
    decreases entries.len(),
{
    if entries.len() == 0 {
        None
    } else {
        match pack_fault(entries.drop_last(), contents) {
            Some(f) => Some(f),
            None => last_fault(entries, contents),
        }
    }
}

/// A failure as it is reported.
pub open spec fn pack_error(f: PackFault, e: Error) -> bool {
    match f {
        PackFault::Message(m) => e matches Error::Registry(t) && t@ == m,
        PackFault::Blob(x) => e == x,
    }
}

/// Whether every blob could be read.
pub open spec fn all_read(contents: Seq<Result<Vec<u8>, Error>>) -> bool {
    forall|i: int| 0 <= i < contents.len() ==> (#[trigger] contents[i]) is Ok
}

/// The path of the first file entry with this blob.
fn find_blob(uses: &Vec<(crate::store::Hash, String)>, blob: &crate::store::Hash) -> (r: Option<usize>)
    ensures
        match r {
            Some(i) => i < uses@.len() && uses@[i as int].0@ == blob@ && forall|j: int|
                0 <= j < i ==> (#[trigger] uses@[j]).0@ != blob@,
            None => forall|j: int| 0 <= j < uses@.len() ==> (#[trigger] uses@[j]).0@ != blob@,
        },
{
    let mut i: usize = 0;
    while i < uses.len()
        invariant
            i <= uses@.len(),
            forall|j: int| 0 <= j < i ==> (#[trigger] uses@[j]).0@ != blob@,
        decreases uses.len() - i,
    {
        if uses[i].0.same(blob) {
            return Some(i);
        }
        i += 1;
    }
    None
}

/// What the list of first uses says of the entries so far.
spec fn uses_of(uses: Seq<(crate::store::Hash, String)>, entries: Seq<EntryView>) -> bool {
    &&& packed_blobs(entries) == uses.map_values(|u: (crate::store::Hash, String)| u.0@)
    &&& forall|b: Seq<u8>| #[trigger]
        first_path(entries, b) is None <==> !packed_blobs(entries).contains(b)
    &&& forall|j: int|
        0 <= j < uses.len() ==> first_path(entries, (#[trigger] uses[j]).0@) == Some(uses[j].1@)
}

/// One more entry leaves the list right as it is, or with its own first use added.
proof fn lemma_uses_step(
    uses: Seq<(crate::store::Hash, String)>,
    entries: Seq<EntryView>,
    added: Option<(crate::store::Hash, String)>,
)
    requires
        entries.len() > 0,
        uses_of(uses, entries.drop_last()),
        match added {
            Some(u) => entries.last().kind matches KindView::File { blob, size } && blob == u.0@ && entries.last().path
                == u.1@ && first_path(entries.drop_last(), blob) is None,
            None => entries.last().kind matches KindView::File { blob, size } ==> first_path(
                entries.drop_last(),
                blob,
            ) is Some,
        },
    ensures
        uses_of(
            match added {
                Some(u) => uses.push(u),
                None => uses,
            },
            entries,
        ),
{
    let before = entries.drop_last();
    let blobs = packed_blobs(before);
    match added {
        Some(u) => {
            let grown = uses.push(u);
            assert(packed_blobs(entries) == blobs.push(u.0@));
            assert(grown.map_values(|u: (crate::store::Hash, String)| u.0@) =~= blobs.push(u.0@));
            assert forall|b: Seq<u8>| #[trigger]
                first_path(entries, b) is None <==> !packed_blobs(entries).contains(b) by {
                assert(first_path(before, b) is None <==> !blobs.contains(b));
                if b == u.0@ {
                    assert(blobs.push(u.0@)[blobs.len() as int] == b);
                }
                if blobs.contains(b) {
                    let i = choose|i: int| 0 <= i < blobs.len() && blobs[i] == b;
                    assert(blobs.push(u.0@)[i] == b);
                }
            }
            assert forall|j: int| 0 <= j < grown.len() implies first_path(entries, (#[trigger] grown[j]).0@)
                == Some(grown[j].1@) by {
                if j < uses.len() {
                    assert(first_path(before, uses[j].0@) == Some(uses[j].1@));
                }
            }
        },
        None => {
            assert(packed_blobs(entries) == blobs);
            assert forall|b: Seq<u8>| #[trigger]
                first_path(entries, b) is None <==> !packed_blobs(entries).contains(b) by {
                assert(first_path(before, b) is None <==> !blobs.contains(b));
            }
            assert forall|j: int| 0 <= j < uses.len() implies first_path(entries, (#[trigger] uses[j]).0@)
                == Some(uses[j].1@) by {
                assert(first_path(before, uses[j].0@) == Some(uses[j].1@));
            }
        },
    }
}

/// No entries, no uses.
proof fn lemma_uses_none(uses: Seq<(crate::store::Hash, String)>, entries: Seq<EntryView>)
    requires
        uses.len() == 0,
        entries.len() == 0,
    ensures
        uses_of(uses, entries),
{
    assert(uses.map_values(|u: (crate::store::Hash, String)| u.0@) =~= Seq::<Seq<u8>>::empty());
}

/// The blobs whose content an archive of the layer holds.
pub fn blobs_to_pack(manifest: &LayerManifest) -> (r: Vec<crate::store::Hash>)
    ensures
        crate::image::hash_bytes(r@) == packed_blobs(manifest@),
{
    let ghost all = manifest@;
    let mut uses: Vec<(crate::store::Hash, String)> = Vec::new();
    let mut out: Vec<crate::store::Hash> = Vec::new();
    let mut i: usize = 0;
    proof {
        lemma_uses_none(uses@, all.take(0));
        assert(crate::image::hash_bytes(out@) =~= packed_blobs(all.take(0)));
    }
    while i < manifest.entries.len()
        invariant
            i <= manifest.entries@.len(),
            all == manifest@,
            uses_of(uses@, all.take(i as int)),
            crate::image::hash_bytes(out@) == packed_blobs(all.take(i as int)),
        decreases manifest.entries.len() - i,
    {
        let e = &manifest.entries[i];
        let ghost upto = all.take(i + 1);
        proof {
            assert(upto.drop_last() =~= all.take(i as int));
            assert(upto.last() == e@);
        }
        match &e.kind {
            EntryKind::File { blob, size } => {
                match find_blob(&uses, blob) {
                    Some(j) => {
                        proof {
                            assert(first_path(all.take(i as int), uses@[j as int].0@) is Some);
                            lemma_uses_step(uses@, upto, None);
                        }
                    },
                    None => {
                        let ghost before = uses@;
                        let used = (*blob, e.path.clone());
                        proof {
                            if packed_blobs(all.take(i as int)).contains(blob@) {
                                let blobs = packed_blobs(all.take(i as int));
                                let j = choose|j: int| 0 <= j < blobs.len() && blobs[j] == blob@;
                                assert(uses@[j].0@ == blobs[j]);
                            }
                            assert(first_path(all.take(i as int), blob@) is None);
                            lemma_uses_step(before, upto, Some(used));
                            assert(crate::image::hash_bytes(out@.push(*blob)) =~= crate::image::hash_bytes(
                                out@,
                            ).push(blob@));
                        }
                        uses.push(used);
                        out.push(*blob);
                    },
                }
            },
            _ => {
                proof {
                    lemma_uses_step(uses@, upto, None);
                }
            },
        }
        i += 1;
    }
    assert(all.take(i as int) =~= all);
    out
}

/// A message about an entry that was not packed.
fn packing_error(what: &str, e: &Entry, why: String) -> (r: Error)
    ensures
        pack_error(not_packed(what@, e@, why@), r),
{
    let head = cat4("packing ", what, " ", e.path.as_str());
    Error::Registry(cat3(head.as_str(), ": ", why.as_str()))
}

/// The first thing in the way stays the first, and members once packed stay.
proof fn lemma_pack_prefix(entries: Seq<EntryView>, n: int, contents: Seq<Result<Vec<u8>, Error>>)
    requires
        0 <= n <= entries.len(),
    ensures
        pack_fault(entries.take(n), contents) is Some ==> pack_fault(entries, contents) == pack_fault(
            entries.take(n),
            contents,
        ),
        packed_members(entries.take(n), contents).is_prefix_of(packed_members(entries, contents)),
        packed_blobs(entries.take(n)).len() <= packed_blobs(entries).len(),
    decreases entries.len(),
{
    if n == entries.len() {
        assert(entries.take(n) =~= entries);
    } else {
        assert(entries.drop_last().take(n) =~= entries.take(n));
        lemma_pack_prefix(entries.drop_last(), n, contents);
    }
}

/// A member that does not read back spoils the whole.
proof fn lemma_unfaithful(entries: Seq<EntryView>, n: int, k: int, contents: Seq<Result<Vec<u8>, Error>>)
    requires
        0 < n <= entries.len(),
        0 <= k < packed_members(entries.take(n), contents).len(),
        !faithful(packed_members(entries.take(n), contents)[k]),
    ensures
        !all_faithful(packed_members(entries, contents)),
{
    lemma_pack_prefix(entries, n, contents);
    assert(packed_members(entries, contents)[k] == packed_members(entries.take(n), contents)[k]);
}

/// A layer as a gzipped archive. `contents` is what reading each blob of
/// [`blobs_to_pack`] came to. Entries are packed in order, and the first that
/// cannot be packed decides the failure. Where all members are faithful and
/// all blobs were read, reading the archive gives the members back.
pub fn pack_layer_tar_gz(manifest: &LayerManifest, contents: Vec<Result<Vec<u8>, Error>>) -> (r: Result<
    Vec<u8>,
    Error,
>)
    requires
        contents@.len() == packed_blobs(manifest@).len(),
    ensures
        match r {
            Ok(b) => pack_fault(manifest@, contents@) is None && packed(packed_members(manifest@, contents@))
                == Ok::<Seq<u8>, (bool, Seq<char>)>(b@),
            Err(e) => match pack_fault(manifest@, contents@) {
                Some(f) => pack_error(f, e),
                None => packed(packed_members(manifest@, contents@)) matches Err(f) && (e matches Error::Registry(t)
                    && t@ == (if f.0 { "finishing gzip: "@ } else { "finishing tar: "@ }) + f.1),
            },
        },
        all_read(contents@) && all_faithful(packed_members(manifest@, contents@)) ==> (r matches Ok(b) && members(
            b@,
        ) == read_backs(packed_members(manifest@, contents@))),
{
    let ghost all = manifest@;
    let ghost given = contents@;
    let mut archive: Packer = new_archive();
    let mut uses: Vec<(crate::store::Hash, String)> = Vec::new();
    let mut left = reversed(contents);
    let nothing: Vec<u8> = Vec::new();
    let mut i: usize = 0;
    proof {
        lemma_uses_none(uses@, all.take(0));
        assert(packed_members(all.take(0), given) =~= Seq::<Written>::empty());
        assert(given.reverse().take(given.len() as int) =~= given.reverse());
    }
    while i < manifest.entries.len()
        invariant
            i <= manifest.entries@.len(),
            all == manifest@,
            given == contents@,
            nothing@ == Seq::<u8>::empty(),
            given.len() == packed_blobs(all).len(),
            uses_of(uses@, all.take(i as int)),
            left@.len() + packed_blobs(all.take(i as int)).len() == given.len(),
            left@ == given.reverse().take(left@.len() as int),
            written(archive) == packed_members(all.take(i as int), given),
            pack_fault(all.take(i as int), given) is None,
        decreases manifest.entries.len() - i,
    {
        let e = &manifest.entries[i];
        let owner = (e.uid, e.gid);
        let ghost upto = all.take(i + 1);
        let ghost before = packed_members(all.take(i as int), given);
        let ghost added = members_for(e@, last_first(upto), last_content(upto, given));
        proof {
            assert(upto.drop_last() =~= all.take(i as int));
            assert(upto.last() == e@);
            assert(packed_members(upto, given) == before + added);
            lemma_pack_prefix(all, i + 1, given);
        }
        match &e.kind {
            EntryKind::Dir { opaque } => {
                let name = cat2(e.path.as_str(), "/");
                match append_member(&mut archive, name.as_str(), e.mode, owner, 0, DIRECTORY, nothing.as_slice()) {
                    Ok(_) => {},
                    Err(why) => {
                        proof {
                            assert(packed_members(upto, given)[before.len() as int] == added[0]);
                            lemma_unfaithful(all, i + 1, before.len() as int, given);
                        }
                        return Err(packing_error("dir", e, why));
                    },
                }
                if *opaque {
                    let marker = cat2(e.path.as_str(), "/.wh..wh..opq");
                    match append_member(&mut archive, marker.as_str(), e.mode, owner, 0, REGULAR, nothing.as_slice()) {
                        Ok(_) => {},
                        Err(why) => {
                            proof {
                                assert(packed_members(upto, given)[before.len() as int + 1] == added[1]);
                                lemma_unfaithful(all, i + 1, before.len() as int + 1, given);
                            }
                            return Err(packing_error("whiteout", e, why));
                        },
                    }
                }
                assert(written(archive) =~= before + added);
                proof {
                    lemma_uses_step(uses@, upto, None);
                }
            },
            EntryKind::Symlink { target } => {
                match append_link(&mut archive, e.path.as_str(), e.mode, owner, SYMLINK, target.as_str()) {
                    Ok(_) => {},
                    Err(why) => {
                        proof {
                            assert(packed_members(upto, given)[before.len() as int] == added[0]);
                            lemma_unfaithful(all, i + 1, before.len() as int, given);
                        }
                        return Err(packing_error("symlink", e, why));
                    },
                }
                assert(written(archive) =~= before + added);
                proof {
                    lemma_uses_step(uses@, upto, None);
                }
            },
            EntryKind::Whiteout => {
                let (dir, base) = split_path(e.path.as_str());
                let name = if dir.as_str().unicode_len() == 0 {
                    cat2(".wh.", base.as_str())
                } else {
                    cat4(dir.as_str(), "/", ".wh.", base.as_str())
                };
                proof {
                    assert(dir@ + "/"@ + ".wh."@ + base@ =~= dir@ + "/"@ + (".wh."@ + base@));
                    assert(name@ == whiteout_name(e@.path));
                }
                match append_member(&mut archive, name.as_str(), e.mode, owner, 0, REGULAR, nothing.as_slice()) {
                    Ok(_) => {},
                    Err(why) => {
                        proof {
                            assert(packed_members(upto, given)[before.len() as int] == added[0]);
                            lemma_unfaithful(all, i + 1, before.len() as int, given);
                        }
                        return Err(packing_error("whiteout", e, why));
                    },
                }
                assert(written(archive) =~= before + added);
                proof {
                    lemma_uses_step(uses@, upto, None);
                }
            },
            EntryKind::File { blob, size } => {
                match find_blob(&uses, blob) {
                    Some(j) => {
                        assert(first_path(all.take(i as int), uses@[j as int].0@) == Some(uses@[j as int].1@));
                        match append_link(
                            &mut archive,
                            e.path.as_str(),
                            e.mode,
                            owner,
                            HARD_LINK,
                            uses[j].1.as_str(),
                        ) {
                            Ok(_) => {},
                            Err(why) => {
                                proof {
                                    assert(packed_members(upto, given)[before.len() as int] == added[0]);
                                    lemma_unfaithful(all, i + 1, before.len() as int, given);
                                }
                                return Err(packing_error("hardlink", e, why));
                            },
                        }
                        assert(written(archive) =~= before + added);
                        proof {
                            lemma_uses_step(uses@, upto, None);
                        }
                    },
                    None => {
                        let ghost blobs = packed_blobs(all.take(i as int));
                        proof {
                            if blobs.contains(blob@) {
                                let j = choose|j: int| 0 <= j < blobs.len() && blobs[j] == blob@;
                                assert(uses@[j].0@ == blobs[j]);
                            }
                            assert(first_path(all.take(i as int), blob@) is None);
                            assert(packed_blobs(upto).len() == blobs.len() + 1);
                            assert(left@.len() > 0);
                            assert(left@.last() == given[blobs.len() as int]);
                        }
                        match left.pop() {
                            Some(Ok(content)) => {
                                assert(left@ =~= given.reverse().take(left@.len() as int));
                                match append_member(
                                    &mut archive,
                                    e.path.as_str(),
                                    e.mode,
                                    owner,
                                    *size,
                                    REGULAR,
                                    content.as_slice(),
                                ) {
                                    Ok(_) => {},
                                    Err(why) => {
                                        proof {
                                            assert(packed_members(upto, given)[before.len() as int] == added[0]);
                                            lemma_unfaithful(all, i + 1, before.len() as int, given);
                                        }
                                        return Err(packing_error("file", e, why));
                                    },
                                }
                                assert(written(archive) =~= before + added);
                            },
                            Some(Err(x)) => {
                                assert(given[blobs.len() as int] == Err::<Vec<u8>, Error>(x));
                                return Err(x);
                            },
                            None => {},
                        }
                        let used = (*blob, e.path.clone());
                        proof {
                            lemma_uses_step(uses@, upto, Some(used));
                        }
                        uses.push(used);
                    },
                }
            },
        }
        i += 1;
    }
    assert(all.take(i as int) =~= all);
    match finish_archive(archive) {
        Ok(b) => Ok(b),
        Err((closed, why)) => {
            if closed {
                Err(Error::Registry(cat2("finishing gzip: ", why.as_str())))
            } else {
                Err(Error::Registry(cat2("finishing tar: ", why.as_str())))
            }
        },
    }
}

// ---- There and back --------------------------------------------------------

/// A name that an archive takes and gives back as it is.
pub open spec fn settled(name: Seq<char>) -> bool {
    recordable(name) && recorded_path(name) == name
}

/// An entry that survives an archive. `held` is what the store holds under
/// each hash.
#[verifier::opaque]
pub open spec fn exchangeable(e: EntryView, held: spec_fn(Seq<u8>) -> Seq<u8>) -> bool {
    &&& e.mode == permission_bits(e.mode)
    &&& e.mode < 0x20_0000
    &&& match e.kind {
        KindView::Dir { opaque } => recordable(e.path + "/"@) && (opaque ==> recordable(opaque_name(e.path))),
        KindView::Symlink { target } => settled(e.path) && unmarked(e.path)
            && recordable_target(target),
        KindView::Whiteout => settled(whiteout_name(e.path)) && e.path.len() > 0 && e.path[0] != '/'
            && dir_and_base(e.path).1 != ".wh..opq"@,
        KindView::File { blob, size } => settled(e.path) && unmarked(e.path)
            && recordable_target(e.path) && sha256(held(blob)) == blob && held(blob).len() == size,
    }
}

/// Whether a path's last part is free of the deletion mark.
pub open spec fn unmarked(path: Seq<char>) -> bool {
    without_prefix(dir_and_base(path).1, ".wh."@) is None
}

/// No two file entries share a path.
pub open spec fn distinct_files(entries: Seq<EntryView>) -> bool {
    forall|i: int, j: int|
        0 <= i < j < entries.len() && (#[trigger] entries[i]).kind is File && (#[trigger] entries[j]).kind is File
            ==> entries[i].path != entries[j].path
}

/// No two directory entries share a path.
pub open spec fn distinct_dirs(entries: Seq<EntryView>) -> bool {
    forall|i: int, j: int|
        0 <= i < j < entries.len() && (#[trigger] entries[i]).kind is Dir && (#[trigger] entries[j]).kind is Dir
            ==> dir_name(entries[i].path) != dir_name(entries[j].path)
}

/// The name that an archive has for a directory: without empty and `.` parts.
pub open spec fn dir_name(path: Seq<char>) -> Seq<char> {
    joined(kept_parts(path), seq!['/'])
}

/// An entry as it comes back from an archive: a directory without slashes
/// behind its path, a deletion without mode and owner.
pub open spec fn returned(e: EntryView) -> EntryView {
    match e.kind {
        KindView::Dir { opaque } => EntryView { path: dir_name(e.path), ..e },
        KindView::Whiteout => EntryView { path: e.path, mode: 0, uid: 0, gid: 0, kind: KindView::Whiteout },
        _ => e,
    }
}

/// An entry as its own member describes it: that a directory is opaque
/// stands in another member.
spec fn unmarked_return(e: EntryView) -> EntryView {
    match e.kind {
        KindView::Dir { opaque } => EntryView { kind: KindView::Dir { opaque: false }, ..returned(e) },
        _ => returned(e),
    }
}

/// The entries as their own members describe them.
spec fn all_unmarked(entries: Seq<EntryView>) -> Seq<EntryView> {
    entries.map_values(|e: EntryView| unmarked_return(e))
}

/// The names of the opaque directories among the entries.
spec fn opaque_names(entries: Seq<EntryView>) -> Seq<Seq<char>>
    decreases entries.len(),
{
    if entries.len() == 0 {
        Seq::empty()
    } else {
        let before = opaque_names(entries.drop_last());
        if entries.last().kind == (KindView::Dir { opaque: true }) {
            before.push(dir_name(entries.last().path))
        } else {
            before
        }
    }
}

/// The entries as they come back from an archive.
pub open spec fn all_returned(entries: Seq<EntryView>) -> Seq<EntryView> {
    entries.map_values(|e: EntryView| returned(e))
}

/// No piece of a text holds the separator.
proof fn lemma_pieces_free(s: Seq<char>, c: char)
    ensures
        pieces(s, c).len() >= 1,
        forall|i: int| 0 <= i < pieces(s, c).len() ==> !(#[trigger] pieces(s, c)[i]).contains(c),
    decreases s.len(),
{
    let all = pieces(s, c);
    if s.len() > 0 {
        let rest = pieces(s.drop_first(), c);
        lemma_pieces_free(s.drop_first(), c);
        assert forall|i: int| 0 <= i < all.len() implies !(#[trigger] all[i]).contains(c) by {
            if s[0] == c {
                if i > 0 {
                    assert(all[i] == rest[i - 1]);
                }
            } else if i > 0 {
                assert(all[i] == rest[i]);
            } else {
                assert(all[0] == seq![s[0]] + rest[0]);
                if all[0].contains(c) {
                    let k = choose|k: int| 0 <= k < all[0].len() && all[0][k] == c;
                    assert(rest[0][k - 1] == c);
                }
            }
        }
    }
}

/// The kept parts of a path are not empty, not `.`, and hold no slash.
proof fn lemma_kept_parts(path: Seq<char>)
    ensures
        forall|i: int|
            0 <= i < kept_parts(path).len() ==> (#[trigger] kept_parts(path)[i]).len() > 0 && kept_parts(path)[i]
                != seq!['.'] && !kept_parts(path)[i].contains('/'),
{
    lemma_pieces_free(path, '/');
    let keep = |s: Seq<char>| s.len() > 0 && s != seq!['.'];
    assert forall|i: int| 0 <= i < kept_parts(path).len() implies (#[trigger] kept_parts(path)[i]).len() > 0
        && kept_parts(path)[i] != seq!['.'] && !kept_parts(path)[i].contains('/') by {
        let part = kept_parts(path)[i];
        assert(kept_parts(path) == pieces(path, '/').filter(keep));
        pieces(path, '/').lemma_filter_pred(keep, i);
        assert(pieces(path, '/').filter(keep).contains(part));
        pieces(path, '/').lemma_filter_contains_rev(keep, part);
    }
}

/// The kept parts of a path in which one more part follows.
proof fn lemma_kept_append(a: Seq<char>, b: Seq<char>)
    requires
        !b.contains('/'),
    ensures
        kept_parts(a + seq!['/'] + b) == (if b.len() > 0 && b != seq!['.'] {
            kept_parts(a).push(b)
        } else {
            kept_parts(a)
        }),
{
    reveal(Seq::filter);
    lemma_pieces_append(a, b, '/');
    assert(pieces(a, '/').push(b).drop_last() =~= pieces(a, '/'));
}

/// Joined parts begin with the first part and end with the last.
proof fn lemma_joined_ends(v: Seq<Seq<char>>)
    requires
        v.len() > 0,
    ensures
        joined(v, seq!['/']).len() >= v[0].len(),
        joined(v, seq!['/']).len() >= v.last().len(),
        v[0] == joined(v, seq!['/']).take(v[0].len() as int),
        v.last() == joined(v, seq!['/']).skip(joined(v, seq!['/']).len() - v.last().len()),
        v.len() > 1 ==> joined(v, seq!['/']).len() > v[0].len() && joined(v, seq!['/'])[v[0].len() as int] == '/',
    decreases v.len(),
{
    let all = joined(v, seq!['/']);
    if v.len() == 1 {
        assert(all.take(all.len() as int) =~= all);
        assert(all.skip(0) =~= all);
    } else {
        let before = joined(v.drop_last(), seq!['/']);
        lemma_joined_ends(v.drop_last());
        assert(v.drop_last()[0] == v[0]);
        assert(all.take(v[0].len() as int) =~= before.take(v[0].len() as int));
        assert(all.skip(all.len() - v.last().len()) =~= v.last());
        if v.len() == 2 {
            assert(before == v[0]);
        }
    }
}

/// A recorded path has no `./` in front of it, and is more than `.`.
proof fn lemma_recorded_plain(path: Seq<char>)
    requires
        kept_parts(path).len() > 0,
    ensures
        without_dots(recorded_path(path)) == recorded_path(path),
        recorded_path(path).len() > 0,
        recorded_path(path) != "."@,
{
    reveal_strlit(".");
    let kept = kept_parts(path);
    let all = recorded_path(path);
    lemma_kept_parts(path);
    lemma_joined_ends(kept);
    let first = kept[0];
    assert(first =~= all.take(first.len() as int));
    assert(first.len() > 0 && first != seq!['.'] && !first.contains('/'));
    if all[0] == '.' {
        if first.len() == 1 {
            assert(first =~= seq!['.']);
        } else {
            assert(first[1] == all[1]);
            assert(first.contains(first[1]));
        }
    }
    if all == "."@ {
        assert(all.len() == 1);
        assert(first[0] == all[0]);
        assert(first =~= seq!['.']);
    }
}

/// How a directory and its opaque marker are recorded.
proof fn lemma_recorded_dir(path: Seq<char>)
    requires
        kept_parts(path + "/"@).len() > 0,
    ensures
        recorded_path(path + "/"@) == dir_name(path) + "/"@,
        recorded_path(opaque_name(path)) == dir_name(path) + "/"@ + ".wh..wh..opq"@,
        kept_parts(opaque_name(path)).len() > 0,
        bare(dir_name(path) + "/"@) == dir_name(path),
        bare(dir_name(path)) == dir_name(path),
        dir_name(path).len() > 0,
{
    reveal_strlit("/");
    reveal_strlit(".wh..wh..opq");
    reveal_strlit("/.wh..wh..opq");
    let marker = ".wh..wh..opq"@;
    let name = dir_name(path);
    let none = Seq::<char>::empty();
    assert(path + "/"@ =~= path + seq!['/'] + none);
    assert(opaque_name(path) =~= path + seq!['/'] + marker);
    assert(!marker.contains('/'));
    lemma_kept_append(path, none);
    lemma_kept_append(path, marker);
    let kept = kept_parts(path);
    assert(marker.len() == 12);
    assert(kept.push(marker).drop_last() =~= kept);
    assert(recorded_path(path + "/"@) =~= name + "/"@);
    assert(recorded_path(opaque_name(path)) =~= name + "/"@ + marker);
    lemma_kept_parts(path);
    lemma_joined_ends(kept);
    let last = kept.last();
    assert(kept[kept.len() - 1] == last);
    assert(last.contains(last.last()));
    assert(name.last() == last.last());
    assert((name + "/"@).drop_last() =~= name);
    assert(bare(name) == name);
    assert(bare(name + "/"@) == bare((name + "/"@).drop_last()));
}

/// A path is cut at the last slash.
proof fn lemma_cut_behind(a: Seq<char>, b: Seq<char>)
    requires
        !b.contains('/'),
    ensures
        dir_and_base(a + "/"@ + b) == (a, b),
        dir_and_base(b) == (Seq::<char>::empty(), b),
{
    reveal_strlit("/");
    let s = a + "/"@ + b;
    let n = a.len() as int;
    assert(s[n] == '/');
    assert(s.contains('/'));
    s.index_of_last_ensures('/');
    let k = s.index_of_last('/')->0;
    if k > n {
        assert(s[k] == b[k - n - 1]);
        assert(b.contains('/'));
    }
    assert(k == n);
    assert(s.take(n) =~= a);
    assert(s.skip(n + 1) =~= b);
    b.index_of_last_ensures('/');
}

/// The parts of a path: put together they are the path, and the last has no slash.
proof fn lemma_parts(path: Seq<char>)
    requires
        path.len() > 0,
        path[0] != '/',
    ensures
        ({
            let (dir, base) = dir_and_base(path);
            in_dir(dir, base) == path && !base.contains('/')
        }),
{
    reveal_strlit("/");
    path.index_of_last_ensures('/');
    let (dir, base) = dir_and_base(path);
    if path.contains('/') {
        let k = path.index_of_last('/')->0;
        assert(dir.len() == k);
        assert(dir + "/"@ + base =~= path);
        assert forall|i: int| 0 <= i < base.len() implies base[i] != '/' by {
            assert(base[i] == path[k + 1 + i]);
        }
    } else {
        assert(base == path);
    }
}

/// A blob that was used before was used by some earlier entry.
proof fn lemma_first_path(entries: Seq<EntryView>, blob: Seq<u8>) -> (j: int)
    requires
        first_path(entries, blob) is Some,
    ensures
        0 <= j < entries.len(),
        entries[j].kind matches KindView::File { blob: b, size } && b == blob,
        first_path(entries, blob) == Some(entries[j].path),
    decreases entries.len(),
{
    if first_path(entries.drop_last(), blob) is Some {
        lemma_first_path(entries.drop_last(), blob)
    } else {
        entries.len() - 1
    }
}

/// Where paths are distinct, a file entry is found by its path.
proof fn lemma_file_at(entries: Seq<EntryView>, j: int)
    requires
        0 <= j < entries.len(),
        entries[j].kind is File,
        distinct_files(entries),
    ensures
        file_at(all_unmarked(entries), entries[j].path) == Some(
            (entries[j].kind->File_blob, entries[j].kind->File_size),
        ),
    decreases entries.len(),
{
    let back = all_unmarked(entries);
    assert(back.last() == unmarked_return(entries.last()));
    if j < entries.len() - 1 {
        let before = entries.drop_last();
        assert(distinct_files(before)) by {
            assert forall|i: int, k: int|
                0 <= i < k < before.len() && (#[trigger] before[i]).kind is File && (#[trigger] before[k]).kind is File implies before[i].path
                != before[k].path by {
                assert(entries[i] == before[i] && entries[k] == before[k]);
            }
        }
        lemma_file_at(before, j);
        assert(back.drop_last() =~= all_unmarked(before));
        if entries.last().kind is File {
            assert(entries[j].path != entries[entries.len() - 1].path);
        }
    }
}

/// What one member that is read back adds to a run.
proof fn lemma_run_push(items: Seq<MemberView>, m: MemberView, s: Unpacking, digest: Seq<char>)
    requires
        unpack_run(items, digest) == Ok::<Unpacking, UnpackFault>(s),
    ensures
        unpack_run(items.push(m), digest) == unpack_step(s, m, digest),
{
    assert(items.push(m).drop_last() =~= items);
}

/// The members of one entry, read back, mean that entry.
proof fn lemma_entry_returns(
    e: EntryView,
    first: Option<Seq<char>>,
    content: Seq<u8>,
    s: Unpacking,
    digest: Seq<char>,
    held: spec_fn(Seq<u8>) -> Seq<u8>,
)
    requires
        exchangeable(e, held),
        !(e.kind is Dir),
        match e.kind {
            KindView::File { blob, size } => match first {
                Some(p) => settled(p) && recordable_target(p) && file_at(s.entries, p) == Some(
                    (blob, size),
                ),
                None => content == held(blob),
            },
            _ => true,
        },
    ensures
        ({
            let w = members_for(e, first, content);
            &&& w.len() == 1
            &&& faithful(w[0])
            &&& unpack_step(s, read_back(w[0]), digest) == Ok::<Unpacking, UnpackFault>(
                Unpacking {
                    entries: s.entries.push(unmarked_return(e)),
                    opaque: s.opaque,
                    contents: if e.kind is File && first is None {
                        s.contents.push(content)
                    } else {
                        s.contents
                    },
                },
            )
        }),
{
    reveal(exchangeable);
    let w = members_for(e, first, content)[0];
    let record = read_back(w)->Ok_0;
    reveal_strlit(".");
    reveal_strlit("/");
    reveal_strlit(".wh.");
    reveal_strlit(".wh..opq");
    reveal_strlit(".wh..wh..opq");
    let path = without_dots(record.path);
    lemma_recorded_plain(w.path);
    assert(path == w.path);
    if e.kind is File && first is Some {
        lemma_recorded_plain(first->0);
    }
    match e.kind {
        KindView::Whiteout => {
            let (dir, base) = dir_and_base(e.path);
            lemma_parts(e.path);
            let name = ".wh."@ + base;
            assert(!name.contains('/')) by {
                assert forall|i: int| 0 <= i < name.len() implies name[i] != '/' by {
                    if i >= 4 {
                        assert(name[i] == base[i - 4]);
                        assert(base.contains(base[i - 4]));
                    }
                }
            }
            lemma_cut_behind(dir, name);
            assert(dir_and_base(path) == (dir, name));
            assert(name.skip(4) =~= base);
            assert(".wh."@ =~= name.subrange(0, 4));
            assert(without_prefix(name, ".wh."@) == Some(base));
            if name == ".wh..wh..opq"@ {
                assert(base =~= ".wh..opq"@) by {
                    assert(".wh..wh..opq"@.skip(4) =~= ".wh..opq"@);
                }
            }
            assert(meaning(record, digest, s.entries) == Meaning::Add(unmarked_return(e)));
            assert(!brings_content(record));
        },
        _ => {
            assert(unmarked(path));
            assert(dir_and_base(path).1 != ".wh..wh..opq"@) by {
                assert(".wh."@ =~= ".wh..wh..opq"@.subrange(0, 4));
            }
            assert(meaning(record, digest, s.entries) == Meaning::Add(unmarked_return(e)));
        },
    }
}

/// The members of a directory, read back, mean that directory.
proof fn lemma_dir_returns(
    e: EntryView,
    s: Unpacking,
    digest: Seq<char>,
    held: spec_fn(Seq<u8>) -> Seq<u8>,
)
    requires
        exchangeable(e, held),
        e.kind is Dir,
    ensures
        ({
            let w = members_for(e, None, Seq::empty());
            let added = Unpacking { entries: s.entries.push(unmarked_return(e)), ..s };
            &&& w.len() == (if e.kind->Dir_opaque { 2int } else { 1int })
            &&& faithful(w[0])
            &&& unpack_step(s, read_back(w[0]), digest) == Ok::<Unpacking, UnpackFault>(added)
            &&& e.kind->Dir_opaque ==> faithful(w[1]) && unpack_step(added, read_back(w[1]), digest) == Ok::<
                Unpacking,
                UnpackFault,
            >(Unpacking { opaque: s.opaque.push(dir_name(e.path)), ..added })
        }),
{
    reveal_strlit(".");
    reveal_strlit("/");
    reveal_strlit(".wh.");
    reveal_strlit(".wh..wh..opq");
    reveal_strlit("/.wh..wh..opq");
    reveal(exchangeable);
    let w = members_for(e, None, Seq::empty());
    let name = dir_name(e.path);
    let none = Seq::<char>::empty();
    lemma_recorded_dir(e.path);
    lemma_recorded_plain(e.path + "/"@);
    lemma_cut_behind(name, none);
    assert(name + "/"@ + none =~= name + "/"@);
    let record = read_back(w[0])->Ok_0;
    assert(meaning(record, digest, s.entries) == Meaning::Add(unmarked_return(e)));
    if e.kind->Dir_opaque {
        let marker = ".wh..wh..opq"@;
        assert(!marker.contains('/'));
        lemma_recorded_plain(opaque_name(e.path));
        lemma_cut_behind(name, marker);
        let added = s.entries.push(unmarked_return(e));
        assert(meaning(read_back(w[1])->Ok_0, digest, added) == Meaning::Opaque(name));
    }
}

/// What is known once the members of one more entry are read back.
spec fn one_more(e: EntryView, first: Option<Seq<char>>, content: Seq<u8>, s: Unpacking) -> Unpacking {
    Unpacking {
        entries: s.entries.push(unmarked_return(e)),
        opaque: if e.kind == (KindView::Dir { opaque: true }) {
            s.opaque.push(dir_name(e.path))
        } else {
            s.opaque
        },
        contents: if e.kind is File && first is None {
            s.contents.push(content)
        } else {
            s.contents
        },
    }
}

/// The members of one more entry, read back, mean that entry.
proof fn lemma_members_return(
    e: EntryView,
    first: Option<Seq<char>>,
    content: Seq<u8>,
    items: Seq<MemberView>,
    s: Unpacking,
    digest: Seq<char>,
    held: spec_fn(Seq<u8>) -> Seq<u8>,
)
    requires
        exchangeable(e, held),
        unpack_run(items, digest) == Ok::<Unpacking, UnpackFault>(s),
        match e.kind {
            KindView::File { blob, size } => match first {
                Some(p) => settled(p) && recordable_target(p) && file_at(s.entries, p) == Some(
                    (blob, size),
                ),
                None => content == held(blob),
            },
            _ => first is None,
        },
    ensures
        all_faithful(members_for(e, first, content)),
        unpack_run(items + read_backs(members_for(e, first, content)), digest) == Ok::<Unpacking, UnpackFault>(
            one_more(e, first, content, s),
        ),
{
    let w = members_for(e, first, content);
    let m = read_backs(w);
    if e.kind is Dir {
        assert(members_for(e, None, Seq::empty()) == w);
        lemma_dir_returns(e, s, digest, held);
        let added = Unpacking { entries: s.entries.push(unmarked_return(e)), ..s };
        lemma_run_push(items, m[0], s, digest);
        if e.kind->Dir_opaque {
            lemma_run_push(items.push(m[0]), m[1], added, digest);
            assert(items + m =~= items.push(m[0]).push(m[1]));
        } else {
            assert(items + m =~= items.push(m[0]));
        }
    } else {
        lemma_entry_returns(e, first, content, s, digest, held);
        lemma_run_push(items, m[0], s, digest);
        assert(items + m =~= items.push(m[0]));
    }
}

/// The earlier path of a blob is one that an archive keeps, and leads to the blob.
proof fn lemma_link_target(entries: Seq<EntryView>, blob: Seq<u8>, held: spec_fn(Seq<u8>) -> Seq<u8>)
    requires
        forall|i: int| 0 <= i < entries.len() ==> exchangeable(#[trigger] entries[i], held),
        distinct_files(entries),
        first_path(entries, blob) is Some,
    ensures
        settled(first_path(entries, blob)->0),
        recordable_target(first_path(entries, blob)->0),
        file_at(all_unmarked(entries), first_path(entries, blob)->0) matches Some(f) && f.0 == blob && f.1 == held(
            blob,
        ).len(),
{
    let j = lemma_first_path(entries, blob);
    assert(exchangeable(entries[j], held));
    reveal(exchangeable);
    lemma_file_at(entries, j);
}

/// What holds of all entries holds of all but the last.
proof fn lemma_all_but_last(entries: Seq<EntryView>, held: spec_fn(Seq<u8>) -> Seq<u8>)
    requires
        entries.len() > 0,
        forall|i: int| 0 <= i < entries.len() ==> exchangeable(#[trigger] entries[i], held),
        distinct_files(entries),
    ensures
        forall|i: int|
            0 <= i < entries.drop_last().len() ==> exchangeable(#[trigger] entries.drop_last()[i], held),
        distinct_files(entries.drop_last()),
        exchangeable(entries.last(), held),
{
    let before = entries.drop_last();
    assert forall|i: int, k: int|
        0 <= i < k < before.len() && (#[trigger] before[i]).kind is File && (#[trigger] before[k]).kind is File implies before[i].path
        != before[k].path by {
        assert(entries[i] == before[i] && entries[k] == before[k]);
    }
    assert forall|i: int| 0 <= i < before.len() implies exchangeable(#[trigger] before[i], held) by {
        assert(before[i] == entries[i]);
    }
    assert(entries[entries.len() - 1] == entries.last());
}

/// What one more entry does to the blobs, the contents and the opaque paths.
proof fn lemma_one_more(
    entries: Seq<EntryView>,
    contents: Seq<Result<Vec<u8>, Error>>,
    held: spec_fn(Seq<u8>) -> Seq<u8>,
)
    requires
        entries.len() > 0,
        packed_blobs(entries).len() <= contents.len(),
        forall|k: int|
            0 <= k < packed_blobs(entries).len() ==> ((#[trigger] contents[k]) matches Ok(c) && c@ == held(
                packed_blobs(entries)[k],
            )),
    ensures
        ({
            let before = entries.drop_last();
            let s = Unpacking {
                entries: all_unmarked(before),
                opaque: opaque_names(before),
                contents: packed_blobs(before).map_values(held),
            };
            &&& packed_blobs(before).len() <= contents.len()
            &&& forall|k: int|
                0 <= k < packed_blobs(before).len() ==> ((#[trigger] contents[k]) matches Ok(c) && c@ == held(
                    packed_blobs(before)[k],
                ))
            &&& entries.last().kind is File && last_first(entries) is None ==> last_content(entries, contents)
                == held(entries.last().kind->File_blob)
            &&& one_more(entries.last(), last_first(entries), last_content(entries, contents), s)
                == (Unpacking {
                entries: all_unmarked(entries),
                opaque: opaque_names(entries),
                contents: packed_blobs(entries).map_values(held),
            })
        }),
{
    let before = entries.drop_last();
    let e = entries.last();
    let old_blobs = packed_blobs(before);
    let blobs = packed_blobs(entries);
    assert forall|k: int| 0 <= k < old_blobs.len() implies ((#[trigger] contents[k]) matches Ok(c) && c@
        == held(old_blobs[k])) by {
        assert(old_blobs[k] == blobs[k]);
    }
    if e.kind is File && last_first(entries) is None {
        assert(blobs == old_blobs.push(e.kind->File_blob));
        assert(contents[old_blobs.len() as int] matches Ok(c) && c@ == held(blobs[old_blobs.len() as int]));
        assert(blobs.map_values(held) =~= old_blobs.map_values(held).push(held(e.kind->File_blob)));
    }
    assert(all_unmarked(entries) =~= all_unmarked(before).push(unmarked_return(e)));
}

/// Reading back the archive that a layer is packed into gives each entry's
/// own members, the markers of the opaque directories, and the contents.
proof fn lemma_members_read_back(
    entries: Seq<EntryView>,
    contents: Seq<Result<Vec<u8>, Error>>,
    held: spec_fn(Seq<u8>) -> Seq<u8>,
    digest: Seq<char>,
)
    requires
        forall|i: int| 0 <= i < entries.len() ==> exchangeable(#[trigger] entries[i], held),
        distinct_files(entries),
        packed_blobs(entries).len() <= contents.len(),
        forall|k: int|
            0 <= k < packed_blobs(entries).len() ==> ((#[trigger] contents[k]) matches Ok(c) && c@ == held(
                packed_blobs(entries)[k],
            )),
    ensures
        all_faithful(packed_members(entries, contents)),
        unpack_run(read_backs(packed_members(entries, contents)), digest) == Ok::<Unpacking, UnpackFault>(
            Unpacking {
                entries: all_unmarked(entries),
                opaque: opaque_names(entries),
                contents: packed_blobs(entries).map_values(held),
            },
        ),
    decreases entries.len(),
{
    if entries.len() == 0 {
        assert(read_backs(packed_members(entries, contents)) =~= Seq::<MemberView>::empty());
        assert(all_unmarked(entries) =~= Seq::<EntryView>::empty());
        assert(packed_blobs(entries).map_values(held) =~= Seq::<Seq<u8>>::empty());
    } else {
        let before = entries.drop_last();
        let e = entries.last();
        lemma_all_but_last(entries, held);
        lemma_one_more(entries, contents, held);
        lemma_members_read_back(before, contents, held, digest);
        let s = Unpacking {
            entries: all_unmarked(before),
            opaque: opaque_names(before),
            contents: packed_blobs(before).map_values(held),
        };
        let first = last_first(entries);
        let content = last_content(entries, contents);
        let old_members = packed_members(before, contents);
        let new_members = members_for(e, first, content);
        let whole = old_members + new_members;
        assert(packed_members(entries, contents) == whole);
        assert(e.kind is File && first is Some ==> e.kind->File_size == held(e.kind->File_blob).len()) by {
            reveal(exchangeable);
        }
        if e.kind is File && first is Some {
            lemma_link_target(before, e.kind->File_blob, held);
        }
        lemma_members_return(e, first, content, read_backs(old_members), s, digest, held);
        assert(read_backs(whole) =~= read_backs(old_members) + read_backs(new_members));
        assert forall|i: int| 0 <= i < whole.len() implies faithful(#[trigger] whole[i]) by {
            if i < old_members.len() {
                assert(whole[i] == old_members[i]);
            } else {
                assert(whole[i] == new_members[i - old_members.len()]);
            }
        }
    }
}

/// A directory entry that is alone with its name is the one that is marked.
proof fn lemma_only_dir(entries: Seq<EntryView>, k: int, dir: Seq<char>)
    requires
        0 <= k < entries.len(),
        entries[k].kind is Dir,
        bare(entries[k].path) == bare(dir),
        forall|i: int| 0 <= i < k && (#[trigger] entries[i]).kind is Dir ==> bare(entries[i].path) != bare(dir),
    ensures
        dir_index(entries, dir) == Some(k),
    decreases entries.len(),
{
    let before = entries.drop_last();
    if k < entries.len() - 1 {
        assert(before[k] == entries[k]);
        lemma_only_dir(before, k, dir);
    } else {
        lemma_no_dir(before, dir);
    }
}

/// Without an entry of its name no directory is found.
proof fn lemma_no_dir(entries: Seq<EntryView>, dir: Seq<char>)
    requires
        forall|i: int|
            0 <= i < entries.len() && (#[trigger] entries[i]).kind is Dir ==> bare(entries[i].path) != bare(dir),
    ensures
        dir_index(entries, dir) is None,
    decreases entries.len(),
{
    if entries.len() > 0 {
        assert forall|i: int|
            0 <= i < entries.drop_last().len() && (#[trigger] entries.drop_last()[i]).kind is Dir implies bare(
            entries.drop_last()[i].path,
        ) != bare(dir) by {
            assert(entries[i] == entries.drop_last()[i]);
        }
        lemma_no_dir(entries.drop_last(), dir);
        assert(entries[entries.len() - 1] == entries.last());
    }
}

/// A directory entry comes back under its own name.
proof fn lemma_dir_name_returns(e: EntryView, held: spec_fn(Seq<u8>) -> Seq<u8>)
    requires
        exchangeable(e, held),
        e.kind is Dir,
    ensures
        bare(returned(e).path) == dir_name(e.path),
        bare(unmarked_return(e).path) == dir_name(e.path),
        bare(dir_name(e.path)) == dir_name(e.path),
{
    reveal(exchangeable);
    lemma_recorded_dir(e.path);
}

/// The markers of the first `n` entries make their directories opaque again.
proof fn lemma_marks_return(entries: Seq<EntryView>, n: int, held: spec_fn(Seq<u8>) -> Seq<u8>)
    requires
        0 <= n <= entries.len(),
        forall|i: int| 0 <= i < entries.len() ==> exchangeable(#[trigger] entries[i], held),
        distinct_dirs(entries),
    ensures
        with_opaques(all_unmarked(entries), opaque_names(entries.take(n))) == all_returned(entries).take(n)
            + all_unmarked(entries).skip(n),
    decreases n,
{
    let unmarked = all_unmarked(entries);
    let marked = all_returned(entries);
    if n == 0 {
        assert(marked.take(0) + unmarked.skip(0) =~= unmarked);
    } else {
        let e = entries[n - 1];
        let part = marked.take(n - 1) + unmarked.skip(n - 1);
        let whole = marked.take(n) + unmarked.skip(n);
        let upto = entries.take(n);
        lemma_marks_return(entries, n - 1, held);
        assert(upto.drop_last() =~= entries.take(n - 1));
        assert(upto.last() == e);
        assert(marked[n - 1] == returned(e));
        assert(unmarked[n - 1] == unmarked_return(e));
        assert(part[n - 1] == unmarked_return(e));
        if e.kind == (KindView::Dir { opaque: true }) {
            let name = dir_name(e.path);
            lemma_dir_name_returns(e, held);
            assert forall|i: int| 0 <= i < n - 1 && (#[trigger] part[i]).kind is Dir implies bare(part[i].path)
                != bare(name) by {
                let x = entries[i];
                assert(part[i] == returned(x));
                lemma_dir_name_returns(x, held);
                assert(entries[n - 1] == e);
            }
            lemma_only_dir(part, n - 1, name);
            assert(opaque_names(upto) == opaque_names(upto.drop_last()).push(name));
            assert(opaque_names(upto).drop_last() =~= opaque_names(upto.drop_last()));
            assert(whole =~= part.update(n - 1, returned(e)));
        } else {
            assert(opaque_names(upto) == opaque_names(upto.drop_last()));
            assert(returned(e) == unmarked_return(e));
            assert(whole =~= part);
        }
    }
}

/// Pushing reverses pulling: reading back the archive that a layer is packed
/// into gives the layer's entries again, with the same opaque directories and
/// the same contents. All that is lost is the mode and owner of a deletion,
/// and slashes behind a directory's path.
pub proof fn layer_survives_the_archive(
    entries: Seq<EntryView>,
    contents: Seq<Result<Vec<u8>, Error>>,
    held: spec_fn(Seq<u8>) -> Seq<u8>,
    digest: Seq<char>,
)
    requires
        forall|i: int| 0 <= i < entries.len() ==> exchangeable(#[trigger] entries[i], held),
        distinct_files(entries),
        distinct_dirs(entries),
        packed_blobs(entries).len() <= contents.len(),
        forall|k: int|
            0 <= k < packed_blobs(entries).len() ==> ((#[trigger] contents[k]) matches Ok(c) && c@ == held(
                packed_blobs(entries)[k],
            )),
    ensures
        all_faithful(packed_members(entries, contents)),
        unpack_run(read_backs(packed_members(entries, contents)), digest) matches Ok(s) && unpacked_entries(s)
            == in_order(all_returned(entries)) && s.contents == packed_blobs(entries).map_values(held),
{
    lemma_members_read_back(entries, contents, held, digest);
    lemma_marks_return(entries, entries.len() as int, held);
    assert(entries.take(entries.len() as int) =~= entries);
    assert(all_returned(entries).take(entries.len() as int) + all_unmarked(entries).skip(entries.len() as int)
        =~= all_returned(entries));
}

// ---- What members mean -----------------------------------------------------

/// A path is the same with `./` in front of it, and stands for itself without.
pub proof fn leading_dots_do_not_count(p: Seq<char>)
    ensures
        without_dots(seq!['.', '/'] + p) == without_dots(p),
        p.len() < 2 || p[0] != '.' || p[1] != '/' ==> without_dots(p) == p,
{
    assert((seq!['.', '/'] + p).skip(2) =~= p);
}

/// A member called `.wh.<name>` in a directory deletes `<name>` there, and one
/// called `.wh..wh..opq` makes the directory opaque, whatever else they say.
pub proof fn marked_names_are_deletions(
    m: RecordView,
    o: RecordView,
    dir: Seq<char>,
    name: Seq<char>,
    digest: Seq<char>,
    entries: Seq<EntryView>,
)
    requires
        dir.len() > 0,
        !name.contains('/'),
        name != ".wh..opq"@,
        without_dots(m.path) == dir + "/.wh."@ + name,
        without_dots(o.path) == dir + "/.wh..wh..opq"@,
    ensures
        meaning(m, digest, entries) == Meaning::Add(
            EntryView { path: dir + seq!['/'] + name, mode: 0, uid: 0, gid: 0, kind: KindView::Whiteout },
        ),
        meaning(o, digest, entries) == Meaning::Opaque(dir),
{
    reveal_strlit("/");
    reveal_strlit(".");
    reveal_strlit(".wh.");
    reveal_strlit("/.wh.");
    reveal_strlit(".wh..opq");
    reveal_strlit(".wh..wh..opq");
    reveal_strlit("/.wh..wh..opq");
    let base = ".wh."@ + name;
    assert forall|i: int| 0 <= i < base.len() implies base[i] != '/' by {
        if i >= 4 {
            assert(name.contains(name[i - 4]));
        }
    }
    assert(dir + "/.wh."@ + name =~= dir + seq!['/'] + base);
    crate::text::texts_are_cut_behind(dir, '/', base);
    crate::text::prefixes_and_suffixes_come_off(".wh."@, name, base);
    if base == ".wh..wh..opq"@ {
        assert(name =~= base.skip(4));
        assert(".wh..opq"@ =~= ".wh..wh..opq"@.skip(4));
    }
    let mark = ".wh..wh..opq"@;
    assert(dir + "/.wh..wh..opq"@ =~= dir + seq!['/'] + mark);
    crate::text::texts_are_cut_behind(dir, '/', mark);
    assert(dir + "/"@ + name =~= dir + seq!['/'] + name);
}

/// Whether a member has a name of its own, rather than that of a marker or of
/// the top of the archive.
pub open spec fn named(m: RecordView) -> bool {
    let path = without_dots(m.path);
    &&& path.len() > 0
    &&& path != "."@
    &&& !(".wh."@.is_prefix_of(dir_and_base(path).1))
}

/// A member with a name of its own becomes an entry under that name, with its
/// own permissions and owner: a directory, without the slash at its end, a link
/// with its target, or a file with its content.
pub proof fn members_become_entries(m: RecordView, digest: Seq<char>, entries: Seq<EntryView>)
    requires
        named(m),
        m.kind == 48 || m.kind == 50 || m.kind == 53,
        m.kind == 48 ==> m.content is Ok,
    ensures
        ({
            let e = meaning(m, digest, entries)->Add_0;
            &&& meaning(m, digest, entries) is Add
            &&& m.mode matches Some(x) ==> e.mode == x % 4096
            &&& m.mode is None ==> e.mode == 420
            &&& m.uid matches Some(x) ==> (x <= u32::MAX ==> e.uid == x)
            &&& m.gid matches Some(x) ==> (x <= u32::MAX ==> e.gid == x)
            &&& m.uid is None ==> e.uid == 0
            &&& m.gid is None ==> e.gid == 0
            &&& m.kind == 48 ==> e.path == without_dots(m.path) && (e.kind matches KindView::File { blob, size } && blob
                == sha256(m.content->Ok_0) && (m.size matches Some(n) ==> size == n))
            &&& m.kind == 50 ==> e.path == without_dots(m.path) && (m.link matches Some(t) ==> e.kind == (
            KindView::Symlink { target: t }))
            &&& m.kind == 53 ==> e.kind == (KindView::Dir { opaque: false }) && e.path == directory_path(
                without_dots(m.path),
            )
        }),
{
    lemma_no_marker(m);
    let mode = match m.mode {
        Some(x) => x,
        None => 0o644,
    };
    crate::store::permission_bits_are_the_low_ones(mode);
}

/// A named member is no marker.
proof fn lemma_no_marker(m: RecordView)
    requires
        named(m),
    ensures
        ({
            let base = dir_and_base(without_dots(m.path)).1;
            base != ".wh..wh..opq"@ && without_prefix(base, ".wh."@) is None
        }),
{
    reveal_strlit(".wh.");
    reveal_strlit(".wh..wh..opq");
    assert(".wh."@ =~= ".wh..wh..opq"@.subrange(0, 4));
    let base = dir_and_base(without_dots(m.path)).1;
    if let Some(rest) = without_prefix(base, ".wh."@) {
        crate::text::prefixes_and_suffixes_come_off(".wh."@, rest, base);
        assert((".wh."@ + rest).subrange(0, 4) =~= ".wh."@);
    }
}

/// A directory is known by its path without the slash at its end.
pub proof fn directories_lose_their_slash(p: Seq<char>)
    requires
        p.len() > 0,
        p.last() != '/',
    ensures
        directory_path(p + seq!['/']) == p,
        directory_path(p) == p,
{
    let s = p + seq!['/'];
    assert(s.drop_last() =~= p);
    reveal_with_fuel(bare, 3);
    assert(bare(s) == bare(p));
}

/// A hard link repeats the file that the archive holds under the linked name,
/// the latest one where there are several, under a name and with permissions of
/// its own.
pub proof fn links_repeat_their_file(
    m: RecordView,
    digest: Seq<char>,
    a: Seq<EntryView>,
    f: EntryView,
    b: Seq<EntryView>,
)
    requires
        named(m),
        m.kind == 49,
        m.link == Some(f.path),
        without_dots(f.path) == f.path,
        f.kind is File,
        forall|i: int| 0 <= i < b.len() ==> (#[trigger] b[i]).path != f.path,
    ensures
        ({
            let e = meaning(m, digest, a + seq![f] + b);
            &&& e is Add
            &&& e->Add_0.path == without_dots(m.path)
            &&& e->Add_0.kind == f.kind
            &&& m.mode matches Some(x) ==> e->Add_0.mode == x % 4096
        }),
{
    lemma_no_marker(m);
    lemma_latest_file(a, f, b);
    let mode = match m.mode {
        Some(x) => x,
        None => 0o644,
    };
    crate::store::permission_bits_are_the_low_ones(mode);
}

/// The latest file of a path.
proof fn lemma_latest_file(a: Seq<EntryView>, f: EntryView, b: Seq<EntryView>)
    requires
        f.kind is File,
        forall|i: int| 0 <= i < b.len() ==> (#[trigger] b[i]).path != f.path,
    ensures
        file_at(a + seq![f] + b, f.path) == Some((f.kind->blob, f.kind->size)),
    decreases b.len(),
{
    let all = a + seq![f] + b;
    if b.len() == 0 {
        assert(all.last() == f);
    } else {
        assert(all.last() == b[b.len() - 1]);
        assert(all.drop_last() =~= a + seq![f] + b.drop_last());
        assert forall|i: int| 0 <= i < b.drop_last().len() implies (#[trigger] b.drop_last()[i]).path != f.path by {
            assert(b.drop_last()[i] == b[i]);
        }
        lemma_latest_file(a, f, b.drop_last());
    }
}

/// Marking a directory opaque changes its entry alone, and nothing of it but
/// the mark; a directory without an entry gets one.
pub proof fn opaque_marks_change_one_entry(entries: Seq<EntryView>, i: int, dir: Seq<char>)
    requires
        forall|k: int|
            0 <= k < entries.len() && k != i ==> !((#[trigger] entries[k]).kind is Dir) || bare(entries[k].path) != bare(
                dir,
            ),
    ensures
        0 <= i < entries.len() && entries[i].kind is Dir && bare(entries[i].path) == bare(dir) ==> with_opaque(
            entries,
            dir,
        ) == entries.update(i, EntryView { kind: KindView::Dir { opaque: true }, ..entries[i] }),
        !(0 <= i < entries.len()) ==> with_opaque(entries, dir) == entries.push(
            EntryView { path: dir, mode: 493, uid: 0, gid: 0, kind: KindView::Dir { opaque: true } },
        ),
{
    lemma_single_directory(entries, i, dir);
}

/// The index of the only entry for a directory.
proof fn lemma_single_directory(entries: Seq<EntryView>, i: int, dir: Seq<char>)
    requires
        forall|k: int|
            0 <= k < entries.len() && k != i ==> !((#[trigger] entries[k]).kind is Dir) || bare(entries[k].path) != bare(
                dir,
            ),
    ensures
        0 <= i < entries.len() && entries[i].kind is Dir && bare(entries[i].path) == bare(dir) ==> dir_index(
            entries,
            dir,
        ) == Some(i),
        !(0 <= i < entries.len()) ==> dir_index(entries, dir) is None,
    decreases entries.len(),
{
    if entries.len() > 0 {
        let before = entries.drop_last();
        assert forall|k: int| 0 <= k < before.len() && k != i implies !((#[trigger] before[k]).kind is Dir) || bare(
            before[k].path,
        ) != bare(dir) by {
            assert(before[k] == entries[k]);
        }
        lemma_single_directory(before, i, dir);
        if 0 <= i < before.len() {
            assert(before[i] == entries[i]);
        }
        assert(entries.last() == entries[entries.len() - 1]);
    }
}

/// The content of a file goes into the store with it, and nothing else puts
/// anything there: what was there stays, in order.
pub proof fn contents_of_files_are_stored(s: Unpacking, m: RecordView, digest: Seq<char>)
    requires
        unpack_step(s, Ok(m), digest) is Ok,
    ensures
        ({
            let t = unpack_step(s, Ok(m), digest)->Ok_0;
            &&& named(m) && m.kind == 48 ==> t.contents == s.contents.push(m.content->Ok_0)
            &&& !named(m) || m.kind == 49 || m.kind == 50 || m.kind == 53 ==> t.contents == s.contents
            &&& t.entries.len() >= s.entries.len() && t.entries.take(s.entries.len() as int) == s.entries
        }),
{
    if named(m) {
        lemma_no_marker(m);
    } else {
        let path = without_dots(m.path);
        let base = dir_and_base(path).1;
        if path.len() > 0 && path != "."@ {
            assert(base =~= ".wh."@ + base.skip(".wh."@.len() as int));
            crate::text::prefixes_and_suffixes_come_off(".wh."@, base.skip(".wh."@.len() as int), base);
        }
    }
    let t = unpack_step(s, Ok(m), digest)->Ok_0;
    assert(t.entries.take(s.entries.len() as int) =~= s.entries);
}

} // verus!
