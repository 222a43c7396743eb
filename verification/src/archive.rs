//! Gzipped tar archives: reading the members of one, and writing one.

use crate::text::{joined, pieces};
use std::io::Read;
use vstd::prelude::*;
use vstd::utf8::encode_utf8;

verus! {

/// The type byte of a regular file.
pub const REGULAR: u8 = 48;

/// The type byte of a hard link.
pub const HARD_LINK: u8 = 49;

/// The type byte of a symbolic link.
pub const SYMLINK: u8 = 50;

/// The type byte of a directory.
pub const DIRECTORY: u8 = 53;

/// The type byte of a contiguous file.
pub const CONTINUOUS: u8 = 55;

/// The type byte of a pax header for the next member.
pub const PAX_HEADER: u8 = 120;

/// The type byte of a pax header for all members.
pub const PAX_GLOBAL_HEADER: u8 = 103;

/// One member of an archive, as read. A field that the header holds in a
/// malformed way is missing; what could not be read is an error text.
pub struct TarRecord {
    pub path: String,
    pub mode: Option<u32>,
    pub uid: Option<u64>,
    pub gid: Option<u64>,
    pub size: Option<u64>,
    pub kind: u8,
    pub kind_name: String,
    pub link: Option<String>,
    pub content: Result<Vec<u8>, String>,
}

/// The mathematical content of a [`TarRecord`].
#[verifier::ext_equal]
pub struct RecordView {
    pub path: Seq<char>,
    pub mode: Option<u32>,
    pub uid: Option<u64>,
    pub gid: Option<u64>,
    pub size: Option<u64>,
    pub kind: u8,
    pub kind_name: Seq<char>,
    pub link: Option<Seq<char>>,
    pub content: Result<Seq<u8>, Seq<char>>,
}

impl View for TarRecord {
    type V = RecordView;

    open spec fn view(&self) -> RecordView {
        RecordView {
            path: self.path@,
            mode: self.mode,
            uid: self.uid,
            gid: self.gid,
            size: self.size,
            kind: self.kind,
            kind_name: self.kind_name@,
            link: crate::image::opt_text(self.link),
            content: match self.content {
                Ok(c) => Ok(c@),
                Err(e) => Err(e@),
            },
        }
    }
}

/// What reading an archive yields: members, and where it breaks off, an error text.
pub type MemberView = Result<RecordView, Seq<char>>;

/// The contents of the items that reading an archive yielded.
pub open spec fn member_views(v: Seq<Result<TarRecord, String>>) -> Seq<MemberView> {
    v.map_values(
        |m: Result<TarRecord, String>|
            match m {
                Ok(r) => Ok::<RecordView, Seq<char>>(r@),
                Err(e) => Err::<RecordView, Seq<char>>(e@),
            },
    )
}

/// One member of an archive, its header still in bytes.
pub struct RawRecord {
    pub path: String,
    pub link: Option<String>,
    pub header: [u8; 512],
    pub content: Result<Vec<u8>, String>,
}

/// The mathematical content of a [`RawRecord`].
#[verifier::ext_equal]
pub struct RawView {
    pub path: Seq<char>,
    pub link: Option<Seq<char>>,
    pub header: Seq<u8>,
    pub content: Result<Seq<u8>, Seq<char>>,
}

impl View for RawRecord {
    type V = RawView;

    open spec fn view(&self) -> RawView {
        RawView {
            path: self.path@,
            link: crate::image::opt_text(self.link),
            header: self.header@,
            content: match self.content {
                Ok(c) => Ok(c@),
                Err(e) => Err(e@),
            },
        }
    }
}

/// The contents of the items that reading an archive yielded.
pub open spec fn raw_views(v: Seq<Result<RawRecord, String>>) -> Seq<Result<RawView, Seq<char>>> {
    v.map_values(
        |m: Result<RawRecord, String>|
            match m {
                Ok(r) => Ok::<RawView, Seq<char>>(r@),
                Err(e) => Err::<RawView, Seq<char>>(e@),
            },
    )
}

/// What `tar` and `flate2` read from a gzipped archive.
pub uninterp spec fn raw_members(blob: Seq<u8>) -> Seq<Result<RawView, Seq<char>>>;

/// Reads a gzipped tar archive with `flate2::read::GzDecoder` and
/// `tar::Archive::entries`: its members in order, names as lossy text, up to
/// the first place where the archive cannot be read on. What comes out
/// depends on the bytes alone.
#[verifier::external_body]
fn read_raw(blob: &[u8]) -> (r: Vec<Result<RawRecord, String>>)
    ensures
        raw_views(r@) == raw_members(blob@),
{
    let mut tar = tar::Archive::new(flate2::read::GzDecoder::new(blob));
    let list = tar.entries().expect("a new archive is at its start");
    let text = |x: std::io::Error| x.to_string();
    let read = list.map(|e| {
        let (mut e, mut data) = (e?, Vec::new());
        let content = e.read_to_end(&mut data).map(|_| data).map_err(text);
        let link = e.link_name()?.map(|p| p.to_string_lossy().into_owned());
        let path = e.path()?.to_string_lossy().into_owned();
        Ok(RawRecord { path, link, header: *e.header().as_bytes(), content })
    });
    read.map(|r| r.map_err(text)).collect()
}

/// What a member's header says.
pub struct HeaderFields {
    pub mode: Option<u32>,
    pub uid: Option<u64>,
    pub gid: Option<u64>,
    pub size: Option<u64>,
    pub kind: u8,
    pub kind_name: String,
}

/// The mathematical content of [`HeaderFields`].
pub struct HeaderView {
    pub mode: Option<u32>,
    pub uid: Option<u64>,
    pub gid: Option<u64>,
    pub size: Option<u64>,
    pub kind: u8,
    pub kind_name: Seq<char>,
}

impl View for HeaderFields {
    type V = HeaderView;

    open spec fn view(&self) -> HeaderView {
        HeaderView {
            mode: self.mode,
            uid: self.uid,
            gid: self.gid,
            size: self.size,
            kind: self.kind,
            kind_name: self.kind_name@,
        }
    }
}

/// What `tar` reads from the bytes of a header.
pub uninterp spec fn header_fields(header: Seq<u8>) -> HeaderView;

/// `tar::Header::from_byte_slice` and the fields it gives: mode, owner, size
/// and type; a number that is malformed is missing. What comes out depends
/// on the bytes alone.
#[verifier::external_body]
fn read_header(header: &[u8; 512]) -> (r: HeaderFields)
    ensures
        r@ == header_fields(header@),
{
    let h = tar::Header::from_byte_slice(header);
    let (mode, uid, gid, size) = (h.mode().ok(), h.uid().ok(), h.gid().ok(), h.size().ok());
    let (kind, kind_name) = (h.entry_type().as_byte(), format!("{:?}", h.entry_type()));
    HeaderFields { mode, uid, gid, size, kind, kind_name }
}

/// A member, with its header read.
pub open spec fn member_of(m: Result<RawView, Seq<char>>) -> MemberView {
    match m {
        Ok(r) => {
            let h = header_fields(r.header);
            Ok(
                RecordView {
                    path: r.path,
                    mode: h.mode,
                    uid: h.uid,
                    gid: h.gid,
                    size: h.size,
                    kind: h.kind,
                    kind_name: h.kind_name,
                    link: r.link,
                    content: r.content,
                },
            )
        },
        Err(e) => Err(e),
    }
}

/// The members of a gzipped archive.
pub open spec fn members(blob: Seq<u8>) -> Seq<MemberView> {
    raw_members(blob).map_values(|m: Result<RawView, Seq<char>>| member_of(m))
}

/// The members of a gzipped archive, in order, up to the first place where it
/// cannot be read on.
pub fn read_archive(blob: &[u8]) -> (r: Vec<Result<TarRecord, String>>)
    ensures
        member_views(r@) == members(blob@),
{
    let raw = read_raw(blob);
    let ghost whole = raw@;
    let ghost all = members(blob@);
    let mut rest = crate::order::reversed(raw);
    let mut out: Vec<Result<TarRecord, String>> = Vec::new();
    assert(rest@ =~= whole.reverse().take(rest@.len() as int));
    assert(member_views(out@) =~= all.take(0));
    while rest.len() > 0
        invariant
            rest@.len() <= whole.len(),
            rest@ == whole.reverse().take(rest@.len() as int),
            raw_views(whole) == raw_members(blob@),
            all == members(blob@),
            out@.len() == whole.len() - rest@.len(),
            member_views(out@) == all.take(whole.len() - rest@.len()),
        decreases rest.len(),
    {
        let ghost n = whole.len() - rest@.len();
        if let Some(item) = rest.pop() {
            proof {
                assert(item == whole[n]);
                assert(rest@ =~= whole.reverse().take(rest@.len() as int));
                assert(raw_views(whole)[n] == raw_members(blob@)[n]);
            }
            let next = match item {
                Ok(r) => {
                    let h = read_header(&r.header);
                    Ok(
                        TarRecord {
                            path: r.path,
                            mode: h.mode,
                            uid: h.uid,
                            gid: h.gid,
                            size: h.size,
                            kind: h.kind,
                            kind_name: h.kind_name,
                            link: r.link,
                            content: r.content,
                        },
                    )
                },
                Err(e) => Err(e),
            };
            proof {
                assert(member_views(out@.push(next)) =~= member_views(out@).push(all[n]));
                assert(all.take(n + 1) =~= all.take(n).push(all[n]));
            }
            out.push(next);
        }
    }
    assert(all.take(whole.len() as int) =~= all);
    out
}

// ---- Writing ---------------------------------------------------------------

/// A gzipped archive under construction: `tar`'s builder over `flate2`'s encoder.
#[verifier::external_body]
pub struct Packer {
    inner: tar::Builder<flate2::write::GzEncoder<Vec<u8>>>,
}

/// A member as it was written: what its header says, and its content.
#[verifier::ext_equal]
pub struct Written {
    pub path: Seq<char>,
    pub mode: u32,
    pub uid: u32,
    pub gid: u32,
    pub size: u64,
    pub kind: u8,
    pub link: Option<Seq<char>>,
    pub content: Seq<u8>,
}

/// The members that were written to an archive under construction.
pub uninterp spec fn written(p: Packer) -> Seq<Written>;

/// What `tar` objects to when a member of this name is appended, if anything.
pub uninterp spec fn name_fault(path: Seq<char>) -> Option<Seq<char>>;

/// What `tar` objects to when a link of this name and target is appended, if anything.
pub uninterp spec fn link_fault(path: Seq<char>, target: Seq<char>) -> Option<Seq<char>>;

/// The gzipped bytes of the archive with these members; or an error text,
/// and whether the archive was closed by then.
pub uninterp spec fn packed(members: Seq<Written>) -> Result<Seq<u8>, (bool, Seq<char>)>;

/// The parts of a path that an archive keeps.
pub open spec fn kept_parts(path: Seq<char>) -> Seq<Seq<char>> {
    pieces(path, '/').filter(|s: Seq<char>| s.len() > 0 && s != seq!['.'])
}

/// A path as an archive records it: without empty and `.` parts, but with a
/// slash at the end where it had one.
pub open spec fn recorded_path(path: Seq<char>) -> Seq<char> {
    joined(kept_parts(path), seq!['/']) + (if path.len() > 0 && path.last() == '/' {
        seq!['/']
    } else {
        Seq::empty()
    })
}

/// A path that an archive takes and gives back as it is recorded: relative,
/// not empty, without `..` parts, and short enough for a header unless it is
/// recorded unchanged.
pub open spec fn recordable(path: Seq<char>) -> bool {
    &&& path.len() > 0
    &&& path[0] != '/'
    &&& !path.contains('\0')
    &&& !pieces(path, '/').contains(seq!['.', '.'])
    &&& kept_parts(path).len() > 0
    &&& encode_utf8(path).len() <= 100 || recorded_path(path) == path
}

/// A link target that an archive gives back unchanged: no empty or `.` parts,
/// apart from a slash at either end.
pub open spec fn recordable_target(target: Seq<char>) -> bool {
    let tail = if target.len() > 0 && target[0] == '/' {
        target.skip(1)
    } else {
        target
    };
    &&& tail.len() > 0
    &&& !target.contains('\0')
    &&& recorded_path(tail) == tail
}

/// A member that reads back as it was written.
pub open spec fn faithful(w: Written) -> bool {
    &&& recordable(w.path)
    &&& w.mode < 0x20_0000
    &&& w.size == w.content.len()
    &&& match w.link {
        Some(t) => (w.kind == HARD_LINK || w.kind == SYMLINK) && w.size == 0 && recordable_target(t),
        None => w.kind == REGULAR || w.kind == DIRECTORY,
    }
}

/// The name `tar` has for the type of a written member.
pub open spec fn kind_text(kind: u8) -> Seq<char> {
    if kind == REGULAR {
        "Regular"@
    } else if kind == HARD_LINK {
        "Link"@
    } else if kind == SYMLINK {
        "Symlink"@
    } else {
        "Directory"@
    }
}

/// What is read back of a member that was written.
pub open spec fn read_back(w: Written) -> MemberView {
    Ok(
        RecordView {
            path: recorded_path(w.path),
            mode: Some(w.mode),
            uid: Some(w.uid as u64),
            gid: Some(w.gid as u64),
            size: Some(w.size),
            kind: w.kind,
            kind_name: kind_text(w.kind),
            link: w.link,
            content: Ok(w.content),
        },
    )
}

/// What is read back of members that were written.
pub open spec fn read_backs(v: Seq<Written>) -> Seq<MemberView> {
    v.map_values(|w: Written| read_back(w))
}

/// An archive without members, from `tar::Builder::new` over
/// `flate2::write::GzEncoder::new` at the default compression.
#[verifier::external_body]
pub(crate) fn new_archive() -> (r: Packer)
    ensures
        written(r) == Seq::<Written>::empty(),
{
    let gz = flate2::write::GzEncoder::new(Vec::new(), flate2::Compression::default());
    Packer { inner: tar::Builder::new(gz) }
}

/// A GNU header as `tar::Header::new_gnu` and its setters make it, appended
/// with `tar::Builder::append_data`: the member is written unless `tar`
/// objects to its name, which it does not for a recordable one. What an
/// objection leaves in the archive is not said.
#[verifier::external_body]
pub(crate) fn append_member(
    archive: &mut Packer,
    path: &str,
    mode: u32,
    owner: (u32, u32),
    size: u64,
    kind: u8,
    content: &[u8],
) -> (r: Result<(), String>)
    ensures
        match r {
            Ok(_) => name_fault(path@) is None && written(*final(archive)) == written(*old(archive)).push(
                (Written {
                    path: path@,
                    mode,
                    uid: owner.0,
                    gid: owner.1,
                    size,
                    kind,
                    link: None,
                    content: content@,
                }),
            ),
            Err(m) => name_fault(path@) == Some(m@) && !recordable(path@),
        },
{
    let mut header = tar::Header::new_gnu();
    header.set_mode(mode);
    header.set_uid(owner.0 as u64);
    header.set_gid(owner.1 as u64);
    header.set_size(size);
    header.set_entry_type(tar::EntryType::new(kind));
    archive.inner.append_data(&mut header, path, content).map_err(|e| e.to_string())
}

/// A link of type `kind`, appended with `tar::Builder::append_link` under a
/// GNU header of size 0: written unless `tar` objects to its name or target,
/// which it does not for recordable ones. What an objection leaves in the
/// archive is not said.
#[verifier::external_body]
pub(crate) fn append_link(
    archive: &mut Packer,
    path: &str,
    mode: u32,
    owner: (u32, u32),
    kind: u8,
    target: &str,
) -> (r: Result<(), String>)
    ensures
        match r {
            Ok(_) => link_fault(path@, target@) is None && written(*final(archive)) == written(
                *old(archive),
            ).push(
                (Written {
                    path: path@,
                    mode,
                    uid: owner.0,
                    gid: owner.1,
                    size: 0,
                    kind,
                    link: Some(target@),
                    content: Seq::empty(),
                }),
            ),
            Err(m) => link_fault(path@, target@) == Some(m@) && !(recordable(path@) && recordable_target(
                target@,
            )),
        },
{
    let mut header = tar::Header::new_gnu();
    header.set_mode(mode);
    header.set_uid(owner.0 as u64);
    header.set_gid(owner.1 as u64);
    header.set_size(0);
    header.set_entry_type(tar::EntryType::new(kind));
    archive.inner.append_link(&mut header, path, target).map_err(|e| e.to_string())
}

/// Whether every member reads back as it was written.
pub open spec fn all_faithful(v: Seq<Written>) -> bool {
    forall|i: int| 0 <= i < v.len() ==> faithful(#[trigger] v[i])
}

/// Closes the archive with `tar::Builder::into_inner` and ends it with
/// `flate2::write::GzEncoder::finish`. The bytes depend on the written
/// members alone. Faithful members are no reason to fail, and reading the
/// bytes gives them back.
#[verifier::external_body]
pub(crate) fn finish_archive(archive: Packer) -> (r: Result<Vec<u8>, (bool, String)>)
    ensures
        match r {
            Ok(b) => packed(written(archive)) == Ok::<Seq<u8>, (bool, Seq<char>)>(b@) && (all_faithful(
                written(archive),
            ) ==> members(b@) == read_backs(written(archive))),
            Err(e) => packed(written(archive)) == Err::<Seq<u8>, (bool, Seq<char>)>((e.0, e.1@)) && !all_faithful(
                written(archive),
            ),
        },
{
    match archive.inner.into_inner() {
        Ok(gz) => gz.finish().map_err(|e| (true, e.to_string())),
        Err(e) => Err((false, e.to_string())),
    }
}

} // verus!
