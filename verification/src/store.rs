//! The content-addressed blob store: every regular file's content is kept
//! once, under its SHA-256 hash. This module names things by their content
//! and decides what has to happen on disk; carrying it out is the caller's
//! part. Wherever a decision depends on what is on disk, the caller passes
//! `files`: the paths, among those asked about, that are regular files.

use crate::codec::{hex_bytes, hex_decode, hex_encode, hex_text};
use crate::error::Error;
use crate::num::{decimal, u64_text};
use crate::paths::{joined_path, path_join};
use crate::text::{cat3, str_eq, trim, trimmed, views};
use sha2::Digest;
use vstd::prelude::*;
use vstd::utf8::encode_utf8;

verus! {

/// The SHA-256 digest of a byte string.
pub uninterp spec fn sha256(data: Seq<u8>) -> Seq<u8>;

/// `sha2::Sha256` over `data`: 32 bytes that depend on `data` alone.
#[verifier::external_body]
pub(crate) fn sha256_of(data: &[u8]) -> (r: [u8; 32])
    ensures
        r@ == sha256(data@),
{
    sha2::Sha256::digest(data).into()
}

/// A SHA-256 content hash, shown as 64 lower case hexadecimal digits.
#[derive(Debug, Clone, Copy, PartialEq, Eq, PartialOrd, Ord, Hash)]
pub struct Hash(pub [u8; 32]);

impl View for Hash {
    type V = Seq<u8>;

    open spec fn view(&self) -> Seq<u8> {
        self.0@
    }
}

impl Hash {
    /// The hash of `data`.
    pub fn of_bytes(data: &[u8]) -> (r: Hash)
        ensures
            r@ == sha256(data@),
            r@.len() == 32,
    {
        Hash(sha256_of(data))
    }

    /// The hash as 64 lower case hexadecimal digits.
    pub fn to_hex(self) -> (r: String)
        ensures
            r@ == hex_text(self@),
            r@.len() == 64,
    {
        hex_encode(self.0.as_slice())
    }

    /// The hash that `s` names: exactly 64 hexadecimal digits of either case.
    pub fn from_hex(s: &str) -> (r: Result<Hash, Error>)
        ensures
            match r {
                Ok(h) => hash_named(s@) == Some(h@),
                Err(e) => hash_named(s@) is None && (e matches Error::InvalidHash(t) && t@ == s@),
            },
    {
        match hex_decode(s) {
            Ok(bytes) => {
                if bytes.len() != 32 {
                    return Err(Error::InvalidHash(s.to_owned()));
                }
                Ok(Hash(array32(&bytes)))
            },
            Err(_) => Err(Error::InvalidHash(s.to_owned())),
        }
    }

    /// Whether two hashes are the same.
    pub fn same(&self, other: &Hash) -> (r: bool)
        ensures
            r == (self@ == other@),
    {
        crate::codec::bytes_eq(self.0.as_slice(), other.0.as_slice())
    }
}

/// The hash that `s` names, if it names one.
pub open spec fn hash_named(s: Seq<char>) -> Option<Seq<u8>> {
    match hex_bytes(encode_utf8(s)) {
        Some(b) => if b.len() == 32 {
            Some(b)
        } else {
            None
        },
        None => None,
    }
}

/// The 32 bytes of `v` as an array.
pub fn array32(v: &Vec<u8>) -> (r: [u8; 32])
    requires
        v@.len() == 32,
    ensures
        r@ == v@,
{
    let mut a: [u8; 32] = [0u8; 32];
    let mut i: usize = 0;
    while i < 32
        invariant
            i <= 32,
            v@.len() == 32,
            forall|j: int| 0 <= j < i ==> a@[j] == v@[j],
        decreases 32 - i,
    {
        a[i] = v[i];
        i += 1;
    }
    assert(a@ == v@);
    a
}

/// Reading back a hash's own text gives that hash.
pub proof fn hash_text_round_trip(h: Hash)
    ensures
        hash_named(hex_text(h@)) == Some(h@),
{
    crate::codec::hex_round_trip(h@);
}

/// Whether `path` is among `files`.
pub fn listed(files: &Vec<String>, path: &str) -> (r: bool)
    ensures
        r == views(files@).contains(path@),
{
    let mut i: usize = 0;
    while i < files.len()
        invariant
            i <= files@.len(),
            forall|j: int| 0 <= j < i ==> #[trigger] views(files@)[j] != path@,
        decreases files.len() - i,
    {
        assert(views(files@)[i as int] == files@[i as int]@);
        if str_eq(files[i].as_str(), path) {
            return true;
        }
        i += 1;
    }
    false
}

/// A suffix that no other temporary file of the same process carries:
/// the process id and a counter.
pub fn unique_suffix(pid: u32, count: u64) -> (r: String)
    ensures
        r@ == decimal(pid as nat) + "-"@ + decimal(count as nat),
{
    let a = u64_text(pid as u64);
    let b = u64_text(count);
    cat3(a.as_str(), "-", b.as_str())
}

/// Where new content for `dest` is written before it is renamed onto `dest`.
pub fn temporary_name(dest: &str, suffix: &str) -> (r: String)
    ensures
        r@ == dest@ + ".tmp-"@ + suffix@,
{
    cat3(dest, ".tmp-", suffix)
}

/// A file to be written: its directory, its path and its content.
pub struct FileWrite {
    pub dir: String,
    pub path: String,
    pub content: Vec<u8>,
}

/// What storing some bytes comes to: their hash, and the directory and path
/// to write them under if they are not stored yet.
pub struct Put {
    pub hash: Hash,
    pub write: Option<(String, String)>,
}

/// What becomes of a stream that was copied to a temporary file: the hash of
/// what was copied, and where the temporary file moves to. Without a
/// destination the content is stored already and the file is removed.
pub struct PutStream {
    pub hash: Hash,
    pub temporary: String,
    pub rename_to: Option<(String, String)>,
}

/// A blob file as found on disk.
#[derive(Clone, Copy)]
pub struct BlobMeta {
    pub mode: u32,
    pub uid: u32,
    pub gid: u32,
    pub links: u64,
}

/// How a blob gets to its place. `Link` shares the blob's own file, stamped
/// with the requested mode and owner first if `stamp` is set; `Copy` makes an
/// independent file and stamps that.
#[derive(Clone, Copy, PartialEq, Eq, Structural)]
pub enum Placing {
    Link { stamp: bool },
    Copy,
}

/// The placement of a blob at a destination.
pub struct Placement {
    pub source: String,
    pub how: Placing,
}

/// What to do once linking a blob to its destination was tried.
#[derive(Clone, Copy, PartialEq, Eq, Structural)]
pub enum Linking {
    Done,
    CopyInstead,
    Failed,
}

/// The error number of a link across file systems.
pub const EXDEV: i32 = 18;

/// The permission bits of a file mode.
pub open spec fn permission_bits(mode: u32) -> u32 {
    mode & 0o7777
}

/// The store's root on disk; everything Kiln keeps lives under it.
pub struct Store {
    pub root: String,
}

/// Where the blob with the given hash lives under `root`.
pub open spec fn blob_location(root: Seq<char>, hash: Seq<u8>) -> Seq<char> {
    let hex = hex_text(hash);
    joined_path(joined_path(joined_path(root, "blobs"@), hex.take(2)), hex)
}

/// The directory of the blob with the given hash.
pub open spec fn blob_directory(root: Seq<char>, hash: Seq<u8>) -> Seq<char> {
    joined_path(joined_path(root, "blobs"@), hex_text(hash).take(2))
}

/// The bytes of a stream that arrives in chunks.
pub open spec fn stream_bytes(chunks: Seq<Vec<u8>>) -> Seq<u8>
    decreases chunks.len(),
{
    if chunks.len() == 0 {
        Seq::empty()
    } else {
        stream_bytes(chunks.drop_last()) + chunks.last()@
    }
}

/// The bytes of a stream that arrives in chunks.
fn collect_chunks(chunks: &Vec<Vec<u8>>) -> (r: Vec<u8>)
    ensures
        r@ == stream_bytes(chunks@),
{
    let mut out: Vec<u8> = Vec::new();
    let mut i: usize = 0;
    while i < chunks.len()
        invariant
            i <= chunks@.len(),
            out@ == stream_bytes(chunks@.take(i as int)),
        decreases chunks.len() - i,
    {
        assert(chunks@.take(i + 1).drop_last() == chunks@.take(i as int));
        let mut more = chunks[i].clone();
        assert(more@ == chunks@[i as int]@);
        out.append(&mut more);
        i += 1;
    }
    assert(chunks@.take(i as int) == chunks@);
    out
}

impl Store {
    /// The store at `root`, with the directories that must exist under it.
    pub fn open(root: String) -> (r: (Store, Vec<String>))
        ensures
            r.0.root@ == root@,
            views(r.1@) == seq![
                joined_path(root@, "blobs"@),
                joined_path(root@, "layers"@),
                joined_path(root@, "images"@),
                joined_path(root@, "refs"@),
                joined_path(root@, "containers"@),
            ],
    {
        let mut dirs: Vec<String> = Vec::new();
        dirs.push(path_join(root.as_str(), "blobs"));
        dirs.push(path_join(root.as_str(), "layers"));
        dirs.push(path_join(root.as_str(), "images"));
        dirs.push(path_join(root.as_str(), "refs"));
        dirs.push(path_join(root.as_str(), "containers"));
        (Store { root }, dirs)
    }

    /// The store's root.
    pub fn root(&self) -> (r: &str)
        ensures
            r@ == self.root@,
    {
        self.root.as_str()
    }

    /// Where layer manifests and materialized layers live.
    pub fn layers_dir(&self) -> (r: String)
        ensures
            r@ == joined_path(self.root@, "layers"@),
    {
        path_join(self.root.as_str(), "layers")
    }

    /// Where image manifests live.
    pub fn images_dir(&self) -> (r: String)
        ensures
            r@ == joined_path(self.root@, "images"@),
    {
        path_join(self.root.as_str(), "images")
    }

    /// Where tags live.
    pub fn refs_dir(&self) -> (r: String)
        ensures
            r@ == joined_path(self.root@, "refs"@),
    {
        path_join(self.root.as_str(), "refs")
    }

    /// Where container state and writable layers live.
    pub fn containers_dir(&self) -> (r: String)
        ensures
            r@ == joined_path(self.root@, "containers"@),
    {
        path_join(self.root.as_str(), "containers")
    }

    /// The file that points `name:tag` at an image.
    pub fn tag_path(&self, name: &str, tag: &str) -> (r: String)
        ensures
            r@ == joined_path(joined_path(joined_path(self.root@, "refs"@), name@), tag@),
    {
        let refs = self.refs_dir();
        let dir = path_join(refs.as_str(), name);
        path_join(dir.as_str(), tag)
    }

    /// Points `name:tag` at `id`: the file to write in place of whatever the
    /// tag pointed at before.
    pub fn tag(&self, name: &str, tag: &str, id: Hash) -> (r: FileWrite)
        ensures
            r.dir@ == joined_path(joined_path(self.root@, "refs"@), name@),
            r.path@ == joined_path(r.dir@, tag@),
            r.content@ == encode_utf8(hex_text(id@)),
    {
        let refs = self.refs_dir();
        let dir = path_join(refs.as_str(), name);
        let path = path_join(dir.as_str(), tag);
        let hex = id.to_hex();
        let content = crate::codec::bytes_of(hex.as_str());
        FileWrite { dir, path, content }
    }

    /// The image that `name:tag` points at, given what reading its file came to.
    pub fn resolve_tag(&self, name: &str, tag: &str, read: Result<String, String>) -> (r: Result<
        Hash,
        Error,
    >)
        ensures
            match read {
                Ok(content) => match r {
                    Ok(h) => hash_named(trimmed(content@)) == Some(h@),
                    Err(e) => hash_named(trimmed(content@)) is None && (e matches Error::InvalidHash(t)
                        && t@ == trimmed(content@)),
                },
                Err(m) => r matches Err(Error::Io { path, message }) && message@ == m@ && path@
                    == joined_path(joined_path(joined_path(self.root@, "refs"@), name@), tag@),
            },
    {
        match read {
            Ok(content) => Hash::from_hex(trim(content.as_str())),
            Err(m) => {
                let path = self.tag_path(name, tag);
                Err(Error::Io { path, message: m })
            },
        }
    }

    /// Where the blob with the given hash lives.
    pub fn blob_path(&self, hash: &Hash) -> (r: String)
        ensures
            r@ == blob_location(self.root@, hash@),
    {
        let dir = self.blob_dir(hash);
        let hex = hash.to_hex();
        path_join(dir.as_str(), hex.as_str())
    }

    /// The directory of the blob with the given hash.
    pub fn blob_dir(&self, hash: &Hash) -> (r: String)
        ensures
            r@ == blob_directory(self.root@, hash@),
    {
        let hex = hash.to_hex();
        let blobs = path_join(self.root.as_str(), "blobs");
        let short = hex.as_str().substring_char(0, 2);
        path_join(blobs.as_str(), short)
    }

    /// Whether the blob with the given hash is stored.
    pub fn has_blob(&self, hash: &Hash, files: &Vec<String>) -> (r: bool)
        ensures
            r == views(files@).contains(blob_location(self.root@, hash@)),
    {
        let path = self.blob_path(hash);
        listed(files, path.as_str())
    }

    /// Stores `data`: its hash, and what to write unless it is stored already.
    pub fn put_bytes(&self, data: &[u8], files: &Vec<String>) -> (r: Put)
        ensures
            r.hash@ == sha256(data@),
            r.write is Some <==> needs_write(self.root@, data@, views(files@)),
            r.write matches Some(w) ==> w.0@ == blob_directory(self.root@, sha256(data@)) && w.1@
                == blob_location(self.root@, sha256(data@)),
    {
        let hash = Hash::of_bytes(data);
        if self.has_blob(&hash, files) {
            Put { hash, write: None }
        } else {
            let dir = self.blob_dir(&hash);
            let path = self.blob_path(&hash);
            Put { hash, write: Some((dir, path)) }
        }
    }

    /// Where a stream is copied to while it is being hashed.
    pub fn stream_temporary(&self, suffix: &str) -> (r: String)
        ensures
            r@ == joined_path(joined_path(self.root@, "blobs"@), ".tmp-"@ + suffix@),
    {
        let blobs = path_join(self.root.as_str(), "blobs");
        let name = crate::text::cat2(".tmp-", suffix);
        path_join(blobs.as_str(), name.as_str())
    }

    /// Stores a stream that was copied to the temporary file with the given suffix.
    pub fn put_reader(&self, chunks: &Vec<Vec<u8>>, suffix: &str, files: &Vec<String>) -> (r: PutStream)
        ensures
            r.hash@ == sha256(stream_bytes(chunks@)),
            r.temporary@ == joined_path(joined_path(self.root@, "blobs"@), ".tmp-"@ + suffix@),
            r.rename_to is Some <==> needs_write(self.root@, stream_bytes(chunks@), views(files@)),
            r.rename_to matches Some(w) ==> w.0@ == blob_directory(self.root@, r.hash@) && w.1@
                == blob_location(self.root@, r.hash@),
    {
        let data = collect_chunks(chunks);
        let temporary = self.stream_temporary(suffix);
        let put = self.put_bytes(data.as_slice(), files);
        PutStream { hash: put.hash, temporary, rename_to: put.write }
    }

    /// Places the blob `hash` with the given mode and owner, given the blob's
    /// file as found on disk (`None` if there is no such regular file).
    ///
    /// Linking shares one file, and mode and owner belong to the file, not
    /// to the link. The first placement claims the blob: it stamps the
    /// blob's own file and links it. A later placement that asks for the
    /// same mode and owner links too. One that asks for something else gets a
    /// copy of its own.
    pub fn place_blob(&self, hash: &Hash, mode: u32, uid: u32, gid: u32, found: Option<BlobMeta>) -> (r:
        Result<Placement, Error>)
        ensures
            match found {
                None => r matches Err(Error::MissingBlob(h)) && h@ == hash@,
                Some(m) => r matches Ok(p) && p.source@ == blob_location(self.root@, hash@) && p.how
                    == placing_of(m, mode, uid, gid),
            },
    {
        match found {
            None => Err(Error::MissingBlob(*hash)),
            Some(m) => {
                let source = self.blob_path(hash);
                let unclaimed = m.links <= 1;
                let matches = (m.mode & 0o7777) == mode && m.uid == uid && m.gid == gid;
                let how = if unclaimed || matches {
                    Placing::Link { stamp: !matches }
                } else {
                    Placing::Copy
                };
                Ok(Placement { source, how })
            },
        }
    }
}

/// How a blob found as `m` gets placed with the given mode and owner.
pub open spec fn placing_of(m: BlobMeta, mode: u32, uid: u32, gid: u32) -> Placing {
    let same = permission_bits(m.mode) == mode && m.uid == uid && m.gid == gid;
    if m.links <= 1 || same {
        Placing::Link { stamp: !same }
    } else {
        Placing::Copy
    }
}

/// What to do once linking was tried; `errno` is the error number of a
/// failure. Across file systems no link is possible, so the content is copied.
pub fn hardlink_or_copy(errno: Option<i32>) -> (r: Linking)
    ensures
        r == (match errno {
            None => Linking::Done,
            Some(n) => if n == EXDEV {
                Linking::CopyInstead
            } else {
                Linking::Failed
            },
        }),
{
    match errno {
        None => Linking::Done,
        Some(n) => if n == EXDEV {
            Linking::CopyInstead
        } else {
            Linking::Failed
        },
    }
}

/// Whether storing `data` has anything to write, given which paths are regular files.
pub open spec fn needs_write(root: Seq<char>, data: Seq<u8>, files: Seq<Seq<char>>) -> bool {
    !files.contains(blob_location(root, sha256(data)))
}

/// Storing the same content twice writes it once: whatever was there before,
/// once the first call's write is done a second call has nothing to write.
pub proof fn same_content_is_stored_once(root: Seq<char>, data: Seq<u8>, before: Seq<Seq<char>>)
    ensures
        ({
            let after = if needs_write(root, data, before) {
                before.push(blob_location(root, sha256(data)))
            } else {
                before
            };
            !needs_write(root, data, after)
        }),
{
    let grown = before.push(blob_location(root, sha256(data)));
    assert(grown[before.len() as int] == blob_location(root, sha256(data)));
}

/// Mode, owner and group.
pub type Stamp = (u32, u32, u32);

/// The mode and owner of the file that a placement leaves at its destination.
pub open spec fn placed_stamp(m: BlobMeta, asked: Stamp, how: Placing) -> Stamp {
    match how {
        Placing::Link { stamp: false } => (permission_bits(m.mode), m.uid, m.gid),
        _ => asked,
    }
}

/// The mode and owner of the blob's own file after a placement.
pub open spec fn blob_stamp_after(m: BlobMeta, asked: Stamp, how: Placing) -> Stamp {
    match how {
        Placing::Link { stamp: true } => asked,
        _ => (permission_bits(m.mode), m.uid, m.gid),
    }
}

/// Sharing a blob never leaks one placement's mode or owner onto another:
/// the placed file always has exactly what was asked for, and a blob that
/// some other place links to already keeps its own mode and owner.
pub proof fn placement_keeps_metadata_apart(m: BlobMeta, mode: u32, uid: u32, gid: u32)
    ensures
        placed_stamp(m, (mode, uid, gid), placing_of(m, mode, uid, gid)) == (mode, uid, gid),
        m.links > 1 ==> blob_stamp_after(m, (mode, uid, gid), placing_of(m, mode, uid, gid)) == (
            permission_bits(m.mode),
            m.uid,
            m.gid,
        ),
{
}

/// A file on disk, which may have several names.
#[verifier::ext_equal]
pub struct DiskFile {
    pub bytes: Seq<u8>,
    pub stamp: Stamp,
}

/// A file system: which file each name stands for, and the files by number.
#[verifier::ext_equal]
pub struct Disk {
    pub names: Map<Seq<char>, int>,
    pub files: Map<int, DiskFile>,
}

impl Disk {
    /// The file behind a name.
    pub open spec fn at(self, name: Seq<char>) -> DiskFile {
        self.files[self.names[name]]
    }

    /// Whether every name stands for a file.
    pub open spec fn well_formed(self) -> bool {
        forall|p: Seq<char>| #[trigger] self.names.dom().contains(p) ==> self.files.dom().contains(self.names[p])
    }

    /// Whether `m` is what a look at `name` shows.
    pub open spec fn shows(self, name: Seq<char>, m: BlobMeta) -> bool {
        &&& self.names.dom().contains(name)
        &&& self.at(name).stamp == (permission_bits(m.mode), m.uid, m.gid)
        &&& m.links <= 1 <==> forall|p: Seq<char>| #[trigger]
            self.names.dom().contains(p) && p != name ==> self.names[p] != self.names[name]
    }

    /// The disk after `source` was placed at `dest`; a copy gets the number
    /// `fresh`.
    pub open spec fn placed(self, source: Seq<char>, dest: Seq<char>, asked: Stamp, how: Placing, fresh: int) -> Disk {
        let n = self.names[source];
        match how {
            Placing::Link { stamp } => Disk {
                names: self.names.insert(dest, n),
                files: if stamp {
                    self.files.insert(n, DiskFile { stamp: asked, ..self.files[n] })
                } else {
                    self.files
                },
            },
            Placing::Copy => Disk {
                names: self.names.insert(dest, fresh),
                files: self.files.insert(fresh, DiskFile { bytes: self.files[n].bytes, stamp: asked }),
            },
        }
    }
}

/// A placement leaves the blob's bytes under its own name and the new one,
/// gives the new one exactly the mode and owner that were asked for, and
/// changes nothing about any other file.
pub proof fn placement_changes_nothing_else(
    disk: Disk,
    source: Seq<char>,
    dest: Seq<char>,
    m: BlobMeta,
    asked: Stamp,
    fresh: int,
    other: Seq<char>,
)
    requires
        disk.well_formed(),
        disk.shows(source, m),
        !disk.names.dom().contains(dest),
        !disk.files.dom().contains(fresh),
        disk.names.dom().contains(other),
        other != source,
    ensures
        ({
            let after = disk.placed(source, dest, asked, placing_of(m, asked.0, asked.1, asked.2), fresh);
            &&& after.well_formed()
            &&& after.names.dom() == disk.names.dom().insert(dest)
            &&& after.at(dest) == (DiskFile { bytes: disk.at(source).bytes, stamp: asked })
            &&& after.at(source).bytes == disk.at(source).bytes
            &&& after.at(other) == disk.at(other)
        }),
{
    let after = disk.placed(source, dest, asked, placing_of(m, asked.0, asked.1, asked.2), fresh);
    assert forall|p: Seq<char>| #[trigger] after.names.dom().contains(p) implies after.files.dom().contains(
        after.names[p],
    ) by {
        if p != dest {
            assert(disk.names.dom().contains(p));
        }
    }
    assert(disk.names.dom().contains(other) && other != source);
}

/// Two placements of one blob keep to themselves: each holds the blob's
/// bytes under the mode and owner it was asked for, also where these differ,
/// and the blob's content stays.
pub proof fn placements_keep_to_themselves(
    disk: Disk,
    source: Seq<char>,
    first: Seq<char>,
    second: Seq<char>,
    m: BlobMeta,
    n: BlobMeta,
    asked: Stamp,
    later: Stamp,
    fresh: int,
    next: int,
)
    requires
        disk.well_formed(),
        disk.shows(source, m),
        !disk.names.dom().contains(first),
        !disk.names.dom().contains(second),
        first != second,
        !disk.files.dom().contains(fresh),
        ({
            let between = disk.placed(source, first, asked, placing_of(m, asked.0, asked.1, asked.2), fresh);
            between.shows(source, n) && !between.files.dom().contains(next)
        }),
    ensures
        ({
            let between = disk.placed(source, first, asked, placing_of(m, asked.0, asked.1, asked.2), fresh);
            let after = between.placed(source, second, later, placing_of(n, later.0, later.1, later.2), next);
            let bytes = disk.at(source).bytes;
            &&& after.at(first) == (DiskFile { bytes, stamp: asked })
            &&& after.at(second) == (DiskFile { bytes, stamp: later })
            &&& after.at(source).bytes == bytes
        }),
{
    let between = disk.placed(source, first, asked, placing_of(m, asked.0, asked.1, asked.2), fresh);
    assert forall|p: Seq<char>| #[trigger] between.names.dom().contains(p) implies between.files.dom().contains(
        between.names[p],
    ) by {
        if p != first {
            assert(disk.names.dom().contains(p));
        }
    }
    placement_changes_nothing_else(between, source, second, n, later, next, first);
}

/// A tag reads back as the image it was pointed at.
pub proof fn tag_reads_back(id: Hash)
    ensures
        hash_named(trimmed(hex_text(id@))) == Some(id@),
{
    let t = hex_text(id@);
    lemma_hex_text_not_white(id@);
    assert(trimmed(t) == t);
    hash_text_round_trip(id);
}

/// Hexadecimal digits are no white space, so trimming keeps them.
pub proof fn lemma_hex_text_not_white(b: Seq<u8>)
    ensures
        trimmed(hex_text(b)) == hex_text(b),
{
    let t = hex_text(b);
    if t.len() > 0 {
        assert(0 <= b[0] as int / 16 < 16);
        assert(!crate::text::is_white(t[0]));
        let n = t.len() - 1;
        assert(0 <= b[n / 2] as int % 16 < 16);
        assert(n % 2 == 1);
        assert(!crate::text::is_white(t.last()));
    }
}

/// The permission bits of a mode are its low twelve bits: what is left is
/// below 4096 and differs from the mode by a multiple of it.
pub proof fn permission_bits_are_the_low_ones(mode: u32)
    ensures
        permission_bits(mode) == mode % 4096,
{
    assert(mode & 0o7777 == mode % 4096) by (bit_vector);
}

/// A stream is its chunks, one behind the other.
pub proof fn streams_are_their_chunks(a: Seq<Vec<u8>>, b: Seq<Vec<u8>>, one: Vec<u8>)
    ensures
        stream_bytes(a + b) == stream_bytes(a) + stream_bytes(b),
        stream_bytes(seq![one]) == one@,
    decreases b.len(),
{
    reveal_with_fuel(stream_bytes, 2);
    assert(seq![one].drop_last() =~= Seq::<Vec<u8>>::empty());
    assert(stream_bytes(seq![one]) =~= one@);
    if b.len() == 0 {
        assert(a + b =~= a);
        assert(stream_bytes(a + b) =~= stream_bytes(a) + stream_bytes(b));
    } else {
        streams_are_their_chunks(a, b.drop_last(), one);
        assert((a + b).drop_last() =~= a + b.drop_last());
        assert((a + b).last() == b.last());
        assert(stream_bytes(a + b) =~= stream_bytes(a) + stream_bytes(b));
    }
}

/// A blob stands under its hash, in a directory of the first two digits.
pub proof fn blobs_are_filed_under_their_hash(root: Seq<char>, hash: Seq<u8>)
    requires
        root.len() > 0,
        root.last() != '/',
        hash.len() > 0,
    ensures
        blob_location(root, hash) == root + "/blobs/"@ + hex_text(hash).take(2) + seq!['/'] + hex_text(hash),
        blob_directory(root, hash) == root + "/blobs/"@ + hex_text(hash).take(2),
{
    reveal_strlit("blobs");
    reveal_strlit("/blobs/");
    crate::codec::bytes_are_two_digits(hash, 0);
    let t = hex_text(hash);
    assert(t[0] != '/' && t[1] != '/');
    assert(t.take(2)[0] == t[0] && t.take(2).last() == t[1]);
    assert(blob_directory(root, hash) =~= root + "/blobs/"@ + t.take(2));
    assert(blob_location(root, hash) =~= root + "/blobs/"@ + t.take(2) + seq!['/'] + t);
}

} // verus!
