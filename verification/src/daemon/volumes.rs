//! Volumes: which containers use them, and a look at their files that never
//! leaves them.

use crate::codec::{
    add_member, json_array, json_bool, json_bool_text, json_items, json_map, json_member, json_object, json_str,
    json_string, json_texts, jsons, text_of, ToJson,
};
use crate::daemon::containers::{invalid_body, refuse_body, Container};
use crate::daemon::networks::{done, done_response};
use crate::http::{json_response, segments, segments_of, text_response, value_of, Request, Response, ResponseView};
use crate::num::{decimal, u64_text};
use crate::order::{codes, key_ints, push_codes, push_number, ranked, sort, Ranked};
use crate::paths::{joined_path, path_join};
use crate::text::{cat3, cut_first, pieces, split_once, str_eq, trim, trimmed, views};
use vstd::prelude::*;
use vstd::utf8::{decode_utf8, valid_utf8};

verus! {

// ---- Listing ---------------------------------------------------------------

/// What is shown of a volume.
pub struct VolumeJson {
    pub name: String,
    /// The names of the containers that use it.
    pub containers: Vec<String>,
    pub size_bytes: u64,
    pub host_path: String,
}

/// A volume.
pub open spec fn volume_json(
    name: Seq<char>,
    containers: Seq<Seq<char>>,
    size_bytes: nat,
    host_path: Seq<char>,
) -> Seq<char> {
    json_object(
        seq![
            json_member("name"@, json_string(name)),
            json_member("containers"@, json_array(containers.map_values(|s: Seq<char>| json_string(s)))),
            json_member("size_bytes"@, decimal(size_bytes)),
            json_member("host_path"@, json_string(host_path)),
        ],
    )
}

impl ToJson for VolumeJson {
    open spec fn json(&self) -> Seq<char> {
        volume_json(self.name@, views(self.containers@), self.size_bytes as nat, self.host_path@)
    }

    fn to_json(&self) -> (r: String) {
        let mut m: Vec<String> = Vec::new();
        add_member(&mut m, "name", json_str(self.name.as_str()).as_str());
        add_member(&mut m, "containers", json_texts(&self.containers).as_str());
        add_member(&mut m, "size_bytes", u64_text(self.size_bytes).as_str());
        add_member(&mut m, "host_path", json_str(self.host_path.as_str()).as_str());
        assert(views(m@) =~= seq![
            json_member("name"@, json_string(self.name@)),
            json_member(
                "containers"@,
                json_array(views(self.containers@).map_values(|s: Seq<char>| json_string(s))),
            ),
            json_member("size_bytes"@, decimal(self.size_bytes as nat)),
            json_member("host_path"@, json_string(self.host_path@)),
        ]);
        json_map(&m)
    }
}

/// A directory that is a volume.
pub struct VolumeDir {
    pub name: String,
    pub size_bytes: u64,
    pub host_path: String,
}

/// Whether a volume of a container, given as `name:path`, is the one of this name.
pub open spec fn names_volume(v: Seq<char>, name: Seq<char>) -> bool {
    cut_first(v, ':') matches Some((n, _)) && n == name
}

/// Whether a container uses a volume.
pub open spec fn uses_volume(c: Container, name: Seq<char>) -> bool {
    exists|i: int| 0 <= i < c.volumes@.len() && names_volume(#[trigger] c.volumes@[i]@, name)
}

/// The names of the containers that use a volume.
pub open spec fn users_of(name: Seq<char>, containers: Seq<Container>) -> Seq<Seq<char>>
    decreases containers.len(),
{
    if containers.len() == 0 {
        Seq::empty()
    } else {
        let before = users_of(name, containers.drop_last());
        if uses_volume(containers.last(), name) {
            before.push(containers.last().name@)
        } else {
            before
        }
    }
}

/// Whether a container uses a volume.
fn container_uses(c: &Container, name: &str) -> (r: bool)
    ensures
        r == uses_volume(*c, name@),
{
    let mut i: usize = 0;
    while i < c.volumes.len()
        invariant
            i <= c.volumes@.len(),
            forall|j: int| 0 <= j < i ==> !names_volume(#[trigger] c.volumes@[j]@, name@),
        decreases c.volumes.len() - i,
    {
        if let Some((n, _)) = split_once(c.volumes[i].as_str(), ':') {
            if str_eq(n, name) {
                assert(names_volume(c.volumes@[i as int]@, name@));
                return true;
            }
        }
        i += 1;
    }
    false
}

/// The names of the containers that use a volume.
fn volume_users(name: &str, containers: &Vec<Container>) -> (r: Vec<String>)
    ensures
        views(r@) == users_of(name@, containers@),
{
    let mut out: Vec<String> = Vec::new();
    let mut i: usize = 0;
    assert(containers@.take(0) =~= Seq::<Container>::empty());
    assert(views(out@) =~= users_of(name@, containers@.take(0)));
    while i < containers.len()
        invariant
            i <= containers@.len(),
            views(out@) == users_of(name@, containers@.take(i as int)),
        decreases containers.len() - i,
    {
        proof {
            assert(containers@.take(i + 1).drop_last() =~= containers@.take(i as int));
            assert(containers@.take(i + 1).last() == containers@[i as int]);
        }
        if container_uses(&containers[i], name) {
            let user = containers[i].name.as_str().to_owned();
            assert(views(out@.push(user)) =~= views(out@).push(user@));
            out.push(user);
        }
        i += 1;
    }
    assert(containers@.take(i as int) =~= containers@);
    out
}

/// The volumes, each with the containers that use it.
pub open spec fn volume_jsons(volumes: Seq<VolumeDir>, containers: Seq<Container>) -> Seq<Seq<char>> {
    volumes.map_values(
        |v: VolumeDir| volume_json(v.name@, users_of(v.name@, containers), v.size_bytes as nat, v.host_path@),
    )
}

/// The volumes of a store, each with the containers that use it.
pub fn list(volumes: &Vec<VolumeDir>, containers: &Vec<Container>) -> (r: Response)
    ensures
        r@ == json_response(200, json_array(volume_jsons(volumes@, containers@))),
{
    let ghost all = volume_jsons(volumes@, containers@);
    let mut out: Vec<VolumeJson> = Vec::new();
    let mut i: usize = 0;
    assert(jsons(out@) =~= all.take(0));
    while i < volumes.len()
        invariant
            i <= volumes@.len(),
            all == volume_jsons(volumes@, containers@),
            jsons(out@) == all.take(i as int),
        decreases volumes.len() - i,
    {
        let v = &volumes[i];
        let shown = VolumeJson {
            name: v.name.as_str().to_owned(),
            containers: volume_users(v.name.as_str(), containers),
            size_bytes: v.size_bytes,
            host_path: v.host_path.as_str().to_owned(),
        };
        assert(shown.json() == all[i as int]);
        assert(jsons(out@.push(shown)) =~= jsons(out@).push(shown.json()));
        assert(all.take(i + 1) =~= all.take(i as int).push(shown.json()));
        out.push(shown);
        i += 1;
    }
    assert(all.take(i as int) =~= all);
    let json = json_items(&out);
    Response::json(200, json.as_str())
}

// ---- Creating, removing, moving --------------------------------------------

/// A request to create a volume.
pub struct CreateRequest {
    pub name: String,
}

/// What is said of a volume without a name.
pub open spec fn nameless() -> ResponseView {
    text_response(400, "volume name must not be empty"@)
}

/// Whether a request to create a volume goes through.
pub fn create(body: Result<CreateRequest, String>) -> (r: Result<CreateRequest, Response>)
    ensures
        match body {
            Err(m) => r matches Err(e) && e@ == invalid_body(m@),
            Ok(b) => if trimmed(b.name@).len() == 0 {
                r matches Err(e) && e@ == nameless()
            } else {
                r == Ok::<CreateRequest, Response>(b)
            },
        },
{
    match body {
        Ok(b) => {
            if trim(b.name.as_str()).unicode_len() == 0 {
                Err(Response::text(400, "volume name must not be empty"))
            } else {
                Ok(b)
            }
        },
        Err(m) => Err(refuse_body(m.as_str())),
    }
}

/// The answer once a volume was created.
pub fn create_reply(outcome: &Result<(), String>) -> (r: Response)
    ensures
        r@ == done_response(201, 500, *outcome),
{
    done(201, 500, outcome)
}

/// The answer once a volume was removed.
pub fn remove(outcome: &Result<(), String>) -> (r: Response)
    ensures
        r@ == done_response(200, 404, *outcome),
{
    done(200, 404, outcome)
}

/// The answer to a request for a volume's archive.
pub fn export(name: &str, outcome: Result<Vec<u8>, String>) -> (r: Response)
    ensures
        r@ == (match outcome {
            Ok(bytes) => ResponseView {
                status: 200,
                headers: seq![
                    ("Content-Type"@, "application/gzip"@),
                    ("Content-Disposition"@, "attachment; filename=\""@ + name@ + ".tar.gz\""@),
                ],
                body: bytes@,
            },
            Err(e) => text_response(404, e@),
        }),
{
    match outcome {
        Ok(body) => {
            let disposition = cat3("attachment; filename=\"", name, ".tar.gz\"");
            let headers: Vec<(String, String)> = vec![
                ("Content-Type".to_owned(), "application/gzip".to_owned()),
                ("Content-Disposition".to_owned(), disposition),
            ];
            let r = Response { status: 200, headers, body };
            assert(r@ =~= (ResponseView {
                status: 200,
                headers: seq![
                    ("Content-Type"@, "application/gzip"@),
                    ("Content-Disposition"@, "attachment; filename=\""@ + name@ + ".tar.gz\""@),
                ],
                body: body@,
            }));
            r
        },
        Err(e) => Response::text(404, e.as_str()),
    }
}

/// The answer to a request to fill a volume from an archive.
pub fn import(name: &str, outcome: &Result<(), String>) -> (r: Response)
    ensures
        r@ == (if trimmed(name@).len() == 0 {
            nameless()
        } else {
            done_response(201, 400, *outcome)
        }),
{
    if trim(name).unicode_len() == 0 {
        return Response::text(400, "volume name must not be empty");
    }
    done(201, 400, outcome)
}

// ---- Files -----------------------------------------------------------------

/// The parts of a path that lead somewhere else.
pub open spec fn steps_of(rel: Seq<char>) -> Seq<Seq<char>> {
    segments_of(rel).filter(|s: Seq<char>| s != "."@)
}

/// Where parts lead, from a directory on.
pub open spec fn descend(base: Seq<char>, steps: Seq<Seq<char>>) -> Seq<char>
    decreases steps.len(),
{
    if steps.len() == 0 {
        base
    } else {
        joined_path(descend(base, steps.drop_last()), steps.last())
    }
}

/// Where a path leads inside a volume; one with `..` in it leads nowhere.
pub open spec fn inside(base: Seq<char>, rel: Seq<char>) -> Option<Seq<char>> {
    if steps_of(rel).contains(".."@) {
        None
    } else {
        Some(descend(base, steps_of(rel)))
    }
}

/// Where a path leads inside a volume that is at `base`, as long as no link
/// leads elsewhere: the path to look at.
pub fn path_to_look_at(base: &str, rel_path: &str) -> (r: Option<String>)
    ensures
        match r {
            Some(p) => inside(base@, rel_path@) == Some(p@),
            None => inside(base@, rel_path@) is None,
        },
{
    let parts = segments(rel_path);
    let ghost all = views(parts@);
    let ghost keep = |s: Seq<char>| s != "."@;
    let ghost steps = steps_of(rel_path@);
    let mut out = base.to_owned();
    let mut i: usize = 0;
    proof {
        assert(all.take(0).filter(keep) =~= Seq::<Seq<char>>::empty()) by {
            reveal(Seq::filter);
        }
    }
    while i < parts.len()
        invariant
            i <= parts@.len(),
            all == views(parts@),
            all == segments_of(rel_path@),
            keep == (|s: Seq<char>| s != "."@),
            steps == all.filter(keep),
            out@ == descend(base@, all.take(i as int).filter(keep)),
            !all.take(i as int).filter(keep).contains(".."@),
        decreases parts.len() - i,
    {
        proof {
            assert(all.take(i + 1).drop_last() =~= all.take(i as int));
            assert(all.take(i + 1).last() == parts@[i as int]@);
            reveal(Seq::filter);
        }
        let part = parts[i].as_str();
        let ghost before = all.take(i as int).filter(keep);
        if !str_eq(part, ".") {
            proof {
                assert(all.take(i + 1).filter(keep) == before.push(part@));
                assert(before.push(part@).drop_last() =~= before);
            }
            if str_eq(part, "..") {
                proof {
                    assert(before.push(part@)[before.len() as int] == ".."@);
                    assert(all =~= all.take(i + 1) + all.skip(i + 1));
                    Seq::filter_distributes_over_add(all.take(i + 1), all.skip(i + 1), keep);
                    assert(steps[before.len() as int] == ".."@);
                    assert(steps.contains(".."@));
                }
                return None;
            }
            out = path_join(out.as_str(), part);
            assert(!before.push(part@).contains(".."@));
        }
        i += 1;
    }
    assert(all.take(i as int) =~= all);
    Some(out)
}

/// What a path and its volume turn out to be once links are followed.
pub enum Look {
    /// There is nothing at the path.
    Missing,
    /// Either cannot be followed.
    Unreadable,
    Real { base: String, path: String },
}

/// Whether a path is inside its volume after all: a link may lead out of it.
pub open spec fn stays(look: Look) -> bool {
    match look {
        Look::Missing => true,
        Look::Unreadable => false,
        Look::Real { base, path } => segments_of(base@).is_prefix_of(segments_of(path@)),
    }
}

/// Whether a path is inside its volume after all.
fn confined(look: &Look) -> (r: bool)
    ensures
        r == stays(*look),
{
    match look {
        Look::Missing => true,
        Look::Unreadable => false,
        Look::Real { base, path } => {
            let outer = segments(base.as_str());
            let inner = segments(path.as_str());
            if outer.len() > inner.len() {
                return false;
            }
            let ghost a = views(outer@);
            let ghost b = views(inner@);
            let mut i: usize = 0;
            while i < outer.len()
                invariant
                    i <= outer@.len() <= inner@.len(),
                    a == views(outer@),
                    b == views(inner@),
                    a == segments_of(base@),
                    b == segments_of(path@),
                    *look == (Look::Real { base: *base, path: *path }),
                    forall|j: int| 0 <= j < i ==> #[trigger] a[j] == b[j],
                decreases outer.len() - i,
            {
                assert(a[i as int] == outer@[i as int]@ && b[i as int] == inner@[i as int]@);
                if !str_eq(outer[i].as_str(), inner[i].as_str()) {
                    assert(b.subrange(0, a.len() as int)[i as int] == b[i as int]);
                    return false;
                }
                i += 1;
            }
            assert(a =~= b.subrange(0, a.len() as int));
            true
        },
    }
}

/// Where a path leads inside a volume that is at `base`, given what is found
/// at [`path_to_look_at`]. Nothing that leaves the volume gets through,
/// neither by `..` nor by a link.
pub fn resolve_within_volume(base: &str, base_is_dir: bool, rel_path: &str, look: &Look) -> (r: Option<String>)
    ensures
        r is Some <==> base_is_dir && inside(base@, rel_path@) is Some && stays(*look),
        r matches Some(p) ==> inside(base@, rel_path@) == Some(p@),
{
    if base_is_dir && confined(look) {
        path_to_look_at(base, rel_path)
    } else {
        None
    }
}

/// What is shown of a file in a volume.
pub struct FileEntryJson {
    pub name: String,
    pub is_dir: bool,
    pub size_bytes: u64,
}

impl ToJson for FileEntryJson {
    open spec fn json(&self) -> Seq<char> {
        json_object(
            seq![
                json_member("name"@, json_string(self.name@)),
                json_member("is_dir"@, json_bool_text(self.is_dir)),
                json_member("size_bytes"@, decimal(self.size_bytes as nat)),
            ],
        )
    }

    fn to_json(&self) -> (r: String) {
        let mut m: Vec<String> = Vec::new();
        add_member(&mut m, "name", json_str(self.name.as_str()).as_str());
        add_member(&mut m, "is_dir", json_bool(self.is_dir).as_str());
        add_member(&mut m, "size_bytes", u64_text(self.size_bytes).as_str());
        assert(views(m@) =~= seq![
            json_member("name"@, json_string(self.name@)),
            json_member("is_dir"@, json_bool_text(self.is_dir)),
            json_member("size_bytes"@, decimal(self.size_bytes as nat)),
        ]);
        json_map(&m)
    }
}

impl Ranked for FileEntryJson {
    /// Directories first, and then by name.
    open spec fn rank(&self) -> Seq<int> {
        seq![if self.is_dir { 0int } else { 1int }] + codes(self.name@)
    }

    fn key(&self) -> (r: Vec<i64>) {
        let mut k: Vec<i64> = Vec::new();
        let kind: i64 = if self.is_dir {
            0
        } else {
            1
        };
        push_number(&mut k, kind);
        push_codes(&mut k, self.name.as_str());
        assert(key_ints(k@) =~= self.rank());
        k
    }
}

/// What is shown of a file: a directory has no size of its own.
pub fn file_entry(name: String, is_dir: bool, len: u64) -> (r: FileEntryJson)
    ensures
        r.name == name,
        r.is_dir == is_dir,
        r.size_bytes == (if is_dir {
            0
        } else {
            len
        }),
{
    let size_bytes = if is_dir {
        0
    } else {
        len
    };
    FileEntryJson { name, is_dir, size_bytes }
}

/// The path that a request asks for; the volume itself if it names none.
pub open spec fn path_of(query: Seq<(Seq<char>, Seq<char>)>) -> Seq<char> {
    match value_of(query, "path"@) {
        Some(p) => p,
        None => ""@,
    }
}

/// The path that a request asks for.
pub fn requested_path<'a>(req: &'a Request) -> (r: &'a str)
    ensures
        r@ == path_of(req@.query),
{
    match req.parameter("path") {
        Some(p) => p,
        None => "",
    }
}

/// A directory of a volume, as far as it could be read.
pub enum Directory {
    /// The path leads out of the volume.
    Outside,
    NotADirectory,
    Entries(Vec<FileEntryJson>),
}

/// The files of a directory: directories first, and then by name.
pub fn list_files(dir: Directory) -> (r: Response)
    ensures
        match dir {
            Directory::Outside => r@ == text_response(400, "invalid path"@),
            Directory::NotADirectory => r@ == text_response(404, "not a directory"@),
            Directory::Entries(e) => exists|s: Seq<FileEntryJson>|
                r@ == json_response(200, json_array(#[trigger] jsons(s))) && ranked(s) && s.to_multiset()
                    == e@.to_multiset(),
        },
{
    match dir {
        Directory::Outside => Response::text(400, "invalid path"),
        Directory::NotADirectory => Response::text(404, "not a directory"),
        Directory::Entries(e) => {
            let sorted = sort(e);
            let json = json_items(&sorted);
            Response::json(200, json.as_str())
        },
    }
}

/// The largest file that is shown.
pub const MAX_PREVIEW_BYTES: u64 = 262144;

/// What is known of a file before it is read.
pub struct FileMeta {
    pub is_file: bool,
    pub len: u64,
}

/// Whether a file can be shown, given whether its path stays in the volume
/// and what is known of it, if it is there.
pub fn check_file(inside: bool, meta: &Option<FileMeta>) -> (r: Result<(), Response>)
    ensures
        match r {
            Ok(_) => inside && (meta matches Some(m) && m.is_file && m.len <= MAX_PREVIEW_BYTES),
            Err(e) => if !inside {
                e@ == text_response(400, "invalid path"@)
            } else {
                match *meta {
                    None => e@ == text_response(404, "not found"@),
                    Some(m) => if !m.is_file {
                        e@ == text_response(404, "not a file"@)
                    } else {
                        m.len > MAX_PREVIEW_BYTES && e@ == text_response(
                            413,
                            "file too large to preview (>256 KiB)"@,
                        )
                    },
                }
            },
        },
{
    if !inside {
        return Err(Response::text(400, "invalid path"));
    }
    match meta {
        None => Err(Response::text(404, "not found")),
        Some(m) => {
            if !m.is_file {
                Err(Response::text(404, "not a file"))
            } else if m.len > MAX_PREVIEW_BYTES {
                Err(Response::text(413, "file too large to preview (>256 KiB)"))
            } else {
                Ok(())
            }
        },
    }
}

/// A file's text, given what was read of it.
pub fn read_file(read: Result<Vec<u8>, String>) -> (r: Response)
    ensures
        r@ == (match read {
            Err(e) => text_response(500, e@),
            Ok(b) => if valid_utf8(b@) {
                text_response(200, decode_utf8(b@))
            } else {
                text_response(415, "binary file - not previewable"@)
            },
        }),
{
    match read {
        Err(e) => Response::text(500, e.as_str()),
        Ok(b) => match text_of(b) {
            Some(text) => Response::text(200, text.as_str()),
            None => Response::text(415, "binary file - not previewable"),
        },
    }
}

// ---- Laws ------------------------------------------------------------------

/// One part behind a path is one segment more.
proof fn lemma_one_step(base: Seq<char>, part: Seq<char>)
    requires
        part.len() > 0,
        !part.contains('/'),
    ensures
        segments_of(joined_path(base, part)) == segments_of(base).push(part),
{
    let keep = |s: Seq<char>| s.len() > 0;
    assert(part[0] != '/') by {
        assert(part.contains(part[0]));
    }
    reveal(Seq::filter);
    if base.len() == 0 {
        assert(base + part =~= part);
        crate::text::lemma_pieces_whole(part, '/');
        assert(pieces(base, '/') =~= seq![Seq::<char>::empty()]);
        assert(pieces(base, '/').drop_last() =~= Seq::<Seq<char>>::empty());
        assert(seq![part].drop_last() =~= Seq::<Seq<char>>::empty());
        let none = Seq::<Seq<char>>::empty();
        assert(none.filter(keep) =~= none);
        assert(pieces(base, '/').last().len() == 0);
        assert(pieces(base, '/').filter(keep) == none);
        assert(seq![part].filter(keep) =~= none.push(part));
    } else if base.last() == '/' {
        let x = base.drop_last();
        assert(base =~= x + seq!['/'] + Seq::<char>::empty());
        assert(base + part =~= x + seq!['/'] + part);
        crate::text::lemma_pieces_append(x, Seq::empty(), '/');
        crate::text::lemma_pieces_append(x, part, '/');
        let p = pieces(x, '/');
        assert(p.push(part).drop_last() =~= p);
        assert(p.push(Seq::<char>::empty()).drop_last() =~= p);
    } else {
        assert(base.push('/') + part =~= base + seq!['/'] + part);
        crate::text::lemma_pieces_append(base, part, '/');
        let p = pieces(base, '/');
        assert(p.push(part).drop_last() =~= p);
    }
}

/// What is kept of a sequence comes from it, and passes.
proof fn lemma_kept<A>(s: Seq<A>, keep: spec_fn(A) -> bool)
    ensures
        forall|i: int| 0 <= i < s.filter(keep).len() ==> s.contains(#[trigger] s.filter(keep)[i]) && keep(s.filter(keep)[i]),
    decreases s.len(),
{
    reveal(Seq::filter);
    if s.len() > 0 {
        lemma_kept(s.drop_last(), keep);
        let f = s.drop_last().filter(keep);
        assert forall|i: int| 0 <= i < s.filter(keep).len() implies s.contains(#[trigger] s.filter(keep)[i]) && keep(
            s.filter(keep)[i],
        ) by {
            if i < f.len() {
                assert(s.filter(keep)[i] == f[i]);
                let k = choose|k: int| 0 <= k < s.drop_last().len() && s.drop_last()[k] == f[i];
                assert(s[k] == f[i]);
            } else {
                assert(s[s.len() - 1] == s.last());
            }
        }
    }
}

/// No piece of a text has the separator in it.
proof fn lemma_pieces_free(s: Seq<char>, c: char)
    ensures
        forall|i: int| 0 <= i < pieces(s, c).len() ==> !(#[trigger] pieces(s, c)[i]).contains(c),
    decreases s.len(),
{
    crate::text::lemma_pieces_nonempty(s, c);
    if s.len() > 0 {
        let t = s.drop_first();
        lemma_pieces_free(t, c);
        crate::text::lemma_pieces_nonempty(t, c);
        let rest = pieces(t, c);
        assert forall|i: int| 0 <= i < pieces(s, c).len() implies !(#[trigger] pieces(s, c)[i]).contains(c) by {
            if s[0] == c {
                if i > 0 {
                    assert(pieces(s, c)[i] == rest[i - 1]);
                }
            } else if i > 0 {
                assert(pieces(s, c)[i] == rest[i]);
            } else {
                let first = seq![s[0]] + rest[0];
                assert(pieces(s, c)[0] == first);
                if first.contains(c) {
                    let k = choose|k: int| 0 <= k < first.len() && first[k] == c;
                    assert(rest[0][k - 1] == c);
                    assert(rest[0].contains(c));
                }
            }
        }
    }
}

/// Parts that lead on add their segments.
proof fn lemma_descend(base: Seq<char>, steps: Seq<Seq<char>>)
    requires
        forall|i: int| 0 <= i < steps.len() ==> (#[trigger] steps[i]).len() > 0 && !steps[i].contains('/'),
    ensures
        segments_of(descend(base, steps)) == segments_of(base) + steps,
    decreases steps.len(),
{
    if steps.len() == 0 {
        assert(segments_of(base) + steps =~= segments_of(base));
    } else {
        let before = steps.drop_last();
        assert forall|i: int| 0 <= i < before.len() implies (#[trigger] before[i]).len() > 0 && !before[i].contains(
            '/',
        ) by {
            assert(before[i] == steps[i]);
        }
        lemma_descend(base, before);
        assert(steps.last() == steps[steps.len() - 1]);
        lemma_one_step(descend(base, before), steps.last());
        assert(segments_of(base) + steps =~= (segments_of(base) + before).push(steps.last()));
    }
}

/// A path inside a volume goes down from the volume, part by part, and never
/// up: its segments are those of the volume, and behind them the parts of the
/// path that was asked for, none of them `..`.
pub proof fn paths_stay_in_their_volume(base: Seq<char>, rel: Seq<char>)
    requires
        inside(base, rel) is Some,
    ensures
        segments_of(inside(base, rel)->0) == segments_of(base) + steps_of(rel),
        !steps_of(rel).contains(".."@),
{
    let steps = steps_of(rel);
    lemma_kept(segments_of(rel), |s: Seq<char>| s != "."@);
    lemma_kept(pieces(rel, '/'), |s: Seq<char>| s.len() > 0);
    lemma_pieces_free(rel, '/');
    assert forall|i: int| 0 <= i < steps.len() implies (#[trigger] steps[i]).len() > 0 && !steps[i].contains('/') by {
        assert(segments_of(rel).contains(steps[i]));
        let k = choose|k: int| 0 <= k < segments_of(rel).len() && segments_of(rel)[k] == steps[i];
        assert(pieces(rel, '/').contains(segments_of(rel)[k]));
        let j = choose|j: int| 0 <= j < pieces(rel, '/').len() && pieces(rel, '/')[j] == steps[i];
        assert(!pieces(rel, '/')[j].contains('/'));
    }
    lemma_descend(base, steps);
}

/// The users of a volume are listed one by one, by name: each container that
/// has the volume somewhere among its own, and no other.
pub proof fn volumes_list_their_users(name: Seq<char>, a: Seq<Container>, b: Seq<Container>, one: Container)
    ensures
        users_of(name, a + b) == users_of(name, a) + users_of(name, b),
        uses_volume(one, name) ==> users_of(name, seq![one]) == seq![one.name@],
        !uses_volume(one, name) ==> users_of(name, seq![one]).len() == 0,
    decreases b.len(),
{
    reveal_with_fuel(users_of, 2);
    assert(seq![one].drop_last() =~= Seq::<Container>::empty());
    assert(users_of(name, seq![one]) =~= (if uses_volume(one, name) {
        seq![one.name@]
    } else {
        Seq::empty()
    }));
    if b.len() == 0 {
        assert(a + b =~= a);
        assert(users_of(name, a + b) =~= users_of(name, a) + users_of(name, b));
    } else {
        volumes_list_their_users(name, a, b.drop_last(), one);
        assert((a + b).drop_last() =~= a + b.drop_last());
        assert((a + b).last() == b.last());
        assert(users_of(name, a + b) =~= users_of(name, a) + users_of(name, b));
    }
}

/// A container uses a volume under which it mounts it, wherever in its list
/// that is and wherever it mounts it, and uses no volume of another name.
pub proof fn mounted_volumes_are_used(c: Container, i: int, name: Seq<char>, path: Seq<char>, other: Seq<char>)
    requires
        0 <= i < c.volumes@.len(),
        c.volumes@[i]@ == name + seq![':'] + path,
        !name.contains(':'),
    ensures
        uses_volume(c, name),
        c.volumes@.len() == 1 && other != name ==> !uses_volume(c, other),
{
    crate::text::texts_are_cut_in_front(name, ':', path);
    assert(names_volume(c.volumes@[i]@, name));
    assert(names_volume(c.volumes@[i]@, other) <==> other == name);
}

/// A look at a path that is not there is harmless, one at a path that cannot be
/// resolved is not, and one at a path that can be resolved is as long as the
/// path is that of the volume or of something below it.
pub proof fn looks_stay_below_the_volume(base: String, path: String)
    ensures
        stays(Look::Missing),
        !stays(Look::Unreadable),
        stays(Look::Real { base, path }) <==> exists|rest: Seq<Seq<char>>|
            segments_of(path@) == #[trigger] (segments_of(base@) + rest),
{
    let a = segments_of(base@);
    let b = segments_of(path@);
    if a.is_prefix_of(b) {
        let rest = b.skip(a.len() as int);
        assert(b =~= a + rest);
    }
    assert forall|rest: Seq<Seq<char>>| b == #[trigger] (a + rest) implies a.is_prefix_of(b) by {
        assert((a + rest).subrange(0, a.len() as int) =~= a);
    }
}

/// The path that a request asks for is the value of `path`, and the volume
/// itself where there is none.
pub proof fn requests_name_a_path(query: Seq<(Seq<char>, Seq<char>)>, p: Seq<char>)
    ensures
        path_of(query.push(("path"@, p))) == p,
        (forall|i: int| 0 <= i < query.len() ==> (#[trigger] query[i]).0 != "path"@) ==> path_of(query).len() == 0,
{
    reveal_strlit("");
    let longer = query.push(("path"@, p));
    assert(longer[query.len() as int] == ("path"@, p));
    crate::image::the_last_entry_counts(longer, "path"@, query.len() as int);
    crate::image::the_last_entry_counts(query, "path"@, 0);
}

} // verus!
