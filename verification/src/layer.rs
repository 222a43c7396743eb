//! Layers: a content-addressed, ordered list of file system entries.
//!
//! A manifest lists every path a layer touches, each regular file pointing at
//! a blob by hash. Times are never recorded, so nothing that differs from
//! build to build can reach a layer's id. Deletions are kept the way
//! overlayfs marks them: a whiteout entry, or a directory flagged opaque.

use crate::codec::{
    bytes_of, hex_text, hex_text_is_injective, json_array, json_bool, json_bool_text, json_list, json_map, json_member, json_object,
    json_pair, json_str, json_string,
};
use crate::error::Error;
use crate::identity::{container_to_host, host_id_of, host_to_container, relative_id, SUBORDINATE_RANGE};
use crate::image::Save;
use crate::num::{decimal, u64_text};
use crate::order::{
    codes, key_ints, lemma_sorted_contents, lemma_text_rank_splits, octets, push_codes, push_number, rank_order,
    reversed, separates, sort, Ranked,
};
use crate::paths::{joined_path, path_join};
use crate::pretty::{
    add_line, array_lines, arrays_show_their_items, begins_item, lists_show_their_items, maps_show_their_members,
    members_on_one_line_show_their_names, pairs_show_their_values, laid_array, laid_member, laid_object, members_show_their_names,
    members_show_their_values, numbers_show_their_value, object_lines, objects_show_their_members,
    strings_show_their_text, told_apart, truth_values_show,
};
use crate::store::{listed, permission_bits, sha256, Store};
use crate::text::{cat2, cat4, replace_char, replaced, views};
use vstd::prelude::*;
use vstd::utf8::{encode_utf8, encode_utf8_decode_utf8};

verus! {

/// What an entry is.
#[derive(Debug)]
pub enum EntryKind {
    /// An opaque directory replaces whatever lower layers hold at its path
    /// instead of merging with it.
    Dir { opaque: bool },
    File { blob: crate::store::Hash, size: u64 },
    Symlink { target: String },
    /// The path is deleted relative to lower layers.
    Whiteout,
}

/// One path of a layer.
#[derive(Debug)]
pub struct Entry {
    /// Slash-separated, relative to the layer's root.
    pub path: String,
    /// Permission bits only.
    pub mode: u32,
    /// Container-relative owner.
    pub uid: u32,
    pub gid: u32,
    pub kind: EntryKind,
}

/// The mathematical content of an [`EntryKind`].
pub enum KindView {
    Dir { opaque: bool },
    File { blob: Seq<u8>, size: u64 },
    Symlink { target: Seq<char> },
    Whiteout,
}

/// The mathematical content of an [`Entry`].
#[verifier::ext_equal]
pub struct EntryView {
    pub path: Seq<char>,
    pub mode: u32,
    pub uid: u32,
    pub gid: u32,
    pub kind: KindView,
}

impl View for EntryKind {
    type V = KindView;

    open spec fn view(&self) -> KindView {
        match *self {
            EntryKind::Dir { opaque } => KindView::Dir { opaque },
            EntryKind::File { blob, size } => KindView::File { blob: blob@, size },
            EntryKind::Symlink { target } => KindView::Symlink { target: target@ },
            EntryKind::Whiteout => KindView::Whiteout,
        }
    }
}

impl View for Entry {
    type V = EntryView;

    open spec fn view(&self) -> EntryView {
        EntryView {
            path: self.path@,
            mode: self.mode,
            uid: self.uid,
            gid: self.gid,
            kind: self.kind@,
        }
    }
}

/// The contents of a sequence of entries.
pub open spec fn entry_views(v: Seq<Entry>) -> Seq<EntryView> {
    v.map_values(|e: Entry| e@)
}

// ---- Order -----------------------------------------------------------------

/// How kinds of entries rank: directories, files, links, whiteouts, each by its own fields.
pub open spec fn kind_rank(k: KindView) -> Seq<int> {
    match k {
        KindView::Dir { opaque } => seq![0int, if opaque { 1int } else { 0int }],
        KindView::File { blob, size } => seq![1int] + octets(blob) + seq![
            size as int / 0x1_0000_0000,
            size as int % 0x1_0000_0000,
        ],
        KindView::Symlink { target } => seq![2int] + codes(target),
        KindView::Whiteout => seq![3int],
    }
}

/// How entries rank: by path, then mode, owner, group and kind.
pub open spec fn entry_rank(e: EntryView) -> Seq<int> {
    codes(e.path) + seq![-1int] + (seq![e.mode as int, e.uid as int, e.gid as int] + kind_rank(e.kind))
}

/// Entries in rank order.
pub open spec fn in_order(v: Seq<EntryView>) -> Seq<EntryView> {
    v.sort_by(rank_order(|e: EntryView| entry_rank(e)))
}

impl Ranked for Entry {
    open spec fn rank(&self) -> Seq<int> {
        entry_rank(self@)
    }

    fn key(&self) -> (r: Vec<i64>) {
        let mut k: Vec<i64> = Vec::new();
        assert(key_ints(k@) =~= Seq::<int>::empty());
        push_codes(&mut k, self.path.as_str());
        push_number(&mut k, -1);
        push_number(&mut k, self.mode as i64);
        push_number(&mut k, self.uid as i64);
        push_number(&mut k, self.gid as i64);
        let ghost head = key_ints(k@);
        assert(head =~= codes(self.path@) + seq![-1int] + seq![
            self.mode as int,
            self.uid as int,
            self.gid as int,
        ]);
        match &self.kind {
            EntryKind::Dir { opaque } => {
                push_number(&mut k, 0);
                push_number(&mut k, if *opaque { 1 } else { 0 });
                assert(key_ints(k@) =~= head + kind_rank(self.kind@));
            },
            EntryKind::File { blob, size } => {
                push_number(&mut k, 1);
                let ghost start = key_ints(k@);
                let mut i: usize = 0;
                while i < 32
                    invariant
                        i <= 32,
                        blob@.len() == 32,
                        key_ints(k@) == start + octets(blob@.take(i as int)),
                    decreases 32 - i,
                {
                    assert(octets(blob@.take(i + 1)) =~= octets(blob@.take(i as int)).push(
                        blob@[i as int] as int,
                    ));
                    push_number(&mut k, blob.0[i] as i64);
                    i += 1;
                }
                assert(blob@.take(32) =~= blob@);
                push_number(&mut k, (*size / 0x1_0000_0000) as i64);
                push_number(&mut k, (*size % 0x1_0000_0000) as i64);
                assert(key_ints(k@) =~= head + kind_rank(self.kind@));
            },
            EntryKind::Symlink { target } => {
                push_number(&mut k, 2);
                push_codes(&mut k, target.as_str());
                assert(key_ints(k@) =~= head + kind_rank(self.kind@));
            },
            EntryKind::Whiteout => {
                push_number(&mut k, 3);
                assert(key_ints(k@) =~= head + kind_rank(self.kind@));
            },
        }
        assert(key_ints(k@) =~= entry_rank(self@));
        k
    }
}

/// Different kinds rank differently.
proof fn lemma_kind_rank_separates(a: KindView, b: KindView)
    requires
        kind_rank(a) == kind_rank(b),
    ensures
        a == b,
{
    let l = kind_rank(a);
    let r = kind_rank(b);
    assert(l[0] == r[0]);
    match (a, b) {
        (KindView::Dir { opaque: x }, KindView::Dir { opaque: y }) => {
            assert(l[1] == r[1]);
        },
        (KindView::File { blob: x, size: m }, KindView::File { blob: y, size: n }) => {
            assert(l.len() == x.len() + 3);
            assert(r.len() == y.len() + 3);
            assert forall|i: int| 0 <= i < x.len() implies x[i] == y[i] by {
                assert(l[i + 1] == x[i] as int);
                assert(r[i + 1] == y[i] as int);
            }
            assert(x =~= y);
            assert(l[x.len() as int + 1] == m as int / 0x1_0000_0000);
            assert(r[x.len() as int + 1] == n as int / 0x1_0000_0000);
            assert(l[x.len() as int + 2] == m as int % 0x1_0000_0000);
            assert(r[x.len() as int + 2] == n as int % 0x1_0000_0000);
        },
        (KindView::Symlink { target: x }, KindView::Symlink { target: y }) => {
            assert(l.len() == x.len() + 1);
            assert(r.len() == y.len() + 1);
            assert forall|i: int| 0 <= i < x.len() implies x[i] == y[i] by {
                assert(l[i + 1] == x[i] as int);
                assert(r[i + 1] == y[i] as int);
            }
            assert(x =~= y);
        },
        _ => {},
    }
}

/// Different entries rank differently.
pub proof fn lemma_entry_rank_separates()
    ensures
        separates(|e: EntryView| entry_rank(e)),
{
    let rank = |e: EntryView| entry_rank(e);
    assert forall|a: EntryView, b: EntryView| #[trigger] rank(a) == #[trigger] rank(b) implies a == b by {
        let x = seq![a.mode as int, a.uid as int, a.gid as int] + kind_rank(a.kind);
        let y = seq![b.mode as int, b.uid as int, b.gid as int] + kind_rank(b.kind);
        lemma_text_rank_splits(a.path, x, b.path, y);
        assert(x[0] == y[0] && x[1] == y[1] && x[2] == y[2]);
        assert(x.skip(3) =~= kind_rank(a.kind));
        assert(y.skip(3) =~= kind_rank(b.kind));
        lemma_kind_rank_separates(a.kind, b.kind);
    }
}

/// `entries`, put in rank order.
pub fn sort_entries(entries: Vec<Entry>) -> (r: Vec<Entry>)
    ensures
        entry_views(r@) == in_order(entry_views(entries@)),
{
    let ghost before = entries@;
    let out = sort(entries);
    proof {
        lemma_entry_rank_separates();
        lemma_sorted_contents(out@, before, |e: Entry| e@, |e: EntryView| entry_rank(e));
        assert(out@.map_values(|e: Entry| e@) =~= entry_views(out@));
        assert(before.map_values(|e: Entry| e@) =~= entry_views(before));
    }
    out
}

/// The order in which a directory is walked never shows: two walks that saw
/// the same entries end in the same manifest, and so in the same id.
pub proof fn walk_order_does_not_matter(a: Seq<EntryView>, b: Seq<EntryView>)
    requires
        a.to_multiset() == b.to_multiset(),
    ensures
        in_order(a) == in_order(b),
        manifest_id(in_order(a)) == manifest_id(in_order(b)),
{
    let rank = |e: EntryView| entry_rank(e);
    lemma_entry_rank_separates();
    crate::order::lemma_rank_order_total(rank);
    a.lemma_sort_by_ensures(rank_order(rank));
    b.lemma_sort_by_ensures(rank_order(rank));
    vstd::seq_lib::lemma_sorted_unique(in_order(a), in_order(b), rank_order(rank));
}

// ---- Manifests -------------------------------------------------------------

/// A layer's entries, always in rank order.
#[derive(Debug)]
pub struct LayerManifest {
    pub entries: Vec<Entry>,
}

impl View for LayerManifest {
    type V = Seq<EntryView>;

    open spec fn view(&self) -> Seq<EntryView> {
        entry_views(self.entries@)
    }
}

/// The JSON text of an entry's kind.
pub open spec fn kind_json(k: KindView) -> Seq<char> {
    match k {
        KindView::Dir { opaque } => json_object(
            seq![
                json_member(
                    "Dir"@,
                    json_object(seq![json_member("opaque"@, json_bool_text(opaque))]),
                ),
            ],
        ),
        KindView::File { blob, size } => json_object(
            seq![
                json_member(
                    "File"@,
                    json_object(
                        seq![
                            json_member("blob"@, json_string(hex_text(blob))),
                            json_member("size"@, decimal(size as nat)),
                        ],
                    ),
                ),
            ],
        ),
        KindView::Symlink { target } => json_object(
            seq![
                json_member(
                    "Symlink"@,
                    json_object(seq![json_member("target"@, json_string(target))]),
                ),
            ],
        ),
        KindView::Whiteout => json_string("Whiteout"@),
    }
}

/// The JSON text of an entry.
pub open spec fn entry_json(e: EntryView) -> Seq<char> {
    json_object(
        seq![
            json_member("path"@, json_string(e.path)),
            json_member("mode"@, decimal(e.mode as nat)),
            json_member("uid"@, decimal(e.uid as nat)),
            json_member("gid"@, decimal(e.gid as nat)),
            json_member("kind"@, kind_json(e.kind)),
        ],
    )
}

/// The JSON text of a manifest.
pub open spec fn manifest_json(entries: Seq<EntryView>) -> Seq<char> {
    json_object(
        seq![
            json_member(
                "entries"@,
                json_array(entries.map_values(|e: EntryView| entry_json(e))),
            ),
        ],
    )
}

/// An object with one member, `depth` levels down.
pub open spec fn laid_single(name: Seq<char>, value: Seq<char>, depth: nat) -> Seq<char> {
    laid_object(seq![laid_member(name, value)], depth)
}

/// The members of a regular file's kind.
pub open spec fn file_line_members(blob: Seq<u8>, size: u64) -> Seq<Seq<char>> {
    seq![
        laid_member("blob"@, json_string(hex_text(blob))),
        laid_member("size"@, decimal(size as nat)),
    ]
}

/// An entry's kind as a file holds it, `depth` levels down.
pub open spec fn kind_lines(k: KindView, depth: nat) -> Seq<char> {
    match k {
        KindView::Dir { opaque } => laid_single(
            "Dir"@,
            laid_single("opaque"@, json_bool_text(opaque), depth + 1),
            depth,
        ),
        KindView::File { blob, size } => laid_single(
            "File"@,
            laid_object(file_line_members(blob, size), depth + 1),
            depth,
        ),
        KindView::Symlink { target } => laid_single(
            "Symlink"@,
            laid_single("target"@, json_string(target), depth + 1),
            depth,
        ),
        KindView::Whiteout => json_string("Whiteout"@),
    }
}

/// The members of an entry that a file holds `depth` levels down.
pub open spec fn entry_line_members(e: EntryView, depth: nat) -> Seq<Seq<char>> {
    seq![
        laid_member("path"@, json_string(e.path)),
        laid_member("mode"@, decimal(e.mode as nat)),
        laid_member("uid"@, decimal(e.uid as nat)),
        laid_member("gid"@, decimal(e.gid as nat)),
        laid_member("kind"@, kind_lines(e.kind, depth + 1)),
    ]
}

/// An entry as a file holds it, `depth` levels down.
pub open spec fn entry_lines(e: EntryView, depth: nat) -> Seq<char> {
    laid_object(entry_line_members(e, depth), depth)
}

/// What the file of a manifest holds.
pub open spec fn manifest_file_text(entries: Seq<EntryView>) -> Seq<char> {
    laid_single("entries"@, laid_array(entries.map_values(|e: EntryView| entry_lines(e, 2)), 1), 0)
}

/// The id of a manifest: the hash of its JSON text.
pub open spec fn manifest_id(entries: Seq<EntryView>) -> Seq<u8> {
    sha256(encode_utf8(manifest_json(entries)))
}

/// The file of the layer manifest with the given id.
pub open spec fn layer_file(root: Seq<char>, id: Seq<u8>) -> Seq<char> {
    joined_path(joined_path(root, "layers"@), hex_text(id) + ".json"@)
}

/// A JSON object with one member.
fn single_member(name: &str, value: &str) -> (r: String)
    ensures
        r@ == json_object(seq![json_member(name@, value@)]),
{
    let mut members: Vec<String> = Vec::new();
    members.push(json_pair(name, value));
    assert(views(members@) =~= seq![json_member(name@, value@)]);
    json_map(&members)
}

/// An object with one member, `depth` levels down.
fn single_line(name: &str, value: &str, depth: u8) -> (r: String)
    requires
        depth < u8::MAX,
    ensures
        r@ == laid_single(name@, value@, depth as nat),
{
    let mut members: Vec<String> = Vec::new();
    add_line(&mut members, name, value);
    assert(views(members@) =~= seq![laid_member(name@, value@)]);
    object_lines(&members, depth)
}

impl EntryKind {
    /// The kind as a file holds it, `depth` levels down.
    pub(crate) fn lines(&self, depth: u8) -> (r: String)
        requires
            depth + 1 < u8::MAX,
        ensures
            r@ == kind_lines(self@, depth as nat),
    {
        match self {
            EntryKind::Dir { opaque } => {
                let b = json_bool(*opaque);
                let inner = single_line("opaque", b.as_str(), depth + 1);
                single_line("Dir", inner.as_str(), depth)
            },
            EntryKind::File { blob, size } => {
                let hex = blob.to_hex();
                let blob_text = json_str(hex.as_str());
                let size_text = u64_text(*size);
                let mut members: Vec<String> = Vec::new();
                add_line(&mut members, "blob", blob_text.as_str());
                add_line(&mut members, "size", size_text.as_str());
                assert(views(members@) =~= file_line_members(blob@, *size));
                let inner = object_lines(&members, depth + 1);
                single_line("File", inner.as_str(), depth)
            },
            EntryKind::Symlink { target } => {
                let t = json_str(target.as_str());
                let inner = single_line("target", t.as_str(), depth + 1);
                single_line("Symlink", inner.as_str(), depth)
            },
            EntryKind::Whiteout => json_str("Whiteout"),
        }
    }

    /// The JSON text of the kind.
    pub fn to_json(&self) -> (r: String)
        ensures
            r@ == kind_json(self@),
    {
        match self {
            EntryKind::Dir { opaque } => {
                let b = json_bool(*opaque);
                let inner = single_member("opaque", b.as_str());
                single_member("Dir", inner.as_str())
            },
            EntryKind::File { blob, size } => {
                let hex = blob.to_hex();
                let hex_json = json_str(hex.as_str());
                let n = u64_text(*size);
                let mut members: Vec<String> = Vec::new();
                members.push(json_pair("blob", hex_json.as_str()));
                members.push(json_pair("size", n.as_str()));
                assert(views(members@) =~= seq![
                    json_member("blob"@, json_string(hex_text(blob@))),
                    json_member("size"@, decimal(*size as nat)),
                ]);
                let inner = json_map(&members);
                single_member("File", inner.as_str())
            },
            EntryKind::Symlink { target } => {
                let t = json_str(target.as_str());
                let inner = single_member("target", t.as_str());
                single_member("Symlink", inner.as_str())
            },
            EntryKind::Whiteout => json_str("Whiteout"),
        }
    }
}

impl Entry {
    /// The entry as a file holds it, `depth` levels down.
    pub(crate) fn lines(&self, depth: u8) -> (r: String)
        requires
            depth + 2 < u8::MAX,
        ensures
            r@ == entry_lines(self@, depth as nat),
    {
        let path = json_str(self.path.as_str());
        let mode = u64_text(self.mode as u64);
        let uid = u64_text(self.uid as u64);
        let gid = u64_text(self.gid as u64);
        let kind = self.kind.lines(depth + 1);
        let mut members: Vec<String> = Vec::new();
        add_line(&mut members, "path", path.as_str());
        add_line(&mut members, "mode", mode.as_str());
        add_line(&mut members, "uid", uid.as_str());
        add_line(&mut members, "gid", gid.as_str());
        add_line(&mut members, "kind", kind.as_str());
        assert(views(members@) =~= entry_line_members(self@, depth as nat));
        object_lines(&members, depth)
    }

    /// The JSON text of the entry.
    pub fn to_json(&self) -> (r: String)
        ensures
            r@ == entry_json(self@),
    {
        let path = json_str(self.path.as_str());
        let mode = u64_text(self.mode as u64);
        let uid = u64_text(self.uid as u64);
        let gid = u64_text(self.gid as u64);
        let kind = self.kind.to_json();
        let mut members: Vec<String> = Vec::new();
        members.push(json_pair("path", path.as_str()));
        members.push(json_pair("mode", mode.as_str()));
        members.push(json_pair("uid", uid.as_str()));
        members.push(json_pair("gid", gid.as_str()));
        members.push(json_pair("kind", kind.as_str()));
        assert(views(members@) =~= seq![
            json_member("path"@, json_string(self@.path)),
            json_member("mode"@, decimal(self@.mode as nat)),
            json_member("uid"@, decimal(self@.uid as nat)),
            json_member("gid"@, decimal(self@.gid as nat)),
            json_member("kind"@, kind_json(self@.kind)),
        ]);
        json_map(&members)
    }
}

impl LayerManifest {
    /// What the manifest's file holds.
    pub fn file_text(&self) -> (r: String)
        ensures
            r@ == manifest_file_text(self@),
    {
        let ghost all = self@.map_values(|e: EntryView| entry_lines(e, 2));
        let mut items: Vec<String> = Vec::new();
        let mut i: usize = 0;
        while i < self.entries.len()
            invariant
                i <= self.entries@.len(),
                all == self@.map_values(|e: EntryView| entry_lines(e, 2)),
                views(items@) == all.take(i as int),
            decreases self.entries.len() - i,
        {
            let item = self.entries[i].lines(2);
            assert(all[i as int] == item@);
            assert(all.take(i + 1) =~= all.take(i as int).push(item@));
            assert(views(items@.push(item)) =~= views(items@).push(item@));
            items.push(item);
            i += 1;
        }
        assert(all.take(i as int) =~= all);
        let list = array_lines(&items, 1);
        single_line("entries", list.as_str(), 0)
    }

    /// The JSON text of the manifest.
    pub fn to_json(&self) -> (r: String)
        ensures
            r@ == manifest_json(self@),
    {
        let mut items: Vec<String> = Vec::new();
        let mut i: usize = 0;
        while i < self.entries.len()
            invariant
                i <= self.entries@.len(),
                views(items@) == self@.take(i as int).map_values(|e: EntryView| entry_json(e)),
            decreases self.entries.len() - i,
        {
            let item = self.entries[i].to_json();
            proof {
                assert(self@.take(i + 1) =~= self@.take(i as int).push(self@[i as int]));
                assert(self@.take(i + 1).map_values(|e: EntryView| entry_json(e)) =~= self@.take(
                    i as int,
                ).map_values(|e: EntryView| entry_json(e)).push(item@));
                assert(views(items@.push(item)) =~= views(items@).push(item@));
            }
            items.push(item);
            i += 1;
        }
        assert(self@.take(i as int) =~= self@);
        let list = json_list(&items);
        single_member("entries", list.as_str())
    }

    /// The layer's id: the hash of its JSON text.
    pub fn id(&self) -> (r: crate::store::Hash)
        ensures
            r@ == manifest_id(self@),
    {
        let text = self.to_json();
        let bytes = bytes_of(text.as_str());
        crate::store::Hash::of_bytes(bytes.as_slice())
    }

    /// The file of the manifest with the given id.
    pub fn file(store: &Store, id: &crate::store::Hash) -> (r: String)
        ensures
            r@ == layer_file(store.root@, id@),
    {
        let dir = store.layers_dir();
        let hex = id.to_hex();
        let name = cat2(hex.as_str(), ".json");
        path_join(dir.as_str(), name.as_str())
    }

    /// Saves the manifest under its own id; one that is saved already is not
    /// written again.
    pub fn save(&self, store: &Store, files: &Vec<String>) -> (r: Save)
        ensures
            r.id@ == manifest_id(self@),
            r.path@ == layer_file(store.root@, manifest_id(self@)),
            r.content@ == encode_utf8(manifest_file_text(self@)),
            r.write == !views(files@).contains(layer_file(store.root@, manifest_id(self@))),
    {
        let id = self.id();
        let path = LayerManifest::file(store, &id);
        let text = self.file_text();
        let content = bytes_of(text.as_str());
        let write = !listed(files, path.as_str());
        Save { id, path, content, write }
    }

    /// The manifest with the given id, given what reading its file came to
    /// (`None` if there is no such regular file).
    pub fn load(id: &crate::store::Hash, read: Option<Result<LayerManifest, Error>>) -> (r: Result<
        LayerManifest,
        Error,
    >)
        ensures
            match read {
                None => r matches Err(Error::LayerNotFound(h)) && h@ == id@,
                Some(found) => r == found,
            },
    {
        match read {
            None => Err(Error::LayerNotFound(*id)),
            Some(found) => found,
        }
    }
}

// ---- From a directory to a manifest ----------------------------------------

/// What a walked path is. A character device carries its device number, a
/// file its content's hash and length; what a layer may not be able to hold
/// carries a description of its type.
pub enum WalkedKind {
    Symlink { target: String },
    Dir { opaque: bool },
    CharDevice { device: u64, description: String },
    File { blob: crate::store::Hash, size: u64 },
    Other { description: String },
}

/// One path below a walked directory: its path relative to that directory,
/// its full path, its raw mode and its owner on the host.
pub struct Walked {
    pub path: String,
    pub full_path: String,
    pub mode: u32,
    pub uid: u32,
    pub gid: u32,
    pub kind: WalkedKind,
}

/// A path the way an entry records it: with forward slashes only.
pub open spec fn entry_path(p: Seq<char>) -> Seq<char> {
    replaced(p, '\\', "/"@)
}

/// A path the way an entry records it.
pub fn path_to_entry_string(p: &str) -> (r: String)
    ensures
        r@ == entry_path(p@),
{
    replace_char(p, '\\', "/")
}

/// What is said of a path that no layer can hold.
pub open spec fn unsupported_file(full_path: Seq<char>, description: Seq<char>) -> Seq<char> {
    "unsupported file type at "@ + full_path + ": "@ + description
        + " (only regular files, dirs, symlinks, and overlayfs whiteouts are supported)"@
}

/// The kind of entry that a walked path becomes; a character device with
/// number 0 is an overlayfs whiteout.
pub open spec fn walked_kind(k: WalkedKind) -> Option<KindView> {
    match k {
        WalkedKind::Symlink { target } => Some(KindView::Symlink { target: entry_path(target@) }),
        WalkedKind::Dir { opaque } => Some(KindView::Dir { opaque }),
        WalkedKind::CharDevice { device, description } => if device == 0 {
            Some(KindView::Whiteout)
        } else {
            None
        },
        WalkedKind::File { blob, size } => Some(KindView::File { blob: blob@, size }),
        WalkedKind::Other { description } => None,
    }
}

/// The entry that a walked path becomes.
pub open spec fn walked_entry(w: Walked, uid_base: u32, gid_base: u32) -> Option<EntryView> {
    match walked_kind(w.kind) {
        Some(kind) => Some(
            EntryView {
                path: entry_path(w.path@),
                mode: permission_bits(w.mode),
                uid: relative_id(w.uid as int, uid_base as int) as u32,
                gid: relative_id(w.gid as int, gid_base as int) as u32,
                kind,
            },
        ),
        None => None,
    }
}

/// Whether a step of a walk yields an entry.
pub open spec fn step_yields(step: Result<Walked, Error>) -> bool {
    step matches Ok(w) && walked_kind(w.kind) is Some
}

/// The entries that the first `n` steps of a walk yield, in walk order.
pub open spec fn walk_entries(
    steps: Seq<Result<Walked, Error>>,
    n: int,
    uid_base: u32,
    gid_base: u32,
) -> Seq<EntryView> {
    Seq::new(n as nat, |i: int| walked_entry(steps[i]->Ok_0, uid_base, gid_base)->0)
}

/// The first step of a walk that yields no entry, as a failure.
pub open spec fn walk_failure(step: Result<Walked, Error>, e: Error) -> bool {
    match step {
        Err(x) => e == x,
        Ok(w) => walked_kind(w.kind) is None && (e matches Error::Build(m) && (match w.kind {
            WalkedKind::Other { description } => m@ == unsupported_file(w.full_path@, description@),
            WalkedKind::CharDevice { device, description } => m@ == unsupported_file(
                w.full_path@,
                description@,
            ),
            _ => false,
        })),
    }
}

/// What is said of a path that no layer can hold.
fn unsupported_message(full_path: &str, description: &str) -> (r: Error)
    ensures
        r matches Error::Build(m) && m@ == unsupported_file(full_path@, description@),
{
    let head = cat4("unsupported file type at ", full_path, ": ", description);
    Error::Build(
        cat2(
            head.as_str(),
            " (only regular files, dirs, symlinks, and overlayfs whiteouts are supported)",
        ),
    )
}

/// The entry that a walked path becomes.
fn entry_of_walked(w: Walked, uid_base: u32, gid_base: u32) -> (r: Result<Entry, Error>)
    requires
        uid_base + SUBORDINATE_RANGE <= u32::MAX,
        gid_base + SUBORDINATE_RANGE <= u32::MAX,
    ensures
        match r {
            Ok(e) => walked_entry(w, uid_base, gid_base) == Some(e@),
            Err(x) => walk_failure(Ok(w), x),
        },
{
    let mode = w.mode & 0o7777;
    let uid = host_to_container(w.uid, uid_base);
    let gid = host_to_container(w.gid, gid_base);
    let path = path_to_entry_string(w.path.as_str());
    let kind = match w.kind {
        WalkedKind::Symlink { target } => EntryKind::Symlink {
            target: path_to_entry_string(target.as_str()),
        },
        WalkedKind::Dir { opaque } => EntryKind::Dir { opaque },
        WalkedKind::CharDevice { device, description } => {
            if device == 0 {
                EntryKind::Whiteout
            } else {
                return Err(unsupported_message(w.full_path.as_str(), description.as_str()));
            }
        },
        WalkedKind::File { blob, size } => EntryKind::File { blob, size },
        WalkedKind::Other { description } => {
            return Err(unsupported_message(w.full_path.as_str(), description.as_str()));
        },
    };
    Ok(Entry { path, mode, uid, gid, kind })
}

/// The manifest of a walked directory: one entry per path, owners turned
/// into container-relative numbers, in rank order. The first step that
/// yields no entry decides the failure.
pub fn snapshot_dir(steps: Vec<Result<Walked, Error>>, uid_base: u32, gid_base: u32) -> (r: Result<
    LayerManifest,
    Error,
>)
    requires
        uid_base + SUBORDINATE_RANGE <= u32::MAX,
        gid_base + SUBORDINATE_RANGE <= u32::MAX,
    ensures
        match r {
            Ok(m) => (forall|i: int| 0 <= i < steps@.len() ==> step_yields(#[trigger] steps@[i])) && m@
                == in_order(walk_entries(steps@, steps@.len() as int, uid_base, gid_base)),
            Err(e) => exists|i: int|
                0 <= i < steps@.len() && !step_yields(#[trigger] steps@[i]) && walk_failure(steps@[i], e)
                    && (forall|j: int| 0 <= j < i ==> step_yields(#[trigger] steps@[j])),
        },
{
    let ghost all = steps@;
    let total: usize = steps.len();
    let mut entries: Vec<Entry> = Vec::new();
    let mut rest = reversed(steps);
    let mut done: usize = 0;
    assert(rest@ =~= all.reverse().take(rest@.len() as int));
    assert(entry_views(entries@) =~= walk_entries(all, 0, uid_base, gid_base));
    while rest.len() > 0
        invariant
            all == steps@,
            total == all.len(),
            done + rest@.len() == total,
            rest@ == all.reverse().take(rest@.len() as int),
            uid_base + SUBORDINATE_RANGE <= u32::MAX,
            gid_base + SUBORDINATE_RANGE <= u32::MAX,
            forall|i: int| 0 <= i < done ==> step_yields(#[trigger] all[i]),
            entry_views(entries@) == walk_entries(all, done as int, uid_base, gid_base),
        decreases rest@.len(),
    {
        match rest.pop() {
            None => {},
            Some(Err(e)) => {
                assert(Err::<Walked, Error>(e) == all[done as int]);
                return Err(e);
            },
            Some(Ok(w)) => {
                assert(Ok::<Walked, Error>(w) == all[done as int]);
                assert(rest@ =~= all.reverse().take(rest@.len() as int));
                let ghost gw = w;
                match entry_of_walked(w, uid_base, gid_base) {
                    Ok(entry) => {
                        proof {
                            assert(all[done as int]->Ok_0 == gw);
                            assert(entry_views(entries@.push(entry)) =~= entry_views(entries@).push(
                                entry@,
                            ));
                            assert(walk_entries(all, done + 1, uid_base, gid_base) =~= walk_entries(
                                all,
                                done as int,
                                uid_base,
                                gid_base,
                            ).push(entry@));
                        }
                        entries.push(entry);
                    },
                    Err(e) => {
                        return Err(e);
                    },
                }
            },
        }
        done += 1;
    }
    Ok(LayerManifest { entries: sort_entries(entries) })
}

// ---- From a manifest to a directory ----------------------------------------

/// One step in populating a directory from a manifest.
pub enum MakeStep {
    /// Create the directory and those of its ancestors that are missing;
    /// every directory created gets mode 0755 and the given owner.
    EnsureDir { path: String, uid: u32, gid: u32 },
    /// The same for the directory that holds `path`.
    EnsureParent { path: String, uid: u32, gid: u32 },
    Dir { path: String, mode: u32, uid: u32, gid: u32, opaque: bool },
    Place { blob: crate::store::Hash, path: String, mode: u32, uid: u32, gid: u32 },
    Symlink { target: String, path: String },
    Whiteout { path: String },
    /// Remove what stands at the path, with all that is below it.
    Clear { path: String },
    /// Write an empty file.
    Mark { path: String },
}

/// The mathematical content of a [`MakeStep`].
pub enum MakeView {
    EnsureDir { path: Seq<char>, uid: int, gid: int },
    EnsureParent { path: Seq<char>, uid: int, gid: int },
    Dir { path: Seq<char>, mode: u32, uid: int, gid: int, opaque: bool },
    Place { blob: Seq<u8>, path: Seq<char>, mode: u32, uid: int, gid: int },
    Symlink { target: Seq<char>, path: Seq<char> },
    Whiteout { path: Seq<char> },
    Clear { path: Seq<char> },
    Mark { path: Seq<char> },
}

impl View for MakeStep {
    type V = MakeView;

    open spec fn view(&self) -> MakeView {
        match *self {
            MakeStep::EnsureDir { path, uid, gid } => MakeView::EnsureDir {
                path: path@,
                uid: uid as int,
                gid: gid as int,
            },
            MakeStep::EnsureParent { path, uid, gid } => MakeView::EnsureParent {
                path: path@,
                uid: uid as int,
                gid: gid as int,
            },
            MakeStep::Dir { path, mode, uid, gid, opaque } => MakeView::Dir {
                path: path@,
                mode,
                uid: uid as int,
                gid: gid as int,
                opaque,
            },
            MakeStep::Place { blob, path, mode, uid, gid } => MakeView::Place {
                blob: blob@,
                path: path@,
                mode,
                uid: uid as int,
                gid: gid as int,
            },
            MakeStep::Symlink { target, path } => MakeView::Symlink { target: target@, path: path@ },
            MakeStep::Whiteout { path } => MakeView::Whiteout { path: path@ },
            MakeStep::Clear { path } => MakeView::Clear { path: path@ },
            MakeStep::Mark { path } => MakeView::Mark { path: path@ },
        }
    }
}

/// The contents of a sequence of steps.
pub open spec fn make_views(v: Seq<MakeStep>) -> Seq<MakeView> {
    v.map_values(|s: MakeStep| s@)
}

/// The step that makes the entry itself at `path`.
pub open spec fn make_entry(e: EntryView, path: Seq<char>, uid_base: int, gid_base: int) -> MakeView {
    let uid = host_id_of(e.uid as int, uid_base);
    let gid = host_id_of(e.gid as int, gid_base);
    match e.kind {
        KindView::Dir { opaque } => MakeView::Dir { path, mode: e.mode, uid, gid, opaque },
        KindView::File { blob, size } => MakeView::Place { blob, path, mode: e.mode, uid, gid },
        KindView::Symlink { target } => MakeView::Symlink { target, path },
        KindView::Whiteout => MakeView::Whiteout { path },
    }
}

/// The steps that populate `dest` from the entries: the directory itself,
/// then for each entry its parent directory and the entry. Implied
/// directories belong to the container's root.
pub open spec fn make_plan(entries: Seq<EntryView>, dest: Seq<char>, uid_base: int, gid_base: int) -> Seq<
    MakeView,
>
    decreases entries.len(),
{
    let uid = host_id_of(0, uid_base);
    let gid = host_id_of(0, gid_base);
    if entries.len() == 0 {
        seq![MakeView::EnsureDir { path: dest, uid, gid }]
    } else {
        let e = entries.last();
        let path = joined_path(dest, e.path);
        make_plan(entries.drop_last(), dest, uid_base, gid_base).push(
            MakeView::EnsureParent { path, uid, gid },
        ).push(make_entry(e, path, uid_base, gid_base))
    }
}

/// The step that makes one entry.
fn make_step(e: &Entry, path: String, uid_base: u32, gid_base: u32) -> (r: MakeStep)
    requires
        uid_base + SUBORDINATE_RANGE <= u32::MAX,
        gid_base + SUBORDINATE_RANGE <= u32::MAX,
    ensures
        r@ == make_entry(e@, path@, uid_base as int, gid_base as int),
{
    let uid = container_to_host(e.uid, uid_base);
    let gid = container_to_host(e.gid, gid_base);
    match &e.kind {
        EntryKind::Dir { opaque } => MakeStep::Dir { path, mode: e.mode, uid, gid, opaque: *opaque },
        EntryKind::File { blob, size } => MakeStep::Place { blob: *blob, path, mode: e.mode, uid, gid },
        EntryKind::Symlink { target } => MakeStep::Symlink { target: target.clone(), path },
        EntryKind::Whiteout => MakeStep::Whiteout { path },
    }
}

/// The steps that populate `dest` with the tree of `manifest`, fit to be an
/// overlay's lower directory.
pub fn materialize(manifest: &LayerManifest, dest: &str, uid_base: u32, gid_base: u32) -> (r: Vec<
    MakeStep,
>)
    requires
        uid_base + SUBORDINATE_RANGE <= u32::MAX,
        gid_base + SUBORDINATE_RANGE <= u32::MAX,
    ensures
        make_views(r@) == make_plan(manifest@, dest@, uid_base as int, gid_base as int),
{
    let uid = container_to_host(0, uid_base);
    let gid = container_to_host(0, gid_base);
    let mut out: Vec<MakeStep> = Vec::new();
    out.push(MakeStep::EnsureDir { path: dest.to_owned(), uid, gid });
    assert(make_views(out@) =~= make_plan(manifest@.take(0), dest@, uid_base as int, gid_base as int));
    let mut i: usize = 0;
    while i < manifest.entries.len()
        invariant
            i <= manifest.entries@.len(),
            uid_base + SUBORDINATE_RANGE <= u32::MAX,
            gid_base + SUBORDINATE_RANGE <= u32::MAX,
            uid == host_id_of(0, uid_base as int),
            gid == host_id_of(0, gid_base as int),
            make_views(out@) == make_plan(
                manifest@.take(i as int),
                dest@,
                uid_base as int,
                gid_base as int,
            ),
        decreases manifest.entries.len() - i,
    {
        let e = &manifest.entries[i];
        let path = path_join(dest, e.path.as_str());
        let parent = MakeStep::EnsureParent { path: path.clone(), uid, gid };
        let step = make_step(e, path, uid_base, gid_base);
        proof {
            assert(manifest@.take(i + 1).drop_last() =~= manifest@.take(i as int));
            assert(manifest@.take(i + 1).last() == e@);
            assert(make_views(out@.push(parent).push(step)) =~= make_views(out@).push(parent@).push(step@));
        }
        out.push(parent);
        out.push(step);
        i += 1;
    }
    assert(manifest@.take(i as int) =~= manifest@);
    out
}

/// Whether a walk finds at `w` what a step left there. Links and whiteouts
/// belong to whoever took the step, `maker`.
pub open spec fn found_after(w: Walked, step: MakeView, maker: (u32, u32)) -> bool {
    match step {
        MakeView::Dir { path, mode, uid, gid, opaque } => permission_bits(w.mode) == mode && w.uid == uid && w.gid
            == gid && w.kind == (WalkedKind::Dir { opaque }),
        MakeView::Place { blob, path, mode, uid, gid } => permission_bits(w.mode) == mode && w.uid == uid && w.gid
            == gid && (w.kind matches WalkedKind::File { blob: b, size } && b@ == blob),
        MakeView::Symlink { target, path } => permission_bits(w.mode) == 0o777 && (w.uid, w.gid) == maker && (
        w.kind matches WalkedKind::Symlink { target: t } && t@ == target),
        MakeView::Whiteout { path } => permission_bits(w.mode) == 0 && (w.uid, w.gid) == maker && (
        w.kind matches WalkedKind::CharDevice { device, description } && device == 0),
        _ => false,
    }
}

/// Whether a number comes back from the host as itself.
pub open spec fn keeps_id(id: u32, base: u32) -> bool {
    id < SUBORDINATE_RANGE || !(base <= id < base + SUBORDINATE_RANGE)
}

/// Whether an entry says no more than its file on disk can. A link has the
/// mode and owner of every link, a whiteout those of every whiteout.
pub open spec fn expressible(e: EntryView, maker: (u32, u32), uid_base: u32, gid_base: u32) -> bool {
    let made = (relative_id(maker.0 as int, uid_base as int), relative_id(maker.1 as int, gid_base as int));
    match e.kind {
        KindView::Symlink { target } => e.mode == 0o777 && (e.uid as int, e.gid as int) == made && entry_path(target)
            == target,
        KindView::Whiteout => e.mode == 0 && (e.uid as int, e.gid as int) == made,
        _ => keeps_id(e.uid, uid_base) && keeps_id(e.gid, gid_base),
    }
}

/// A snapshot reverses a materialization: where a walk finds for each entry
/// what its step left, and file sizes as recorded, it gives the manifest back.
pub proof fn snapshot_reverses_materialize(
    entries: Seq<EntryView>,
    steps: Seq<Result<Walked, Error>>,
    dest: Seq<char>,
    maker: (u32, u32),
    uid_base: u32,
    gid_base: u32,
)
    requires
        in_order(entries) == entries,
        steps.len() == entries.len(),
        forall|i: int| 0 <= i < entries.len() ==> expressible(#[trigger] entries[i], maker, uid_base, gid_base),
        forall|i: int|
            0 <= i < entries.len() ==> ((#[trigger] steps[i]) matches Ok(w) && entry_path(w.path@) == entries[i].path
                && found_after(
                w,
                make_entry(
                    entries[i],
                    joined_path(dest, entries[i].path),
                    uid_base as int,
                    gid_base as int,
                ),
                maker,
            ) && (entries[i].kind matches KindView::File { blob, size } ==> (w.kind matches WalkedKind::File {
                blob: b,
                size: n,
            } && n == size))),
    ensures
        forall|i: int| 0 <= i < steps.len() ==> step_yields(#[trigger] steps[i]),
        in_order(walk_entries(steps, steps.len() as int, uid_base, gid_base)) == entries,
{
    let back = walk_entries(steps, steps.len() as int, uid_base, gid_base);
    assert forall|i: int| 0 <= i < steps.len() implies step_yields(#[trigger] steps[i]) && back[i] == entries[i] by {
        let e = entries[i];
        assert(expressible(e, maker, uid_base, gid_base));
        assert(walked_entry(steps[i]->Ok_0, uid_base, gid_base)->0 =~= e);
    }
    assert(back =~= entries);
}

/// Where layer `id` is materialized.
pub open spec fn layer_dir(root: Seq<char>, id: Seq<u8>) -> Seq<char> {
    joined_path(joined_path(root, "layers"@), hex_text(id))
}

/// The file in a layer's directory that says that the layer is there in full.
pub open spec fn marker_in(dest: Seq<char>) -> Seq<char> {
    joined_path(dest, ".kiln-complete"@)
}

/// The file that says that layer `id` is there in full.
pub fn completion_marker(store: &Store, id: &crate::store::Hash) -> (r: String)
    ensures
        r@ == marker_in(layer_dir(store.root@, id@)),
{
    let dest = cached_dir(store, id);
    path_join(dest.as_str(), ".kiln-complete")
}

/// Where layer `id` is materialized.
fn cached_dir(store: &Store, id: &crate::store::Hash) -> (r: String)
    ensures
        r@ == layer_dir(store.root@, id@),
{
    let dir = store.layers_dir();
    let hex = id.to_hex();
    path_join(dir.as_str(), hex.as_str())
}

/// The steps that materialize a layer in its own place, whatever is there:
/// what an interrupted attempt left behind goes first, and the completion
/// marker comes last.
pub open spec fn fresh_plan(entries: Seq<EntryView>, dest: Seq<char>, uid_base: int, gid_base: int) -> Seq<MakeView> {
    seq![MakeView::Clear { path: dest }] + make_plan(entries, dest, uid_base, gid_base) + seq![
        MakeView::Mark { path: marker_in(dest) },
    ]
}

/// A layer's own place in the store.
pub struct CachedLayer {
    pub dest: String,
    /// What is left to do there, in order; the layer is there in full once
    /// the last step is done.
    pub steps: Vec<MakeStep>,
}

/// Where layer `id` is materialized, and the steps that are left. It counts
/// as done exactly when its completion marker is among the `files`; an
/// interrupted attempt is redone from the start. `read` is what reading the
/// layer's manifest came to, `None` if there is no such file.
pub fn materialize_cached(
    store: &Store,
    id: &crate::store::Hash,
    files: &Vec<String>,
    read: Option<Result<LayerManifest, Error>>,
    uid_base: u32,
    gid_base: u32,
) -> (r: Result<CachedLayer, Error>)
    requires
        uid_base + SUBORDINATE_RANGE <= u32::MAX,
        gid_base + SUBORDINATE_RANGE <= u32::MAX,
    ensures
        ({
            let dest = layer_dir(store.root@, id@);
            if views(files@).contains(marker_in(dest)) {
                r matches Ok(c) && c.dest@ == dest && c.steps@.len() == 0
            } else {
                match read {
                    None => r matches Err(Error::LayerNotFound(h)) && h@ == id@,
                    Some(Err(e)) => r matches Err(f) && f == e,
                    Some(Ok(m)) => r matches Ok(c) && c.dest@ == dest && make_views(c.steps@) == fresh_plan(
                        m@,
                        dest,
                        uid_base as int,
                        gid_base as int,
                    ),
                }
            }
        }),
{
    let dest = cached_dir(store, id);
    let marker = completion_marker(store, id);
    if listed(files, marker.as_str()) {
        return Ok(CachedLayer { dest, steps: Vec::new() });
    }
    let manifest = match LayerManifest::load(id, read) {
        Ok(m) => m,
        Err(e) => {
            return Err(e);
        },
    };
    let mut steps: Vec<MakeStep> = Vec::new();
    steps.push(MakeStep::Clear { path: dest.clone() });
    let mut made = materialize(&manifest, dest.as_str(), uid_base, gid_base);
    let ghost plan = made@;
    steps.append(&mut made);
    steps.push(MakeStep::Mark { path: marker });
    assert(make_views(steps@) =~= seq![MakeView::Clear { path: dest@ }] + make_views(plan) + seq![
        MakeView::Mark { path: marker_in(dest@) },
    ]);
    Ok(CachedLayer { dest, steps })
}

/// What stands at each path, if anything; directories that are only implied
/// are left aside.
pub type Tree = spec_fn(Seq<char>) -> Option<MakeView>;

/// Whether a path is `dir` or below it.
pub open spec fn is_within(path: Seq<char>, dir: Seq<char>) -> bool {
    path == dir || dir.push('/').is_prefix_of(path)
}

/// What stands where after a step.
pub open spec fn after_step(tree: Tree, step: MakeView) -> Tree {
    match step {
        MakeView::EnsureDir { path, uid, gid } => tree,
        MakeView::EnsureParent { path, uid, gid } => tree,
        MakeView::Clear { path } => |p: Seq<char>|
            if is_within(p, path) {
                None
            } else {
                tree(p)
            },
        MakeView::Dir { path, mode, uid, gid, opaque } => put_at(tree, path, step),
        MakeView::Place { blob, path, mode, uid, gid } => put_at(tree, path, step),
        MakeView::Symlink { target, path } => put_at(tree, path, step),
        MakeView::Whiteout { path } => put_at(tree, path, step),
        MakeView::Mark { path } => put_at(tree, path, step),
    }
}

/// The tree with what a step makes at a path.
pub open spec fn put_at(tree: Tree, path: Seq<char>, step: MakeView) -> Tree {
    |p: Seq<char>|
        if p == path {
            Some(step)
        } else {
            tree(p)
        }
}

/// What stands where after some steps.
pub open spec fn after_steps(tree: Tree, steps: Seq<MakeView>) -> Tree
    decreases steps.len(),
{
    if steps.len() == 0 {
        tree
    } else {
        after_step(after_steps(tree, steps.drop_last()), steps.last())
    }
}

/// Steps taken on trees that agree within a directory leave trees that agree
/// there.
proof fn lemma_steps_agree(a: Tree, b: Tree, steps: Seq<MakeView>, dir: Seq<char>)
    requires
        forall|p: Seq<char>| is_within(p, dir) ==> #[trigger] a(p) == b(p),
    ensures
        forall|p: Seq<char>| is_within(p, dir) ==> #[trigger] after_steps(a, steps)(p) == after_steps(b, steps)(p),
    decreases steps.len(),
{
    if steps.len() > 0 {
        lemma_steps_agree(a, b, steps.drop_last(), dir);
        let x = after_steps(a, steps.drop_last());
        let y = after_steps(b, steps.drop_last());
        let step = steps.last();
        assert forall|p: Seq<char>| is_within(p, dir) implies #[trigger] after_steps(a, steps)(p) == after_steps(
            b,
            steps,
        )(p) by {
            assert(x(p) == y(p));
            assert(after_steps(a, steps)(p) == after_step(x, step)(p));
            assert(after_steps(b, steps)(p) == after_step(y, step)(p));
        }
    }
}

/// Steps one after the other.
proof fn lemma_after_both(tree: Tree, a: Seq<MakeView>, b: Seq<MakeView>)
    ensures
        after_steps(tree, a + b) == after_steps(after_steps(tree, a), b),
    decreases b.len(),
{
    if b.len() == 0 {
        assert(a + b =~= a);
    } else {
        assert((a + b).drop_last() =~= a + b.drop_last());
        lemma_after_both(tree, a, b.drop_last());
    }
}

/// What the steps of a manifest leave at an entry's path is that entry, if
/// no two entries have the same path.
proof fn lemma_entries_stand(
    tree: Tree,
    entries: Seq<EntryView>,
    dest: Seq<char>,
    uid_base: int,
    gid_base: int,
    i: int,
)
    requires
        0 <= i < entries.len(),
        forall|j: int, k: int|
            0 <= j < k < entries.len() ==> joined_path(dest, (#[trigger] entries[j]).path) != joined_path(
                dest,
                (#[trigger] entries[k]).path,
            ),
    ensures
        ({
            let path = joined_path(dest, entries[i].path);
            after_steps(tree, make_plan(entries, dest, uid_base, gid_base))(path) == Some(
                make_entry(entries[i], path, uid_base, gid_base),
            )
        }),
    decreases entries.len(),
{
    let n = entries.len() - 1;
    let before = entries.drop_last();
    let plan = make_plan(before, dest, uid_base, gid_base);
    let whole = make_plan(entries, dest, uid_base, gid_base);
    let at = joined_path(dest, entries[n].path);
    let path = joined_path(dest, entries[i].path);
    assert(whole.drop_last().drop_last() =~= plan);
    assert(after_steps(tree, whole) == after_step(after_steps(tree, whole.drop_last()), whole.last()));
    assert(after_steps(tree, whole.drop_last()) == after_step(after_steps(tree, plan), whole.drop_last().last()));
    assert(after_steps(tree, whole.drop_last()) == after_steps(tree, plan));
    if i < n {
        assert forall|j: int, k: int| 0 <= j < k < before.len() implies joined_path(
            dest,
            (#[trigger] before[j]).path,
        ) != joined_path(dest, (#[trigger] before[k]).path) by {
            assert(before[j] == entries[j] && before[k] == entries[k]);
        }
        lemma_entries_stand(tree, before, dest, uid_base, gid_base, i);
        assert(before[i] == entries[i]);
        assert(path != at);
    }
}

/// An interrupted materialization is redone: whatever stands in a layer's
/// place, the steps leave the same there, each entry as the manifest has it
/// and the completion marker besides. And until the last step the marker is
/// not there. No two entries may share a path, nor one that of the marker.
pub proof fn interrupted_layers_are_redone(
    before: Tree,
    other: Tree,
    entries: Seq<EntryView>,
    dest: Seq<char>,
    uid_base: int,
    gid_base: int,
)
    requires
        dest.len() > 0,
        dest.last() != '/',
        forall|j: int, k: int|
            0 <= j < k < entries.len() ==> joined_path(dest, (#[trigger] entries[j]).path) != joined_path(
                dest,
                (#[trigger] entries[k]).path,
            ),
        forall|i: int|
            0 <= i < entries.len() ==> joined_path(dest, (#[trigger] entries[i]).path) != marker_in(dest),
    ensures
        ({
            let steps = fresh_plan(entries, dest, uid_base, gid_base);
            &&& forall|p: Seq<char>|
                is_within(p, dest) ==> #[trigger] after_steps(before, steps)(p) == after_steps(other, steps)(p)
            &&& forall|i: int|
                0 <= i < entries.len() ==> after_steps(before, steps)(joined_path(dest, (#[trigger] entries[i]).path))
                    == Some(make_entry(entries[i], joined_path(dest, entries[i].path), uid_base, gid_base))
            &&& after_steps(before, steps)(marker_in(dest)) is Some
            &&& forall|k: int|
                0 < k < steps.len() ==> (#[trigger] after_steps(before, steps.take(k)))(marker_in(dest)) is None
        }),
{
    let steps = fresh_plan(entries, dest, uid_base, gid_base);
    let clear = seq![MakeView::Clear { path: dest }];
    let plan = make_plan(entries, dest, uid_base, gid_base);
    let mark = seq![MakeView::Mark { path: marker_in(dest) }];
    let a = after_steps(before, clear);
    let b = after_steps(other, clear);
    assert(clear.drop_last() =~= Seq::<MakeView>::empty());
    assert(a == after_step(after_steps(before, clear.drop_last()), clear.last()));
    assert(b == after_step(after_steps(other, clear.drop_last()), clear.last()));
    assert(steps =~= clear + (plan + mark));
    lemma_after_both(before, clear, plan + mark);
    lemma_after_both(other, clear, plan + mark);
    lemma_steps_agree(a, b, plan + mark, dest);
    lemma_after_both(a, plan, mark);
    let made = after_steps(a, plan);
    assert(mark.drop_last() =~= Seq::<MakeView>::empty());
    assert(after_steps(made, mark) == after_step(after_steps(made, mark.drop_last()), mark.last()));
    assert(after_steps(before, steps) == after_step(made, mark.last()));
    assert forall|i: int| 0 <= i < entries.len() implies after_steps(before, steps)(
        joined_path(dest, (#[trigger] entries[i]).path),
    ) == Some(make_entry(entries[i], joined_path(dest, entries[i].path), uid_base, gid_base)) by {
        lemma_entries_stand(a, entries, dest, uid_base, gid_base, i);
    }
    let m = marker_in(dest);
    reveal_strlit(".kiln-complete");
    assert(dest.push('/') =~= m.subrange(0, dest.len() as int + 1));
    assert(is_within(m, dest));
    assert(a(m) is None);
    assert forall|k: int| 0 < k < steps.len() implies (#[trigger] after_steps(before, steps.take(k)))(m) is None by {
        let part = plan.take(k - 1);
        assert(steps.take(k) =~= clear + part);
        lemma_after_both(before, clear, part);
        lemma_no_early_mark(a, entries, dest, uid_base, gid_base, k - 1);
    }
}

/// The steps of a manifest leave a path alone that is none of its entries'.
proof fn lemma_no_early_mark(
    tree: Tree,
    entries: Seq<EntryView>,
    dest: Seq<char>,
    uid_base: int,
    gid_base: int,
    k: int,
)
    requires
        tree(marker_in(dest)) is None,
        0 <= k <= make_plan(entries, dest, uid_base, gid_base).len(),
        forall|i: int|
            0 <= i < entries.len() ==> joined_path(dest, (#[trigger] entries[i]).path) != marker_in(dest),
    ensures
        after_steps(tree, make_plan(entries, dest, uid_base, gid_base).take(k))(marker_in(dest)) is None,
    decreases entries.len(), k,
{
    let plan = make_plan(entries, dest, uid_base, gid_base);
    let part = plan.take(k);
    if k > 0 {
        if entries.len() > 0 && k <= plan.len() - 2 {
            let before = entries.drop_last();
            assert forall|i: int| 0 <= i < before.len() implies joined_path(dest, (#[trigger] before[i]).path)
                != marker_in(dest) by {
                assert(before[i] == entries[i]);
            }
            lemma_no_early_mark(tree, before, dest, uid_base, gid_base, k);
            assert(make_plan(before, dest, uid_base, gid_base).take(k) =~= part);
        } else {
            lemma_no_early_mark(tree, entries, dest, uid_base, gid_base, k - 1);
            assert(part.drop_last() =~= plan.take(k - 1));
            assert(after_steps(tree, part) == after_step(after_steps(tree, plan.take(k - 1)), part.last()));
            if entries.len() > 0 {
                assert(entries[entries.len() - 1] == entries.last());
            }
        }
    }
}

/// How many leading paths of `chain` are not existing directories.
pub open spec fn missing_count(chain: Seq<Seq<char>>, existing: Seq<Seq<char>>) -> nat
    decreases chain.len(),
{
    if chain.len() == 0 || existing.contains(chain[0]) {
        0
    } else {
        1 + missing_count(chain.drop_first(), existing)
    }
}

/// The directories to create, outermost first, so that the first path of
/// `chain` exists. `chain` is that path followed by its ancestors, nearest
/// first; everything below the nearest existing ancestor is created, and
/// nothing that exists already is touched.
pub fn create_dir_all_owned(chain: &Vec<String>, existing: &Vec<String>) -> (r: Vec<String>)
    ensures
        views(r@) == views(chain@).take(missing_count(views(chain@), views(existing@)) as int).reverse(),
{
    let ghost all = views(chain@);
    let ghost there = views(existing@);
    let mut n: usize = 0;
    assert(all.skip(0) =~= all);
    while n < chain.len() && !listed(existing, chain[n].as_str())
        invariant
            n <= chain@.len(),
            all == views(chain@),
            there == views(existing@),
            missing_count(all, there) == n + missing_count(all.skip(n as int), there),
        decreases chain.len() - n,
    {
        assert(all.skip(n as int)[0] == chain@[n as int]@);
        assert(all.skip(n as int).drop_first() =~= all.skip(n + 1));
        n += 1;
    }
    proof {
        if n < chain@.len() {
            assert(all.skip(n as int)[0] == chain@[n as int]@);
        }
    }
    let mut out: Vec<String> = Vec::new();
    let mut k: usize = n;
    while k > 0
        invariant
            k <= n <= chain@.len(),
            all == views(chain@),
            views(out@) == all.subrange(k as int, n as int).reverse(),
        decreases k,
    {
        k -= 1;
        let dir = chain[k].clone();
        assert(all.subrange(k as int, n as int).reverse() =~= all.subrange(k + 1, n as int).reverse().push(
            all[k as int],
        ));
        assert(views(out@.push(dir)) =~= views(out@).push(dir@));
        out.push(dir);
    }
    assert(all.subrange(0, n as int) =~= all.take(n as int));
    out
}

// ---- What files show -------------------------------------------------------

/// Objects of one member of the same name can be told apart where the values
/// can, and show the value.
proof fn lemma_single(name: Seq<char>, v: Seq<char>, w: Seq<char>, depth: nat)
    requires
        told_apart(v, w),
    ensures
        told_apart(laid_single(name, v, depth), laid_single(name, w, depth)),
        laid_single(name, v, depth) == laid_single(name, w, depth) ==> v == w,
{
    let a = seq![laid_member(name, v)];
    let b = seq![laid_member(name, w)];
    members_show_their_values(name, v, w);
    objects_show_their_members(a, b, depth);
    assert(a == b ==> a[0] == b[0]);
}

/// Objects of one member can be told apart where the names differ.
proof fn lemma_single_names(m: Seq<char>, v: Seq<char>, n: Seq<char>, w: Seq<char>, depth: nat)
    requires
        m != n,
    ensures
        told_apart(laid_single(m, v, depth), laid_single(n, w, depth)),
        laid_single(m, v, depth) != laid_single(n, w, depth),
{
    let a = seq![laid_member(m, v)];
    let b = seq![laid_member(n, w)];
    members_show_their_names(m, v, n, w);
    objects_show_their_members(a, b, depth);
    assert(a[0] != b[0]);
}

/// The kinds of regular files can be told apart, and show blob and size.
proof fn lemma_file_kinds(blob_a: Seq<u8>, size_a: u64, blob_b: Seq<u8>, size_b: u64, depth: nat)
    ensures
        ({
            let s = laid_object(file_line_members(blob_a, size_a), depth);
            let t = laid_object(file_line_members(blob_b, size_b), depth);
            told_apart(s, t) && (s == t ==> blob_a == blob_b && size_a == size_b)
        }),
{
    let a = file_line_members(blob_a, size_a);
    let b = file_line_members(blob_b, size_b);
    strings_show_their_text(hex_text(blob_a), hex_text(blob_b));
    numbers_show_their_value(size_a as nat, size_b as nat);
    members_show_their_values("blob"@, json_string(hex_text(blob_a)), json_string(hex_text(blob_b)));
    members_show_their_values("size"@, decimal(size_a as nat), decimal(size_b as nat));
    assert forall|i: int| 0 <= i < a.len() && i < b.len() implies told_apart(#[trigger] a[i], b[i]) by {
        assert(i == 0 || i == 1);
    }
    objects_show_their_members(a, b, depth);
    if a == b {
        assert(a[0] == b[0] && a[1] == b[1]);
        hex_text_is_injective(blob_a, blob_b);
    }
}

/// The name of a kind in a file.
spec fn kind_name(k: KindView) -> Seq<char> {
    match k {
        KindView::Dir { opaque } => "Dir"@,
        KindView::File { blob, size } => "File"@,
        KindView::Symlink { target } => "Symlink"@,
        KindView::Whiteout => "Whiteout"@,
    }
}

/// What a file holds under the name of a kind.
spec fn kind_value(k: KindView, depth: nat) -> Seq<char> {
    match k {
        KindView::Dir { opaque } => laid_single("opaque"@, json_bool_text(opaque), depth),
        KindView::File { blob, size } => laid_object(file_line_members(blob, size), depth),
        KindView::Symlink { target } => laid_single("target"@, json_string(target), depth),
        KindView::Whiteout => Seq::empty(),
    }
}

/// Kinds in a file can be told apart, and show all that is said of them.
proof fn lemma_kind_lines(k: KindView, l: KindView, depth: nat)
    ensures
        told_apart(kind_lines(k, depth), kind_lines(l, depth)),
        kind_lines(k, depth) == kind_lines(l, depth) ==> k == l,
{
    let s = kind_lines(k, depth);
    let t = kind_lines(l, depth);
    match (k, l) {
        (KindView::Dir { opaque: p }, KindView::Dir { opaque: q }) => {
            truth_values_show(p, q);
            lemma_single("opaque"@, json_bool_text(p), json_bool_text(q), depth + 1);
            lemma_single("Dir"@, kind_value(k, depth + 1), kind_value(l, depth + 1), depth);
        },
        (KindView::File { blob: blob_a, size: size_a }, KindView::File { blob: blob_b, size: size_b }) => {
            lemma_file_kinds(blob_a, size_a, blob_b, size_b, depth + 1);
            lemma_single("File"@, kind_value(k, depth + 1), kind_value(l, depth + 1), depth);
        },
        (KindView::Symlink { target: p }, KindView::Symlink { target: q }) => {
            strings_show_their_text(p, q);
            lemma_single("target"@, json_string(p), json_string(q), depth + 1);
            lemma_single("Symlink"@, kind_value(k, depth + 1), kind_value(l, depth + 1), depth);
        },
        (KindView::Whiteout, KindView::Whiteout) => {},
        _ => {
            if k is Whiteout || l is Whiteout {
                assert(k is Whiteout ==> s[0] == '"');
                assert(l is Whiteout ==> t[0] == '"');
                assert(!(k is Whiteout) ==> s[0] == '{');
                assert(!(l is Whiteout) ==> t[0] == '{');
                assert forall|x: Seq<char>, y: Seq<char>| #[trigger] (s + x) == #[trigger] (t + y) implies s == t by {
                    assert((s + x)[0] == s[0] && (t + y)[0] == t[0]);
                }
            } else {
                reveal_strlit("Dir");
                reveal_strlit("File");
                reveal_strlit("Symlink");
                assert("Dir"@.len() == 3 && "File"@.len() == 4 && "Symlink"@.len() == 7);
                lemma_single_names(
                    kind_name(k),
                    kind_value(k, depth + 1),
                    kind_name(l),
                    kind_value(l, depth + 1),
                    depth,
                );
            }
        },
    }
}

/// Entries in a file can be told apart, and show all that is said of them.
proof fn lemma_entry_lines(e: EntryView, f: EntryView, depth: nat)
    ensures
        told_apart(entry_lines(e, depth), entry_lines(f, depth)),
        entry_lines(e, depth) == entry_lines(f, depth) ==> e == f,
{
    let a = entry_line_members(e, depth);
    let b = entry_line_members(f, depth);
    strings_show_their_text(e.path, f.path);
    numbers_show_their_value(e.mode as nat, f.mode as nat);
    numbers_show_their_value(e.uid as nat, f.uid as nat);
    numbers_show_their_value(e.gid as nat, f.gid as nat);
    lemma_kind_lines(e.kind, f.kind, depth + 1);
    members_show_their_values("path"@, json_string(e.path), json_string(f.path));
    members_show_their_values("mode"@, decimal(e.mode as nat), decimal(f.mode as nat));
    members_show_their_values("uid"@, decimal(e.uid as nat), decimal(f.uid as nat));
    members_show_their_values("gid"@, decimal(e.gid as nat), decimal(f.gid as nat));
    members_show_their_values("kind"@, kind_lines(e.kind, depth + 1), kind_lines(f.kind, depth + 1));
    assert forall|i: int| 0 <= i < a.len() && i < b.len() implies told_apart(#[trigger] a[i], b[i]) by {
        assert(i == 0 || i == 1 || i == 2 || i == 3 || i == 4);
    }
    objects_show_their_members(a, b, depth);
    if a == b {
        assert(a[0] == b[0] && a[1] == b[1] && a[2] == b[2] && a[3] == b[3] && a[4] == b[4]);
    }
}

/// A saved layer can be read back in one way only: manifests whose files hold
/// the same bytes have the same entries.
pub proof fn files_show_the_layer(c: Seq<EntryView>, d: Seq<EntryView>)
    requires
        encode_utf8(manifest_file_text(c)) == encode_utf8(manifest_file_text(d)),
    ensures
        c == d,
{
    encode_utf8_decode_utf8(manifest_file_text(c));
    encode_utf8_decode_utf8(manifest_file_text(d));
    let text = |e: EntryView| entry_lines(e, 2);
    let a = c.map_values(text);
    let b = d.map_values(text);
    assert forall|i: int| 0 <= i < a.len() && i < b.len() implies told_apart(#[trigger] a[i], b[i]) by {
        lemma_entry_lines(c[i], d[i], 2);
    }
    arrays_show_their_items(a, b, 1);
    lemma_single("entries"@, laid_array(a, 1), laid_array(b, 1), 0);
    assert(a == b);
    assert(c.len() == a.len() && d.len() == b.len());
    assert forall|i: int| 0 <= i < c.len() implies c[i] == d[i] by {
        assert(a[i] == b[i]);
        lemma_entry_lines(c[i], d[i], 2);
    }
    assert(c =~= d);
}

// ---- What ids depend on ----------------------------------------------------

/// Objects of one member on one line can be told apart where the values can.
proof fn lemma_single_json(name: Seq<char>, v: Seq<char>, w: Seq<char>)
    requires
        told_apart(v, w),
    ensures
        told_apart(json_object(seq![json_member(name, v)]), json_object(seq![json_member(name, w)])),
        begins_item(json_object(seq![json_member(name, v)])),
        json_object(seq![json_member(name, v)]) == json_object(seq![json_member(name, w)]) ==> v == w,
{
    let a = seq![json_member(name, v)];
    let b = seq![json_member(name, w)];
    pairs_show_their_values(name, v, w);
    assert(told_apart(w, w));
    pairs_show_their_values(name, w, w);
    maps_show_their_members(a, b);
    assert(a == b ==> a[0] == b[0]);
}

/// Objects of one member on one line can be told apart where the names differ.
proof fn lemma_single_json_names(m: Seq<char>, v: Seq<char>, n: Seq<char>, w: Seq<char>)
    requires
        m != n,
    ensures
        told_apart(json_object(seq![json_member(m, v)]), json_object(seq![json_member(n, w)])),
        json_object(seq![json_member(m, v)]) != json_object(seq![json_member(n, w)]),
{
    let a = seq![json_member(m, v)];
    let b = seq![json_member(n, w)];
    members_on_one_line_show_their_names(m, v, n, w);
    assert(told_apart(v, v) && told_apart(w, w));
    pairs_show_their_values(m, v, v);
    pairs_show_their_values(n, w, w);
    maps_show_their_members(a, b);
    assert(a[0] != b[0]);
}

/// Kinds on one line can be told apart, and show all that is said of them.
proof fn lemma_kind_json(k: KindView, l: KindView)
    ensures
        told_apart(kind_json(k), kind_json(l)),
        kind_json(k) == kind_json(l) ==> k == l,
{
    let s = kind_json(k);
    let t = kind_json(l);
    match (k, l) {
        (KindView::Dir { opaque: p }, KindView::Dir { opaque: q }) => {
            truth_values_show(p, q);
            lemma_single_json("opaque"@, json_bool_text(p), json_bool_text(q));
            lemma_single_json("Dir"@, inner_json(k), inner_json(l));
        },
        (KindView::File { blob: blob_a, size: size_a }, KindView::File { blob: blob_b, size: size_b }) => {
            let a = seq![
                json_member("blob"@, json_string(hex_text(blob_a))),
                json_member("size"@, decimal(size_a as nat)),
            ];
            let b = seq![
                json_member("blob"@, json_string(hex_text(blob_b))),
                json_member("size"@, decimal(size_b as nat)),
            ];
            strings_show_their_text(hex_text(blob_a), hex_text(blob_b));
            numbers_show_their_value(size_a as nat, size_b as nat);
            pairs_show_their_values("blob"@, json_string(hex_text(blob_a)), json_string(hex_text(blob_b)));
            pairs_show_their_values("size"@, decimal(size_a as nat), decimal(size_b as nat));
            strings_show_their_text(hex_text(blob_b), hex_text(blob_b));
            pairs_show_their_values("blob"@, json_string(hex_text(blob_b)), json_string(hex_text(blob_b)));
            assert forall|i: int| 0 <= i < a.len() && i < b.len() implies told_apart(#[trigger] a[i], b[i]) by {
                assert(i == 0 || i == 1);
            }
            maps_show_their_members(a, b);
            lemma_single_json("File"@, inner_json(k), inner_json(l));
            if s == t {
                assert(a == b);
                assert(a[0] == b[0] && a[1] == b[1]);
                hex_text_is_injective(blob_a, blob_b);
            }
        },
        (KindView::Symlink { target: p }, KindView::Symlink { target: q }) => {
            strings_show_their_text(p, q);
            lemma_single_json("target"@, json_string(p), json_string(q));
            lemma_single_json("Symlink"@, inner_json(k), inner_json(l));
        },
        (KindView::Whiteout, KindView::Whiteout) => {},
        _ => {
            if k is Whiteout || l is Whiteout {
                assert(k is Whiteout ==> s[0] == '"');
                assert(l is Whiteout ==> t[0] == '"');
                assert(!(k is Whiteout) ==> s[0] == '{');
                assert(!(l is Whiteout) ==> t[0] == '{');
                assert forall|x: Seq<char>, y: Seq<char>| #[trigger] (s + x) == #[trigger] (t + y) implies s == t by {
                    assert((s + x)[0] == s[0] && (t + y)[0] == t[0]);
                }
            } else {
                reveal_strlit("Dir");
                reveal_strlit("File");
                reveal_strlit("Symlink");
                assert("Dir"@.len() == 3 && "File"@.len() == 4 && "Symlink"@.len() == 7);
                lemma_single_json_names(kind_name(k), inner_json(k), kind_name(l), inner_json(l));
            }
        },
    }
}

/// What a kind's text holds under its name.
spec fn inner_json(k: KindView) -> Seq<char> {
    match k {
        KindView::Dir { opaque } => json_object(seq![json_member("opaque"@, json_bool_text(opaque))]),
        KindView::File { blob, size } => json_object(
            seq![
                json_member("blob"@, json_string(hex_text(blob))),
                json_member("size"@, decimal(size as nat)),
            ],
        ),
        KindView::Symlink { target } => json_object(seq![json_member("target"@, json_string(target))]),
        KindView::Whiteout => Seq::empty(),
    }
}

/// Entries on one line can be told apart, and show all that is said of them.
proof fn lemma_entry_json(e: EntryView, f: EntryView)
    ensures
        told_apart(entry_json(e), entry_json(f)),
        begins_item(entry_json(e)),
        entry_json(e) == entry_json(f) ==> e == f,
{
    let a = seq![
        json_member("path"@, json_string(e.path)),
        json_member("mode"@, decimal(e.mode as nat)),
        json_member("uid"@, decimal(e.uid as nat)),
        json_member("gid"@, decimal(e.gid as nat)),
        json_member("kind"@, kind_json(e.kind)),
    ];
    let b = seq![
        json_member("path"@, json_string(f.path)),
        json_member("mode"@, decimal(f.mode as nat)),
        json_member("uid"@, decimal(f.uid as nat)),
        json_member("gid"@, decimal(f.gid as nat)),
        json_member("kind"@, kind_json(f.kind)),
    ];
    strings_show_their_text(e.path, f.path);
    strings_show_their_text(f.path, f.path);
    numbers_show_their_value(e.mode as nat, f.mode as nat);
    numbers_show_their_value(e.uid as nat, f.uid as nat);
    numbers_show_their_value(e.gid as nat, f.gid as nat);
    lemma_kind_json(e.kind, f.kind);
    pairs_show_their_values("path"@, json_string(e.path), json_string(f.path));
    pairs_show_their_values("path"@, json_string(f.path), json_string(f.path));
    pairs_show_their_values("mode"@, decimal(e.mode as nat), decimal(f.mode as nat));
    pairs_show_their_values("uid"@, decimal(e.uid as nat), decimal(f.uid as nat));
    pairs_show_their_values("gid"@, decimal(e.gid as nat), decimal(f.gid as nat));
    pairs_show_their_values("kind"@, kind_json(e.kind), kind_json(f.kind));
    assert forall|i: int| 0 <= i < a.len() && i < b.len() implies told_apart(#[trigger] a[i], b[i]) by {
        assert(i == 0 || i == 1 || i == 2 || i == 3 || i == 4);
    }
    maps_show_their_members(a, b);
    if a == b {
        assert(a[0] == b[0] && a[1] == b[1] && a[2] == b[2] && a[3] == b[3] && a[4] == b[4]);
    }
}

/// A layer's id is the hash of a text that shows every entry of the layer, so
/// layers that differ in any of them have their ids from different texts.
pub proof fn ids_depend_on_every_entry(c: Seq<EntryView>, d: Seq<EntryView>)
    ensures
        manifest_id(c) == sha256(encode_utf8(manifest_json(c))),
        encode_utf8(manifest_json(c)) == encode_utf8(manifest_json(d)) ==> c == d,
{
    if encode_utf8(manifest_json(c)) == encode_utf8(manifest_json(d)) {
        encode_utf8_decode_utf8(manifest_json(c));
        encode_utf8_decode_utf8(manifest_json(d));
        let text = |e: EntryView| entry_json(e);
        let a = c.map_values(text);
        let b = d.map_values(text);
        assert forall|i: int| 0 <= i < a.len() && i < b.len() implies told_apart(#[trigger] a[i], b[i]) by {
            lemma_entry_json(c[i], d[i]);
        }
        if c.len() > 0 {
            lemma_entry_json(c[0], c[0]);
        }
        if d.len() > 0 {
            lemma_entry_json(d[0], d[0]);
        }
        lists_show_their_items(a, b);
        lemma_single_json("entries"@, json_array(a), json_array(b));
        assert(a == b);
        assert(c.len() == a.len() && d.len() == b.len());
        assert forall|i: int| 0 <= i < c.len() implies c[i] == d[i] by {
            assert(a[i] == b[i]);
            lemma_entry_json(c[i], d[i]);
        }
        assert(c =~= d);
    }
}

/// Putting entries in order loses none and adds none.
pub proof fn sorting_keeps_the_entries(v: Seq<EntryView>)
    ensures
        in_order(v).to_multiset() == v.to_multiset(),
        in_order(v).len() == v.len(),
{
    let rank = |e: EntryView| entry_rank(e);
    lemma_entry_rank_separates();
    crate::order::lemma_rank_order_total(rank);
    v.lemma_sort_by_ensures(rank_order(rank));
    v.to_multiset_ensures();
    in_order(v).to_multiset_ensures();
}

/// A walked path becomes an entry with its own path, its own permissions and
/// the owner that the container sees: the ids from the base on that a container
/// has are counted from 0, and others stay as they are.
pub proof fn walked_paths_become_entries(w: Walked, uid_base: u32, gid_base: u32)
    requires
        walked_entry(w, uid_base, gid_base) is Some,
    ensures
        ({
            let e = walked_entry(w, uid_base, gid_base)->0;
            &&& e.path == entry_path(w.path@)
            &&& e.mode == w.mode % 4096
            &&& uid_base <= w.uid < uid_base + 65536 ==> e.uid == w.uid - uid_base
            &&& gid_base <= w.gid < gid_base + 65536 ==> e.gid == w.gid - gid_base
            &&& w.uid < uid_base || w.uid >= uid_base + 65536 ==> e.uid == w.uid
            &&& w.gid < gid_base || w.gid >= gid_base + 65536 ==> e.gid == w.gid
            &&& w.kind matches WalkedKind::Dir { opaque } ==> e.kind == (KindView::Dir { opaque })
            &&& w.kind matches WalkedKind::File { blob, size } ==> e.kind == (KindView::File { blob: blob@, size })
            &&& w.kind matches WalkedKind::Symlink { target } ==> e.kind == (KindView::Symlink {
                target: entry_path(target@),
            })
            &&& w.kind is CharDevice ==> e.kind is Whiteout && w.kind->device == 0
        }),
        !(w.kind is Other),
{
    crate::store::permission_bits_are_the_low_ones(w.mode);
}

/// A chain of directories is made from the nearest one that exists on down:
/// those before it in the chain are missing, and it is there.
pub proof fn only_missing_directories_are_made(chain: Seq<Seq<char>>, existing: Seq<Seq<char>>)
    ensures
        ({
            let n = missing_count(chain, existing) as int;
            &&& 0 <= n <= chain.len()
            &&& forall|i: int| 0 <= i < n ==> !existing.contains(#[trigger] chain[i])
            &&& n < chain.len() ==> existing.contains(chain[n])
        }),
    decreases chain.len(),
{
    if chain.len() > 0 && !existing.contains(chain[0]) {
        let rest = chain.drop_first();
        only_missing_directories_are_made(rest, existing);
        let n = missing_count(chain, existing) as int;
        assert forall|i: int| 0 <= i < n implies !existing.contains(#[trigger] chain[i]) by {
            if i > 0 {
                assert(chain[i] == rest[i - 1]);
            }
        }
        assert(n < chain.len() ==> chain[n] == rest[n - 1]);
    }
}

/// A layer's record and its directory stand under its id.
pub proof fn layers_stand_under_their_id(root: Seq<char>, id: Seq<u8>)
    requires
        root.len() > 0,
        root.last() != '/',
        id.len() > 0,
    ensures
        layer_file(root, id) == root + "/layers/"@ + hex_text(id) + ".json"@,
        layer_dir(root, id) == root + "/layers/"@ + hex_text(id),
{
    reveal_strlit("layers");
    reveal_strlit("/layers/");
    reveal_strlit(".json");
    crate::codec::bytes_are_two_digits(id, 0);
    let t = hex_text(id);
    assert(t[0] != '/');
    assert(layer_file(root, id) =~= root + "/layers/"@ + t + ".json"@);
    assert(layer_dir(root, id) =~= root + "/layers/"@ + t);
}

/// A layer is laid out from its directory on down: the directory comes first,
/// and then each entry, in order, with its parent right in front of it.
pub proof fn entries_are_made_in_order(
    a: Seq<EntryView>,
    e: EntryView,
    dest: Seq<char>,
    uid_base: int,
    gid_base: int,
)
    requires
        e.uid < 65536,
        e.gid < 65536,
    ensures
        ({
            let plan = make_plan(a.push(e), dest, uid_base, gid_base);
            let path = joined_path(dest, e.path);
            &&& make_plan(Seq::empty(), dest, uid_base, gid_base) == seq![
                MakeView::EnsureDir { path: dest, uid: uid_base, gid: gid_base },
            ]
            &&& plan.drop_last().drop_last() == make_plan(a, dest, uid_base, gid_base)
            &&& plan.drop_last().last() == (MakeView::EnsureParent { path, uid: uid_base, gid: gid_base })
            &&& e.kind matches KindView::Dir { opaque } ==> plan.last() == (MakeView::Dir {
                path,
                mode: e.mode,
                uid: uid_base + e.uid,
                gid: gid_base + e.gid,
                opaque,
            })
            &&& e.kind matches KindView::File { blob, size } ==> plan.last() == (MakeView::Place {
                blob,
                path,
                mode: e.mode,
                uid: uid_base + e.uid,
                gid: gid_base + e.gid,
            })
            &&& e.kind matches KindView::Symlink { target } ==> plan.last() == (MakeView::Symlink { target, path })
            &&& e.kind is Whiteout ==> plan.last() == (MakeView::Whiteout { path })
        }),
{
    let plan = make_plan(a.push(e), dest, uid_base, gid_base);
    assert(a.push(e).drop_last() =~= a);
    assert(a.push(e).last() == e);
    assert(plan.drop_last().drop_last() =~= make_plan(a, dest, uid_base, gid_base));
}

} // verus!
