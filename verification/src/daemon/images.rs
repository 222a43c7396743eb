//! Images: what is shown of them, and the answers to pulling, pushing,
//! tagging, building, scanning and removing them.

use crate::codec::{
    add_member, hex_text, json_array, json_bool, json_bool_text, json_items, json_list, json_map, json_member,
    json_object, json_opt_str, json_opt_string, json_str, json_string, jsons, ToJson,
};
use crate::daemon::containers::{invalid_body, refuse_body};
use crate::http::{json_response, text_response, Response, ResponseView};
use crate::image::{full_repository, name_and_tag, normalize_repository, opt_text, split_name_tag, Image};
use crate::layer::{EntryKind, EntryView, KindView, LayerManifest};
use crate::num::{decimal, u64_text};
use crate::paths::{joined_path, path_join};
use crate::scan::{report_json, ScanReport};
use crate::store::hash_named;
use crate::text::{cat2, cat3, cat4, trim, trimmed, views};
use vstd::prelude::*;

verus! {

// ---- Sizes -----------------------------------------------------------------

/// The blobs that entries refer to, and how many bytes these have together,
/// each blob counted where it first appears.
pub open spec fn footprint(entries: Seq<EntryView>) -> (Set<Seq<u8>>, nat)
    decreases entries.len(),
{
    if entries.len() == 0 {
        (Set::empty(), 0)
    } else {
        let (seen, total) = footprint(entries.drop_last());
        match entries.last().kind {
            KindView::File { blob, size } => if seen.contains(blob) {
                (seen, total)
            } else {
                (seen.insert(blob), total + size as nat)
            },
            _ => (seen, total),
        }
    }
}

/// How many bytes the files of a layer have, each counted.
pub open spec fn file_bytes(entries: Seq<EntryView>) -> nat
    decreases entries.len(),
{
    if entries.len() == 0 {
        0
    } else {
        file_bytes(entries.drop_last()) + (match entries.last().kind {
            KindView::File { size, .. } => size as nat,
            _ => 0,
        })
    }
}

/// The entries of all layers that can be read, one layer after the other.
pub open spec fn all_entries(layers: Seq<Option<LayerManifest>>) -> Seq<EntryView>
    decreases layers.len(),
{
    if layers.len() == 0 {
        Seq::empty()
    } else {
        let before = all_entries(layers.drop_last());
        match layers.last() {
            Some(m) => before + m@,
            None => before,
        }
    }
}

/// More entries never take less room.
proof fn lemma_footprint_grows(entries: Seq<EntryView>, n: int)
    requires
        0 <= n <= entries.len(),
    ensures
        footprint(entries.take(n)).1 <= footprint(entries).1,
        footprint(entries.take(n)).0.subset_of(footprint(entries).0),
    decreases entries.len() - n,
{
    if n == entries.len() {
        assert(entries.take(n) =~= entries);
    } else {
        lemma_footprint_grows(entries, n + 1);
        assert(entries.take(n + 1).drop_last() =~= entries.take(n));
    }
}

/// The entries of the first layers come first.
proof fn lemma_entries_prefix(layers: Seq<Option<LayerManifest>>, n: int)
    requires
        0 <= n <= layers.len(),
    ensures
        all_entries(layers.take(n)).is_prefix_of(all_entries(layers)),
    decreases layers.len() - n,
{
    if n == layers.len() {
        assert(layers.take(n) =~= layers);
    } else {
        lemma_entries_prefix(layers, n + 1);
        assert(layers.take(n + 1).drop_last() =~= layers.take(n));
        let a = all_entries(layers.take(n));
        let b = all_entries(layers.take(n + 1));
        assert(a =~= b.subrange(0, a.len() as int));
        assert(a =~= all_entries(layers).subrange(0, a.len() as int));
    }
}

/// Whether a hash is among others.
fn among(seen: &Vec<crate::store::Hash>, h: &crate::store::Hash) -> (r: bool)
    ensures
        r == crate::image::hash_bytes(seen@).contains(h@),
{
    let mut i: usize = 0;
    while i < seen.len()
        invariant
            i <= seen@.len(),
            forall|j: int| 0 <= j < i ==> #[trigger] crate::image::hash_bytes(seen@)[j] != h@,
        decreases seen.len() - i,
    {
        assert(crate::image::hash_bytes(seen@)[i as int] == seen@[i as int]@);
        if seen[i].same(h) {
            return true;
        }
        i += 1;
    }
    false
}

/// How many bytes the files of an image's layers take once each content is
/// kept only once.
pub fn unique_size(layers: &Vec<Option<LayerManifest>>) -> (r: u64)
    requires
        footprint(all_entries(layers@)).1 <= u64::MAX,
    ensures
        r == footprint(all_entries(layers@)).1,
{
    let ghost whole = all_entries(layers@);
    let mut seen: Vec<crate::store::Hash> = Vec::new();
    let mut total: u64 = 0;
    let mut i: usize = 0;
    assert(crate::image::hash_bytes(seen@).to_set() =~= Set::<Seq<u8>>::empty());
    while i < layers.len()
        invariant
            i <= layers@.len(),
            whole == all_entries(layers@),
            footprint(whole).1 <= u64::MAX,
            total == footprint(all_entries(layers@.take(i as int))).1,
            crate::image::hash_bytes(seen@).to_set() == footprint(all_entries(layers@.take(i as int))).0,
        decreases layers.len() - i,
    {
        let ghost before = all_entries(layers@.take(i as int));
        proof {
            assert(layers@.take(i + 1).drop_last() =~= layers@.take(i as int));
            assert(layers@.take(i + 1).last() == layers@[i as int]);
        }
        if let Some(m) = &layers[i] {
            let ghost added = m@;
            let ghost both = before + added;
            let mut k: usize = 0;
            proof {
                lemma_entries_prefix(layers@, i + 1);
                lemma_footprint_grows(whole, both.len() as int);
                assert(whole.take(both.len() as int) =~= both);
                assert(both.take(before.len() as int) =~= before);
            }
            while k < m.entries.len()
                invariant
                    k <= m.entries@.len(),
                    added == m@,
                    both == before + added,
                    footprint(both).1 <= u64::MAX,
                    total == footprint(both.take(before.len() + k)).1,
                    crate::image::hash_bytes(seen@).to_set() == footprint(both.take(before.len() + k)).0,
                decreases m.entries.len() - k,
            {
                let ghost n = before.len() + k;
                proof {
                    assert(both.take(n + 1).drop_last() =~= both.take(n as int));
                    assert(both.take(n + 1).last() == m.entries@[k as int]@);
                    lemma_footprint_grows(both, n + 1);
                }
                if let EntryKind::File { blob, size } = &m.entries[k].kind {
                    let ghost old_seen = crate::image::hash_bytes(seen@);
                    if !among(&seen, blob) {
                        total = total + *size;
                        seen.push(*blob);
                        proof {
                            let now = crate::image::hash_bytes(seen@);
                            assert(now =~= old_seen.push(blob@));
                            assert(now.to_set() =~= old_seen.to_set().insert(blob@)) by {
                                assert forall|x: Seq<u8>| now.to_set().contains(x) == old_seen.to_set().insert(
                                    blob@,
                                ).contains(x) by {
                                    if old_seen.contains(x) {
                                        let j = choose|j: int| 0 <= j < old_seen.len() && old_seen[j] == x;
                                        assert(now[j] == x);
                                    }
                                    assert(now[old_seen.len() as int] == blob@);
                                }
                            }
                        }
                    }
                }
                k += 1;
            }
            assert(both.take(before.len() + k) =~= both);
        }
        i += 1;
    }
    assert(layers@.take(i as int) =~= layers@);
    total
}

/// A file that several layers share counts once: going through the same
/// entries again adds nothing.
pub proof fn shared_files_count_once(entries: Seq<EntryView>)
    ensures
        footprint(entries + entries) == footprint(entries),
{
    assert(entries =~= entries.take(entries.len() as int));
    lemma_nothing_new(entries, entries);
}

/// Entries whose blobs were all seen before add nothing.
proof fn lemma_nothing_new(entries: Seq<EntryView>, again: Seq<EntryView>)
    requires
        again.len() <= entries.len(),
        again == entries.take(again.len() as int),
    ensures
        footprint(entries + again) == footprint(entries),
    decreases again.len(),
{
    if again.len() == 0 {
        assert(entries + again =~= entries);
    } else {
        let shorter = again.drop_last();
        assert(shorter =~= entries.take(shorter.len() as int));
        lemma_nothing_new(entries, shorter);
        let all = entries + again;
        assert(all.drop_last() =~= entries + shorter);
        assert(all.last() == again.last());
        lemma_footprint_grows(entries, again.len() as int);
        assert(footprint(again) == footprint(entries.take(again.len() as int)));
    }
}

/// Whether the layers of an image and their files fit their counters.
pub open spec fn countable(layers: Seq<Option<LayerManifest>>) -> bool {
    forall|i: int| 0 <= i < layers.len() ==> (#[trigger] layers[i] matches Some(m) ==> file_bytes(m@) <= u64::MAX)
}

/// How many bytes the files of a layer have.
fn layer_size(m: &LayerManifest) -> (r: u64)
    requires
        file_bytes(m@) <= u64::MAX,
    ensures
        r == file_bytes(m@),
{
    let mut total: u64 = 0;
    let mut i: usize = 0;
    assert(m@.take(0) =~= Seq::<EntryView>::empty());
    while i < m.entries.len()
        invariant
            i <= m.entries@.len(),
            file_bytes(m@) <= u64::MAX,
            total == file_bytes(m@.take(i as int)),
        decreases m.entries.len() - i,
    {
        proof {
            assert(m@.take(i + 1).drop_last() =~= m@.take(i as int));
            assert(m@.take(i + 1).last() == m.entries@[i as int]@);
            lemma_bytes_grow(m@, i + 1);
        }
        if let EntryKind::File { blob: _, size } = &m.entries[i].kind {
            total = total + *size;
        }
        i += 1;
    }
    assert(m@.take(i as int) =~= m@);
    total
}

/// More files never have fewer bytes.
proof fn lemma_bytes_grow(entries: Seq<EntryView>, n: int)
    requires
        0 <= n <= entries.len(),
    ensures
        file_bytes(entries.take(n)) <= file_bytes(entries),
    decreases entries.len() - n,
{
    if n == entries.len() {
        assert(entries.take(n) =~= entries);
    } else {
        lemma_bytes_grow(entries, n + 1);
        assert(entries.take(n + 1).drop_last() =~= entries.take(n));
    }
}

// ---- Listing ---------------------------------------------------------------

/// What is listed of an image.
pub struct ImageJson {
    pub id: crate::store::Hash,
    pub repository: Option<String>,
    pub tag: Option<String>,
    pub layers: usize,
    pub size_bytes: u64,
}

/// An image in a list.
pub open spec fn listed_json(
    id: Seq<u8>,
    repository: Option<Seq<char>>,
    tag: Option<Seq<char>>,
    layers: nat,
    size_bytes: nat,
) -> Seq<char> {
    json_object(
        seq![
            json_member("id"@, json_string(hex_text(id))),
            json_member("repository"@, json_opt_string(repository)),
            json_member("tag"@, json_opt_string(tag)),
            json_member("layers"@, decimal(layers)),
            json_member("size_bytes"@, decimal(size_bytes)),
        ],
    )
}

impl ToJson for ImageJson {
    open spec fn json(&self) -> Seq<char> {
        listed_json(
            self.id@,
            opt_text(self.repository),
            opt_text(self.tag),
            self.layers as nat,
            self.size_bytes as nat,
        )
    }

    fn to_json(&self) -> (r: String) {
        let id = self.id.to_hex();
        let mut m: Vec<String> = Vec::new();
        add_member(&mut m, "id", json_str(id.as_str()).as_str());
        add_member(&mut m, "repository", json_opt_str(&self.repository).as_str());
        add_member(&mut m, "tag", json_opt_str(&self.tag).as_str());
        add_member(&mut m, "layers", u64_text(self.layers as u64).as_str());
        add_member(&mut m, "size_bytes", u64_text(self.size_bytes).as_str());
        assert(views(m@) =~= seq![
            json_member("id"@, json_string(hex_text(self.id@))),
            json_member("repository"@, json_opt_string(opt_text(self.repository))),
            json_member("tag"@, json_opt_string(opt_text(self.tag))),
            json_member("layers"@, decimal(self.layers as nat)),
            json_member("size_bytes"@, decimal(self.size_bytes as nat)),
        ]);
        json_map(&m)
    }
}

/// What is listed of an image, given its layers' manifests if it can be read;
/// a layer that cannot be read still counts as one.
pub fn image_json(
    id: crate::store::Hash,
    repository: Option<String>,
    tag: Option<String>,
    layers: &Option<Vec<Option<LayerManifest>>>,
) -> (r: ImageJson)
    requires
        layers matches Some(l) ==> footprint(all_entries(l@)).1 <= u64::MAX,
    ensures
        r.id == id,
        r.repository == repository,
        r.tag == tag,
        match *layers {
            Some(l) => r.layers == l@.len() && r.size_bytes == footprint(all_entries(l@)).1,
            None => r.layers == 0 && r.size_bytes == 0,
        },
{
    match layers {
        Some(l) => ImageJson { id, repository, tag, layers: l.len(), size_bytes: unique_size(l) },
        None => ImageJson { id, repository, tag, layers: 0, size_bytes: 0 },
    }
}

/// The images that have no tag.
pub open spec fn untagged(tagged: Seq<ImageJson>, all: Seq<ImageJson>) -> Seq<Seq<char>>
    decreases all.len(),
{
    if all.len() == 0 {
        Seq::empty()
    } else {
        let before = untagged(tagged, all.drop_last());
        if tagged_ids(tagged).contains(all.last().id@) {
            before
        } else {
            before.push(all.last().json())
        }
    }
}

/// The images that have a tag.
pub open spec fn tagged_ids(tagged: Seq<ImageJson>) -> Seq<Seq<u8>> {
    tagged.map_values(|i: ImageJson| i.id@)
}

/// Whether an image is among others.
fn is_tagged(tagged: &Vec<ImageJson>, id: &crate::store::Hash) -> (r: bool)
    ensures
        r == tagged_ids(tagged@).contains(id@),
{
    let mut i: usize = 0;
    while i < tagged.len()
        invariant
            i <= tagged@.len(),
            forall|j: int| 0 <= j < i ==> #[trigger] tagged_ids(tagged@)[j] != id@,
        decreases tagged.len() - i,
    {
        assert(tagged_ids(tagged@)[i as int] == tagged@[i as int].id@);
        if tagged[i].id.same(id) {
            return true;
        }
        i += 1;
    }
    false
}

/// The images of a store: one entry for each tag, and then one for each image
/// without a tag.
pub fn list(tagged: &Vec<ImageJson>, all: &Vec<ImageJson>) -> (r: Response)
    ensures
        r@ == json_response(200, json_array(jsons(tagged@) + untagged(tagged@, all@))),
{
    let mut items: Vec<String> = Vec::new();
    let ghost first = jsons(tagged@);
    let mut i: usize = 0;
    while i < tagged.len()
        invariant
            i <= tagged@.len(),
            first == jsons(tagged@),
            views(items@) == first.take(i as int),
        decreases tagged.len() - i,
    {
        let j = tagged[i].to_json();
        assert(views(items@.push(j)) =~= views(items@).push(j@));
        assert(first.take(i + 1) =~= first.take(i as int).push(j@));
        items.push(j);
        i += 1;
    }
    assert(first.take(i as int) =~= first);
    let mut k: usize = 0;
    assert(all@.take(0) =~= Seq::<ImageJson>::empty());
    assert(views(items@) =~= first + untagged(tagged@, all@.take(0)));
    while k < all.len()
        invariant
            k <= all@.len(),
            views(items@) == first + untagged(tagged@, all@.take(k as int)),
        decreases all.len() - k,
    {
        proof {
            assert(all@.take(k + 1).drop_last() =~= all@.take(k as int));
            assert(all@.take(k + 1).last() == all@[k as int]);
        }
        if !is_tagged(tagged, &all[k].id) {
            let j = all[k].to_json();
            assert(views(items@.push(j)) =~= views(items@).push(j@));
            items.push(j);
            assert(views(items@) =~= first + untagged(tagged@, all@.take(k + 1)));
        }
        k += 1;
    }
    assert(all@.take(k as int) =~= all@);
    let json = json_list(&items);
    Response::json(200, json.as_str())
}

// ---- One image -------------------------------------------------------------

/// What is shown of a layer.
pub struct LayerDetailJson {
    pub hash: crate::store::Hash,
    pub entry_count: usize,
    pub size_bytes: u64,
}

/// A layer of an image.
pub open spec fn layer_json(hash: Seq<u8>, entry_count: nat, size_bytes: nat) -> Seq<char> {
    json_object(
        seq![
            json_member("hash"@, json_string(hex_text(hash))),
            json_member("entry_count"@, decimal(entry_count)),
            json_member("size_bytes"@, decimal(size_bytes)),
        ],
    )
}

impl ToJson for LayerDetailJson {
    open spec fn json(&self) -> Seq<char> {
        layer_json(self.hash@, self.entry_count as nat, self.size_bytes as nat)
    }

    fn to_json(&self) -> (r: String) {
        let hash = self.hash.to_hex();
        let mut m: Vec<String> = Vec::new();
        add_member(&mut m, "hash", json_str(hash.as_str()).as_str());
        add_member(&mut m, "entry_count", u64_text(self.entry_count as u64).as_str());
        add_member(&mut m, "size_bytes", u64_text(self.size_bytes).as_str());
        assert(views(m@) =~= seq![
            json_member("hash"@, json_string(hex_text(self.hash@))),
            json_member("entry_count"@, decimal(self.entry_count as nat)),
            json_member("size_bytes"@, decimal(self.size_bytes as nat)),
        ]);
        json_map(&m)
    }
}

/// The layers of an image, from the base up; of one that cannot be read
/// nothing but its hash is known.
pub open spec fn layer_jsons(ids: Seq<crate::store::Hash>, layers: Seq<Option<LayerManifest>>) -> Seq<Seq<char>> {
    Seq::new(
        ids.len(),
        |i: int|
            match layers[i] {
                Some(m) => layer_json(ids[i]@, m@.len(), file_bytes(m@)),
                None => layer_json(ids[i]@, 0, 0),
            },
    )
}

/// The tag of an image: the first that names it.
pub open spec fn first_tag(
    tags: Seq<(String, String, crate::store::Hash)>,
    id: Seq<u8>,
) -> (Option<Seq<char>>, Option<Seq<char>>)
    decreases tags.len(),
{
    if tags.len() == 0 {
        (None, None)
    } else if tags[0].2@ == id {
        (Some(tags[0].0@), Some(tags[0].1@))
    } else {
        first_tag(tags.skip(1), id)
    }
}

/// The tag of an image.
fn find_tag(tags: &Vec<(String, String, crate::store::Hash)>, id: &crate::store::Hash) -> (r: (
    Option<String>,
    Option<String>,
))
    ensures
        (opt_text(r.0), opt_text(r.1)) == first_tag(tags@, id@),
{
    let mut i: usize = 0;
    assert(tags@.skip(0) =~= tags@);
    while i < tags.len()
        invariant
            i <= tags@.len(),
            first_tag(tags@.skip(i as int), id@) == first_tag(tags@, id@),
        decreases tags.len() - i,
    {
        assert(tags@.skip(i as int).skip(1) =~= tags@.skip(i + 1));
        if tags[i].2.same(id) {
            return (Some(tags[i].0.as_str().to_owned()), Some(tags[i].1.as_str().to_owned()));
        }
        i += 1;
    }
    (None, None)
}

/// The members of an image's JSON object.
pub open spec fn detail_members(
    id: Seq<u8>,
    tag: (Option<Seq<char>>, Option<Seq<char>>),
    config: crate::image::ConfigView,
    layers: Seq<Seq<char>>,
    signature_verified: bool,
) -> Seq<Seq<char>> {
    seq![
        json_member("id"@, json_string(hex_text(id))),
        json_member("repository"@, json_opt_string(tag.0)),
        json_member("tag"@, json_opt_string(tag.1)),
    ] + crate::image::config_members(config) + seq![
        json_member("layers"@, json_array(layers)),
        json_member("signature_verified"@, json_bool_text(signature_verified)),
    ]
}

/// What is shown of an image.
pub struct ImageDetailJson {
    pub id: crate::store::Hash,
    pub repository: Option<String>,
    pub tag: Option<String>,
    pub config: crate::image::ImageConfig,
    pub layers: Vec<LayerDetailJson>,
    /// Whether its signature was checked when it was pulled.
    pub signature_verified: bool,
}

impl ToJson for ImageDetailJson {
    open spec fn json(&self) -> Seq<char> {
        json_object(
            detail_members(
                self.id@,
                (opt_text(self.repository), opt_text(self.tag)),
                self.config@,
                jsons(self.layers@),
                self.signature_verified,
            ),
        )
    }

    fn to_json(&self) -> (r: String) {
        let hex = self.id.to_hex();
        let mut m: Vec<String> = Vec::new();
        add_member(&mut m, "id", json_str(hex.as_str()).as_str());
        add_member(&mut m, "repository", json_opt_str(&self.repository).as_str());
        add_member(&mut m, "tag", json_opt_str(&self.tag).as_str());
        let ghost head = views(m@);
        let mut config = self.config.members();
        let ghost middle = views(config@);
        m.append(&mut config);
        assert(views(m@) =~= head + middle);
        add_member(&mut m, "layers", json_items(&self.layers).as_str());
        add_member(&mut m, "signature_verified", json_bool(self.signature_verified).as_str());
        assert(views(m@) =~= detail_members(
            self.id@,
            (opt_text(self.repository), opt_text(self.tag)),
            self.config@,
            jsons(self.layers@),
            self.signature_verified,
        ));
        json_map(&m)
    }
}

/// What is said of an id that is none.
pub open spec fn bad_id(id: Seq<char>) -> ResponseView {
    text_response(400, "invalid image id: "@ + id)
}

/// What is said of an id that is none.
fn refuse_id(id: &str) -> (r: Response)
    ensures
        r@ == bad_id(id@),
{
    let text = cat2("invalid image id: ", id);
    Response::text(400, text.as_str())
}

/// An image in full, given the image if it can be read, the manifests of its
/// layers, the tags of the store in order, and whether its signature was
/// checked when it was pulled.
pub fn inspect(
    id: &str,
    image: &Option<Image>,
    layers: &Vec<Option<LayerManifest>>,
    tags: &Vec<(String, String, crate::store::Hash)>,
    signature_verified: bool,
) -> (r: Response)
    requires
        image matches Some(i) ==> layers@.len() == i.layers@.len(),
        countable(layers@),
    ensures
        r@ == (match hash_named(id@) {
            None => bad_id(id@),
            Some(h) => match *image {
                None => text_response(404, "no such image"@),
                Some(i) => json_response(
                    200,
                    json_object(
                        detail_members(
                            h,
                            first_tag(tags@, h),
                            i.config@,
                            layer_jsons(i.layers@, layers@),
                            signature_verified,
                        ),
                    ),
                ),
            },
        }),
{
    let hash = match crate::store::Hash::from_hex(id) {
        Ok(h) => h,
        Err(_) => {
            return refuse_id(id);
        },
    };
    let img = match image {
        Some(i) => i,
        None => {
            return Response::text(404, "no such image");
        },
    };
    let (repository, tag) = find_tag(tags, &hash);
    let ghost all = layer_jsons(img.layers@, layers@);
    let mut details: Vec<LayerDetailJson> = Vec::new();
    let mut i: usize = 0;
    assert(jsons(details@) =~= all.take(0));
    while i < img.layers.len()
        invariant
            i <= img.layers@.len(),
            layers@.len() == img.layers@.len(),
            countable(layers@),
            all == layer_jsons(img.layers@, layers@),
            jsons(details@) == all.take(i as int),
        decreases img.layers.len() - i,
    {
        let detail = match &layers[i] {
            Some(m) => {
                assert(file_bytes(m@) <= u64::MAX) by {
                    assert(layers@[i as int] matches Some(x));
                }
                LayerDetailJson { hash: img.layers[i], entry_count: m.entries.len(), size_bytes: layer_size(m) }
            },
            None => LayerDetailJson { hash: img.layers[i], entry_count: 0, size_bytes: 0 },
        };
        assert(jsons(details@.push(detail)) =~= jsons(details@).push(detail.json()));
        assert(all.take(i + 1) =~= all.take(i as int).push(detail.json()));
        details.push(detail);
        i += 1;
    }
    assert(all.take(i as int) =~= all);
    let shown = ImageDetailJson {
        id: hash,
        repository,
        tag,
        config: img.config.duplicate(),
        layers: details,
        signature_verified,
    };
    let json = shown.to_json();
    Response::json(200, json.as_str())
}

// ---- Pulling, pushing, tagging ---------------------------------------------

/// A request to pull an image.
pub struct PullRequest {
    pub reference: String,
    pub insecure_skip_verify: bool,
}

/// Whether a request to pull goes through.
pub fn pull(body: Result<PullRequest, String>) -> (r: Result<PullRequest, Response>)
    ensures
        match body {
            Err(m) => r matches Err(e) && e@ == invalid_body(m@),
            Ok(b) => if trimmed(b.reference@).len() == 0 {
                r matches Err(e) && e@ == text_response(400, "image reference must not be empty"@)
            } else {
                r == Ok::<PullRequest, Response>(b)
            },
        },
{
    match body {
        Ok(b) => {
            if trim(b.reference.as_str()).unicode_len() == 0 {
                Err(Response::text(400, "image reference must not be empty"))
            } else {
                Ok(b)
            }
        },
        Err(m) => Err(refuse_body(m.as_str())),
    }
}

/// The JSON object that names an image.
pub open spec fn id_json(id: Seq<u8>) -> Seq<char> {
    json_object(seq![json_member("id"@, json_string(hex_text(id)))])
}

/// The answer to a pull.
pub fn pull_reply(outcome: &Result<crate::store::Hash, String>) -> (r: Response)
    ensures
        r@ == (match *outcome {
            Ok(id) => json_response(201, id_json(id@)),
            Err(e) => text_response(502, e@),
        }),
{
    match outcome {
        Ok(id) => {
            let hex = id.to_hex();
            let mut m: Vec<String> = Vec::new();
            add_member(&mut m, "id", json_str(hex.as_str()).as_str());
            assert(views(m@) =~= seq![json_member("id"@, json_string(hex_text(id@)))]);
            let json = json_map(&m);
            Response::json(201, json.as_str())
        },
        Err(e) => Response::text(502, e.as_str()),
    }
}

/// A request to push an image.
pub struct PushRequest {
    pub reference: String,
}

/// A request to give an image another name.
pub struct TagRequest {
    pub source: String,
    pub target: String,
}

/// How far the work on an image got.
pub enum Passed {
    /// The name it was asked for by is that of no image.
    Unresolved(String),
    /// The image could not be kept.
    NotSaved(String),
    /// The last step failed.
    Failed(String),
    Done(crate::store::Hash),
}

/// The JSON object that names an image and what became of it.
pub open spec fn named_json(id: Seq<u8>, key: Seq<char>, name: Seq<char>) -> Seq<char> {
    json_object(seq![json_member("id"@, json_string(hex_text(id))), json_member(key, json_string(name))])
}

/// The JSON object that names an image and what became of it.
fn write_named(id: &crate::store::Hash, key: &str, name: &str) -> (r: String)
    ensures
        r@ == named_json(id@, key@, name@),
{
    let hex = id.to_hex();
    let mut m: Vec<String> = Vec::new();
    add_member(&mut m, "id", json_str(hex.as_str()).as_str());
    add_member(&mut m, key, json_str(name).as_str());
    assert(views(m@) =~= seq![json_member("id"@, json_string(hex_text(id@))), json_member(key@, json_string(name@))]);
    json_map(&m)
}

/// What is said of a name that is that of no image.
pub open spec fn unresolved(reference: Seq<char>, reason: Seq<char>) -> ResponseView {
    text_response(404, "resolving "@ + reference + ": "@ + reason)
}

/// What is said of a name that is that of no image.
fn refuse_reference(reference: &str, reason: &str) -> (r: Response)
    ensures
        r@ == unresolved(reference@, reason@),
{
    let text = cat4("resolving ", reference, ": ", reason);
    Response::text(404, text.as_str())
}

/// The answer to a push.
pub fn push(body: &Result<PushRequest, String>, passed: &Passed) -> (r: Response)
    ensures
        r@ == (match *body {
            Err(m) => invalid_body(m@),
            Ok(b) => match *passed {
                Passed::Unresolved(e) => unresolved(b.reference@, e@),
                Passed::NotSaved(e) => text_response(500, e@),
                Passed::Failed(e) => text_response(502, "push failed: "@ + e@),
                Passed::Done(id) => json_response(200, named_json(id@, "pushed_as"@, b.reference@)),
            },
        }),
{
    let b = match body {
        Ok(b) => b,
        Err(m) => {
            return refuse_body(m.as_str());
        },
    };
    match passed {
        Passed::Unresolved(e) => refuse_reference(b.reference.as_str(), e.as_str()),
        Passed::NotSaved(e) => Response::text(500, e.as_str()),
        Passed::Failed(e) => {
            let text = cat2("push failed: ", e.as_str());
            Response::text(502, text.as_str())
        },
        Passed::Done(id) => {
            let json = write_named(id, "pushed_as", b.reference.as_str());
            Response::json(200, json.as_str())
        },
    }
}

/// The answer to a request for another name.
pub fn tag(body: &Result<TagRequest, String>, passed: &Passed) -> (r: Response)
    ensures
        r@ == (match *body {
            Err(m) => invalid_body(m@),
            Ok(b) => match *passed {
                Passed::Unresolved(e) => unresolved(b.source@, e@),
                Passed::NotSaved(e) => text_response(500, e@),
                Passed::Failed(e) => text_response(500, e@),
                Passed::Done(id) => json_response(200, named_json(id@, "tagged_as"@, b.target@)),
            },
        }),
{
    let b = match body {
        Ok(b) => b,
        Err(m) => {
            return refuse_body(m.as_str());
        },
    };
    match passed {
        Passed::Unresolved(e) => refuse_reference(b.source.as_str(), e.as_str()),
        Passed::NotSaved(e) => Response::text(500, e.as_str()),
        Passed::Failed(e) => Response::text(500, e.as_str()),
        Passed::Done(id) => {
            let json = write_named(id, "tagged_as", b.target.as_str());
            Response::json(200, json.as_str())
        },
    }
}

// ---- Building --------------------------------------------------------------

/// A request to build an image.
pub struct BuildRequest {
    pub context_dir: String,
    /// Relative to the context; `Kilnfile` if it is not given.
    pub kilnfile_path: Option<String>,
    pub tag: Option<String>,
}

/// The file that a build reads its instructions from.
pub open spec fn kilnfile_of(b: BuildRequest) -> Seq<char> {
    joined_path(
        b.context_dir@,
        match b.kilnfile_path {
            Some(p) => p@,
            None => "Kilnfile"@,
        },
    )
}

/// Whether a request to build can be looked into: the file with the
/// instructions, if the context is a directory.
pub fn build(body: &Result<BuildRequest, String>, context_is_dir: bool) -> (r: Result<String, Response>)
    ensures
        match *body {
            Err(m) => r matches Err(e) && e@ == invalid_body(m@),
            Ok(b) => if context_is_dir {
                r matches Ok(p) && p@ == kilnfile_of(b)
            } else {
                r matches Err(e) && e@ == text_response(400, "context directory not found: "@ + b.context_dir@)
            },
        },
{
    let b = match body {
        Ok(b) => b,
        Err(m) => {
            return Err(refuse_body(m.as_str()));
        },
    };
    if !context_is_dir {
        let text = cat2("context directory not found: ", b.context_dir.as_str());
        return Err(Response::text(400, text.as_str()));
    }
    let file = match &b.kilnfile_path {
        Some(p) => p.as_str(),
        None => "Kilnfile",
    };
    Ok(path_join(b.context_dir.as_str(), file))
}

/// A step of a build, and whether it was served from the cache.
pub struct BuildStepJson {
    pub instruction: String,
    pub cached: bool,
}

impl ToJson for BuildStepJson {
    open spec fn json(&self) -> Seq<char> {
        json_object(
            seq![
                json_member("instruction"@, json_string(self.instruction@)),
                json_member("cached"@, json_bool_text(self.cached)),
            ],
        )
    }

    fn to_json(&self) -> (r: String) {
        let mut m: Vec<String> = Vec::new();
        add_member(&mut m, "instruction", json_str(self.instruction.as_str()).as_str());
        add_member(&mut m, "cached", json_bool(self.cached).as_str());
        assert(views(m@) =~= seq![
            json_member("instruction"@, json_string(self.instruction@)),
            json_member("cached"@, json_bool_text(self.cached)),
        ]);
        json_map(&m)
    }
}

/// What a build made.
pub struct BuildResultJson {
    pub image_id: crate::store::Hash,
    pub steps: Vec<BuildStepJson>,
    pub tagged: Option<String>,
}

impl ToJson for BuildResultJson {
    open spec fn json(&self) -> Seq<char> {
        json_object(
            seq![
                json_member("image_id"@, json_string(hex_text(self.image_id@))),
                json_member("steps"@, json_array(jsons(self.steps@))),
                json_member("tagged"@, json_opt_string(opt_text(self.tagged))),
            ],
        )
    }

    fn to_json(&self) -> (r: String) {
        let hex = self.image_id.to_hex();
        let mut m: Vec<String> = Vec::new();
        add_member(&mut m, "image_id", json_str(hex.as_str()).as_str());
        add_member(&mut m, "steps", json_items(&self.steps).as_str());
        add_member(&mut m, "tagged", json_opt_str(&self.tagged).as_str());
        assert(views(m@) =~= seq![
            json_member("image_id"@, json_string(hex_text(self.image_id@))),
            json_member("steps"@, json_array(jsons(self.steps@))),
            json_member("tagged"@, json_opt_string(opt_text(self.tagged))),
        ]);
        json_map(&m)
    }
}

/// The repository and the tag that a built image gets, and the two together
/// as they are shown.
pub fn build_tag(tag: &str) -> (r: (String, String, String))
    ensures
        r.0@ == full_repository(name_and_tag(tag@).0),
        r.1@ == name_and_tag(tag@).1,
        r.2@ == r.0@ + ":"@ + r.1@,
{
    let (name, tag_name) = split_name_tag(tag);
    let repository = normalize_repository(name);
    let shown = cat3(repository.as_str(), ":", tag_name);
    (repository, tag_name.to_owned(), shown)
}

/// How far a build got.
pub enum Built {
    /// The instructions at this path could not be read.
    Unreadable { path: String, reason: String },
    Failed(String),
    /// The image was built, but not tagged.
    NotTagged { id: crate::store::Hash, reason: String },
    Done(BuildResultJson),
}

/// The answer to a build.
pub fn build_reply(built: &Built) -> (r: Response)
    ensures
        r@ == (match *built {
            Built::Unreadable { path, reason } => text_response(400, "reading "@ + path@ + ": "@ + reason@),
            Built::Failed(e) => text_response(500, "build failed: "@ + e@),
            Built::NotTagged { id, reason } => text_response(
                500,
                "built "@ + hex_text(id@) + " but tagging failed: "@ + reason@,
            ),
            Built::Done(b) => json_response(201, b.json()),
        }),
{
    match built {
        Built::Unreadable { path, reason } => {
            let text = cat4("reading ", path.as_str(), ": ", reason.as_str());
            Response::text(400, text.as_str())
        },
        Built::Failed(e) => {
            let text = cat2("build failed: ", e.as_str());
            Response::text(500, text.as_str())
        },
        Built::NotTagged { id, reason } => {
            let hex = id.to_hex();
            let text = cat4("built ", hex.as_str(), " but tagging failed: ", reason.as_str());
            Response::text(500, text.as_str())
        },
        Built::Done(b) => {
            let json = b.to_json();
            Response::json(201, json.as_str())
        },
    }
}

// ---- Scans and removal -----------------------------------------------------

/// The report of the last scan of an image, if there is one.
pub fn get_scan(id: &str, report: &Option<ScanReport>) -> (r: Response)
    ensures
        r@ == (if hash_named(id@) is None {
            bad_id(id@)
        } else {
            match *report {
                Some(s) => json_response(200, report_json(s)),
                None => text_response(404, "no scan report for this image - scan it first"@),
            }
        }),
{
    if crate::store::Hash::from_hex(id).is_err() {
        return refuse_id(id);
    }
    match report {
        Some(s) => {
            let json = s.to_json();
            Response::json(200, json.as_str())
        },
        None => Response::text(404, "no scan report for this image - scan it first"),
    }
}

/// How far a scan got.
pub enum ScanOutcome {
    Failed(String),
    NotSaved(String),
    Done(ScanReport),
}

/// The answer to a request to scan an image.
pub fn post_scan(id: &str, outcome: &ScanOutcome) -> (r: Response)
    ensures
        r@ == (if hash_named(id@) is None {
            bad_id(id@)
        } else {
            match *outcome {
                ScanOutcome::Failed(e) => text_response(500, e@),
                ScanOutcome::NotSaved(e) => text_response(
                    500,
                    "scan succeeded but saving the report failed: "@ + e@,
                ),
                ScanOutcome::Done(s) => json_response(201, report_json(s)),
            }
        }),
{
    if crate::store::Hash::from_hex(id).is_err() {
        return refuse_id(id);
    }
    match outcome {
        ScanOutcome::Failed(e) => Response::text(500, e.as_str()),
        ScanOutcome::NotSaved(e) => {
            let text = cat2("scan succeeded but saving the report failed: ", e.as_str());
            Response::text(500, text.as_str())
        },
        ScanOutcome::Done(s) => {
            let json = s.to_json();
            Response::json(201, json.as_str())
        },
    }
}

/// The answer to a request to remove an image.
pub fn remove(id: &str, outcome: &Result<String, String>) -> (r: Response)
    ensures
        r@ == (if hash_named(id@) is None {
            bad_id(id@)
        } else {
            match *outcome {
                Ok(m) => json_response(200, json_object(seq![json_member("message"@, json_string(m@))])),
                Err(e) => text_response(404, e@),
            }
        }),
{
    if crate::store::Hash::from_hex(id).is_err() {
        return refuse_id(id);
    }
    match outcome {
        Ok(text) => {
            let mut m: Vec<String> = Vec::new();
            add_member(&mut m, "message", json_str(text.as_str()).as_str());
            assert(views(m@) =~= seq![json_member("message"@, json_string(text@))]);
            let json = json_map(&m);
            Response::json(200, json.as_str())
        },
        Err(e) => Response::text(404, e.as_str()),
    }
}

/// The bytes of files are counted entry by entry: each file by its size, and
/// nothing else counts.
pub proof fn files_are_counted_by_size(a: Seq<EntryView>, b: Seq<EntryView>, one: EntryView)
    ensures
        file_bytes(a + b) == file_bytes(a) + file_bytes(b),
        one.kind matches KindView::File { size, .. } ==> file_bytes(seq![one]) == size,
        !(one.kind is File) ==> file_bytes(seq![one]) == 0,
    decreases b.len(),
{
    reveal_with_fuel(file_bytes, 2);
    assert(seq![one].drop_last() =~= Seq::<EntryView>::empty());
    if b.len() == 0 {
        assert(a + b =~= a);
    } else {
        files_are_counted_by_size(a, b.drop_last(), one);
        assert((a + b).drop_last() =~= a + b.drop_last());
        assert((a + b).last() == b.last());
    }
}

/// The blobs that entries refer to are those of their files.
proof fn lemma_footprint_blobs(entries: Seq<EntryView>, blob: Seq<u8>)
    ensures
        footprint(entries).0.contains(blob) <==> exists|i: int|
            0 <= i < entries.len() && (#[trigger] entries[i]).kind is File && entries[i].kind->blob == blob,
    decreases entries.len(),
{
    if entries.len() > 0 {
        let before = entries.drop_last();
        lemma_footprint_blobs(before, blob);
        if footprint(before).0.contains(blob) {
            let i = choose|i: int|
                0 <= i < before.len() && (#[trigger] before[i]).kind is File && before[i].kind->blob == blob;
            assert(entries[i] == before[i]);
        }
        if exists|i: int|
            0 <= i < entries.len() && (#[trigger] entries[i]).kind is File && entries[i].kind->blob == blob {
            let i = choose|i: int|
                0 <= i < entries.len() && (#[trigger] entries[i]).kind is File && entries[i].kind->blob == blob;
            if i < before.len() {
                assert(before[i] == entries[i]);
            }
        }
        assert(entries[entries.len() - 1] == entries.last());
    }
}

/// A file whose content no earlier entry has adds its size, one whose content
/// an earlier entry has adds nothing, and nothing else takes room.
pub proof fn new_files_add_their_size(entries: Seq<EntryView>, e: EntryView)
    ensures
        ({
            let held = exists|i: int|
                0 <= i < entries.len() && (#[trigger] entries[i]).kind is File && entries[i].kind->blob
                    == e.kind->blob;
            &&& e.kind is File && !held ==> footprint(entries.push(e)).1 == footprint(entries).1 + e.kind->size
            &&& e.kind is File && held ==> footprint(entries.push(e)).1 == footprint(entries).1
            &&& !(e.kind is File) ==> footprint(entries.push(e)) == footprint(entries)
            &&& footprint(Seq::empty()).1 == 0
        }),
{
    lemma_footprint_blobs(entries, e.kind->blob);
    assert(entries.push(e).drop_last() =~= entries);
    assert(entries.push(e).last() == e);
}

/// The entries of an image are those of its layers, one layer after the other;
/// a layer that cannot be read has none.
pub proof fn layers_give_their_entries(
    a: Seq<Option<LayerManifest>>,
    b: Seq<Option<LayerManifest>>,
    one: LayerManifest,
)
    ensures
        all_entries(a + b) == all_entries(a) + all_entries(b),
        all_entries(seq![Some(one)]) == one@,
        all_entries(seq![None::<LayerManifest>]).len() == 0,
    decreases b.len(),
{
    reveal_with_fuel(all_entries, 2);
    assert(seq![Some(one)].drop_last() =~= Seq::<Option<LayerManifest>>::empty());
    assert(seq![None::<LayerManifest>].drop_last() =~= Seq::<Option<LayerManifest>>::empty());
    assert(all_entries(seq![Some(one)]) =~= one@);
    if b.len() == 0 {
        assert(a + b =~= a);
        assert(all_entries(a + b) =~= all_entries(a) + all_entries(b));
    } else {
        layers_give_their_entries(a, b.drop_last(), one);
        assert((a + b).drop_last() =~= a + b.drop_last());
        assert((a + b).last() == b.last());
        assert(all_entries(a + b) =~= all_entries(a) + all_entries(b));
    }
}

/// Images without a tag are listed one by one: each whose id no tagged image
/// has, and no other.
pub proof fn untagged_images_are_listed(
    tagged: Seq<ImageJson>,
    a: Seq<ImageJson>,
    b: Seq<ImageJson>,
    one: ImageJson,
)
    ensures
        untagged(tagged, a + b) == untagged(tagged, a) + untagged(tagged, b),
        (forall|i: int| 0 <= i < tagged.len() ==> (#[trigger] tagged[i]).id@ != one.id@) ==> untagged(
            tagged,
            seq![one],
        ) == seq![one.json()],
        (exists|i: int| 0 <= i < tagged.len() && (#[trigger] tagged[i]).id@ == one.id@) ==> untagged(
            tagged,
            seq![one],
        ).len() == 0,
    decreases b.len(),
{
    reveal_with_fuel(untagged, 2);
    assert(seq![one].drop_last() =~= Seq::<ImageJson>::empty());
    let ids = tagged_ids(tagged);
    if exists|i: int| 0 <= i < tagged.len() && (#[trigger] tagged[i]).id@ == one.id@ {
        let i = choose|i: int| 0 <= i < tagged.len() && (#[trigger] tagged[i]).id@ == one.id@;
        assert(ids[i] == one.id@);
    } else {
        assert forall|i: int| 0 <= i < ids.len() implies ids[i] != one.id@ by {
            assert(tagged[i].id@ != one.id@);
        }
        assert(untagged(tagged, seq![one]) =~= seq![one.json()]);
    }
    if b.len() == 0 {
        assert(a + b =~= a);
        assert(untagged(tagged, a + b) =~= untagged(tagged, a) + untagged(tagged, b));
    } else {
        untagged_images_are_listed(tagged, a, b.drop_last(), one);
        assert((a + b).drop_last() =~= a + b.drop_last());
        assert((a + b).last() == b.last());
        assert(untagged(tagged, a + b) =~= untagged(tagged, a) + untagged(tagged, b));
    }
}

/// An image goes by the first tag that names it, and by none where none does.
pub proof fn the_first_tag_names_the_image(
    before: Seq<(String, String, crate::store::Hash)>,
    t: (String, String, crate::store::Hash),
    after: Seq<(String, String, crate::store::Hash)>,
)
    requires
        forall|i: int| 0 <= i < before.len() ==> (#[trigger] before[i]).2@ != t.2@,
    ensures
        first_tag(before + seq![t] + after, t.2@) == (Some(t.0@), Some(t.1@)),
        first_tag(before, t.2@) == (None::<Seq<char>>, None::<Seq<char>>),
    decreases before.len(),
{
    let all = before + seq![t] + after;
    if before.len() == 0 {
        assert(all[0] == t);
    } else {
        assert(all[0] == before[0]);
        assert(all.skip(1) =~= before.skip(1) + seq![t] + after);
        assert forall|i: int| 0 <= i < before.skip(1).len() implies (#[trigger] before.skip(1)[i]).2@ != t.2@ by {
            assert(before.skip(1)[i] == before[i + 1]);
        }
        the_first_tag_names_the_image(before.skip(1), t, after);
    }
}

/// A layer is listed by its own hash and by how much its own manifest holds; of
/// one that cannot be read nothing is counted.
pub proof fn layers_are_listed_by_their_own_manifest(
    ids: Seq<crate::store::Hash>,
    layers: Seq<Option<LayerManifest>>,
    i: int,
)
    requires
        0 <= i < ids.len() == layers.len(),
    ensures
        ({
            let text = layer_jsons(ids, layers)[i];
            let hash = json_string(hex_text(ids[i]@));
            let n = match layers[i] {
                Some(m) => m@.len(),
                None => 0nat,
            };
            let bytes = match layers[i] {
                Some(m) => file_bytes(m@),
                None => 0nat,
            };
            &&& crate::shown::shows(text, "hash"@, hash)
            &&& crate::shown::shows(text, "entry_count"@, decimal(n))
            &&& crate::shown::shows(text, "size_bytes"@, decimal(bytes))
        }),
        layer_jsons(ids, layers).len() == ids.len(),
{
    match layers[i] {
        Some(m) => crate::shown::layers_show_their_fields(ids[i]@, m@.len(), file_bytes(m@)),
        None => crate::shown::layers_show_their_fields(ids[i]@, 0, 0),
    }
}

/// A build reads its instructions from the file that the request names in the
/// context, and from `Kilnfile` there where it names none.
pub proof fn builds_read_the_named_file(b: BuildRequest)
    requires
        b.context_dir@.len() > 0,
        b.context_dir@.last() != '/',
    ensures
        b.kilnfile_path is None ==> kilnfile_of(b) == b.context_dir@ + seq!['/'] + "Kilnfile"@,
        b.kilnfile_path matches Some(p) ==> (p@.len() > 0 && p@[0] != '/' ==> kilnfile_of(b) == b.context_dir@ + seq![
            '/',
        ] + p@),
{
    reveal_strlit("Kilnfile");
    crate::paths::paths_are_seen_from_their_base(b.context_dir@, "Kilnfile"@);
    if let Some(p) = b.kilnfile_path {
        crate::paths::paths_are_seen_from_their_base(b.context_dir@, p@);
    }
}

} // verus!
