use kiln::error::Error;
use kiln::image::{normalize_repository, split_name_tag, tag_reference, Image, ImageConfig, Resolved};
use kiln::layer::{
    completion_marker, create_dir_all_owned, materialize, materialize_cached, path_to_entry_string, snapshot_dir, sort_entries, Entry,
    EntryKind, LayerManifest, MakeStep, Walked, WalkedKind,
};
use kiln::oci_layer::{blobs_to_pack, pack_layer_tar_gz, pull_layer, split_path};
use kiln::registry::{
    blob_url, build_oci_config_json, content_digest, convert_config, get_token, is_manifest_list, manifest_url,
    oci_manifest, pull, push, select_platform, upload_start_url, upload_url, verify_digest, with_auth, ContainerConfig,
    ManifestListEntry, OciDescriptor, Reference, TokenStep,
};
use kiln::store::{hardlink_or_copy, BlobMeta, Linking, Placing, Store};
use sha2::Digest;
use std::io::Read;

fn store() -> Store {
    Store::open("/s".to_string()).0
}

fn hash(s: &str) -> kiln::store::Hash {
    kiln::store::Hash::of_bytes(s.as_bytes())
}

fn file(path: &str, content: &str, mode: u32, uid: u32) -> Entry {
    Entry {
        path: path.to_string(),
        mode,
        uid,
        gid: uid,
        kind: EntryKind::File { blob: hash(content), size: content.len() as u64 },
    }
}

fn some(s: &str) -> Option<String> {
    Some(s.to_string())
}

#[test]
fn hashes_are_sha256() {
    let want = hex::encode(sha2::Sha256::digest(b"abc"));
    assert_eq!(hash("abc").to_hex(), want);
    assert_eq!(content_digest(b"abc"), format!("sha256:{want}"));
    assert!(kiln::store::Hash::from_hex(&want.to_uppercase()).unwrap().same(&hash("abc")));
    for bad in ["", "abc", &want[1..], "zz"] {
        assert!(matches!(kiln::store::Hash::from_hex(bad), Err(Error::InvalidHash(_))));
    }
    assert!(verify_digest(&content_digest(b"abc"), b"abc").is_ok());
    assert!(verify_digest(&content_digest(b"abc"), b"abd").is_err());
    assert!(verify_digest("md5:1", b"abc").is_err());
}

#[test]
fn identical_file_content_across_layers_is_stored_once() {
    let store = store();
    let mut files: Vec<String> = Vec::new();
    let shared_content = b"this exact content appears in two unrelated layers\n";

    let put_a = store.put_bytes(shared_content, &files);
    if let Some((_, path)) = put_a.write {
        files.push(path);
    }
    let put_b = store.put_bytes(shared_content, &files);
    assert!(put_a.hash.same(&put_b.hash), "identical content must hash identically");
    assert!(put_b.write.is_none());
    assert_eq!(files.len(), 1, "one blob, regardless of how many layers reference it");
    assert_eq!(files[0], store.blob_path(&put_a.hash));
    assert!(store.has_blob(&put_a.hash, &files));

    let manifest = |path: &str, mode: u32, id: u32| LayerManifest {
        entries: vec![Entry {
            path: path.to_string(),
            mode,
            uid: id,
            gid: id,
            kind: EntryKind::File { blob: put_a.hash, size: shared_content.len() as u64 },
        }],
    };
    let base = kiln::identity::SUBORDINATE_UID_BASE;
    let place = |m: LayerManifest| {
        materialize(&m, "/dest", base, base)
            .into_iter()
            .find_map(|s| match s {
                MakeStep::Place { mode, uid, .. } => Some((mode, uid)),
                _ => None,
            })
            .unwrap()
    };
    let a = place(manifest("usr/share/common.txt", 0o644, 0));
    let b = place(manifest("opt/other/copy.txt", 0o600, 1000));
    assert_eq!(a, (0o644, base));
    assert_eq!(b, (0o600, base + 1000));
    assert_ne!(a, b, "sharing a blob must not leak one placement's metadata onto the other");

    let fresh = BlobMeta { mode: 0o644, uid: 0, gid: 0, links: 1 };
    assert!(matches!(store.place_blob(&put_a.hash, 0o600, base, base, Some(fresh)).unwrap().how, Placing::Link { stamp: true }));
    let used = BlobMeta { mode: 0o100644, uid: base, gid: base, links: 2 };
    assert!(matches!(store.place_blob(&put_a.hash, 0o600, base, base, Some(used)).unwrap().how, Placing::Copy));
    assert!(matches!(store.place_blob(&put_a.hash, 0o600, base, base, None), Err(Error::MissingBlob(_))));
}

#[test]
fn streams_are_stored_like_bytes() {
    let s = store();
    let chunks = vec![b"ab".to_vec(), vec![], b"c".to_vec()];
    let put = s.put_reader(&chunks, "1-2", &vec![]);
    assert!(put.hash.same(&hash("abc")));
    assert_eq!(put.rename_to.unwrap().1, s.blob_path(&hash("abc")));
    assert!(s.put_reader(&chunks, "1-2", &vec![s.blob_path(&hash("abc"))]).rename_to.is_none());
    assert!(matches!(hardlink_or_copy(None), Linking::Done));
    assert!(matches!(hardlink_or_copy(Some(libc::EXDEV)), Linking::CopyInstead));
    assert!(matches!(hardlink_or_copy(Some(libc::EPERM)), Linking::Failed));
}

#[test]
fn tags_resolve_to_what_they_were_given() {
    let s = store();
    let id = hash("image");
    let w = s.tag("library/app", "v1", id);
    let text = String::from_utf8(w.content).unwrap();
    assert!(s.resolve_tag("library/app", "v1", Ok(text)).unwrap().same(&id));
    assert!(matches!(s.resolve_tag("library/app", "v1", Err("gone".to_string())), Err(Error::Io { message, .. }) if message == "gone"));
    assert_eq!(split_name_tag("app:v2"), ("app", "v2"));
    assert_eq!(split_name_tag("app"), ("app", "latest"));
    assert_eq!(split_name_tag("localhost:5000/app"), ("localhost:5000/app", "latest"));
    assert_eq!(normalize_repository("app"), "library/app");
    assert_eq!(normalize_repository("me/app"), "me/app");
}

fn image() -> Image {
    Image {
        layers: vec![hash("l1"), hash("l2")],
        config: ImageConfig {
            env: vec![("A".to_string(), "1".to_string())],
            cmd: some("run"),
            workdir: "/w".to_string(),
            exposed_ports: vec![(80, "tcp".to_string())],
        },
    }
}

/// The lines that `serde_json` writes for the value of `text`, in no order.
fn serde_lines(text: &str) -> Vec<String> {
    let v: serde_json::Value = serde_json::from_str(text).unwrap();
    sorted_lines(&serde_json::to_string_pretty(&v).unwrap())
}

fn sorted_lines(text: &str) -> Vec<String> {
    let mut lines: Vec<String> = text.lines().map(|l| l.trim_end_matches(',').to_string()).collect();
    lines.sort();
    lines
}

fn value(text: &str) -> serde_json::Value {
    serde_json::from_str(text).unwrap()
}

#[test]
fn saved_images_are_laid_out_line_by_line() {
    let i = image();
    let text = i.file_text();
    let want = format!(
        "{{\n  \"layers\": [\n    \"{}\",\n    \"{}\"\n  ],\n  \"config\": {{\n    \"env\": [\n      [\n        \"A\",\n        \
         \"1\"\n      ]\n    ],\n    \"cmd\": \"run\",\n    \"workdir\": \"/w\",\n    \"exposed_ports\": [\n      [\n        80,\n        \
         \"tcp\"\n      ]\n    ]\n  }}\n}}",
        hash("l1").to_hex(),
        hash("l2").to_hex()
    );
    assert_eq!(text, want);
    assert_eq!(i.save(&store(), &vec![]).content, text.as_bytes());
    assert_eq!(sorted_lines(&text), serde_lines(&text));
    assert_eq!(value(&text), value(&i.to_json()));
    let bare = Image { layers: vec![], config: ImageConfig::default() };
    let want = "{\n  \"layers\": [],\n  \"config\": {\n    \"env\": [],\n    \"cmd\": null,\n    \"workdir\": \"\",\n    \
                \"exposed_ports\": []\n  }\n}";
    assert_eq!(bare.file_text(), want);
}

#[test]
fn saved_images_and_layers_are_told_apart() {
    let with = |env: Vec<(&str, &str)>, cmd: Option<String>, port: u16| Image {
        layers: vec![hash("l1")],
        config: ImageConfig {
            env: env.into_iter().map(|(k, v)| (k.to_string(), v.to_string())).collect(),
            cmd,
            workdir: String::new(),
            exposed_ports: vec![(port, "tcp".to_string())],
        },
    };
    let texts = [
        with(vec![("A", "B"), ("C", "D")], None, 80).file_text(),
        with(vec![("A", "B\",\"C"), ("", "D")], None, 80).file_text(),
        with(vec![("C", "D"), ("A", "B")], None, 80).file_text(),
        with(vec![], some("null"), 80).file_text(),
        with(vec![], None, 80).file_text(),
        with(vec![], None, 8).file_text(),
    ];
    let kinds = [
        EntryKind::Whiteout,
        EntryKind::Symlink { target: "Whiteout".to_string() },
        EntryKind::Dir { opaque: true },
        EntryKind::Dir { opaque: false },
        EntryKind::File { blob: hash("a"), size: 1 },
        EntryKind::File { blob: hash("a"), size: 11 },
    ];
    let layers: Vec<String> = kinds
        .into_iter()
        .map(|kind| LayerManifest { entries: vec![Entry { path: "p".to_string(), mode: 0, uid: 0, gid: 0, kind }] }.file_text())
        .collect();
    for all in [&texts[..], &layers[..]] {
        for (i, a) in all.iter().enumerate() {
            assert!(all.iter().enumerate().all(|(k, b)| (i == k) == (a == b)));
        }
    }
}

#[test]
fn saved_layers_are_laid_out_line_by_line() {
    let odd = "a \"quoted\"\n\u{1}name";
    let m = LayerManifest {
        entries: vec![
            file("bin/sh", "shell", 0o755, 7),
            Entry { path: odd.to_string(), mode: 0, uid: 0, gid: 1, kind: EntryKind::Whiteout },
            Entry { path: "d".to_string(), mode: 0o755, uid: 0, gid: 0, kind: EntryKind::Dir { opaque: true } },
            Entry { path: "l".to_string(), mode: 0o777, uid: 0, gid: 0, kind: EntryKind::Symlink { target: "d".to_string() } },
        ],
    };
    let text = m.file_text();
    assert_eq!(m.save(&store(), &vec![]).content, text.as_bytes());
    assert_eq!(sorted_lines(&text), serde_lines(&text));
    assert_eq!(value(&text), value(&m.to_json()));
    assert_eq!(value(&text)["entries"][1]["path"], odd);
    let one = LayerManifest {
        entries: vec![Entry { path: "d".to_string(), mode: 1, uid: 2, gid: 3, kind: EntryKind::Dir { opaque: false } }],
    };
    let want = "{\n  \"entries\": [\n    {\n      \"path\": \"d\",\n      \"mode\": 1,\n      \"uid\": 2,\n      \"gid\": 3,\n      \
                \"kind\": {\n        \"Dir\": {\n          \"opaque\": false\n        }\n      }\n    }\n  ]\n}";
    assert_eq!(one.file_text(), want);
    assert_eq!(LayerManifest { entries: vec![] }.file_text(), "{\n  \"entries\": []\n}");
}

#[test]
fn tagged_images_resolve_by_name_and_hash() {
    let s = store();
    let i = image();
    let saved = i.save(&s, &vec![]);
    assert!(saved.write);
    assert!(saved.id.same(&hash(&i.to_json())));
    let files = vec![saved.path.clone()];
    assert!(!i.save(&s, &files).write);
    let target = "127.0.0.1:5000/alice/hello:latest";
    assert!(Image::resolve(&s, target, &files, Err("none".to_string())).is_err());
    let w = tag_reference(&s, &saved.id, target);
    let mut files = files;
    files.push(w.path.clone());
    let text = String::from_utf8(w.content).unwrap();
    match Image::resolve(&s, target, &files, Ok(text)).unwrap() {
        Resolved::Stored(id) => assert!(id.same(&saved.id)),
        Resolved::Scratch(_) => panic!("the image is not empty"),
    }
    match Image::resolve(&s, &saved.id.to_hex(), &files, Err("none".to_string())).unwrap() {
        Resolved::Stored(id) => assert!(id.same(&saved.id)),
        Resolved::Scratch(_) => panic!("the image is not empty"),
    }
    assert!(matches!(Image::resolve(&s, "scratch", &vec![], Err("none".to_string())), Ok(Resolved::Scratch(_))));
    let order = i.lower_dirs_order();
    assert!(order[0].same(&hash("l2")) && order[1].same(&hash("l1")));
    assert!(Image::load(&saved.id, None).is_err());
}

#[test]
fn later_variables_win() {
    let mut c = image().config;
    c.env_set("A".to_string(), "2".to_string());
    c.env_set("B".to_string(), "3".to_string());
    assert_eq!(c.env_get("A"), Some("2"));
    assert_eq!(c.env_get("B"), Some("3"));
    assert_eq!(c.env_get("C"), None);
    let d = c.duplicate();
    assert_eq!(d.to_json(), c.to_json());
}

fn walked(path: &str, kind: WalkedKind) -> Walked {
    Walked {
        path: path.to_string(),
        full_path: format!("/up/{path}"),
        mode: 0o100644,
        uid: kiln::identity::SUBORDINATE_UID_BASE,
        gid: kiln::identity::SUBORDINATE_GID_BASE + 5,
        kind,
    }
}

#[test]
fn snapshots_record_what_changed() {
    let base = kiln::identity::SUBORDINATE_UID_BASE;
    let steps = vec![
        Ok(walked("z", WalkedKind::File { blob: hash("z"), size: 1 })),
        Ok(walked("gone", WalkedKind::CharDevice { device: 0, description: "char".to_string() })),
        Ok(walked("dir", WalkedKind::Dir { opaque: true })),
        Ok(walked("link", WalkedKind::Symlink { target: "z".to_string() })),
    ];
    let m = snapshot_dir(steps, base, base).unwrap();
    let paths: Vec<&str> = m.entries.iter().map(|e| e.path.as_str()).collect();
    assert_eq!(paths, vec!["dir", "gone", "link", "z"]);
    assert!(matches!(m.entries[0].kind, EntryKind::Dir { opaque: true }));
    assert!(matches!(m.entries[1].kind, EntryKind::Whiteout));
    assert_eq!((m.entries[3].mode, m.entries[3].uid, m.entries[3].gid), (0o644, 0, 5));
    let bad = vec![Ok(walked("s", WalkedKind::Other { description: "socket".to_string() }))];
    assert!(snapshot_dir(bad, base, base).is_err());
    assert_eq!(path_to_entry_string("a\\b"), "a/b");
}

#[test]
fn a_snapshot_of_a_laid_out_layer_is_that_layer() {
    let (m, _) = small_layer();
    let ids = kiln::identity::SUBORDINATE_UID_BASE;
    let mut found: Vec<Result<Walked, Error>> = Vec::new();
    for step in materialize(&m, "/dest", ids, ids) {
        let (path, mode, uid, gid, kind) = match step {
            MakeStep::EnsureDir { .. } | MakeStep::EnsureParent { .. } => continue,
            MakeStep::Clear { .. } | MakeStep::Mark { .. } => panic!("only a cached layer is cleared and marked"),
            MakeStep::Dir { path, mode, uid, gid, opaque } => (path, mode, uid, gid, WalkedKind::Dir { opaque }),
            MakeStep::Place { blob, path, mode, uid, gid } => {
                (path, mode, uid, gid, WalkedKind::File { blob, size: 7 })
            }
            MakeStep::Symlink { target, path } => (path, 0o777, 0, 0, WalkedKind::Symlink { target }),
            MakeStep::Whiteout { path } => {
                (path, 0, 0, 0, WalkedKind::CharDevice { device: 0, description: "char".to_string() })
            }
        };
        let inside = path.strip_prefix("/dest/").unwrap().to_string();
        found.push(Ok(Walked { path: inside, full_path: path, mode, uid, gid, kind }));
    }
    found.reverse();
    assert_eq!(snapshot_dir(found, ids, ids).unwrap().id(), m.id());
}

#[test]
fn layers_are_laid_out_and_cached() {
    let s = store();
    let m = LayerManifest {
        entries: vec![
            file("bin/sh", "shell", 0o755, 0),
            Entry { path: "gone".to_string(), mode: 0, uid: 0, gid: 0, kind: EntryKind::Whiteout },
        ],
    };
    let steps = materialize(&m, "/dest", 100, 200);
    assert!(steps.iter().any(|x| matches!(x, MakeStep::Place { path, uid: 100, gid: 200, mode: 0o755, .. } if path == "/dest/bin/sh")));
    assert!(steps.iter().any(|x| matches!(x, MakeStep::Whiteout { path } if path == "/dest/gone")));
    let id = m.id();
    let copy = || LayerManifest { entries: vec![file("bin/sh", "shell", 0o755, 0)] };
    let marker = completion_marker(&s, &id);
    assert_eq!(marker, format!("/s/layers/{}/.kiln-complete", id.to_hex()));
    let c = materialize_cached(&s, &id, &vec![], Some(Ok(copy())), 100, 200).unwrap();
    assert!(matches!(&c.steps[0], MakeStep::Clear { path } if *path == c.dest));
    assert!(matches!(c.steps.last(), Some(MakeStep::Mark { path }) if *path == marker));
    assert_eq!(c.steps.len(), materialize(&copy(), &c.dest, 100, 200).len() + 2);
    let done = materialize_cached(&s, &id, &vec![marker], None, 100, 200).unwrap();
    assert!(done.steps.is_empty());
    assert_eq!(done.dest, c.dest);
    assert!(matches!(materialize_cached(&s, &id, &vec![], None, 100, 200), Err(Error::LayerNotFound(_))));
    assert!(m.save(&s, &vec![]).write);
    assert!(LayerManifest::load(&m.id(), None).is_err());
    let sorted = sort_entries(vec![file("b", "1", 0, 0), file("a", "1", 0, 0)]);
    assert_eq!(sorted[0].path, "a");
    let chain: Vec<String> = ["/a/b/c", "/a/b", "/a"].iter().map(|s| s.to_string()).collect();
    assert_eq!(create_dir_all_owned(&chain, &vec!["/a".to_string()]), vec!["/a/b", "/a/b/c"]);
}

fn small_layer() -> (LayerManifest, Vec<Result<Vec<u8>, Error>>) {
    let m = LayerManifest {
        entries: vec![
            Entry { path: "dir".to_string(), mode: 0o755, uid: 0, gid: 0, kind: EntryKind::Dir { opaque: false } },
            file("dir/f", "content", 0o644, 7),
            Entry { path: "gone".to_string(), mode: 0, uid: 0, gid: 0, kind: EntryKind::Whiteout },
            Entry {
                path: "link".to_string(),
                mode: 0o777,
                uid: 0,
                gid: 0,
                kind: EntryKind::Symlink { target: "dir/f".to_string() },
            },
            Entry { path: "new".to_string(), mode: 0o700, uid: 1, gid: 2, kind: EntryKind::Dir { opaque: true } },
        ],
    };
    (m, vec![Ok(b"content".to_vec())])
}

#[test]
fn layers_survive_the_archive() {
    let (m, contents) = small_layer();
    assert_eq!(blobs_to_pack(&m).len(), 1);
    let blob = pack_layer_tar_gz(&m, contents).unwrap();
    let back = pull_layer(&blob, &content_digest(&blob), "/tmp/x").unwrap();
    assert_eq!(back.manifest.to_json(), m.to_json());
    assert_eq!(back.manifest.id(), m.id());
    assert!(back.contents.iter().any(|c| c == b"content"));
}

#[test]
fn archives_are_ordinary_ones() {
    let (m, contents) = small_layer();
    let blob = pack_layer_tar_gz(&m, contents).unwrap();
    let mut raw = Vec::new();
    flate2::read::GzDecoder::new(&blob[..]).read_to_end(&mut raw).unwrap();
    let mut ar = tar::Archive::new(&raw[..]);
    let mut names: Vec<String> = Vec::new();
    for e in ar.entries().unwrap() {
        names.push(e.unwrap().path().unwrap().to_string_lossy().into_owned());
    }
    assert!(names.contains(&".wh.gone".to_string()), "{names:?}");
    assert!(names.contains(&"new/.wh..wh..opq".to_string()), "{names:?}");
    assert!(names.contains(&"dir/f".to_string()));
    assert_eq!(split_path("a/b/c"), ("a/b".to_string(), "c".to_string()));
}

#[test]
fn hard_links_and_broken_archives_are_read() {
    let gz = flate2::write::GzEncoder::new(Vec::new(), flate2::Compression::default());
    let mut b = tar::Builder::new(gz);
    let mut h = tar::Header::new_gnu();
    h.set_size(3);
    h.set_mode(0o600);
    b.append_data(&mut h, "one", &b"abc"[..]).unwrap();
    let mut l = tar::Header::new_gnu();
    l.set_entry_type(tar::EntryType::Link);
    l.set_size(0);
    b.append_link(&mut l, "two", "one").unwrap();
    let blob = b.into_inner().unwrap().finish().unwrap();
    let u = pull_layer(&blob, &content_digest(&blob), "/tmp/x").unwrap();
    assert_eq!(u.manifest.entries.len(), 2);
    assert!(matches!(&u.manifest.entries[1].kind, EntryKind::File { blob, size: 3 } if blob.same(&hash("abc"))));
    let broken = b"not an archive";
    match pull_layer(broken, &content_digest(broken), "/tmp/x") {
        Err(Error::Registry(m)) => assert!(!m.starts_with("digest mismatch"), "{m}"),
        _ => panic!("that is no archive"),
    }
    let other = content_digest(b"other");
    match pull_layer(&blob, &other, "/tmp/x") {
        Err(Error::Registry(m)) => assert!(m.starts_with(&format!("digest mismatch for {other}")), "{m}"),
        _ => panic!("the bytes are not what the digest promises"),
    }
    assert!(matches!(pull_layer(&blob, "md5:x", "/tmp/x"), Err(Error::Registry(m)) if m.contains("only sha256")));
}

#[test]
fn references_name_their_registry() {
    let r = Reference::parse("busybox");
    assert_eq!((r.host, r.repository.as_str(), r.tag.as_str()), (None, "library/busybox", "latest"));
    let r = Reference::parse("localhost:5555/echo:v1");
    assert_eq!((r.host.as_deref(), r.repository.as_str(), r.tag.as_str()), (Some("localhost:5555"), "echo", "v1"));
    assert_eq!(r.base_url(), "http://localhost:5555");
    let hub = Reference::parse("me/app:v1");
    assert_eq!(hub.base_url(), "https://registry-1.docker.io");
    match get_token(&hub) {
        TokenStep::Request(t) => assert!(t.url.contains("scope=repository:me/app:pull")),
        TokenStep::Ping(_) => panic!("the hub needs no ping"),
    }
    assert_eq!(with_auth(&some("t")), some("Bearer t"));
    assert_eq!(with_auth(&None), None);
    assert_eq!(manifest_url("http://h", "a/b", "v1"), "http://h/v2/a/b/manifests/v1");
    assert_eq!(blob_url("http://h", "a/b", "sha256:1"), "http://h/v2/a/b/blobs/sha256:1");
    assert_eq!(upload_start_url("http://h", "a/b"), "http://h/v2/a/b/blobs/uploads/");
    assert_eq!(upload_url("http://h", &some("/u/1"), "sha256:1").unwrap(), "http://h/u/1?digest=sha256:1");
    assert_eq!(upload_url("http://h", &some("http://x/u?s=1"), "sha256:1").unwrap(), "http://x/u?s=1&digest=sha256:1");
    assert!(upload_url("http://h", &None, "sha256:1").is_err());
}

#[test]
fn platforms_are_selected() {
    let e = |d: &str, a: &str, o: &str| ManifestListEntry {
        digest: d.to_string(),
        architecture: a.to_string(),
        os: o.to_string(),
    };
    let v = vec![e("1", "arm64", "linux"), e("2", "amd64", "windows"), e("3", "amd64", "linux"), e("4", "amd64", "linux")];
    assert_eq!(select_platform(&v, "r", "t").unwrap(), "3");
    assert!(select_platform(&vec![e("1", "arm64", "linux")], "r", "t").is_err());
    assert!(is_manifest_list("application/vnd.docker.distribution.manifest.list.v2+json"));
    assert!(is_manifest_list("application/vnd.oci.image.index.v1+json"));
    assert!(!is_manifest_list("application/vnd.oci.image.manifest.v1+json"));
}

#[test]
fn configurations_are_converted_both_ways() {
    let c = ContainerConfig {
        env: vec!["A=1".to_string(), "odd".to_string(), "B=x=y".to_string()],
        cmd: Some(vec!["sh".to_string(), "-c".to_string(), "x".to_string()]),
        working_dir: some("/w"),
        exposed_ports: vec!["80/tcp".to_string(), "53/udp".to_string()],
    };
    let k = convert_config(&c);
    assert_eq!(k.env_get("A"), Some("1"));
    assert_eq!(k.env_get("B"), Some("x=y"));
    assert_eq!(k.workdir, "/w");
    assert_eq!(k.cmd, some("sh -c x"));
    assert_eq!(k.exposed_ports.len(), 2);
    let v: serde_json::Value = serde_json::from_slice(&build_oci_config_json(&k)).unwrap();
    assert_eq!(v["config"]["WorkingDir"], "/w");
    assert!(v["config"]["Env"].as_array().unwrap().iter().any(|e| e == "A=1"));
}

#[test]
fn pulling_gives_back_what_was_pushed() {
    for workdir in ["/srv", ""] {
        let mut config = ImageConfig::default();
        config.env_set("A".to_string(), "x=y".to_string());
        config.cmd = some("echo  hi && true");
        config.workdir = workdir.to_string();
        config.exposed_ports = vec![(80, "tcp".to_string()), (53, "udp".to_string())];
        let v: serde_json::Value = serde_json::from_slice(&build_oci_config_json(&config)).unwrap();
        let c = &v["config"];
        let texts = |v: &serde_json::Value| -> Vec<String> {
            v.as_array().unwrap().iter().map(|t| t.as_str().unwrap().to_string()).collect()
        };
        let back = convert_config(&ContainerConfig {
            env: texts(&c["Env"]),
            cmd: Some(texts(&c["Cmd"])),
            working_dir: c["WorkingDir"].as_str().map(|s| s.to_string()),
            exposed_ports: c["ExposedPorts"].as_object().unwrap().keys().cloned().collect(),
        });
        assert_eq!(back.env, config.env);
        assert_eq!(back.cmd, config.cmd);
        assert_eq!(back.workdir, if workdir.is_empty() { "/" } else { workdir });
        assert_eq!(back.exposed_ports.len(), 2);
        assert!(config.exposed_ports.iter().all(|p| back.exposed_ports.contains(p)));
    }
    let bare = ContainerConfig { env: vec![], cmd: None, working_dir: None, exposed_ports: vec![] };
    assert_eq!(convert_config(&bare).workdir, "/");
    let empty = ContainerConfig { env: vec![], cmd: None, working_dir: some(""), exposed_ports: vec![] };
    assert_eq!(convert_config(&empty).workdir, "/");
}

#[test]
fn pushes_describe_what_is_uploaded() {
    let i = image();
    let layers = vec![b"layer one".to_vec(), b"layer two".to_vec()];
    let p = push(&Reference::parse("h.example/a/b:v1"), &i.config, &layers);
    assert_eq!(p.layers.len(), 2);
    assert_eq!(p.layers[0].digest, content_digest(b"layer one"));
    assert_eq!(p.layers[1].size, 9);
    assert_eq!(p.config.digest, content_digest(&p.config_data));
    assert_eq!(p.manifest_url, "http://h.example/v2/a/b/manifests/v1");
    let v: serde_json::Value = serde_json::from_slice(&p.manifest).unwrap();
    assert_eq!(v["layers"][1]["digest"], p.layers[1].digest);
    assert_eq!(v["config"]["digest"], p.config.digest);
    assert_eq!(v["schemaVersion"], 2);
    let d = OciDescriptor::of("t", &b"x".to_vec());
    let text = oci_manifest(&d, &vec![]);
    assert!(text.contains(&d.digest));
}

#[test]
fn pulls_tag_the_image_by_its_name() {
    let s = store();
    let c = ContainerConfig { env: vec![], cmd: None, working_dir: None, exposed_ports: vec![] };
    let p = pull(&s, &Reference::parse("busybox"), &c, vec![hash("l")], &vec![]);
    assert_eq!(p.image.layers.len(), 1);
    assert!(p.save.write);
    assert_eq!(p.tag.path, s.tag_path("library/busybox", "latest"));
}
