use kiln::error::Error;
use kiln::registry::{
    content_digest, fetch_blob_bytes, fetch_manifest, key_url, push_blob, sign_manifest, signature_url, verify_signature,
    ManifestAction, ManifestEvent, ManifestListEntry, Reference, UploadAction, UploadEvent,
};
use kiln::signing::{generate_and_save, sign};

fn text(s: &str) -> String {
    s.to_string()
}

fn message(e: Error) -> String {
    match e {
        Error::Registry(m) => m,
        _ => panic!("another kind of error"),
    }
}

fn manifest(event: ManifestEvent) -> ManifestAction {
    fetch_manifest("library/busybox", "latest", event)
}

fn failed(a: ManifestAction) -> String {
    match a {
        ManifestAction::Fail(e) => message(e),
        _ => panic!("no failure"),
    }
}

#[test]
fn lists_lead_on_to_a_manifest() {
    let list = "application/vnd.oci.image.index.v1+json";
    assert!(matches!(manifest(ManifestEvent::Replied(text(list))), ManifestAction::ReadList));
    let single = "application/vnd.oci.image.manifest.v1+json";
    assert!(matches!(manifest(ManifestEvent::Replied(text(single))), ManifestAction::ReadManifest));
    let entry = |digest: &str, architecture: &str| ManifestListEntry {
        digest: text(digest),
        architecture: text(architecture),
        os: text("linux"),
    };
    let entries = vec![entry("a", "arm64"), entry("b", "amd64")];
    assert!(matches!(manifest(ManifestEvent::Listed(entries)), ManifestAction::Fetch(d) if d == "b"));
    let none = manifest(ManifestEvent::Listed(vec![entry("a", "arm64")]));
    assert_eq!(failed(none), "no linux/amd64 entry for library/busybox:latest");
}

#[test]
fn manifest_failures_are_told_apart() {
    assert_eq!(failed(manifest(ManifestEvent::Failed(text("x")))), "fetching manifest library/busybox:latest: x");
    assert_eq!(failed(manifest(ManifestEvent::Unread(text("x")))), "reading manifest body: x");
    assert_eq!(failed(manifest(ManifestEvent::NoList(text("x")))), "parsing manifest list: x");
    assert_eq!(failed(manifest(ManifestEvent::NoManifest(text("x")))), "parsing manifest: x");
}

#[test]
fn fetched_blobs_are_checked() {
    let digest = content_digest(b"abc");
    assert_eq!(fetch_blob_bytes(&digest, Ok(Ok(b"abc".to_vec()))).unwrap(), b"abc");
    let m = message(fetch_blob_bytes(&digest, Ok(Ok(b"abd".to_vec()))).unwrap_err());
    assert!(m.starts_with(&format!("digest mismatch for {digest}: ")), "{m}");
    let m = message(fetch_blob_bytes("md5:1", Ok(Ok(b"abc".to_vec()))).unwrap_err());
    assert_eq!(m, "unsupported digest algorithm in \"md5:1\" (only sha256 is supported)");
    assert_eq!(message(fetch_blob_bytes("d", Ok(Err(text("x")))).unwrap_err()), "reading blob d: x");
    assert_eq!(message(fetch_blob_bytes("d", Err(text("x"))).unwrap_err()), "fetching blob d: x");
}

fn upload(event: UploadEvent) -> UploadAction {
    push_blob("http://h", "me/app", "sha256:1", event)
}

fn ended(a: UploadAction) -> String {
    match a {
        UploadAction::Done(Err(e)) => message(e),
        _ => panic!("no failure"),
    }
}

#[test]
fn blobs_are_uploaded_once() {
    assert!(matches!(upload(UploadEvent::Begin), UploadAction::Probe(u) if u == "http://h/v2/me/app/blobs/sha256:1"));
    assert!(matches!(upload(UploadEvent::Probed(true)), UploadAction::Done(Ok(()))));
    let start = upload(UploadEvent::Probed(false));
    assert!(matches!(start, UploadAction::Start(u) if u == "http://h/v2/me/app/blobs/uploads/"));
    let send = upload(UploadEvent::Started(Ok(Some(text("/v2/me/app/blobs/uploads/7")))));
    assert!(matches!(send, UploadAction::Send(u) if u == "http://h/v2/me/app/blobs/uploads/7?digest=sha256:1"));
    assert!(matches!(upload(UploadEvent::Sent(Ok(()))), UploadAction::Done(Ok(()))));
    assert_eq!(ended(upload(UploadEvent::Started(Err(text("x"))))), "starting blob upload for sha256:1: x");
    assert_eq!(ended(upload(UploadEvent::Started(Ok(None)))), "registry did not return an upload Location");
    assert_eq!(ended(upload(UploadEvent::Sent(Err(text("x"))))), "uploading blob sha256:1: x");
}

#[test]
fn only_signed_manifests_are_pulled_by_default() {
    let reference = Reference::parse("127.0.0.1:5000/alice/hello:v1");
    let hub = Reference::parse("busybox:latest");
    let pair = generate_and_save(&None);
    let key = Ok(pair.key.public_key_hex());
    let signature = Ok(sign(&pair.key, b"manifest"));
    let missing = Err(text("none"));
    assert!(verify_signature(&reference, false, b"manifest", &key, &signature).unwrap());
    let m = message(verify_signature(&reference, false, b"changed", &key, &signature).unwrap_err());
    assert!(m.starts_with("verifying alice/hello:v1: signature verification failed"), "{m}");
    let m = message(verify_signature(&reference, false, b"manifest", &missing, &signature).unwrap_err());
    assert_eq!(m, "fetching public key for alice/hello: none");
    let m = message(verify_signature(&reference, false, b"manifest", &key, &missing).unwrap_err());
    assert_eq!(m, "fetching signature for alice/hello:v1: none");
    assert!(!verify_signature(&reference, true, b"manifest", &missing, &missing).unwrap());
    assert!(!verify_signature(&hub, false, b"manifest", &missing, &missing).unwrap());
    assert_eq!(
        signature_url("http://h", "alice/hello", "v1"),
        "http://h/v2/alice/hello/manifests/v1/signature"
    );
    assert_eq!(key_url("http://h", "alice/hello"), "http://h/users/alice/pubkey");
    assert_eq!(key_url("http://h", "hello"), "http://h/users/hello/pubkey");
    let file = String::from_utf8(sign_manifest(&pair.key, b"manifest")).unwrap();
    assert_eq!(file, format!("{{\"algorithm\":\"ed25519\",\"signature\":\"{}\"}}", sign(&pair.key, b"manifest")));
}
