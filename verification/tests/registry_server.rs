use kiln::audit::{log, select, Entry, Filter};
use kiln::base64;
use kiln::http::{Request, Response};
use kiln::registry::{get_explicit_host_token, get_push_token, parse_bearer_challenge, Ping, Reference, TokenStep};
use kiln::registry_auth::{hash_password, random_id, random_token, verify_password, TokenStore, TOKEN_TTL};
use kiln::registry_gc::{collect_garbage, orphans, report, ManifestDigests, StoredBlob};
use kiln::registry_handlers::{
    basic_auth, key_reply, parse_scope, ping, probe_reply, push_allowed, read_reply, route, token_reply, upload_reply,
    write_reply, Handled, Outcome,
};
use kiln::registry_server::{default_data_dir, default_port, tls_files};
use kiln::registry_store::{add_user, is_manifest, RegistryStore, Role, User};
use kiln::tls::{load_server_config, KeyKind};

fn store() -> RegistryStore {
    RegistryStore::open("/data".to_string()).0
}

fn account(users: &mut Vec<User>, name: &str, password: &str, role: Option<Role>) {
    add_user(users, name, hash_password(password), role);
}

fn request(line: &str, headers: &[(&str, String)]) -> Request {
    let lines: Vec<String> = headers.iter().map(|(n, v)| format!("{n}: {v}\r\n")).collect();
    Request::read_from(line, &lines)
}

fn basic(user: &str, password: &str) -> String {
    format!("Basic {}", base64::encode(format!("{user}:{password}").as_bytes()))
}

fn status(h: &Handled) -> u16 {
    match &h.outcome {
        Outcome::Reply(r) => r.status,
        Outcome::Grant { .. } => 200,
        _ => 0,
    }
}

fn token_request(users: &Vec<User>, repository: &str, actions: &str, creds: Option<(&str, &str)>) -> Handled {
    let line = format!("GET /token?service=test&scope=repository:{repository}:{actions} HTTP/1.1\r\n");
    let headers: Vec<(&str, String)> = match creds {
        Some((u, p)) => vec![("Authorization", basic(u, p))],
        None => vec![],
    };
    route(&store(), users, &TokenStore::new(), &request(&line, &headers), 0)
}

fn token_status(users: &Vec<User>, repository: &str, actions: &str, creds: Option<(&str, &str)>) -> u16 {
    status(&token_request(users, repository, actions, creds))
}

#[test]
fn role_model_gates_push_and_pull_as_designed() {
    let mut users: Vec<User> = Vec::new();
    account(&mut users, "alice", "alicepass", None);
    account(&mut users, "bob", "bobpass", Some(Role::Pull));
    account(&mut users, "root", "rootpass", Some(Role::Admin));

    assert_eq!(token_status(&users, "alice/app", "pull", None), 401, "anonymous pull should now be rejected");

    assert_eq!(token_status(&users, "alice/app", "pull", Some(("alice", "alicepass"))), 200);
    assert_eq!(token_status(&users, "alice/app", "push", Some(("alice", "alicepass"))), 200);
    assert_eq!(token_status(&users, "bob/app", "push", Some(("alice", "alicepass"))), 403);

    assert_eq!(token_status(&users, "alice/app", "pull", Some(("bob", "bobpass"))), 200);
    assert_eq!(token_status(&users, "bob/app", "push", Some(("bob", "bobpass"))), 403);

    assert_eq!(token_status(&users, "alice/app", "push", Some(("root", "rootpass"))), 200);
    assert_eq!(token_status(&users, "bob/app", "push", Some(("root", "rootpass"))), 200);

    assert_eq!(token_status(&users, "alice/app", "pull", Some(("alice", "wrongpass"))), 401);
}

#[test]
fn refused_tokens_say_what_they_were_for() {
    let mut users: Vec<User> = Vec::new();
    account(&mut users, "alice", "alicepass", None);
    for creds in [None, Some(("alice", "wrongpass")), Some(("nobody", "alicepass"))] {
        for (actions, want) in [
            ("push", "authentication required for push"),
            ("pull,push", "authentication required for push"),
            ("pull", "authentication required"),
        ] {
            let handled = token_request(&users, "alice/app", actions, creds);
            assert!(matches!(&handled.outcome, Outcome::Reply(r) if r.status == 401 && r.body == want.as_bytes()));
        }
    }
}

#[test]
fn accounts_are_saved_line_by_line() {
    let s = store();
    let user = |name: &str, key: Option<&str>, role: Role| User {
        username: name.to_string(),
        password_hash: "$argon2$x".to_string(),
        public_key: key.map(|k| k.to_string()),
        role,
    };
    let write = s.save_users(&vec![user("alice", None, Role::Push), user("b\"ob", Some("aa"), Role::Admin)]);
    assert_eq!(write.path, s.users_path());
    let want = "[\n  {\n    \"username\": \"alice\",\n    \"password_hash\": \"$argon2$x\",\n    \"public_key\": null,\n    \
                \"role\": \"push\"\n  },\n  {\n    \"username\": \"b\\\"ob\",\n    \"password_hash\": \"$argon2$x\",\n    \
                \"public_key\": \"aa\",\n    \"role\": \"admin\"\n  }\n]";
    assert_eq!(String::from_utf8(write.content).unwrap(), want);
    assert_eq!(s.save_users(&vec![]).content, b"[]");
    assert!(s.load_users(None).is_empty());
    assert_eq!(s.load_users(Some(vec![user("alice", None, Role::Pull)]))[0].username, "alice");
}

#[test]
fn set_role_changes_an_existing_account_without_touching_its_password() {
    let mut users: Vec<User> = Vec::new();
    account(&mut users, "carol", "carolpass", Some(Role::Pull));
    assert!(store().set_role(&mut users, "carol", Role::Push).is_ok());
    assert_eq!(token_status(&users, "carol/app", "pull", Some(("carol", "carolpass"))), 200);
    assert_eq!(token_status(&users, "carol/app", "push", Some(("carol", "carolpass"))), 200);
    assert!(store().set_role(&mut users, "dave", Role::Push).is_err());
}

#[test]
fn a_second_add_resets_the_password_and_keeps_the_role() {
    let mut users: Vec<User> = Vec::new();
    account(&mut users, "ann", "one", Some(Role::Admin));
    account(&mut users, "ann", "two", None);
    assert_eq!(users.len(), 1);
    assert!(matches!(users[0].role, Role::Admin));
    assert!(verify_password("two", &users[0].password_hash));
    assert!(!verify_password("one", &users[0].password_hash));
    account(&mut users, "ann", "three", Some(Role::Pull));
    assert!(matches!(users[0].role, Role::Pull));
    assert!(!verify_password("three", "not a hash"));
}

/// Serves one request against files kept in memory, as the server does on disk.
struct Registry {
    store: RegistryStore,
    users: Vec<User>,
    tokens: TokenStore,
    files: std::collections::HashMap<String, Vec<u8>>,
    audit: Vec<Entry>,
}

impl Registry {
    fn serve(&mut self, req: Request, now: u64) -> Response {
        let h = route(&self.store, &self.users, &self.tokens, &req, now);
        if let Some(n) = h.note {
            self.audit.push(Entry {
                ts: now,
                username: n.username,
                action: n.action,
                resource: n.resource,
                allowed: n.allowed,
            });
        }
        match h.outcome {
            Outcome::Reply(r) => r,
            Outcome::Probe { path } => probe_reply(self.files.contains_key(&path)),
            Outcome::ReadFile { path, content_type, missing } => {
                read_reply(&content_type, &missing, self.files.get(&path).cloned())
            }
            Outcome::WriteFile { file, what } => {
                self.files.insert(file.path, file.content);
                write_reply(&what, &Ok(()))
            }
            Outcome::Grant { username, repository, actions } => {
                let token = self.tokens.issue(&username, &repository, actions, now);
                token_reply(&token)
            }
            Outcome::StartUpload { repository } => upload_reply(&repository, &random_id()),
            Outcome::SetKey { username } => {
                let key = String::from_utf8(req.body).unwrap();
                let saved = self.store.set_public_key(&mut self.users, &username, &key);
                assert!(saved);
                key_reply(&Ok(key), &Ok(()))
            }
        }
    }
}

fn registry() -> Registry {
    Registry {
        store: store(),
        users: Vec::new(),
        tokens: TokenStore::new(),
        files: std::collections::HashMap::new(),
        audit: Vec::new(),
    }
}

fn text(r: &Response) -> String {
    String::from_utf8(r.body.clone()).unwrap()
}

fn token(r: &mut Registry, user: &str, password: &str, repository: &str, actions: &str) -> Option<String> {
    let line = format!("GET /token?scope=repository:{repository}:{actions} HTTP/1.1\r\n");
    let reply = r.serve(request(&line, &[("Authorization", basic(user, password))]), 0);
    if reply.status != 200 {
        return None;
    }
    let body = text(&reply);
    let value: std::collections::HashMap<String, String> = serde_json::from_str(&body).unwrap();
    value.get("token").cloned()
}

fn bearer(token: &str) -> (&'static str, String) {
    ("Authorization", format!("Bearer {token}"))
}

fn push_blob(r: &mut Registry, token: &str, repository: &str, data: &[u8]) -> String {
    let digest = kiln::registry::content_digest(data);
    let start = r.serve(request(&format!("POST /v2/{repository}/blobs/uploads/ HTTP/1.1\r\n"), &[bearer(token)]), 0);
    assert_eq!(start.status, 202);
    let location = start.headers.iter().find(|(n, _)| n == "Location").unwrap().1.clone();
    let put = request(&format!("PUT {location}?digest={digest} HTTP/1.1\r\n"), &[bearer(token)]).with_body(data.to_vec());
    assert_eq!(r.serve(put, 0).status, 201);
    digest
}

#[test]
fn gc_removes_only_blobs_no_manifest_references() {
    let mut r = registry();
    account(&mut r.users, "gcuser", "gcpass", None);
    let repo = "gcuser/img";
    let t = token(&mut r, "gcuser", "gcpass", repo, "pull,push").unwrap();
    let config_digest = push_blob(&mut r, &t, repo, b"config-blob");
    let layer_digest = push_blob(&mut r, &t, repo, b"layer-blob");
    let orphan_digest = push_blob(&mut r, &t, repo, b"orphan-blob");
    let manifest = format!("{{\"config\":{{\"digest\":\"{config_digest}\"}},\"layers\":[{{\"digest\":\"{layer_digest}\"}}]}}");
    let put = request("PUT /v2/gcuser/img/manifests/v1 HTTP/1.1\r\n", &[bearer(&t)]).with_body(manifest.into_bytes());
    assert_eq!(r.serve(put, 0).status, 201);

    let manifests =
        vec![ManifestDigests { config: Some(config_digest.clone()), layers: vec![layer_digest.clone()] }];
    let hex = |d: &str| d.strip_prefix("sha256:").unwrap().to_string();
    let blobs = vec![
        StoredBlob { hex: hex(&config_digest), size: Some(11) },
        StoredBlob { hex: hex(&layer_digest), size: Some(10) },
        StoredBlob { hex: hex(&orphan_digest), size: Some(11) },
    ];
    let which = orphans(&manifests, &blobs);
    assert_eq!(which, vec![2]);
    let dry = collect_garbage(&blobs, &which, true, &vec![false]);
    assert!(report(&dry, true, "11 B").contains("would remove 1 blob"));
    let real = collect_garbage(&blobs, &which, false, &vec![true]);
    assert!(report(&real, false, "11 B").contains("removed 1 blob"));
    assert_eq!(real.bytes_freed, 11);
    let kept = collect_garbage(&blobs, &which, false, &vec![false]);
    assert_eq!(kept.blobs_removed, 0);
    assert!(report(&kept, false, "0 B").contains("removed 0 blobs"));
}

#[test]
fn audit_records_a_push_a_pull_and_a_deliberate_rbac_refusal() {
    let mut r = registry();
    account(&mut r.users, "alice", "alicepass", Some(Role::Push));
    account(&mut r.users, "bob", "bobpass", Some(Role::Pull));
    let t = token(&mut r, "alice", "alicepass", "alice/hello", "pull,push").unwrap();
    let put = request("PUT /v2/alice/hello/manifests/latest HTTP/1.1\r\n", &[bearer(&t)]).with_body(b"{}".to_vec());
    assert_eq!(r.serve(put, 0).status, 201);
    let t = token(&mut r, "bob", "bobpass", "alice/hello", "pull").unwrap();
    let got = r.serve(request("GET /v2/alice/hello/manifests/latest HTTP/1.1\r\n", &[bearer(&t)]), 0);
    assert_eq!(got.status, 200);
    assert_eq!(got.body, b"{}");
    assert!(token(&mut r, "bob", "bobpass", "alice/hello2", "pull,push").is_none());

    let entry = |user: &str, action: &str, allowed: bool, resource: &str| {
        r.audit
            .iter()
            .any(|e| e.username == user && e.action.contains(action) && e.allowed == allowed && e.resource.contains(resource))
    };
    assert!(entry("alice", "push", true, "alice/hello:latest"));
    assert!(entry("bob", "pull", true, "alice/hello:latest"));
    assert!(entry("bob", "push", false, "alice/hello2"));

    let copy = |e: &Entry| Entry {
        ts: e.ts,
        username: e.username.clone(),
        action: e.action.clone(),
        resource: e.resource.clone(),
        allowed: e.allowed,
    };
    let alice = Filter { user: Some("alice".to_string()), action: None, denied_only: false };
    let only = select(&alice, r.audit.iter().map(copy).collect());
    assert!(!only.is_empty() && only.iter().all(|e| e.username == "alice"));
    let denied = Filter { user: None, action: None, denied_only: true };
    let only = select(&denied, r.audit.iter().map(copy).collect());
    assert!(!only.is_empty() && only.iter().all(|e| !e.allowed));
    let pulls = Filter { user: None, action: Some("pull".to_string()), denied_only: false };
    assert!(select(&pulls, r.audit.iter().map(copy).collect()).iter().all(|e| e.action == "pull"));
}

#[test]
fn no_credentials_are_recorded() {
    let mut r = registry();
    account(&mut r.users, "alice", "alicepass", None);
    let t = token(&mut r, "alice", "alicepass", "alice/app", "pull,push").unwrap();
    let put = request("PUT /v2/alice/app/manifests/latest HTTP/1.1\r\n", &[bearer(&t)]).with_body(b"{}".to_vec());
    assert_eq!(r.serve(put, 0).status, 201);
    assert!(token(&mut r, "alice", "alicepass", "bob/app", "push").is_none());
    let secrets = ["alicepass".to_string(), base64::encode(b"alice:alicepass"), t];
    assert!(r.audit.len() >= 2);
    for e in &r.audit {
        let line = String::from_utf8(log(e)).unwrap();
        assert!(secrets.iter().all(|s| !line.contains(s.as_str())));
    }
}

#[test]
fn audit_lines_are_json() {
    let e = Entry {
        ts: 5,
        username: "a\"b".to_string(),
        action: "push".to_string(),
        resource: "a/b".to_string(),
        allowed: false,
    };
    let line = String::from_utf8(log(&e)).unwrap();
    assert!(line.ends_with('\n'));
    let v: serde_json::Value = serde_json::from_str(line.trim()).unwrap();
    assert_eq!(v["username"], "a\"b");
    assert_eq!(v["ts"], 5);
    assert_eq!(v["allowed"], false);
}

#[test]
fn uploads_must_be_what_they_are_called() {
    let mut r = registry();
    account(&mut r.users, "u", "p", None);
    let t = token(&mut r, "u", "p", "u/i", "pull,push").unwrap();
    let wrong = kiln::registry::content_digest(b"other");
    let put = request(&format!("PUT /v2/u/i/blobs/uploads/x?digest={wrong} HTTP/1.1\r\n"), &[bearer(&t)])
        .with_body(b"data".to_vec());
    assert_eq!(r.serve(put, 0).status, 400);
    let put = request("PUT /v2/u/i/blobs/uploads/x HTTP/1.1\r\n", &[bearer(&t)]).with_body(b"data".to_vec());
    assert_eq!(r.serve(put, 0).status, 400);
    assert!(r.files.is_empty());
}

#[test]
fn blobs_come_back_as_they_were_pushed() {
    let mut r = registry();
    account(&mut r.users, "u", "p", None);
    let t = token(&mut r, "u", "p", "u/i", "pull,push").unwrap();
    let digest = push_blob(&mut r, &t, "u/i", b"some bytes");
    let got = r.serve(request(&format!("GET /v2/u/i/blobs/{digest} HTTP/1.1\r\n"), &[bearer(&t)]), 0);
    assert_eq!(got.status, 200);
    assert_eq!(got.body, b"some bytes");
    let head = r.serve(request(&format!("HEAD /v2/u/i/blobs/{digest} HTTP/1.1\r\n"), &[bearer(&t)]), 0);
    assert_eq!(head.status, 200);
    let missing = kiln::registry::content_digest(b"never pushed");
    let head = r.serve(request(&format!("HEAD /v2/u/i/blobs/{missing} HTTP/1.1\r\n"), &[bearer(&t)]), 0);
    assert_eq!(head.status, 404);
}

#[test]
fn operations_without_a_fitting_token_are_refused() {
    let mut r = registry();
    account(&mut r.users, "u", "p", None);
    let get = "GET /v2/u/i/manifests/latest HTTP/1.1\r\n";
    assert_eq!(r.serve(request(get, &[]), 0).status, 401);
    let t = token(&mut r, "u", "p", "u/other", "pull").unwrap();
    assert_eq!(r.serve(request(get, &[bearer(&t)]), 0).status, 401);
    let t = token(&mut r, "u", "p", "u/i", "pull").unwrap();
    assert_eq!(r.serve(request(get, &[bearer(&t)]), 0).status, 404);
    let put = request("PUT /v2/u/i/manifests/latest HTTP/1.1\r\n", &[bearer(&t)]).with_body(b"{}".to_vec());
    assert_eq!(r.serve(put, 0).status, 401);
    let put = request("PUT /v2/../i/manifests/latest HTTP/1.1\r\n", &[bearer(&t)]).with_body(b"{}".to_vec());
    assert_ne!(r.serve(put, 0).status, 201);
    assert_eq!(r.serve(request("GET /nowhere HTTP/1.1\r\n", &[]), 0).status, 404);
}

#[test]
fn tokens_run_out() {
    let mut tokens = TokenStore::new();
    let t = tokens.issue("u", "u/i", vec!["pull".to_string()], 100);
    assert!(tokens.validate(&t, "u/i", "pull", 100));
    assert!(tokens.validate(&t, "u/i", "pull", 100 + TOKEN_TTL - 1));
    assert!(!tokens.validate(&t, "u/i", "pull", 100 + TOKEN_TTL + 1));
    assert!(!tokens.validate(&t, "u/i", "push", 100));
    assert!(!tokens.validate(&t, "u/j", "pull", 100));
    assert!(!tokens.validate("nonsense", "u/i", "pull", 100));
    assert!(tokens.validate_for_owner(&t, "u", "pull", 100));
    assert!(!tokens.validate_for_owner(&t, "v", "pull", 100));
    assert!(!tokens.validate_for_owner(&t, "u2", "pull", 100));
    assert!(!tokens.validate_for_owner("never issued", "u", "pull", 100));
}

#[test]
fn random_names_do_not_repeat() {
    assert_ne!(random_token(), random_token());
    assert_ne!(random_id(), random_id());
    assert_ne!(hash_password("x"), hash_password("x"));
}

#[test]
fn public_keys_are_kept_by_their_owners() {
    let mut r = registry();
    account(&mut r.users, "u", "p", None);
    let put = request("PUT /users/u/pubkey HTTP/1.1\r\n", &[("Authorization", basic("u", "p"))])
        .with_body(b"abcd".to_vec());
    assert_eq!(r.serve(put, 0).status / 100, 2);
    assert_eq!(r.users[0].public_key.as_deref(), Some("abcd"));
    let put = request("PUT /users/u/pubkey HTTP/1.1\r\n", &[("Authorization", basic("u", "wrong"))])
        .with_body(b"abcd".to_vec());
    assert_ne!(r.serve(put, 0).status / 100, 2);
    let t = token(&mut r, "u", "p", "u/i", "pull").unwrap();
    let got = r.serve(request("GET /users/u/pubkey HTTP/1.1\r\n", &[bearer(&t)]), 0);
    assert_eq!(got.status, 200);
    assert!(text(&got).contains("abcd"));
}

#[test]
fn the_client_follows_the_challenge_of_the_server() {
    let reply = ping(&request("GET /v2/ HTTP/1.1\r\n", &[("Host", "reg.example:5959".to_string())]));
    assert_eq!(reply.status, 401);
    let header = &reply.headers[0].1;
    assert_eq!(
        parse_bearer_challenge(header),
        Some(("http://reg.example:5959/token".to_string(), "reg.example:5959".to_string()))
    );
    let reference = Reference::parse("reg.example:5959/alice/app:v1");
    match get_push_token(&reference) {
        TokenStep::Ping(url) => assert_eq!(url, "http://reg.example:5959/v2/"),
        TokenStep::Request(_) => panic!("an explicit host is asked first"),
    }
    let creds = Some(("alice".to_string(), "pw".to_string()));
    let step = get_explicit_host_token(&Ping::Unauthorized(Some(header.clone())), "alice/app", "pull,push", &creds).unwrap();
    assert_eq!(
        step.url,
        "http://reg.example:5959/token?service=reg.example:5959&scope=repository:alice/app:pull,push"
    );
    assert_eq!(step.authorization, Some(basic("alice", "pw")));
    assert!(get_explicit_host_token(&Ping::Accepted, "a/b", "pull", &None).is_none());
    assert!(get_explicit_host_token(&Ping::Failed, "a/b", "pull", &None).is_none());
}

#[test]
fn scopes_and_credentials_are_read() {
    let (repo, actions) = parse_scope("repository:a/b:pull,push").unwrap();
    assert_eq!(repo, "a/b");
    assert_eq!(actions, vec!["pull", "push"]);
    assert!(parse_scope("registry:catalog:*").is_none());
    let req = request("GET / HTTP/1.1\r\n", &[("Authorization", basic("me", "a:b"))]);
    assert_eq!(basic_auth(&req), Some(("me".to_string(), "a:b".to_string())));
    assert!(basic_auth(&request("GET / HTTP/1.1\r\n", &[])).is_none());
    assert!(push_allowed("a", Role::Push, "a/x"));
    assert!(!push_allowed("a", Role::Push, "b/x"));
    assert!(!push_allowed("a", Role::Pull, "a/x"));
    assert!(push_allowed("a", Role::Admin, "b/x"));
}

#[test]
fn repositories_do_not_climb() {
    let s = store();
    assert!(s.repo_dir("../x").is_none());
    assert!(s.repo_dir("a/../x").is_none());
    assert!(s.repo_dir("a/b").unwrap().starts_with("/data/"));
    assert!(s.manifest_path("a/b", "../../x").is_none());
    assert!(s.blob_path("sha256:../x").is_none());
    let digest = kiln::registry::content_digest(b"x");
    assert!(s.blob_path(&digest).is_some());
    assert!(s.blob_exists(&digest, &vec![s.blob_path(&digest).unwrap()]));
    assert!(!s.blob_exists(&digest, &vec![]));
    assert!(s.blob_path(&format!("sha256:{}", "a0".repeat(32))).is_some());
    assert!(s.blob_path(&format!("sha256:{}", "A0".repeat(32))).is_none());
}

#[test]
fn manifests_never_stand_for_signatures() {
    let s = store();
    assert_eq!(s.manifest_path("a/b", "latest").unwrap(), "/data/manifests/a/b/latest.json");
    assert_eq!(s.signature_path("a/b", "latest").unwrap(), "/data/manifests/a/b/latest.sig.json");
    assert!(s.manifest_path("a/b", "latest.sig").is_none());
    assert!(s.manifest_path("a/b", ".sig").is_none());
    assert!(s.write_manifest("a/b", "latest.sig", b"{}".to_vec()).is_none());
    assert!(s.manifest_path("a/b", "sig").is_some());
    assert!(is_manifest(&s.manifest_path("a/b", "sig").unwrap()));
    assert!(!is_manifest(&s.signature_path("a/b", "latest").unwrap()));
}

fn pem(label: &str, body: &str) -> String {
    format!("-----BEGIN {label}-----\n{body}\n-----END {label}-----\n")
}

#[test]
fn certificates_and_keys_are_read() {
    let certs = format!("# chain\n{}{}", pem("CERTIFICATE", "AQID"), pem("CERTIFICATE", "BAUG"));
    for (label, kind) in [
        ("RSA PRIVATE KEY", KeyKind::Pkcs1),
        ("PRIVATE KEY", KeyKind::Pkcs8),
        ("EC PRIVATE KEY", KeyKind::Sec1),
    ] {
        let key = format!("{}{}", pem("CERTIFICATE", "AQID"), pem(label, "BwgJ"));
        let found = load_server_config("c.pem", &Ok(certs.clone().into_bytes()), "k.pem", &Ok(key.into_bytes()));
        let found = match found {
            Ok(found) => found,
            Err(e) => panic!("{e}"),
        };
        assert_eq!(found.certificates, vec![vec![1, 2, 3], vec![4, 5, 6]]);
        assert_eq!(found.key.kind, kind);
        assert_eq!(found.key.der, vec![7, 8, 9]);
    }
}

#[test]
fn unusable_certificates_and_keys_are_reported() {
    let good = || Ok(pem("CERTIFICATE", "AQID").into_bytes());
    let go = |cert: Result<Vec<u8>, String>, key: Result<Vec<u8>, String>| {
        load_server_config("c.pem", &cert, "k.pem", &key).err().unwrap()
    };
    assert_eq!(go(Err("gone".to_string()), Err("gone".to_string())), "reading TLS cert c.pem: gone");
    assert_eq!(go(Ok(vec![]), Err("gone".to_string())), "no certificates found in c.pem");
    assert_eq!(go(good(), Err("gone".to_string())), "reading TLS key k.pem: gone");
    assert_eq!(go(good(), good()), "no private key found in k.pem");
    let cut = b"-----BEGIN CERTIFICATE-----\nAQID\n".to_vec();
    assert!(go(Ok(cut.clone()), good()).starts_with("parsing TLS cert c.pem: "));
    assert!(go(good(), Ok(cut)).starts_with("parsing TLS key k.pem: "));
}

#[test]
fn roles_have_names() {
    for (role, name) in [(Role::Push, "push"), (Role::Pull, "pull"), (Role::Admin, "admin")] {
        assert_eq!(role.name(), name);
        assert_eq!(Role::parse(name).unwrap().name(), name);
    }
    assert!(Role::parse("owner").is_none());
}

#[test]
fn settings_of_the_registry() {
    let some = |s: &str| Some(s.to_string());
    assert_eq!(default_data_dir(&some("/d"), &some("/home/u")), "/d");
    assert_eq!(default_data_dir(&None, &some("/home/u")), "/home/u/.kiln-registry");
    assert_eq!(default_data_dir(&None, &None), "/root/.kiln-registry");
    assert_eq!(default_port(&None), 5959);
    assert_eq!(default_port(&some("80")), 80);
    assert_eq!(default_port(&some("x")), 5959);
    assert_eq!(tls_files(some("c"), some("k")), Ok(Some(("c".to_string(), "k".to_string()))));
    assert_eq!(tls_files(None, None), Ok(None));
    assert!(tls_files(some("c"), None).is_err());
    assert!(tls_files(None, some("k")).is_err());
}
