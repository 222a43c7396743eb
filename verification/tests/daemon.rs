use kiln::codec::ToJson;
use kiln::daemon::compose_waiting;
use kiln::daemon::containers::{self, Container, LimitsOutcome, RunRequest, Status, UpdateLimitsRequest};
use kiln::daemon::exec::{self, ChildStep, Setup};
use kiln::daemon::images::{self, BuildRequest, BuildResultJson, BuildStepJson, Built, Passed, ScanOutcome};
use kiln::daemon::network_events;
use kiln::daemon::networks;
use kiln::daemon::nodes::{self, NodeJson};
use kiln::daemon::routes::{self, Handler};
use kiln::daemon::secrets::{self, LiveUpdateJson, RotateRequest, RotateResponse, SecretJson};
use kiln::daemon::server;
use kiln::daemon::system::{self, ContainerMetrics, GcResultJson, LiveUse};
use kiln::daemon::volumes::{self, Directory, FileMeta, Look, VolumeDir};
use kiln::error::RuntimeError;
use kiln::http::{Request, Response};
use kiln::image::{Image, ImageConfig};
use kiln::layer::{Entry, EntryKind, LayerManifest};
use kiln::network::{ensure_network, remove_network, NetworkConfig};
use kiln::scan::{run_trivy, scan_overlay, trivy_args, ScanReport, Scanned, Vulnerability};
use kiln::secrets::{SecretError, SecretMeta};

fn some(s: &str) -> Option<String> {
    Some(s.to_string())
}

fn strings(v: &[&str]) -> Vec<String> {
    v.iter().map(|s| s.to_string()).collect()
}

fn text(r: &Response) -> String {
    String::from_utf8(r.body.clone()).unwrap()
}

fn json(r: &Response) -> serde_json::Value {
    serde_json::from_str(&text(r)).unwrap()
}

fn refused<T>(r: Result<T, Response>) -> (u16, String) {
    match r {
        Ok(_) => panic!("this should be refused"),
        Err(e) => (e.status, text(&e)),
    }
}

fn request(line: &str) -> Request {
    Request::read_from(&format!("{line} HTTP/1.1\r\n"), &vec![])
}

fn upgrade(line: &str, protocol: &str) -> Request {
    Request::read_from(&format!("{line} HTTP/1.1\r\n"), &vec![format!("Upgrade: {protocol}\r\n")])
}

fn container(id: &str, running: bool) -> Container {
    Container {
        id: id.to_string(),
        name: format!("{id}-name"),
        image_reference: "app:v1".to_string(),
        command: strings(&["sh", "-c", "x"]),
        status: if running { Status::Running } else { Status::Exited(3) },
        pid: if running { Some(77) } else { None },
        ip: some("10.0.0.2"),
        network: some("web"),
        created_at: 9,
        memory_limit_bytes: Some(67108864),
        cpu_limit: some("0.5"),
        volumes: strings(&["data:/var", "plain"]),
    }
}

// ---- Networks, as clients see them -----------------------------------------

/// The networks of a daemon, kept in memory.
struct Networks {
    configs: Vec<NetworkConfig>,
}

impl Networks {
    fn post(&mut self, body: &str) -> u16 {
        let parsed: Result<std::collections::HashMap<String, String>, _> = serde_json::from_str(body);
        let name = match networks::create(parsed.map(|m| m["name"].clone()).map_err(|e| e.to_string())) {
            Ok(n) => n,
            Err(r) => return r.status,
        };
        let made = ensure_network(None, &name, "172.31.0.0/24", true).map_err(|e| e.message());
        let outcome = made.map(|e| self.configs.push(e.config));
        networks::create_reply(&outcome).status
    }

    fn get(&self) -> (u16, String) {
        let r = networks::list(&self.configs, &vec![]);
        (r.status, text(&r))
    }

    fn delete(&mut self, name: &str) -> u16 {
        let at = self.configs.iter().position(|c| c.name == name);
        let cfg = at.map(|i| self.configs.remove(i));
        networks::remove(&remove_network(name, &cfg).map(|_| ()).map_err(|e| e.message())).status
    }
}

#[test]
fn post_networks_creates_a_network() {
    assert_eq!(routes::route(&request("POST /networks")).handler, Handler::CreateNetwork);
    let mut d = Networks { configs: vec![] };
    assert_eq!(d.post(r#"{"name":"apitest-create"}"#), 201, "creating a network should return 201");
    let (status, body) = d.get();
    assert_eq!(status, 200);
    assert!(body.contains("apitest-create"), "the new network should show up in GET /networks: {body}");
    assert_eq!(d.post("{"), 400);
}

#[test]
fn delete_networks_name_removes_a_network() {
    let route = routes::route(&request("DELETE /networks/apitest-remove"));
    assert_eq!(route.handler, Handler::RemoveNetwork);
    assert_eq!(route.target.as_deref(), Some("apitest-remove"));
    let mut d = Networks { configs: vec![] };
    assert_eq!(d.post(r#"{"name":"apitest-remove"}"#), 201);
    assert_eq!(d.delete("apitest-remove"), 200, "removing an existing network should return 200");
    let (status, body) = d.get();
    assert_eq!(status, 200);
    assert!(!body.contains("apitest-remove"), "the removed network should be gone from GET /networks: {body}");
    assert_eq!(d.delete("no-such-network"), 404, "removing a network that doesn't exist should 404");
}

#[test]
fn delete_images_id_untags_and_deletes_the_image() {
    let config = ImageConfig { env: vec![], cmd: None, workdir: String::new(), exposed_ports: vec![] };
    let image = Image { layers: vec![], config };
    let id = image.id();
    let hex = id.to_hex();
    let shown = || vec![images::image_json(id, some("apitest-image"), some("latest"), &Some(vec![]))];
    let all = || vec![images::image_json(id, None, None, &Some(vec![]))];

    let r = images::list(&shown(), &all());
    assert_eq!(r.status, 200);
    assert!(text(&r).contains("apitest-image"), "the tagged image should show up in GET /images first");

    let route = routes::route(&request(&format!("DELETE /images/{hex}")));
    assert_eq!(route.handler, Handler::RemoveImage);
    let target = route.target.unwrap();
    let r = images::remove(&target, &Ok("untagged apitest-image:latest".to_string()));
    assert_eq!(r.status, 200, "removing an existing image should return 200");

    let r = images::list(&vec![], &vec![]);
    assert_eq!(r.status, 200);
    assert!(!text(&r).contains("apitest-image"), "the removed image's tag should be gone from GET /images");

    let r = images::remove(&target, &Err("no such image".to_string()));
    assert_eq!(r.status, 404, "removing an already-removed image should 404");
    assert_eq!(images::remove("zz", &Ok(String::new())).status, 400);
}

#[test]
fn networks_show_their_containers() {
    let cfg = ensure_network(None, "web", "10.0.0.0/24", true).unwrap().config;
    let mut other = container("c2", true);
    other.network = some("elsewhere");
    let mut homeless = container("c3", true);
    homeless.ip = None;
    let r = networks::list(&vec![cfg], &vec![container("c1", true), other, homeless]);
    let v = json(&r);
    assert_eq!(v[0]["name"], "web");
    assert_eq!(v[0]["gateway"], "10.0.0.1");
    assert_eq!(v[0]["containers"].as_array().unwrap().len(), 1);
    assert_eq!(v[0]["containers"][0]["ip"], "10.0.0.2");
}

// ---- Metrics ---------------------------------------------------------------

fn assert_well_formed_metric(body: &str, metric: &str) {
    let help_line = format!("# HELP {metric} ");
    let type_line = format!("# TYPE {metric} ");
    let sample_prefix = format!("{metric}{{");
    let help_pos = body.find(&help_line).unwrap();
    let type_pos = body.find(&type_line).unwrap();
    assert!(help_pos < type_pos, "HELP should come before TYPE for {metric}");
    assert_eq!(body.matches(&help_line).count(), 1);
    assert_eq!(body.matches(&type_line).count(), 1);
    let first_sample = body.find(&sample_prefix).unwrap();
    assert!(first_sample > type_pos, "sample for {metric} should come after its own HELP/TYPE header");
}

fn metrics_of(name: &str, live: Option<LiveUse>) -> ContainerMetrics {
    ContainerMetrics {
        id: "id1".to_string(),
        name: name.to_string(),
        running: live.is_some(),
        healthy: false,
        last_exit_oom_killed: false,
        cpu_limit: some("0.5"),
        memory_limit_bytes: some("67108864"),
        live,
    }
}

#[test]
fn metrics_reports_real_container_resource_usage() {
    let r = system::metrics(&vec![metrics_of("metricstest", None)]);
    assert_eq!(r.status, 200, "GET /metrics should return 200");
    let body = text(&r);
    for metric in [
        "kiln_container_up",
        "kiln_container_healthy",
        "kiln_container_cpu_limit_cores",
        "kiln_container_memory_limit_bytes",
        "kiln_container_last_exit_oom_killed",
    ] {
        assert_well_formed_metric(&body, metric);
    }
    assert!(body.contains("name=\"metricstest\""));
    assert!(body.contains("kiln_container_cpu_limit_cores{") && body.contains("} 0.5"));
    assert!(body.contains("kiln_container_memory_limit_bytes{") && body.contains("} 67108864"));
    assert!(!body.contains("kiln_container_pids_current"));
}

#[test]
fn metrics_are_grouped_by_name() {
    let live = LiveUse {
        memory_current_bytes: "10".to_string(),
        cpu_seconds: "1.5".to_string(),
        pids_current: "2".to_string(),
        rx_bytes: some("7"),
        tx_bytes: None,
    };
    let body = text(&system::metrics(&vec![metrics_of("a", Some(live)), metrics_of("b\"\\\n", None)]));
    assert!(body.starts_with("# HELP kiln_container_up Whether the container is currently running (1) or not (0).\n# TYPE kiln_container_up gauge\nkiln_container_up{id=\"id1\",name=\"a\"} 1\nkiln_container_up{id=\"id1\",name=\"b\\\"\\\\\\n\"} 0\n# HELP kiln_container_healthy"));
    assert!(body.contains("# TYPE kiln_container_cpu_seconds_total counter\nkiln_container_cpu_seconds_total{id=\"id1\",name=\"a\"} 1.5\n"));
    assert!(body.contains("kiln_container_network_receive_bytes_total{id=\"id1\",name=\"a\"} 7\n"));
    assert!(!body.contains("kiln_container_network_transmit_bytes_total"));
    assert_eq!(text(&system::metrics(&vec![])), "");
    assert_eq!(system::escape_label("a\\b\"c\nd"), "a\\\\b\\\"c\\nd");
}

#[test]
fn disk_usage_and_garbage_collection_are_reported() {
    let v = json(&system::disk_usage(1, 2, 3, 4));
    assert_eq!(v["total_bytes"], 10);
    assert_eq!(v["volumes_bytes"], 3);
    let v = json(&system::gc(&GcResultJson { blobs_removed: 1, bytes_freed: 2, images_removed: 3 }));
    assert_eq!((v["blobs_removed"].as_u64(), v["bytes_freed"].as_u64(), v["images_removed"].as_u64()), (Some(1), Some(2), Some(3)));
}

// ---- Containers ------------------------------------------------------------

#[test]
fn containers_are_shown() {
    let r = containers::list(&vec![container("c1", true), container("c2", false)]);
    assert_eq!(
        text(&r).split("},{").next().unwrap(),
        "[{\"id\":\"c1\",\"name\":\"c1-name\",\"image\":\"app:v1\",\"command\":[\"sh\",\"-c\",\"x\"],\"status\":\"running\",\"pid\":77,\"ip\":\"10.0.0.2\",\"network\":\"web\",\"created_at\":9,\"memory_limit_bytes\":67108864,\"cpu_limit\":0.5"
    );
    assert_eq!(json(&r)[1]["status"], "exited(3)");
    assert_eq!(json(&r)[1]["pid"], serde_json::Value::Null);
    assert_eq!(containers::inspect(&Some(container("c1", true))).status, 200);
    assert_eq!(containers::inspect(&None).status, 404);
    assert_eq!(containers::stats(true, &some("{}")).status, 200);
    assert_eq!(text(&containers::stats(true, &None)), "no stats available (container may not be running)");
    assert_eq!(text(&containers::stats(false, &None)), "no such container");
}

#[test]
fn limits_are_changed_in_place() {
    let body = || Ok(UpdateLimitsRequest { memory: some("64m"), cpus: some("0.5") });
    let u = match containers::update_limits(Some(container("c", true)), body(), &Ok(Some(67108864)), Some(50_000), some("/g")) {
        Ok(u) => u,
        Err(_) => panic!("the limits are fine"),
    };
    assert_eq!(u.cgroup_dir, "/g");
    assert_eq!(u.limits.memory_swap_max_bytes, Some(0));
    assert_eq!(u.limits.cpu_period_us, 100_000);
    let before = container("c", true);
    assert_eq!(u.container.memory_limit_bytes, Some(67108864));
    assert_eq!(u.container.cpu_limit, some("0.5"));
    assert_eq!((u.container.id, u.container.name, u.container.volumes), (before.id, before.name, before.volumes));
    let go = |found: bool, body: Result<UpdateLimitsRequest, String>, memory: Result<Option<u64>, String>, dir: Option<String>| {
        refused(containers::update_limits(if found { Some(container("c", true)) } else { None }, body, &memory, None, dir))
    };
    assert_eq!(go(false, body(), Ok(None), None), (404, "no such container".to_string()));
    assert_eq!(go(true, Err("bad".to_string()), Ok(None), None), (400, "invalid JSON body: bad".to_string()));
    assert_eq!(go(true, body(), Err("bad size".to_string()), None), (400, "bad size".to_string()));
    assert_eq!(go(true, body(), Ok(None), None), (404, "container has no cgroup (has it ever been started?)".to_string()));
    assert_eq!(containers::limits_reply(&LimitsOutcome::NotApplied("x".to_string())).status, 500);
    assert!(text(&containers::limits_reply(&LimitsOutcome::NotSaved("x".to_string()))).starts_with("limits applied live"));
    assert_eq!(containers::limits_reply(&LimitsOutcome::Done(container("c", true))).status, 200);
}

fn run_request(restart: Option<String>) -> RunRequest {
    RunRequest {
        image: "busybox".to_string(),
        command: strings(&["sh"]),
        name: None,
        volumes: vec![],
        network: None,
        environment: vec![],
        memory: None,
        cpus: None,
        ports: vec![],
        restart,
        secrets: vec![],
        seccomp_unconfined: true,
        cap_add: strings(&["SYS_ADMIN"]),
        cap_drop: vec![],
    }
}

#[test]
fn containers_are_run_as_asked() {
    let spec = match containers::create(Ok(run_request(None)), &Ok(Some(5)), &Ok(())) {
        Ok(s) => s,
        Err(_) => panic!("the request is fine"),
    };
    assert_eq!(spec.image, "busybox");
    assert_eq!(spec.memory_limit_bytes, Some(5));
    assert_eq!(spec.restart_policy, "no");
    assert!(spec.security.seccomp_unconfined);
    let spec = containers::create(Ok(run_request(some("always"))), &Ok(None), &Ok(())).ok().unwrap();
    assert_eq!(spec.restart_policy, "always");
    assert_eq!(refused(containers::create(Err("x".to_string()), &Ok(None), &Ok(()))).0, 400);
    assert_eq!(refused(containers::create(Ok(run_request(None)), &Err("s".to_string()), &Ok(()))).1, "s");
    assert_eq!(refused(containers::create(Ok(run_request(None)), &Ok(None), &Err("p".to_string()))).1, "p");
    assert_eq!(containers::create_reply(&Ok(container("c", true))).status, 201);
    assert_eq!(containers::create_reply(&Err("x".to_string())).status, 500);
    assert_eq!(containers::start_existing(&Err("x".to_string())).status, 500);
    assert_eq!(containers::stop(&Ok(container("c", false))).status, 200);
    assert_eq!(containers::stop(&Err("x".to_string())).status, 404);
}

#[test]
fn removal_waits_for_the_processes() {
    let r = containers::remove(&Some(container("c", true))).ok().unwrap();
    assert_eq!((r.kill, r.wait), (Some(77), true));
    let r = containers::remove(&Some(container("c", false))).ok().unwrap();
    assert_eq!((r.kill, r.wait), (None, false));
    assert_eq!(refused(containers::remove(&None)).0, 404);
    assert!(containers::keep_waiting(1, &some("12\n")));
    assert!(containers::keep_waiting(10, &some("12\n")));
    assert!(!containers::keep_waiting(11, &some("12\n")));
    assert!(!containers::keep_waiting(1, &some(" \n")));
    assert!(containers::cgroup_is_empty(&None));
    assert_eq!(containers::remove_reply(&Ok(())).status, 204);
    assert_eq!(containers::remove_reply(&Err("x".to_string())).status, 500);
}

#[test]
fn logs_are_followed_in_chunks() {
    assert!(containers::follows(&request("GET /containers/c/logs?follow=1")));
    assert!(containers::follows(&request("GET /containers/c/logs?follow=true")));
    assert!(!containers::follows(&request("GET /containers/c/logs?follow=yes")));
    assert_eq!(containers::logs(Some(b"hi".to_vec())).body, b"hi");
    assert_eq!(containers::logs(None).body, b"");
    assert!(String::from_utf8(containers::start_following()).unwrap().contains("Transfer-Encoding: chunked"));
    let s = containers::follow_step(0, 17, b"seventeen letters".to_vec(), true);
    assert_eq!(s.out, b"11\r\nseventeen letters\r\n");
    assert_eq!((s.sent, s.done), (17, false));
    let s = containers::follow_step(17, 17, vec![], true);
    assert_eq!((s.out.len(), s.sent, s.done), (0, 17, false));
    let s = containers::follow_step(17, 18, b"!".to_vec(), false);
    assert_eq!(s.out, b"1\r\n!\r\n0\r\n\r\n");
    assert_eq!((s.sent, s.done), (18, true));
}

#[test]
fn shells_are_opened_in_running_containers() {
    let req = request("GET /containers/c/exec?shell=/bin/sh");
    let s = exec::handle(&req, &Some(container("c", true))).ok().unwrap();
    assert_eq!(s.pid, 77);
    assert_eq!(s.namespaces, vec!["user", "mnt", "uts", "ipc", "net"]);
    assert_eq!(s.shells, vec!["/bin/sh"]);
    for line in ["GET /containers/c/exec", "GET /containers/c/exec?shell=/usr/bin/python"] {
        let s = exec::handle(&request(line), &Some(container("c", true))).ok().unwrap();
        assert_eq!(s.shells, vec!["/bin/bash", "/bin/sh"]);
    }
    assert_eq!(refused(exec::handle(&req, &Some(container("c", false)))), (400, "container is not running".to_string()));
    assert_eq!(refused(exec::handle(&req, &None)).0, 404);
    assert_eq!(text(&exec::setup_failed(Setup::Terminal, "e")), "openpty: e");
    assert_eq!(text(&exec::setup_failed(Setup::Fork, "e")), "fork: e");
    assert_eq!(exec::child_steps().len(), 4);
    assert_eq!(exec::child_complaint(ChildStep::JoinNamespaces, "e"), "kiln-exec: joining container namespaces: e");
    assert_eq!(exec::child_complaint(ChildStep::ClearGroups, "e"), "kiln-exec: setgroups: e");
    assert_eq!(exec::child_complaint(ChildStep::BecomeRootGroup, "e"), "kiln-exec: setresgid: e");
    assert_eq!(exec::child_complaint(ChildStep::BecomeRootUser, "e"), "kiln-exec: setresuid: e");
}

// ---- Images ----------------------------------------------------------------

fn file(path: &str, content: &str) -> Entry {
    Entry {
        path: path.to_string(),
        mode: 0o644,
        uid: 0,
        gid: 0,
        kind: EntryKind::File { blob: kiln::store::Hash::of_bytes(content.as_bytes()), size: content.len() as u64 },
    }
}

fn two_layers() -> Vec<Option<LayerManifest>> {
    vec![
        Some(LayerManifest { entries: vec![file("a", "shared"), file("b", "shared")] }),
        None,
        Some(LayerManifest { entries: vec![file("c", "shared"), file("d", "own!")] }),
    ]
}

#[test]
fn shared_files_count_once_in_an_image() {
    assert_eq!(images::unique_size(&two_layers()), 10);
    let id = kiln::store::Hash::of_bytes(b"i");
    let shown = images::image_json(id, None, None, &Some(two_layers()));
    assert_eq!((shown.layers, shown.size_bytes), (3, 10));
    let unreadable = images::image_json(id, None, None, &None);
    assert_eq!((unreadable.layers, unreadable.size_bytes), (0, 0));
    let tagged = vec![images::image_json(id, some("library/a"), some("v1"), &None)];
    let other = kiln::store::Hash::of_bytes(b"j");
    let all = vec![unreadable, images::image_json(other, None, None, &None)];
    let v = json(&images::list(&tagged, &all));
    assert_eq!(v.as_array().unwrap().len(), 2);
    assert_eq!(v[0]["repository"], "library/a");
    assert_eq!(v[1]["id"], other.to_hex());
    assert_eq!(v[1]["tag"], serde_json::Value::Null);
}

#[test]
fn images_are_shown_in_full() {
    let config = ImageConfig {
        env: vec![("A".to_string(), "1".to_string())],
        cmd: some("run"),
        workdir: "/w".to_string(),
        exposed_ports: vec![(80, "tcp".to_string())],
    };
    let ids: Vec<kiln::store::Hash> = ["x", "y", "z"].iter().map(|s| kiln::store::Hash::of_bytes(s.as_bytes())).collect();
    let image = Some(Image { layers: ids.clone(), config });
    let id = image.as_ref().unwrap().id();
    let tags = vec![
        ("other".to_string(), "v0".to_string(), ids[0]),
        ("library/a".to_string(), "v1".to_string(), id),
        ("library/a".to_string(), "v2".to_string(), id),
    ];
    let v = json(&images::inspect(&id.to_hex(), &image, &two_layers(), &tags, true));
    assert_eq!(v["id"], id.to_hex());
    assert_eq!(v["tag"], "v1");
    assert_eq!(v["env"][0][0], "A");
    assert_eq!(v["exposed_ports"][0][0], 80);
    assert_eq!(v["layers"][0]["size_bytes"], 12);
    assert_eq!(v["layers"][0]["entry_count"], 2);
    assert_eq!(v["layers"][1]["size_bytes"], 0);
    assert_eq!(v["signature_verified"], true);
    assert_eq!(images::inspect("zz", &image, &two_layers(), &tags, true).status, 400);
    assert_eq!(images::inspect(&id.to_hex(), &None, &vec![], &tags, true).status, 404);
}

#[test]
fn images_are_pulled_pushed_and_tagged() {
    let id = kiln::store::Hash::of_bytes(b"i");
    let pull = |reference: &str| images::PullRequest { reference: reference.to_string(), insecure_skip_verify: false };
    assert_eq!(images::pull(Ok(pull("busybox"))).ok().unwrap().reference, "busybox");
    assert_eq!(refused(images::pull(Ok(pull("  ")))), (400, "image reference must not be empty".to_string()));
    assert_eq!(refused(images::pull(Err("x".to_string()))).1, "invalid JSON body: x");
    assert_eq!(json(&images::pull_reply(&Ok(id)))["id"], id.to_hex());
    assert_eq!(images::pull_reply(&Err("x".to_string())).status, 502);
    let push = || Ok(images::PushRequest { reference: "h/a:v1".to_string() });
    assert_eq!(json(&images::push(&push(), &Passed::Done(id)))["pushed_as"], "h/a:v1");
    assert_eq!(text(&images::push(&push(), &Passed::Unresolved("e".to_string()))), "resolving h/a:v1: e");
    assert_eq!(images::push(&push(), &Passed::NotSaved("e".to_string())).status, 500);
    assert_eq!(text(&images::push(&push(), &Passed::Failed("e".to_string()))), "push failed: e");
    assert_eq!(images::push(&Err("x".to_string()), &Passed::Done(id)).status, 400);
    let tag = || Ok(images::TagRequest { source: "a".to_string(), target: "b".to_string() });
    assert_eq!(json(&images::tag(&tag(), &Passed::Done(id)))["tagged_as"], "b");
    assert_eq!(images::tag(&tag(), &Passed::Unresolved("e".to_string())).status, 404);
    assert_eq!(images::tag(&tag(), &Passed::Failed("e".to_string())).status, 500);
}

#[test]
fn builds_are_answered() {
    let body = |path: Option<String>| Ok(BuildRequest { context_dir: "/ctx".to_string(), kilnfile_path: path, tag: None });
    assert_eq!(images::build(&body(None), true).ok().unwrap(), "/ctx/Kilnfile");
    assert_eq!(images::build(&body(some("k/file")), true).ok().unwrap(), "/ctx/k/file");
    assert_eq!(refused(images::build(&body(None), false)).1, "context directory not found: /ctx");
    assert_eq!(refused(images::build(&Err("x".to_string()), true)).0, 400);
    assert_eq!(images::build_tag("app:v2"), ("library/app".to_string(), "v2".to_string(), "library/app:v2".to_string()));
    let id = kiln::store::Hash::of_bytes(b"i");
    let done = BuildResultJson {
        image_id: id,
        steps: vec![BuildStepJson { instruction: "RUN x".to_string(), cached: true }],
        tagged: None,
    };
    let v = json(&images::build_reply(&Built::Done(done)));
    assert_eq!(v["steps"][0]["instruction"], "RUN x");
    assert_eq!(v["steps"][0]["cached"], true);
    let unreadable = Built::Unreadable { path: "/k".to_string(), reason: "e".to_string() };
    assert_eq!(text(&images::build_reply(&unreadable)), "reading /k: e");
    assert_eq!(text(&images::build_reply(&Built::Failed("e".to_string()))), "build failed: e");
    let untagged = Built::NotTagged { id, reason: "e".to_string() };
    assert_eq!(text(&images::build_reply(&untagged)), format!("built {} but tagging failed: e", id.to_hex()));
}

fn vulnerability(severity: &str, fixed: &str) -> Vulnerability {
    Vulnerability {
        vulnerability_id: "CVE-1".to_string(),
        pkg_name: "pkg".to_string(),
        installed_version: "1".to_string(),
        fixed_version: fixed.to_string(),
        severity: severity.to_string(),
        primary_url: String::new(),
    }
}

#[test]
fn scans_are_counted_by_severity() {
    let found = Scanned::Found(vec![
        vec![vulnerability("CRITICAL", "2"), vulnerability("LOW", "")],
        vec![],
        vec![vulnerability("HIGH", ""), vulnerability("MEDIUM", ""), vulnerability("UNKNOWN", ""), vulnerability("HIGH", "")],
    ]);
    let r = run_trivy(found).unwrap();
    assert_eq!((r.critical, r.high, r.medium, r.low), (1, 2, 1, 1));
    assert_eq!(r.total(), 5);
    assert_eq!(r.findings.len(), 6);
    assert_eq!(r.findings[0].fixed_version.as_deref(), Some("2"));
    assert_eq!(r.findings[1].fixed_version, None);
    assert_eq!(r.findings[0].url, None);
    let v: serde_json::Value = serde_json::from_str(&r.to_json()).unwrap();
    assert_eq!(v["high"], 2);
    assert_eq!(v["findings"][0]["severity"], "CRITICAL");
    let e = |s: Scanned| run_trivy(s).unwrap_err().message();
    assert!(e(Scanned::NotStarted("no".to_string())).starts_with("scan error: running trivy: no - is it installed?"));
    let failed = Scanned::Failed { status: "exit status: 1".to_string(), stderr: "boom".to_string() };
    assert_eq!(e(failed), "scan error: trivy exited with exit status: 1: boom");
    assert_eq!(e(Scanned::Unreadable("x".to_string())), "scan error: parsing trivy output: x");
    assert_eq!(trivy_args("/m").join(" "), "rootfs --format json --quiet --scanners vuln /m");
    let o = scan_overlay(strings(&["/l"]), "/t").ok().unwrap();
    assert_eq!((o.upper_dir.as_str(), o.work_dir.as_str(), o.merged_dir.as_str()), ("/t/upper", "/t/work", "/t/merged"));
    assert!(scan_overlay(vec![], "/t").is_err());
}

#[test]
fn scan_reports_are_served() {
    let hex = kiln::store::Hash::of_bytes(b"i").to_hex();
    assert_eq!(images::get_scan(&hex, &Some(ScanReport::default())).status, 200);
    assert_eq!(images::get_scan(&hex, &None).status, 404);
    assert_eq!(images::get_scan("zz", &None).status, 400);
    assert_eq!(images::post_scan(&hex, &ScanOutcome::Done(ScanReport::default())).status, 201);
    assert_eq!(images::post_scan(&hex, &ScanOutcome::Failed("e".to_string())).status, 500);
    assert!(text(&images::post_scan(&hex, &ScanOutcome::NotSaved("e".to_string()))).starts_with("scan succeeded but"));
    assert_eq!(images::post_scan("zz", &ScanOutcome::Failed("e".to_string())).status, 400);
}

// ---- Secrets ---------------------------------------------------------------

#[test]
fn secrets_are_listed_without_their_values() {
    let meta = SecretMeta { version: 2, created_at: 1, rotated_at: Some(5), ttl_secs: None };
    let r = secrets::list(&vec![
        SecretJson { name: "a".to_string(), meta: Some(meta) },
        SecretJson { name: "b".to_string(), meta: None },
    ]);
    assert_eq!(
        text(&r),
        "[{\"name\":\"a\",\"version\":2,\"created_at\":1,\"rotated_at\":5,\"ttl_secs\":null},{\"name\":\"b\"}]"
    );
    let body = |name: &str, value: &str| {
        Ok(secrets::CreateRequest { name: name.to_string(), value: value.to_string(), ttl_secs: None })
    };
    assert!(secrets::create(body("a", "v")).is_ok());
    assert_eq!(refused(secrets::create(body(" ", "v"))).1, "secret name must not be empty");
    assert_eq!(refused(secrets::create(body("a", ""))).1, "secret value must not be empty");
    assert_eq!(refused(secrets::create(Err("x".to_string()))).0, 400);
    assert_eq!(secrets::create_reply(&Ok(())).status, 201);
    assert_eq!(secrets::remove(&Err("x".to_string())).status, 404);
}

#[test]
fn rotations_show_made_up_values_once() {
    let new = |v: Option<String>| secrets::new_value(Ok(RotateRequest { value: v }), "made-up".to_string()).ok().unwrap();
    let n = new(some("given"));
    assert_eq!((n.value.as_slice(), n.generated), (b"given".as_slice(), None));
    for v in [None, some("")] {
        let n = new(v);
        assert_eq!((n.value.as_slice(), n.generated.as_deref()), (b"made-up".as_slice(), Some("made-up")));
    }
    assert_eq!(refused(secrets::new_value(Err("x".to_string()), String::new())).0, 400);
    let meta = SecretMeta { version: 2, created_at: 1, rotated_at: Some(5), ttl_secs: None };
    let done = RotateResponse {
        meta,
        generated_value: None,
        live_updates: vec![LiveUpdateJson { container_id: "c".to_string(), container_name: "n".to_string(), updated: true }],
    };
    let v = json(&secrets::rotate(&Ok(done)));
    assert_eq!(v["meta"]["version"], 2);
    assert_eq!(v["generated_value"], serde_json::Value::Null);
    assert_eq!(v["live_updates"][0]["updated"], true);
    assert_eq!(secrets::rotate(&Err(SecretError::NotFound("x".to_string()))).status, 404);
    assert_eq!(secrets::rotate(&Err(SecretError::Other("x".to_string()))).status, 500);
}

// ---- Volumes ---------------------------------------------------------------

#[test]
fn volumes_show_who_uses_them() {
    let dir = |name: &str| VolumeDir { name: name.to_string(), size_bytes: 5, host_path: format!("/v/{name}") };
    let v = json(&volumes::list(&vec![dir("data"), dir("plain")], &vec![container("c1", true)]));
    assert_eq!(v[0]["containers"][0], "c1-name");
    assert_eq!(v[0]["size_bytes"], 5);
    assert_eq!(v[1]["containers"].as_array().unwrap().len(), 0);
    let body = |n: &str| Ok(volumes::CreateRequest { name: n.to_string() });
    assert!(volumes::create(body("x")).is_ok());
    assert_eq!(refused(volumes::create(body(" "))).1, "volume name must not be empty");
    assert_eq!(volumes::create_reply(&Err("e".to_string())).status, 500);
    assert_eq!(volumes::remove(&Ok(())).status, 200);
    let r = volumes::export("data", Ok(vec![1, 2]));
    assert_eq!(r.headers[1].1, "attachment; filename=\"data.tar.gz\"");
    assert_eq!(volumes::export("data", Err("e".to_string())).status, 404);
    assert_eq!(volumes::import("data", &Ok(())).status, 201);
    assert_eq!(volumes::import("data", &Err("e".to_string())).status, 400);
    assert_eq!(volumes::import("  ", &Ok(())).status, 400);
}

#[test]
fn paths_do_not_leave_their_volume() {
    let go = |p: &str| volumes::resolve_within_volume("/v/data", true, p, &Look::Missing);
    assert_eq!(go(""), some("/v/data"));
    assert_eq!(go("/a//./b/"), some("/v/data/a/b"));
    assert_eq!(go("a/../b"), None);
    assert_eq!(go(".."), None);
    assert_eq!(go("a/..b"), some("/v/data/a/..b"));
    assert_eq!(volumes::resolve_within_volume("/v/data", false, "a", &Look::Missing), None);
    assert_eq!(volumes::path_to_look_at("/v/data", "./a"), some("/v/data/a"));
    let real = |base: &str, path: &str| {
        let look = Look::Real { base: base.to_string(), path: path.to_string() };
        volumes::resolve_within_volume("/v/data", true, "a", &look).is_some()
    };
    assert!(real("/v/data", "/v/data/a"));
    assert!(real("/v/data", "/v/data"));
    assert!(!real("/v/data", "/v/data2"));
    assert!(!real("/v/data", "/etc/passwd"));
    assert!(!real("/v/data", "/v"));
    assert_eq!(volumes::resolve_within_volume("/v/data", true, "a", &Look::Unreadable), None);
    assert_eq!(volumes::requested_path(&request("GET /volumes/d/files?path=a/b")), "a/b");
    assert_eq!(volumes::requested_path(&request("GET /volumes/d/files")), "");
}

#[test]
fn files_are_listed_and_shown() {
    let e = |n: &str, d: bool| volumes::file_entry(n.to_string(), d, 9);
    let r = volumes::list_files(Directory::Entries(vec![e("b", false), e("z", true), e("a", false), e("c", true)]));
    let names: Vec<String> =
        json(&r).as_array().unwrap().iter().map(|v| v["name"].as_str().unwrap().to_string()).collect();
    assert_eq!(names, vec!["c", "z", "a", "b"]);
    assert_eq!(json(&r)[0]["size_bytes"], 0);
    assert_eq!(json(&r)[2]["size_bytes"], 9);
    assert_eq!(volumes::list_files(Directory::Outside).status, 400);
    assert_eq!(volumes::list_files(Directory::NotADirectory).status, 404);
    let meta = |is_file: bool, len: u64| Some(FileMeta { is_file, len });
    assert!(volumes::check_file(true, &meta(true, 256 * 1024)).is_ok());
    assert_eq!(refused(volumes::check_file(true, &meta(true, 256 * 1024 + 1))), (413, "file too large to preview (>256 KiB)".to_string()));
    assert_eq!(refused(volumes::check_file(true, &meta(false, 1))).1, "not a file");
    assert_eq!(refused(volumes::check_file(true, &None)).1, "not found");
    assert_eq!(refused(volumes::check_file(false, &meta(true, 1))).1, "invalid path");
    assert_eq!(text(&volumes::read_file(Ok("héllo".as_bytes().to_vec()))), "héllo");
    assert_eq!(volumes::read_file(Ok(vec![0xff, 0xfe])).status, 415);
    assert_eq!(volumes::read_file(Err("e".to_string())).status, 500);
}

// ---- The rest --------------------------------------------------------------

#[test]
fn nodes_and_waiting_containers_are_listed() {
    let n = NodeJson { name: "n".to_string(), address: "10.0.0.9:7868".to_string(), reachable: false };
    assert_eq!(n.to_json(), "{\"name\":\"n\",\"address\":\"10.0.0.9:7868\",\"reachable\":false}");
    assert_eq!(json(&nodes::list(&vec![n]))[0]["reachable"], false);
    let marker = |name: Option<String>, content: Option<String>| compose_waiting::Marker { name, content };
    let r = compose_waiting::list(&vec![
        marker(some("p_web"), some("db")),
        marker(None, some("x")),
        marker(some("p_x"), None),
    ]);
    assert_eq!(text(&r), "[{\"container_name\":\"p_web\",\"waiting_for\":\"db\"}]");
}

#[test]
fn network_events_are_lines_of_json() {
    let e = kiln::netbpf::FlowEvent {
        to_container: true,
        protocol: 17,
        src_addr: [10, 0, 0, 1],
        dst_addr: [10, 0, 0, 2],
        src_port: 53,
        dst_port: 4000,
        len: 60,
    };
    assert_eq!(
        network_events::write_event(&e),
        "{\"to_container\":true,\"protocol\":\"udp\",\"src\":\"10.0.0.1:53\",\"dst\":\"10.0.0.2:4000\",\"bytes\":60}\n"
    );
    assert!(network_events::handle(true, &Ok(())).is_ok());
    assert_eq!(refused(network_events::handle(false, &Ok(()))).0, 404);
    let broken = Err(RuntimeError::InvalidArgument("x".to_string()));
    assert_eq!(refused(network_events::handle(true, &broken)), (400, "invalid argument: x".to_string()));
}

#[test]
fn requests_find_their_handlers() {
    let table = [
        ("GET /version", Handler::Version, None),
        ("GET /disk-usage", Handler::DiskUsage, None),
        ("POST /gc", Handler::Gc, None),
        ("GET /metrics", Handler::Metrics, None),
        ("GET /nodes/", Handler::Nodes, None),
        ("GET //containers", Handler::ListContainers, None),
        ("POST /containers", Handler::CreateContainer, None),
        ("GET /containers/c1", Handler::InspectContainer, Some("c1")),
        ("DELETE /containers/c1", Handler::RemoveContainer, Some("c1")),
        ("GET /containers/c1/stats", Handler::ContainerStats, Some("c1")),
        ("POST /containers/c1/stop", Handler::StopContainer, Some("c1")),
        ("POST /containers/c1/start", Handler::StartContainer, Some("c1")),
        ("GET /containers/c1/logs?follow=1", Handler::ContainerLogs, Some("c1")),
        ("GET /containers/c1/exec", Handler::NotFound, None),
        ("GET /containers/c1/network-events", Handler::NotFound, None),
        ("GET /images", Handler::ListImages, None),
        ("POST /images/pull", Handler::PullImage, None),
        ("POST /images/other", Handler::NotFound, None),
        ("GET /networks", Handler::ListNetworks, None),
        ("GET /volumes", Handler::ListVolumes, None),
        ("POST /volumes", Handler::CreateVolume, None),
        ("DELETE /volumes/v", Handler::RemoveVolume, Some("v")),
        ("GET /", Handler::NotFound, None),
        ("PUT /containers", Handler::NotFound, None),
        ("GET /a/b/c/d", Handler::NotFound, None),
    ];
    for (line, handler, target) in table {
        let r = routes::route(&request(line));
        assert_eq!(r.handler, handler, "{line}");
        assert_eq!(r.target.as_deref(), target, "{line}");
    }
    assert_eq!(routes::route(&upgrade("GET /containers/c1/exec", "Kiln-Exec")).handler, Handler::Exec);
    assert_eq!(routes::route(&upgrade("GET /containers/c1/network-events", "kiln-net-events")).handler, Handler::NetworkEvents);
    assert_eq!(routes::route(&upgrade("GET /containers/c1/exec", "websocket")).handler, Handler::NotFound);
    assert_eq!(text(&routes::version("0.1.0")), "{\"version\":\"0.1.0\"}");
    assert_eq!(routes::not_found().status, 404);
}

#[test]
fn remote_clients_need_the_token() {
    assert_eq!(server::tcp_port(&None), 7867);
    assert_eq!(server::tcp_port(&some("8000")), 8000);
    assert_eq!(server::tcp_port(&some("70000")), 7867);
    assert!(server::remote_config(None, &None).is_none());
    assert!(server::remote_config(some(""), &None).is_none());
    let c = server::remote_config(some("t"), &some("9")).unwrap();
    assert_eq!((c.token.as_str(), c.port), ("t", 9));
    assert_eq!(server::remote_config(some("t"), &None).unwrap().port, 7868);
    let with = |t: &str| {
        Request::read_from("GET /version HTTP/1.1\r\n", &vec![format!("Authorization: Bearer {t}\r\n")])
    };
    assert!(server::check_token(&with("t"), &some("t")).is_ok());
    assert_eq!(refused(server::check_token(&with("u"), &some("t"))), (401, "missing or invalid bearer token".to_string()));
    assert_eq!(refused(server::check_token(&request("GET /version"), &some("t"))).0, 401);
    assert!(server::check_token(&request("GET /version"), &None).is_ok());
}
