use kiln::cgroups::{enable_subtree_controllers, ensure_delegated_root, CgroupV2, Limits, Made};
use kiln::error::RuntimeError;
use kiln::identity::{container_id_map, container_to_host, host_to_container, SUBORDINATE_RANGE, SUBORDINATE_UID_BASE};
use kiln::namespaces::{
    child_step, id_map_writes, ns_paths, spawn_paused, ChildAction, ChildEvent, IdMap, Namespaces, Spawn,
};
use kiln::netbpf::{
    attach_classifier, drain, flow_egress, flow_ingress, from_record, handle, observed_interface, to_record, try_handle,
    write_address, Attaching, TC_ACT_PIPE,
};
use kiln::network::{
    attach_container, bridge_name, config_path, ensure_network, interface_path, remove_network, run_cmd, setup_bridge,
    short_tag, subnet_gateway, veth_counters, veth_host_name, veth_stats, Command, NetworkConfig, Ran,
};
use kiln::rootfs::{
    bind_mount, bind_mount_host_devices, bind_mount_host_resolv_conf, make_mounts_private, mount_overlay, mount_proc,
    mount_tmpfs_secrets, pivot_root_into, unmount, OverlaySpec, Step, MS_BIND, MS_NODEV, MS_NOEXEC, MS_NOSUID,
    MS_PRIVATE, MS_REC,
};
use kiln::security::{
    apply_seccomp, capabilities_outside, decode_capability_set, drop_capabilities, effective_capabilities,
    parse_capability, read_capability_bounding_set, SecurityProfile, BASELINE_CAPABILITIES,
};
use kiln::syscalls;
use std::hash::{Hash as _, Hasher};

fn strings(v: &[&str]) -> Vec<String> {
    v.iter().map(|s| s.to_string()).collect()
}

// ---- Control groups --------------------------------------------------------

#[test]
fn cpu_and_memory_limits_round_trip_through_cgroupfs() {
    let limits = Limits {
        cpu_max_us: Some(50_000),
        cpu_period_us: 100_000,
        memory_max_bytes: Some(64 * 1024 * 1024),
        memory_swap_max_bytes: Some(0),
        pids_max: Some(16),
        ..Limits::default()
    };
    let made = CgroupV2::create("/sys/fs/cgroup/kiln-test", "limits-1", false, &limits);
    assert_eq!(made.group.path(), "/sys/fs/cgroup/kiln-test/limits-1");
    assert!(!made.remove_first);
    let read = |file: &str| {
        let path = format!("/sys/fs/cgroup/kiln-test/limits-1/{file}");
        made.writes.iter().find(|(p, _)| *p == path).map(|(_, t)| t.as_str())
    };
    assert_eq!(read("cpu.max"), Some("50000 100000"));
    assert_eq!(read("memory.max").unwrap().parse::<u64>().unwrap(), 64 * 1024 * 1024);
    assert_eq!(read("memory.high"), Some("max"));
    assert_eq!(read("memory.swap.max"), Some("0"));
    assert_eq!(read("pids.max"), Some("16"));
}

#[test]
fn limits_that_are_not_given_are_unlimited() {
    let made = CgroupV2::create("/p", "c", true, &Limits::default());
    assert!(made.remove_first);
    let texts: Vec<(&str, &str)> = made.writes.iter().map(|(p, t)| (p.as_str(), t.as_str())).collect();
    assert_eq!(
        texts,
        vec![
            ("/p/c/cpu.max", "max 100000"),
            ("/p/c/memory.max", "max"),
            ("/p/c/memory.high", "max"),
            ("/p/c/memory.swap.max", "max"),
            ("/p/c/pids.max", "max"),
        ]
    );
    assert_eq!(made.group.remove(), "/p/c");
}

#[test]
fn only_available_controllers_are_enabled() {
    let ok = |s: &str| Ok(s.to_string());
    assert_eq!(
        enable_subtree_controllers("/g", &ok("cpuset cpu io memory pids\n")).unwrap(),
        Some(("/g/cgroup.subtree_control".to_string(), "+cpu +memory +io +pids".to_string()))
    );
    assert_eq!(
        enable_subtree_controllers("/g", &ok("pids memory")).unwrap().unwrap().1,
        "+memory +pids"
    );
    assert_eq!(enable_subtree_controllers("/g", &ok("hugetlb")).unwrap(), None);
    let e = enable_subtree_controllers("/g", &Err("gone".to_string())).unwrap_err();
    assert_eq!(e.message(), "I/O error on \"/g/cgroup.controllers\": gone");
}

#[test]
fn a_delegated_group_may_be_there_already() {
    assert_eq!(ensure_delegated_root("/sys/fs/cgroup", "kiln", &Made::Created).unwrap(), "/sys/fs/cgroup/kiln");
    assert!(ensure_delegated_root("/sys/fs/cgroup", "kiln", &Made::AlreadyThere).is_ok());
    assert!(ensure_delegated_root("/sys/fs/cgroup", "kiln", &Made::Failed("no".to_string())).is_err());
}

#[test]
fn group_files_are_read() {
    let g = CgroupV2::from_existing("/g".to_string());
    let ok = |s: &str| Ok(s.to_string());
    assert_eq!(g.processes(&ok("12\n 7 \nx\n\n")).unwrap(), vec![12, 7]);
    assert!(g.processes(&Err("gone".to_string())).is_err());
    assert_eq!(g.memory_current(&ok("4096\n")).unwrap(), 4096);
    assert!(matches!(g.memory_current(&ok("much")), Err(RuntimeError::InvalidArgument(_))));
    assert!(matches!(g.memory_current(&Err("e".to_string())), Err(RuntimeError::Io { .. })));
    assert_eq!(g.oom_kill_count(&ok("low 0\noom 2\noom_kill 1\noom_kill 9\n")).unwrap(), 1);
    assert_eq!(g.oom_kill_count(&ok("oom 2\n")).unwrap(), 0);
    assert_eq!(g.oom_kill_count(&ok("oom_kill x\n")).unwrap(), 0);
    assert!(g.oom_kill_count(&Err("e".to_string())).is_err());
    assert_eq!(g.add_process(-3), ("/g/cgroup.procs".to_string(), "-3".to_string()));
    assert_eq!(g.set_io_max("8:0", "rbps=1").1, "8:0 rbps=1");
}

// ---- Root filesystems ------------------------------------------------------

#[test]
fn mount_flags_are_the_kernels() {
    assert_eq!(MS_NOSUID, libc::MS_NOSUID);
    assert_eq!(MS_NODEV, libc::MS_NODEV);
    assert_eq!(MS_NOEXEC, libc::MS_NOEXEC);
    assert_eq!(MS_BIND, libc::MS_BIND);
    assert_eq!(MS_REC, libc::MS_REC);
    assert_eq!(MS_PRIVATE, libc::MS_PRIVATE);
}

#[test]
fn overlays_stack_their_layers_in_order() {
    let spec = OverlaySpec {
        lower_dirs: strings(&["/top", "/middle", "/base"]),
        upper_dir: "/u".to_string(),
        work_dir: "/w".to_string(),
        merged_dir: "/m".to_string(),
    };
    match mount_overlay(&spec).unwrap() {
        Step::Mount { source, target, kind, flags, data, .. } => {
            assert_eq!(source.as_deref(), Some("overlay"));
            assert_eq!(target, "/m");
            assert_eq!(kind.as_deref(), Some("overlay"));
            assert_eq!(flags, 0);
            assert_eq!(data.unwrap(), "lowerdir=/top:/middle:/base,upperdir=/u,workdir=/w,userxattr,xino=on");
        }
        _ => panic!("an overlay is a mount"),
    }
    let empty = OverlaySpec { lower_dirs: vec![], ..spec };
    assert!(matches!(mount_overlay(&empty), Err(RuntimeError::InvalidArgument(m)) if m.contains("at least one lowerdir")));
}

#[test]
fn the_old_root_is_left_behind() {
    let steps = pivot_root_into("/new");
    assert_eq!(steps.len(), 7);
    assert!(matches!(&steps[0], Step::Mount { source: Some(s), target, flags, .. }
        if s == "/new" && target == "/new" && *flags == MS_BIND | MS_REC));
    assert!(matches!(&steps[3], Step::PivotRoot { new_root, old_root } if new_root == "." && old_root == ".kiln-old-root"));
    assert!(matches!(&steps[5], Step::Detach { target, .. } if target == "/.kiln-old-root"));
    assert!(matches!(&steps[6], Step::RemoveDir(d) if d == "/.kiln-old-root"));
    assert!(matches!(unmount("/x"), Step::Detach { target, .. } if target == "/x"));
    assert!(matches!(make_mounts_private(), Step::Mount { flags, .. } if flags == MS_PRIVATE | MS_REC));
}

#[test]
fn device_nodes_come_from_the_host() {
    let steps = bind_mount_host_devices("/m", &strings(&["/dev/null", "/dev/tty"]));
    assert_eq!(steps.len(), 1 + 2 * 3 + 4 * 2);
    assert!(matches!(&steps[0], Step::MakeDirs(d) if d == "/m/dev"));
    assert!(matches!(&steps[3], Step::Mount { source: Some(s), target, .. } if s == "/dev/null" && target == "/m/dev/null"));
    assert!(matches!(&steps[8], Step::Link { link, target } if link == "/m/dev/fd" && target == "/proc/self/fd"));
    assert!(matches!(&steps[14], Step::Link { link, target } if link == "/m/dev/stderr" && target == "/proc/self/fd/2"));
    assert_eq!(bind_mount_host_resolv_conf("/m", false).len(), 0);
    assert_eq!(bind_mount_host_resolv_conf("/m", true).len(), 4);
    assert_eq!(mount_proc("/proc").len(), 2);
    assert_eq!(bind_mount("/src", "/dst").len(), 2);
}

#[test]
fn secrets_are_mounted_in_memory() {
    assert_eq!(mount_tmpfs_secrets("/m", &vec![]).len(), 0);
    let steps = mount_tmpfs_secrets("/m", &vec![("db".to_string(), b"pw".to_vec())]);
    assert_eq!(steps.len(), 3);
    assert!(matches!(&steps[1], Step::Mount { kind: Some(k), data: Some(d), flags, .. }
        if k == "tmpfs" && d == "mode=0700,size=1m" && *flags == MS_NOSUID | MS_NODEV | MS_NOEXEC));
    assert!(matches!(&steps[2], Step::WriteFile { path, content, mode: 0o400 }
        if path == "/m/run/secrets/db" && content == b"pw"));
}

// ---- Networks --------------------------------------------------------------

fn network() -> NetworkConfig {
    NetworkConfig {
        name: "web".to_string(),
        bridge: bridge_name("web"),
        subnet: "10.1.2.0/24".to_string(),
        gateway: "10.1.2.1".to_string(),
        next_host: 2,
    }
}

fn line(c: &Command) -> String {
    format!("{} {}", c.program, c.args.join(" "))
}

#[test]
fn tags_are_short_hashes() {
    for name in ["web", "", "a rather long name of a network that no interface could have"] {
        let mut h = std::collections::hash_map::DefaultHasher::new();
        name.hash(&mut h);
        assert_eq!(short_tag(name), format!("{:08x}", h.finish() as u32));
    }
    assert_eq!(bridge_name("web"), format!("kb{}", short_tag("web")));
    assert_eq!(veth_host_name("c1"), format!("kv{}", short_tag("c1")));
    assert!(bridge_name("a rather long name of a network that no interface could have").len() < 16);
    assert_eq!(interface_path("kb0"), "/sys/class/net/kb0");
    assert_eq!(config_path("/s", "web"), "/s/networks/web.json");
}

#[test]
fn addresses_are_handed_out_in_turn() {
    let mut n = network();
    assert_eq!(n.allocate_ip(), "10.1.2.2");
    assert_eq!(n.allocate_ip(), "10.1.2.3");
    assert_eq!(n.next_host, 4);
    n.next_host = 255;
    assert_eq!(n.allocate_ip(), "10.1.2.255");
    assert_eq!(n.allocate_ip(), "10.1.2.255");
    n.subnet = "nonsense".to_string();
    assert_eq!(n.subnet_prefix(), "172.30.0");
    let write = n.save("/s");
    assert_eq!((write.dir.as_str(), write.path.as_str()), ("/s/networks", "/s/networks/web.json"));
    let want = format!(
        "{{\n  \"name\": \"web\",\n  \"bridge\": \"{}\",\n  \"subnet\": \"nonsense\",\n  \"gateway\": \"{}\",\n  \"next_host\": 255\n}}",
        n.bridge, n.gateway
    );
    assert_eq!(String::from_utf8(write.content).unwrap(), want);
}

#[test]
fn gateways_are_the_first_address() {
    assert_eq!(subnet_gateway("10.1.2.0/24").unwrap(), "10.1.2.1");
    assert_eq!(subnet_gateway("10.1.2.9").unwrap(), "10.1.2.1");
    let e = subnet_gateway("10.1/16").unwrap_err();
    assert_eq!(e.message(), "invalid argument: invalid subnet \"10.1/16\", expected a.b.c.d/nn");
}

#[test]
fn bridges_are_set_up_and_taken_down() {
    let n = network();
    let b = n.bridge.clone();
    let up: Vec<String> = setup_bridge(&n).iter().map(line).collect();
    assert_eq!(up[0], format!("ip link add {b} type bridge"));
    assert_eq!(up[1], format!("ip link set {b} up"));
    assert_eq!(up[2], format!("ip addr add 10.1.2.1/24 dev {b}"));
    assert_eq!(up[3], "sysctl -w net.ipv4.ip_forward=1");
    assert_eq!(up[4], format!("iptables -t nat -A POSTROUTING -s 10.1.2.0/24 ! -o {b} -j MASQUERADE"));
    let required: Vec<bool> = setup_bridge(&n).iter().map(|c| c.required).collect();
    assert_eq!(required, vec![true, true, true, false, false]);
    let down = remove_network("web", &Some(n)).unwrap();
    assert_eq!(line(&down[0]), format!("ip link del {b}"));
    assert_eq!(line(&down[1]), format!("iptables -t nat -D POSTROUTING -s 10.1.2.0/24 ! -o {b} -j MASQUERADE"));
    match remove_network("nope", &None) {
        Err(e) => assert_eq!(e.message(), "invalid argument: no such network: nope"),
        Ok(_) => panic!("there is no such network"),
    }
}

#[test]
fn networks_are_made_once() {
    let e = ensure_network(None, "web", "10.1.2.0/24", false).unwrap();
    assert!(e.save);
    assert_eq!(e.commands.len(), 5);
    assert_eq!(e.config.gateway, "10.1.2.1");
    assert_eq!(e.config.next_host, 2);
    let again = ensure_network(Some(e.config), "web", "10.9.9.0/24", false).unwrap();
    assert!(!again.save && again.commands.is_empty());
    assert_eq!(again.config.subnet, "10.1.2.0/24");
    assert_eq!(ensure_network(None, "web", "10.1.2.0/24", true).unwrap().commands.len(), 0);
    assert!(ensure_network(None, "web", "bad", true).is_err());
}

#[test]
fn containers_get_a_link_to_their_network() {
    let n = network();
    let bridge = n.bridge.clone();
    let a = attach_container("web", Some(n), true, "c1", 42).unwrap();
    assert!(a.repair.is_empty());
    assert_eq!(a.ip, "10.1.2.2");
    assert_eq!(a.config.next_host, 3);
    let tag = short_tag("c1");
    let lines: Vec<String> = a.commands.iter().map(line).collect();
    assert_eq!(lines[0], format!("ip link add kv{tag} type veth peer name kp{tag}"));
    assert_eq!(lines[1], format!("ip link set kv{tag} master {bridge}"));
    assert_eq!(lines[3], format!("ip link set kp{tag} netns 42"));
    assert_eq!(lines[5], "nsenter -t 42 -n ip addr add 10.1.2.2/24 dev eth0");
    assert_eq!(lines[8], "nsenter -t 42 -n ip route add default via 10.1.2.1");
    assert_eq!(lines.len(), 9);
    assert_eq!(attach_container("web", Some(network()), false, "c1", 42).unwrap().repair.len(), 5);
    assert!(attach_container("web", None, true, "c1", 42).is_err());
}

#[test]
fn commands_that_fail_are_named() {
    let c = Command { program: "ip".to_string(), args: strings(&["link", "a b"]), required: true };
    assert!(run_cmd(&c, &Ran::Succeeded).is_ok());
    assert_eq!(
        run_cmd(&c, &Ran::NotStarted("no such file".to_string())).unwrap_err().message(),
        "invalid argument: running ip [\"link\", \"a b\"]: no such file"
    );
    assert_eq!(
        run_cmd(&c, &Ran::Ended("exit status: 2".to_string())).unwrap_err().message(),
        "invalid argument: ip [\"link\", \"a b\"] exited with exit status: 2"
    );
}

#[test]
fn traffic_counters_are_read() {
    let some = |s: &str| Some(s.to_string());
    assert_eq!(veth_stats(&some("10\n"), &some("20\n")), Some((10, 20)));
    assert_eq!(veth_stats(&None, &some("20\n")), None);
    assert_eq!(veth_stats(&some("x"), &some("20\n")), None);
    let (rx, tx) = veth_counters("c1");
    assert_eq!(rx, format!("/sys/class/net/kv{}/statistics/rx_bytes", short_tag("c1")));
    assert_eq!(tx, format!("/sys/class/net/kv{}/statistics/tx_bytes", short_tag("c1")));
}

/// An Ethernet frame with an IPv4 packet of the given protocol.
fn frame(protocol: u8) -> Vec<u8> {
    let mut p: Vec<u8> = vec![0; 14];
    p[12] = 0x08;
    p.extend_from_slice(&[0x45, 0, 0, 60, 0, 0, 0, 0, 64, protocol, 0, 0, 10, 1, 2, 3, 192, 168, 0, 9]);
    p.extend_from_slice(&[0x1f, 0x90, 0x00, 0x35]);
    p.resize(p.len() + 16, 0);
    p
}

#[test]
fn packets_are_observed_and_read_back() {
    for protocol in [6, 17] {
        let (verdict, seen) = flow_egress(&frame(protocol));
        assert_eq!(verdict, TC_ACT_PIPE);
        let bytes = to_record(&seen.unwrap());
        assert_eq!(bytes.len(), 20);
        let e = from_record(&bytes).unwrap();
        assert!(e.to_container);
        assert_eq!(e.protocol, protocol);
        assert_eq!(write_address(&e.src_addr), "10.1.2.3");
        assert_eq!(write_address(&e.dst_addr), "192.168.0.9");
        assert_eq!((e.src_port, e.dst_port, e.len), (8080, 53, 60));
    }
    let (_, seen) = flow_ingress(&frame(6));
    assert!(!from_record(&to_record(&seen.unwrap())).unwrap().to_container);
}

#[test]
fn other_packets_pass_unobserved() {
    assert_eq!(handle(&frame(1), 0).1.is_some(), false);
    assert!(matches!(try_handle(&frame(1), 0), Ok(None)));
    let mut v6 = frame(6);
    v6[12] = 0x86;
    v6[13] = 0xdd;
    assert!(matches!(try_handle(&v6, 0), Ok(None)));
    assert!(try_handle(&frame(6)[..13], 0).is_err());
    assert!(try_handle(&frame(6)[..33], 0).is_err());
    assert!(try_handle(&frame(6)[..53], 0).is_err());
    assert!(try_handle(&frame(17)[..42], 0).is_ok());
    let mut long_header = frame(17);
    long_header[14] = 0x46;
    assert!(try_handle(&long_header[..42], 0).is_err());
    assert_eq!(handle(&frame(6)[..13], 0).0, TC_ACT_PIPE);
}

#[test]
fn short_records_are_skipped() {
    let whole = to_record(&flow_egress(&frame(6)).1.unwrap());
    let events = drain(&vec![whole[..19].to_vec(), whole.clone(), vec![]]);
    assert_eq!(events.len(), 1);
    assert_eq!(events[0].dst_port, 53);
}

#[test]
fn observers_say_what_went_wrong() {
    assert_eq!(observed_interface("c1", true).unwrap(), veth_host_name("c1"));
    assert_eq!(
        observed_interface("c1", false).unwrap_err().message(),
        "invalid argument: no network attached to container c1"
    );
    let e = |a: Attaching| attach_classifier("flow_ingress", "kv0", &a).unwrap_err().message();
    assert!(attach_classifier("flow_ingress", "kv0", &Attaching::Done).is_ok());
    assert!(e(Attaching::Missing).ends_with("kiln-net-bpf object has no program named flow_ingress"));
    assert!(e(Attaching::OtherKind("x".to_string())).ends_with("flow_ingress is not a TC classifier: x"));
    assert!(e(Attaching::NotLoaded("x".to_string())).ends_with("loading flow_ingress: x"));
    assert!(e(Attaching::NotAttached("x".to_string())).ends_with("attaching flow_ingress to kv0: x"));
}

// ---- Namespaces and identities ---------------------------------------------

#[test]
fn namespaces_become_the_kernels_flags() {
    let all = Namespaces::all().to_clone_flags();
    let flags = libc::CLONE_NEWPID
        | libc::CLONE_NEWNS
        | libc::CLONE_NEWUTS
        | libc::CLONE_NEWIPC
        | libc::CLONE_NEWNET
        | libc::CLONE_NEWUSER;
    assert_eq!(all, flags as u64);
    let none = Namespaces { pid: false, mount: false, uts: false, ipc: false, net: false, user: false };
    assert_eq!(none.to_clone_flags(), 0);
    let pid_only = Namespaces { pid: true, ..none };
    assert_eq!(pid_only.to_clone_flags(), libc::CLONE_NEWPID as u64);
}

#[test]
fn identity_maps_are_written_for_the_child() {
    let mut s = Spawn::default();
    assert_eq!(id_map_writes(&s, 7).len(), 0);
    s.uid_map = vec![IdMap { container_id: 0, host_id: 100000, count: 65536 }];
    s.gid_map = vec![IdMap { container_id: 0, host_id: 1, count: 2 }, IdMap { container_id: 5, host_id: 6, count: 7 }];
    let w = id_map_writes(&s, 7);
    assert_eq!(w[0], ("/proc/7/gid_map".to_string(), "0 1 2\n5 6 7\n".to_string()));
    assert_eq!(w[1], ("/proc/7/uid_map".to_string(), "0 100000 65536\n".to_string()));
    s.namespaces.user = false;
    assert_eq!(id_map_writes(&s, 7).len(), 0);
    assert_eq!(ns_paths(7, &strings(&["user", "mnt"])), vec!["/proc/7/ns/user", "/proc/7/ns/mnt"]);
    let c = spawn_paused(&Spawn::default());
    assert_eq!(c.stack_size, 8 * 1024 * 1024);
    assert_eq!(c.flags, Namespaces::all().to_clone_flags());
}

#[test]
fn a_child_waits_to_be_released() {
    let name = Some("box".to_string());
    assert!(matches!(child_step(&name, &ChildEvent::Started), ChildAction::WaitForRelease));
    assert!(matches!(child_step(&name, &ChildEvent::Interrupted), ChildAction::WaitForRelease));
    assert!(matches!(child_step(&name, &ChildEvent::Released), ChildAction::SetHostname(n) if n == "box"));
    assert!(matches!(child_step(&None, &ChildEvent::Released), ChildAction::RunEntry));
    assert!(matches!(child_step(&name, &ChildEvent::Named), ChildAction::RunEntry));
    assert!(matches!(child_step(&name, &ChildEvent::Finished), ChildAction::Exit { code: 0, complaint: None }));
    for (event, text) in [
        (ChildEvent::WaitFailed("e".to_string()), "kiln: container child: waiting for release failed: e"),
        (ChildEvent::NameFailed("e".to_string()), "kiln: container child: sethostname failed: e"),
        (ChildEvent::Failed("e".to_string()), "kiln: container child failed: e"),
    ] {
        assert!(matches!(child_step(&name, &event), ChildAction::Exit { code: 1, complaint: Some(c) } if c == text));
    }
}

#[test]
fn identities_survive_the_host() {
    let base = SUBORDINATE_UID_BASE;
    for id in [0, 1, 1000, SUBORDINATE_RANGE - 1] {
        assert_eq!(container_to_host(id, base), base + id);
        assert_eq!(host_to_container(container_to_host(id, base), base), id);
        assert_ne!(container_to_host(id, base), 0);
    }
    let map = container_id_map(base);
    assert_eq!(map.len(), 1);
    assert_eq!((map[0].container_id, map[0].host_id, map[0].count), (0, base, SUBORDINATE_RANGE));
}

// ---- Capabilities and system calls -----------------------------------------

fn profile(add: &[&str], drop: &[&str]) -> SecurityProfile {
    SecurityProfile { seccomp_unconfined: false, cap_add: strings(add), cap_drop: strings(drop) }
}

#[test]
fn capability_numbers_are_the_kernels() {
    let pairs = [
        ("CAP_CHOWN", caps::Capability::CAP_CHOWN),
        ("CAP_SYS_ADMIN", caps::Capability::CAP_SYS_ADMIN),
        ("CAP_NET_ADMIN", caps::Capability::CAP_NET_ADMIN),
        ("CAP_CHECKPOINT_RESTORE", caps::Capability::CAP_CHECKPOINT_RESTORE),
    ];
    for (name, c) in pairs {
        assert_eq!(parse_capability(name).unwrap(), c.index());
        assert_eq!(parse_capability(&name[4..].to_lowercase()).unwrap(), c.index());
    }
    assert!(parse_capability("CAP_NOPE").is_err());
}

#[test]
fn capabilities_are_the_baseline_and_what_is_asked_for() {
    let base = effective_capabilities(&profile(&[], &[])).unwrap();
    let mut want = BASELINE_CAPABILITIES.to_vec();
    want.sort();
    let mut got = base.clone();
    got.sort();
    assert_eq!(got, want);
    let admin = parse_capability("SYS_ADMIN").unwrap();
    assert!(effective_capabilities(&profile(&["SYS_ADMIN"], &[])).unwrap().contains(&admin));
    assert!(!effective_capabilities(&profile(&["SYS_ADMIN"], &["CAP_SYS_ADMIN"])).unwrap().contains(&admin));
    let chown = parse_capability("CHOWN").unwrap();
    assert!(!effective_capabilities(&profile(&[], &["CHOWN"])).unwrap().contains(&chown));
    assert!(effective_capabilities(&profile(&["nope"], &[])).is_err());
    let gone = drop_capabilities(&profile(&[], &[])).unwrap();
    assert!(gone.contains(&admin) && !gone.contains(&chown));
    assert_eq!(gone.len() + base.len(), caps::all().len());
    assert_eq!(capabilities_outside(&vec![1, 2, 3], &vec![2]), vec![1, 3]);
}

#[test]
fn bounding_sets_are_read() {
    let status = Ok("Name:\tx\nCapBnd:\t00000000a80425fb\n".to_string());
    let mask = read_capability_bounding_set(1, &status).unwrap();
    assert_eq!(mask, 0xa80425fb);
    let names = decode_capability_set(mask);
    assert!(names.contains(&parse_capability("CHOWN").unwrap()));
    assert!(!names.contains(&parse_capability("SYS_ADMIN").unwrap()));
    assert!(read_capability_bounding_set(1, &Ok("Name:\tx\n".to_string())).is_err());
    assert!(read_capability_bounding_set(1, &Ok("CapBnd:\tzz\n".to_string())).is_err());
    assert!(read_capability_bounding_set(1, &Err("gone".to_string())).is_err());
}

#[test]
fn filters_are_compiled() {
    let p = profile(&[], &[]);
    let programs = apply_seccomp(&p, "x86_64").unwrap();
    assert!(!programs.is_empty());
    for prog in &programs {
        assert!(!prog.is_empty());
        assert_eq!(prog.last().map(|i| i.code), Some(libc::BPF_RET as u16));
    }
    let open = SecurityProfile { seccomp_unconfined: true, ..profile(&[], &[]) };
    assert!(apply_seccomp(&open, "x86_64").unwrap().is_empty());
    assert!(apply_seccomp(&p, "z80").is_err());
    let more = apply_seccomp(&profile(&["SYS_ADMIN"], &[]), "x86_64").unwrap();
    let len = |v: &Vec<Vec<kiln::security::Instruction>>| v.iter().map(|p| p.len()).sum::<usize>();
    assert!(len(&more) > len(&programs));
}

#[test]
fn system_call_numbers_are_the_kernels() {
    let allowed = syscalls::unconditionally_allowed_syscalls();
    for n in [
        libc::SYS_read,
        libc::SYS_write,
        libc::SYS_execve,
        libc::SYS_exit_group,
        libc::SYS_futex,
        libc::SYS_mmap,
        libc::SYS_openat,
    ] {
        assert!(allowed.contains(&n), "{n} should be allowed");
        assert!(syscalls::is_ordinary(n));
    }
    for n in [libc::SYS_reboot, libc::SYS_kexec_load, libc::SYS_init_module, libc::SYS_mount] {
        assert!(!allowed.contains(&n), "{n} should not be allowed");
    }
    let admin = parse_capability("SYS_ADMIN").unwrap();
    assert!(syscalls::conditionally_allowed_syscalls(admin).contains(&libc::SYS_mount));
    let boot = parse_capability("SYS_BOOT").unwrap();
    assert_eq!(syscalls::conditionally_allowed_syscalls(boot), vec![libc::SYS_reboot]);
    assert!(syscalls::conditionally_allowed_syscalls(parse_capability("CHOWN").unwrap()).is_empty());
}
