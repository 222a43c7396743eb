//! Bridge networks: their configuration, the addresses they hand out, and the
//! commands that set them up, attach containers to them and take them down.

use crate::codec::{bytes_of, json_str, json_string, quoted, quoted_text};
use crate::error::RuntimeError;
use crate::image::opt_text;
use crate::num::{decimal, hex_digit, i32_text, parse_unsigned, parsed_unsigned, signed_decimal, u64_text};
use crate::paths::{joined_path, path_join};
use crate::pretty::{
    add_line, laid_member, laid_object, members_show_their_values, numbers_show_their_value, object_lines,
    objects_show_their_members, strings_show_their_text, told_apart,
};
use crate::store::FileWrite;
use crate::text::{
    cat2, cat3, cat4, cut_last, join, joined, pieces, rsplit_once, split, trim, trimmed, views,
};
use std::collections::hash_map::DefaultHasher;
use std::hash::Hasher;
use vstd::prelude::*;
use vstd::std_specs::hash::DefaultHasherAdditionalSpecFns;
use vstd::utf8::encode_utf8;

verus! {

// ---- Configuration ---------------------------------------------------------

/// One bridge network.
#[derive(Debug)]
pub struct NetworkConfig {
    pub name: String,
    pub bridge: String,
    pub subnet: String,
    pub gateway: String,
    /// The last part of the next address. It only ever grows.
    pub next_host: u8,
}

/// The contents of a network's configuration.
pub struct NetworkView {
    pub name: Seq<char>,
    pub bridge: Seq<char>,
    pub subnet: Seq<char>,
    pub gateway: Seq<char>,
    pub next_host: u8,
}

impl View for NetworkConfig {
    type V = NetworkView;

    open spec fn view(&self) -> NetworkView {
        NetworkView {
            name: self.name@,
            bridge: self.bridge@,
            subnet: self.subnet@,
            gateway: self.gateway@,
            next_host: self.next_host,
        }
    }
}

/// The members of a network's configuration.
pub open spec fn network_line_members(n: NetworkView) -> Seq<Seq<char>> {
    seq![
        laid_member("name"@, json_string(n.name)),
        laid_member("bridge"@, json_string(n.bridge)),
        laid_member("subnet"@, json_string(n.subnet)),
        laid_member("gateway"@, json_string(n.gateway)),
        laid_member("next_host"@, decimal(n.next_host as nat)),
    ]
}

/// What the file of a network holds.
pub open spec fn network_file_text(n: NetworkView) -> Seq<char> {
    laid_object(network_line_members(n), 0)
}

/// Where networks are kept.
pub open spec fn networks_at(root: Seq<char>) -> Seq<char> {
    joined_path(root, "networks"@)
}

/// The file of a network.
pub open spec fn network_file(root: Seq<char>, name: Seq<char>) -> Seq<char> {
    joined_path(networks_at(root), name + ".json"@)
}

/// Where networks are kept.
pub fn networks_dir(store_root: &str) -> (r: String)
    ensures
        r@ == networks_at(store_root@),
{
    path_join(store_root, "networks")
}

/// The file of a network.
pub fn config_path(store_root: &str, name: &str) -> (r: String)
    ensures
        r@ == network_file(store_root@, name@),
{
    let dir = networks_dir(store_root);
    let file = cat2(name, ".json");
    path_join(dir.as_str(), file.as_str())
}

/// The address of a subnet, without the length of its prefix.
pub open spec fn net_of(subnet: Seq<char>) -> Seq<char> {
    pieces(subnet, '/')[0]
}

/// What the addresses of a subnet begin with.
pub open spec fn prefix_of(subnet: Seq<char>) -> Seq<char> {
    match cut_last(net_of(subnet), '.') {
        Some((p, _)) => p,
        None => "172.30.0"@,
    }
}

/// An address in a subnet.
pub open spec fn address(subnet: Seq<char>, host: nat) -> Seq<char> {
    prefix_of(subnet) + "."@ + decimal(host)
}

/// The address of the bridge in a subnet of the form `a.b.c.d/nn`.
pub open spec fn gateway_of(subnet: Seq<char>) -> Option<Seq<char>> {
    let p = pieces(net_of(subnet), '.');
    if p.len() == 4 {
        Some(joined(seq![p[0], p[1], p[2], "1"@], "."@))
    } else {
        None
    }
}

/// The address of a subnet, without the length of its prefix.
fn subnet_net(subnet: &str) -> (r: String)
    ensures
        r@ == net_of(subnet@),
{
    let mut parts = split(subnet, '/');
    proof {
        crate::text::lemma_pieces_nonempty(subnet@, '/');
        assert(views(parts@)[0] == parts@[0]@);
    }
    parts.swap_remove(0)
}

impl NetworkConfig {
    /// The file of the configuration as it has to be written.
    pub fn save(&self, store_root: &str) -> (r: FileWrite)
        ensures
            r.dir@ == networks_at(store_root@),
            r.path@ == network_file(store_root@, self.name@),
            r.content@ == encode_utf8(network_file_text(self@)),
    {
        let name = json_str(self.name.as_str());
        let bridge = json_str(self.bridge.as_str());
        let subnet = json_str(self.subnet.as_str());
        let gateway = json_str(self.gateway.as_str());
        let next_host = u64_text(self.next_host as u64);
        let mut members: Vec<String> = Vec::new();
        add_line(&mut members, "name", name.as_str());
        add_line(&mut members, "bridge", bridge.as_str());
        add_line(&mut members, "subnet", subnet.as_str());
        add_line(&mut members, "gateway", gateway.as_str());
        add_line(&mut members, "next_host", next_host.as_str());
        assert(views(members@) =~= network_line_members(self@));
        let text = object_lines(&members, 0);
        FileWrite {
            dir: networks_dir(store_root),
            path: config_path(store_root, self.name.as_str()),
            content: bytes_of(text.as_str()),
        }
    }

    /// What the addresses of the network begin with.
    pub fn subnet_prefix(&self) -> (r: String)
        ensures
            r@ == prefix_of(self.subnet@),
    {
        let net = subnet_net(self.subnet.as_str());
        match rsplit_once(net.as_str(), '.') {
            Some((p, _)) => p.to_owned(),
            None => "172.30.0".to_owned(),
        }
    }

    /// Hands out the next address. The last one is handed out again and again.
    pub fn allocate_ip(&mut self) -> (r: String)
        ensures
            r@ == address(old(self).subnet@, old(self).next_host as nat),
            final(self)@ == (NetworkView {
                next_host: if old(self).next_host == 255 {
                    255u8
                } else {
                    (old(self).next_host + 1) as u8
                },
                ..old(self)@
            }),
    {
        let prefix = self.subnet_prefix();
        let host = u64_text(self.next_host as u64);
        let ip = cat3(prefix.as_str(), ".", host.as_str());
        self.next_host = self.next_host.saturating_add(1);
        ip
    }
}

/// The gateway of a subnet.
pub fn subnet_gateway(subnet: &str) -> (r: Result<String, RuntimeError>)
    ensures
        match r {
            Ok(g) => gateway_of(subnet@) == Some(g@),
            Err(e) => gateway_of(subnet@) is None && (e matches RuntimeError::InvalidArgument(m) && m@
                == "invalid subnet "@ + quoted_text(subnet@) + ", expected a.b.c.d/nn"@),
        },
{
    let net = subnet_net(subnet);
    let mut parts = split(net.as_str(), '.');
    if parts.len() != 4 {
        let q = quoted(subnet);
        return Err(RuntimeError::InvalidArgument(cat3("invalid subnet ", q.as_str(), ", expected a.b.c.d/nn")));
    }
    let ghost p = views(parts@);
    parts.set(3, "1".to_owned());
    assert(views(parts@) =~= seq![p[0], p[1], p[2], "1"@]);
    Ok(join(&parts, "."))
}

// ---- Names -----------------------------------------------------------------

/// What hashing a text hands to the hasher, write by write.
pub uninterp spec fn fed(s: Seq<char>) -> Seq<Seq<u8>>;

/// `<str as std::hash::Hash>::hash`: hands the text to the hasher, the same
/// text always in the same way.
#[verifier::external_body]
fn feed(s: &str, hasher: &mut DefaultHasher)
    ensures
        final(hasher)@ == old(hasher)@ + fed(s@),
{
    std::hash::Hash::hash(s, hasher)
}

/// The last `width` hexadecimal digits of a number.
pub open spec fn hex_tail(n: nat, width: nat) -> Seq<char>
    decreases width,
{
    if width == 0 {
        Seq::empty()
    } else {
        hex_tail(n / 16, (width - 1) as nat).push(hex_digit((n % 16) as int))
    }
}

/// There are `width` digits.
proof fn lemma_hex_tail(n: nat, width: nat)
    ensures
        hex_tail(n, width).len() == width,
    decreases width,
{
    if width > 0 {
        lemma_hex_tail(n / 16, (width - 1) as nat);
    }
}

/// The last `width` hexadecimal digits of a number.
fn write_hex_tail(n: u64, width: u32) -> (r: String)
    ensures
        r@ == hex_tail(n as nat, width as nat),
    decreases width,
{
    if width == 0 {
        return String::new();
    }
    let d: u8 = (n % 16) as u8;
    let c: char = if d < 10 {
        (48 + d) as char
    } else {
        (87 + d) as char
    };
    let mut out = write_hex_tail(n / 16, width - 1);
    out.push(c);
    out
}

/// The short tag of a name.
pub open spec fn tag_of(s: Seq<char>) -> Seq<char> {
    hex_tail(DefaultHasher::spec_finish(fed(s)) as nat, 8)
}

/// A short tag of a name of any length: eight digits of its hash. The hasher
/// has fixed keys, so the same name always has the same tag.
pub fn short_tag(s: &str) -> (r: String)
    ensures
        r@ == tag_of(s@),
        r@.len() == 8,
{
    let mut hasher = DefaultHasher::new();
    feed(s, &mut hasher);
    assert(hasher@ =~= fed(s@));
    let hash: u64 = hasher.finish();
    proof {
        lemma_hex_tail(hash as nat, 8);
    }
    write_hex_tail(hash, 8)
}

/// How many bytes the name of an interface can have, the final zero included.
pub const IFNAMSIZ: usize = 16;

/// The bridge of a network. The kernel takes the name, however long that of
/// the network is.
pub fn bridge_name(network_name: &str) -> (r: String)
    ensures
        r@ == "kb"@ + tag_of(network_name@),
        r@.len() < IFNAMSIZ,
{
    proof {
        reveal_strlit("kb");
    }
    let tag = short_tag(network_name);
    cat2("kb", tag.as_str())
}

/// The host's end of a container's link. The kernel takes the name.
pub fn veth_host_name(container_id: &str) -> (r: String)
    ensures
        r@ == "kv"@ + tag_of(container_id@),
        r@.len() < IFNAMSIZ,
{
    proof {
        reveal_strlit("kv");
    }
    let tag = short_tag(container_id);
    cat2("kv", tag.as_str())
}

/// The path that is there if an interface is.
pub fn interface_path(name: &str) -> (r: String)
    ensures
        r@ == "/sys/class/net/"@ + name@,
{
    cat2("/sys/class/net/", name)
}

/// The files with the bytes that a container received and sent, as the host's
/// end of its link counts them.
pub fn veth_counters(container_id: &str) -> (r: (String, String))
    ensures
        ({
            let base = "/sys/class/net/"@ + ("kv"@ + tag_of(container_id@)) + "/statistics"@;
            r.0@ == base + "/rx_bytes"@ && r.1@ == base + "/tx_bytes"@
        }),
{
    let name = veth_host_name(container_id);
    let base = cat3("/sys/class/net/", name.as_str(), "/statistics");
    (cat2(base.as_str(), "/rx_bytes"), cat2(base.as_str(), "/tx_bytes"))
}

/// The number in a counter's file.
pub open spec fn counter(read: Option<Seq<char>>) -> Option<nat> {
    match read {
        Some(t) => parsed_unsigned(trimmed(t), u64::MAX as nat),
        None => None,
    }
}

/// The traffic of a container by the counters of its link's host-side end,
/// received and sent, given what their files hold: nothing if either cannot
/// be read.
pub fn veth_stats(rx: &Option<String>, tx: &Option<String>) -> (r: Option<(u64, u64)>)
    ensures
        match r {
            Some((a, b)) => counter(opt_text(*rx)) == Some(a as nat) && counter(opt_text(*tx)) == Some(b as nat),
            None => counter(opt_text(*rx)) is None || counter(opt_text(*tx)) is None,
        },
{
    let a = match rx {
        Some(t) => parse_unsigned(trim(t.as_str()), u64::MAX),
        None => None,
    };
    let b = match tx {
        Some(t) => parse_unsigned(trim(t.as_str()), u64::MAX),
        None => None,
    };
    match (a, b) {
        (Some(x), Some(y)) => Some((x, y)),
        _ => None,
    }
}

// ---- Commands --------------------------------------------------------------

/// A program to run. The failure of one that is not required is ignored.
pub struct Command {
    pub program: String,
    pub args: Vec<String>,
    pub required: bool,
}

/// What a command is.
pub struct CommandView {
    pub program: Seq<char>,
    pub args: Seq<Seq<char>>,
    pub required: bool,
}

impl View for Command {
    type V = CommandView;

    open spec fn view(&self) -> CommandView {
        CommandView { program: self.program@, args: views(self.args@), required: self.required }
    }
}

/// What a list of commands is.
pub open spec fn commands(v: Seq<Command>) -> Seq<CommandView> {
    v.map_values(|c: Command| c@)
}

/// A command that must succeed.
pub open spec fn must(program: Seq<char>, args: Seq<Seq<char>>) -> CommandView {
    CommandView { program, args, required: true }
}

/// A command that may fail.
pub open spec fn may(program: Seq<char>, args: Seq<Seq<char>>) -> CommandView {
    CommandView { program, args, required: false }
}

/// The texts behind a list of them.
pub open spec fn texts(v: Seq<&str>) -> Seq<Seq<char>> {
    v.map_values(|s: &str| s@)
}

/// A command.
fn command(program: &str, args: &[&str], required: bool) -> (r: Command)
    ensures
        r@ == (CommandView { program: program@, args: texts(args@), required }),
{
    let mut out: Vec<String> = Vec::new();
    let mut i: usize = 0;
    while i < args.len()
        invariant
            i <= args@.len(),
            views(out@) == texts(args@).take(i as int),
        decreases args.len() - i,
    {
        let s = args[i].to_owned();
        assert(views(out@.push(s)) =~= views(out@).push(s@));
        assert(texts(args@).take(i + 1) =~= texts(args@).take(i as int).push(s@));
        out.push(s);
        i += 1;
    }
    assert(texts(args@).take(i as int) =~= texts(args@));
    Command { program: program.to_owned(), args: out, required }
}

/// How a program came out.
pub enum Ran {
    Succeeded,
    /// It could not be started.
    NotStarted(String),
    /// It ended with this status.
    Ended(String),
}

/// Arguments as they appear in messages.
pub open spec fn args_text(args: Seq<Seq<char>>) -> Seq<char> {
    "["@ + joined(args.map_values(|a: Seq<char>| quoted_text(a)), ", "@) + "]"@
}

/// Arguments as they appear in messages.
fn write_args(args: &Vec<String>) -> (r: String)
    ensures
        r@ == args_text(views(args@)),
{
    let ghost all = views(args@).map_values(|a: Seq<char>| quoted_text(a));
    let mut out: Vec<String> = Vec::new();
    let mut i: usize = 0;
    while i < args.len()
        invariant
            i <= args@.len(),
            all == views(args@).map_values(|a: Seq<char>| quoted_text(a)),
            views(out@) == all.take(i as int),
        decreases args.len() - i,
    {
        let q = quoted(args[i].as_str());
        assert(views(out@.push(q)) =~= views(out@).push(q@));
        assert(all.take(i + 1) =~= all.take(i as int).push(q@));
        out.push(q);
        i += 1;
    }
    assert(all.take(i as int) =~= all);
    let inner = join(&out, ", ");
    cat3("[", inner.as_str(), "]")
}

/// What a command's outcome means.
pub fn run_cmd(cmd: &Command, ran: &Ran) -> (r: Result<(), RuntimeError>)
    ensures
        match (*ran, r) {
            (Ran::Succeeded, Ok(_)) => true,
            (Ran::NotStarted(e), Err(RuntimeError::InvalidArgument(m))) => m@ == "running "@ + cmd@.program + " "@
                + args_text(cmd@.args) + ": "@ + e@,
            (Ran::Ended(status), Err(RuntimeError::InvalidArgument(m))) => m@ == cmd@.program + " "@ + args_text(
                cmd@.args,
            ) + " exited with "@ + status@,
            _ => false,
        },
{
    match ran {
        Ran::Succeeded => Ok(()),
        Ran::NotStarted(e) => {
            let args = write_args(&cmd.args);
            let head = cat4("running ", cmd.program.as_str(), " ", args.as_str());
            Err(RuntimeError::InvalidArgument(cat3(head.as_str(), ": ", e.as_str())))
        },
        Ran::Ended(status) => {
            let args = write_args(&cmd.args);
            let head = cat3(cmd.program.as_str(), " ", args.as_str());
            Err(RuntimeError::InvalidArgument(cat3(head.as_str(), " exited with ", status.as_str())))
        },
    }
}

/// The rule that hides a network's addresses behind the host's, added or
/// removed by `verb`.
pub open spec fn masquerade(verb: Seq<char>, cfg: NetworkView) -> CommandView {
    may(
        "iptables"@,
        seq![
            "-t"@,
            "nat"@,
            verb,
            "POSTROUTING"@,
            "-s"@,
            cfg.subnet,
            "!"@,
            "-o"@,
            cfg.bridge,
            "-j"@,
            "MASQUERADE"@,
        ],
    )
}

/// The rule that hides a network's addresses behind the host's.
fn masquerade_command(verb: &str, cfg: &NetworkConfig) -> (r: Command)
    ensures
        r@ == masquerade(verb@, cfg@),
{
    let args = [
        "-t",
        "nat",
        verb,
        "POSTROUTING",
        "-s",
        cfg.subnet.as_str(),
        "!",
        "-o",
        cfg.bridge.as_str(),
        "-j",
        "MASQUERADE",
    ];
    assert(texts(args@) =~= masquerade(verb@, cfg@).args);
    command("iptables", &args, false)
}

/// The commands that set up a network's bridge.
pub open spec fn setup_commands(cfg: NetworkView) -> Seq<CommandView> {
    seq![
        must("ip"@, seq!["link"@, "add"@, cfg.bridge, "type"@, "bridge"@]),
        must("ip"@, seq!["link"@, "set"@, cfg.bridge, "up"@]),
        must("ip"@, seq!["addr"@, "add"@, cfg.gateway + "/24"@, "dev"@, cfg.bridge]),
        may("sysctl"@, seq!["-w"@, "net.ipv4.ip_forward=1"@]),
        masquerade("-A"@, cfg),
    ]
}

/// The commands that set up a network's bridge.
pub fn setup_bridge(cfg: &NetworkConfig) -> (r: Vec<Command>)
    ensures
        commands(r@) == setup_commands(cfg@),
{
    let bridge = cfg.bridge.as_str();
    let gateway = cat2(cfg.gateway.as_str(), "/24");
    let ghost plan = setup_commands(cfg@);
    let mut out: Vec<Command> = Vec::new();
    let add = ["link", "add", bridge, "type", "bridge"];
    assert(texts(add@) =~= plan[0].args);
    out.push(command("ip", &add, true));
    let up = ["link", "set", bridge, "up"];
    assert(texts(up@) =~= plan[1].args);
    out.push(command("ip", &up, true));
    let addr = ["addr", "add", gateway.as_str(), "dev", bridge];
    assert(texts(addr@) =~= plan[2].args);
    out.push(command("ip", &addr, true));
    let forward = ["-w", "net.ipv4.ip_forward=1"];
    assert(texts(forward@) =~= plan[3].args);
    out.push(command("sysctl", &forward, false));
    out.push(masquerade_command("-A", cfg));
    assert(commands(out@) =~= plan);
    out
}

/// The commands that take a network's bridge down.
pub open spec fn teardown_commands(cfg: NetworkView) -> Seq<CommandView> {
    seq![may("ip"@, seq!["link"@, "del"@, cfg.bridge]), masquerade("-D"@, cfg)]
}

/// The commands that take a network down, given its configuration if there is
/// one. After them, the configuration's file is removed.
pub fn remove_network(name: &str, cfg: &Option<NetworkConfig>) -> (r: Result<Vec<Command>, RuntimeError>)
    ensures
        match (*cfg, r) {
            (Some(c), Ok(v)) => commands(v@) == seq![
                may("ip"@, seq!["link"@, "del"@, c@.bridge]),
                masquerade("-D"@, c@),
            ] && commands(v@) == teardown_commands(c@),
            (None, Err(RuntimeError::InvalidArgument(m))) => m@ == "no such network: "@ + name@,
            _ => false,
        },
{
    match cfg {
        None => Err(RuntimeError::InvalidArgument(cat2("no such network: ", name))),
        Some(c) => {
            let del = ["link", "del", c.bridge.as_str()];
            assert(texts(del@) =~= seq!["link"@, "del"@, c@.bridge]);
            let mut out: Vec<Command> = Vec::new();
            out.push(command("ip", &del, false));
            out.push(masquerade_command("-D", c));
            assert(commands(out@) =~= teardown_commands(c@));
            Ok(out)
        },
    }
}

/// A network that is to be there: the commands to run, and whether its
/// configuration is to be saved after them.
pub struct Ensured {
    pub config: NetworkConfig,
    pub commands: Vec<Command>,
    pub save: bool,
}

/// The configuration of a new network.
pub open spec fn new_network(name: Seq<char>, subnet: Seq<char>, gateway: Seq<char>) -> NetworkView {
    NetworkView { name, bridge: "kb"@ + tag_of(name), subnet, gateway, next_host: 2 }
}

/// Makes sure that a network is there, given its configuration if it has one.
/// A bridge that is already there, set up on behalf of another store, is
/// adopted.
pub fn ensure_network(existing: Option<NetworkConfig>, name: &str, subnet: &str, bridge_exists: bool) -> (r: Result<
    Ensured,
    RuntimeError,
>)
    ensures
        match (existing, r) {
            (Some(c), Ok(e)) => e.config == c && e.commands@.len() == 0 && !e.save,
            (None, Ok(e)) => e.save && (gateway_of(subnet@) matches Some(g) && e.config@ == new_network(
                name@,
                subnet@,
                g,
            ) && commands(e.commands@) == (if bridge_exists {
                Seq::empty()
            } else {
                setup_commands(e.config@)
            })),
            (None, Err(RuntimeError::InvalidArgument(m))) => gateway_of(subnet@) is None && m@
                == "invalid subnet "@ + quoted_text(subnet@) + ", expected a.b.c.d/nn"@,
            _ => false,
        },
{
    if let Some(config) = existing {
        return Ok(Ensured { config, commands: Vec::new(), save: false });
    }
    let bridge = bridge_name(name);
    let gateway = match subnet_gateway(subnet) {
        Ok(g) => g,
        Err(e) => {
            return Err(e);
        },
    };
    let config = NetworkConfig {
        name: name.to_owned(),
        bridge,
        subnet: subnet.to_owned(),
        gateway,
        next_host: 2,
    };
    let plan = if bridge_exists {
        let none: Vec<Command> = Vec::new();
        assert(commands(none@) =~= Seq::<CommandView>::empty());
        none
    } else {
        setup_bridge(&config)
    };
    Ok(Ensured { config, commands: plan, save: true })
}

/// How a container is attached to a network: the commands that repair the
/// network first, the configuration to save, and the commands that follow.
pub struct Attachment {
    pub repair: Vec<Command>,
    pub config: NetworkConfig,
    pub commands: Vec<Command>,
    pub ip: String,
}

/// The commands that attach the process `pid` under the address `ip`.
pub open spec fn attach_commands(cfg: NetworkView, tag: Seq<char>, pid: int, ip: Seq<char>) -> Seq<CommandView> {
    let host = "kv"@ + tag;
    let peer = "kp"@ + tag;
    let p = signed_decimal(pid);
    seq![
        must("ip"@, seq!["link"@, "add"@, host, "type"@, "veth"@, "peer"@, "name"@, peer]),
        must("ip"@, seq!["link"@, "set"@, host, "master"@, cfg.bridge]),
        must("ip"@, seq!["link"@, "set"@, host, "up"@]),
        must("ip"@, seq!["link"@, "set"@, peer, "netns"@, p]),
        must("nsenter"@, seq!["-t"@, p, "-n"@, "ip"@, "link"@, "set"@, peer, "name"@, "eth0"@]),
        must("nsenter"@, seq!["-t"@, p, "-n"@, "ip"@, "addr"@, "add"@, ip + "/24"@, "dev"@, "eth0"@]),
        must("nsenter"@, seq!["-t"@, p, "-n"@, "ip"@, "link"@, "set"@, "eth0"@, "up"@]),
        must("nsenter"@, seq!["-t"@, p, "-n"@, "ip"@, "link"@, "set"@, "lo"@, "up"@]),
        must("nsenter"@, seq!["-t"@, p, "-n"@, "ip"@, "route"@, "add"@, "default"@, "via"@, cfg.gateway]),
    ]
}

/// Attaches the process `pid` of a container to a network: one end of a link
/// goes to the bridge, the other becomes the container's `eth0`, with the
/// next address of the network. A bridge that is gone is set up again first.
pub fn attach_container(
    network: &str,
    cfg: Option<NetworkConfig>,
    bridge_exists: bool,
    container_id: &str,
    pid: i32,
) -> (r: Result<Attachment, RuntimeError>)
    ensures
        match (cfg, r) {
            (Some(c), Ok(a)) => {
                &&& commands(a.repair@) == (if bridge_exists {
                    Seq::empty()
                } else {
                    setup_commands(c@)
                })
                &&& a.ip@ == address(c@.subnet, c@.next_host as nat)
                &&& a.config@ == (NetworkView {
                    next_host: if c@.next_host == 255 {
                        255u8
                    } else {
                        (c@.next_host + 1) as u8
                    },
                    ..c@
                })
                &&& commands(a.commands@) == attach_commands(c@, tag_of(container_id@), pid as int, a.ip@)
            },
            (None, Err(RuntimeError::InvalidArgument(m))) => m@ == "no such network: "@ + network@,
            _ => false,
        },
{
    let mut config = match cfg {
        Some(c) => c,
        None => {
            return Err(RuntimeError::InvalidArgument(cat2("no such network: ", network)));
        },
    };
    let repair = if bridge_exists {
        let none: Vec<Command> = Vec::new();
        assert(commands(none@) =~= Seq::<CommandView>::empty());
        none
    } else {
        setup_bridge(&config)
    };
    let ip = config.allocate_ip();
    let tag = short_tag(container_id);
    let out = attach_plan(&config, tag.as_str(), pid, ip.as_str());
    Ok(Attachment { repair, config, commands: out, ip })
}

/// The commands that attach the process `pid` under the address `ip`.
fn attach_plan(cfg: &NetworkConfig, tag: &str, pid: i32, ip: &str) -> (r: Vec<Command>)
    ensures
        commands(r@) == attach_commands(cfg@, tag@, pid as int, ip@),
{
    let ghost plan = attach_commands(cfg@, tag@, pid as int, ip@);
    let host = cat2("kv", tag);
    let peer = cat2("kp", tag);
    let p = i32_text(pid);
    let net = cat2(ip, "/24");
    let mut out: Vec<Command> = Vec::new();
    let a = ["link", "add", host.as_str(), "type", "veth", "peer", "name", peer.as_str()];
    assert(texts(a@) =~= plan[0].args);
    out.push(command("ip", &a, true));
    let b = ["link", "set", host.as_str(), "master", cfg.bridge.as_str()];
    assert(texts(b@) =~= plan[1].args);
    out.push(command("ip", &b, true));
    let c = ["link", "set", host.as_str(), "up"];
    assert(texts(c@) =~= plan[2].args);
    out.push(command("ip", &c, true));
    let d = ["link", "set", peer.as_str(), "netns", p.as_str()];
    assert(texts(d@) =~= plan[3].args);
    out.push(command("ip", &d, true));
    let e = ["-t", p.as_str(), "-n", "ip", "link", "set", peer.as_str(), "name", "eth0"];
    assert(texts(e@) =~= plan[4].args);
    out.push(command("nsenter", &e, true));
    let f = ["-t", p.as_str(), "-n", "ip", "addr", "add", net.as_str(), "dev", "eth0"];
    assert(texts(f@) =~= plan[5].args);
    out.push(command("nsenter", &f, true));
    let g = ["-t", p.as_str(), "-n", "ip", "link", "set", "eth0", "up"];
    assert(texts(g@) =~= plan[6].args);
    out.push(command("nsenter", &g, true));
    let h = ["-t", p.as_str(), "-n", "ip", "link", "set", "lo", "up"];
    assert(texts(h@) =~= plan[7].args);
    out.push(command("nsenter", &h, true));
    let i = ["-t", p.as_str(), "-n", "ip", "route", "add", "default", "via", cfg.gateway.as_str()];
    assert(texts(i@) =~= plan[8].args);
    out.push(command("nsenter", &i, true));
    assert(commands(out@) =~= plan);
    out
}

// ---- Laws ------------------------------------------------------------------

/// Two addresses of a network that differ in the last part are different.
/// Since each allocation moves that part on by one, no two containers share
/// an address until the parts run out.
pub proof fn addresses_differ(subnet: Seq<char>, a: nat, b: nat)
    requires
        a != b,
    ensures
        address(subnet, a) != address(subnet, b),
{
    if address(subnet, a) == address(subnet, b) {
        let head = prefix_of(subnet) + "."@;
        let n = head.len() as int;
        assert(address(subnet, a).skip(n) =~= decimal(a));
        assert(address(subnet, b).skip(n) =~= decimal(b));
        crate::num::decimal_is_injective(a, b);
    }
}

/// A text without the separator is one piece, and one with it more than one.
proof fn lemma_one_piece(s: Seq<char>, c: char)
    ensures
        pieces(s, c).len() == 1 <==> !s.contains(c),
{
    if s.contains(c) {
        let i = s.index_of_first(c)->0;
        s.index_of_first_ensures(c);
        let a = s.take(i);
        let b = s.skip(i + 1);
        assert(!a.contains(c)) by {
            if a.contains(c) {
                let k = choose|k: int| 0 <= k < a.len() && a[k] == c;
                assert(s[k] == c);
            }
        }
        assert(s =~= a + seq![c] + b);
        crate::text::lemma_pieces_step(a, b, c);
        crate::text::lemma_pieces_nonempty(b, c);
    } else {
        crate::text::lemma_pieces_whole(s, c);
    }
}

/// A part in front of others is joined in front of them.
proof fn lemma_joined_front(a: Seq<char>, v: Seq<Seq<char>>, sep: Seq<char>)
    requires
        v.len() > 0,
    ensures
        joined(seq![a] + v, sep) == a + sep + joined(v, sep),
    decreases v.len(),
{
    let w = seq![a] + v;
    assert(w.drop_last() =~= seq![a] + v.drop_last());
    assert(w.last() == v.last());
    if v.len() == 1 {
        assert(w.drop_last() =~= seq![a]);
        assert(joined(w.drop_last(), sep) == a);
        assert(joined(v, sep) == v[0]);
    } else {
        lemma_joined_front(a, v.drop_last(), sep);
        assert(joined(w, sep) == joined(w.drop_last(), sep) + sep + w.last());
        assert(joined(w, sep) =~= a + sep + joined(v, sep));
    }
}

/// A text is cut at its last separator: what is before it is the pieces
/// before the last one, joined again.
proof fn lemma_cut_last(s: Seq<char>, c: char)
    requires
        pieces(s, c).len() >= 2,
    ensures
        cut_last(s, c) == Some((joined(pieces(s, c).drop_last(), seq![c]), pieces(s, c).last())),
        s == joined(pieces(s, c).drop_last(), seq![c]) + seq![c] + pieces(s, c).last(),
        !pieces(s, c).last().contains(c),
    decreases s.len(),
{
    lemma_one_piece(s, c);
    let i = s.index_of_first(c)->0;
    s.index_of_first_ensures(c);
    let a = s.take(i);
    let b = s.skip(i + 1);
    assert(!a.contains(c)) by {
        if a.contains(c) {
            let k = choose|k: int| 0 <= k < a.len() && a[k] == c;
            assert(s[k] == c);
        }
    }
    assert(s =~= a + seq![c] + b);
    crate::text::lemma_pieces_step(a, b, c);
    crate::text::lemma_pieces_nonempty(b, c);
    let p = pieces(s, c);
    let q = pieces(b, c);
    assert(p == seq![a] + q);
    let front = joined(p.drop_last(), seq![c]);
    if q.len() == 1 {
        lemma_one_piece(b, c);
        crate::text::lemma_pieces_whole(b, c);
        assert(p.drop_last() =~= seq![a]);
        assert(front == a);
        assert(p.last() == b);
    } else {
        lemma_cut_last(b, c);
        assert(p.drop_last() =~= seq![a] + q.drop_last());
        lemma_joined_front(a, q.drop_last(), seq![c]);
        assert(s =~= front + seq![c] + p.last());
    }
    let last = p.last();
    let n = front.len() as int;
    assert(s[n] == c);
    s.index_of_last_ensures(c);
    let k = s.index_of_last(c)->0;
    assert(k == n) by {
        assert(s.contains(c));
        if k > n {
            assert(s[k] == last[k - n - 1]);
            assert(last.contains(last[k - n - 1]));
        }
    }
    assert(s.take(n) =~= front);
    assert(s.skip(n + 1) =~= last);
}

/// No address that a network hands out is that of its gateway: a new network
/// starts behind it.
pub proof fn no_address_is_the_gateway(subnet: Seq<char>, host: nat)
    requires
        gateway_of(subnet) is Some,
        host >= 2,
    ensures
        gateway_of(subnet) != Some(address(subnet, host)),
{
    reveal_strlit(".");
    reveal_strlit("1");
    let p = pieces(net_of(subnet), '.');
    assert("."@ =~= seq!['.']);
    lemma_cut_last(net_of(subnet), '.');
    let parts = seq![p[0], p[1], p[2], "1"@];
    assert(parts.drop_last() =~= p.drop_last());
    let head = prefix_of(subnet) + "."@;
    assert(gateway_of(subnet)->0 == head + "1"@);
    if gateway_of(subnet) == Some(address(subnet, host)) {
        let n = head.len() as int;
        assert((head + "1"@).skip(n) =~= "1"@);
        assert(address(subnet, host).skip(n) =~= decimal(host));
        assert("1"@ =~= decimal(1));
        crate::num::decimal_is_injective(1, host);
    }
}

/// A saved network can be read back in one way only: configurations whose
/// files hold the same text are the same.
pub proof fn files_show_the_network(m: NetworkView, n: NetworkView)
    requires
        network_file_text(m) == network_file_text(n),
    ensures
        m == n,
{
    let a = network_line_members(m);
    let b = network_line_members(n);
    strings_show_their_text(m.name, n.name);
    strings_show_their_text(m.bridge, n.bridge);
    strings_show_their_text(m.subnet, n.subnet);
    strings_show_their_text(m.gateway, n.gateway);
    numbers_show_their_value(m.next_host as nat, n.next_host as nat);
    members_show_their_values("name"@, json_string(m.name), json_string(n.name));
    members_show_their_values("bridge"@, json_string(m.bridge), json_string(n.bridge));
    members_show_their_values("subnet"@, json_string(m.subnet), json_string(n.subnet));
    members_show_their_values("gateway"@, json_string(m.gateway), json_string(n.gateway));
    members_show_their_values("next_host"@, decimal(m.next_host as nat), decimal(n.next_host as nat));
    assert forall|i: int| 0 <= i < a.len() && i < b.len() implies told_apart(#[trigger] a[i], b[i]) by {
        assert(i == 0 || i == 1 || i == 2 || i == 3 || i == 4);
    }
    objects_show_their_members(a, b, 0);
    assert(a[0] == b[0] && a[1] == b[1] && a[2] == b[2] && a[3] == b[3] && a[4] == b[4]);
}

/// In a subnet `a.b.c.d/n` the bridge has the address `a.b.c.1`, and the other
/// addresses differ from it in their last part alone.
pub proof fn subnets_give_their_addresses(
    a: Seq<char>,
    b: Seq<char>,
    c: Seq<char>,
    d: Seq<char>,
    n: Seq<char>,
    host: nat,
)
    requires
        forall|x: Seq<char>| x == a || x == b || x == c || x == d ==> !(#[trigger] x.contains('.')) && !x.contains('/'),
    ensures
        ({
            let three = a + seq!['.'] + b + seq!['.'] + c;
            let subnet = three + seq!['.'] + d + seq!['/'] + n;
            &&& gateway_of(subnet) == Some(three + seq!['.', '1'])
            &&& address(subnet, host) == three + seq!['.'] + decimal(host)
        }),
{
    let three = a + seq!['.'] + b + seq!['.'] + c;
    let net = three + seq!['.'] + d;
    let subnet = net + seq!['/'] + n;
    assert(!a.contains('.') && !b.contains('.') && !c.contains('.') && !d.contains('.'));
    assert(!net.contains('/')) by {
        assert forall|i: int| 0 <= i < net.len() implies net[i] != '/' by {
            let p = a.len() as int;
            let q = p + 1 + b.len();
            let r = q + 1 + c.len();
            if i < p {
                assert(a.contains(a[i]));
            } else if p < i && i < q {
                assert(b.contains(b[i - p - 1]));
            } else if q < i && i < r {
                assert(c.contains(c[i - q - 1]));
            } else if r < i {
                assert(d.contains(d[i - r - 1]));
            }
        }
    }
    crate::text::lemma_pieces_step(net, n, '/');
    assert(net_of(subnet) == net);
    crate::text::texts_are_cut_behind(three, '.', d);
    let v = seq![a, b, c, d];
    assert forall|i: int| 0 <= i < v.len() implies !(#[trigger] v[i]).contains('.') by {
        assert(i == 0 || i == 1 || i == 2 || i == 3);
    }
    crate::text::joined_pieces_come_back(v, '.');
    reveal_with_fuel(joined, 5);
    assert(v.drop_last() =~= seq![a, b, c]);
    assert(seq![a, b, c].drop_last() =~= seq![a, b]);
    assert(seq![a, b].drop_last() =~= seq![a]);
    assert(joined(v, seq!['.']) =~= net);
    reveal_strlit(".");
    reveal_strlit("1");
    let w = seq![a, b, c, "1"@];
    assert(w.drop_last() =~= seq![a, b, c]);
    assert("."@ =~= seq!['.']);
    assert(joined(w, "."@) =~= three + seq!['.', '1']);
    assert(address(subnet, host) =~= three + seq!['.'] + decimal(host));
}

/// A new network has its own name, subnet and gateway, a bridge of its own
/// name's tag, and gives out its addresses from the second on.
pub proof fn new_networks_begin_behind_the_gateway(name: Seq<char>, subnet: Seq<char>, gateway: Seq<char>)
    ensures
        ({
            let n = new_network(name, subnet, gateway);
            &&& n.name == name
            &&& n.subnet == subnet
            &&& n.gateway == gateway
            &&& n.next_host == 2
            &&& n.bridge == "kb"@ + tag_of(name)
        }),
{
}

/// A counter's file gives the number that it holds.
pub proof fn counters_are_read(n: u64)
    ensures
        counter(Some(decimal(n as nat))) == Some(n as nat),
        counter(None) is None,
{
    crate::num::decimal_parses_back(n as nat, u64::MAX as nat);
    crate::num::lemma_decimal(n as nat);
    let d = decimal(n as nat);
    assert(crate::num::is_digit(d[0]) && crate::num::is_digit(d[d.len() - 1]));
    crate::text::trimmed_texts_stay(d);
}

/// A tag is eight digits that write the low half of the hash.
pub proof fn tags_are_the_low_half_of_the_hash(n: nat, name: Seq<char>)
    ensures
        tag_of(name) == hex_tail(DefaultHasher::spec_finish(fed(name)) as nat, 8),
        hex_tail(n, 8).len() == 8,
        crate::num::hex_run_value(hex_tail(n, 8)) == Some(n % 0x1_0000_0000),
{
    lemma_tail_value(n, 8);
    assert(sixteens(8) == 0x1_0000_0000) by {
        reveal_with_fuel(sixteens, 9);
    }
}

/// So many sixteens, multiplied.
spec fn sixteens(width: nat) -> nat
    decreases width,
{
    if width == 0 {
        1
    } else {
        16 * sixteens((width - 1) as nat)
    }
}

/// The last digits of a number write what is left of it.
proof fn lemma_tail_value(n: nat, width: nat)
    ensures
        hex_tail(n, width).len() == width,
        sixteens(width) > 0,
        crate::num::hex_run_value(hex_tail(n, width)) == Some(n % sixteens(width)),
    decreases width,
{
    if width > 0 {
        let m = sixteens((width - 1) as nat);
        lemma_tail_value(n / 16, (width - 1) as nat);
        crate::num::digits_are_worth_what_they_say((n % 16) as int);
        assert(hex_tail(n, width).drop_last() =~= hex_tail(n / 16, (width - 1) as nat));
        assert(n % (16 * m) == 16 * ((n / 16) % m) + n % 16) by {
            vstd::arithmetic::div_mod::lemma_mod_breakdown(n as int, 16, m as int);
        }
    } else {
        assert(n % 1 == 0);
    }
}

/// The file of a network stands under its name.
pub proof fn network_files_stand_under_their_name(root: Seq<char>, name: Seq<char>)
    requires
        root.len() > 0,
        root.last() != '/',
        name.len() > 0,
        name[0] != '/',
    ensures
        network_file(root, name) == root + "/networks/"@ + name + ".json"@,
{
    reveal_strlit("networks");
    reveal_strlit("/networks/");
    reveal_strlit(".json");
    assert(network_file(root, name) =~= root + "/networks/"@ + name + ".json"@);
}

} // verus!
