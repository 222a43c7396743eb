//! What the commands that set up networks do to a machine: its interfaces,
//! their addresses, its default routes and its translation rules. The laws
//! say what is there once the commands of a plan have run.

use crate::network::{
    attach_commands, may, must, setup_commands, teardown_commands, CommandView, NetworkView,
};
use crate::num::signed_decimal;
use vstd::prelude::*;

verus! {

/// One interface.
#[verifier::ext_equal]
pub struct Link {
    pub bridge: bool,
    pub up: bool,
    /// The bridge that it is a port of.
    pub master: Option<Seq<char>>,
    pub addresses: Set<Seq<char>>,
    /// The wire that it is an end of, if it is one of a pair.
    pub wire: Option<Seq<char>>,
}

/// The machine as far as networks go. Interfaces stand under their network
/// namespace and their name; the host's own namespace has no name, and that of
/// a process is named by the process's number.
#[verifier::ext_equal]
pub struct Machine {
    pub links: Map<(Seq<char>, Seq<char>), Link>,
    /// The default route of each namespace that has one.
    pub routes: Map<Seq<char>, Seq<char>>,
    /// The rules that hide a subnet behind the host wherever its packets
    /// leave by another way than the bridge.
    pub hidden: Set<(Seq<char>, Seq<char>)>,
    pub forwards: bool,
}

/// The host's namespace.
pub open spec fn host() -> Seq<char> {
    Seq::empty()
}

/// A new interface: down, and without an address.
pub open spec fn new_link(bridge: bool, wire: Option<Seq<char>>) -> Link {
    Link { bridge, up: false, master: None, addresses: Set::empty(), wire }
}

/// The machine with one interface changed.
pub open spec fn with_link(m: Machine, ns: Seq<char>, name: Seq<char>, link: Link) -> Machine {
    Machine { links: m.links.insert((ns, name), link), ..m }
}

/// The machine without one interface.
pub open spec fn without_link(m: Machine, ns: Seq<char>, name: Seq<char>) -> Machine {
    Machine { links: m.links.remove((ns, name)), ..m }
}

/// What `ip link add` does; nothing can be added under a name that is taken.
pub open spec fn link_added(m: Machine, ns: Seq<char>, a: Seq<Seq<char>>) -> Option<Machine> {
    let name = a[2];
    if a[3] != "type"@ || m.links.dom().contains((ns, name)) {
        None
    } else if a.len() == 5 && a[4] == "bridge"@ {
        Some(with_link(m, ns, name, new_link(true, None)))
    } else if a.len() == 8 && a[4] == "veth"@ && a[5] == "peer"@ && a[6] == "name"@ && a[7] != name
        && !m.links.dom().contains((ns, a[7])) {
        let first = with_link(m, ns, name, new_link(false, Some(name)));
        Some(with_link(first, ns, a[7], new_link(false, Some(name))))
    } else {
        None
    }
}

/// What `ip link set` does to an interface that is there. One that moves to
/// another namespace is down there and belongs to no bridge; only one that is
/// down can be renamed, and only to a name that is free.
pub open spec fn link_set(m: Machine, ns: Seq<char>, a: Seq<Seq<char>>) -> Option<Machine> {
    let name = a[2];
    let link = m.links[(ns, name)];
    if !m.links.dom().contains((ns, name)) {
        None
    } else if a.len() == 4 && a[3] == "up"@ {
        Some(with_link(m, ns, name, Link { up: true, ..link }))
    } else if a.len() == 4 && a[3] == "down"@ {
        Some(with_link(m, ns, name, Link { up: false, ..link }))
    } else if a.len() == 5 && a[3] == "master"@ && m.links.dom().contains((ns, a[4])) && m.links[(ns, a[4])].bridge {
        Some(with_link(m, ns, name, Link { master: Some(a[4]), ..link }))
    } else if a.len() == 5 && a[3] == "netns"@ && !m.links.dom().contains((a[4], name)) {
        Some(with_link(without_link(m, ns, name), a[4], name, new_link(link.bridge, link.wire)))
    } else if a.len() == 5 && a[3] == "name"@ && !link.up && !m.links.dom().contains((ns, a[4])) {
        Some(with_link(without_link(m, ns, name), ns, a[4], link))
    } else {
        None
    }
}

/// What `ip` does in a namespace, or nothing where it fails.
pub open spec fn ip_ran(m: Machine, ns: Seq<char>, a: Seq<Seq<char>>) -> Option<Machine> {
    if a.len() >= 4 && a[0] == "link"@ && a[1] == "add"@ {
        link_added(m, ns, a)
    } else if a.len() >= 4 && a[0] == "link"@ && a[1] == "set"@ {
        link_set(m, ns, a)
    } else if a.len() == 3 && a[0] == "link"@ && a[1] == "del"@ && m.links.dom().contains((ns, a[2])) {
        Some(without_link(m, ns, a[2]))
    } else if a.len() == 5 && a[0] == "addr"@ && a[1] == "add"@ && a[3] == "dev"@ && m.links.dom().contains((ns, a[4])) {
        let link = m.links[(ns, a[4])];
        Some(with_link(m, ns, a[4], Link { addresses: link.addresses.insert(a[2]), ..link }))
    } else if a.len() == 5 && a[0] == "route"@ && a[1] == "add"@ && a[2] == "default"@ && a[3] == "via"@
        && !m.routes.dom().contains(ns) && reaches_out(m, ns) {
        Some(Machine { routes: m.routes.insert(ns, a[4]), ..m })
    } else {
        None
    }
}

/// Whether a namespace has an interface by which a packet could leave: one end
/// of a wire that is up and has an address.
pub open spec fn reaches_out(m: Machine, ns: Seq<char>) -> bool {
    exists|name: Seq<char>|
        m.links.dom().contains((ns, name)) && (#[trigger] m.links[(ns, name)]).wire is Some && m.links[(ns, name)].up
            && m.links[(ns, name)].addresses != Set::<Seq<char>>::empty()
}

/// The words of the rule that hides a subnet, but for the verb.
pub open spec fn is_masquerade(a: Seq<Seq<char>>) -> bool {
    &&& a.len() == 11
    &&& a[0] == "-t"@ && a[1] == "nat"@ && a[3] == "POSTROUTING"@ && a[4] == "-s"@
    &&& a[6] == "!"@ && a[7] == "-o"@ && a[9] == "-j"@ && a[10] == "MASQUERADE"@
}

/// What a command does, or nothing where it fails.
pub open spec fn command_ran(m: Machine, c: CommandView) -> Option<Machine> {
    let a = c.args;
    if c.program == "ip"@ {
        ip_ran(m, host(), a)
    } else if c.program == "nsenter"@ && a.len() >= 4 && a[0] == "-t"@ && a[2] == "-n"@ && a[3] == "ip"@ {
        ip_ran(m, a[1], a.skip(4))
    } else if c.program == "sysctl"@ && a.len() == 2 && a[0] == "-w"@ && a[1] == "net.ipv4.ip_forward=1"@ {
        Some(Machine { forwards: true, ..m })
    } else if c.program == "iptables"@ && is_masquerade(a) && a[2] == "-A"@ {
        Some(Machine { hidden: m.hidden.insert((a[5], a[8])), ..m })
    } else if c.program == "iptables"@ && is_masquerade(a) && a[2] == "-D"@ && m.hidden.contains((a[5], a[8])) {
        Some(Machine { hidden: m.hidden.remove((a[5], a[8])), ..m })
    } else {
        None
    }
}

/// What a plan comes to: one command after the other, where the failure of a
/// command that is required ends it.
pub open spec fn plan_ran(m: Machine, plan: Seq<CommandView>) -> Option<Machine>
    decreases plan.len(),
{
    if plan.len() == 0 {
        Some(m)
    } else {
        match plan_ran(m, plan.drop_last()) {
            None => None,
            Some(n) => match command_ran(n, plan.last()) {
                Some(after) => Some(after),
                None => if plan.last().required {
                    None
                } else {
                    Some(n)
                },
            },
        }
    }
}

/// One more command of a plan.
proof fn lemma_one_more(m: Machine, plan: Seq<CommandView>, k: int, n: Machine, after: Machine)
    requires
        0 <= k < plan.len(),
        plan_ran(m, plan.take(k)) == Some(n),
        command_ran(n, plan[k]) == Some(after),
    ensures
        plan_ran(m, plan.take(k + 1)) == Some(after),
{
    assert(plan.take(k + 1).drop_last() =~= plan.take(k));
    assert(plan.take(k + 1).last() == plan[k]);
}

/// The words of `ip` that have to be told apart.
proof fn lemma_words()
    ensures
        "ip"@ != "nsenter"@,
        "ip"@ != "sysctl"@,
        "ip"@ != "iptables"@,
        "nsenter"@ != "sysctl"@,
        "nsenter"@ != "iptables"@,
        "sysctl"@ != "iptables"@,
        "-A"@ != "-D"@,
        "link"@ != "addr"@,
        "link"@ != "route"@,
        "addr"@ != "route"@,
        "add"@ != "set"@,
        "add"@ != "del"@,
        "set"@ != "del"@,
        "up"@ != "down"@,
        "master"@ != "netns"@,
        "master"@ != "name"@,
        "netns"@ != "name"@,
        "bridge"@ != "veth"@,
        "eth0"@ != "lo"@,
{
    reveal_strlit("ip");
    reveal_strlit("nsenter");
    reveal_strlit("sysctl");
    reveal_strlit("iptables");
    reveal_strlit("-A");
    reveal_strlit("-D");
    reveal_strlit("link");
    reveal_strlit("addr");
    reveal_strlit("route");
    reveal_strlit("add");
    reveal_strlit("set");
    reveal_strlit("del");
    reveal_strlit("up");
    reveal_strlit("down");
    reveal_strlit("master");
    reveal_strlit("netns");
    reveal_strlit("name");
    reveal_strlit("bridge");
    reveal_strlit("veth");
    reveal_strlit("eth0");
    reveal_strlit("lo");
    assert("-A"@[1] == 'A' && "-D"@[1] == 'D');
    assert("link"@[0] == 'l' && "addr"@[0] == 'a' && "name"@[0] == 'n' && "veth"@[0] == 'v');
    assert("add"@[0] == 'a' && "set"@[0] == 's' && "del"@[0] == 'd');
    assert("ip"@.len() == 2 && "nsenter"@.len() == 7 && "sysctl"@.len() == 6 && "iptables"@.len() == 8);
    assert("up"@.len() == 2 && "down"@.len() == 4 && "eth0"@.len() == 4 && "lo"@.len() == 2);
    assert("master"@.len() == 6 && "netns"@.len() == 5 && "name"@.len() == 4 && "bridge"@.len() == 6);
}

/// Setting a network up makes its bridge, up and with the gateway's address,
/// hides its subnet behind the host wherever packets leave by another way, and
/// lets the host forward. Nothing else changes.
pub proof fn set_up_networks_are_there(m: Machine, cfg: NetworkView)
    requires
        !m.links.dom().contains((host(), cfg.bridge)),
    ensures
        plan_ran(m, setup_commands(cfg)) == Some(
            Machine {
                links: m.links.insert(
                    (host(), cfg.bridge),
                    Link {
                        bridge: true,
                        up: true,
                        master: None,
                        addresses: set![cfg.gateway + "/24"@],
                        wire: None,
                    },
                ),
                routes: m.routes,
                hidden: m.hidden.insert((cfg.subnet, cfg.bridge)),
                forwards: true,
            },
        ),
{
    lemma_words();
    let plan = setup_commands(cfg);
    let b = cfg.bridge;
    let l0 = new_link(true, None);
    let l1 = Link { up: true, ..l0 };
    let l2 = Link { addresses: l1.addresses.insert(cfg.gateway + "/24"@), ..l1 };
    let m1 = with_link(m, host(), b, l0);
    let m2 = with_link(m1, host(), b, l1);
    let m3 = with_link(m2, host(), b, l2);
    let m4 = Machine { forwards: true, ..m3 };
    let m5 = Machine { hidden: m4.hidden.insert((cfg.subnet, b)), ..m4 };
    assert(plan.take(0) =~= Seq::<CommandView>::empty());
    assert(plan_ran(m, plan.take(0)) == Some(m));
    lemma_one_more(m, plan, 0, m, m1);
    lemma_one_more(m, plan, 1, m1, m2);
    lemma_one_more(m, plan, 2, m2, m3);
    lemma_one_more(m, plan, 3, m3, m4);
    lemma_one_more(m, plan, 4, m4, m5);
    assert(plan.take(5) =~= plan);
    assert(m5.links =~= m.links.insert((host(), b), l2));
    assert(l2.addresses =~= set![cfg.gateway + "/24"@]);
}

/// Taking a network down undoes what setting it up did to the interfaces and
/// to the translation rules.
pub proof fn taken_down_networks_are_gone(m: Machine, cfg: NetworkView)
    requires
        !m.links.dom().contains((host(), cfg.bridge)),
        !m.hidden.contains((cfg.subnet, cfg.bridge)),
    ensures
        ({
            let there = plan_ran(m, setup_commands(cfg));
            &&& there is Some
            &&& plan_ran(there->0, teardown_commands(cfg)) == Some(Machine { forwards: true, ..m })
        }),
{
    lemma_words();
    set_up_networks_are_there(m, cfg);
    let there = plan_ran(m, setup_commands(cfg))->0;
    let plan = teardown_commands(cfg);
    let m1 = without_link(there, host(), cfg.bridge);
    let m2 = Machine { hidden: m1.hidden.remove((cfg.subnet, cfg.bridge)), ..m1 };
    assert(plan.take(0) =~= Seq::<CommandView>::empty());
    assert(plan_ran(there, plan.take(0)) == Some(there));
    lemma_one_more(there, plan, 0, there, m1);
    lemma_one_more(there, plan, 1, m1, m2);
    assert(plan.take(2) =~= plan);
    assert(m2.links =~= m.links);
    assert(m2.hidden =~= m.hidden);
}

/// What entering a namespace leaves of the words of a command.
proof fn lemma_entered(m: Machine, p: Seq<char>, words: Seq<Seq<char>>, c: CommandView)
    requires
        c.program == "nsenter"@,
        c.args == seq!["-t"@, p, "-n"@, "ip"@] + words,
    ensures
        command_ran(m, c) == ip_ran(m, p, words),
{
    lemma_words();
    assert(c.args.skip(4) =~= words);
}

/// An attached container is connected. Where the network's bridge is there,
/// the names of the link are free and the container's namespace has its `lo`
/// alone, every command of the plan is required and succeeds, and once they
/// ran, the host's end of a new wire is up and a port of the bridge, the other
/// end is `eth0` in the container's namespace, up and with the given address,
/// `lo` is up there too, and the default route goes by the gateway. No other
/// interface, route or rule changes.
pub proof fn attached_containers_are_connected(
    m: Machine,
    cfg: NetworkView,
    tag: Seq<char>,
    pid: int,
    ip: Seq<char>,
)
    requires
        m.links.dom().contains((host(), cfg.bridge)),
        m.links[(host(), cfg.bridge)].bridge,
        !m.links.dom().contains((host(), "kv"@ + tag)),
        !m.links.dom().contains((host(), "kp"@ + tag)),
        m.links.dom().contains((signed_decimal(pid), "lo"@)),
        !m.links.dom().contains((signed_decimal(pid), "eth0"@)),
        !m.links.dom().contains((signed_decimal(pid), "kp"@ + tag)),
        !m.routes.dom().contains(signed_decimal(pid)),
    ensures
        ({
            let ns = signed_decimal(pid);
            let plan = attach_commands(cfg, tag, pid, ip);
            let ran = plan_ran(m, plan);
            let now = ran->0;
            let outer = now.links[(host(), "kv"@ + tag)];
            let inner = now.links[(ns, "eth0"@)];
            &&& forall|k: int| 0 <= k < plan.len() ==> (#[trigger] plan[k]).required
            &&& ran is Some
            &&& now.links.dom() == m.links.dom().insert((host(), "kv"@ + tag)).insert((ns, "eth0"@))
            &&& outer.up && outer.master == Some(cfg.bridge) && outer.wire is Some
            &&& inner.up && inner.addresses == set![ip + "/24"@] && inner.wire == outer.wire
            &&& now.links[(ns, "lo"@)] == Link { up: true, ..m.links[(ns, "lo"@)] }
            &&& forall|k: (Seq<char>, Seq<char>)|
                m.links.dom().contains(k) && k != (ns, "lo"@) ==> #[trigger] now.links[k] == m.links[k]
            &&& now.routes == m.routes.insert(ns, cfg.gateway)
            &&& now.hidden == m.hidden && now.forwards == m.forwards
        }),
{
    lemma_words();
    let p = signed_decimal(pid);
    let hn = "kv"@ + tag;
    let pn = "kp"@ + tag;
    reveal_strlit("kv");
    reveal_strlit("kp");
    reveal_strlit("eth0");
    reveal_strlit("lo");
    assert(hn[1] == 'v' && pn[1] == 'p' && pn[0] == 'k');
    assert(pn != "eth0"@ && pn != "lo"@ && hn != pn) by {
        assert("eth0"@[0] == 'e' && "lo"@[0] == 'l');
    }
    crate::num::lemma_decimal(if pid < 0 {
        (-pid) as nat
    } else {
        pid as nat
    });
    assert(p.len() > 0);
    assert(p != host());
    let plan = attach_commands(cfg, tag, pid, ip);
    let h0 = new_link(false, Some(hn));
    let h1 = Link { master: Some(cfg.bridge), ..h0 };
    let h2 = Link { up: true, ..h1 };
    let e0 = new_link(false, Some(hn));
    let e1 = Link { addresses: e0.addresses.insert(ip + "/24"@), ..e0 };
    let e2 = Link { up: true, ..e1 };
    let lo = Link { up: true, ..m.links[(p, "lo"@)] };
    let m1 = with_link(with_link(m, host(), hn, h0), host(), pn, h0);
    let m2 = with_link(m1, host(), hn, h1);
    let m3 = with_link(m2, host(), hn, h2);
    let m4 = with_link(without_link(m3, host(), pn), p, pn, e0);
    let m5 = with_link(without_link(m4, p, pn), p, "eth0"@, e0);
    let m6 = with_link(m5, p, "eth0"@, e1);
    let m7 = with_link(m6, p, "eth0"@, e2);
    let m8 = with_link(m7, p, "lo"@, lo);
    let m9 = Machine { routes: m8.routes.insert(p, cfg.gateway), ..m8 };
    assert(plan.take(0) =~= Seq::<CommandView>::empty());
    assert(plan_ran(m, plan.take(0)) == Some(m));
    lemma_one_more(m, plan, 0, m, m1);
    assert(hn != cfg.bridge && pn != cfg.bridge);
    lemma_one_more(m, plan, 1, m1, m2);
    lemma_one_more(m, plan, 2, m2, m3);
    assert(m3.links[(host(), pn)] == h0);
    lemma_one_more(m, plan, 3, m3, m4);
    let rename = seq!["link"@, "set"@, pn, "name"@, "eth0"@];
    assert(plan[4].args =~= seq!["-t"@, p, "-n"@, "ip"@] + rename);
    lemma_entered(m4, p, rename, plan[4]);
    assert(m4.links[(p, pn)] == e0);
    lemma_one_more(m, plan, 4, m4, m5);
    let addr = seq!["addr"@, "add"@, ip + "/24"@, "dev"@, "eth0"@];
    assert(plan[5].args =~= seq!["-t"@, p, "-n"@, "ip"@] + addr);
    lemma_entered(m5, p, addr, plan[5]);
    assert(m5.links[(p, "eth0"@)] == e0);
    lemma_one_more(m, plan, 5, m5, m6);
    let up = seq!["link"@, "set"@, "eth0"@, "up"@];
    assert(plan[6].args =~= seq!["-t"@, p, "-n"@, "ip"@] + up);
    lemma_entered(m6, p, up, plan[6]);
    assert(m6.links[(p, "eth0"@)] == e1);
    lemma_one_more(m, plan, 6, m6, m7);
    let lo_up = seq!["link"@, "set"@, "lo"@, "up"@];
    assert(plan[7].args =~= seq!["-t"@, p, "-n"@, "ip"@] + lo_up);
    lemma_entered(m7, p, lo_up, plan[7]);
    assert(m7.links.dom().contains((p, "lo"@)));
    assert(m7.links[(p, "lo"@)] == m.links[(p, "lo"@)]);
    lemma_one_more(m, plan, 7, m7, m8);
    let route = seq!["route"@, "add"@, "default"@, "via"@, cfg.gateway];
    assert(plan[8].args =~= seq!["-t"@, p, "-n"@, "ip"@] + route);
    lemma_entered(m8, p, route, plan[8]);
    assert(reaches_out(m8, p)) by {
        assert(m8.links[(p, "eth0"@)] == e2);
        assert(e2.addresses.contains(ip + "/24"@));
    }
    lemma_one_more(m, plan, 8, m8, m9);
    assert(plan.take(9) =~= plan);
    assert(m9.links.dom() =~= m.links.dom().insert((host(), hn)).insert((p, "eth0"@)));
    assert(e2.addresses =~= set![ip + "/24"@]);
}

} // verus!
