//! Networks and the containers attached to them.

use crate::codec::{
    add_member, json_array, json_items, json_map, json_member, json_object, json_str, json_string, jsons, ToJson,
};
use crate::daemon::containers::{invalid_body, refuse_body, Container};
use crate::http::{json_response, text_response, Response};
use crate::image::opt_text;
use crate::network::NetworkConfig;
use crate::text::{str_eq, views};
use vstd::prelude::*;

verus! {

/// What is shown of a container in its network.
pub struct NetworkContainerJson {
    pub id: String,
    pub name: String,
    pub ip: String,
}

/// A container in its network.
pub open spec fn member_json(id: Seq<char>, name: Seq<char>, ip: Seq<char>) -> Seq<char> {
    json_object(
        seq![
            json_member("id"@, json_string(id)),
            json_member("name"@, json_string(name)),
            json_member("ip"@, json_string(ip)),
        ],
    )
}

impl ToJson for NetworkContainerJson {
    open spec fn json(&self) -> Seq<char> {
        member_json(self.id@, self.name@, self.ip@)
    }

    fn to_json(&self) -> (r: String) {
        let mut m: Vec<String> = Vec::new();
        add_member(&mut m, "id", json_str(self.id.as_str()).as_str());
        add_member(&mut m, "name", json_str(self.name.as_str()).as_str());
        add_member(&mut m, "ip", json_str(self.ip.as_str()).as_str());
        assert(views(m@) =~= seq![
            json_member("id"@, json_string(self.id@)),
            json_member("name"@, json_string(self.name@)),
            json_member("ip"@, json_string(self.ip@)),
        ]);
        json_map(&m)
    }
}

/// What is shown of a network.
pub struct NetworkJson {
    pub name: String,
    pub bridge: String,
    pub subnet: String,
    pub gateway: String,
    pub containers: Vec<NetworkContainerJson>,
}

/// A network with its containers.
pub open spec fn network_json(n: crate::network::NetworkView, containers: Seq<Seq<char>>) -> Seq<char> {
    json_object(
        seq![
            json_member("name"@, json_string(n.name)),
            json_member("bridge"@, json_string(n.bridge)),
            json_member("subnet"@, json_string(n.subnet)),
            json_member("gateway"@, json_string(n.gateway)),
            json_member("containers"@, json_array(containers)),
        ],
    )
}

impl ToJson for NetworkJson {
    open spec fn json(&self) -> Seq<char> {
        json_object(
            seq![
                json_member("name"@, json_string(self.name@)),
                json_member("bridge"@, json_string(self.bridge@)),
                json_member("subnet"@, json_string(self.subnet@)),
                json_member("gateway"@, json_string(self.gateway@)),
                json_member("containers"@, json_array(jsons(self.containers@))),
            ],
        )
    }

    fn to_json(&self) -> (r: String) {
        let mut m: Vec<String> = Vec::new();
        add_member(&mut m, "name", json_str(self.name.as_str()).as_str());
        add_member(&mut m, "bridge", json_str(self.bridge.as_str()).as_str());
        add_member(&mut m, "subnet", json_str(self.subnet.as_str()).as_str());
        add_member(&mut m, "gateway", json_str(self.gateway.as_str()).as_str());
        add_member(&mut m, "containers", json_items(&self.containers).as_str());
        assert(views(m@) =~= seq![
            json_member("name"@, json_string(self.name@)),
            json_member("bridge"@, json_string(self.bridge@)),
            json_member("subnet"@, json_string(self.subnet@)),
            json_member("gateway"@, json_string(self.gateway@)),
            json_member("containers"@, json_array(jsons(self.containers@))),
        ]);
        json_map(&m)
    }
}

/// The containers in a network: those that are recorded in it and have an address.
pub open spec fn members_of(network: Seq<char>, containers: Seq<Container>) -> Seq<Seq<char>>
    decreases containers.len(),
{
    if containers.len() == 0 {
        Seq::empty()
    } else {
        let before = members_of(network, containers.drop_last());
        let c = containers.last();
        match (opt_text(c.network), opt_text(c.ip)) {
            (Some(n), Some(ip)) => if n == network {
                before.push(member_json(c.id@, c.name@, ip))
            } else {
                before
            },
            _ => before,
        }
    }
}

/// The containers in a network.
fn network_members(network: &str, containers: &Vec<Container>) -> (r: Vec<NetworkContainerJson>)
    ensures
        jsons(r@) == members_of(network@, containers@),
{
    let mut out: Vec<NetworkContainerJson> = Vec::new();
    let mut i: usize = 0;
    assert(containers@.take(0) =~= Seq::<Container>::empty());
    assert(jsons(out@) =~= members_of(network@, containers@.take(0)));
    while i < containers.len()
        invariant
            i <= containers@.len(),
            jsons(out@) == members_of(network@, containers@.take(i as int)),
        decreases containers.len() - i,
    {
        proof {
            assert(containers@.take(i + 1).drop_last() =~= containers@.take(i as int));
            assert(containers@.take(i + 1).last() == containers@[i as int]);
        }
        let c = &containers[i];
        if let (Some(n), Some(ip)) = (&c.network, &c.ip) {
            if str_eq(n.as_str(), network) {
                let shown = NetworkContainerJson {
                    id: c.id.as_str().to_owned(),
                    name: c.name.as_str().to_owned(),
                    ip: ip.as_str().to_owned(),
                };
                assert(jsons(out@.push(shown)) =~= jsons(out@).push(shown.json()));
                out.push(shown);
            }
        }
        i += 1;
    }
    assert(containers@.take(i as int) =~= containers@);
    out
}

/// The networks, each with its containers.
pub open spec fn network_jsons(networks: Seq<NetworkConfig>, containers: Seq<Container>) -> Seq<Seq<char>> {
    networks.map_values(|n: NetworkConfig| network_json(n@, members_of(n@.name, containers)))
}

/// The networks of a store, each with its containers.
pub fn list(networks: &Vec<NetworkConfig>, containers: &Vec<Container>) -> (r: Response)
    ensures
        r@ == json_response(200, json_array(network_jsons(networks@, containers@))),
{
    let ghost all = network_jsons(networks@, containers@);
    let mut out: Vec<NetworkJson> = Vec::new();
    let mut i: usize = 0;
    assert(jsons(out@) =~= all.take(0));
    while i < networks.len()
        invariant
            i <= networks@.len(),
            all == network_jsons(networks@, containers@),
            jsons(out@) == all.take(i as int),
        decreases networks.len() - i,
    {
        let n = &networks[i];
        let shown = NetworkJson {
            name: n.name.as_str().to_owned(),
            bridge: n.bridge.as_str().to_owned(),
            subnet: n.subnet.as_str().to_owned(),
            gateway: n.gateway.as_str().to_owned(),
            containers: network_members(n.name.as_str(), containers),
        };
        assert(shown.json() == all[i as int]);
        assert(jsons(out@.push(shown)) =~= jsons(out@).push(shown.json()));
        assert(all.take(i + 1) =~= all.take(i as int).push(shown.json()));
        out.push(shown);
        i += 1;
    }
    assert(all.take(i as int) =~= all);
    let json = json_items(&out);
    Response::json(200, json.as_str())
}

/// The JSON object that says that all went well.
pub open spec fn ok_json() -> Seq<char> {
    json_object(seq![json_member("ok"@, "true"@)])
}

/// The JSON object that says that all went well.
pub fn write_ok() -> (r: String)
    ensures
        r@ == ok_json(),
{
    let mut m: Vec<String> = Vec::new();
    add_member(&mut m, "ok", "true");
    assert(views(m@) =~= seq![json_member("ok"@, "true"@)]);
    json_map(&m)
}

/// The answer once something was done: well with one status, a complaint with
/// another.
pub open spec fn done_response(ok: u16, failed: u16, outcome: Result<(), String>) -> crate::http::ResponseView {
    match outcome {
        Ok(_) => json_response(ok, ok_json()),
        Err(e) => text_response(failed, e@),
    }
}

/// The answer once something was done.
pub fn done(ok: u16, failed: u16, outcome: &Result<(), String>) -> (r: Response)
    ensures
        r@ == done_response(ok, failed, *outcome),
{
    match outcome {
        Ok(_) => {
            let json = write_ok();
            Response::json(ok, json.as_str())
        },
        Err(e) => Response::text(failed, e.as_str()),
    }
}

/// The name of the network to create.
pub fn create(body: Result<String, String>) -> (r: Result<String, Response>)
    ensures
        match body {
            Ok(name) => r == Ok::<String, Response>(name),
            Err(m) => r matches Err(e) && e@ == invalid_body(m@),
        },
{
    match body {
        Ok(name) => Ok(name),
        Err(m) => Err(refuse_body(m.as_str())),
    }
}

/// The answer once a network was created.
pub fn create_reply(outcome: &Result<(), String>) -> (r: Response)
    ensures
        r@ == done_response(201, 500, *outcome),
{
    done(201, 500, outcome)
}

/// The answer once a network was removed.
pub fn remove(outcome: &Result<(), String>) -> (r: Response)
    ensures
        r@ == done_response(200, 404, *outcome),
{
    done(200, 404, outcome)
}

/// The containers of a network are listed one by one: each that is recorded in
/// it and has an address, by its own id, name and address, and no other.
pub proof fn networks_list_their_containers(network: Seq<char>, a: Seq<Container>, b: Seq<Container>, one: Container)
    ensures
        members_of(network, a + b) == members_of(network, a) + members_of(network, b),
        one.network is Some && one.network->0@ == network && one.ip is Some ==> members_of(network, seq![one]) == seq![
            member_json(one.id@, one.name@, one.ip->0@),
        ],
        one.network is None || one.network->0@ != network || one.ip is None ==> members_of(network, seq![one]).len()
            == 0,
    decreases b.len(),
{
    reveal_with_fuel(members_of, 2);
    assert(seq![one].drop_last() =~= Seq::<Container>::empty());
    assert(members_of(network, seq![one]) =~= (if one.network is Some && one.network->0@ == network && one.ip is Some {
        seq![member_json(one.id@, one.name@, one.ip->0@)]
    } else {
        Seq::empty()
    }));
    if b.len() == 0 {
        assert(a + b =~= a);
        assert(members_of(network, a + b) =~= members_of(network, a) + members_of(network, b));
    } else {
        networks_list_their_containers(network, a, b.drop_last(), one);
        assert((a + b).drop_last() =~= a + b.drop_last());
        assert((a + b).last() == b.last());
        assert(members_of(network, a + b) =~= members_of(network, a) + members_of(network, b));
    }
}

/// The answer to what was done has the status of success and says `ok`, or has
/// the other status and says what went wrong.
pub proof fn answers_tell_success_from_failure(ok: u16, failed: u16, e: String)
    ensures
        done_response(ok, failed, Ok(())).status == ok,
        crate::shown::shows(ok_json(), "ok"@, "true"@),
        done_response(ok, failed, Ok(())).body == vstd::utf8::encode_utf8(ok_json()),
        done_response(ok, failed, Err(e)).status == failed,
        done_response(ok, failed, Err(e)).body == vstd::utf8::encode_utf8(e@),
{
    let members = seq![json_member("ok"@, "true"@)];
    assert(members[0] == json_member("ok"@, "true"@));
    assert(members.contains(json_member("ok"@, "true"@)));
    assert(json_object(members) == ok_json());
}

} // verus!
