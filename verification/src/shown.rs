//! What the JSON texts show: each field stands under its own name.

use crate::codec::{
    hex_text, json_array, json_bool_text, json_member, json_object, json_opt_number, json_opt_string, json_string,
    jsons, ToJson,
};
use crate::daemon::containers::{container_members, number_json, opt_nat, pid_json, status_word, Container};
use crate::daemon::images::detail_members;
use crate::daemon::network_events::{endpoint, event_line};
use crate::daemon::secrets::meta_members;
use crate::image::{config_lines, env_json, env_lines, opt_text, port_json, port_lines, ConfigView};
use crate::num::decimal;
use crate::pretty::{laid_array, laid_member, laid_object};
use crate::registry::{descriptor_text, json_texts, oci_config_members, pushed_config, ContainerView, OciDescriptor};
use crate::registry_store::{role_text, user_line_members};
use crate::scan::{finding_json, finding_views, FindingView};
use crate::secrets::SecretMeta;
use crate::text::views;
use vstd::prelude::*;

verus! {

/// Whether the object that a text is holds a value under a name.
pub open spec fn shows(text: Seq<char>, name: Seq<char>, value: Seq<char>) -> bool {
    exists|members: Seq<Seq<char>>| #[trigger]
        json_object(members) == text && members.contains(json_member(name, value))
}

/// Whether the object that a text in a file is, `depth` levels down, holds a
/// value under a name.
pub open spec fn shows_at(text: Seq<char>, depth: nat, name: Seq<char>, value: Seq<char>) -> bool {
    exists|members: Seq<Seq<char>>| #[trigger]
        laid_object(members, depth) == text && members.contains(laid_member(name, value))
}

/// The members of an object are what it shows.
proof fn lemma_shown(text: Seq<char>, members: Seq<Seq<char>>, i: int, name: Seq<char>, value: Seq<char>)
    requires
        text == json_object(members),
        0 <= i < members.len(),
        members[i] == json_member(name, value),
    ensures
        shows(text, name, value),
{
    assert(members.contains(json_member(name, value)));
}

/// The members of an object in a file are what it shows.
proof fn lemma_shown_at(
    text: Seq<char>,
    members: Seq<Seq<char>>,
    depth: nat,
    i: int,
    name: Seq<char>,
    value: Seq<char>,
)
    requires
        text == laid_object(members, depth),
        0 <= i < members.len(),
        members[i] == laid_member(name, value),
    ensures
        shows_at(text, depth, name, value),
{
    assert(members.contains(laid_member(name, value)));
}

/// The record of an event shows when it was, who did what to what, and whether
/// that was allowed.
pub proof fn events_show_their_fields(e: crate::audit::EntryView)
    ensures
        ({
            let text = crate::audit::entry_json(e);
            &&& shows(text, "ts"@, decimal(e.ts as nat))
            &&& shows(text, "username"@, json_string(e.username))
            &&& shows(text, "action"@, json_string(e.action))
            &&& shows(text, "resource"@, json_string(e.resource))
            &&& shows(text, "allowed"@, json_bool_text(e.allowed))
        }),
{
    let text = crate::audit::entry_json(e);
    let members = seq![
        json_member("ts"@, decimal(e.ts as nat)),
        json_member("username"@, json_string(e.username)),
        json_member("action"@, json_string(e.action)),
        json_member("resource"@, json_string(e.resource)),
        json_member("allowed"@, json_bool_text(e.allowed)),
    ];
    lemma_shown(text, members, 0, "ts"@, decimal(e.ts as nat));
    lemma_shown(text, members, 1, "username"@, json_string(e.username));
    lemma_shown(text, members, 2, "action"@, json_string(e.action));
    lemma_shown(text, members, 3, "resource"@, json_string(e.resource));
    lemma_shown(text, members, 4, "allowed"@, json_bool_text(e.allowed));
}

/// What is shown of a container is what is recorded of it.
pub proof fn containers_show_their_fields(c: Container)
    ensures
        ({
            let text = c.json();
            let command = json_array(views(c.command@).map_values(|s: Seq<char>| json_string(s)));
            &&& shows(text, "id"@, json_string(c.id@))
            &&& shows(text, "name"@, json_string(c.name@))
            &&& shows(text, "image"@, json_string(c.image_reference@))
            &&& shows(text, "command"@, command)
            &&& shows(text, "status"@, json_string(status_word(c.status)))
            &&& shows(text, "pid"@, pid_json(c.pid))
            &&& shows(text, "ip"@, json_opt_string(opt_text(c.ip)))
            &&& shows(text, "network"@, json_opt_string(opt_text(c.network)))
            &&& shows(text, "created_at"@, decimal(c.created_at as nat))
            &&& shows(text, "memory_limit_bytes"@, json_opt_number(opt_nat(c.memory_limit_bytes)))
            &&& shows(text, "cpu_limit"@, number_json(opt_text(c.cpu_limit)))
        }),
{
    let text = c.json();
    let command = json_array(views(c.command@).map_values(|s: Seq<char>| json_string(s)));
    let members = container_members(c);
    lemma_shown(text, members, 0, "id"@, json_string(c.id@));
    lemma_shown(text, members, 1, "name"@, json_string(c.name@));
    lemma_shown(text, members, 2, "image"@, json_string(c.image_reference@));
    lemma_shown(text, members, 3, "command"@, command);
    lemma_shown(text, members, 4, "status"@, json_string(status_word(c.status)));
    lemma_shown(text, members, 5, "pid"@, pid_json(c.pid));
    lemma_shown(text, members, 6, "ip"@, json_opt_string(opt_text(c.ip)));
    lemma_shown(text, members, 7, "network"@, json_opt_string(opt_text(c.network)));
    lemma_shown(text, members, 8, "created_at"@, decimal(c.created_at as nat));
    lemma_shown(text, members, 9, "memory_limit_bytes"@, json_opt_number(opt_nat(c.memory_limit_bytes)));
    lemma_shown(text, members, 10, "cpu_limit"@, number_json(opt_text(c.cpu_limit)));
}

/// A container that waits is shown by its name and by what it waits for.
pub proof fn waiting_containers_show_their_fields(name: Seq<char>, waiting_for: Seq<char>)
    ensures
        ({
            let text = crate::daemon::compose_waiting::waiting_json(name, waiting_for);
            &&& shows(text, "container_name"@, json_string(name))
            &&& shows(text, "waiting_for"@, json_string(waiting_for))
        }),
{
    let text = crate::daemon::compose_waiting::waiting_json(name, waiting_for);
    let members = seq![
        json_member("container_name"@, json_string(name)),
        json_member("waiting_for"@, json_string(waiting_for)),
    ];
    lemma_shown(text, members, 0, "container_name"@, json_string(name));
    lemma_shown(text, members, 1, "waiting_for"@, json_string(waiting_for));
}

/// A line about an observed packet, but for the end of the line, shows which way
/// it went, its protocol, its two ends and its size.
pub proof fn observed_packets_show_their_fields(e: crate::netbpf::FlowView)
    ensures
        ({
            let text = event_line(e).drop_last();
            &&& shows(text, "to_container"@, json_bool_text(e.to_container))
            &&& shows(text, "protocol"@, json_string(if e.protocol == 6 {
                "tcp"@
            } else {
                "udp"@
            }))
            &&& shows(text, "src"@, json_string(endpoint(e.src_addr, e.src_port)))
            &&& shows(text, "dst"@, json_string(endpoint(e.dst_addr, e.dst_port)))
            &&& shows(text, "bytes"@, decimal(e.len as nat))
        }),
{
    let text = event_line(e).drop_last();
    let members = seq![
        json_member("to_container"@, json_bool_text(e.to_container)),
        json_member("protocol"@, json_string(if e.protocol == 6 {
                "tcp"@
            } else {
                "udp"@
            })),
        json_member("src"@, json_string(endpoint(e.src_addr, e.src_port))),
        json_member("dst"@, json_string(endpoint(e.dst_addr, e.dst_port))),
        json_member("bytes"@, decimal(e.len as nat)),
    ];
    reveal_strlit("\n");
    assert(text =~= json_object(members));
    lemma_shown(text, members, 0, "to_container"@, json_bool_text(e.to_container));
    lemma_shown(text, members, 1, "protocol"@, json_string(if e.protocol == 6 {
                "tcp"@
            } else {
                "udp"@
            }));
    lemma_shown(text, members, 2, "src"@, json_string(endpoint(e.src_addr, e.src_port)));
    lemma_shown(text, members, 3, "dst"@, json_string(endpoint(e.dst_addr, e.dst_port)));
    lemma_shown(text, members, 4, "bytes"@, decimal(e.len as nat));
}

/// A container is shown in its network by its id, its name and its address.
pub proof fn attached_containers_show_their_fields(id: Seq<char>, name: Seq<char>, ip: Seq<char>)
    ensures
        ({
            let text = crate::daemon::networks::member_json(id, name, ip);
            &&& shows(text, "id"@, json_string(id))
            &&& shows(text, "name"@, json_string(name))
            &&& shows(text, "ip"@, json_string(ip))
        }),
{
    let text = crate::daemon::networks::member_json(id, name, ip);
    let members = seq![
        json_member("id"@, json_string(id)),
        json_member("name"@, json_string(name)),
        json_member("ip"@, json_string(ip)),
    ];
    lemma_shown(text, members, 0, "id"@, json_string(id));
    lemma_shown(text, members, 1, "name"@, json_string(name));
    lemma_shown(text, members, 2, "ip"@, json_string(ip));
}

/// A network is shown with its containers.
pub proof fn networks_show_their_fields(n: crate::network::NetworkView, containers: Seq<Seq<char>>)
    ensures
        ({
            let text = crate::daemon::networks::network_json(n, containers);
            &&& shows(text, "name"@, json_string(n.name))
            &&& shows(text, "bridge"@, json_string(n.bridge))
            &&& shows(text, "subnet"@, json_string(n.subnet))
            &&& shows(text, "gateway"@, json_string(n.gateway))
            &&& shows(text, "containers"@, json_array(containers))
        }),
{
    let text = crate::daemon::networks::network_json(n, containers);
    let members = seq![
        json_member("name"@, json_string(n.name)),
        json_member("bridge"@, json_string(n.bridge)),
        json_member("subnet"@, json_string(n.subnet)),
        json_member("gateway"@, json_string(n.gateway)),
        json_member("containers"@, json_array(containers)),
    ];
    lemma_shown(text, members, 0, "name"@, json_string(n.name));
    lemma_shown(text, members, 1, "bridge"@, json_string(n.bridge));
    lemma_shown(text, members, 2, "subnet"@, json_string(n.subnet));
    lemma_shown(text, members, 3, "gateway"@, json_string(n.gateway));
    lemma_shown(text, members, 4, "containers"@, json_array(containers));
}

/// A node is shown by its name, its address and whether it can be reached.
pub proof fn nodes_show_their_fields(n: crate::daemon::nodes::NodeJson)
    ensures
        ({
            let text = n.json();
            &&& shows(text, "name"@, json_string(n.name@))
            &&& shows(text, "address"@, json_string(n.address@))
            &&& shows(text, "reachable"@, json_bool_text(n.reachable))
        }),
{
    let text = n.json();
    let members = seq![
        json_member("name"@, json_string(n.name@)),
        json_member("address"@, json_string(n.address@)),
        json_member("reachable"@, json_bool_text(n.reachable)),
    ];
    lemma_shown(text, members, 0, "name"@, json_string(n.name@));
    lemma_shown(text, members, 1, "address"@, json_string(n.address@));
    lemma_shown(text, members, 2, "reachable"@, json_bool_text(n.reachable));
}

/// An image in the list is shown by its id, its name and its size.
pub proof fn listed_images_show_their_fields(
    id: Seq<u8>,
    repository: Option<Seq<char>>,
    tag: Option<Seq<char>>,
    layers: nat,
    size_bytes: nat,
)
    ensures
        ({
            let text = crate::daemon::images::listed_json(id, repository, tag, layers, size_bytes);
            &&& shows(text, "id"@, json_string(hex_text(id)))
            &&& shows(text, "repository"@, json_opt_string(repository))
            &&& shows(text, "tag"@, json_opt_string(tag))
            &&& shows(text, "layers"@, decimal(layers))
            &&& shows(text, "size_bytes"@, decimal(size_bytes))
        }),
{
    let text = crate::daemon::images::listed_json(id, repository, tag, layers, size_bytes);
    let members = seq![
        json_member("id"@, json_string(hex_text(id))),
        json_member("repository"@, json_opt_string(repository)),
        json_member("tag"@, json_opt_string(tag)),
        json_member("layers"@, decimal(layers)),
        json_member("size_bytes"@, decimal(size_bytes)),
    ];
    lemma_shown(text, members, 0, "id"@, json_string(hex_text(id)));
    lemma_shown(text, members, 1, "repository"@, json_opt_string(repository));
    lemma_shown(text, members, 2, "tag"@, json_opt_string(tag));
    lemma_shown(text, members, 3, "layers"@, decimal(layers));
    lemma_shown(text, members, 4, "size_bytes"@, decimal(size_bytes));
}

/// A layer is shown by its hash, and by how much it holds.
pub proof fn layers_show_their_fields(hash: Seq<u8>, entry_count: nat, size_bytes: nat)
    ensures
        ({
            let text = crate::daemon::images::layer_json(hash, entry_count, size_bytes);
            &&& shows(text, "hash"@, json_string(hex_text(hash)))
            &&& shows(text, "entry_count"@, decimal(entry_count))
            &&& shows(text, "size_bytes"@, decimal(size_bytes))
        }),
{
    let text = crate::daemon::images::layer_json(hash, entry_count, size_bytes);
    let members = seq![
        json_member("hash"@, json_string(hex_text(hash))),
        json_member("entry_count"@, decimal(entry_count)),
        json_member("size_bytes"@, decimal(size_bytes)),
    ];
    lemma_shown(text, members, 0, "hash"@, json_string(hex_text(hash)));
    lemma_shown(text, members, 1, "entry_count"@, decimal(entry_count));
    lemma_shown(text, members, 2, "size_bytes"@, decimal(size_bytes));
}

/// One image is shown by its id, its name, its configuration and its layers, and
/// by whether its signature was checked.
pub proof fn images_show_their_fields(i: crate::daemon::images::ImageDetailJson)
    ensures
        ({
            let text = i.json();
            let env = json_array(i.config@.env.map_values(|p: (Seq<char>, Seq<char>)| env_json(p)));
            let exposed_ports = json_array(i.config@.exposed_ports.map_values(|p: (u16, Seq<char>)| port_json(p)));
            &&& shows(text, "id"@, json_string(hex_text(i.id@)))
            &&& shows(text, "repository"@, json_opt_string(opt_text(i.repository)))
            &&& shows(text, "tag"@, json_opt_string(opt_text(i.tag)))
            &&& shows(text, "env"@, env)
            &&& shows(text, "cmd"@, json_opt_string(i.config@.cmd))
            &&& shows(text, "workdir"@, json_string(i.config@.workdir))
            &&& shows(text, "exposed_ports"@, exposed_ports)
            &&& shows(text, "layers"@, json_array(jsons(i.layers@)))
            &&& shows(text, "signature_verified"@, json_bool_text(i.signature_verified))
        }),
{
    let text = i.json();
    let env = json_array(i.config@.env.map_values(|p: (Seq<char>, Seq<char>)| env_json(p)));
    let exposed_ports = json_array(i.config@.exposed_ports.map_values(|p: (u16, Seq<char>)| port_json(p)));
    let members = detail_members(
        i.id@,
        (opt_text(i.repository), opt_text(i.tag)),
        i.config@,
        jsons(i.layers@),
        i.signature_verified,
    );
    lemma_shown(text, members, 0, "id"@, json_string(hex_text(i.id@)));
    lemma_shown(text, members, 1, "repository"@, json_opt_string(opt_text(i.repository)));
    lemma_shown(text, members, 2, "tag"@, json_opt_string(opt_text(i.tag)));
    lemma_shown(text, members, 3, "env"@, env);
    lemma_shown(text, members, 4, "cmd"@, json_opt_string(i.config@.cmd));
    lemma_shown(text, members, 5, "workdir"@, json_string(i.config@.workdir));
    lemma_shown(text, members, 6, "exposed_ports"@, exposed_ports);
    lemma_shown(text, members, 7, "layers"@, json_array(jsons(i.layers@)));
    lemma_shown(text, members, 8, "signature_verified"@, json_bool_text(i.signature_verified));
}

/// An image is named by its id, with what became of it under its own key.
pub proof fn named_images_show_their_fields(id: Seq<u8>, key: Seq<char>, name: Seq<char>)
    ensures
        ({
            let text = crate::daemon::images::named_json(id, key, name);
            &&& shows(text, "id"@, json_string(hex_text(id)))
            &&& shows(text, key, json_string(name))
        }),
{
    let text = crate::daemon::images::named_json(id, key, name);
    let members = seq![
        json_member("id"@, json_string(hex_text(id))),
        json_member(key, json_string(name)),
    ];
    lemma_shown(text, members, 0, "id"@, json_string(hex_text(id)));
    lemma_shown(text, members, 1, key, json_string(name));
}

/// A step of a build is shown by its instruction, and by whether the cache had it.
pub proof fn build_steps_show_their_fields(s: crate::daemon::images::BuildStepJson)
    ensures
        ({
            let text = s.json();
            &&& shows(text, "instruction"@, json_string(s.instruction@))
            &&& shows(text, "cached"@, json_bool_text(s.cached))
        }),
{
    let text = s.json();
    let members = seq![
        json_member("instruction"@, json_string(s.instruction@)),
        json_member("cached"@, json_bool_text(s.cached)),
    ];
    lemma_shown(text, members, 0, "instruction"@, json_string(s.instruction@));
    lemma_shown(text, members, 1, "cached"@, json_bool_text(s.cached));
}

/// A build is shown by the image that it made, by its steps and by its name.
pub proof fn builds_show_their_fields(r: crate::daemon::images::BuildResultJson)
    ensures
        ({
            let text = r.json();
            &&& shows(text, "image_id"@, json_string(hex_text(r.image_id@)))
            &&& shows(text, "steps"@, json_array(jsons(r.steps@)))
            &&& shows(text, "tagged"@, json_opt_string(opt_text(r.tagged)))
        }),
{
    let text = r.json();
    let members = seq![
        json_member("image_id"@, json_string(hex_text(r.image_id@))),
        json_member("steps"@, json_array(jsons(r.steps@))),
        json_member("tagged"@, json_opt_string(opt_text(r.tagged))),
    ];
    lemma_shown(text, members, 0, "image_id"@, json_string(hex_text(r.image_id@)));
    lemma_shown(text, members, 1, "steps"@, json_array(jsons(r.steps@)));
    lemma_shown(text, members, 2, "tagged"@, json_opt_string(opt_text(r.tagged)));
}

/// The history of a secret is shown by its version and its times.
pub proof fn histories_show_their_fields(m: SecretMeta)
    ensures
        ({
            let text = json_object(meta_members(m));
            &&& shows(text, "version"@, decimal(m.version as nat))
            &&& shows(text, "created_at"@, decimal(m.created_at as nat))
            &&& shows(text, "rotated_at"@, json_opt_number(opt_nat(m.rotated_at)))
            &&& shows(text, "ttl_secs"@, json_opt_number(opt_nat(m.ttl_secs)))
        }),
{
    let text = json_object(meta_members(m));
    let members = meta_members(m);
    lemma_shown(text, members, 0, "version"@, decimal(m.version as nat));
    lemma_shown(text, members, 1, "created_at"@, decimal(m.created_at as nat));
    lemma_shown(text, members, 2, "rotated_at"@, json_opt_number(opt_nat(m.rotated_at)));
    lemma_shown(text, members, 3, "ttl_secs"@, json_opt_number(opt_nat(m.ttl_secs)));
}

/// A secret is shown by its name and, where it has a history, by that: its value
/// is not shown.
pub proof fn secrets_show_their_fields(s: crate::daemon::secrets::SecretJson, m: SecretMeta)
    requires
        s.meta == Some(m),
    ensures
        ({
            let text = s.json();
            &&& shows(text, "name"@, json_string(s.name@))
            &&& shows(text, "version"@, decimal(m.version as nat))
            &&& shows(text, "created_at"@, decimal(m.created_at as nat))
            &&& shows(text, "rotated_at"@, json_opt_number(opt_nat(m.rotated_at)))
            &&& shows(text, "ttl_secs"@, json_opt_number(opt_nat(m.ttl_secs)))
        }),
{
    let text = s.json();
    let members = (seq![json_member("name"@, json_string(s.name@))] + meta_members(m));
    lemma_shown(text, members, 0, "name"@, json_string(s.name@));
    lemma_shown(text, members, 1, "version"@, decimal(m.version as nat));
    lemma_shown(text, members, 2, "created_at"@, decimal(m.created_at as nat));
    lemma_shown(text, members, 3, "rotated_at"@, json_opt_number(opt_nat(m.rotated_at)));
    lemma_shown(text, members, 4, "ttl_secs"@, json_opt_number(opt_nat(m.ttl_secs)));
}

/// A container that has a secret is shown by its id and its name, and by whether
/// it has the new value.
pub proof fn live_updates_show_their_fields(u: crate::daemon::secrets::LiveUpdateJson)
    ensures
        ({
            let text = u.json();
            &&& shows(text, "container_id"@, json_string(u.container_id@))
            &&& shows(text, "container_name"@, json_string(u.container_name@))
            &&& shows(text, "updated"@, json_bool_text(u.updated))
        }),
{
    let text = u.json();
    let members = seq![
        json_member("container_id"@, json_string(u.container_id@)),
        json_member("container_name"@, json_string(u.container_name@)),
        json_member("updated"@, json_bool_text(u.updated)),
    ];
    lemma_shown(text, members, 0, "container_id"@, json_string(u.container_id@));
    lemma_shown(text, members, 1, "container_name"@, json_string(u.container_name@));
    lemma_shown(text, members, 2, "updated"@, json_bool_text(u.updated));
}

/// A rotation is shown by the new history, by the value that was made up for it
/// and by the containers that have it.
pub proof fn rotations_show_their_fields(r: crate::daemon::secrets::RotateResponse)
    ensures
        ({
            let text = r.json();
            &&& shows(text, "meta"@, json_object(meta_members(r.meta)))
            &&& shows(text, "generated_value"@, json_opt_string(opt_text(r.generated_value)))
            &&& shows(text, "live_updates"@, json_array(jsons(r.live_updates@)))
        }),
{
    let text = r.json();
    let members = seq![
        json_member("meta"@, json_object(meta_members(r.meta))),
        json_member("generated_value"@, json_opt_string(opt_text(r.generated_value))),
        json_member("live_updates"@, json_array(jsons(r.live_updates@))),
    ];
    lemma_shown(text, members, 0, "meta"@, json_object(meta_members(r.meta)));
    lemma_shown(text, members, 1, "generated_value"@, json_opt_string(opt_text(r.generated_value)));
    lemma_shown(text, members, 2, "live_updates"@, json_array(jsons(r.live_updates@)));
}

/// The room that a store takes is shown part by part, and in all.
pub proof fn disk_usage_shows_its_fields(u: crate::daemon::system::DiskUsageJson)
    ensures
        ({
            let text = u.json();
            &&& shows(text, "blobs_bytes"@, decimal(u.blobs_bytes as nat))
            &&& shows(text, "layers_bytes"@, decimal(u.layers_bytes as nat))
            &&& shows(text, "volumes_bytes"@, decimal(u.volumes_bytes as nat))
            &&& shows(text, "containers_bytes"@, decimal(u.containers_bytes as nat))
            &&& shows(text, "total_bytes"@, decimal(u.total_bytes as nat))
        }),
{
    let text = u.json();
    let members = seq![
        json_member("blobs_bytes"@, decimal(u.blobs_bytes as nat)),
        json_member("layers_bytes"@, decimal(u.layers_bytes as nat)),
        json_member("volumes_bytes"@, decimal(u.volumes_bytes as nat)),
        json_member("containers_bytes"@, decimal(u.containers_bytes as nat)),
        json_member("total_bytes"@, decimal(u.total_bytes as nat)),
    ];
    lemma_shown(text, members, 0, "blobs_bytes"@, decimal(u.blobs_bytes as nat));
    lemma_shown(text, members, 1, "layers_bytes"@, decimal(u.layers_bytes as nat));
    lemma_shown(text, members, 2, "volumes_bytes"@, decimal(u.volumes_bytes as nat));
    lemma_shown(text, members, 3, "containers_bytes"@, decimal(u.containers_bytes as nat));
    lemma_shown(text, members, 4, "total_bytes"@, decimal(u.total_bytes as nat));
}

/// A garbage collection is shown by what it removed.
pub proof fn collections_show_their_fields(g: crate::daemon::system::GcResultJson)
    ensures
        ({
            let text = g.json();
            &&& shows(text, "blobs_removed"@, decimal(g.blobs_removed as nat))
            &&& shows(text, "bytes_freed"@, decimal(g.bytes_freed as nat))
            &&& shows(text, "images_removed"@, decimal(g.images_removed as nat))
        }),
{
    let text = g.json();
    let members = seq![
        json_member("blobs_removed"@, decimal(g.blobs_removed as nat)),
        json_member("bytes_freed"@, decimal(g.bytes_freed as nat)),
        json_member("images_removed"@, decimal(g.images_removed as nat)),
    ];
    lemma_shown(text, members, 0, "blobs_removed"@, decimal(g.blobs_removed as nat));
    lemma_shown(text, members, 1, "bytes_freed"@, decimal(g.bytes_freed as nat));
    lemma_shown(text, members, 2, "images_removed"@, decimal(g.images_removed as nat));
}

/// A volume is shown by its name, its containers, its size and where it is.
pub proof fn volumes_show_their_fields(
    name: Seq<char>,
    containers: Seq<Seq<char>>,
    size_bytes: nat,
    host_path: Seq<char>,
)
    ensures
        ({
            let text = crate::daemon::volumes::volume_json(name, containers, size_bytes, host_path);
            let containers = json_array(containers.map_values(|s: Seq<char>| json_string(s)));
            &&& shows(text, "name"@, json_string(name))
            &&& shows(text, "containers"@, containers)
            &&& shows(text, "size_bytes"@, decimal(size_bytes))
            &&& shows(text, "host_path"@, json_string(host_path))
        }),
{
    let text = crate::daemon::volumes::volume_json(name, containers, size_bytes, host_path);
    let containers = json_array(containers.map_values(|s: Seq<char>| json_string(s)));
    let members = seq![
        json_member("name"@, json_string(name)),
        json_member("containers"@, containers),
        json_member("size_bytes"@, decimal(size_bytes)),
        json_member("host_path"@, json_string(host_path)),
    ];
    lemma_shown(text, members, 0, "name"@, json_string(name));
    lemma_shown(text, members, 1, "containers"@, containers);
    lemma_shown(text, members, 2, "size_bytes"@, decimal(size_bytes));
    lemma_shown(text, members, 3, "host_path"@, json_string(host_path));
}

/// A file in a volume is shown by its name, its kind and its size.
pub proof fn files_show_their_fields(f: crate::daemon::volumes::FileEntryJson)
    ensures
        ({
            let text = f.json();
            &&& shows(text, "name"@, json_string(f.name@))
            &&& shows(text, "is_dir"@, json_bool_text(f.is_dir))
            &&& shows(text, "size_bytes"@, decimal(f.size_bytes as nat))
        }),
{
    let text = f.json();
    let members = seq![
        json_member("name"@, json_string(f.name@)),
        json_member("is_dir"@, json_bool_text(f.is_dir)),
        json_member("size_bytes"@, decimal(f.size_bytes as nat)),
    ];
    lemma_shown(text, members, 0, "name"@, json_string(f.name@));
    lemma_shown(text, members, 1, "is_dir"@, json_bool_text(f.is_dir));
    lemma_shown(text, members, 2, "size_bytes"@, decimal(f.size_bytes as nat));
}

/// A vulnerability is shown by what is known of it.
pub proof fn findings_show_their_fields(f: FindingView)
    ensures
        ({
            let text = finding_json(f);
            &&& shows(text, "id"@, json_string(f.id))
            &&& shows(text, "package"@, json_string(f.package))
            &&& shows(text, "installed_version"@, json_string(f.installed_version))
            &&& shows(text, "fixed_version"@, json_opt_string(f.fixed_version))
            &&& shows(text, "severity"@, json_string(f.severity))
            &&& shows(text, "url"@, json_opt_string(f.url))
        }),
{
    let text = finding_json(f);
    let members = seq![
        json_member("id"@, json_string(f.id)),
        json_member("package"@, json_string(f.package)),
        json_member("installed_version"@, json_string(f.installed_version)),
        json_member("fixed_version"@, json_opt_string(f.fixed_version)),
        json_member("severity"@, json_string(f.severity)),
        json_member("url"@, json_opt_string(f.url)),
    ];
    lemma_shown(text, members, 0, "id"@, json_string(f.id));
    lemma_shown(text, members, 1, "package"@, json_string(f.package));
    lemma_shown(text, members, 2, "installed_version"@, json_string(f.installed_version));
    lemma_shown(text, members, 3, "fixed_version"@, json_opt_string(f.fixed_version));
    lemma_shown(text, members, 4, "severity"@, json_string(f.severity));
    lemma_shown(text, members, 5, "url"@, json_opt_string(f.url));
}

/// A report shows how many vulnerabilities of each severity there are, and all
/// of them.
pub proof fn reports_show_their_fields(r: crate::scan::ScanReport)
    ensures
        ({
            let text = crate::scan::report_json(r);
            let findings = json_array(finding_views(r.findings@).map_values(|f: FindingView| finding_json(f)));
            &&& shows(text, "critical"@, decimal(r.critical as nat))
            &&& shows(text, "high"@, decimal(r.high as nat))
            &&& shows(text, "medium"@, decimal(r.medium as nat))
            &&& shows(text, "low"@, decimal(r.low as nat))
            &&& shows(text, "findings"@, findings)
        }),
{
    let text = crate::scan::report_json(r);
    let findings = json_array(finding_views(r.findings@).map_values(|f: FindingView| finding_json(f)));
    let members = seq![
        json_member("critical"@, decimal(r.critical as nat)),
        json_member("high"@, decimal(r.high as nat)),
        json_member("medium"@, decimal(r.medium as nat)),
        json_member("low"@, decimal(r.low as nat)),
        json_member("findings"@, findings),
    ];
    lemma_shown(text, members, 0, "critical"@, decimal(r.critical as nat));
    lemma_shown(text, members, 1, "high"@, decimal(r.high as nat));
    lemma_shown(text, members, 2, "medium"@, decimal(r.medium as nat));
    lemma_shown(text, members, 3, "low"@, decimal(r.low as nat));
    lemma_shown(text, members, 4, "findings"@, findings);
}

/// The file of a signature names its kind and holds it.
pub proof fn signature_files_show_their_fields(signature: Seq<char>)
    ensures
        ({
            let text = crate::registry::signature_json(signature);
            &&& shows(text, "algorithm"@, json_string("ed25519"@))
            &&& shows(text, "signature"@, json_string(signature))
        }),
{
    let text = crate::registry::signature_json(signature);
    let members = seq![
        json_member("algorithm"@, json_string("ed25519"@)),
        json_member("signature"@, json_string(signature)),
    ];
    lemma_shown(text, members, 0, "algorithm"@, json_string("ed25519"@));
    lemma_shown(text, members, 1, "signature"@, json_string(signature));
}

/// A manifest says of a blob what it is, its digest and its size.
pub proof fn descriptors_show_their_fields(media_type: Seq<char>, digest: Seq<char>, size: nat)
    ensures
        ({
            let text = crate::registry::descriptor_json(media_type, digest, size);
            &&& shows(text, "mediaType"@, json_string(media_type))
            &&& shows(text, "digest"@, json_string(digest))
            &&& shows(text, "size"@, decimal(size))
        }),
{
    let text = crate::registry::descriptor_json(media_type, digest, size);
    let members = seq![
        json_member("mediaType"@, json_string(media_type)),
        json_member("digest"@, json_string(digest)),
        json_member("size"@, decimal(size)),
    ];
    lemma_shown(text, members, 0, "mediaType"@, json_string(media_type));
    lemma_shown(text, members, 1, "digest"@, json_string(digest));
    lemma_shown(text, members, 2, "size"@, decimal(size));
}

/// A pushed manifest is of the second schema, and names its kind, its
/// configuration and its layers.
pub proof fn pushed_manifests_show_their_fields(config: OciDescriptor, layers: Seq<OciDescriptor>)
    ensures
        ({
            let text = crate::registry::oci_manifest_json(config, layers);
            let layers = json_array(layers.map_values(|d: OciDescriptor| descriptor_text(d)));
            &&& shows(text, "schemaVersion"@, decimal(2))
            &&& shows(text, "mediaType"@, json_string("application/vnd.oci.image.manifest.v1+json"@))
            &&& shows(text, "config"@, descriptor_text(config))
            &&& shows(text, "layers"@, layers)
        }),
{
    let text = crate::registry::oci_manifest_json(config, layers);
    let layers = json_array(layers.map_values(|d: OciDescriptor| descriptor_text(d)));
    let members = seq![
        json_member("schemaVersion"@, decimal(2)),
        json_member("mediaType"@, json_string("application/vnd.oci.image.manifest.v1+json"@)),
        json_member("config"@, descriptor_text(config)),
        json_member("layers"@, layers),
    ];
    lemma_shown(text, members, 0, "schemaVersion"@, decimal(2));
    lemma_shown(text, members, 1, "mediaType"@, json_string("application/vnd.oci.image.manifest.v1+json"@));
    lemma_shown(text, members, 2, "config"@, descriptor_text(config));
    lemma_shown(text, members, 3, "layers"@, layers);
}

/// The settings in a pushed configuration stand under the names that the format
/// gives them.
pub proof fn pushed_settings_show_their_fields(c: ContainerView)
    ensures
        ({
            let text = json_object(oci_config_members(c));
            &&& shows(text, "Cmd"@, match c.cmd {
                Some(words) => json_texts(words),
                None => "null"@,
            })
            &&& shows(text, "Env"@, json_texts(c.env))
            &&& shows(text, "ExposedPorts"@, json_object(
                c.exposed_ports.map_values(|n: Seq<char>| json_member(n, json_object(Seq::empty()))),
            ))
            &&& shows(text, "WorkingDir"@, json_opt_string(c.working_dir))
        }),
{
    let text = json_object(oci_config_members(c));
    let members = oci_config_members(c);
    lemma_shown(text, members, 0, "Cmd"@, match c.cmd {
                Some(words) => json_texts(words),
                None => "null"@,
            });
    lemma_shown(text, members, 1, "Env"@, json_texts(c.env));
    lemma_shown(text, members, 2, "ExposedPorts"@, json_object(
                c.exposed_ports.map_values(|n: Seq<char>| json_member(n, json_object(Seq::empty()))),
            ));
    lemma_shown(text, members, 3, "WorkingDir"@, json_opt_string(c.working_dir));
}

/// A pushed configuration names the machine that the image is for and holds the
/// settings.
pub proof fn pushed_configurations_show_their_fields(c: ConfigView)
    ensures
        ({
            let text = crate::registry::oci_config_json(c);
            &&& shows(text, "architecture"@, json_string("amd64"@))
            &&& shows(text, "config"@, json_object(oci_config_members(pushed_config(c))))
            &&& shows(text, "os"@, json_string("linux"@))
            &&& shows(text, "rootfs"@, json_object(
                seq![
                    json_member("diff_ids"@, json_array(Seq::empty())),
                    json_member("type"@, json_string("layers"@)),
                ],
            ))
        }),
{
    let text = crate::registry::oci_config_json(c);
    let members = seq![
        json_member("architecture"@, json_string("amd64"@)),
        json_member("config"@, json_object(oci_config_members(pushed_config(c)))),
        json_member("os"@, json_string("linux"@)),
        json_member("rootfs"@, json_object(
                seq![
                    json_member("diff_ids"@, json_array(Seq::empty())),
                    json_member("type"@, json_string("layers"@)),
                ],
            )),
    ];
    lemma_shown(text, members, 0, "architecture"@, json_string("amd64"@));
    lemma_shown(text, members, 1, "config"@, json_object(oci_config_members(pushed_config(c))));
    lemma_shown(text, members, 2, "os"@, json_string("linux"@));
    lemma_shown(text, members, 3, "rootfs"@, json_object(
                seq![
                    json_member("diff_ids"@, json_array(Seq::empty())),
                    json_member("type"@, json_string("layers"@)),
                ],
            ));
}

/// A configuration shows its variables, its command, its directory and its ports.
pub proof fn configurations_show_their_fields(c: ConfigView)
    ensures
        ({
            let text = crate::image::config_json(c);
            &&& shows(text, "env"@, json_array(
                c.env.map_values(
                    |p: (Seq<char>, Seq<char>)| json_array(seq![json_string(p.0), json_string(p.1)]),
                ),
            ))
            &&& shows(text, "cmd"@, json_opt_string(c.cmd))
            &&& shows(text, "workdir"@, json_string(c.workdir))
            &&& shows(text, "exposed_ports"@, json_array(
                c.exposed_ports.map_values(
                    |p: (u16, Seq<char>)| json_array(seq![decimal(p.0 as nat), json_string(p.1)]),
                ),
            ))
        }),
{
    let text = crate::image::config_json(c);
    let members = crate::image::config_members(c);
    assert(c.env.map_values(|p: (Seq<char>, Seq<char>)| env_json(p)) =~= c.env.map_values(
        |p: (Seq<char>, Seq<char>)| json_array(seq![json_string(p.0), json_string(p.1)]),
    ));
    assert(c.exposed_ports.map_values(|p: (u16, Seq<char>)| port_json(p)) =~= c.exposed_ports.map_values(
        |p: (u16, Seq<char>)| json_array(seq![decimal(p.0 as nat), json_string(p.1)]),
    ));
    lemma_shown(text, members, 0, "env"@, json_array(
                c.env.map_values(
                    |p: (Seq<char>, Seq<char>)| json_array(seq![json_string(p.0), json_string(p.1)]),
                ),
            ));
    lemma_shown(text, members, 1, "cmd"@, json_opt_string(c.cmd));
    lemma_shown(text, members, 2, "workdir"@, json_string(c.workdir));
    lemma_shown(text, members, 3, "exposed_ports"@, json_array(
                c.exposed_ports.map_values(
                    |p: (u16, Seq<char>)| json_array(seq![decimal(p.0 as nat), json_string(p.1)]),
                ),
            ));
}

/// An entry of a layer shows its path, its permissions, its owner and its kind.
pub proof fn entries_show_their_fields(e: crate::layer::EntryView)
    ensures
        ({
            let text = crate::layer::entry_json(e);
            &&& shows(text, "path"@, json_string(e.path))
            &&& shows(text, "mode"@, decimal(e.mode as nat))
            &&& shows(text, "uid"@, decimal(e.uid as nat))
            &&& shows(text, "gid"@, decimal(e.gid as nat))
            &&& shows(text, "kind"@, crate::layer::kind_json(e.kind))
        }),
{
    let text = crate::layer::entry_json(e);
    let members = seq![
        json_member("path"@, json_string(e.path)),
        json_member("mode"@, decimal(e.mode as nat)),
        json_member("uid"@, decimal(e.uid as nat)),
        json_member("gid"@, decimal(e.gid as nat)),
        json_member("kind"@, crate::layer::kind_json(e.kind)),
    ];
    lemma_shown(text, members, 0, "path"@, json_string(e.path));
    lemma_shown(text, members, 1, "mode"@, decimal(e.mode as nat));
    lemma_shown(text, members, 2, "uid"@, decimal(e.uid as nat));
    lemma_shown(text, members, 3, "gid"@, decimal(e.gid as nat));
    lemma_shown(text, members, 4, "kind"@, crate::layer::kind_json(e.kind));
}

/// The file of an image shows its layers and its configuration.
pub proof fn image_files_show_their_fields(i: crate::image::ImageView)
    ensures
        ({
            let text = crate::image::image_file_text(i);
            let layers = laid_array(i.layers.map_values(|h: Seq<u8>| json_string(hex_text(h))), 1);
            &&& shows_at(text, 0, "layers"@, layers)
            &&& shows_at(text, 0, "config"@, config_lines(i.config, 1))
        }),
{
    let text = crate::image::image_file_text(i);
    let layers = laid_array(i.layers.map_values(|h: Seq<u8>| json_string(hex_text(h))), 1);
    let members = seq![
        laid_member("layers"@, layers),
        laid_member("config"@, config_lines(i.config, 1)),
    ];
    lemma_shown_at(text, members, 0, 0, "layers"@, layers);
    lemma_shown_at(text, members, 0, 1, "config"@, config_lines(i.config, 1));
}

/// A configuration in a file shows its variables, its command, its directory and
/// its ports.
pub proof fn kept_configurations_show_their_fields(c: ConfigView, depth: nat)
    ensures
        ({
            let text = config_lines(c, depth);
            &&& shows_at(text, depth, "env"@, laid_array(
                c.env.map_values(
                    |p: (Seq<char>, Seq<char>)| laid_array(seq![json_string(p.0), json_string(p.1)], depth + 2),
                ),
                depth + 1,
            ))
            &&& shows_at(text, depth, "cmd"@, json_opt_string(c.cmd))
            &&& shows_at(text, depth, "workdir"@, json_string(c.workdir))
            &&& shows_at(text, depth, "exposed_ports"@, laid_array(
                c.exposed_ports.map_values(
                    |p: (u16, Seq<char>)| laid_array(seq![decimal(p.0 as nat), json_string(p.1)], depth + 2),
                ),
                depth + 1,
            ))
        }),
{
    let text = config_lines(c, depth);
    let members = crate::image::config_line_members(c, depth);
    assert(c.env.map_values(|p: (Seq<char>, Seq<char>)| env_lines(p, depth + 2)) =~= c.env.map_values(
        |p: (Seq<char>, Seq<char>)| laid_array(seq![json_string(p.0), json_string(p.1)], depth + 2),
    ));
    assert(c.exposed_ports.map_values(|p: (u16, Seq<char>)| port_lines(p, depth + 2)) =~= c.exposed_ports.map_values(
        |p: (u16, Seq<char>)| laid_array(seq![decimal(p.0 as nat), json_string(p.1)], depth + 2),
    ));
    lemma_shown_at(text, members, depth, 0, "env"@, laid_array(
                c.env.map_values(
                    |p: (Seq<char>, Seq<char>)| laid_array(seq![json_string(p.0), json_string(p.1)], depth + 2),
                ),
                depth + 1,
            ));
    lemma_shown_at(text, members, depth, 1, "cmd"@, json_opt_string(c.cmd));
    lemma_shown_at(text, members, depth, 2, "workdir"@, json_string(c.workdir));
    lemma_shown_at(text, members, depth, 3, "exposed_ports"@, laid_array(
                c.exposed_ports.map_values(
                    |p: (u16, Seq<char>)| laid_array(seq![decimal(p.0 as nat), json_string(p.1)], depth + 2),
                ),
                depth + 1,
            ));
}

/// An entry in the file of a layer shows its path, its permissions, its owner
/// and its kind.
pub proof fn kept_entries_show_their_fields(e: crate::layer::EntryView, depth: nat)
    ensures
        ({
            let text = crate::layer::entry_lines(e, depth);
            &&& shows_at(text, depth, "path"@, json_string(e.path))
            &&& shows_at(text, depth, "mode"@, decimal(e.mode as nat))
            &&& shows_at(text, depth, "uid"@, decimal(e.uid as nat))
            &&& shows_at(text, depth, "gid"@, decimal(e.gid as nat))
            &&& shows_at(text, depth, "kind"@, crate::layer::kind_lines(e.kind, depth + 1))
        }),
{
    let text = crate::layer::entry_lines(e, depth);
    let members = seq![
        laid_member("path"@, json_string(e.path)),
        laid_member("mode"@, decimal(e.mode as nat)),
        laid_member("uid"@, decimal(e.uid as nat)),
        laid_member("gid"@, decimal(e.gid as nat)),
        laid_member("kind"@, crate::layer::kind_lines(e.kind, depth + 1)),
    ];
    lemma_shown_at(text, members, depth, 0, "path"@, json_string(e.path));
    lemma_shown_at(text, members, depth, 1, "mode"@, decimal(e.mode as nat));
    lemma_shown_at(text, members, depth, 2, "uid"@, decimal(e.uid as nat));
    lemma_shown_at(text, members, depth, 3, "gid"@, decimal(e.gid as nat));
    lemma_shown_at(text, members, depth, 4, "kind"@, crate::layer::kind_lines(e.kind, depth + 1));
}

/// A record of the build cache shows the layer and the configuration of a step.
pub proof fn cache_files_show_their_fields(c: crate::builder::CacheView)
    ensures
        ({
            let text = crate::builder::cache_file_text(c);
            &&& shows_at(text, 0, "layer"@, match c.layer {
                Some(h) => json_string(hex_text(h)),
                None => "null"@,
            })
            &&& shows_at(text, 0, "config"@, config_lines(c.config, 1))
        }),
{
    let text = crate::builder::cache_file_text(c);
    let members = seq![
        laid_member("layer"@, match c.layer {
                Some(h) => json_string(hex_text(h)),
                None => "null"@,
            }),
        laid_member("config"@, config_lines(c.config, 1)),
    ];
    lemma_shown_at(text, members, 0, 0, "layer"@, match c.layer {
                Some(h) => json_string(hex_text(h)),
                None => "null"@,
            });
    lemma_shown_at(text, members, 0, 1, "config"@, config_lines(c.config, 1));
}

/// The file of a network shows its name, its bridge, its addresses and the next
/// address to give.
pub proof fn network_files_show_their_fields(n: crate::network::NetworkView)
    ensures
        ({
            let text = crate::network::network_file_text(n);
            &&& shows_at(text, 0, "name"@, json_string(n.name))
            &&& shows_at(text, 0, "bridge"@, json_string(n.bridge))
            &&& shows_at(text, 0, "subnet"@, json_string(n.subnet))
            &&& shows_at(text, 0, "gateway"@, json_string(n.gateway))
            &&& shows_at(text, 0, "next_host"@, decimal(n.next_host as nat))
        }),
{
    let text = crate::network::network_file_text(n);
    let members = seq![
        laid_member("name"@, json_string(n.name)),
        laid_member("bridge"@, json_string(n.bridge)),
        laid_member("subnet"@, json_string(n.subnet)),
        laid_member("gateway"@, json_string(n.gateway)),
        laid_member("next_host"@, decimal(n.next_host as nat)),
    ];
    lemma_shown_at(text, members, 0, 0, "name"@, json_string(n.name));
    lemma_shown_at(text, members, 0, 1, "bridge"@, json_string(n.bridge));
    lemma_shown_at(text, members, 0, 2, "subnet"@, json_string(n.subnet));
    lemma_shown_at(text, members, 0, 3, "gateway"@, json_string(n.gateway));
    lemma_shown_at(text, members, 0, 4, "next_host"@, decimal(n.next_host as nat));
}

/// An account in the file of accounts shows its name, the hash of its password,
/// its key and its role.
pub proof fn accounts_show_their_fields(u: crate::registry_store::UserView)
    ensures
        ({
            let text = laid_object(user_line_members(u), 1);
            &&& shows_at(text, 1, "username"@, json_string(u.username))
            &&& shows_at(text, 1, "password_hash"@, json_string(u.password_hash))
            &&& shows_at(text, 1, "public_key"@, json_opt_string(u.public_key))
            &&& shows_at(text, 1, "role"@, json_string(role_text(u.role)))
        }),
{
    let text = laid_object(user_line_members(u), 1);
    let members = user_line_members(u);
    lemma_shown_at(text, members, 1, 0, "username"@, json_string(u.username));
    lemma_shown_at(text, members, 1, 1, "password_hash"@, json_string(u.password_hash));
    lemma_shown_at(text, members, 1, 2, "public_key"@, json_opt_string(u.public_key));
    lemma_shown_at(text, members, 1, 3, "role"@, json_string(role_text(u.role)));
}

/// The file of a secret's history shows its version and its times.
pub proof fn history_files_show_their_fields(m: SecretMeta)
    ensures
        ({
            let text = crate::secrets::meta_file_text(m);
            &&& shows_at(text, 0, "version"@, decimal(m.version as nat))
            &&& shows_at(text, 0, "created_at"@, decimal(m.created_at as nat))
            &&& shows_at(text, 0, "rotated_at"@, json_opt_number(opt_nat(m.rotated_at)))
            &&& shows_at(text, 0, "ttl_secs"@, json_opt_number(opt_nat(m.ttl_secs)))
        }),
{
    let text = crate::secrets::meta_file_text(m);
    let members = crate::secrets::meta_line_members(m);
    lemma_shown_at(text, members, 0, 0, "version"@, decimal(m.version as nat));
    lemma_shown_at(text, members, 0, 1, "created_at"@, decimal(m.created_at as nat));
    lemma_shown_at(text, members, 0, 2, "rotated_at"@, json_opt_number(opt_nat(m.rotated_at)));
    lemma_shown_at(text, members, 0, 3, "ttl_secs"@, json_opt_number(opt_nat(m.ttl_secs)));
}

} // verus!
