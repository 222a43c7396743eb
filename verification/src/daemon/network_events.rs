//! A live stream of a container's observed traffic, one JSON object per line.

use crate::codec::{add_member, json_bool, json_bool_text, json_map, json_member, json_object, json_str, json_string};
use crate::daemon::containers::no_such_container;
use crate::error::RuntimeError;
use crate::http::{text_response, Response};
use crate::netbpf::{address_text, write_address, FlowEvent, FlowView};
use crate::num::{decimal, u64_text};
use crate::text::{cat2, cat3, views};
use vstd::prelude::*;

verus! {

/// How long to wait between two looks, in milliseconds.
pub const EVENTS_PAUSE_MS: u64 = 250;

/// Whether the traffic of a container can be streamed: there must be such a
/// container, and it must have been possible to attach to it.
pub fn handle(found: bool, attached: &Result<(), RuntimeError>) -> (r: Result<(), Response>)
    ensures
        match r {
            Ok(_) => found && (attached is Ok),
            Err(e) => if !found {
                e@ == no_such_container()
            } else {
                attached matches Err(m) && e@ == text_response(400, m.text())
            },
        },
{
    if !found {
        return Err(Response::text(404, "no such container"));
    }
    match attached {
        Ok(_) => Ok(()),
        Err(e) => {
            let text = e.message();
            Err(Response::text(400, text.as_str()))
        },
    }
}

/// The name of a protocol.
pub open spec fn protocol_name(protocol: u8) -> Seq<char> {
    if protocol == 6 {
        "tcp"@
    } else {
        "udp"@
    }
}

/// An address and a port.
pub open spec fn endpoint(addr: Seq<u8>, port: u16) -> Seq<char> {
    address_text(addr) + ":"@ + decimal(port as nat)
}

/// An observed packet as a line of JSON.
pub open spec fn event_line(e: FlowView) -> Seq<char> {
    json_object(
        seq![
            json_member("to_container"@, json_bool_text(e.to_container)),
            json_member("protocol"@, json_string(protocol_name(e.protocol))),
            json_member("src"@, json_string(endpoint(e.src_addr, e.src_port))),
            json_member("dst"@, json_string(endpoint(e.dst_addr, e.dst_port))),
            json_member("bytes"@, decimal(e.len as nat)),
        ],
    ) + "\n"@
}

/// An address and a port.
fn write_endpoint(addr: &[u8; 4], port: u16) -> (r: String)
    ensures
        r@ == endpoint(addr@, port),
{
    let a = write_address(addr);
    let p = u64_text(port as u64);
    cat3(a.as_str(), ":", p.as_str())
}

/// An observed packet as a line of JSON.
pub fn write_event(e: &FlowEvent) -> (r: String)
    ensures
        r@ == event_line(e@),
{
    let protocol = if e.protocol == 6 {
        "tcp"
    } else {
        "udp"
    };
    let src = write_endpoint(&e.src_addr, e.src_port);
    let dst = write_endpoint(&e.dst_addr, e.dst_port);
    let mut m: Vec<String> = Vec::new();
    add_member(&mut m, "to_container", json_bool(e.to_container).as_str());
    add_member(&mut m, "protocol", json_str(protocol).as_str());
    add_member(&mut m, "src", json_str(src.as_str()).as_str());
    add_member(&mut m, "dst", json_str(dst.as_str()).as_str());
    add_member(&mut m, "bytes", u64_text(e.len as u64).as_str());
    assert(views(m@) =~= seq![
        json_member("to_container"@, json_bool_text(e.to_container)),
        json_member("protocol"@, json_string(protocol_name(e.protocol))),
        json_member("src"@, json_string(endpoint(e.src_addr@, e.src_port))),
        json_member("dst"@, json_string(endpoint(e.dst_addr@, e.dst_port))),
        json_member("bytes"@, decimal(e.len as nat)),
    ]);
    let json = json_map(&m);
    cat2(json.as_str(), "\n")
}

} // verus!
