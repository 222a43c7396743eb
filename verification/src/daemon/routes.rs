//! Which handler a request goes to.

use crate::codec::{add_member, json_map, json_member, json_object, json_str, json_string};
use crate::http::{json_response, same_ignoring_case, segments, segments_of, value_of, Request, RequestView, Response};
use crate::text::{str_eq, views};
use vstd::prelude::*;

verus! {

/// The handlers.
#[derive(Debug, Clone, Copy, PartialEq, Eq, Structural)]
pub enum Handler {
    Version,
    DiskUsage,
    Gc,
    Metrics,
    Nodes,
    ListContainers,
    CreateContainer,
    InspectContainer,
    RemoveContainer,
    ContainerStats,
    StopContainer,
    StartContainer,
    ContainerLogs,
    Exec,
    NetworkEvents,
    ListImages,
    PullImage,
    RemoveImage,
    ListNetworks,
    CreateNetwork,
    RemoveNetwork,
    ListVolumes,
    CreateVolume,
    RemoveVolume,
    NotFound,
}

/// A handler, and what the path names, for a handler that is about one thing.
pub struct Route {
    pub handler: Handler,
    pub target: Option<String>,
}

/// Whether a request asks to go on with another protocol.
pub open spec fn upgrades(req: RequestView, protocol: Seq<char>) -> bool {
    value_of(req.headers, "upgrade"@) matches Some(v) && same_ignoring_case(v, protocol)
}

/// The handler for a path of one segment.
pub open spec fn one_segment(method: Seq<char>, a: Seq<char>) -> Handler {
    if method == "GET"@ {
        if a == "version"@ {
            Handler::Version
        } else if a == "disk-usage"@ {
            Handler::DiskUsage
        } else if a == "metrics"@ {
            Handler::Metrics
        } else if a == "nodes"@ {
            Handler::Nodes
        } else if a == "containers"@ {
            Handler::ListContainers
        } else if a == "images"@ {
            Handler::ListImages
        } else if a == "networks"@ {
            Handler::ListNetworks
        } else if a == "volumes"@ {
            Handler::ListVolumes
        } else {
            Handler::NotFound
        }
    } else if method == "POST"@ {
        if a == "gc"@ {
            Handler::Gc
        } else if a == "containers"@ {
            Handler::CreateContainer
        } else if a == "networks"@ {
            Handler::CreateNetwork
        } else if a == "volumes"@ {
            Handler::CreateVolume
        } else {
            Handler::NotFound
        }
    } else {
        Handler::NotFound
    }
}

/// The handler for a path of two segments.
pub open spec fn two_segments(method: Seq<char>, a: Seq<char>, b: Seq<char>) -> Handler {
    if method == "GET"@ && a == "containers"@ {
        Handler::InspectContainer
    } else if method == "POST"@ && a == "images"@ && b == "pull"@ {
        Handler::PullImage
    } else if method == "DELETE"@ && a == "containers"@ {
        Handler::RemoveContainer
    } else if method == "DELETE"@ && a == "images"@ {
        Handler::RemoveImage
    } else if method == "DELETE"@ && a == "networks"@ {
        Handler::RemoveNetwork
    } else if method == "DELETE"@ && a == "volumes"@ {
        Handler::RemoveVolume
    } else {
        Handler::NotFound
    }
}

/// The handler for something about one container.
pub open spec fn about_container(req: RequestView, what: Seq<char>) -> Handler {
    if req.method == "GET"@ {
        if what == "stats"@ {
            Handler::ContainerStats
        } else if what == "logs"@ {
            Handler::ContainerLogs
        } else if what == "exec"@ && upgrades(req, "kiln-exec"@) {
            Handler::Exec
        } else if what == "network-events"@ && upgrades(req, "kiln-net-events"@) {
            Handler::NetworkEvents
        } else {
            Handler::NotFound
        }
    } else if req.method == "POST"@ {
        if what == "stop"@ {
            Handler::StopContainer
        } else if what == "start"@ {
            Handler::StartContainer
        } else {
            Handler::NotFound
        }
    } else {
        Handler::NotFound
    }
}

/// The handler for a request.
pub open spec fn handler_of(req: RequestView) -> Handler {
    let s = segments_of(req.path);
    if s.len() == 1 {
        one_segment(req.method, s[0])
    } else if s.len() == 2 {
        two_segments(req.method, s[0], s[1])
    } else if s.len() == 3 && s[0] == "containers"@ {
        about_container(req, s[2])
    } else {
        Handler::NotFound
    }
}

/// Whether a handler is about one thing that the path names.
pub open spec fn has_target(h: Handler) -> bool {
    match h {
        Handler::InspectContainer => true,
        Handler::RemoveContainer => true,
        Handler::ContainerStats => true,
        Handler::StopContainer => true,
        Handler::StartContainer => true,
        Handler::ContainerLogs => true,
        Handler::Exec => true,
        Handler::NetworkEvents => true,
        Handler::RemoveImage => true,
        Handler::RemoveNetwork => true,
        Handler::RemoveVolume => true,
        _ => false,
    }
}

/// The handler for a path of one segment.
fn route_one(m: &str, a: &str) -> (r: Handler)
    ensures
        r == one_segment(m@, a@),
{
    if str_eq(m, "GET") {
        if str_eq(a, "version") {
            Handler::Version
        } else if str_eq(a, "disk-usage") {
            Handler::DiskUsage
        } else if str_eq(a, "metrics") {
            Handler::Metrics
        } else if str_eq(a, "nodes") {
            Handler::Nodes
        } else if str_eq(a, "containers") {
            Handler::ListContainers
        } else if str_eq(a, "images") {
            Handler::ListImages
        } else if str_eq(a, "networks") {
            Handler::ListNetworks
        } else if str_eq(a, "volumes") {
            Handler::ListVolumes
        } else {
            Handler::NotFound
        }
    } else if str_eq(m, "POST") {
        if str_eq(a, "gc") {
            Handler::Gc
        } else if str_eq(a, "containers") {
            Handler::CreateContainer
        } else if str_eq(a, "networks") {
            Handler::CreateNetwork
        } else if str_eq(a, "volumes") {
            Handler::CreateVolume
        } else {
            Handler::NotFound
        }
    } else {
        Handler::NotFound
    }
}

/// The handler for a path of two segments.
fn route_two(m: &str, a: &str, b: &str) -> (r: Handler)
    ensures
        r == two_segments(m@, a@, b@),
{
    if str_eq(m, "GET") && str_eq(a, "containers") {
        Handler::InspectContainer
    } else if str_eq(m, "POST") && str_eq(a, "images") && str_eq(b, "pull") {
        Handler::PullImage
    } else if str_eq(m, "DELETE") && str_eq(a, "containers") {
        Handler::RemoveContainer
    } else if str_eq(m, "DELETE") && str_eq(a, "images") {
        Handler::RemoveImage
    } else if str_eq(m, "DELETE") && str_eq(a, "networks") {
        Handler::RemoveNetwork
    } else if str_eq(m, "DELETE") && str_eq(a, "volumes") {
        Handler::RemoveVolume
    } else {
        Handler::NotFound
    }
}

/// The handler for something about one container.
fn route_container(req: &Request, what: &str) -> (r: Handler)
    ensures
        r == about_container(req@, what@),
{
    if str_eq(req.method.as_str(), "GET") {
        if str_eq(what, "stats") {
            Handler::ContainerStats
        } else if str_eq(what, "logs") {
            Handler::ContainerLogs
        } else if str_eq(what, "exec") && req.is_upgrade_to("kiln-exec") {
            Handler::Exec
        } else if str_eq(what, "network-events") && req.is_upgrade_to("kiln-net-events") {
            Handler::NetworkEvents
        } else {
            Handler::NotFound
        }
    } else if str_eq(req.method.as_str(), "POST") {
        if str_eq(what, "stop") {
            Handler::StopContainer
        } else if str_eq(what, "start") {
            Handler::StartContainer
        } else {
            Handler::NotFound
        }
    } else {
        Handler::NotFound
    }
}

/// Whether a handler is about one thing that the path names.
fn names_something(h: Handler) -> (r: bool)
    ensures
        r == has_target(h),
{
    match h {
        Handler::InspectContainer => true,
        Handler::RemoveContainer => true,
        Handler::ContainerStats => true,
        Handler::StopContainer => true,
        Handler::StartContainer => true,
        Handler::ContainerLogs => true,
        Handler::Exec => true,
        Handler::NetworkEvents => true,
        Handler::RemoveImage => true,
        Handler::RemoveNetwork => true,
        Handler::RemoveVolume => true,
        _ => false,
    }
}

/// Which handler a request goes to, and what it is about: the second segment
/// of the path.
pub fn route(req: &Request) -> (r: Route)
    ensures
        r.handler == handler_of(req@),
        match r.target {
            Some(t) => has_target(r.handler) && t@ == segments_of(req@.path)[1],
            None => !has_target(r.handler),
        },
{
    let mut parts = segments(req.path.as_str());
    let ghost all = views(parts@);
    let n: usize = parts.len();
    let handler = if n == 1 {
        assert(all[0] == parts@[0]@);
        route_one(req.method.as_str(), parts[0].as_str())
    } else if n == 2 {
        assert(all[0] == parts@[0]@ && all[1] == parts@[1]@);
        route_two(req.method.as_str(), parts[0].as_str(), parts[1].as_str())
    } else if n == 3 {
        assert(all[0] == parts@[0]@ && all[2] == parts@[2]@);
        if str_eq(parts[0].as_str(), "containers") {
            route_container(req, parts[2].as_str())
        } else {
            Handler::NotFound
        }
    } else {
        Handler::NotFound
    };
    if names_something(handler) {
        assert(all[1] == parts@[1]@);
        let target = parts.swap_remove(1);
        Route { handler, target: Some(target) }
    } else {
        Route { handler, target: None }
    }
}

/// The version of the daemon.
pub fn version(number: &str) -> (r: Response)
    ensures
        r@ == json_response(200, json_object(seq![json_member("version"@, json_string(number@))])),
{
    let mut m: Vec<String> = Vec::new();
    add_member(&mut m, "version", json_str(number).as_str());
    assert(views(m@) =~= seq![json_member("version"@, json_string(number@))]);
    let json = json_map(&m);
    Response::json(200, json.as_str())
}

/// The answer to a request that no handler takes.
pub fn not_found() -> (r: Response)
    ensures
        r@ == crate::http::text_response(404, "not found"@),
{
    Response::text(404, "not found")
}

/// An interactive session is only opened for a client that asks to go on with
/// its protocol.
pub proof fn sessions_need_an_upgrade(req: RequestView)
    ensures
        handler_of(req) is Exec ==> upgrades(req, "kiln-exec"@),
        handler_of(req) is NetworkEvents ==> upgrades(req, "kiln-net-events"@),
{
}

/// Paths of one segment lead to what is about all of a kind.
pub proof fn short_paths_reach_their_handler(req: RequestView)
    requires
        segments_of(req.path).len() == 1,
    ensures
        ({
            let a = segments_of(req.path)[0];
            let h = handler_of(req);
            &&& h is Version <==> req.method == "GET"@ && a == "version"@
            &&& h is DiskUsage <==> req.method == "GET"@ && a == "disk-usage"@
            &&& h is Metrics <==> req.method == "GET"@ && a == "metrics"@
            &&& h is Nodes <==> req.method == "GET"@ && a == "nodes"@
            &&& h is ListContainers <==> req.method == "GET"@ && a == "containers"@
            &&& h is ListImages <==> req.method == "GET"@ && a == "images"@
            &&& h is ListNetworks <==> req.method == "GET"@ && a == "networks"@
            &&& h is ListVolumes <==> req.method == "GET"@ && a == "volumes"@
            &&& h is Gc <==> req.method == "POST"@ && a == "gc"@
            &&& h is CreateContainer <==> req.method == "POST"@ && a == "containers"@
            &&& h is CreateNetwork <==> req.method == "POST"@ && a == "networks"@
            &&& h is CreateVolume <==> req.method == "POST"@ && a == "volumes"@
            &&& !has_target(h)
        }),
{
    reveal_strlit("GET");
    reveal_strlit("POST");
    reveal_strlit("version");
    reveal_strlit("disk-usage");
    reveal_strlit("metrics");
    reveal_strlit("nodes");
    reveal_strlit("containers");
    reveal_strlit("images");
    reveal_strlit("networks");
    reveal_strlit("volumes");
    reveal_strlit("gc");
    assert("GET"@.len() == 3 && "POST"@.len() == 4);
    assert("version"@[0] == 'v' && "version"@[1] == 'e');
    assert("volumes"@[0] == 'v' && "volumes"@[1] == 'o');
    assert("metrics"@[0] == 'm');
    assert("disk-usage"@[0] == 'd' && "containers"@[0] == 'c');
    assert("nodes"@.len() == 5 && "images"@.len() == 6 && "networks"@.len() == 8 && "gc"@.len() == 2);
}

/// Paths of two segments lead to what is about the one thing that the second
/// segment names; only `pull` names no image.
pub proof fn paths_with_a_name_reach_their_handler(req: RequestView)
    requires
        segments_of(req.path).len() == 2,
    ensures
        ({
            let s = segments_of(req.path);
            let h = handler_of(req);
            &&& h is InspectContainer <==> req.method == "GET"@ && s[0] == "containers"@
            &&& h is RemoveContainer <==> req.method == "DELETE"@ && s[0] == "containers"@
            &&& h is RemoveImage <==> req.method == "DELETE"@ && s[0] == "images"@
            &&& h is RemoveNetwork <==> req.method == "DELETE"@ && s[0] == "networks"@
            &&& h is RemoveVolume <==> req.method == "DELETE"@ && s[0] == "volumes"@
            &&& h is PullImage <==> req.method == "POST"@ && s[0] == "images"@ && s[1] == "pull"@
            &&& has_target(h) <==> !(h is PullImage || h is NotFound)
        }),
{
    reveal_strlit("GET");
    reveal_strlit("POST");
    reveal_strlit("DELETE");
    reveal_strlit("containers");
    reveal_strlit("images");
    reveal_strlit("networks");
    reveal_strlit("volumes");
    assert("GET"@.len() == 3 && "POST"@.len() == 4 && "DELETE"@.len() == 6);
    assert("containers"@.len() == 10 && "images"@.len() == 6 && "networks"@.len() == 8 && "volumes"@.len() == 7);
}

/// Paths of three segments lead to what is about the container that the second
/// segment names; longer and shorter ones, and others of three, lead nowhere.
pub proof fn paths_about_a_container_reach_their_handler(req: RequestView)
    ensures
        ({
            let s = segments_of(req.path);
            let h = handler_of(req);
            let about = s.len() == 3 && s[0] == "containers"@;
            &&& h is ContainerStats <==> about && req.method == "GET"@ && s[2] == "stats"@
            &&& h is ContainerLogs <==> about && req.method == "GET"@ && s[2] == "logs"@
            &&& h is Exec <==> about && req.method == "GET"@ && s[2] == "exec"@ && upgrades(req, "kiln-exec"@)
            &&& h is NetworkEvents <==> about && req.method == "GET"@ && s[2] == "network-events"@ && upgrades(
                req,
                "kiln-net-events"@,
            )
            &&& h is StopContainer <==> about && req.method == "POST"@ && s[2] == "stop"@
            &&& h is StartContainer <==> about && req.method == "POST"@ && s[2] == "start"@
            &&& s.len() == 0 || s.len() > 3 ==> h is NotFound
            &&& s.len() == 3 ==> (has_target(h) <==> !(h is NotFound))
        }),
{
    reveal_strlit("GET");
    reveal_strlit("POST");
    reveal_strlit("stats");
    reveal_strlit("logs");
    reveal_strlit("exec");
    reveal_strlit("network-events");
    reveal_strlit("stop");
    reveal_strlit("start");
    assert("GET"@.len() == 3 && "POST"@.len() == 4);
    assert("stats"@.len() == 5 && "network-events"@.len() == 14 && "start"@.len() == 5 && "stop"@.len() == 4);
    assert("logs"@[0] == 'l' && "exec"@[0] == 'e');
}

} // verus!
