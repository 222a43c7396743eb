//! The registered nodes, and whether each can be reached.

use crate::codec::{
    add_member, json_array, json_bool, json_bool_text, json_items, json_map, json_member, json_object, json_str,
    json_string, jsons, ToJson,
};
use crate::http::{json_response, Response};
use crate::text::views;
use vstd::prelude::*;

verus! {

/// What is shown of a node.
pub struct NodeJson {
    pub name: String,
    pub address: String,
    pub reachable: bool,
}

impl ToJson for NodeJson {
    open spec fn json(&self) -> Seq<char> {
        json_object(
            seq![
                json_member("name"@, json_string(self.name@)),
                json_member("address"@, json_string(self.address@)),
                json_member("reachable"@, json_bool_text(self.reachable)),
            ],
        )
    }

    fn to_json(&self) -> (r: String) {
        let mut m: Vec<String> = Vec::new();
        add_member(&mut m, "name", json_str(self.name.as_str()).as_str());
        add_member(&mut m, "address", json_str(self.address.as_str()).as_str());
        add_member(&mut m, "reachable", json_bool(self.reachable).as_str());
        assert(views(m@) =~= seq![
            json_member("name"@, json_string(self.name@)),
            json_member("address"@, json_string(self.address@)),
            json_member("reachable"@, json_bool_text(self.reachable)),
        ]);
        json_map(&m)
    }
}

/// The registered nodes.
pub fn list(nodes: &Vec<NodeJson>) -> (r: Response)
    ensures
        r@ == json_response(200, json_array(jsons(nodes@))),
{
    let json = json_items(nodes);
    Response::json(200, json.as_str())
}

} // verus!
