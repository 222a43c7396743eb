//! Containers whose start waits for another container's health.

use crate::codec::{
    add_member, json_array, json_items, json_map, json_member, json_object, json_str, json_string, jsons, ToJson,
};
use crate::http::{json_response, Response};
use crate::text::views;
use vstd::prelude::*;

verus! {

/// A container to be, and what it waits for.
pub struct ComposeWaitingJson {
    /// The name that the container will have.
    pub container_name: String,
    pub waiting_for: String,
}

/// A container to be, and what it waits for.
pub open spec fn waiting_json(name: Seq<char>, waiting_for: Seq<char>) -> Seq<char> {
    json_object(
        seq![
            json_member("container_name"@, json_string(name)),
            json_member("waiting_for"@, json_string(waiting_for)),
        ],
    )
}

impl ToJson for ComposeWaitingJson {
    open spec fn json(&self) -> Seq<char> {
        waiting_json(self.container_name@, self.waiting_for@)
    }

    fn to_json(&self) -> (r: String) {
        let mut m: Vec<String> = Vec::new();
        add_member(&mut m, "container_name", json_str(self.container_name.as_str()).as_str());
        add_member(&mut m, "waiting_for", json_str(self.waiting_for.as_str()).as_str());
        assert(views(m@) =~= seq![
            json_member("container_name"@, json_string(self.container_name@)),
            json_member("waiting_for"@, json_string(self.waiting_for@)),
        ]);
        json_map(&m)
    }
}

/// A marker in the store: its name, if that is text, and what it holds, if
/// that could be read.
pub struct Marker {
    pub name: Option<String>,
    pub content: Option<String>,
}

/// The markers that say something.
pub open spec fn waiting_jsons(markers: Seq<Marker>) -> Seq<Seq<char>>
    decreases markers.len(),
{
    if markers.len() == 0 {
        Seq::empty()
    } else {
        let before = waiting_jsons(markers.drop_last());
        match (markers.last().name, markers.last().content) {
            (Some(n), Some(c)) => before.push(waiting_json(n@, c@)),
            _ => before,
        }
    }
}

/// The containers that wait, given the markers in the store.
pub fn list(markers: &Vec<Marker>) -> (r: Response)
    ensures
        r@ == json_response(200, json_array(waiting_jsons(markers@))),
{
    let mut out: Vec<ComposeWaitingJson> = Vec::new();
    let mut i: usize = 0;
    assert(markers@.take(0) =~= Seq::<Marker>::empty());
    assert(jsons(out@) =~= waiting_jsons(markers@.take(0)));
    while i < markers.len()
        invariant
            i <= markers@.len(),
            jsons(out@) == waiting_jsons(markers@.take(i as int)),
        decreases markers.len() - i,
    {
        proof {
            assert(markers@.take(i + 1).drop_last() =~= markers@.take(i as int));
            assert(markers@.take(i + 1).last() == markers@[i as int]);
        }
        if let (Some(n), Some(c)) = (&markers[i].name, &markers[i].content) {
            let shown = ComposeWaitingJson {
                container_name: n.as_str().to_owned(),
                waiting_for: c.as_str().to_owned(),
            };
            assert(jsons(out@.push(shown)) =~= jsons(out@).push(shown.json()));
            out.push(shown);
        }
        i += 1;
    }
    assert(markers@.take(i as int) =~= markers@);
    let json = json_items(&out);
    Response::json(200, json.as_str())
}

/// The containers that wait are listed marker by marker: each marker with a
/// name that can be read and a content that can be read tells of one, and no
/// other does.
pub proof fn readable_markers_are_listed(a: Seq<Marker>, b: Seq<Marker>, one: Marker)
    ensures
        waiting_jsons(a + b) == waiting_jsons(a) + waiting_jsons(b),
        one.name is Some && one.content is Some ==> waiting_jsons(seq![one]) == seq![
            waiting_json(one.name->0@, one.content->0@),
        ],
        one.name is None || one.content is None ==> waiting_jsons(seq![one]).len() == 0,
    decreases b.len(),
{
    reveal_with_fuel(waiting_jsons, 2);
    assert(seq![one].drop_last() =~= Seq::<Marker>::empty());
    assert(waiting_jsons(seq![one]) =~= (if one.name is Some && one.content is Some {
        seq![waiting_json(one.name->0@, one.content->0@)]
    } else {
        Seq::empty()
    }));
    if b.len() == 0 {
        assert(a + b =~= a);
        assert(waiting_jsons(a + b) =~= waiting_jsons(a) + waiting_jsons(b));
    } else {
        readable_markers_are_listed(a, b.drop_last(), one);
        assert((a + b).drop_last() =~= a + b.drop_last());
        assert((a + b).last() == b.last());
        assert(waiting_jsons(a + b) =~= waiting_jsons(a) + waiting_jsons(b));
    }
}

} // verus!
