//! The registry server's record of what it authorized and what it refused:
//! one JSON object per line, never a password or a token.

use crate::codec::{
    bytes_of, json_bool, json_bool_text, json_map, json_member, json_object, json_pair, json_str, json_string,
};
use crate::image::opt_text;
use crate::num::{decimal, u64_text};
use crate::text::{cat2, str_eq, views};
use vstd::prelude::*;
use vstd::utf8::encode_utf8;

verus! {

/// One event.
pub struct Entry {
    /// Seconds since 1970.
    pub ts: u64,
    pub username: String,
    pub action: String,
    pub resource: String,
    pub allowed: bool,
}

/// The mathematical content of an [`Entry`].
#[verifier::ext_equal]
pub struct EntryView {
    pub ts: u64,
    pub username: Seq<char>,
    pub action: Seq<char>,
    pub resource: Seq<char>,
    pub allowed: bool,
}

impl View for Entry {
    type V = EntryView;

    open spec fn view(&self) -> EntryView {
        EntryView {
            ts: self.ts,
            username: self.username@,
            action: self.action@,
            resource: self.resource@,
            allowed: self.allowed,
        }
    }
}

/// An event as JSON.
pub open spec fn entry_json(e: EntryView) -> Seq<char> {
    json_object(
        seq![
            json_member("ts"@, decimal(e.ts as nat)),
            json_member("username"@, json_string(e.username)),
            json_member("action"@, json_string(e.action)),
            json_member("resource"@, json_string(e.resource)),
            json_member("allowed"@, json_bool_text(e.allowed)),
        ],
    )
}

/// The line to append for an event.
pub fn log(entry: &Entry) -> (r: Vec<u8>)
    ensures
        r@ == encode_utf8(entry_json(entry@) + "\n"@),
{
    let ts = u64_text(entry.ts);
    let username = json_str(entry.username.as_str());
    let action = json_str(entry.action.as_str());
    let resource = json_str(entry.resource.as_str());
    let allowed = json_bool(entry.allowed);
    let mut members: Vec<String> = Vec::new();
    members.push(json_pair("ts", ts.as_str()));
    members.push(json_pair("username", username.as_str()));
    members.push(json_pair("action", action.as_str()));
    members.push(json_pair("resource", resource.as_str()));
    members.push(json_pair("allowed", allowed.as_str()));
    assert(views(members@) =~= seq![
        json_member("ts"@, decimal(entry.ts as nat)),
        json_member("username"@, json_string(entry.username@)),
        json_member("action"@, json_string(entry.action@)),
        json_member("resource"@, json_string(entry.resource@)),
        json_member("allowed"@, json_bool_text(entry.allowed)),
    ]);
    let text = json_map(&members);
    let line = cat2(text.as_str(), "\n");
    bytes_of(line.as_str())
}

/// Which events are asked for.
pub struct Filter {
    pub user: Option<String>,
    pub action: Option<String>,
    pub denied_only: bool,
}

/// Whether an event is asked for.
pub open spec fn passes(f: Filter, e: EntryView) -> bool {
    &&& opt_text(f.user) matches Some(u) ==> e.username == u
    &&& opt_text(f.action) matches Some(a) ==> e.action == a
    &&& f.denied_only ==> !e.allowed
}

impl Filter {
    /// Whether an event is asked for.
    pub fn passes(&self, e: &Entry) -> (r: bool)
        ensures
            r == passes(*self, e@),
    {
        let user_fits = match &self.user {
            Some(u) => str_eq(e.username.as_str(), u.as_str()),
            None => true,
        };
        let action_fits = match &self.action {
            Some(a) => str_eq(e.action.as_str(), a.as_str()),
            None => true,
        };
        user_fits && action_fits && (!self.denied_only || !e.allowed)
    }
}

/// The contents of events.
pub open spec fn entry_views(v: Seq<Entry>) -> Seq<EntryView> {
    v.map_values(|e: Entry| e@)
}

/// The events that are asked for, oldest first.
pub fn select(filter: &Filter, entries: Vec<Entry>) -> (r: Vec<Entry>)
    ensures
        entry_views(r@) == entry_views(entries@).filter(|e: EntryView| passes(*filter, e)),
{
    let ghost all = entry_views(entries@);
    let ghost raw = entries@;
    let ghost keep = |e: EntryView| passes(*filter, e);
    let mut rest = crate::order::reversed(entries);
    let mut out: Vec<Entry> = Vec::new();
    let total: usize = rest.len();
    let mut done: usize = 0;
    assert(entry_views(out@) =~= all.take(0).filter(keep)) by {
        reveal(Seq::filter);
    }
    while rest.len() > 0
        invariant
            all == entry_views(raw),
            total == raw.len(),
            done + rest@.len() == total,
            rest@ == raw.reverse().take(rest@.len() as int),
            keep == (|e: EntryView| passes(*filter, e)),
            entry_views(out@) == all.take(done as int).filter(keep),
        decreases rest@.len(),
    {
        match rest.pop() {
            Some(e) => {
                proof {
                    assert(e == raw[done as int]);
                    assert(rest@ =~= raw.reverse().take(rest@.len() as int));
                    assert(all.take(done + 1).drop_last() =~= all.take(done as int));
                    assert(all.take(done + 1).last() == e@);
                    reveal(Seq::filter);
                }
                if filter.passes(&e) {
                    assert(entry_views(out@.push(e)) =~= entry_views(out@).push(e@));
                    out.push(e);
                }
            },
            None => {},
        }
        done += 1;
    }
    assert(all.take(done as int) =~= all);
    out
}

/// The events that are asked for are those of the user, where one is named, of
/// the action, where one is named, and of the refused ones, where only these
/// are asked for; and no others.
pub proof fn the_filter_means_what_it_says(f: Filter, all: Seq<EntryView>, e: EntryView)
    ensures
        all.filter(|x: EntryView| passes(f, x)).contains(e) <==> {
            &&& all.contains(e)
            &&& f.user is Some ==> e.username == f.user->0@
            &&& f.action is Some ==> e.action == f.action->0@
            &&& f.denied_only ==> !e.allowed
        },
    decreases all.len(),
{
    let keep = |x: EntryView| passes(f, x);
    let out = all.filter(keep);
    reveal(Seq::filter);
    if all.len() == 0 {
        assert(!all.contains(e) && !out.contains(e));
    } else {
        let before = all.drop_last();
        the_filter_means_what_it_says(f, before, e);
        let kept = before.filter(keep);
        assert(all.contains(e) <==> before.contains(e) || all.last() == e) by {
            assert(all =~= before.push(all.last()));
            lemma_one_more(before, all.last(), e);
        }
        lemma_one_more(kept, all.last(), e);
        assert(out == (if keep(all.last()) {
            kept.push(all.last())
        } else {
            kept
        }));
    }
}

/// What a list holds once one more was added to it.
proof fn lemma_one_more(v: Seq<EntryView>, one: EntryView, e: EntryView)
    ensures
        v.push(one).contains(e) <==> v.contains(e) || one == e,
{
    let w = v.push(one);
    if v.contains(e) {
        let i = choose|i: int| 0 <= i < v.len() && v[i] == e;
        assert(w[i] == e);
    }
    assert(w[v.len() as int] == one);
}

} // verus!
