//! Secrets, by name only: a value that was stored is never shown again.

use crate::codec::{
    add_member, bytes_of, json_array, json_bool, json_bool_text, json_items, json_map, json_member, json_object,
    json_opt_number, json_opt_str, json_opt_string, json_opt_u64, json_str, json_string, jsons, ToJson,
};
use crate::daemon::containers::{invalid_body, opt_nat, refuse_body};
use crate::daemon::networks::{done, done_response};
use crate::http::{json_response, text_response, Response};
use crate::image::opt_text;
use crate::num::{decimal, u64_text};
use crate::secrets::{SecretError, SecretMeta};
use crate::text::{trim, trimmed, views};
use vstd::prelude::*;
use vstd::utf8::encode_utf8;

verus! {

/// The members that tell a secret's history.
pub open spec fn meta_members(m: SecretMeta) -> Seq<Seq<char>> {
    seq![
        json_member("version"@, decimal(m.version as nat)),
        json_member("created_at"@, decimal(m.created_at as nat)),
        json_member("rotated_at"@, json_opt_number(opt_nat(m.rotated_at))),
        json_member("ttl_secs"@, json_opt_number(opt_nat(m.ttl_secs))),
    ]
}

/// Adds the members that tell a secret's history.
fn add_meta(members: &mut Vec<String>, m: &SecretMeta)
    ensures
        views(final(members)@) == views(old(members)@) + meta_members(*m),
{
    let ghost before = views(members@);
    add_member(members, "version", u64_text(m.version as u64).as_str());
    add_member(members, "created_at", u64_text(m.created_at).as_str());
    add_member(members, "rotated_at", json_opt_u64(m.rotated_at).as_str());
    add_member(members, "ttl_secs", json_opt_u64(m.ttl_secs).as_str());
    assert(views(members@) =~= before + meta_members(*m));
}

/// What is shown of a secret: its name, and its history if it has one.
pub struct SecretJson {
    pub name: String,
    pub meta: Option<SecretMeta>,
}

impl ToJson for SecretJson {
    open spec fn json(&self) -> Seq<char> {
        json_object(
            seq![json_member("name"@, json_string(self.name@))] + (match self.meta {
                Some(m) => meta_members(m),
                None => Seq::empty(),
            }),
        )
    }

    fn to_json(&self) -> (r: String) {
        let mut m: Vec<String> = Vec::new();
        add_member(&mut m, "name", json_str(self.name.as_str()).as_str());
        assert(views(m@) =~= seq![json_member("name"@, json_string(self.name@))]);
        match &self.meta {
            Some(meta) => add_meta(&mut m, meta),
            None => {
                assert(views(m@) =~= views(m@) + Seq::<Seq<char>>::empty());
            },
        }
        json_map(&m)
    }
}

/// The secrets of a store.
pub fn list(secrets: &Vec<SecretJson>) -> (r: Response)
    ensures
        r@ == json_response(200, json_array(jsons(secrets@))),
{
    let json = json_items(secrets);
    Response::json(200, json.as_str())
}

/// A request to create a secret.
pub struct CreateRequest {
    pub name: String,
    pub value: String,
    pub ttl_secs: Option<u64>,
}

/// Whether a request to create a secret goes through.
pub fn create(body: Result<CreateRequest, String>) -> (r: Result<CreateRequest, Response>)
    ensures
        match body {
            Err(m) => r matches Err(e) && e@ == invalid_body(m@),
            Ok(b) => if trimmed(b.name@).len() == 0 {
                r matches Err(e) && e@ == text_response(400, "secret name must not be empty"@)
            } else if b.value@.len() == 0 {
                r matches Err(e) && e@ == text_response(400, "secret value must not be empty"@)
            } else {
                r == Ok::<CreateRequest, Response>(b)
            },
        },
{
    let b = match body {
        Ok(b) => b,
        Err(m) => {
            return Err(refuse_body(m.as_str()));
        },
    };
    if trim(b.name.as_str()).unicode_len() == 0 {
        return Err(Response::text(400, "secret name must not be empty"));
    }
    if b.value.as_str().unicode_len() == 0 {
        return Err(Response::text(400, "secret value must not be empty"));
    }
    Ok(b)
}

/// The answer once a secret was created.
pub fn create_reply(outcome: &Result<(), String>) -> (r: Response)
    ensures
        r@ == done_response(201, 500, *outcome),
{
    done(201, 500, outcome)
}

/// The answer once a secret was removed.
pub fn remove(outcome: &Result<(), String>) -> (r: Response)
    ensures
        r@ == done_response(200, 404, *outcome),
{
    done(200, 404, outcome)
}

/// A request to give a secret another value; without one, a value is made up.
pub struct RotateRequest {
    pub value: Option<String>,
}

/// The new value of a secret, and the same again if it was made up: that is
/// the only time it is shown.
pub struct NewValue {
    pub value: Vec<u8>,
    pub generated: Option<String>,
}

/// The value that a request gives, unless it is empty.
pub open spec fn given_value(b: RotateRequest) -> Option<Seq<char>> {
    match b.value {
        Some(v) => if v@.len() > 0 {
            Some(v@)
        } else {
            None
        },
        None => None,
    }
}

/// The new value of a secret: the one that is given, or else `generated`.
pub fn new_value(body: Result<RotateRequest, String>, generated: String) -> (r: Result<NewValue, Response>)
    ensures
        match body {
            Err(m) => r matches Err(e) && e@ == invalid_body(m@),
            Ok(b) => r matches Ok(n) && (match given_value(b) {
                Some(v) => n.value@ == encode_utf8(v) && n.generated is None,
                None => n.value@ == encode_utf8(generated@) && n.generated == Some(generated),
            }),
        },
{
    let b = match body {
        Ok(b) => b,
        Err(m) => {
            return Err(refuse_body(m.as_str()));
        },
    };
    if let Some(v) = b.value {
        if v.as_str().unicode_len() > 0 {
            return Ok(NewValue { value: bytes_of(v.as_str()), generated: None });
        }
    }
    let value = bytes_of(generated.as_str());
    Ok(NewValue { value, generated: Some(generated) })
}

/// A container that has a secret, and whether it has the new value already.
pub struct LiveUpdateJson {
    pub container_id: String,
    pub container_name: String,
    pub updated: bool,
}

impl ToJson for LiveUpdateJson {
    open spec fn json(&self) -> Seq<char> {
        json_object(
            seq![
                json_member("container_id"@, json_string(self.container_id@)),
                json_member("container_name"@, json_string(self.container_name@)),
                json_member("updated"@, json_bool_text(self.updated)),
            ],
        )
    }

    fn to_json(&self) -> (r: String) {
        let mut m: Vec<String> = Vec::new();
        add_member(&mut m, "container_id", json_str(self.container_id.as_str()).as_str());
        add_member(&mut m, "container_name", json_str(self.container_name.as_str()).as_str());
        add_member(&mut m, "updated", json_bool(self.updated).as_str());
        assert(views(m@) =~= seq![
            json_member("container_id"@, json_string(self.container_id@)),
            json_member("container_name"@, json_string(self.container_name@)),
            json_member("updated"@, json_bool_text(self.updated)),
        ]);
        json_map(&m)
    }
}

/// What became of a secret that got another value.
pub struct RotateResponse {
    pub meta: SecretMeta,
    pub generated_value: Option<String>,
    pub live_updates: Vec<LiveUpdateJson>,
}

impl ToJson for RotateResponse {
    open spec fn json(&self) -> Seq<char> {
        json_object(
            seq![
                json_member("meta"@, json_object(meta_members(self.meta))),
                json_member("generated_value"@, json_opt_string(opt_text(self.generated_value))),
                json_member("live_updates"@, json_array(jsons(self.live_updates@))),
            ],
        )
    }

    fn to_json(&self) -> (r: String) {
        let mut meta: Vec<String> = Vec::new();
        add_meta(&mut meta, &self.meta);
        assert(views(meta@) =~= meta_members(self.meta));
        let mut m: Vec<String> = Vec::new();
        add_member(&mut m, "meta", json_map(&meta).as_str());
        add_member(&mut m, "generated_value", json_opt_str(&self.generated_value).as_str());
        add_member(&mut m, "live_updates", json_items(&self.live_updates).as_str());
        assert(views(m@) =~= seq![
            json_member("meta"@, json_object(meta_members(self.meta))),
            json_member("generated_value"@, json_opt_string(opt_text(self.generated_value))),
            json_member("live_updates"@, json_array(jsons(self.live_updates@))),
        ]);
        json_map(&m)
    }
}

/// The answer to a rotation.
pub fn rotate(outcome: &Result<RotateResponse, SecretError>) -> (r: Response)
    ensures
        r@ == (match *outcome {
            Ok(done) => json_response(200, done.json()),
            Err(e) => text_response(
                if e is NotFound {
                    404
                } else {
                    500
                },
                e.text(),
            ),
        }),
{
    match outcome {
        Ok(done) => {
            let json = done.to_json();
            Response::json(200, json.as_str())
        },
        Err(SecretError::NotFound(m)) => Response::text(404, m.as_str()),
        Err(e) => Response::text(500, e.message()),
    }
}

/// A value that is given is taken, unless it is empty.
pub proof fn given_values_are_taken(b: RotateRequest)
    ensures
        b.value matches Some(v) ==> (v@.len() > 0 ==> given_value(b) == Some(v@)),
        b.value matches Some(v) ==> (v@.len() == 0 ==> given_value(b) is None),
        b.value is None ==> given_value(b) is None,
{
}

} // verus!
