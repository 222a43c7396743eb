//! What the registry server does with a request.
//!
//! Reading takes a token that was granted `pull` for the repository, writing
//! one that was granted `push`. A token is granted to an account that proves
//! itself by password: `pull` to any account, `push` as its role allows.

use crate::base64::{base64_bytes, decode};
use crate::codec::{hex_text, json_map, json_member, json_object, json_pair, json_str, json_string, text_of};
use crate::http::{
    bare_response, bearer_of, json_response, segments, segments_of, text_response, value_of, with_content, Request, RequestView,
    Response, ResponseView,
};
use crate::registry::{blob_url_of, content_digest, digest_of, manifest_url_of};
use crate::registry_auth::{
    claims_of, covers, granted, is_good_for_owner, owner, owner_of, password_matches, verify_password, ClaimsView, TokenStore,
};
use crate::registry_store::{user_named, user_views, RegistryStore, Role, User, UserView};
use crate::store::FileWrite;
use crate::text::{
    cat2, cat3, cat4, cut_first, cut_last, join, joined, pieces, rsplit_once, split, split_once, str_eq, strip_prefix,
    views, without_prefix,
};
use vstd::prelude::*;
use vstd::utf8::{decode_utf8, encode_utf8, valid_utf8};

verus! {

/// What to record of a request.
pub struct Note {
    pub username: String,
    pub action: String,
    pub resource: String,
    pub allowed: bool,
}

/// The mathematical content of a [`Note`].
#[verifier::ext_equal]
pub struct NoteView {
    pub username: Seq<char>,
    pub action: Seq<char>,
    pub resource: Seq<char>,
    pub allowed: bool,
}

impl View for Note {
    type V = NoteView;

    open spec fn view(&self) -> NoteView {
        NoteView {
            username: self.username@,
            action: self.action@,
            resource: self.resource@,
            allowed: self.allowed,
        }
    }
}

/// What a request comes to.
pub enum Outcome {
    Reply(Response),
    /// See whether the file is there.
    Probe { path: String },
    /// Answer with the file's content; `missing` is said if there is none.
    ReadFile { path: String, content_type: String, missing: String },
    /// Write the file; `what` is named if that fails.
    WriteFile { file: FileWrite, what: String },
    /// Issue a token.
    Grant { username: String, repository: String, actions: Vec<String> },
    /// Answer with a place to upload to.
    StartUpload { repository: String },
    /// Set the account's key to the one in the request's body.
    SetKey { username: String },
}

/// The mathematical content of an [`Outcome`].
pub enum OutcomeView {
    Reply(ResponseView),
    Probe { path: Seq<char> },
    ReadFile { path: Seq<char>, content_type: Seq<char>, missing: Seq<char> },
    WriteFile { dir: Seq<char>, path: Seq<char>, content: Seq<u8>, what: Seq<char> },
    Grant { username: Seq<char>, repository: Seq<char>, actions: Seq<Seq<char>> },
    StartUpload { repository: Seq<char> },
    SetKey { username: Seq<char> },
}

impl View for Outcome {
    type V = OutcomeView;

    open spec fn view(&self) -> OutcomeView {
        match *self {
            Outcome::Reply(r) => OutcomeView::Reply(r@),
            Outcome::Probe { path } => OutcomeView::Probe { path: path@ },
            Outcome::ReadFile { path, content_type, missing } => OutcomeView::ReadFile {
                path: path@,
                content_type: content_type@,
                missing: missing@,
            },
            Outcome::WriteFile { file, what } => OutcomeView::WriteFile {
                dir: file.dir@,
                path: file.path@,
                content: file.content@,
                what: what@,
            },
            Outcome::Grant { username, repository, actions } => OutcomeView::Grant {
                username: username@,
                repository: repository@,
                actions: views(actions@),
            },
            Outcome::StartUpload { repository } => OutcomeView::StartUpload { repository: repository@ },
            Outcome::SetKey { username } => OutcomeView::SetKey { username: username@ },
        }
    }
}

/// What a request comes to, and what to record of it.
pub struct Handled {
    pub outcome: Outcome,
    pub note: Option<Note>,
}

/// The content of an optional note.
pub open spec fn note_view(n: Option<Note>) -> Option<NoteView> {
    match n {
        Some(n) => Some(n@),
        None => None,
    }
}

impl View for Handled {
    type V = (OutcomeView, Option<NoteView>);

    open spec fn view(&self) -> (OutcomeView, Option<NoteView>) {
        (self.outcome@, note_view(self.note))
    }
}

/// An answer and nothing to record.
pub open spec fn answer(r: ResponseView) -> (OutcomeView, Option<NoteView>) {
    (OutcomeView::Reply(r), None)
}

/// An answer and nothing to record.
fn reply(r: Response) -> (h: Handled)
    ensures
        h@ == answer(r@),
{
    Handled { outcome: Outcome::Reply(r), note: None }
}

// ---- Credentials -----------------------------------------------------------

/// The repository and actions of a scope.
pub open spec fn scope_of(scope: Seq<char>) -> Option<(Seq<char>, Seq<Seq<char>>)> {
    match without_prefix(scope, "repository:"@) {
        Some(rest) => match cut_last(rest, ':') {
            Some((name, actions)) => Some((name, pieces(actions, ','))),
            None => None,
        },
        None => None,
    }
}

/// The repository and actions of a scope.
pub fn parse_scope(scope: &str) -> (r: Option<(String, Vec<String>)>)
    ensures
        match r {
            Some(p) => scope_of(scope@) == Some((p.0@, views(p.1@))),
            None => scope_of(scope@) is None,
        },
{
    match strip_prefix(scope, "repository:") {
        Some(rest) => match rsplit_once(rest, ':') {
            Some((name, actions)) => Some((name.to_owned(), split(actions, ','))),
            None => None,
        },
        None => None,
    }
}

/// The user name and password of a request's Basic credentials.
pub open spec fn credentials_of(req: RequestView) -> Option<(Seq<char>, Seq<char>)> {
    match value_of(req.headers, "authorization"@) {
        None => None,
        Some(header) => match without_prefix(header, "Basic "@) {
            None => None,
            Some(encoded) => match base64_bytes(encoded) {
                None => None,
                Some(bytes) => if valid_utf8(bytes) {
                    cut_first(decode_utf8(bytes), ':')
                } else {
                    None
                },
            },
        },
    }
}

/// The user name and password of a request's Basic credentials.
pub fn basic_auth(req: &Request) -> (r: Option<(String, String)>)
    ensures
        match r {
            Some(c) => credentials_of(req@) == Some((c.0@, c.1@)),
            None => credentials_of(req@) is None,
        },
{
    let header = match req.header("authorization") {
        Some(h) => h,
        None => {
            return None;
        },
    };
    let encoded = match strip_prefix(header, "Basic ") {
        Some(e) => e,
        None => {
            return None;
        },
    };
    match decode(encoded) {
        None => None,
        Some(bytes) => match text_of(bytes) {
            None => None,
            Some(text) => match split_once(text.as_str(), ':') {
                Some((user, password)) => Some((user.to_owned(), password.to_owned())),
                None => None,
            },
        },
    }
}

/// The account that a request's credentials prove.
pub open spec fn account_of(users: Seq<UserView>, req: RequestView) -> Option<UserView> {
    match credentials_of(req) {
        Some((name, password)) => match user_named(users, name) {
            Some(u) => if password_matches(password, u.password_hash) {
                Some(u)
            } else {
                None
            },
            None => None,
        },
        None => None,
    }
}

/// The account that a request's credentials prove: one that exists, with the
/// right password.
pub fn verify_basic_auth<'a>(store: &RegistryStore, users: &'a Vec<User>, req: &Request) -> (r: Option<&'a User>)
    ensures
        match r {
            Some(u) => account_of(user_views(users@), req@) == Some(u@),
            None => account_of(user_views(users@), req@) is None,
        },
{
    match basic_auth(req) {
        Some((name, password)) => match store.find_user(users, name.as_str()) {
            Some(u) => {
                if verify_password(password.as_str(), u.password_hash.as_str()) {
                    Some(u)
                } else {
                    None
                }
            },
            None => None,
        },
        None => None,
    }
}

/// Whether an account may push to a repository.
pub open spec fn may_push(name: Seq<char>, role: Role, repository: Seq<char>) -> bool {
    match role {
        Role::Admin => true,
        Role::Push => owner_of(repository) == name,
        Role::Pull => false,
    }
}

/// Whether an account may push to a repository: an administrator to any, an
/// account that pushes to those under its own name, others to none.
pub fn push_allowed(name: &str, role: Role, repository: &str) -> (r: bool)
    ensures
        r == may_push(name@, role, repository@),
{
    match role {
        Role::Admin => true,
        Role::Push => str_eq(owner(repository), name),
        Role::Pull => false,
    }
}

/// The text that refuses a token for the given actions to a request without
/// an account behind it.
pub open spec fn token_refusal(actions: Seq<Seq<char>>) -> Seq<char> {
    if actions.contains("push"@) {
        "authentication required for push"@
    } else {
        "authentication required"@
    }
}

/// What a request for a token comes to, for the account behind it.
pub open spec fn token_decision(
    account: Option<UserView>,
    repository: Seq<char>,
    actions: Seq<Seq<char>>,
) -> (OutcomeView, Option<NoteView>) {
    match account {
        None => answer(text_response(401, token_refusal(actions))),
        Some(u) => if actions.contains("push"@) && !may_push(u.username, u.role, repository) {
            (
                OutcomeView::Reply(text_response(403, u.username + " may not push to "@ + repository)),
                Some(
                    NoteView {
                        username: u.username,
                        action: "push"@,
                        resource: repository,
                        allowed: false,
                    },
                ),
            )
        } else {
            (OutcomeView::Grant { username: u.username, repository, actions }, None)
        },
    }
}

/// What a request for a token comes to, for the account behind it: none
/// without an account, and none that covers a push the account may not make.
pub fn decide_token(account: Option<&User>, repository: String, actions: Vec<String>) -> (r: Handled)
    ensures
        r@ == token_decision(
            match account {
                Some(u) => Some(u@),
                None => None,
            },
            repository@,
            views(actions@),
        ),
{
    match account {
        None => if granted(&actions, "push") {
            reply(Response::text(401, "authentication required for push"))
        } else {
            reply(Response::text(401, "authentication required"))
        },
        Some(u) => {
            if granted(&actions, "push") && !push_allowed(u.username.as_str(), u.role, repository.as_str()) {
                let text = cat3(u.username.as_str(), " may not push to ", repository.as_str());
                let note = Note {
                    username: u.username.clone(),
                    action: "push".to_owned(),
                    resource: repository,
                    allowed: false,
                };
                Handled { outcome: Outcome::Reply(Response::text(403, text.as_str())), note: Some(note) }
            } else {
                Handled {
                    outcome: Outcome::Grant { username: u.username.clone(), repository, actions },
                    note: None,
                }
            }
        },
    }
}

/// What a request to the token endpoint comes to.
pub open spec fn token_request(users: Seq<UserView>, req: RequestView) -> (OutcomeView, Option<NoteView>) {
    match value_of(req.query, "scope"@) {
        None => answer(text_response(400, "missing scope"@)),
        Some(scope) => match scope_of(scope) {
            None => answer(text_response(400, "invalid scope"@)),
            Some((repository, actions)) => token_decision(account_of(users, req), repository, actions),
        },
    }
}

/// What a request to the token endpoint comes to.
pub fn token_endpoint(store: &RegistryStore, users: &Vec<User>, req: &Request) -> (r: Handled)
    ensures
        r@ == token_request(user_views(users@), req@),
{
    match req.parameter("scope") {
        None => reply(Response::text(400, "missing scope")),
        Some(scope) => match parse_scope(scope) {
            None => reply(Response::text(400, "invalid scope")),
            Some((repository, actions)) => decide_token(
                verify_basic_auth(store, users, req),
                repository,
                actions,
            ),
        },
    }
}

/// What the holder of a token may do.
pub enum Access {
    /// The account the token was issued to.
    Granted(String),
    /// The token does not cover this; the account, if it is a known token.
    Refused(Option<String>),
}

/// The mathematical content of an [`Access`].
pub enum AccessView {
    Granted(Seq<char>),
    Refused(Option<Seq<char>>),
}

/// What the tokens say of a request for `action` on `repository`.
pub open spec fn access(
    tokens: Seq<(Seq<char>, ClaimsView)>,
    req: RequestView,
    repository: Seq<char>,
    action: Seq<char>,
    now: u64,
) -> AccessView {
    match bearer_of(req) {
        None => AccessView::Refused(None),
        Some(token) => match claims_of(tokens, token) {
            None => AccessView::Refused(None),
            Some(c) => if c.repository == repository && covers(c, action, now) {
                AccessView::Granted(c.username)
            } else {
                AccessView::Refused(Some(c.username))
            },
        },
    }
}

/// What the tokens say of a request for `action` on `repository`.
pub fn authorize(tokens: &TokenStore, req: &Request, repository: &str, action: &str, now: u64) -> (r: Access)
    ensures
        match r {
            Access::Granted(u) => access(tokens@, req@, repository@, action@, now) == AccessView::Granted(u@),
            Access::Refused(u) => access(tokens@, req@, repository@, action@, now) == AccessView::Refused(
                crate::image::opt_text(u),
            ),
        },
{
    match req.bearer_token() {
        None => Access::Refused(None),
        Some(token) => match tokens.claims(token) {
            None => Access::Refused(None),
            Some(c) => {
                if tokens.validate(token, repository, action, now) {
                    Access::Granted(c.username.clone())
                } else {
                    Access::Refused(Some(c.username.clone()))
                }
            },
        },
    }
}

/// What is answered and recorded where the tokens do not cover a request.
pub open spec fn refusal(
    account: Option<Seq<char>>,
    action: Seq<char>,
    resource: Seq<char>,
) -> (OutcomeView, Option<NoteView>) {
    (
        OutcomeView::Reply(text_response(401, action + " token required"@)),
        match account {
            Some(username) => Some(NoteView { username, action, resource, allowed: false }),
            None => None,
        },
    )
}

/// What is answered and recorded where the tokens do not cover a request.
fn refuse(account: Option<String>, action: &str, resource: &str) -> (r: Handled)
    ensures
        r@ == refusal(crate::image::opt_text(account), action@, resource@),
{
    let text = cat2(action, " token required");
    let note = match account {
        Some(username) => Some(
            Note { username, action: action.to_owned(), resource: resource.to_owned(), allowed: false },
        ),
        None => None,
    };
    Handled { outcome: Outcome::Reply(Response::text(401, text.as_str())), note }
}

/// The record of something that was allowed.
pub open spec fn allowed_note(username: Seq<char>, action: Seq<char>, resource: Seq<char>) -> Option<NoteView> {
    Some(NoteView { username, action, resource, allowed: true })
}

// ---- Operations ------------------------------------------------------------

/// What a request for a blob comes to.
pub open spec fn blob_read(
    store: RegistryStore,
    tokens: Seq<(Seq<char>, ClaimsView)>,
    req: RequestView,
    repository: Seq<char>,
    digest: Seq<char>,
    whole: bool,
    now: u64,
) -> (OutcomeView, Option<NoteView>) {
    match access(tokens, req, repository, "pull"@, now) {
        AccessView::Refused(account) => refusal(account, "pull"@, repository),
        AccessView::Granted(_) => match store.blob_file(digest) {
            Some(path) => if whole {
                (
                    OutcomeView::ReadFile {
                        path,
                        content_type: "application/octet-stream"@,
                        missing: "blob not found"@,
                    },
                    None,
                )
            } else {
                (OutcomeView::Probe { path }, None)
            },
            None => answer(text_response(404, "blob not found"@)),
        },
    }
}

/// What a request for a blob comes to: its content, or only whether it is there.
pub fn read_blob(
    store: &RegistryStore,
    tokens: &TokenStore,
    req: &Request,
    repository: &str,
    digest: &str,
    whole: bool,
    now: u64,
) -> (r: Handled)
    ensures
        r@ == blob_read(*store, tokens@, req@, repository@, digest@, whole, now),
{
    match authorize(tokens, req, repository, "pull", now) {
        Access::Refused(account) => refuse(account, "pull", repository),
        Access::Granted(_) => match store.blob_path(digest) {
            Some(path) => {
                if whole {
                    Handled {
                        outcome: Outcome::ReadFile {
                            path,
                            content_type: "application/octet-stream".to_owned(),
                            missing: "blob not found".to_owned(),
                        },
                        note: None,
                    }
                } else {
                    Handled { outcome: Outcome::Probe { path }, note: None }
                }
            },
            None => reply(Response::text(404, "blob not found")),
        },
    }
}

/// What the start of an upload comes to.
pub open spec fn upload_start(
    tokens: Seq<(Seq<char>, ClaimsView)>,
    req: RequestView,
    repository: Seq<char>,
    now: u64,
) -> (OutcomeView, Option<NoteView>) {
    match access(tokens, req, repository, "push"@, now) {
        AccessView::Refused(account) => refusal(account, "push"@, repository),
        AccessView::Granted(_) => (OutcomeView::StartUpload { repository }, None),
    }
}

/// What the start of an upload comes to. Nothing is remembered of it: the
/// upload itself carries all that is needed.
pub fn start_upload(tokens: &TokenStore, req: &Request, repository: &str, now: u64) -> (r: Handled)
    ensures
        r@ == upload_start(tokens@, req@, repository@, now),
{
    match authorize(tokens, req, repository, "push", now) {
        Access::Refused(account) => refuse(account, "push", repository),
        Access::Granted(_) => Handled {
            outcome: Outcome::StartUpload { repository: repository.to_owned() },
            note: None,
        },
    }
}

/// What an upload comes to.
pub open spec fn upload_end(
    store: RegistryStore,
    tokens: Seq<(Seq<char>, ClaimsView)>,
    req: RequestView,
    repository: Seq<char>,
    now: u64,
) -> (OutcomeView, Option<NoteView>) {
    match access(tokens, req, repository, "push"@, now) {
        AccessView::Refused(account) => refusal(account, "push"@, repository),
        AccessView::Granted(_) => match value_of(req.query, "digest"@) {
            None => answer(text_response(400, "missing digest query param"@)),
            Some(digest) => if digest != digest_of(req.body) {
                answer(
                    text_response(
                        400,
                        "digest mismatch: expected "@ + digest + ", got "@ + digest_of(req.body),
                    ),
                )
            } else {
                match store.blob_file(digest) {
                    Some(path) => (
                        OutcomeView::WriteFile {
                            dir: store.blobs(),
                            path,
                            content: req.body,
                            what: "blob"@,
                        },
                        None,
                    ),
                    None => answer(text_response(400, "invalid digest"@)),
                }
            },
        },
    }
}

/// What an upload comes to: content is stored only under its own digest.
pub fn complete_upload(store: &RegistryStore, tokens: &TokenStore, req: &Request, repository: &str, now: u64) -> (r:
    Handled)
    ensures
        r@ == upload_end(*store, tokens@, req@, repository@, now),
{
    match authorize(tokens, req, repository, "push", now) {
        Access::Refused(account) => refuse(account, "push", repository),
        Access::Granted(_) => match req.parameter("digest") {
            None => reply(Response::text(400, "missing digest query param")),
            Some(digest) => {
                let actual = content_digest(req.body.as_slice());
                if !str_eq(digest, actual.as_str()) {
                    let text = cat4("digest mismatch: expected ", digest, ", got ", actual.as_str());
                    return reply(Response::text(400, text.as_str()));
                }
                let data = req.body.clone();
                assert(data@ == req.body@);
                match store.write_blob(digest, data) {
                    Some(file) => Handled {
                        outcome: Outcome::WriteFile { file, what: "blob".to_owned() },
                        note: None,
                    },
                    None => reply(Response::text(400, "invalid digest")),
                }
            },
        },
    }
}

/// A repository and tag in one.
pub open spec fn tagged(repository: Seq<char>, tag: Seq<char>) -> Seq<char> {
    repository + ":"@ + tag
}

/// What a new manifest or signature comes to.
pub open spec fn tag_write(
    store: RegistryStore,
    tokens: Seq<(Seq<char>, ClaimsView)>,
    req: RequestView,
    repository: Seq<char>,
    tag: Seq<char>,
    signature: bool,
    now: u64,
) -> (OutcomeView, Option<NoteView>) {
    match access(tokens, req, repository, "push"@, now) {
        AccessView::Refused(account) => refusal(account, "push"@, tagged(repository, tag)),
        AccessView::Granted(username) => match store.tag_file(
            repository,
            tag,
            if signature { ".sig.json"@ } else { ".json"@ },
        ) {
            Some(path) => (
                OutcomeView::WriteFile {
                    dir: store.repository_dir(repository)->0,
                    path,
                    content: req.body,
                    what: if signature { "signature"@ } else { "manifest"@ },
                },
                if signature {
                    None
                } else {
                    allowed_note(username, "push"@, tagged(repository, tag))
                },
            ),
            None => answer(text_response(400, "invalid tag"@)),
        },
    }
}

/// What a new manifest comes to: a push is recorded here.
pub fn put_manifest(
    store: &RegistryStore,
    tokens: &TokenStore,
    req: &Request,
    repository: &str,
    tag: &str,
    now: u64,
) -> (r: Handled)
    ensures
        r@ == tag_write(*store, tokens@, req@, repository@, tag@, false, now),
{
    let resource = cat3(repository, ":", tag);
    match authorize(tokens, req, repository, "push", now) {
        Access::Refused(account) => refuse(account, "push", resource.as_str()),
        Access::Granted(username) => {
            let data = req.body.clone();
            assert(data@ == req.body@);
            match store.write_manifest(repository, tag, data) {
                Some(file) => Handled {
                    outcome: Outcome::WriteFile { file, what: "manifest".to_owned() },
                    note: Some(Note { username, action: "push".to_owned(), resource, allowed: true }),
                },
                None => reply(Response::text(400, "invalid tag")),
            }
        },
    }
}

/// What a new signature comes to.
pub fn put_signature(
    store: &RegistryStore,
    tokens: &TokenStore,
    req: &Request,
    repository: &str,
    tag: &str,
    now: u64,
) -> (r: Handled)
    ensures
        r@ == tag_write(*store, tokens@, req@, repository@, tag@, true, now),
{
    let resource = cat3(repository, ":", tag);
    match authorize(tokens, req, repository, "push", now) {
        Access::Refused(account) => refuse(account, "push", resource.as_str()),
        Access::Granted(_) => {
            let data = req.body.clone();
            assert(data@ == req.body@);
            match store.write_signature(repository, tag, data) {
                Some(file) => Handled {
                    outcome: Outcome::WriteFile { file, what: "signature".to_owned() },
                    note: None,
                },
                None => reply(Response::text(400, "invalid tag")),
            }
        },
    }
}

/// What a request for a manifest or signature comes to.
pub open spec fn tag_read(
    store: RegistryStore,
    tokens: Seq<(Seq<char>, ClaimsView)>,
    req: RequestView,
    repository: Seq<char>,
    tag: Seq<char>,
    signature: bool,
    now: u64,
) -> (OutcomeView, Option<NoteView>) {
    let missing = if signature { "no signature for this manifest"@ } else { "manifest not found"@ };
    match access(tokens, req, repository, "pull"@, now) {
        AccessView::Refused(account) => refusal(account, "pull"@, tagged(repository, tag)),
        AccessView::Granted(username) => match store.tag_file(
            repository,
            tag,
            if signature { ".sig.json"@ } else { ".json"@ },
        ) {
            Some(path) => (
                OutcomeView::ReadFile {
                    path,
                    content_type: if signature {
                        "application/json"@
                    } else {
                        "application/vnd.oci.image.manifest.v1+json"@
                    },
                    missing,
                },
                if signature {
                    None
                } else {
                    allowed_note(username, "pull"@, tagged(repository, tag))
                },
            ),
            None => answer(text_response(404, missing)),
        },
    }
}

/// What a request for a manifest comes to: a pull is recorded here.
pub fn get_manifest(
    store: &RegistryStore,
    tokens: &TokenStore,
    req: &Request,
    repository: &str,
    tag: &str,
    now: u64,
) -> (r: Handled)
    ensures
        r@ == tag_read(*store, tokens@, req@, repository@, tag@, false, now),
{
    let resource = cat3(repository, ":", tag);
    match authorize(tokens, req, repository, "pull", now) {
        Access::Refused(account) => refuse(account, "pull", resource.as_str()),
        Access::Granted(username) => match store.manifest_path(repository, tag) {
            Some(path) => Handled {
                outcome: Outcome::ReadFile {
                    path,
                    content_type: "application/vnd.oci.image.manifest.v1+json".to_owned(),
                    missing: "manifest not found".to_owned(),
                },
                note: Some(Note { username, action: "pull".to_owned(), resource, allowed: true }),
            },
            None => reply(Response::text(404, "manifest not found")),
        },
    }
}

/// What a request for a signature comes to.
pub fn get_signature(
    store: &RegistryStore,
    tokens: &TokenStore,
    req: &Request,
    repository: &str,
    tag: &str,
    now: u64,
) -> (r: Handled)
    ensures
        r@ == tag_read(*store, tokens@, req@, repository@, tag@, true, now),
{
    let resource = cat3(repository, ":", tag);
    match authorize(tokens, req, repository, "pull", now) {
        Access::Refused(account) => refuse(account, "pull", resource.as_str()),
        Access::Granted(_) => match store.signature_path(repository, tag) {
            Some(path) => Handled {
                outcome: Outcome::ReadFile {
                    path,
                    content_type: "application/json".to_owned(),
                    missing: "no signature for this manifest".to_owned(),
                },
                note: None,
            },
            None => reply(Response::text(404, "no signature for this manifest")),
        },
    }
}

/// A JSON object with one text member.
pub open spec fn text_object(name: Seq<char>, value: Seq<char>) -> Seq<char> {
    json_object(seq![json_member(name, json_string(value))])
}

/// A JSON object with one text member.
pub fn one_text(name: &str, value: &str) -> (r: String)
    ensures
        r@ == text_object(name@, value@),
{
    let quoted = json_str(value);
    let mut members: Vec<String> = Vec::new();
    members.push(json_pair(name, quoted.as_str()));
    assert(views(members@) =~= seq![json_member(name@, json_string(value@))]);
    json_map(&members)
}

/// What a request for an account's key comes to.
pub open spec fn key_read(
    users: Seq<UserView>,
    tokens: Seq<(Seq<char>, ClaimsView)>,
    req: RequestView,
    username: Seq<char>,
    now: u64,
) -> ResponseView {
    let good = match bearer_of(req) {
        Some(token) => is_good_for_owner(tokens, token, username, "pull"@, now),
        None => false,
    };
    if !good {
        text_response(401, "pull token required"@)
    } else {
        match user_named(users, username) {
            Some(UserView { public_key: Some(key), .. }) => json_response(200, text_object("public_key"@, key)),
            _ => text_response(404, "no public key on file for this user"@),
        }
    }
}

/// What a request for an account's key comes to: it takes a token for some
/// repository of that account's.
pub fn get_pubkey(
    store: &RegistryStore,
    users: &Vec<User>,
    tokens: &TokenStore,
    req: &Request,
    username: &str,
    now: u64,
) -> (r: Handled)
    ensures
        r@ == answer(key_read(user_views(users@), tokens@, req@, username@, now)),
{
    let good = match req.bearer_token() {
        Some(token) => tokens.validate_for_owner(token, username, "pull", now),
        None => false,
    };
    if !good {
        return reply(Response::text(401, "pull token required"));
    }
    match store.find_user(users, username) {
        Some(u) => match &u.public_key {
            Some(key) => {
                let json = one_text("public_key", key.as_str());
                reply(Response::json(200, json.as_str()))
            },
            None => reply(Response::text(404, "no public key on file for this user")),
        },
        None => reply(Response::text(404, "no public key on file for this user")),
    }
}

/// What a request to set an account's key comes to.
pub open spec fn key_write(users: Seq<UserView>, req: RequestView, username: Seq<char>) -> (
    OutcomeView,
    Option<NoteView>,
) {
    match account_of(users, req) {
        None => answer(text_response(401, "authentication required"@)),
        Some(u) => if u.username != username {
            answer(text_response(403, "cannot set another user's public key"@))
        } else {
            (OutcomeView::SetKey { username }, None)
        },
    }
}

/// What a request to set an account's key comes to: nobody sets another's.
pub fn put_pubkey(store: &RegistryStore, users: &Vec<User>, req: &Request, username: &str) -> (r: Handled)
    ensures
        r@ == key_write(user_views(users@), req@, username@),
{
    match verify_basic_auth(store, users, req) {
        None => reply(Response::text(401, "authentication required")),
        Some(u) => {
            if !str_eq(u.username.as_str(), username) {
                reply(Response::text(403, "cannot set another user's public key"))
            } else {
                Handled { outcome: Outcome::SetKey { username: username.to_owned() }, note: None }
            }
        },
    }
}

/// The host that a request was sent to.
pub open spec fn host_of(req: RequestView) -> Seq<char> {
    match value_of(req.headers, "host"@) {
        Some(h) => h,
        None => "localhost"@,
    }
}

/// The scheme that a request was sent with, as a proxy in front tells it.
pub open spec fn scheme_of(req: RequestView) -> Seq<char> {
    match value_of(req.headers, "x-forwarded-proto"@) {
        Some(s) => s,
        None => "http"@,
    }
}

/// The challenge that tells a client where to get a token.
pub open spec fn challenge(req: RequestView) -> ResponseView {
    let host = host_of(req);
    let scheme = scheme_of(req);
    ResponseView {
        status: 401,
        headers: seq![
            (
                "WWW-Authenticate"@,
                "Bearer realm=\""@ + scheme + "://"@ + host + ("/token\",service=\""@ + host + "\""@),
            ),
        ],
        body: Seq::empty(),
    }
}

/// The answer to a ping: always a challenge, so that every client gets itself a token.
pub fn ping(req: &Request) -> (r: Response)
    ensures
        r@ == challenge(req@),
{
    let host = match req.header("host") {
        Some(h) => h,
        None => "localhost",
    };
    let scheme = match req.header("x-forwarded-proto") {
        Some(s) => s,
        None => "http",
    };
    let head = cat4("Bearer realm=\"", scheme, "://", host);
    let tail = cat3("/token\",service=\"", host, "\"");
    let text = cat2(head.as_str(), tail.as_str());
    let mut headers: Vec<(String, String)> = Vec::new();
    headers.push(("WWW-Authenticate".to_owned(), text));
    let r = Response { status: 401, headers, body: Vec::new() };
    assert(r@ =~= challenge(req@));
    r
}

// ---- Routing ---------------------------------------------------------------

/// Where the operation begins: at the last `blobs` or `manifests`, which no
/// part of a repository's name is ever called.
pub open spec fn operation_at(parts: Seq<Seq<char>>) -> Option<int>
    decreases parts.len(),
{
    if parts.len() == 0 {
        None
    } else if parts.last() == "blobs"@ || parts.last() == "manifests"@ {
        Some(parts.len() - 1)
    } else {
        operation_at(parts.drop_last())
    }
}

/// An operation on a repository.
pub open spec fn dispatched(
    store: RegistryStore,
    tokens: Seq<(Seq<char>, ClaimsView)>,
    req: RequestView,
    repository: Seq<char>,
    op: Seq<Seq<char>>,
    now: u64,
) -> (OutcomeView, Option<NoteView>) {
    let blobs = op[0] == "blobs"@;
    let manifests = op[0] == "manifests"@;
    if req.method == "HEAD"@ && op.len() == 2 && blobs {
        blob_read(store, tokens, req, repository, op[1], false, now)
    } else if req.method == "GET"@ && op.len() == 2 && blobs {
        blob_read(store, tokens, req, repository, op[1], true, now)
    } else if req.method == "POST"@ && op.len() == 2 && blobs && op[1] == "uploads"@ {
        upload_start(tokens, req, repository, now)
    } else if req.method == "PUT"@ && op.len() == 3 && blobs && op[1] == "uploads"@ {
        upload_end(store, tokens, req, repository, now)
    } else if req.method == "PUT"@ && op.len() == 2 && manifests {
        tag_write(store, tokens, req, repository, op[1], false, now)
    } else if req.method == "GET"@ && op.len() == 2 && manifests {
        tag_read(store, tokens, req, repository, op[1], false, now)
    } else if req.method == "PUT"@ && op.len() == 3 && manifests && op[2] == "signature"@ {
        tag_write(store, tokens, req, repository, op[1], true, now)
    } else if req.method == "GET"@ && op.len() == 3 && manifests && op[2] == "signature"@ {
        tag_read(store, tokens, req, repository, op[1], true, now)
    } else {
        answer(text_response(404, "not found"@))
    }
}

/// What a request comes to.
pub open spec fn routed(
    store: RegistryStore,
    users: Seq<UserView>,
    tokens: Seq<(Seq<char>, ClaimsView)>,
    req: RequestView,
    now: u64,
) -> (OutcomeView, Option<NoteView>) {
    let parts = segments_of(req.path);
    if parts.len() == 1 && parts[0] == "v2"@ {
        answer(challenge(req))
    } else if parts.len() == 1 && parts[0] == "token"@ {
        token_request(users, req)
    } else if parts.len() == 3 && parts[0] == "users"@ && parts[2] == "pubkey"@ {
        if req.method == "GET"@ {
            answer(key_read(users, tokens, req, parts[1], now))
        } else if req.method == "PUT"@ {
            key_write(users, req, parts[1])
        } else {
            answer(text_response(404, "not found"@))
        }
    } else if parts.len() > 0 && parts[0] == "v2"@ {
        let rest = parts.skip(1);
        match operation_at(rest) {
            Some(i) => if i == 0 {
                answer(text_response(404, "not found"@))
            } else {
                dispatched(store, tokens, req, joined(rest.take(i), "/"@), rest.skip(i), now)
            },
            None => answer(text_response(404, "not found"@)),
        }
    } else {
        answer(text_response(404, "not found"@))
    }
}

/// Where the operation begins among the parts of a path, at or behind `from`.
pub fn split_repo_and_op(parts: &Vec<String>, from: usize) -> (r: Option<usize>)
    requires
        from <= parts@.len(),
    ensures
        match operation_at(views(parts@).skip(from as int)) {
            Some(i) => r == Some((from + i) as usize) && 0 <= i && from + i < parts@.len(),
            None => r is None,
        },
{
    let ghost rest = views(parts@).skip(from as int);
    let mut n: usize = parts.len();
    assert(rest.take(n - from) =~= rest);
    while n > from
        invariant
            from <= n <= parts@.len(),
            rest == views(parts@).skip(from as int),
            operation_at(rest.take(n - from)) == operation_at(rest),
        decreases n,
    {
        let part = parts[n - 1].as_str();
        proof {
            let upto = rest.take(n - from);
            assert(upto.last() == parts@[n - 1]@);
            assert(upto.drop_last() =~= rest.take(n - 1 - from));
        }
        if str_eq(part, "blobs") || str_eq(part, "manifests") {
            return Some(n - 1);
        }
        n -= 1;
    }
    assert(rest.take(0) =~= Seq::<Seq<char>>::empty());
    None
}

/// What a request that matches nothing gets.
fn not_found() -> (r: Handled)
    ensures
        r@ == answer(text_response(404, "not found"@)),
{
    reply(Response::text(404, "not found"))
}

/// The parts `from..to`, joined by slashes.
fn repository_name(parts: &Vec<String>, from: usize, to: usize) -> (r: String)
    requires
        from <= to <= parts@.len(),
    ensures
        r@ == joined(views(parts@).subrange(from as int, to as int), "/"@),
{
    let mut some: Vec<String> = Vec::new();
    let mut i: usize = from;
    assert(views(some@) =~= views(parts@).subrange(from as int, from as int));
    while i < to
        invariant
            from <= i <= to <= parts@.len(),
            views(some@) == views(parts@).subrange(from as int, i as int),
        decreases to - i,
    {
        let part = parts[i].clone();
        proof {
            assert(views(some@.push(part)) =~= views(some@).push(part@));
            assert(views(parts@).subrange(from as int, i + 1) =~= views(parts@).subrange(from as int, i as int).push(
                part@,
            ));
        }
        some.push(part);
        i += 1;
    }
    join(&some, "/")
}

/// An operation on a repository: the parts of the path from `at` on.
fn dispatch(
    store: &RegistryStore,
    tokens: &TokenStore,
    req: &Request,
    repository: &str,
    parts: &Vec<String>,
    at: usize,
    now: u64,
) -> (r: Handled)
    requires
        at < parts@.len(),
    ensures
        r@ == dispatched(*store, tokens@, req@, repository@, views(parts@).skip(at as int), now),
{
    let ghost op = views(parts@).skip(at as int);
    let n: usize = parts.len() - at;
    let m = req.method.as_str();
    assert(op[0] == parts@[at as int]@);
    let blobs = str_eq(parts[at].as_str(), "blobs");
    let manifests = str_eq(parts[at].as_str(), "manifests");
    if n == 2 {
        assert(op[1] == parts@[at + 1]@);
        let what = parts[at + 1].as_str();
        if blobs {
            if str_eq(m, "HEAD") {
                return read_blob(store, tokens, req, repository, what, false, now);
            }
            if str_eq(m, "GET") {
                return read_blob(store, tokens, req, repository, what, true, now);
            }
            if str_eq(m, "POST") && str_eq(what, "uploads") {
                return start_upload(tokens, req, repository, now);
            }
        }
        if manifests {
            if str_eq(m, "PUT") {
                return put_manifest(store, tokens, req, repository, what, now);
            }
            if str_eq(m, "GET") {
                return get_manifest(store, tokens, req, repository, what, now);
            }
        }
    }
    if n == 3 {
        assert(op[1] == parts@[at + 1]@);
        assert(op[2] == parts@[at + 2]@);
        let what = parts[at + 1].as_str();
        if blobs && str_eq(m, "PUT") && str_eq(what, "uploads") {
            return complete_upload(store, tokens, req, repository, now);
        }
        if manifests && str_eq(parts[at + 2].as_str(), "signature") {
            if str_eq(m, "PUT") {
                return put_signature(store, tokens, req, repository, what, now);
            }
            if str_eq(m, "GET") {
                return get_signature(store, tokens, req, repository, what, now);
            }
        }
    }
    proof {
        lemma_words_differ();
    }
    not_found()
}

/// The words that requests are told apart by are different words.
proof fn lemma_words_differ()
    ensures
        "blobs"@ != "manifests"@,
        "HEAD"@ != "GET"@,
        "GET"@ != "POST"@,
        "GET"@ != "PUT"@,
        "PUT"@ != "POST"@,
        "HEAD"@ != "POST"@,
        "HEAD"@ != "PUT"@,
{
    reveal_strlit("blobs");
    reveal_strlit("manifests");
    reveal_strlit("HEAD");
    reveal_strlit("GET");
    reveal_strlit("POST");
    reveal_strlit("PUT");
    assert("blobs"@.len() == 5 && "manifests"@.len() == 9);
    assert("GET"@[0] == 'G' && "PUT"@[0] == 'P' && "HEAD"@[0] == 'H' && "POST"@[0] == 'P');
    assert("PUT"@.len() == 3 && "POST"@.len() == 4);
}

/// What a request comes to.
pub fn route(store: &RegistryStore, users: &Vec<User>, tokens: &TokenStore, req: &Request, now: u64) -> (r: Handled)
    ensures
        r@ == routed(*store, user_views(users@), tokens@, req@, now),
{
    let parts = segments(req.path.as_str());
    let ghost all = views(parts@);
    let n = parts.len();
    if n == 0 {
        return not_found();
    }
    assert(all[0] == parts@[0]@);
    if n == 1 && str_eq(parts[0].as_str(), "v2") {
        return reply(ping(req));
    }
    if n == 1 && str_eq(parts[0].as_str(), "token") {
        return token_endpoint(store, users, req);
    }
    if n == 3 && str_eq(parts[0].as_str(), "users") && str_eq(parts[2].as_str(), "pubkey") {
        assert(all[1] == parts@[1]@ && all[2] == parts@[2]@);
        if str_eq(req.method.as_str(), "GET") {
            return get_pubkey(store, users, tokens, req, parts[1].as_str(), now);
        }
        if str_eq(req.method.as_str(), "PUT") {
            return put_pubkey(store, users, req, parts[1].as_str());
        }
        return not_found();
    }
    proof {
        if n == 3 {
            assert(all[2] == parts@[2]@);
        }
    }
    if !str_eq(parts[0].as_str(), "v2") {
        return not_found();
    }
    match split_repo_and_op(&parts, 1) {
        Some(at) => {
            if at == 1 {
                return not_found();
            }
            let repository = repository_name(&parts, 1, at);
            proof {
                let rest = all.skip(1);
                assert(rest.take(at - 1) =~= all.subrange(1, at as int));
                assert(rest.skip(at - 1) =~= all.skip(at as int));
            }
            dispatch(store, tokens, req, repository.as_str(), &parts, at, now)
        },
        None => not_found(),
    }
}

// ---- Answers once the work is done -----------------------------------------

/// The answer to a probe.
pub fn probe_reply(found: bool) -> (r: Response)
    ensures
        r@ == (if found {
            bare_response(200)
        } else {
            text_response(404, "blob not found"@)
        }),
{
    if found {
        Response::bare(200)
    } else {
        Response::text(404, "blob not found")
    }
}

/// The answer to a read, given the file's content if there is such a file.
pub fn read_reply(content_type: &str, missing: &str, data: Option<Vec<u8>>) -> (r: Response)
    ensures
        r@ == (match data {
            Some(d) => with_content(200, content_type@, d@),
            None => text_response(404, missing@),
        }),
{
    match data {
        Some(d) => Response::with(200, content_type, d),
        None => Response::text(404, missing),
    }
}

/// The answer to a write, given how it went.
pub fn write_reply(what: &str, result: &Result<(), String>) -> (r: Response)
    ensures
        r@ == (match result {
            Ok(_) => bare_response(201),
            Err(e) => text_response(500, "writing "@ + what@ + ": "@ + e@),
        }),
{
    match result {
        Ok(_) => Response::bare(201),
        Err(e) => {
            let text = cat4("writing ", what, ": ", e.as_str());
            Response::text(500, text.as_str())
        },
    }
}

/// The answer that carries a new token.
pub fn token_reply(token: &str) -> (r: Response)
    ensures
        r@ == json_response(200, text_object("token"@, token@)),
{
    let json = one_text("token", token);
    Response::json(200, json.as_str())
}

/// The answer that names the place of an upload.
pub fn upload_reply(repository: &str, id: &str) -> (r: Response)
    ensures
        r@ == (ResponseView {
            status: 202,
            headers: seq![("Location"@, "/v2/"@ + repository@ + "/blobs/uploads/"@ + id@)],
            body: Seq::empty(),
        }),
{
    let location = cat4("/v2/", repository, "/blobs/uploads/", id);
    let mut headers: Vec<(String, String)> = Vec::new();
    headers.push(("Location".to_owned(), location));
    let r = Response { status: 202, headers, body: Vec::new() };
    assert(r@ =~= (ResponseView {
        status: 202,
        headers: seq![("Location"@, "/v2/"@ + repository@ + "/blobs/uploads/"@ + id@)],
        body: Seq::empty(),
    }));
    r
}

/// The answer to a new key, given what reading the request's body came to
/// and how saving went.
pub fn key_reply(read: &Result<String, String>, saved: &Result<(), String>) -> (r: Response)
    ensures
        r@ == (match read {
            Err(e) => text_response(400, "invalid JSON body: "@ + e@),
            Ok(_) => match saved {
                Ok(_) => json_response(200, "{\"ok\":true}"@),
                Err(e) => text_response(500, "saving public key: "@ + e@),
            },
        }),
{
    match read {
        Err(e) => {
            let text = cat2("invalid JSON body: ", e.as_str());
            Response::text(400, text.as_str())
        },
        Ok(_) => match saved {
            Ok(_) => Response::json(200, "{\"ok\":true}"),
            Err(e) => {
                let text = cat2("saving public key: ", e.as_str());
                Response::text(500, text.as_str())
            },
        },
    }
}

// ---- What the rules come to ------------------------------------------------

/// A token that covers a push is only ever granted to an administrator, or
/// to the owner of the repository whose account pushes.
pub proof fn push_is_for_owners_and_admins(account: Option<UserView>, repository: Seq<char>, actions: Seq<Seq<char>>)
    requires
        actions.contains("push"@),
        token_decision(account, repository, actions).0 is Grant,
    ensures
        account matches Some(u) && (u.role == Role::Admin || u.role == Role::Push && owner_of(repository) == u.username),
{
}

/// An account that only pulls is never granted a push, not even to its own name.
pub proof fn pull_role_never_pushes(u: UserView, repository: Seq<char>, actions: Seq<Seq<char>>)
    requires
        u.role == Role::Pull,
        actions.contains("push"@),
    ensures
        token_decision(Some(u), repository, actions).0 == OutcomeView::Reply(
            text_response(403, u.username + " may not push to "@ + repository),
        ),
{
}

/// Any account is granted any token that does not cover a push.
pub proof fn any_account_pulls_anything(u: UserView, repository: Seq<char>, actions: Seq<Seq<char>>)
    requires
        !actions.contains("push"@),
    ensures
        token_decision(Some(u), repository, actions).0 == (OutcomeView::Grant {
            username: u.username,
            repository,
            actions,
        }),
{
}

/// Without credentials that prove an account no token is granted at all, and
/// the refusal says so of a push where the scope asked for one.
pub proof fn no_account_no_token(users: Seq<UserView>, req: RequestView, scope: Seq<char>)
    requires
        value_of(req.query, "scope"@) == Some(scope),
        scope_of(scope) is Some,
        account_of(users, req) is None,
    ensures
        token_request(users, req) == answer(text_response(401, token_refusal(scope_of(scope).unwrap().1))),
        scope_of(scope).unwrap().1.contains("push"@) ==> token_request(users, req) == answer(
            text_response(401, "authentication required for push"@),
        ),
{
}

/// Content is only ever stored under its own digest.
pub proof fn blobs_are_what_they_are_called(
    store: RegistryStore,
    tokens: Seq<(Seq<char>, ClaimsView)>,
    req: RequestView,
    repository: Seq<char>,
    now: u64,
)
    requires
        upload_end(store, tokens, req, repository, now).0 is WriteFile,
    ensures
        upload_end(store, tokens, req, repository, now).0 matches OutcomeView::WriteFile {
            dir,
            path,
            content,
            what,
        } && store.blob_file(digest_of(content)) == Some(path),
{
}

/// An operation on a repository that the token does not cover changes
/// nothing and reveals nothing: it is answered with a refusal.
pub proof fn uncovered_operations_are_refused(
    store: RegistryStore,
    tokens: Seq<(Seq<char>, ClaimsView)>,
    req: RequestView,
    repository: Seq<char>,
    op: Seq<Seq<char>>,
    now: u64,
)
    requires
        access(tokens, req, repository, "pull"@, now) is Refused,
        access(tokens, req, repository, "push"@, now) is Refused,
    ensures
        dispatched(store, tokens, req, repository, op, now).0 matches OutcomeView::Reply(r) && (r == text_response(
            404,
            "not found"@,
        ) || r == text_response(401, "pull"@ + " token required"@) || r == text_response(
            401,
            "push"@ + " token required"@,
        )),
{
}

/// The server reads back the Basic credentials that the client writes, as
/// long as the user name has no colon in it.
pub proof fn credentials_arrive(req: RequestView, user: Seq<char>, password: Seq<char>)
    requires
        value_of(req.headers, "authorization"@) == Some(crate::registry::basic(user, password)),
        !user.contains(':'),
    ensures
        credentials_of(req) == Some((user, password)),
{
    let text = user + ":"@ + password;
    let bytes = encode_utf8(text);
    let header = "Basic "@ + crate::base64::base64_text(bytes);
    crate::base64::base64_round_trip(bytes);
    assert("Basic "@ =~= header.subrange(0, "Basic "@.len() as int));
    assert(header.skip("Basic "@.len() as int) =~= crate::base64::base64_text(bytes));
    vstd::utf8::encode_utf8_valid_utf8(text);
    vstd::utf8::encode_utf8_decode_utf8(text);
    reveal_strlit(":");
    assert(text[user.len() as int] == ':');
    text.index_of_first_ensures(':');
    let k = text.index_of_first(':')->0;
    assert(text.contains(':'));
    if k < user.len() {
        assert(user[k] == text[k]);
    }
    assert(k == user.len());
    assert(text.take(k) =~= user);
    assert(text.skip(k + 1) =~= password);
}

/// The server reads back the token that the client writes.
pub proof fn token_arrives(req: RequestView, token: Seq<char>)
    requires
        value_of(req.headers, "authorization"@) == Some(crate::registry::bearer(token)),
    ensures
        bearer_of(req) == Some(token),
{
    let header = "Bearer "@ + token;
    assert("Bearer "@ =~= header.subrange(0, "Bearer "@.len() as int));
    assert(header.skip("Bearer "@.len() as int) =~= token);
}

/// A quoted parameter gives its value.
proof fn lemma_parameter(name: Seq<char>, value: Seq<char>)
    ensures
        crate::registry::parameter(name + "=\""@ + value + "\""@, name) == Some(value),
{
    let head = name + "=\""@;
    let tail = value + "\""@;
    let part = name + "=\""@ + value + "\""@;
    assert(head =~= part.take(head.len() as int));
    assert(part.skip(head.len() as int) =~= tail);
    assert("\""@ =~= tail.skip(value.len() as int));
    assert(tail.take(value.len() as int) =~= value);
}

/// The parameters of a challenge hold no comma of their own.
proof fn lemma_no_comma(scheme: Seq<char>, host: Seq<char>)
    requires
        !host.contains(','),
        !scheme.contains(','),
    ensures
        !("realm"@ + "=\""@ + (scheme + "://"@ + host + "/token"@) + "\""@).contains(','),
        !("service"@ + "=\""@ + host + "\""@).contains(','),
{
    reveal_strlit("realm");
    reveal_strlit("service");
    reveal_strlit("=\"");
    reveal_strlit("\"");
    reveal_strlit("://");
    reveal_strlit("/token");
    let a = "realm"@ + "=\""@ + (scheme + "://"@ + host + "/token"@) + "\""@;
    let b = "service"@ + "=\""@ + host + "\""@;
    if a.contains(',') {
        let k = choose|k: int| 0 <= k < a.len() && a[k] == ',';
        let n = scheme.len() as int;
        let m = host.len() as int;
        if 7 <= k < 7 + n {
            assert(scheme[k - 7] == ',');
        } else if 10 + n <= k < 10 + n + m {
            assert(host[k - 10 - n] == ',');
        }
    }
    if b.contains(',') {
        let k = choose|k: int| 0 <= k < b.len() && b[k] == ',';
        if 9 <= k < 9 + host.len() {
            assert(host[k - 9] == ',');
        }
    }
}

/// The client side understands the challenge that a ping is answered with: it
/// finds in it where to get a token, and for which service.
/// A host with a comma in it cannot be told.
pub proof fn challenge_is_understood(req: RequestView)
    requires
        !host_of(req).contains(','),
        !scheme_of(req).contains(','),
    ensures
        crate::registry::bearer_challenge(challenge(req).headers[0].1) == Some(
            (scheme_of(req) + "://"@ + host_of(req) + "/token"@, host_of(req)),
        ),
{
    let host = host_of(req);
    let scheme = scheme_of(req);
    reveal_strlit("Bearer ");
    reveal_strlit("Bearer realm=\"");
    reveal_strlit("realm");
    reveal_strlit("service");
    reveal_strlit("=\"");
    reveal_strlit("\"");
    reveal_strlit("://");
    reveal_strlit("/token");
    reveal_strlit("/token\",service=\"");
    let header = challenge(req).headers[0].1;
    let where_to = scheme + "://"@ + host + "/token"@;
    let a = "realm"@ + "=\""@ + where_to + "\""@;
    let b = "service"@ + "=\""@ + host + "\""@;
    let rest = a + seq![','] + b;
    assert(header =~= "Bearer "@ + rest);
    assert(without_prefix(header, "Bearer "@) == Some(rest)) by {
        assert("Bearer "@ =~= header.take(7));
        assert(header.skip(7) =~= rest);
    }
    lemma_no_comma(scheme, host);
    crate::text::lemma_pieces_step(a, b, ',');
    crate::text::lemma_pieces_whole(b, ',');
    let parts = seq![a, b];
    assert(crate::text::pieces(rest, ',') =~= parts);
    assert(crate::text::trimmed(a) == a) by {
        assert(a[0] == 'r' && a.last() == '"');
    }
    assert(crate::text::trimmed(b) == b) by {
        assert(b[0] == 's' && b.last() == '"');
    }
    lemma_parameter("realm"@, where_to);
    lemma_parameter("service"@, host);
    assert(crate::registry::parameter(b, "realm"@) is None) by {
        let head = "realm"@ + "=\""@;
        assert(head[0] == 'r');
        if head.is_prefix_of(b) {
            assert(b.subrange(0, 7)[0] == 's');
        }
        assert(b.take(7)[0] == 's');
    }
    let one = seq![a];
    assert(parts.drop_last() =~= one);
    assert(one.drop_last() =~= Seq::<Seq<char>>::empty());
    assert(crate::registry::challenge_parameters(one.drop_last()) == (None::<Seq<char>>, Seq::<char>::empty()));
    assert(one.last() == a);
    assert(crate::registry::challenge_parameters(one) == (Some(where_to), Seq::<char>::empty()));
    assert(parts.last() == b);
}

/// The claims of the token that a request carries.
pub open spec fn claims_behind(tokens: Seq<(Seq<char>, ClaimsView)>, req: RequestView) -> Option<ClaimsView> {
    match bearer_of(req) {
        Some(token) => claims_of(tokens, token),
        None => None,
    }
}

/// No password and no token gets into the records: what is recorded of a
/// request is the same for any credentials that prove the same account and
/// any token with the same claims.
pub proof fn records_hold_no_credentials(
    store: RegistryStore,
    users: Seq<UserView>,
    tokens: Seq<(Seq<char>, ClaimsView)>,
    a: RequestView,
    b: RequestView,
    now: u64,
)
    requires
        a.method == b.method,
        a.path == b.path,
        a.query == b.query,
        a.body == b.body,
        account_of(users, a) == account_of(users, b),
        claims_behind(tokens, a) == claims_behind(tokens, b),
    ensures
        routed(store, users, tokens, a, now).1 == routed(store, users, tokens, b, now).1,
{
}

/// Every push and every pull is recorded, and so is every operation that is
/// refused to a known account: who it was, what it was, and whether it went
/// through.
pub proof fn pushes_and_pulls_are_recorded(
    store: RegistryStore,
    tokens: Seq<(Seq<char>, ClaimsView)>,
    req: RequestView,
    repository: Seq<char>,
    tag: Seq<char>,
    op: Seq<Seq<char>>,
    now: u64,
)
    requires
        claims_behind(tokens, req) is Some,
    ensures
        ({
            let username = (claims_behind(tokens, req)->0).username;
            let push = tag_write(store, tokens, req, repository, tag, false, now);
            let pull = tag_read(store, tokens, req, repository, tag, false, now);
            let done = dispatched(store, tokens, req, repository, op, now);
            &&& push.0 is WriteFile ==> push.1 == allowed_note(username, "push"@, tagged(repository, tag))
            &&& pull.0 is ReadFile ==> pull.1 == allowed_note(username, "pull"@, tagged(repository, tag))
            &&& access(tokens, req, repository, "pull"@, now) is Refused && access(
                tokens,
                req,
                repository,
                "push"@,
                now,
            ) is Refused ==> (done.1 matches Some(n) && n.username == username && !n.allowed) || done == answer(
                text_response(404, "not found"@),
            )
        }),
{
}

// ---- What requests lead to -------------------------------------------------

/// A path below `v2` leads to the operation behind its last `blobs` or
/// `manifests`, on the repository in front of it.
proof fn lemma_routed(
    store: RegistryStore,
    users: Seq<UserView>,
    tokens: Seq<(Seq<char>, ClaimsView)>,
    req: RequestView,
    now: u64,
    repository: Seq<char>,
    op: Seq<Seq<char>>,
)
    requires
        repository.len() > 0,
        forall|i: int| 0 <= i < pieces(repository, '/').len() ==> (#[trigger] pieces(repository, '/')[i]).len() > 0,
        op.len() == 2 || op.len() == 3,
        op[0] == "blobs"@ || op[0] == "manifests"@,
        forall|i: int| 1 <= i < op.len() ==> (#[trigger] op[i]) != "blobs"@ && op[i] != "manifests"@,
        segments_of(req.path) == seq!["v2"@] + pieces(repository, '/') + op,
    ensures
        routed(store, users, tokens, req, now) == dispatched(store, tokens, req, repository, op, now),
{
    reveal_strlit("v2");
    reveal_strlit("users");
    reveal_strlit("/");
    assert("v2"@.len() == 2 && "users"@.len() == 5);
    let p = pieces(repository, '/');
    crate::text::lemma_pieces_nonempty(repository, '/');
    let parts = segments_of(req.path);
    let rest = parts.skip(1);
    assert(parts[0] == "v2"@);
    assert(rest =~= p + op);
    lemma_operation_at(p, op);
    assert(rest.take(p.len() as int) =~= p);
    assert(rest.skip(p.len() as int) =~= op);
    assert("/"@ =~= seq!['/']);
    crate::text::pieces_make_the_text(repository, '/');
}

/// The operation begins at its own word.
proof fn lemma_operation_at(p: Seq<Seq<char>>, op: Seq<Seq<char>>)
    requires
        op.len() > 0,
        op[0] == "blobs"@ || op[0] == "manifests"@,
        forall|i: int| 1 <= i < op.len() ==> (#[trigger] op[i]) != "blobs"@ && op[i] != "manifests"@,
    ensures
        operation_at(p + op) == Some(p.len() as int),
    decreases op.len(),
{
    let all = p + op;
    assert(all.last() == op[op.len() - 1]);
    if op.len() > 1 {
        assert(all.drop_last() =~= p + op.drop_last());
        assert forall|i: int| 1 <= i < op.drop_last().len() implies (#[trigger] op.drop_last()[i]) != "blobs"@
            && op.drop_last()[i] != "manifests"@ by {
            assert(op.drop_last()[i] == op[i]);
        }
        lemma_operation_at(p, op.drop_last());
    }
}

/// The parts of an address below `v2`.
proof fn lemma_address(repository: Seq<char>, op: Seq<Seq<char>>)
    requires
        repository.len() > 0,
        forall|i: int| 0 <= i < pieces(repository, '/').len() ==> (#[trigger] pieces(repository, '/')[i]).len() > 0,
        op.len() > 0,
        forall|i: int| 0 <= i < op.len() ==> (#[trigger] op[i]).len() > 0 && !op[i].contains('/'),
    ensures
        ({
            let path = "/v2/"@ + repository + seq!['/'] + joined(op, seq!['/']);
            &&& segments_of(path) == seq!["v2"@] + pieces(repository, '/') + op
            &&& segments_of(path + seq!['/']) == seq!["v2"@] + pieces(repository, '/') + op
        }),
{
    reveal_strlit("v2");
    reveal_strlit("/v2/");
    let p = pieces(repository, '/');
    let parts = seq!["v2"@] + p + op;
    crate::text::lemma_pieces_nonempty(repository, '/');
    crate::registry_store::lemma_pieces_free(repository, '/');
    assert(!"v2"@.contains('/'));
    assert forall|i: int| 0 <= i < parts.len() implies (#[trigger] parts[i]).len() > 0 && !parts[i].contains('/') by {
        if i == 0 {
        } else if i <= p.len() {
            assert(parts[i] == p[i - 1]);
        } else {
            assert(parts[i] == op[i - 1 - p.len()]);
        }
    }
    crate::http::paths_are_read_by_their_parts(parts);
    crate::text::pieces_make_the_text(repository, '/');
    crate::text::joined_lists_follow(seq!["v2"@] + p, op, seq!['/']);
    crate::text::joined_lists_follow(seq!["v2"@], p, seq!['/']);
    assert(joined(seq!["v2"@], seq!['/']) == "v2"@);
    let path = "/v2/"@ + repository + seq!['/'] + joined(op, seq!['/']);
    assert("/v2/"@ =~= seq!['/'] + "v2"@ + seq!['/']);
    assert(path =~= seq!['/'] + joined(parts, seq!['/']));
}

/// Whether a repository's name has no empty part.
pub open spec fn is_full(repository: Seq<char>) -> bool {
    repository.len() > 0 && forall|i: int|
        0 <= i < pieces(repository, '/').len() ==> (#[trigger] pieces(repository, '/')[i]).len() > 0
}

/// Whether a text can stand in an address as one part behind the operation.
pub open spec fn is_part(s: Seq<char>) -> bool {
    s.len() > 0 && !s.contains('/') && s != "blobs"@ && s != "manifests"@
}

/// What a client asks for under the address of a manifest or a blob is what the
/// server looks up: the manifest of that repository and tag, its signature, or
/// the blob of that digest, as a whole or only whether it is there.
pub proof fn pulls_reach_what_they_name(
    store: RegistryStore,
    users: Seq<UserView>,
    tokens: Seq<(Seq<char>, ClaimsView)>,
    req: RequestView,
    now: u64,
    repository: Seq<char>,
    name: Seq<char>,
)
    requires
        is_full(repository),
        is_part(name),
    ensures
        ({
            let manifest = manifest_url_of(Seq::empty(), repository, name);
            let blob = blob_url_of(Seq::empty(), repository, name);
            let done = routed(store, users, tokens, req, now);
            &&& req.method == "GET"@ && req.path == manifest ==> done == tag_read(
                store,
                tokens,
                req,
                repository,
                name,
                false,
                now,
            )
            &&& req.method == "GET"@ && req.path == manifest + "/signature"@ ==> done == tag_read(
                store,
                tokens,
                req,
                repository,
                name,
                true,
                now,
            )
            &&& req.method == "GET"@ && req.path == blob ==> done == blob_read(
                store,
                tokens,
                req,
                repository,
                name,
                true,
                now,
            )
            &&& req.method == "HEAD"@ && req.path == blob ==> done == blob_read(
                store,
                tokens,
                req,
                repository,
                name,
                false,
                now,
            )
        }),
{
    lemma_words_differ();
    lemma_operation_words(name);
    let manifest = manifest_url_of(Seq::empty(), repository, name);
    let blob = blob_url_of(Seq::empty(), repository, name);
    let one = seq!["manifests"@, name];
    let two = seq!["manifests"@, name, "signature"@];
    let three = seq!["blobs"@, name];
    lemma_two_parts("manifests"@, name);
    lemma_two_parts("blobs"@, name);
    lemma_three_parts("manifests"@, name, "signature"@);
    lemma_address(repository, one);
    lemma_address(repository, two);
    lemma_address(repository, three);
    assert(manifest =~= "/v2/"@ + repository + seq!['/'] + joined(one, seq!['/']));
    assert(manifest + "/signature"@ =~= "/v2/"@ + repository + seq!['/'] + joined(two, seq!['/']));
    assert(blob =~= "/v2/"@ + repository + seq!['/'] + joined(three, seq!['/']));
    if req.path == manifest {
        lemma_routed(store, users, tokens, req, now, repository, one);
    }
    if req.path == manifest + "/signature"@ {
        lemma_routed(store, users, tokens, req, now, repository, two);
    }
    if req.path == blob {
        lemma_routed(store, users, tokens, req, now, repository, three);
    }
}

/// What a client sends to the address of a manifest, its signature or an upload
/// is what the server stores.
pub proof fn pushes_reach_what_they_name(
    store: RegistryStore,
    users: Seq<UserView>,
    tokens: Seq<(Seq<char>, ClaimsView)>,
    req: RequestView,
    now: u64,
    repository: Seq<char>,
    name: Seq<char>,
)
    requires
        is_full(repository),
        is_part(name),
    ensures
        ({
            let manifest = manifest_url_of(Seq::empty(), repository, name);
            let start = "/v2/"@ + repository + "/blobs/uploads/"@;
            let done = routed(store, users, tokens, req, now);
            &&& req.method == "PUT"@ && req.path == manifest ==> done == tag_write(
                store,
                tokens,
                req,
                repository,
                name,
                false,
                now,
            )
            &&& req.method == "PUT"@ && req.path == manifest + "/signature"@ ==> done == tag_write(
                store,
                tokens,
                req,
                repository,
                name,
                true,
                now,
            )
            &&& req.method == "POST"@ && req.path == start ==> done == upload_start(tokens, req, repository, now)
            &&& req.method == "PUT"@ && req.path == start + name ==> done == upload_end(
                store,
                tokens,
                req,
                repository,
                now,
            )
        }),
{
    lemma_words_differ();
    lemma_operation_words(name);
    let manifest = manifest_url_of(Seq::empty(), repository, name);
    let start = "/v2/"@ + repository + "/blobs/uploads/"@;
    let one = seq!["manifests"@, name];
    let two = seq!["manifests"@, name, "signature"@];
    let three = seq!["blobs"@, "uploads"@];
    let four = seq!["blobs"@, "uploads"@, name];
    lemma_two_parts("manifests"@, name);
    lemma_two_parts("blobs"@, "uploads"@);
    lemma_three_parts("manifests"@, name, "signature"@);
    lemma_three_parts("blobs"@, "uploads"@, name);
    lemma_address(repository, one);
    lemma_address(repository, two);
    lemma_address(repository, three);
    lemma_address(repository, four);
    assert(manifest =~= "/v2/"@ + repository + seq!['/'] + joined(one, seq!['/']));
    assert(manifest + "/signature"@ =~= "/v2/"@ + repository + seq!['/'] + joined(two, seq!['/']));
    assert(start =~= "/v2/"@ + repository + seq!['/'] + joined(three, seq!['/']) + seq!['/']);
    assert(start + name =~= "/v2/"@ + repository + seq!['/'] + joined(four, seq!['/']));
    if req.path == manifest {
        lemma_routed(store, users, tokens, req, now, repository, one);
    }
    if req.path == manifest + "/signature"@ {
        lemma_routed(store, users, tokens, req, now, repository, two);
    }
    if req.path == start {
        lemma_routed(store, users, tokens, req, now, repository, three);
    }
    if req.path == start + name {
        lemma_routed(store, users, tokens, req, now, repository, four);
    }
}

/// Two parts with a slash between them.
proof fn lemma_two_parts(a: Seq<char>, b: Seq<char>)
    ensures
        joined(seq![a, b], seq!['/']) == a + seq!['/'] + b,
{
    reveal_with_fuel(joined, 2);
    assert(seq![a, b].drop_last() =~= seq![a]);
}

/// Three parts with slashes between them.
proof fn lemma_three_parts(a: Seq<char>, b: Seq<char>, c: Seq<char>)
    ensures
        joined(seq![a, b, c], seq!['/']) == a + seq!['/'] + b + seq!['/'] + c,
{
    lemma_two_parts(a, b);
    assert(seq![a, b, c].drop_last() =~= seq![a, b]);
}

/// The words of addresses, as they stand in them.
proof fn lemma_operation_words(name: Seq<char>)
    requires
        is_part(name),
    ensures
        "/manifests/"@ == seq!['/'] + "manifests"@ + seq!['/'],
        "/blobs/"@ == seq!['/'] + "blobs"@ + seq!['/'],
        "/signature"@ == seq!['/'] + "signature"@,
        "/blobs/uploads/"@ == seq!['/'] + "blobs"@ + seq!['/'] + "uploads"@ + seq!['/'],
        is_part("uploads"@),
        is_part("signature"@),
        "blobs"@.len() > 0 && !"blobs"@.contains('/'),
        "manifests"@.len() > 0 && !"manifests"@.contains('/'),
{
    reveal_strlit("/manifests/");
    reveal_strlit("manifests");
    reveal_strlit("/blobs/");
    reveal_strlit("blobs");
    reveal_strlit("/signature");
    reveal_strlit("signature");
    reveal_strlit("/blobs/uploads/");
    reveal_strlit("uploads");
    assert("/manifests/"@ =~= seq!['/'] + "manifests"@ + seq!['/']);
    assert("/blobs/"@ =~= seq!['/'] + "blobs"@ + seq!['/']);
    assert("/signature"@ =~= seq!['/'] + "signature"@);
    assert("/blobs/uploads/"@ =~= seq!['/'] + "blobs"@ + seq!['/'] + "uploads"@ + seq!['/']);
    assert("uploads"@.len() == 7 && "blobs"@.len() == 5 && "manifests"@.len() == 9 && "signature"@.len() == 9);
    assert("signature"@[0] == 's' && "manifests"@[0] == 'm');
}

/// A token that is good for an action on a repository opens that action there,
/// in the name of the account it was issued to; any other opens nothing.
pub proof fn good_tokens_open_the_repository(
    tokens: Seq<(Seq<char>, ClaimsView)>,
    req: RequestView,
    repository: Seq<char>,
    action: Seq<char>,
    now: u64,
)
    ensures
        access(tokens, req, repository, action, now) is Granted <==> (bearer_of(req) matches Some(t)
            && crate::registry_auth::is_good(tokens, t, repository, action, now)),
        access(tokens, req, repository, action, now) matches AccessView::Granted(u) ==> (claims_behind(
            tokens,
            req,
        ) matches Some(c) && c.username == u),
{
}

/// What was pushed is what is pulled: a manifest or signature that a good token
/// pushes is written as it came, to the file that a pull of the same
/// repository and tag reads, and to no other's; content goes to the file of
/// its own digest, and that is where the blob is read.
pub proof fn what_was_pushed_is_pulled(
    store: RegistryStore,
    tokens: Seq<(Seq<char>, ClaimsView)>,
    push: RequestView,
    pull: RequestView,
    repository: Seq<char>,
    tag: Seq<char>,
    signature: bool,
    now: u64,
    later: u64,
)
    requires
        access(tokens, push, repository, "push"@, now) is Granted,
        access(tokens, pull, repository, "pull"@, later) is Granted,
        crate::store::sha256(push.body).len() == 32,
    ensures
        match (
            tag_write(store, tokens, push, repository, tag, signature, now).0,
            tag_read(store, tokens, pull, repository, tag, signature, later).0,
        ) {
            (
                OutcomeView::WriteFile { path: written, content, .. },
                OutcomeView::ReadFile { path: read, .. },
            ) => written == read && content == push.body,
            (OutcomeView::Reply(a), OutcomeView::Reply(b)) => a.status == 400 && b.status == 404,
            _ => false,
        },
        ({
            let digest = "sha256:"@ + hex_text(crate::store::sha256(push.body));
            value_of(push.query, "digest"@) == Some(digest) ==> match (
                upload_end(store, tokens, push, repository, now).0,
                blob_read(store, tokens, pull, repository, digest, true, later).0,
            ) {
                (
                    OutcomeView::WriteFile { path: written, content, .. },
                    OutcomeView::ReadFile { path: read, .. },
                ) => written == read && content == push.body,
                _ => false,
            }
        }),
        value_of(push.query, "digest"@) != Some("sha256:"@ + hex_text(crate::store::sha256(push.body)))
            ==> (upload_end(store, tokens, push, repository, now).0 matches OutcomeView::Reply(r) && r.status == 400),
{
    let hash = crate::store::sha256(push.body);
    let hex = hex_text(hash);
    crate::registry_store::blobs_stand_under_their_digest(store, hex, hex);
    assert forall|i: int| 0 <= i < 64 implies '0' <= #[trigger] hex[i] <= '9' || 'a' <= hex[i] <= 'f' by {
        assert(0 <= hash[i / 2] as int / 16 < 16);
        assert(0 <= hash[i / 2] as int % 16 < 16);
    }
}

/// A scope is read by its parts: the repository up to the last colon, and every
/// action behind it.
pub proof fn scopes_are_read(repository: Seq<char>, actions: Seq<Seq<char>>)
    requires
        actions.len() > 0,
        forall|i: int| 0 <= i < actions.len() ==> !(#[trigger] actions[i]).contains(',') && !actions[i].contains(':'),
    ensures
        scope_of("repository:"@ + (repository + seq![':'] + joined(actions, seq![',']))) == Some((repository, actions)),
{
    let list = joined(actions, seq![',']);
    let rest = repository + seq![':'] + list;
    crate::text::prefixes_and_suffixes_come_off("repository:"@, rest, rest);
    assert forall|i: int| 0 <= i < actions.len() implies !(#[trigger] actions[i]).contains(':') by {}
    assert forall|i: int| 0 <= i < actions.len() implies !(#[trigger] actions[i]).contains(',') by {}
    crate::http::lemma_joined_free(actions, ',', ':');
    crate::text::texts_are_cut_behind(repository, ':', list);
    crate::text::joined_pieces_come_back(actions, ',');
}

/// An account is proved by its own name and password, and by nothing else.
pub proof fn accounts_need_their_password(users: Seq<UserView>, req: RequestView, u: UserView)
    ensures
        account_of(users, req) == Some(u) <==> (credentials_of(req) matches Some((name, password)) && user_named(
            users,
            name,
        ) == Some(u) && password_matches(password, u.password_hash)),
{
}

/// A key is handed out to whoever holds a token for its owner's repositories,
/// and is set by its owner alone.
pub proof fn keys_belong_to_their_owner(
    store: RegistryStore,
    users: Seq<UserView>,
    tokens: Seq<(Seq<char>, ClaimsView)>,
    req: RequestView,
    now: u64,
    name: Seq<char>,
)
    requires
        req.path == "/users/"@ + name + "/pubkey"@,
        name.len() > 0,
        !name.contains('/'),
    ensures
        ({
            let done = routed(store, users, tokens, req, now).0;
            &&& req.method == "PUT"@ && done is SetKey ==> done == (OutcomeView::SetKey { username: name }) && (
            account_of(users, req) matches Some(u) && u.username == name)
            &&& req.method == "PUT"@ && (account_of(users, req) matches Some(u) && u.username == name) ==> done is SetKey
            &&& req.method == "GET"@ ==> done == OutcomeView::Reply(key_read(users, tokens, req, name, now))
        }),
{
    reveal_strlit("/users/");
    reveal_strlit("users");
    reveal_strlit("/pubkey");
    reveal_strlit("pubkey");
    reveal_strlit("GET");
    reveal_strlit("PUT");
    let parts = seq!["users"@, name, "pubkey"@];
    lemma_three_parts("users"@, name, "pubkey"@);
    assert(!"users"@.contains('/') && !"pubkey"@.contains('/'));
    assert("users"@.len() == 5 && "pubkey"@.len() == 6);
    crate::http::paths_are_read_by_their_parts(parts);
    assert(req.path =~= seq!['/'] + joined(parts, seq!['/']));
    assert(segments_of(req.path) == parts);
    lemma_words_differ();
}

/// An administrator pushes to every repository, an account that pushes to those
/// that are named after it, and an account that pulls to none.
pub proof fn who_may_push(name: Seq<char>, role: Role, rest: Seq<char>, repository: Seq<char>)
    requires
        !name.contains('/'),
    ensures
        may_push(name, Role::Admin, repository),
        may_push(name, Role::Push, name + seq!['/'] + rest),
        !may_push(name, Role::Pull, repository),
        may_push(name, Role::Push, repository) ==> repository == name || exists|r: Seq<char>|
            repository == #[trigger] (name + seq!['/'] + r),
{
    crate::registry_auth::owners_are_named_first(name, rest);
    if may_push(name, Role::Push, repository) {
        repository.index_of_first_ensures('/');
        if let Some(i) = repository.index_of_first('/') {
            let r = repository.skip(i + 1);
            assert(repository =~= name + seq!['/'] + r);
        }
    }
}

/// Whether the parts behind a repository's name ask for nothing that there is:
/// another method, other names, or less or more than there should be.
pub open spec fn is_no_operation(method: Seq<char>, op: Seq<Seq<char>>) -> bool {
    ||| op.len() == 1
    ||| op.len() > 3
    ||| op[0] != "blobs"@ && op[0] != "manifests"@
    ||| method != "HEAD"@ && method != "GET"@ && method != "POST"@ && method != "PUT"@
    ||| op.len() == 3 && op[0] == "manifests"@ && op[2] != "signature"@
    ||| op.len() == 3 && op[0] == "blobs"@ && op[1] != "uploads"@
    ||| op.len() == 3 && op[0] == "blobs"@ && method != "PUT"@
    ||| op.len() == 3 && method != "PUT"@ && method != "GET"@
    ||| op.len() == 2 && method == "POST"@ && (op[0] != "blobs"@ || op[1] != "uploads"@)
    ||| op.len() == 2 && method == "PUT"@ && op[0] != "manifests"@
    ||| op.len() == 2 && method == "HEAD"@ && op[0] != "blobs"@
}

/// Operations that there are not are not found, whoever asks: other methods,
/// other names, and paths with less or more in them.
pub proof fn unknown_operations_are_not_found(
    store: RegistryStore,
    tokens: Seq<(Seq<char>, ClaimsView)>,
    req: RequestView,
    repository: Seq<char>,
    op: Seq<Seq<char>>,
    now: u64,
)
    requires
        op.len() > 0,
        is_no_operation(req.method, op),
    ensures
        dispatched(store, tokens, req, repository, op, now).0 == OutcomeView::Reply(
            text_response(404, "not found"@),
        ),
{
    lemma_words_differ();
}

/// Whether a path leads nowhere.
pub open spec fn leads_nowhere(parts: Seq<Seq<char>>) -> bool {
    ||| parts.len() == 0
    ||| parts[0] != "v2"@ && parts[0] != "token"@ && parts[0] != "users"@
    ||| parts[0] == "token"@ && parts.len() > 1
    ||| parts[0] == "users"@ && (parts.len() != 3 || parts[2] != "pubkey"@)
    ||| parts[0] == "v2"@ && parts.len() > 1 && forall|i: int|
        2 <= i < parts.len() ==> #[trigger] parts[i] != "blobs"@ && parts[i] != "manifests"@
}

/// Paths that lead nowhere are not found: those that begin with neither `v2`,
/// `token` nor `users`, those below `users` that end in something else than
/// `pubkey`, and those below `v2` that name no operation or no repository.
pub proof fn unknown_paths_are_not_found(
    store: RegistryStore,
    users: Seq<UserView>,
    tokens: Seq<(Seq<char>, ClaimsView)>,
    req: RequestView,
    now: u64,
)
    requires
        leads_nowhere(segments_of(req.path)),
    ensures
        routed(store, users, tokens, req, now).0 == OutcomeView::Reply(text_response(404, "not found"@)),
{
    reveal_strlit("v2");
    reveal_strlit("token");
    reveal_strlit("users");
    assert("v2"@.len() == 2 && "token"@[0] == 't' && "users"@[0] == 'u');
    let parts = segments_of(req.path);
    if parts.len() > 1 && parts[0] == "v2"@ {
        let rest = parts.skip(1);
        assert forall|i: int| 1 <= i < rest.len() implies #[trigger] rest[i] != "blobs"@ && rest[i] != "manifests"@ by {
            assert(rest[i] == parts[i + 1]);
        }
        lemma_no_operation(rest);
    }
}

/// Parts without an operation behind the first name none.
proof fn lemma_no_operation(parts: Seq<Seq<char>>)
    requires
        forall|i: int| 1 <= i < parts.len() ==> #[trigger] parts[i] != "blobs"@ && parts[i] != "manifests"@,
    ensures
        operation_at(parts) matches Some(i) ==> i == 0,
    decreases parts.len(),
{
    if parts.len() > 0 {
        let before = parts.drop_last();
        assert forall|i: int| 1 <= i < before.len() implies #[trigger] before[i] != "blobs"@ && before[i]
            != "manifests"@ by {
            assert(before[i] == parts[i]);
        }
        lemma_no_operation(before);
        if parts.len() > 1 {
            assert(parts[parts.len() - 1] != "blobs"@ && parts[parts.len() - 1] != "manifests"@);
        }
    }
}

/// Reading changes nothing: only a `PUT` writes files or sets keys, only a
/// `POST` starts an upload, and files are looked at or read on `HEAD` or `GET`
/// alone.
pub proof fn reading_changes_nothing(
    store: RegistryStore,
    users: Seq<UserView>,
    tokens: Seq<(Seq<char>, ClaimsView)>,
    req: RequestView,
    now: u64,
)
    ensures
        ({
            let done = routed(store, users, tokens, req, now).0;
            &&& done is WriteFile || done is SetKey ==> req.method == "PUT"@
            &&& done is StartUpload ==> req.method == "POST"@
            &&& done is ReadFile ==> req.method == "GET"@
            &&& done is Probe ==> req.method == "HEAD"@
            &&& done is Grant ==> segments_of(req.path) == seq!["token"@]
        }),
{
    lemma_words_differ();
    let parts = segments_of(req.path);
    if parts.len() == 1 {
        assert(parts =~= seq![parts[0]]);
    }
}

} // verus!
