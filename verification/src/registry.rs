//! A minimal client of image registries: which requests pulling and pushing
//! an image take, and what to make of the replies. Sending them is the
//! caller's part.
//!
//! A reference whose first path segment looks like a host (it holds a `.` or
//! a `:`, or is `localhost`) names a registry of its own, spoken to over
//! plain HTTP; any other reference is Docker Hub's.

use crate::base64::{base64_text, encode};
use crate::codec::{
    bytes_of, hex_encode, hex_text, json_array, json_list, json_map, json_member, json_object, json_pair, json_str,
    json_opt_string, json_string, quoted, quoted_text,
};
use crate::error::Error;
use crate::image::{
    full_repository, hash_bytes, image_file, image_file_text, image_id, name_and_tag, normalize_repository, opt_text, pair_texts,
    port_texts, reference_file, split_name_tag, ConfigView, Image, ImageConfig, ImageView, Save,
};
use crate::num::{decimal, parse_unsigned, parsed_unsigned, u64_text};
use crate::order::{lemma_name_set_contents, name_set, names_in_order, without_repeats};
use crate::paths::joined_path;
use crate::pretty::{
    begins_item, lists_show_their_items, maps_show_their_members, numbers_show_their_value,
    optional_strings_show_their_text, pairs_show_their_names, pairs_show_their_values, string_lists_show_their_texts,
    strings_show_their_text, told_apart,
};
use crate::registry_auth::{owner, owner_of};
use crate::signing::{public_key_of, refusal, sign, signature_of, verify, SigningKey};
use crate::store::{sha256, sha256_of, FileWrite, Store};
use crate::text::{
    cat2, cat3, cat4, cat5, contains_char, contains_str, cut_first, has_run, join, joined, joined_pieces_come_back,
    pieces, split, split_once,
    starts_with, str_eq, strip_prefix, strip_suffix, texts_are_cut_behind, texts_are_cut_in_front, trim, trimmed,
    views, whole_texts_are_not_cut, without_prefix, without_suffix,
};
use vstd::prelude::*;
use vstd::utf8::encode_utf8;

verus! {

/// Docker Hub's registry.
pub const DOCKER_HUB_REGISTRY: &'static str = "https://registry-1.docker.io";

/// Where Docker Hub hands out tokens.
pub const DOCKER_HUB_AUTH: &'static str = "https://auth.docker.io/token";

/// The service Docker Hub's tokens are for.
pub const DOCKER_HUB_SERVICE: &'static str = "registry.docker.io";

/// The manifest types the client reads.
pub const MANIFEST_ACCEPT: &'static str =
    "application/vnd.oci.image.index.v1+json,application/vnd.docker.distribution.manifest.list.v2+json,application/vnd.oci.image.manifest.v1+json,application/vnd.docker.distribution.manifest.v2+json";

/// The media type of a pushed layer.
pub const LAYER_MEDIA_TYPE: &'static str = "application/vnd.oci.image.layer.v1.tar+gzip";

/// The media type of a pushed configuration.
pub const CONFIG_MEDIA_TYPE: &'static str = "application/vnd.oci.image.config.v1+json";

/// The media type of a pushed manifest.
pub const MANIFEST_MEDIA_TYPE: &'static str = "application/vnd.oci.image.manifest.v1+json";

// ---- References ------------------------------------------------------------

/// A reference to a remote image.
pub struct Reference {
    /// The registry's host and port; without one it is Docker Hub.
    pub host: Option<String>,
    pub repository: String,
    /// A tag, or a digest.
    pub tag: String,
}

/// The mathematical content of a [`Reference`].
#[verifier::ext_equal]
pub struct ReferenceView {
    pub host: Option<Seq<char>>,
    pub repository: Seq<char>,
    pub tag: Seq<char>,
}

impl View for Reference {
    type V = ReferenceView;

    open spec fn view(&self) -> ReferenceView {
        ReferenceView { host: opt_text(self.host), repository: self.repository@, tag: self.tag@ }
    }
}

/// The part of a reference in front of its tag or digest, and the tag or
/// digest. Behind an `@` stands a digest.
pub open spec fn name_and_version(s: Seq<char>) -> (Seq<char>, Seq<char>) {
    match cut_first(s, '@') {
        Some((name, digest)) => (name, digest),
        None => name_and_tag(s),
    }
}

/// Whether a first path segment is a host.
pub open spec fn is_host(segment: Seq<char>) -> bool {
    segment.contains('.') || segment.contains(':') || segment == "localhost"@
}

/// What a reference stands for.
pub open spec fn reference_of(s: Seq<char>) -> ReferenceView {
    let (name, tag) = name_and_version(s);
    match cut_first(name, '/') {
        Some((first, rest)) if is_host(first) => ReferenceView { host: Some(first), repository: rest, tag },
        _ => ReferenceView { host: None, repository: full_repository(name), tag },
    }
}

/// Where a registry's API is found.
pub open spec fn registry_url(host: Option<Seq<char>>) -> Seq<char> {
    match host {
        Some(h) => "http://"@ + h,
        None => DOCKER_HUB_REGISTRY@,
    }
}

impl Reference {
    /// What a reference stands for.
    pub fn parse(s: &str) -> (r: Reference)
        ensures
            r@ == reference_of(s@),
    {
        let (name, tag) = match split_once(s, '@') {
            Some((name, digest)) => (name, digest),
            None => split_name_tag(s),
        };
        match split_once(name, '/') {
            Some((first, rest)) => {
                if contains_char(first, '.') || contains_char(first, ':') || str_eq(first, "localhost") {
                    return Reference {
                        host: Some(first.to_owned()),
                        repository: rest.to_owned(),
                        tag: tag.to_owned(),
                    };
                }
            },
            None => {},
        }
        Reference { host: None, repository: normalize_repository(name), tag: tag.to_owned() }
    }

    /// Where the registry's API is found: everything in front of `/v2/`.
    pub fn base_url(&self) -> (r: String)
        ensures
            r@ == registry_url(self@.host),
    {
        match &self.host {
            Some(h) => cat2("http://", h.as_str()),
            None => DOCKER_HUB_REGISTRY.to_owned(),
        }
    }
}

/// A pulled Docker Hub image is tagged where the same reference is looked up
/// locally, so what was pulled resolves by the name it was pulled under.
pub proof fn pulled_name_is_the_local_name(root: Seq<char>, s: Seq<char>)
    requires
        !s.contains('@'),
        reference_of(s).host is None,
    ensures
        ({
            let r = reference_of(s);
            joined_path(joined_path(joined_path(root, "refs"@), r.repository), r.tag) == reference_file(root, s)
        }),
{
    s.index_of_first_ensures('@');
}

// ---- Tokens ----------------------------------------------------------------

/// The value of the `Authorization` header for a token.
pub open spec fn bearer(token: Seq<char>) -> Seq<char> {
    "Bearer "@ + token
}

/// The `Authorization` header to send, if there is a token.
pub fn with_auth(token: &Option<String>) -> (r: Option<String>)
    ensures
        opt_text(r) == (match opt_text(*token) {
            Some(t) => Some(bearer(t)),
            None => None,
        }),
{
    match token {
        Some(t) => Some(cat2("Bearer ", t.as_str())),
        None => None,
    }
}

/// A request for a token.
pub struct TokenRequest {
    pub url: String,
    pub authorization: Option<String>,
    /// What failing to get the token is reported under.
    pub context: String,
}

/// The next step towards a token.
pub enum TokenStep {
    /// See whether the registry at this address asks for a token.
    Ping(String),
    /// Ask for a token.
    Request(TokenRequest),
}

/// How a registry answered the ping.
pub enum Ping {
    /// No token is needed.
    Accepted,
    /// Authorization is needed; the challenge, if the reply carried one.
    Unauthorized(Option<String>),
    /// Anything else.
    Failed,
}

/// Where Docker Hub is asked for a token.
pub open spec fn hub_token_url(repository: Seq<char>, action: Seq<char>) -> Seq<char> {
    DOCKER_HUB_AUTH@ + "?service="@ + DOCKER_HUB_SERVICE@ + "&scope=repository:"@ + repository + ":"@ + action
}

/// The next step towards a token for `action`; `purpose` names it in messages.
pub open spec fn is_first_step(r: TokenStep, reference: ReferenceView, action: Seq<char>, purpose: Seq<char>) -> bool {
    match reference.host {
        Some(_) => r matches TokenStep::Ping(u) && u@ == registry_url(reference.host) + "/v2/"@,
        None => r matches TokenStep::Request(q) && q.url@ == hub_token_url(reference.repository, action)
            && q.authorization is None && q.context@ == "requesting "@ + purpose + " token for "@
            + reference.repository,
    }
}

/// The first step towards a token for `action`.
fn first_step(reference: &Reference, action: &str, purpose: &str) -> (r: TokenStep)
    ensures
        is_first_step(r, reference@, action@, purpose@),
{
    match &reference.host {
        Some(_) => {
            let base = reference.base_url();
            TokenStep::Ping(cat2(base.as_str(), "/v2/"))
        },
        None => {
            let head = cat4(DOCKER_HUB_AUTH, "?service=", DOCKER_HUB_SERVICE, "&scope=repository:");
            let url = cat4(head.as_str(), reference.repository.as_str(), ":", action);
            let context = cat4("requesting ", purpose, " token for ", reference.repository.as_str());
            TokenStep::Request(TokenRequest { url, authorization: None, context })
        },
    }
}

/// The first step towards a token for pulling: Docker Hub always needs one,
/// a registry of its own may.
pub fn get_token(reference: &Reference) -> (r: TokenStep)
    ensures
        is_first_step(r, reference@, "pull"@, "pull"@),
{
    first_step(reference, "pull", "pull")
}

/// The first step towards a token for pushing.
pub fn get_push_token(reference: &Reference) -> (r: TokenStep)
    ensures
        is_first_step(r, reference@, "pull,push"@, "push"@),
{
    first_step(reference, "pull,push", "push")
}

/// The realm and service so far.
pub type Challenge = (Option<Seq<char>>, Seq<char>);

/// The text between `name="` and `"`, if that is all of `part`.
pub open spec fn parameter(part: Seq<char>, name: Seq<char>) -> Option<Seq<char>> {
    match without_prefix(part, name + "=\""@) {
        Some(rest) => without_suffix(rest, "\""@),
        None => None,
    }
}

/// What the parameters of a challenge say of realm and service: the last of
/// each counts.
pub open spec fn challenge_parameters(parts: Seq<Seq<char>>) -> Challenge
    decreases parts.len(),
{
    if parts.len() == 0 {
        (None, Seq::empty())
    } else {
        let (realm, service) = challenge_parameters(parts.drop_last());
        let part = trimmed(parts.last());
        match (parameter(part, "realm"@), parameter(part, "service"@)) {
            (Some(v), _) => (Some(v), service),
            (None, Some(v)) => (realm, v),
            (None, None) => (realm, service),
        }
    }
}

/// The realm and service of a Bearer challenge.
pub open spec fn bearer_challenge(header: Seq<char>) -> Option<(Seq<char>, Seq<char>)> {
    match without_prefix(header, "Bearer "@) {
        Some(rest) => match challenge_parameters(pieces(rest, ',')) {
            (Some(realm), service) => Some((realm, service)),
            (None, _) => None,
        },
        None => None,
    }
}

/// The text between `name="` and `"`, if that is all of `part`.
fn parameter_of<'a>(part: &'a str, name: &str) -> (r: Option<&'a str>)
    ensures
        match r {
            Some(v) => parameter(part@, name@) == Some(v@),
            None => parameter(part@, name@) is None,
        },
{
    let head = cat2(name, "=\"");
    match strip_prefix(part, head.as_str()) {
        Some(rest) => strip_suffix(rest, "\""),
        None => None,
    }
}

/// The realm and service of a `WWW-Authenticate` challenge; `None` if it is
/// no Bearer challenge or names no realm.
pub fn parse_bearer_challenge(header: &str) -> (r: Option<(String, String)>)
    ensures
        match r {
            Some(c) => bearer_challenge(header@) == Some((c.0@, c.1@)),
            None => bearer_challenge(header@) is None,
        },
{
    match strip_prefix(header, "Bearer ") {
        None => None,
        Some(rest) => {
            let parts = split(rest, ',');
            let ghost all = views(parts@);
            let mut realm: Option<String> = None;
            let mut service = String::new();
            let mut i: usize = 0;
            assert(service@ =~= Seq::<char>::empty());
            while i < parts.len()
                invariant
                    i <= parts@.len(),
                    all == views(parts@),
                    challenge_parameters(all.take(i as int)) == (opt_text(realm), service@),
                decreases parts.len() - i,
            {
                proof {
                    assert(all.take(i + 1).drop_last() =~= all.take(i as int));
                    assert(all.take(i + 1).last() == parts@[i as int]@);
                }
                let part = trim(parts[i].as_str());
                match parameter_of(part, "realm") {
                    Some(v) => {
                        realm = Some(v.to_owned());
                    },
                    None => match parameter_of(part, "service") {
                        Some(v) => {
                            service = v.to_owned();
                        },
                        None => {},
                    },
                }
                i += 1;
            }
            assert(all.take(i as int) =~= all);
            match realm {
                Some(realm) => Some((realm, service)),
                None => None,
            }
        },
    }
}

/// Where a token of the given realm, service and scope is asked for.
pub open spec fn realm_token_url(
    realm: Seq<char>,
    service: Seq<char>,
    repository: Seq<char>,
    action: Seq<char>,
) -> Seq<char> {
    let separator = if realm.contains('?') { "&"@ } else { "?"@ };
    realm + separator + "service="@ + service + "&scope="@ + ("repository:"@ + repository + ":"@ + action)
}

/// HTTP Basic credentials.
pub open spec fn basic(user: Seq<char>, password: Seq<char>) -> Seq<char> {
    "Basic "@ + base64_text(encode_utf8(user + ":"@ + password))
}

/// The request for a token that the answer to a ping calls for: one only
/// where the registry challenged for a Bearer token, with the credentials if
/// there are any.
pub fn get_explicit_host_token(
    ping: &Ping,
    repository: &str,
    action: &str,
    credentials: &Option<(String, String)>,
) -> (r: Option<TokenRequest>)
    ensures
        match ping {
            Ping::Unauthorized(Some(header)) => match bearer_challenge(header@) {
                Some((realm, service)) => r matches Some(q) && q.url@ == realm_token_url(
                    realm,
                    service,
                    repository@,
                    action@,
                ) && q.context@ == "requesting token from "@ + realm && opt_text(q.authorization) == (
                match credentials {
                    Some(c) => Some(basic(c.0@, c.1@)),
                    None => None,
                }),
                None => r is None,
            },
            _ => r is None,
        },
{
    let header = match ping {
        Ping::Unauthorized(Some(header)) => header,
        _ => {
            return None;
        },
    };
    match parse_bearer_challenge(header.as_str()) {
        None => None,
        Some((realm, service)) => {
            let scope = cat4("repository:", repository, ":", action);
            let separator = if contains_char(realm.as_str(), '?') { "&" } else { "?" };
            let head = cat4(realm.as_str(), separator, "service=", service.as_str());
            let url = cat3(head.as_str(), "&scope=", scope.as_str());
            let authorization = match credentials {
                Some((user, password)) => {
                    let text = cat3(user.as_str(), ":", password.as_str());
                    let bytes = bytes_of(text.as_str());
                    let encoded = encode(bytes.as_slice());
                    Some(cat2("Basic ", encoded.as_str()))
                },
                None => None,
            };
            let context = cat2("requesting token from ", realm.as_str());
            Some(TokenRequest { url, authorization, context })
        },
    }
}

// ---- Manifests and blobs ---------------------------------------------------

/// Where a manifest is found.
pub open spec fn manifest_url_of(base: Seq<char>, repository: Seq<char>, reference: Seq<char>) -> Seq<char> {
    base + "/v2/"@ + repository + "/manifests/"@ + reference
}

/// Where a blob is found.
pub open spec fn blob_url_of(base: Seq<char>, repository: Seq<char>, digest: Seq<char>) -> Seq<char> {
    base + "/v2/"@ + repository + "/blobs/"@ + digest
}

/// Where a manifest is found.
pub fn manifest_url(base_url: &str, repository: &str, reference: &str) -> (r: String)
    ensures
        r@ == manifest_url_of(base_url@, repository@, reference@),
{
    cat5(base_url, "/v2/", repository, "/manifests/", reference)
}

/// Where a blob is found.
pub fn blob_url(base_url: &str, repository: &str, digest: &str) -> (r: String)
    ensures
        r@ == blob_url_of(base_url@, repository@, digest@),
{
    cat5(base_url, "/v2/", repository, "/blobs/", digest)
}

/// One image of a list for several platforms.
pub struct ManifestListEntry {
    pub digest: String,
    pub architecture: String,
    pub os: String,
}

/// Whether a content type is that of a list for several platforms.
pub open spec fn lists_platforms(content_type: Seq<char>) -> bool {
    has_run(content_type, "manifest.list"@) || has_run(content_type, "image.index"@)
}

/// Whether an entry is for the platform images are run on.
pub open spec fn fits(e: ManifestListEntry) -> bool {
    e.architecture@ == "amd64"@ && e.os@ == "linux"@
}

/// Whether a manifest reply is a list for several platforms.
pub fn is_manifest_list(content_type: &str) -> (r: bool)
    ensures
        r == lists_platforms(content_type@),
{
    contains_str(content_type, "manifest.list") || contains_str(content_type, "image.index")
}

/// The manifest to fetch from a list: the first that fits the platform.
pub fn select_platform(entries: &Vec<ManifestListEntry>, repository: &str, reference: &str) -> (r: Result<
    String,
    Error,
>)
    ensures
        match first_fitting(entries@) {
            Some(d) => r matches Ok(digest) && digest@ == d,
            None => r matches Err(Error::Registry(m)) && m@ == "no linux/amd64 entry for "@ + repository@ + ":"@
                + reference@,
        },
{
    let mut i: usize = 0;
    while i < entries.len()
        invariant
            i <= entries@.len(),
            forall|j: int| 0 <= j < i ==> !fits(#[trigger] entries@[j]),
        decreases entries.len() - i,
    {
        if str_eq(entries[i].architecture.as_str(), "amd64") && str_eq(entries[i].os.as_str(), "linux") {
            proof {
                lemma_first_fitting(entries@, i as int);
            }
            return Ok(entries[i].digest.clone());
        }
        i += 1;
    }
    proof {
        lemma_first_fitting(entries@, i as int);
    }
    Err(Error::Registry(cat4("no linux/amd64 entry for ", repository, ":", reference)))
}

/// How fetching a manifest goes, as the caller reports it.
pub enum ManifestEvent {
    /// The request failed: why.
    Failed(String),
    /// The reply's text could not be read: why.
    Unread(String),
    /// The reply came, with this content type.
    Replied(String),
    /// The reply is no list, though it should be: why.
    NoList(String),
    /// The reply is this list.
    Listed(Vec<ManifestListEntry>),
    /// The reply is no manifest, though it should be: why.
    NoManifest(String),
}

/// What to do next on the way to a manifest.
pub enum ManifestAction {
    /// Read the reply as a list for several platforms.
    ReadList,
    /// Read the reply as the manifest that was wanted.
    ReadManifest,
    /// Fetch the manifest with this digest in place of the list.
    Fetch(String),
    /// Give up.
    Fail(Error),
}

/// Whether an action gives up with this message.
pub open spec fn gives_up(action: ManifestAction, message: Seq<char>) -> bool {
    action matches ManifestAction::Fail(Error::Registry(m)) && m@ == message
}

/// The first entry for the platform images are run on.
pub open spec fn first_fitting(entries: Seq<ManifestListEntry>) -> Option<Seq<char>>
    decreases entries.len(),
{
    if entries.len() == 0 {
        None
    } else if fits(entries[0]) {
        Some(entries[0].digest@)
    } else {
        first_fitting(entries.drop_first())
    }
}

/// The first entry that fits, found at its index.
proof fn lemma_first_fitting(entries: Seq<ManifestListEntry>, i: int)
    requires
        0 <= i <= entries.len(),
        forall|j: int| 0 <= j < i ==> !fits(#[trigger] entries[j]),
        i < entries.len() ==> fits(entries[i]),
    ensures
        first_fitting(entries) == (if i < entries.len() {
            Some(entries[i].digest@)
        } else {
            None
        }),
    decreases i,
{
    if i > 0 {
        assert(!fits(entries[0]));
        assert forall|j: int| 0 <= j < i - 1 implies !fits(#[trigger] entries.drop_first()[j]) by {
            assert(entries.drop_first()[j] == entries[j + 1]);
        }
        lemma_first_fitting(entries.drop_first(), i - 1);
    }
}

/// The next step towards the manifest of `repository` that `reference`
/// names. A list for several platforms leads on to one of its manifests.
pub fn fetch_manifest(repository: &str, reference: &str, event: ManifestEvent) -> (r: ManifestAction)
    ensures
        match event {
            ManifestEvent::Failed(m) => gives_up(
                r,
                "fetching manifest "@ + repository@ + ":"@ + reference@ + ": "@ + m@,
            ),
            ManifestEvent::Unread(m) => gives_up(r, "reading manifest body: "@ + m@),
            ManifestEvent::Replied(t) => if lists_platforms(t@) {
                r is ReadList
            } else {
                r is ReadManifest
            },
            ManifestEvent::NoList(m) => gives_up(r, "parsing manifest list: "@ + m@),
            ManifestEvent::Listed(entries) => match first_fitting(entries@) {
                Some(d) => r matches ManifestAction::Fetch(digest) && digest@ == d,
                None => gives_up(r, "no linux/amd64 entry for "@ + repository@ + ":"@ + reference@),
            },
            ManifestEvent::NoManifest(m) => gives_up(r, "parsing manifest: "@ + m@),
        },
{
    match event {
        ManifestEvent::Failed(m) => {
            let head = cat5("fetching manifest ", repository, ":", reference, ": ");
            ManifestAction::Fail(Error::Registry(cat2(head.as_str(), m.as_str())))
        },
        ManifestEvent::Unread(m) => ManifestAction::Fail(
            Error::Registry(cat2("reading manifest body: ", m.as_str())),
        ),
        ManifestEvent::Replied(t) => if is_manifest_list(t.as_str()) {
            ManifestAction::ReadList
        } else {
            ManifestAction::ReadManifest
        },
        ManifestEvent::NoList(m) => ManifestAction::Fail(
            Error::Registry(cat2("parsing manifest list: ", m.as_str())),
        ),
        ManifestEvent::Listed(entries) => match select_platform(&entries, repository, reference) {
            Ok(digest) => ManifestAction::Fetch(digest),
            Err(e) => ManifestAction::Fail(e),
        },
        ManifestEvent::NoManifest(m) => ManifestAction::Fail(
            Error::Registry(cat2("parsing manifest: ", m.as_str())),
        ),
    }
}

/// The digest of some content.
pub open spec fn digest_of(data: Seq<u8>) -> Seq<char> {
    "sha256:"@ + hex_text(sha256(data))
}

/// The digest of some content.
pub fn content_digest(data: &[u8]) -> (r: String)
    ensures
        r@ == digest_of(data@),
{
    let hash = sha256_of(data);
    let hex = hex_encode(hash.as_slice());
    cat2("sha256:", hex.as_str())
}

/// What is said of content that is not what its digest promises.
pub open spec fn digest_refusal(digest: Seq<char>, data: Seq<u8>) -> Seq<char> {
    if without_prefix(digest, "sha256:"@) is None {
        "unsupported digest algorithm in "@ + quoted_text(digest) + " (only sha256 is supported)"@
    } else {
        "digest mismatch for "@ + digest + ": registry served content hashing to "@ + digest_of(data)
    }
}

/// Whether content is what its digest promises: it is accepted exactly if
/// the digest is the content's own.
pub fn verify_digest(digest: &str, data: &[u8]) -> (r: Result<(), Error>)
    ensures
        match r {
            Ok(_) => digest@ == digest_of(data@),
            Err(e) => digest@ != digest_of(data@) && (e matches Error::Registry(m) && m@ == digest_refusal(
                digest@,
                data@,
            )),
        },
{
    let actual = content_digest(data);
    match strip_prefix(digest, "sha256:") {
        None => {
            proof {
                let head = "sha256:"@;
                assert(digest_of(data@).subrange(0, head.len() as int) =~= head);
            }
            let q = quoted(digest);
            Err(
                Error::Registry(
                    cat3("unsupported digest algorithm in ", q.as_str(), " (only sha256 is supported)"),
                ),
            )
        },
        Some(_) => {
            if str_eq(digest, actual.as_str()) {
                Ok(())
            } else {
                Err(
                    Error::Registry(
                        cat4(
                            "digest mismatch for ",
                            digest,
                            ": registry served content hashing to ",
                            actual.as_str(),
                        ),
                    ),
                )
            }
        },
    }
}

/// A fetched blob, accepted exactly if it came in full and is what its digest
/// promises. `fetched` is what the request came to: the content, or why it
/// could not be read, or why there was no reply.
pub fn fetch_blob_bytes(digest: &str, fetched: Result<Result<Vec<u8>, String>, String>) -> (r: Result<Vec<u8>, Error>)
    ensures
        match fetched {
            Ok(Ok(data)) => match r {
                Ok(d) => d == data && digest@ == digest_of(data@),
                Err(e) => digest@ != digest_of(data@) && (e matches Error::Registry(m) && m@ == digest_refusal(
                    digest@,
                    data@,
                )),
            },
            Ok(Err(why)) => r matches Err(Error::Registry(m)) && m@ == "reading blob "@ + digest@ + ": "@ + why@,
            Err(why) => r matches Err(Error::Registry(m)) && m@ == "fetching blob "@ + digest@ + ": "@ + why@,
        },
{
    match fetched {
        Ok(Ok(data)) => match verify_digest(digest, data.as_slice()) {
            Ok(_) => Ok(data),
            Err(e) => Err(e),
        },
        Ok(Err(why)) => Err(Error::Registry(cat4("reading blob ", digest, ": ", why.as_str()))),
        Err(why) => Err(Error::Registry(cat4("fetching blob ", digest, ": ", why.as_str()))),
    }
}

// ---- Signatures ------------------------------------------------------------

/// Whether a pull checks the image's signature: always, except from Docker
/// Hub, which has no signatures, or where the check was waived.
pub open spec fn is_checked(reference: ReferenceView, insecure_skip_verify: bool) -> bool {
    reference.host is Some && !insecure_skip_verify
}

/// Where a manifest's signature is found.
pub fn signature_url(base_url: &str, repository: &str, reference: &str) -> (r: String)
    ensures
        r@ == manifest_url_of(base_url@, repository@, reference@) + "/signature"@,
{
    let manifest = manifest_url(base_url, repository, reference);
    cat2(manifest.as_str(), "/signature")
}

/// Where the key that signs a repository's images is found: its owner's.
pub fn key_url(base_url: &str, repository: &str) -> (r: String)
    ensures
        r@ == base_url@ + "/users/"@ + owner_of(repository@) + "/pubkey"@,
{
    cat4(base_url, "/users/", owner(repository), "/pubkey")
}

/// The text of the file that holds a manifest's signature.
pub open spec fn signature_json(signature: Seq<char>) -> Seq<char> {
    json_object(
        seq![
            json_member("algorithm"@, json_string("ed25519"@)),
            json_member("signature"@, json_string(signature)),
        ],
    )
}

/// The file that holds the signature of a pushed manifest. The signature is
/// good under the public half of the key.
pub fn sign_manifest(key: &SigningKey, manifest: &[u8]) -> (r: Vec<u8>)
    ensures
        ({
            let signature = hex_text(signature_of(key.secret@, manifest@));
            &&& r@ == encode_utf8(signature_json(signature))
            &&& refusal(hex_text(public_key_of(key.secret@)), manifest@, signature) is None
        }),
{
    let signature = sign(key, manifest);
    let algorithm = json_str("ed25519");
    let text = json_str(signature.as_str());
    let mut members: Vec<String> = Vec::new();
    members.push(json_pair("algorithm", algorithm.as_str()));
    members.push(json_pair("signature", text.as_str()));
    assert(views(members@) =~= seq![
        json_member("algorithm"@, json_string("ed25519"@)),
        json_member("signature"@, json_string(signature@)),
    ]);
    let whole = json_map(&members);
    bytes_of(whole.as_str())
}

/// Whether a pulled manifest may be used. `key` is what fetching the owner's
/// key came to, `signature` what fetching the manifest's signature came to.
/// Where the signature is to be checked, only a good one goes through; the
/// result tells whether one was checked.
pub fn verify_signature(
    reference: &Reference,
    insecure_skip_verify: bool,
    manifest: &[u8],
    key: &Result<String, String>,
    signature: &Result<String, String>,
) -> (r: Result<bool, Error>)
    ensures
        if !is_checked(reference@, insecure_skip_verify) {
            r == Ok::<bool, Error>(false)
        } else {
            match (key, signature) {
                (Err(why), _) => r matches Err(Error::Registry(m)) && m@ == "fetching public key for "@
                    + reference@.repository + ": "@ + why@,
                (_, Err(why)) => r matches Err(Error::Registry(m)) && m@ == "fetching signature for "@
                    + reference@.repository + ":"@ + reference@.tag + ": "@ + why@,
                (Ok(k), Ok(s)) => match refusal(k@, manifest@, s@) {
                    None => r == Ok::<bool, Error>(true),
                    Some(why) => r matches Err(Error::Registry(m)) && m@ == "verifying "@ + reference@.repository
                        + ":"@ + reference@.tag + ": "@ + why,
                },
            }
        },
{
    if reference.host.is_none() || insecure_skip_verify {
        return Ok(false);
    }
    let repository = reference.repository.as_str();
    let tag = reference.tag.as_str();
    match key {
        Err(why) => Err(Error::Registry(cat4("fetching public key for ", repository, ": ", why.as_str()))),
        Ok(k) => match signature {
            Err(why) => {
                let head = cat5("fetching signature for ", repository, ":", tag, ": ");
                Err(Error::Registry(cat2(head.as_str(), why.as_str())))
            },
            Ok(s) => match verify(k.as_str(), manifest, s.as_str()) {
                Ok(_) => Ok(true),
                Err(why) => {
                    let head = cat5("verifying ", repository, ":", tag, ": ");
                    Err(Error::Registry(cat2(head.as_str(), why.as_str())))
                },
            },
        },
    }
}

// ---- Pulling ---------------------------------------------------------------

/// The part of a remote image's configuration that is kept.
pub struct ContainerConfig {
    pub env: Vec<String>,
    pub cmd: Option<Vec<String>>,
    pub working_dir: Option<String>,
    /// `<port>/<protocol>`, in any order.
    pub exposed_ports: Vec<String>,
}

/// The mathematical content of a [`ContainerConfig`].
#[verifier::ext_equal]
pub struct ContainerView {
    pub env: Seq<Seq<char>>,
    pub cmd: Option<Seq<Seq<char>>>,
    pub working_dir: Option<Seq<char>>,
    pub exposed_ports: Seq<Seq<char>>,
}

impl View for ContainerConfig {
    type V = ContainerView;

    open spec fn view(&self) -> ContainerView {
        ContainerView {
            env: views(self.env@),
            cmd: match self.cmd {
                Some(words) => Some(views(words@)),
                None => None,
            },
            working_dir: opt_text(self.working_dir),
            exposed_ports: views(self.exposed_ports@),
        }
    }
}

/// The variables that `NAME=value` texts set; others are dropped.
pub open spec fn env_pairs(texts: Seq<Seq<char>>) -> Seq<(Seq<char>, Seq<char>)>
    decreases texts.len(),
{
    if texts.len() == 0 {
        Seq::empty()
    } else {
        let before = env_pairs(texts.drop_last());
        match cut_first(texts.last(), '=') {
            Some(p) => before.push(p),
            None => before,
        }
    }
}

/// The port and protocol of a `<port>/<protocol>` text.
pub open spec fn port_of(text: Seq<char>) -> Option<(u16, Seq<char>)> {
    match cut_first(text, '/') {
        Some((port, protocol)) => match parsed_unsigned(port, 0xffff) {
            Some(n) => Some((n as u16, protocol)),
            None => None,
        },
        None => None,
    }
}

/// The ports that `<port>/<protocol>` texts expose; others are dropped.
pub open spec fn port_pairs(texts: Seq<Seq<char>>) -> Seq<(u16, Seq<char>)>
    decreases texts.len(),
{
    if texts.len() == 0 {
        Seq::empty()
    } else {
        let before = port_pairs(texts.drop_last());
        match port_of(texts.last()) {
            Some(p) => before.push(p),
            None => before,
        }
    }
}

/// The command that a remote image's words stand for: what follows
/// `/bin/sh -c` if that is all they are, else the words joined by blanks.
pub open spec fn command_of(words: Seq<Seq<char>>) -> Seq<char> {
    if words.len() == 3 && words[0] == "/bin/sh"@ && words[1] == "-c"@ {
        words[2]
    } else {
        joined(words, " "@)
    }
}

/// The working directory that a remote image's stands for: the root where it
/// is empty or not given.
pub open spec fn working_directory(dir: Option<Seq<char>>) -> Seq<char> {
    match dir {
        Some(d) if d.len() > 0 => d,
        _ => "/"@,
    }
}

/// The configuration that a remote image's becomes.
pub open spec fn converted_config(c: ContainerView) -> ConfigView {
    ConfigView {
        env: env_pairs(c.env),
        cmd: match c.cmd {
            Some(words) => Some(command_of(words)),
            None => None,
        },
        workdir: working_directory(c.working_dir),
        exposed_ports: port_pairs(c.exposed_ports),
    }
}

/// The command that a remote image's words stand for.
fn command(words: &Vec<String>) -> (r: String)
    ensures
        r@ == command_of(views(words@)),
{
    if words.len() == 3 && str_eq(words[0].as_str(), "/bin/sh") && str_eq(words[1].as_str(), "-c") {
        words[2].clone()
    } else {
        join(words, " ")
    }
}

/// The configuration that a remote image's becomes.
pub fn convert_config(c: &ContainerConfig) -> (r: ImageConfig)
    ensures
        r@ == converted_config(c@),
{
    let ghost texts = views(c.env@);
    let mut env: Vec<(String, String)> = Vec::new();
    let mut i: usize = 0;
    assert(pair_texts(env@) =~= env_pairs(texts.take(0)));
    while i < c.env.len()
        invariant
            i <= c.env@.len(),
            texts == views(c.env@),
            pair_texts(env@) == env_pairs(texts.take(i as int)),
        decreases c.env.len() - i,
    {
        proof {
            assert(texts.take(i + 1).drop_last() =~= texts.take(i as int));
            assert(texts.take(i + 1).last() == c.env@[i as int]@);
        }
        match split_once(c.env[i].as_str(), '=') {
            Some((k, v)) => {
                let pair = (k.to_owned(), v.to_owned());
                assert(pair_texts(env@.push(pair)) =~= pair_texts(env@).push((k@, v@)));
                env.push(pair);
            },
            None => {},
        }
        i += 1;
    }
    assert(texts.take(i as int) =~= texts);
    let ghost ports = views(c.exposed_ports@);
    let mut exposed_ports: Vec<(u16, String)> = Vec::new();
    let mut k: usize = 0;
    assert(port_texts(exposed_ports@) =~= port_pairs(ports.take(0)));
    while k < c.exposed_ports.len()
        invariant
            k <= c.exposed_ports@.len(),
            ports == views(c.exposed_ports@),
            port_texts(exposed_ports@) == port_pairs(ports.take(k as int)),
        decreases c.exposed_ports.len() - k,
    {
        proof {
            assert(ports.take(k + 1).drop_last() =~= ports.take(k as int));
            assert(ports.take(k + 1).last() == c.exposed_ports@[k as int]@);
        }
        match split_once(c.exposed_ports[k].as_str(), '/') {
            Some((port, protocol)) => match parse_unsigned(port, 0xffff) {
                Some(n) => {
                    let pair = (n as u16, protocol.to_owned());
                    assert(port_texts(exposed_ports@.push(pair)) =~= port_texts(exposed_ports@).push(
                        (n as u16, protocol@),
                    ));
                    exposed_ports.push(pair);
                },
                None => {},
            },
            None => {},
        }
        k += 1;
    }
    assert(ports.take(k as int) =~= ports);
    let cmd = match &c.cmd {
        Some(words) => Some(command(words)),
        None => None,
    };
    let workdir = match &c.working_dir {
        Some(dir) => if dir.as_str().is_empty() {
            "/".to_owned()
        } else {
            dir.clone()
        },
        None => "/".to_owned(),
    };
    let r = ImageConfig { env, cmd, workdir, exposed_ports };
    assert(r@ =~= converted_config(c@));
    r
}

/// A pulled image: what to save, and the tag to write behind it.
pub struct Pulled {
    pub image: Image,
    pub save: Save,
    pub tag: FileWrite,
}

/// A pull whose layers are all in the store: the image to save, and the tag
/// under which it is known from then on.
pub fn pull(
    store: &Store,
    reference: &Reference,
    config: &ContainerConfig,
    layers: Vec<crate::store::Hash>,
    files: &Vec<String>,
) -> (r: Pulled)
    ensures
        r.image@ == (ImageView { layers: hash_bytes(layers@), config: converted_config(config@) }),
        r.save.id@ == image_id(r.image@),
        r.save.path@ == image_file(store.root@, image_id(r.image@)),
        r.save.content@ == encode_utf8(image_file_text(r.image@)),
        r.save.write == !views(files@).contains(image_file(store.root@, image_id(r.image@))),
        r.tag.dir@ == joined_path(joined_path(store.root@, "refs"@), reference@.repository),
        r.tag.path@ == joined_path(r.tag.dir@, reference@.tag),
        r.tag.content@ == encode_utf8(hex_text(image_id(r.image@))),
{
    let image = Image { layers, config: convert_config(config) };
    let save = image.save(store, files);
    let tag = store.tag(reference.repository.as_str(), reference.tag.as_str(), save.id);
    Pulled { image, save, tag }
}

// ---- Pushing ---------------------------------------------------------------

/// Where a blob upload starts.
pub fn upload_start_url(base_url: &str, repository: &str) -> (r: String)
    ensures
        r@ == base_url@ + "/v2/"@ + repository@ + "/blobs/uploads/"@,
{
    cat4(base_url, "/v2/", repository, "/blobs/uploads/")
}

/// Where an upload goes: the location the registry answered with, seen from
/// the registry where it is only a path, with the digest added to its query.
pub open spec fn upload_target(base: Seq<char>, location: Seq<char>, digest: Seq<char>) -> Seq<char> {
    let full = if "/"@.is_prefix_of(location) {
        base + location
    } else {
        location
    };
    full + (if full.contains('?') { "&"@ } else { "?"@ }) + "digest="@ + digest
}

/// Where to send a blob, given the location the registry answered with.
pub fn upload_url(base_url: &str, location: &Option<String>, digest: &str) -> (r: Result<String, Error>)
    ensures
        match opt_text(*location) {
            Some(l) => r matches Ok(u) && u@ == upload_target(base_url@, l, digest@),
            None => r matches Err(Error::Registry(m)) && m@ == "registry did not return an upload Location"@,
        },
{
    match location {
        None => Err(Error::Registry("registry did not return an upload Location".to_owned())),
        Some(l) => {
            let full = if starts_with(l.as_str(), "/") {
                cat2(base_url, l.as_str())
            } else {
                l.clone()
            };
            let separator = if contains_char(full.as_str(), '?') { "&" } else { "?" };
            Ok(cat4(full.as_str(), separator, "digest=", digest))
        },
    }
}

/// How uploading a blob goes, as the caller reports it.
pub enum UploadEvent {
    /// Nothing has been sent yet.
    Begin,
    /// Whether the registry has the blob already.
    Probed(bool),
    /// What starting an upload came to: the reply's location, or the failure.
    Started(Result<Option<String>, String>),
    /// What sending the content came to.
    Sent(Result<(), String>),
}

/// What to do next on the way to an uploaded blob.
pub enum UploadAction {
    /// Ask for the blob at this address.
    Probe(String),
    /// Start an upload at this address.
    Start(String),
    /// Send the content to this address.
    Send(String),
    /// The upload is over.
    Done(Result<(), Error>),
}

/// Whether an upload is over with this message.
pub open spec fn upload_fails(action: UploadAction, message: Seq<char>) -> bool {
    action matches UploadAction::Done(Err(Error::Registry(m))) && m@ == message
}

/// The next step of uploading a blob: it is sent only if the registry does
/// not have it already.
pub fn push_blob(base_url: &str, repository: &str, digest: &str, event: UploadEvent) -> (r: UploadAction)
    ensures
        match event {
            UploadEvent::Begin => r matches UploadAction::Probe(u) && u@ == blob_url_of(
                base_url@,
                repository@,
                digest@,
            ),
            UploadEvent::Probed(there) => if there {
                r matches UploadAction::Done(Ok(_))
            } else {
                r matches UploadAction::Start(u) && u@ == base_url@ + "/v2/"@ + repository@ + "/blobs/uploads/"@
            },
            UploadEvent::Started(Err(why)) => upload_fails(
                r,
                "starting blob upload for "@ + digest@ + ": "@ + why@,
            ),
            UploadEvent::Started(Ok(None)) => upload_fails(r, "registry did not return an upload Location"@),
            UploadEvent::Started(Ok(Some(l))) => r matches UploadAction::Send(u) && u@ == upload_target(
                base_url@,
                l@,
                digest@,
            ),
            UploadEvent::Sent(Err(why)) => upload_fails(r, "uploading blob "@ + digest@ + ": "@ + why@),
            UploadEvent::Sent(Ok(_)) => r matches UploadAction::Done(Ok(_)),
        },
{
    match event {
        UploadEvent::Begin => UploadAction::Probe(blob_url(base_url, repository, digest)),
        UploadEvent::Probed(there) => if there {
            UploadAction::Done(Ok(()))
        } else {
            UploadAction::Start(upload_start_url(base_url, repository))
        },
        UploadEvent::Started(Err(why)) => UploadAction::Done(
            Err(Error::Registry(cat4("starting blob upload for ", digest, ": ", why.as_str()))),
        ),
        UploadEvent::Started(Ok(location)) => match upload_url(base_url, &location, digest) {
            Ok(u) => UploadAction::Send(u),
            Err(e) => UploadAction::Done(Err(e)),
        },
        UploadEvent::Sent(Err(why)) => UploadAction::Done(
            Err(Error::Registry(cat4("uploading blob ", digest, ": ", why.as_str()))),
        ),
        UploadEvent::Sent(Ok(_)) => UploadAction::Done(Ok(())),
    }
}

/// What a manifest says of a blob.
pub struct OciDescriptor {
    pub media_type: String,
    pub digest: String,
    pub size: u64,
}

/// What a manifest says of a blob, as JSON.
pub open spec fn descriptor_json(media_type: Seq<char>, digest: Seq<char>, size: nat) -> Seq<char> {
    json_object(
        seq![
            json_member("mediaType"@, json_string(media_type)),
            json_member("digest"@, json_string(digest)),
            json_member("size"@, decimal(size)),
        ],
    )
}

/// A descriptor as JSON.
pub open spec fn descriptor_text(d: OciDescriptor) -> Seq<char> {
    descriptor_json(d.media_type@, d.digest@, d.size as nat)
}

/// The JSON text of a pushed manifest.
pub open spec fn oci_manifest_json(config: OciDescriptor, layers: Seq<OciDescriptor>) -> Seq<char> {
    json_object(
        seq![
            json_member("schemaVersion"@, decimal(2)),
            json_member("mediaType"@, json_string(MANIFEST_MEDIA_TYPE@)),
            json_member("config"@, descriptor_text(config)),
            json_member("layers"@, json_array(layers.map_values(|d: OciDescriptor| descriptor_text(d)))),
        ],
    )
}

impl OciDescriptor {
    /// The descriptor of `data`.
    pub fn of(media_type: &str, data: &Vec<u8>) -> (r: OciDescriptor)
        ensures
            r.media_type@ == media_type@,
            r.digest@ == digest_of(data@),
            r.size == data@.len(),
    {
        OciDescriptor {
            media_type: media_type.to_owned(),
            digest: content_digest(data.as_slice()),
            size: data.len() as u64,
        }
    }

    /// The descriptor as JSON.
    pub fn to_json(&self) -> (r: String)
        ensures
            r@ == descriptor_text(*self),
    {
        let media_type = json_str(self.media_type.as_str());
        let digest = json_str(self.digest.as_str());
        let size = u64_text(self.size);
        let mut members: Vec<String> = Vec::new();
        members.push(json_pair("mediaType", media_type.as_str()));
        members.push(json_pair("digest", digest.as_str()));
        members.push(json_pair("size", size.as_str()));
        assert(views(members@) =~= seq![
            json_member("mediaType"@, json_string(self.media_type@)),
            json_member("digest"@, json_string(self.digest@)),
            json_member("size"@, decimal(self.size as nat)),
        ]);
        json_map(&members)
    }
}

/// The JSON text of the manifest that publishes a configuration and layers.
pub fn oci_manifest(config: &OciDescriptor, layers: &Vec<OciDescriptor>) -> (r: String)
    ensures
        r@ == oci_manifest_json(*config, layers@),
{
    let mut items: Vec<String> = Vec::new();
    let mut i: usize = 0;
    assert(views(items@) =~= layers@.take(0).map_values(|d: OciDescriptor| descriptor_text(d)));
    while i < layers.len()
        invariant
            i <= layers@.len(),
            views(items@) == layers@.take(i as int).map_values(|d: OciDescriptor| descriptor_text(d)),
        decreases layers.len() - i,
    {
        let item = layers[i].to_json();
        proof {
            assert(layers@.take(i + 1).map_values(|d: OciDescriptor| descriptor_text(d)) =~= layers@.take(
                i as int,
            ).map_values(|d: OciDescriptor| descriptor_text(d)).push(item@));
            assert(views(items@.push(item)) =~= views(items@).push(item@));
        }
        items.push(item);
        i += 1;
    }
    assert(layers@.take(i as int) =~= layers@);
    let version = u64_text(2);
    let media_type = json_str(MANIFEST_MEDIA_TYPE);
    let config_text = config.to_json();
    let layers_text = json_list(&items);
    let mut members: Vec<String> = Vec::new();
    members.push(json_pair("schemaVersion", version.as_str()));
    members.push(json_pair("mediaType", media_type.as_str()));
    members.push(json_pair("config", config_text.as_str()));
    members.push(json_pair("layers", layers_text.as_str()));
    assert(views(members@) =~= seq![
        json_member("schemaVersion"@, decimal(2)),
        json_member("mediaType"@, json_string(MANIFEST_MEDIA_TYPE@)),
        json_member("config"@, descriptor_text(*config)),
        json_member("layers"@, json_array(layers@.map_values(|d: OciDescriptor| descriptor_text(d)))),
    ]);
    json_map(&members)
}

/// `NAME=value` as JSON.
pub open spec fn env_text(p: (Seq<char>, Seq<char>)) -> Seq<char> {
    json_string(p.0 + "="@ + p.1)
}

/// `<port>/<protocol>`.
pub open spec fn port_text(p: (u16, Seq<char>)) -> Seq<char> {
    decimal(p.0 as nat) + "/"@ + p.1
}

/// The exposed ports, each once, in the order of their texts.
pub open spec fn port_names(ports: Seq<(u16, Seq<char>)>) -> Seq<Seq<char>> {
    without_repeats(names_in_order(ports.map_values(|p: (u16, Seq<char>)| port_text(p))))
}

/// What a push says of an image's configuration: the command is one for the
/// shell.
pub open spec fn pushed_config(c: ConfigView) -> ContainerView {
    ContainerView {
        env: c.env.map_values(|p: (Seq<char>, Seq<char>)| p.0 + "="@ + p.1),
        cmd: match c.cmd {
            Some(t) => Some(seq!["/bin/sh"@, "-c"@, t]),
            None => None,
        },
        working_dir: Some(c.workdir),
        exposed_ports: port_names(c.exposed_ports),
    }
}

/// Texts as a JSON array of strings.
pub open spec fn json_texts(v: Seq<Seq<char>>) -> Seq<char> {
    json_array(v.map_values(|t: Seq<char>| json_string(t)))
}

/// The members of a pushed configuration's `config` object.
pub open spec fn oci_config_members(c: ContainerView) -> Seq<Seq<char>> {
    seq![
        json_member(
            "Cmd"@,
            match c.cmd {
                Some(words) => json_texts(words),
                None => "null"@,
            },
        ),
        json_member("Env"@, json_texts(c.env)),
        json_member(
            "ExposedPorts"@,
            json_object(
                c.exposed_ports.map_values(|n: Seq<char>| json_member(n, json_object(Seq::empty()))),
            ),
        ),
        json_member(
            "WorkingDir"@,
            match c.working_dir {
                Some(dir) => json_string(dir),
                None => "null"@,
            },
        ),
    ]
}

/// The JSON text of a pushed configuration; object members are in the order
/// of their names.
pub open spec fn oci_config_json(c: ConfigView) -> Seq<char> {
    json_object(
        seq![
            json_member("architecture"@, json_string("amd64"@)),
            json_member("config"@, json_object(oci_config_members(pushed_config(c)))),
            json_member("os"@, json_string("linux"@)),
            json_member(
                "rootfs"@,
                json_object(
                    seq![
                        json_member("diff_ids"@, json_array(Seq::empty())),
                        json_member("type"@, json_string("layers"@)),
                    ],
                ),
            ),
        ],
    )
}

/// The variables of a configuration as `NAME=value` JSON strings.
fn env_texts(config: &ImageConfig) -> (r: Vec<String>)
    ensures
        views(r@) == config@.env.map_values(|p: (Seq<char>, Seq<char>)| env_text(p)),
{
    let ghost all = config@.env;
    let mut out: Vec<String> = Vec::new();
    let mut i: usize = 0;
    assert(views(out@) =~= all.take(0).map_values(|p: (Seq<char>, Seq<char>)| env_text(p)));
    while i < config.env.len()
        invariant
            i <= config.env@.len(),
            all == config@.env,
            views(out@) == all.take(i as int).map_values(|p: (Seq<char>, Seq<char>)| env_text(p)),
        decreases config.env.len() - i,
    {
        let entry = &config.env[i];
        let text = cat3(entry.0.as_str(), "=", entry.1.as_str());
        let item = json_str(text.as_str());
        proof {
            assert(all.take(i + 1).map_values(|p: (Seq<char>, Seq<char>)| env_text(p)) =~= all.take(
                i as int,
            ).map_values(|p: (Seq<char>, Seq<char>)| env_text(p)).push(item@));
            assert(views(out@.push(item)) =~= views(out@).push(item@));
        }
        out.push(item);
        i += 1;
    }
    assert(all.take(i as int) =~= all);
    out
}

/// The exposed ports as JSON object members.
fn port_members(config: &ImageConfig) -> (r: Vec<String>)
    ensures
        views(r@) == port_names(config@.exposed_ports).map_values(
            |n: Seq<char>| json_member(n, json_object(Seq::empty())),
        ),
{
    let ghost all = config@.exposed_ports;
    let mut texts: Vec<String> = Vec::new();
    let mut i: usize = 0;
    assert(views(texts@) =~= all.take(0).map_values(|p: (u16, Seq<char>)| port_text(p)));
    while i < config.exposed_ports.len()
        invariant
            i <= config.exposed_ports@.len(),
            all == config@.exposed_ports,
            views(texts@) == all.take(i as int).map_values(|p: (u16, Seq<char>)| port_text(p)),
        decreases config.exposed_ports.len() - i,
    {
        let entry = &config.exposed_ports[i];
        let port = u64_text(entry.0 as u64);
        let text = cat3(port.as_str(), "/", entry.1.as_str());
        proof {
            assert(all.take(i + 1).map_values(|p: (u16, Seq<char>)| port_text(p)) =~= all.take(i as int).map_values(
                |p: (u16, Seq<char>)| port_text(p),
            ).push(text@));
            assert(views(texts@.push(text)) =~= views(texts@).push(text@));
        }
        texts.push(text);
        i += 1;
    }
    assert(all.take(i as int) =~= all);
    let names = name_set(texts);
    let ghost sorted = views(names@);
    let nothing: Vec<String> = Vec::new();
    assert(views(nothing@) =~= Seq::<Seq<char>>::empty());
    let empty = json_map(&nothing);
    let mut out: Vec<String> = Vec::new();
    let mut k: usize = 0;
    let ghost member = |n: Seq<char>| json_member(n, json_object(Seq::empty()));
    assert(views(out@) =~= sorted.take(0).map_values(member));
    while k < names.len()
        invariant
            k <= names@.len(),
            sorted == views(names@),
            empty@ == json_object(Seq::empty()),
            member == (|n: Seq<char>| json_member(n, json_object(Seq::empty()))),
            views(out@) == sorted.take(k as int).map_values(member),
        decreases names.len() - k,
    {
        let item = json_pair(names[k].as_str(), empty.as_str());
        proof {
            assert(sorted.take(k + 1).map_values(member) =~= sorted.take(k as int).map_values(member).push(
                item@,
            ));
            assert(views(out@.push(item)) =~= views(out@).push(item@));
        }
        out.push(item);
        k += 1;
    }
    assert(sorted.take(k as int) =~= sorted);
    out
}

/// The bytes of a pushed configuration.
pub fn build_oci_config_json(config: &ImageConfig) -> (r: Vec<u8>)
    ensures
        r@ == encode_utf8(oci_config_json(config@)),
{
    let cmd = match &config.cmd {
        Some(c) => {
            let mut words: Vec<String> = Vec::new();
            words.push(json_str("/bin/sh"));
            words.push(json_str("-c"));
            words.push(json_str(c.as_str()));
            assert(views(words@) =~= seq!["/bin/sh"@, "-c"@, c@].map_values(|t: Seq<char>| json_string(t)));
            json_list(&words)
        },
        None => "null".to_owned(),
    };
    let env = env_texts(config);
    let env_list = json_list(&env);
    let ports = port_members(config);
    let ports_map = json_map(&ports);
    let workdir = json_str(config.workdir.as_str());
    let mut inner: Vec<String> = Vec::new();
    inner.push(json_pair("Cmd", cmd.as_str()));
    inner.push(json_pair("Env", env_list.as_str()));
    inner.push(json_pair("ExposedPorts", ports_map.as_str()));
    inner.push(json_pair("WorkingDir", workdir.as_str()));
    proof {
        let said = pushed_config(config@);
        assert(said.env.map_values(|t: Seq<char>| json_string(t)) =~= views(env@));
        assert(views(inner@) =~= oci_config_members(said));
    }
    let inner_map = json_map(&inner);
    let none: Vec<String> = Vec::new();
    assert(views(none@) =~= Seq::<Seq<char>>::empty());
    let diff_ids = json_list(&none);
    let layers_type = json_str("layers");
    let mut rootfs: Vec<String> = Vec::new();
    rootfs.push(json_pair("diff_ids", diff_ids.as_str()));
    rootfs.push(json_pair("type", layers_type.as_str()));
    assert(views(rootfs@) =~= seq![
        json_member("diff_ids"@, json_array(Seq::empty())),
        json_member("type"@, json_string("layers"@)),
    ]);
    let rootfs_map = json_map(&rootfs);
    let architecture = json_str("amd64");
    let os = json_str("linux");
    let mut members: Vec<String> = Vec::new();
    members.push(json_pair("architecture", architecture.as_str()));
    members.push(json_pair("config", inner_map.as_str()));
    members.push(json_pair("os", os.as_str()));
    members.push(json_pair("rootfs", rootfs_map.as_str()));
    assert(views(members@) =~= seq![
        json_member("architecture"@, json_string("amd64"@)),
        json_member("config"@, json_object(oci_config_members(pushed_config(config@)))),
        json_member("os"@, json_string("linux"@)),
        json_member(
            "rootfs"@,
            json_object(
                seq![
                    json_member("diff_ids"@, json_array(Seq::empty())),
                    json_member("type"@, json_string("layers"@)),
                ],
            ),
        ),
    ]);
    let text = json_map(&members);
    bytes_of(text.as_str())
}

/// A text with a separator is cut where the part in front of it ends, if
/// that part has none in it.
proof fn lemma_cut_apart(a: Seq<char>, c: char, b: Seq<char>)
    requires
        !a.contains(c),
    ensures
        cut_first(a + seq![c] + b, c) == Some((a, b)),
{
    let s = a + seq![c] + b;
    s.index_of_first_ensures(c);
    assert(s[a.len() as int] == c);
    let i = s.index_of_first(c)->0;
    if i < a.len() {
        assert(a[i] == c);
    }
    assert(s.take(i) =~= a);
    assert(s.skip(i + 1) =~= b);
}

/// Variables come back from the texts that set them.
proof fn lemma_env_returns(env: Seq<(Seq<char>, Seq<char>)>)
    requires
        forall|i: int| 0 <= i < env.len() ==> !(#[trigger] env[i]).0.contains('='),
    ensures
        env_pairs(env.map_values(|p: (Seq<char>, Seq<char>)| p.0 + "="@ + p.1)) == env,
    decreases env.len(),
{
    let text = |p: (Seq<char>, Seq<char>)| p.0 + "="@ + p.1;
    let texts = env.map_values(text);
    if env.len() > 0 {
        let before = env.drop_last();
        assert forall|i: int| 0 <= i < before.len() implies !(#[trigger] before[i]).0.contains('=') by {
            assert(before[i] == env[i]);
        }
        lemma_env_returns(before);
        assert(texts.drop_last() =~= before.map_values(text));
        let p = env[env.len() - 1];
        reveal_strlit("=");
        assert("="@ =~= seq!['=']);
        lemma_cut_apart(p.0, '=', p.1);
        assert(texts.last() == p.0 + seq!['='] + p.1);
        assert(env_pairs(texts) =~= env);
    }
}

/// A port comes back from its text.
proof fn lemma_port_returns(p: (u16, Seq<char>))
    ensures
        port_of(port_text(p)) == Some(p),
{
    let digits = decimal(p.0 as nat);
    crate::num::lemma_decimal(p.0 as nat);
    crate::num::decimal_parses_back(p.0 as nat, 0xffff);
    reveal_strlit("/");
    assert("/"@ =~= seq!['/']);
    assert(!digits.contains('/')) by {
        if digits.contains('/') {
            let i = choose|i: int| 0 <= i < digits.len() && digits[i] == '/';
            assert(crate::num::is_digit(digits[i]));
        }
    }
    lemma_cut_apart(digits, '/', p.1);
}

/// The ports of some texts are those of each.
proof fn lemma_ports_each(texts: Seq<Seq<char>>, p: (u16, Seq<char>))
    ensures
        port_pairs(texts).contains(p) <==> exists|i: int| 0 <= i < texts.len() && port_of(#[trigger] texts[i]) == Some(p),
    decreases texts.len(),
{
    if texts.len() > 0 {
        let before = texts.drop_last();
        let pairs = port_pairs(before);
        lemma_ports_each(before, p);
        let n = texts.len() - 1;
        assert(texts.last() == texts[n]);
        if pairs.contains(p) {
            let i = choose|i: int| 0 <= i < before.len() && port_of(#[trigger] before[i]) == Some(p);
            assert(texts[i] == before[i]);
            let k = choose|k: int| 0 <= k < pairs.len() && pairs[k] == p;
            assert(port_pairs(texts)[k] == p);
        }
        if port_of(texts[n]) == Some(p) {
            assert(port_pairs(texts) == pairs.push(p));
            assert(pairs.push(p)[pairs.len() as int] == p);
        }
        if exists|i: int| 0 <= i < texts.len() && port_of(#[trigger] texts[i]) == Some(p) {
            let i = choose|i: int| 0 <= i < texts.len() && port_of(#[trigger] texts[i]) == Some(p);
            if i < n {
                assert(before[i] == texts[i]);
            }
        }
        if port_pairs(texts).contains(p) && !pairs.contains(p) {
            let k = choose|k: int| 0 <= k < port_pairs(texts).len() && port_pairs(texts)[k] == p;
            if k < pairs.len() {
                assert(pairs[k] == p);
            }
            assert(port_of(texts[n]) == Some(p));
        }
    }
}

/// Pulling reverses pushing: converting what a push says of a configuration
/// gives back its command, its variables, its working directory and the ports
/// it exposes. An empty working directory comes back as the root. Variables
/// must have names without `=`; of ports, the order and how often one is named
/// are not kept.
pub proof fn pull_reverses_push(c: ConfigView)
    requires
        forall|i: int| 0 <= i < c.env.len() ==> !(#[trigger] c.env[i]).0.contains('='),
    ensures
        ({
            let back = converted_config(pushed_config(c));
            &&& back.cmd == c.cmd
            &&& back.env == c.env
            &&& back.workdir == if c.workdir.len() == 0 {
                "/"@
            } else {
                c.workdir
            }
            &&& forall|p: (u16, Seq<char>)| #[trigger] back.exposed_ports.contains(p) <==> c.exposed_ports.contains(p)
        }),
{
    let back = converted_config(pushed_config(c));
    lemma_env_returns(c.env);
    let text = |p: (u16, Seq<char>)| port_text(p);
    let texts = c.exposed_ports.map_values(text);
    let names = port_names(c.exposed_ports);
    assert forall|p: (u16, Seq<char>)| #[trigger] back.exposed_ports.contains(p) <==> c.exposed_ports.contains(p) by {
        lemma_ports_each(names, p);
        if c.exposed_ports.contains(p) {
            let i = choose|i: int| 0 <= i < c.exposed_ports.len() && c.exposed_ports[i] == p;
            assert(texts[i] == port_text(p));
            lemma_name_set_contents(texts, port_text(p));
            lemma_port_returns(p);
            let k = choose|k: int| 0 <= k < names.len() && names[k] == port_text(p);
            assert(port_of(names[k]) == Some(p));
        }
        if back.exposed_ports.contains(p) {
            let k = choose|k: int| 0 <= k < names.len() && port_of(#[trigger] names[k]) == Some(p);
            lemma_name_set_contents(texts, names[k]);
            let i = choose|i: int| 0 <= i < texts.len() && texts[i] == names[k];
            lemma_port_returns(c.exposed_ports[i]);
        }
    }
}

/// A pulled command keeps every word in order. One that a shell was to run is
/// the text for that shell; of any other, cutting the command at its blanks
/// gives the words back where none of them holds a blank, and one more word
/// stands behind one more blank whatever it holds.
pub proof fn pulled_commands_keep_their_words(c: ContainerView, words: Seq<Seq<char>>)
    requires
        c.cmd == Some(words),
        words.len() > 0,
    ensures
        ({
            let cmd = converted_config(c).cmd;
            let shell = words.len() == 3 && words[0] == "/bin/sh"@ && words[1] == "-c"@;
            &&& shell ==> cmd == Some(words[2])
            &&& !shell && (forall|i: int| 0 <= i < words.len() ==> !(#[trigger] words[i]).contains(' ')) ==> cmd is Some
                && pieces(cmd->0, ' ') == words
            &&& !shell && words.len() == 1 ==> cmd == Some(words[0])
            &&& !shell && words.len() > 1 && words.len() != 4 ==> cmd == Some(
                converted_config(ContainerView { cmd: Some(words.drop_last()), ..c }).cmd->0 + seq![' '] + words.last(),
            )
            &&& words.len() == 4 ==> cmd == Some(
                words[0] + seq![' '] + words[1] + seq![' '] + words[2] + seq![' '] + words[3],
            )
        }),
{
    reveal_strlit(" ");
    assert(" "@ =~= seq![' ']);
    let shell = words.len() == 3 && words[0] == "/bin/sh"@ && words[1] == "-c"@;
    if !shell && (forall|i: int| 0 <= i < words.len() ==> !(#[trigger] words[i]).contains(' ')) {
        joined_pieces_come_back(words, ' ');
    }
    if words.len() == 4 {
        reveal_with_fuel(joined, 4);
        assert(words.drop_last()[0] == words[0]);
    }
}

/// No command is made up: an image without one has none after the pull.
pub proof fn no_command_is_made_up(c: ContainerView)
    ensures
        converted_config(c).cmd is None <==> c.cmd is None,
{
}

/// A pulled image has the variables that its texts set, in order, and nothing
/// else: the texts of two lists set what each of them sets, one with a `=`
/// sets what is in front of the first to what is behind it, and one without
/// sets nothing.
pub proof fn pulled_variables_are_those_given(c: ContainerView, a: Seq<Seq<char>>, b: Seq<Seq<char>>)
    ensures
        ({
            let set = |texts: Seq<Seq<char>>| converted_config(ContainerView { env: texts, ..c }).env;
            &&& set(a + b) == set(a) + set(b)
            &&& set(Seq::empty()) == Seq::<(Seq<char>, Seq<char>)>::empty()
            &&& forall|k: Seq<char>, v: Seq<char>|
                !k.contains('=') ==> #[trigger] set(seq![k + seq!['='] + v]) == seq![(k, v)]
            &&& forall|t: Seq<char>|
                !t.contains('=') ==> #[trigger] set(seq![t]) == Seq::<(Seq<char>, Seq<char>)>::empty()
        }),
{
    lemma_variables_follow(a, b);
    let set = |texts: Seq<Seq<char>>| converted_config(ContainerView { env: texts, ..c }).env;
    assert forall|k: Seq<char>, v: Seq<char>| !k.contains('=') implies #[trigger] set(seq![k + seq!['='] + v])
        == seq![(k, v)] by {
        lemma_cut_apart(k, '=', v);
        let one = seq![k + seq!['='] + v];
        assert(one.drop_last() =~= Seq::<Seq<char>>::empty());
        reveal_with_fuel(env_pairs, 2);
        assert(env_pairs(one) =~= seq![(k, v)]);
    }
    assert forall|t: Seq<char>| !t.contains('=') implies #[trigger] set(seq![t]) == Seq::<
        (Seq<char>, Seq<char>),
    >::empty() by {
        t.index_of_first_ensures('=');
        let one = seq![t];
        assert(one.drop_last() =~= Seq::<Seq<char>>::empty());
        reveal_with_fuel(env_pairs, 2);
    }
}

/// The variables of two lists follow one another.
proof fn lemma_variables_follow(a: Seq<Seq<char>>, b: Seq<Seq<char>>)
    ensures
        env_pairs(a + b) == env_pairs(a) + env_pairs(b),
    decreases b.len(),
{
    if b.len() == 0 {
        assert(a + b =~= a);
        assert(env_pairs(a) + env_pairs(b) =~= env_pairs(a));
    } else {
        lemma_variables_follow(a, b.drop_last());
        assert((a + b).drop_last() =~= a + b.drop_last());
        assert((a + b).last() == b.last());
        assert(env_pairs(a + b) =~= env_pairs(a) + env_pairs(b));
    }
}

/// A pulled image exposes the ports that its texts name, in order, and nothing
/// else: the texts of two lists name what each of them names, a number, a
/// slash and a protocol name that port, and a text without a slash or without
/// a number in front of it names none.
pub proof fn pulled_ports_are_those_given(c: ContainerView, a: Seq<Seq<char>>, b: Seq<Seq<char>>)
    ensures
        ({
            let named = |texts: Seq<Seq<char>>| converted_config(ContainerView { exposed_ports: texts, ..c }).exposed_ports;
            &&& named(a + b) == named(a) + named(b)
            &&& named(Seq::empty()) == Seq::<(u16, Seq<char>)>::empty()
            &&& forall|n: u16, p: Seq<char>|
                #[trigger] named(seq![decimal(n as nat) + seq!['/'] + p]) == seq![(n, p)]
            &&& forall|t: Seq<char>|
                (!t.contains('/') || parsed_unsigned(t.take(t.index_of_first('/')->0), 0xffff) is None)
                    ==> #[trigger] named(seq![t]) == Seq::<(u16, Seq<char>)>::empty()
        }),
{
    lemma_ports_follow(a, b);
    let named = |texts: Seq<Seq<char>>| converted_config(ContainerView { exposed_ports: texts, ..c }).exposed_ports;
    assert forall|n: u16, p: Seq<char>| #[trigger] named(seq![decimal(n as nat) + seq!['/'] + p]) == seq![(n, p)] by {
        let one = seq![decimal(n as nat) + seq!['/'] + p];
        reveal_strlit("/");
        assert("/"@ =~= seq!['/']);
        lemma_port_returns((n, p));
        assert(one.drop_last() =~= Seq::<Seq<char>>::empty());
        reveal_with_fuel(port_pairs, 2);
        assert(port_pairs(one) =~= seq![(n, p)]);
    }
    assert forall|t: Seq<char>|
        (!t.contains('/') || parsed_unsigned(t.take(t.index_of_first('/')->0), 0xffff) is None) implies #[trigger] named(
        seq![t],
    ) == Seq::<(u16, Seq<char>)>::empty() by {
        t.index_of_first_ensures('/');
        let one = seq![t];
        assert(one.drop_last() =~= Seq::<Seq<char>>::empty());
        reveal_with_fuel(port_pairs, 2);
    }
}

/// The ports of two lists follow one another.
proof fn lemma_ports_follow(a: Seq<Seq<char>>, b: Seq<Seq<char>>)
    ensures
        port_pairs(a + b) == port_pairs(a) + port_pairs(b),
    decreases b.len(),
{
    if b.len() == 0 {
        assert(a + b =~= a);
        assert(port_pairs(a) + port_pairs(b) =~= port_pairs(a));
    } else {
        lemma_ports_follow(a, b.drop_last());
        assert((a + b).drop_last() =~= a + b.drop_last());
        assert((a + b).last() == b.last());
        assert(port_pairs(a + b) =~= port_pairs(a) + port_pairs(b));
    }
}

/// A push once its layers are packed: the configuration blob that follows
/// them, and the manifest that goes last and publishes the image.
pub struct Push {
    pub layers: Vec<OciDescriptor>,
    pub config: OciDescriptor,
    pub config_data: Vec<u8>,
    pub manifest_url: String,
    pub manifest: Vec<u8>,
}

/// Whether the descriptors are those of the packed layers.
pub open spec fn describes(descriptors: Seq<OciDescriptor>, layers: Seq<Vec<u8>>) -> bool {
    &&& descriptors.len() == layers.len()
    &&& forall|i: int|
        0 <= i < layers.len() ==> (#[trigger] descriptors[i]).media_type@ == LAYER_MEDIA_TYPE@
            && descriptors[i].digest@ == digest_of(layers[i]@) && descriptors[i].size == layers[i]@.len()
}

/// What pushing an image with these packed layers takes.
pub fn push(reference: &Reference, config: &ImageConfig, layers: &Vec<Vec<u8>>) -> (r: Push)
    ensures
        describes(r.layers@, layers@),
        r.config_data@ == encode_utf8(oci_config_json(config@)),
        r.config.media_type@ == CONFIG_MEDIA_TYPE@,
        r.config.digest@ == digest_of(r.config_data@),
        r.config.size == r.config_data@.len(),
        r.manifest_url@ == manifest_url_of(
            registry_url(reference@.host),
            reference@.repository,
            reference@.tag,
        ),
        r.manifest@ == encode_utf8(oci_manifest_json(r.config, r.layers@)),
{
    let mut descriptors: Vec<OciDescriptor> = Vec::new();
    let mut i: usize = 0;
    while i < layers.len()
        invariant
            i <= layers@.len(),
            describes(descriptors@, layers@.take(i as int)),
        decreases layers.len() - i,
    {
        let d = OciDescriptor::of(LAYER_MEDIA_TYPE, &layers[i]);
        proof {
            assert forall|j: int| 0 <= j < i + 1 implies (#[trigger] descriptors@.push(d)[j]).media_type@
                == LAYER_MEDIA_TYPE@ && descriptors@.push(d)[j].digest@ == digest_of(layers@.take(i + 1)[j]@)
                && descriptors@.push(d)[j].size == layers@.take(i + 1)[j]@.len() by {
                if j < i {
                    assert(descriptors@[j].digest@ == digest_of(layers@.take(i as int)[j]@));
                }
            }
        }
        descriptors.push(d);
        i += 1;
    }
    assert(layers@.take(i as int) =~= layers@);
    let config_data = build_oci_config_json(config);
    let described = OciDescriptor::of(CONFIG_MEDIA_TYPE, &config_data);
    let base = reference.base_url();
    let url = manifest_url(base.as_str(), reference.repository.as_str(), reference.tag.as_str());
    let text = oci_manifest(&described, &descriptors);
    Push {
        layers: descriptors,
        config: described,
        config_data,
        manifest_url: url,
        manifest: bytes_of(text.as_str()),
    }
}

// ---- What references and lists stand for -----------------------------------

/// A reference is read by its parts. A first part that is a host, with a dot
/// or a colon in it or `localhost` itself, is the registry, and the rest is
/// the repository as it stands; a tag follows the last colon, a digest the
/// `@`, and without either it is `latest`.
pub proof fn references_with_a_host(host: Seq<char>, repository: Seq<char>, tag: Seq<char>)
    requires
        host.contains('.') || host.contains(':') || host == "localhost"@,
        !host.contains('/'),
        !host.contains('@'),
        !repository.contains('@'),
        !repository.contains(':'),
        !tag.contains('/'),
        !tag.contains(':'),
        !tag.contains('@'),
    ensures
        ({
            let name = host + seq!['/'] + repository;
            &&& reference_of(name + seq![':'] + tag) == ReferenceView { host: Some(host), repository, tag }
            &&& reference_of(name) == ReferenceView { host: Some(host), repository, tag: "latest"@ }
            &&& reference_of(name + seq!['@'] + tag) == ReferenceView { host: Some(host), repository, tag }
        }),
{
    let name = host + seq!['/'] + repository;
    lemma_free(host, seq!['/'], repository, '@');
    lemma_free(name, seq![':'], tag, '@');
    whole_texts_are_not_cut(name + seq![':'] + tag, '@');
    whole_texts_are_not_cut(name, '@');
    texts_are_cut_in_front(name, '@', tag);
    texts_are_cut_behind(name, ':', tag);
    texts_are_cut_in_front(host, '/', repository);
    lemma_host_colon(host, repository);
}

/// The last colon of a name belongs to its host, if it has one.
proof fn lemma_host_colon(host: Seq<char>, repository: Seq<char>)
    requires
        !repository.contains(':'),
    ensures
        name_and_tag(host + seq!['/'] + repository) == (host + seq!['/'] + repository, "latest"@),
{
    let name = host + seq!['/'] + repository;
    name.index_of_last_ensures(':');
    if name.contains(':') {
        let i = name.index_of_last(':')->0;
        if i > host.len() {
            assert(repository.contains(repository[i - host.len() - 1]));
        }
        assert(i < host.len());
        let tail = name.skip(i + 1);
        assert(tail[host.len() - i - 1] == '/');
        assert(tail.contains('/'));
    }
}

/// Texts put together hold no character that none of them holds.
proof fn lemma_free(a: Seq<char>, b: Seq<char>, c: Seq<char>, x: char)
    requires
        !a.contains(x),
        !b.contains(x),
        !c.contains(x),
    ensures
        !(a + b + c).contains(x),
{
    let s = a + b + c;
    if s.contains(x) {
        let k = choose|k: int| 0 <= k < s.len() && s[k] == x;
        if k < a.len() {
            assert(a.contains(a[k]));
        } else if k < a.len() + b.len() {
            assert(b.contains(b[k - a.len()]));
        } else {
            assert(c.contains(c[k - a.len() - b.len()]));
        }
    }
}

/// A reference without a host is one to Docker Hub: a name of one part is an
/// official image, and any other is the repository as it stands.
pub proof fn references_without_a_host(name: Seq<char>, owner: Seq<char>, tag: Seq<char>)
    requires
        !name.contains('/'),
        !name.contains('@'),
        !name.contains(':'),
        !owner.contains('/'),
        !owner.contains('@'),
        !owner.contains(':'),
        !owner.contains('.'),
        owner != "localhost"@,
        !tag.contains('/'),
        !tag.contains(':'),
        !tag.contains('@'),
    ensures
        ({
            let full = owner + seq!['/'] + name;
            &&& reference_of(name + seq![':'] + tag) == ReferenceView {
                host: None,
                repository: "library/"@ + name,
                tag,
            }
            &&& reference_of(name) == ReferenceView { host: None, repository: "library/"@ + name, tag: "latest"@ }
            &&& reference_of(full + seq![':'] + tag) == ReferenceView { host: None, repository: full, tag }
            &&& reference_of(full) == ReferenceView { host: None, repository: full, tag: "latest"@ }
            &&& reference_of(full + seq!['@'] + tag) == ReferenceView { host: None, repository: full, tag }
        }),
{
    let full = owner + seq!['/'] + name;
    lemma_free(owner, seq!['/'], name, '@');
    lemma_free(owner, seq!['/'], name, ':');
    lemma_free(full, seq![':'], tag, '@');
    lemma_free(name, seq![':'], tag, '@');
    whole_texts_are_not_cut(name + seq![':'] + tag, '@');
    whole_texts_are_not_cut(name, '@');
    whole_texts_are_not_cut(name, ':');
    whole_texts_are_not_cut(name, '/');
    whole_texts_are_not_cut(full + seq![':'] + tag, '@');
    whole_texts_are_not_cut(full, '@');
    whole_texts_are_not_cut(full, ':');
    texts_are_cut_in_front(full, '@', tag);
    texts_are_cut_behind(name, ':', tag);
    texts_are_cut_behind(full, ':', tag);
    texts_are_cut_in_front(owner, '/', name);
    assert(full[owner.len() as int] == '/');
    assert(full.contains('/'));
}

/// What is asked of a registry goes to the registry that the reference names,
/// over the scheme its kind has, and to Docker Hub where it names none.
pub proof fn addresses_lead_to_the_registry(h: Seq<char>, repository: Seq<char>, version: Seq<char>)
    ensures
        manifest_url_of(registry_url(Some(h)), repository, version) == "http://"@ + h + "/v2/"@ + repository
            + "/manifests/"@ + version,
        blob_url_of(registry_url(Some(h)), repository, version) == "http://"@ + h + "/v2/"@ + repository + "/blobs/"@
            + version,
        manifest_url_of(registry_url(None), repository, version) == "https://registry-1.docker.io"@ + "/v2/"@
            + repository + "/manifests/"@ + version,
        hub_token_url(repository, version) == "https://auth.docker.io/token"@ + "?service="@ + "registry.docker.io"@
            + "&scope=repository:"@ + repository + ":"@ + version,
{
}

/// From a list for several platforms the first manifest for Linux on a 64-bit
/// PC is chosen, and none if there is no such manifest.
pub proof fn the_first_fitting_platform_is_chosen(entries: Seq<ManifestListEntry>, i: int)
    requires
        0 <= i < entries.len(),
        entries[i].architecture@ == "amd64"@,
        entries[i].os@ == "linux"@,
        forall|j: int|
            0 <= j < i ==> (#[trigger] entries[j]).architecture@ != "amd64"@ || entries[j].os@ != "linux"@,
    ensures
        first_fitting(entries) == Some(entries[i].digest@),
{
    assert forall|j: int| 0 <= j < i implies !fits(#[trigger] entries[j]) by {}
    lemma_first_fitting(entries, i);
}

/// Without a manifest for the platform none is chosen.
pub proof fn no_other_platform_is_chosen(entries: Seq<ManifestListEntry>)
    requires
        forall|j: int|
            0 <= j < entries.len() ==> (#[trigger] entries[j]).architecture@ != "amd64"@ || entries[j].os@ != "linux"@,
    ensures
        first_fitting(entries) is None,
{
    assert forall|j: int| 0 <= j < entries.len() implies !fits(#[trigger] entries[j]) by {}
    lemma_first_fitting(entries, entries.len() as int);
}

/// A reply is a list exactly if its content type names one of the two kinds of
/// list, wherever in it.
pub proof fn lists_are_known_by_their_type(a: Seq<char>, b: Seq<char>, t: Seq<char>)
    ensures
        lists_platforms(a + "manifest.list"@ + b),
        lists_platforms(a + "image.index"@ + b),
        lists_platforms(t) ==> (exists|x: Seq<char>, y: Seq<char>| t == #[trigger] (x + "manifest.list"@ + y)) || (
        exists|x: Seq<char>, y: Seq<char>| t == #[trigger] (x + "image.index"@ + y)),
{
    crate::text::runs_are_found(a, "manifest.list"@, b);
    crate::text::runs_are_found(a, "image.index"@, b);
    if lists_platforms(t) {
        if has_run(t, "manifest.list"@) {
            let p = "manifest.list"@;
            let i = choose|i: int| #[trigger] crate::text::run_at(t, p, i);
            assert(t =~= t.take(i) + "manifest.list"@ + t.skip(i + p.len()));
        } else {
            let p = "image.index"@;
            let i = choose|i: int| #[trigger] crate::text::run_at(t, p, i);
            assert(t =~= t.take(i) + "image.index"@ + t.skip(i + p.len()));
        }
    }
}

/// A token is asked for where the registry says, for the service it says and
/// for the repository and action that are wanted: whatever the realm holds
/// already, the two are added to its query.
pub proof fn token_requests_say_what_is_wanted(
    realm: Seq<char>,
    service: Seq<char>,
    repository: Seq<char>,
    action: Seq<char>,
)
    ensures
        ({
            let url = realm_token_url(realm, service, repository, action);
            let wanted = "service="@ + service + "&scope=repository:"@ + repository + ":"@ + action;
            if realm.contains('?') {
                url == realm + "&"@ + wanted
            } else {
                url == realm + "?"@ + wanted
            }
        }),
{
    reveal_strlit("&scope=");
    reveal_strlit("repository:");
    reveal_strlit("&scope=repository:");
    assert("&scope="@ + "repository:"@ =~= "&scope=repository:"@);
    let wanted = "service="@ + service + "&scope=repository:"@ + repository + ":"@ + action;
    let separator = if realm.contains('?') { "&"@ } else { "?"@ };
    assert(realm_token_url(realm, service, repository, action) =~= realm + separator + wanted);
}

/// A blob is sent to where the registry says, which may be a path of its own,
/// with the digest in the query behind whatever is there already.
pub proof fn uploads_go_where_the_registry_says(base: Seq<char>, path: Seq<char>, query: Seq<char>, digest: Seq<char>)
    requires
        !base.contains('?'),
        !path.contains('?'),
    ensures
        ({
            let inner = seq!['/'] + path;
            let outer = "http://"@ + path;
            &&& upload_target(base, inner, digest) == base + inner + "?digest="@ + digest
            &&& upload_target(base, inner + seq!['?'] + query, digest) == base + (inner + seq!['?'] + query)
                + "&digest="@ + digest
            &&& upload_target(base, outer, digest) == outer + "?digest="@ + digest
            &&& upload_target(base, outer + seq!['?'] + query, digest) == outer + seq!['?'] + query + "&digest="@
                + digest
        }),
{
    reveal_strlit("/");
    reveal_strlit("?");
    reveal_strlit("&");
    reveal_strlit("digest=");
    reveal_strlit("?digest=");
    reveal_strlit("&digest=");
    reveal_strlit("http://");
    let inner = seq!['/'] + path;
    let outer = "http://"@ + path;
    let asked_inner = inner + seq!['?'] + query;
    let asked_outer = outer + seq!['?'] + query;
    assert("?"@ + "digest="@ =~= "?digest="@);
    assert("&"@ + "digest="@ =~= "&digest="@);
    assert("/"@ =~= inner.subrange(0, 1));
    assert("/"@ =~= asked_inner.subrange(0, 1));
    assert(!"/"@.is_prefix_of(outer)) by {
        assert(outer.subrange(0, 1)[0] == 'h');
    }
    assert(!"/"@.is_prefix_of(asked_outer)) by {
        assert(asked_outer.subrange(0, 1)[0] == 'h');
    }
    lemma_free(base, seq!['/'], path, '?');
    assert(base + inner =~= base + seq!['/'] + path);
    lemma_free("http://"@, Seq::empty(), path, '?');
    assert("http://"@ + Seq::<char>::empty() + path =~= outer);
    assert((base + asked_inner)[(base.len() + inner.len()) as int] == '?');
    assert((base + asked_inner).contains('?'));
    assert(asked_outer[outer.len() as int] == '?');
    assert(asked_outer.contains('?'));
    assert(upload_target(base, inner, digest) =~= base + inner + "?digest="@ + digest);
    assert(upload_target(base, asked_inner, digest) =~= base + asked_inner + "&digest="@ + digest);
    assert(upload_target(base, outer, digest) =~= outer + "?digest="@ + digest);
    assert(upload_target(base, asked_outer, digest) =~= asked_outer + "&digest="@ + digest);
}

/// A descriptor in a manifest shows media type, digest and size.
proof fn lemma_descriptor(c: OciDescriptor, d: OciDescriptor)
    ensures
        told_apart(descriptor_text(c), descriptor_text(d)),
        begins_item(descriptor_text(c)),
        descriptor_text(c) == descriptor_text(d) ==> c.media_type@ == d.media_type@ && c.digest@ == d.digest@ && c.size
            == d.size,
{
    let a = seq![
        json_member("mediaType"@, json_string(c.media_type@)),
        json_member("digest"@, json_string(c.digest@)),
        json_member("size"@, decimal(c.size as nat)),
    ];
    let b = seq![
        json_member("mediaType"@, json_string(d.media_type@)),
        json_member("digest"@, json_string(d.digest@)),
        json_member("size"@, decimal(d.size as nat)),
    ];
    strings_show_their_text(c.media_type@, d.media_type@);
    strings_show_their_text(c.digest@, d.digest@);
    numbers_show_their_value(c.size as nat, d.size as nat);
    pairs_show_their_values("mediaType"@, json_string(c.media_type@), json_string(d.media_type@));
    pairs_show_their_values("digest"@, json_string(c.digest@), json_string(d.digest@));
    pairs_show_their_values("size"@, decimal(c.size as nat), decimal(d.size as nat));
    strings_show_their_text(d.media_type@, c.media_type@);
    pairs_show_their_values("mediaType"@, json_string(d.media_type@), json_string(c.media_type@));
    assert forall|i: int| 0 <= i < a.len() && i < b.len() implies told_apart(#[trigger] a[i], b[i]) by {
        assert(i == 0 || i == 1 || i == 2);
    }
    maps_show_their_members(a, b);
    if a == b {
        assert(a[0] == b[0] && a[1] == b[1] && a[2] == b[2]);
    }
}

/// A pushed manifest shows the configuration and every layer, in order: two
/// manifests of the same text describe the same blobs.
pub proof fn manifests_show_their_blobs(
    c: OciDescriptor,
    layers: Seq<OciDescriptor>,
    d: OciDescriptor,
    others: Seq<OciDescriptor>,
)
    requires
        oci_manifest_json(c, layers) == oci_manifest_json(d, others),
    ensures
        c.media_type@ == d.media_type@ && c.digest@ == d.digest@ && c.size == d.size,
        layers.len() == others.len(),
        forall|i: int|
            0 <= i < layers.len() ==> (#[trigger] layers[i]).media_type@ == others[i].media_type@ && layers[i].digest@
                == others[i].digest@ && layers[i].size == others[i].size,
{
    let text = |d: OciDescriptor| descriptor_text(d);
    let x = layers.map_values(text);
    let y = others.map_values(text);
    let a = seq![
        json_member("schemaVersion"@, decimal(2)),
        json_member("mediaType"@, json_string(MANIFEST_MEDIA_TYPE@)),
        json_member("config"@, descriptor_text(c)),
        json_member("layers"@, json_array(x)),
    ];
    let b = seq![
        json_member("schemaVersion"@, decimal(2)),
        json_member("mediaType"@, json_string(MANIFEST_MEDIA_TYPE@)),
        json_member("config"@, descriptor_text(d)),
        json_member("layers"@, json_array(y)),
    ];
    lemma_descriptor(c, d);
    assert forall|i: int| 0 <= i < x.len() && i < y.len() implies told_apart(#[trigger] x[i], y[i]) by {
        lemma_descriptor(layers[i], others[i]);
    }
    if x.len() > 0 {
        lemma_descriptor(layers[0], layers[0]);
    }
    if y.len() > 0 {
        lemma_descriptor(others[0], others[0]);
    }
    lists_show_their_items(x, y);
    numbers_show_their_value(2, 2);
    strings_show_their_text(MANIFEST_MEDIA_TYPE@, MANIFEST_MEDIA_TYPE@);
    pairs_show_their_values("schemaVersion"@, decimal(2), decimal(2));
    pairs_show_their_values("mediaType"@, json_string(MANIFEST_MEDIA_TYPE@), json_string(MANIFEST_MEDIA_TYPE@));
    pairs_show_their_values("config"@, descriptor_text(c), descriptor_text(d));
    pairs_show_their_values("layers"@, json_array(x), json_array(y));
    assert forall|i: int| 0 <= i < a.len() && i < b.len() implies told_apart(#[trigger] a[i], b[i]) by {
        assert(i == 0 || i == 1 || i == 2 || i == 3);
    }
    maps_show_their_members(a, b);
    assert(a[2] == b[2] && a[3] == b[3]);
    assert(x == y);
    assert(layers.len() == x.len() && others.len() == y.len());
    assert forall|i: int| 0 <= i < layers.len() implies (#[trigger] layers[i]).media_type@ == others[i].media_type@
        && layers[i].digest@ == others[i].digest@ && layers[i].size == others[i].size by {
        assert(x[i] == y[i]);
        lemma_descriptor(layers[i], others[i]);
    }
}

/// A pushed configuration shows all that is said of the image: two
/// configurations of the same text set the same variables in the same order,
/// and name the same command, working directory and ports.
pub proof fn pushed_configurations_show_the_image(c: ConfigView, d: ConfigView)
    requires
        oci_config_json(c) == oci_config_json(d),
        forall|i: int| 0 <= i < c.env.len() ==> !(#[trigger] c.env[i]).0.contains('='),
        forall|i: int| 0 <= i < d.env.len() ==> !(#[trigger] d.env[i]).0.contains('='),
    ensures
        c.env == d.env,
        c.cmd == d.cmd,
        c.workdir == d.workdir,
        forall|p: (u16, Seq<char>)| #[trigger] c.exposed_ports.contains(p) <==> d.exposed_ports.contains(p),
{
    let p = pushed_config(c);
    let q = pushed_config(d);
    lemma_config_members(p, q);
    let inner_c = json_object(oci_config_members(p));
    let inner_d = json_object(oci_config_members(q));
    let rootfs = json_object(
        seq![
            json_member("diff_ids"@, json_array(Seq::empty())),
            json_member("type"@, json_string("layers"@)),
        ],
    );
    let a = seq![
        json_member("architecture"@, json_string("amd64"@)),
        json_member("config"@, inner_c),
        json_member("os"@, json_string("linux"@)),
        json_member("rootfs"@, rootfs),
    ];
    let b = seq![
        json_member("architecture"@, json_string("amd64"@)),
        json_member("config"@, inner_d),
        json_member("os"@, json_string("linux"@)),
        json_member("rootfs"@, rootfs),
    ];
    strings_show_their_text("amd64"@, "amd64"@);
    strings_show_their_text("linux"@, "linux"@);
    pairs_show_their_values("architecture"@, json_string("amd64"@), json_string("amd64"@));
    pairs_show_their_values("config"@, inner_c, inner_d);
    pairs_show_their_values("os"@, json_string("linux"@), json_string("linux"@));
    assert(told_apart(rootfs, rootfs));
    pairs_show_their_values("rootfs"@, rootfs, rootfs);
    assert forall|i: int| 0 <= i < a.len() && i < b.len() implies told_apart(#[trigger] a[i], b[i]) by {
        assert(i == 0 || i == 1 || i == 2 || i == 3);
    }
    maps_show_their_members(a, b);
    assert(a[1] == b[1]);
    assert(p == q);
    pull_reverses_push(c);
    pull_reverses_push(d);
    assert(p.working_dir == q.working_dir);
    assert forall|e: (u16, Seq<char>)| #[trigger] c.exposed_ports.contains(e) <==> d.exposed_ports.contains(e) by {
        assert(converted_config(p).exposed_ports.contains(e) <==> c.exposed_ports.contains(e));
        assert(converted_config(q).exposed_ports.contains(e) <==> d.exposed_ports.contains(e));
    }
}

/// The objects of two configurations show what they say.
proof fn lemma_config_members(p: ContainerView, q: ContainerView)
    ensures
        told_apart(json_object(oci_config_members(p)), json_object(oci_config_members(q))),
        json_object(oci_config_members(p)) == json_object(oci_config_members(q)) ==> p == q,
{
    let a = oci_config_members(p);
    let b = oci_config_members(q);
    let words = |c: Option<Seq<Seq<char>>>| match c {
        Some(w) => json_texts(w),
        None => "null"@,
    };
    let dir = |d: Option<Seq<char>>| json_opt_string(d);
    lemma_optional_lists(p.cmd, q.cmd);
    string_lists_show_their_texts(p.env, q.env);
    optional_strings_show_their_text(p.working_dir, q.working_dir);
    lemma_port_objects(p.exposed_ports, q.exposed_ports);
    let member = |n: Seq<char>| json_member(n, json_object(Seq::empty()));
    let ports_p = json_object(p.exposed_ports.map_values(member));
    let ports_q = json_object(q.exposed_ports.map_values(member));
    pairs_show_their_values("Cmd"@, words(p.cmd), words(q.cmd));
    pairs_show_their_values("Env"@, json_texts(p.env), json_texts(q.env));
    pairs_show_their_values("ExposedPorts"@, ports_p, ports_q);
    pairs_show_their_values("WorkingDir"@, dir(p.working_dir), dir(q.working_dir));
    lemma_optional_lists(q.cmd, p.cmd);
    pairs_show_their_values("Cmd"@, words(q.cmd), words(p.cmd));
    assert(a[2] == json_member("ExposedPorts"@, ports_p) && b[2] == json_member("ExposedPorts"@, ports_q));
    assert forall|i: int| 0 <= i < a.len() && i < b.len() implies told_apart(#[trigger] a[i], b[i]) by {
        assert(i == 0 || i == 1 || i == 2 || i == 3);
    }
    maps_show_their_members(a, b);
    if a == b {
        assert(a[0] == b[0] && a[1] == b[1] && a[2] == b[2] && a[3] == b[3]);
        assert(p =~= q);
    }
}

/// Lists of strings that may be missing show what they say.
proof fn lemma_optional_lists(c: Option<Seq<Seq<char>>>, d: Option<Seq<Seq<char>>>)
    ensures
        ({
            let words = |c: Option<Seq<Seq<char>>>| match c {
                Some(w) => json_texts(w),
                None => "null"@,
            };
            told_apart(words(c), words(d)) && (words(c) == words(d) ==> c == d)
        }),
{
    reveal_strlit("null");
    if c is Some && d is Some {
        string_lists_show_their_texts(c->0, d->0);
    } else {
        let words = |c: Option<Seq<Seq<char>>>| match c {
            Some(w) => json_texts(w),
            None => "null"@,
        };
        let s = words(c);
        let t = words(d);
        assert(c is Some ==> s[0] == '[');
        assert(d is Some ==> t[0] == '[');
        assert(c is None && d is None || s[0] != t[0]);
        assert forall|x: Seq<char>, y: Seq<char>| #[trigger] (s + x) == #[trigger] (t + y) implies s == t by {
            assert((s + x)[0] == s[0] && (t + y)[0] == t[0]);
        }
    }
}

/// Objects of names show the names.
proof fn lemma_port_objects(c: Seq<Seq<char>>, d: Seq<Seq<char>>)
    ensures
        ({
            let member = |n: Seq<char>| json_member(n, json_object(Seq::empty()));
            let s = json_object(c.map_values(member));
            let t = json_object(d.map_values(member));
            told_apart(s, t) && (s == t ==> c == d)
        }),
{
    let none = json_object(Seq::empty());
    let member = |n: Seq<char>| json_member(n, json_object(Seq::empty()));
    let a = c.map_values(member);
    let b = d.map_values(member);
    assert(told_apart(none, none));
    assert forall|i: int| 0 <= i < a.len() && i < b.len() implies told_apart(#[trigger] a[i], b[i]) by {
        pairs_show_their_names(c[i], none, d[i], none);
    }
    maps_show_their_members(a, b);
    if a == b {
        assert(c.len() == a.len() && d.len() == b.len());
        assert forall|i: int| 0 <= i < c.len() implies c[i] == d[i] by {
            assert(a[i] == b[i]);
            pairs_show_their_names(c[i], none, d[i], none);
        }
        assert(c =~= d);
    }
}

/// A push describes each packed layer, in the order of the layers, by its kind,
/// its own digest and its own length.
pub proof fn pushes_describe_every_layer(descriptors: Seq<OciDescriptor>, layers: Seq<Vec<u8>>, i: int)
    requires
        describes(descriptors, layers),
        0 <= i < layers.len(),
    ensures
        descriptors.len() == layers.len(),
        descriptors[i].media_type@ == "application/vnd.oci.image.layer.v1.tar+gzip"@,
        descriptors[i].digest@ == "sha256:"@ + hex_text(crate::store::sha256(layers[i]@)),
        descriptors[i].size == layers[i]@.len(),
        CONFIG_MEDIA_TYPE@ == "application/vnd.oci.image.config.v1+json"@,
{
}

/// Signatures are checked on every pull from a registry of one's own, unless
/// the check was waived, and on none from the public one.
pub proof fn signatures_are_checked_unless_waived(host: Seq<char>, repository: Seq<char>, tag: Seq<char>)
    ensures
        is_checked(ReferenceView { host: Some(host), repository, tag }, false),
        !is_checked(ReferenceView { host: Some(host), repository, tag }, true),
        !is_checked(ReferenceView { host: None, repository, tag }, false),
{
}

/// The first step towards a token asks a registry of one's own how it wants
/// clients to prove themselves, and goes straight to the known place for the
/// public one.
pub proof fn tokens_begin_at_the_registry(
    r: TokenStep,
    host: Seq<char>,
    repository: Seq<char>,
    tag: Seq<char>,
    action: Seq<char>,
    purpose: Seq<char>,
)
    ensures
        is_first_step(r, ReferenceView { host: Some(host), repository, tag }, action, purpose) ==> (
        r matches TokenStep::Ping(u) && u@ == registry_url(Some(host)) + "/v2/"@),
        is_first_step(r, ReferenceView { host: None, repository, tag }, action, purpose) ==> (
        r matches TokenStep::Request(q) && q.url@ == hub_token_url(repository, action) && q.authorization is None),
{
}

/// A parameter of a challenge is what stands between its quotes.
pub proof fn parameters_stand_between_quotes(name: Seq<char>, value: Seq<char>, part: Seq<char>)
    ensures
        parameter(name + seq!['=', '"'] + value + seq!['"'], name) == Some(value),
        parameter(part, name) matches Some(v) ==> part == name + seq!['=', '"'] + v + seq!['"'],
{
    reveal_strlit("=\"");
    reveal_strlit("\"");
    let open = name + "=\""@;
    let close = "\""@;
    let whole = name + seq!['=', '"'] + value + seq!['"'];
    assert(whole =~= open + (value + close));
    crate::text::prefixes_and_suffixes_come_off(open, value + close, whole);
    crate::text::prefixes_and_suffixes_come_off(close, value, value + close);
    if let Some(v) = parameter(part, name) {
        let rest = without_prefix(part, open)->0;
        crate::text::prefixes_and_suffixes_come_off(open, rest, part);
        crate::text::prefixes_and_suffixes_come_off(close, v, rest);
        assert(part =~= name + seq!['=', '"'] + v + seq!['"']);
    }
}

} // verus!
