//! Images: an ordered stack of layers plus the configuration a container
//! started from it gets. An image's id is the hash of its own JSON text, so
//! the same layers and configuration are the same image on any machine.

use crate::codec::{
    bytes_of, hex_text, hex_text_is_injective, json_array, json_list, json_map, json_member, json_object, json_opt_str, json_opt_string,
    json_pair, json_str, json_string,
};
use crate::error::Error;
use crate::num::{decimal, u64_text};
use crate::paths::{joined_path, path_join};
use crate::pretty::{
    add_line, array_lines, arrays_show_their_items, begins_item, lists_show_their_items, maps_show_their_members,
    pairs_show_their_values, laid_array, laid_member, laid_object, members_show_their_values,
    numbers_show_their_value, object_lines, objects_show_their_members, optional_strings_show_their_text,
    strings_show_their_text, told_apart,
};
use crate::store::{hash_named, listed, sha256, FileWrite, Store};
use crate::text::{
    cat2, contains_char, cut_last, lemma_pieces_behind, lemma_pieces_nonempty, pieces, rsplit_once, str_eq, trimmed,
    views,
};
use vstd::prelude::*;
use vstd::utf8::{encode_utf8, encode_utf8_decode_utf8};

verus! {

/// A repository name in full: a name without a slash is an official image.
pub open spec fn full_repository(name: Seq<char>) -> Seq<char> {
    if name.contains('/') {
        name
    } else {
        "library/"@ + name
    }
}

/// The name and tag of a reference. A colon whose right side holds a slash
/// belongs to a host and port, not to a tag; without a tag it is `latest`.
pub open spec fn name_and_tag(s: Seq<char>) -> (Seq<char>, Seq<char>) {
    match cut_last(s, ':') {
        Some((name, tag)) => if tag.contains('/') {
            (s, "latest"@)
        } else {
            (name, tag)
        },
        None => (s, "latest"@),
    }
}

/// A repository name in full.
pub fn normalize_repository(name: &str) -> (r: String)
    ensures
        r@ == full_repository(name@),
{
    if contains_char(name, '/') {
        name.to_owned()
    } else {
        cat2("library/", name)
    }
}

/// The name and tag of a reference.
pub fn split_name_tag<'a>(s: &'a str) -> (r: (&'a str, &'a str))
    ensures
        (r.0@, r.1@) == name_and_tag(s@),
{
    match rsplit_once(s, ':') {
        Some((name, tag)) => {
            if contains_char(tag, '/') {
                (s, "latest")
            } else {
                (name, tag)
            }
        },
        None => (s, "latest"),
    }
}

/// The file that holds the tag a reference stands for.
pub open spec fn reference_file(root: Seq<char>, reference: Seq<char>) -> Seq<char> {
    let (name, tag) = name_and_tag(reference);
    joined_path(joined_path(joined_path(root, "refs"@), full_repository(name)), tag)
}

/// Points `reference` at `id`: the tag file to write.
pub fn tag_reference(store: &Store, id: &crate::store::Hash, reference: &str) -> (r: FileWrite)
    ensures
        r.dir@ == joined_path(
            joined_path(store.root@, "refs"@),
            full_repository(name_and_tag(reference@).0),
        ),
        r.path@ == reference_file(store.root@, reference@),
        r.content@ == encode_utf8(hex_text(id@)),
{
    let (name, tag) = split_name_tag(reference);
    let repository = normalize_repository(name);
    store.tag(repository.as_str(), tag, *id)
}

/// What a container started from an image gets.
pub struct ImageConfig {
    /// In order; a later entry overrides an earlier one of the same name.
    pub env: Vec<(String, String)>,
    /// The default command, in shell form.
    pub cmd: Option<String>,
    pub workdir: String,
    pub exposed_ports: Vec<(u16, String)>,
}

/// The mathematical content of an [`ImageConfig`].
#[verifier::ext_equal]
pub struct ConfigView {
    pub env: Seq<(Seq<char>, Seq<char>)>,
    pub cmd: Option<Seq<char>>,
    pub workdir: Seq<char>,
    pub exposed_ports: Seq<(u16, Seq<char>)>,
}

/// The texts of name and value pairs.
pub open spec fn pair_texts(v: Seq<(String, String)>) -> Seq<(Seq<char>, Seq<char>)> {
    v.map_values(|p: (String, String)| (p.0@, p.1@))
}

/// The ports and protocol texts of exposed ports.
pub open spec fn port_texts(v: Seq<(u16, String)>) -> Seq<(u16, Seq<char>)> {
    v.map_values(|p: (u16, String)| (p.0, p.1@))
}

/// The text behind an optional string.
pub open spec fn opt_text(s: Option<String>) -> Option<Seq<char>> {
    match s {
        Some(t) => Some(t@),
        None => None,
    }
}

impl View for ImageConfig {
    type V = ConfigView;

    open spec fn view(&self) -> ConfigView {
        ConfigView {
            env: pair_texts(self.env@),
            cmd: opt_text(self.cmd),
            workdir: self.workdir@,
            exposed_ports: port_texts(self.exposed_ports@),
        }
    }
}

/// A configuration with nothing set.
pub open spec fn empty_config() -> ConfigView {
    ConfigView { env: Seq::empty(), cmd: None, workdir: Seq::empty(), exposed_ports: Seq::empty() }
}

/// The value of the last entry for `key`.
pub open spec fn env_value(env: Seq<(Seq<char>, Seq<char>)>, key: Seq<char>) -> Option<Seq<char>>
    decreases env.len(),
{
    if env.len() == 0 {
        None
    } else if env.last().0 == key {
        Some(env.last().1)
    } else {
        env_value(env.drop_last(), key)
    }
}

/// A copy of `s`.
pub fn copy_opt(s: &Option<String>) -> (r: Option<String>)
    ensures
        opt_text(r) == opt_text(*s),
{
    match s {
        Some(t) => Some(t.clone()),
        None => None,
    }
}

impl Default for ImageConfig {
    fn default() -> (r: ImageConfig)
        ensures
            r@ == empty_config(),
    {
        let r = ImageConfig {
            env: Vec::new(),
            cmd: None,
            workdir: String::new(),
            exposed_ports: Vec::new(),
        };
        assert(r@ =~= empty_config());
        r
    }
}

impl ImageConfig {
    /// The value of the variable `key`: its last entry counts.
    pub fn env_get(&self, key: &str) -> (r: Option<&str>)
        ensures
            match r {
                Some(v) => env_value(self@.env, key@) == Some(v@),
                None => env_value(self@.env, key@) is None,
            },
    {
        let ghost env = self@.env;
        let mut n: usize = self.env.len();
        assert(env.take(n as int) == env);
        while n > 0
            invariant
                n <= self.env@.len(),
                env == self@.env,
                env_value(env, key@) == env_value(env.take(n as int), key@),
            decreases n,
        {
            let entry = &self.env[n - 1];
            proof {
                assert(env.take(n as int).last() == (entry.0@, entry.1@));
                assert(env.take(n as int).drop_last() == env.take(n - 1));
            }
            if str_eq(entry.0.as_str(), key) {
                return Some(entry.1.as_str());
            }
            n -= 1;
        }
        None
    }

    /// Sets the variable `key`; earlier entries for it stay but no longer count.
    pub fn env_set(&mut self, key: String, value: String)
        ensures
            final(self)@ == (ConfigView { env: old(self)@.env.push((key@, value@)), ..old(self)@ }),
    {
        self.env.push((key, value));
        assert(self@ =~= (ConfigView { env: old(self)@.env.push((key@, value@)), ..old(self)@ }));
    }

    /// A copy of the configuration.
    pub fn duplicate(&self) -> (r: ImageConfig)
        ensures
            r@ == self@,
    {
        let mut env: Vec<(String, String)> = Vec::new();
        let mut i: usize = 0;
        while i < self.env.len()
            invariant
                i <= self.env@.len(),
                pair_texts(env@) == pair_texts(self.env@).take(i as int),
            decreases self.env.len() - i,
        {
            let entry = &self.env[i];
            let pair = (entry.0.clone(), entry.1.clone());
            assert(pair_texts(env@.push(pair)) =~= pair_texts(env@).push((pair.0@, pair.1@)));
            env.push(pair);
            assert(pair_texts(self.env@).take(i + 1) =~= pair_texts(self.env@).take(i as int).push(
                (entry.0@, entry.1@),
            ));
            i += 1;
        }
        let mut exposed_ports: Vec<(u16, String)> = Vec::new();
        let mut k: usize = 0;
        while k < self.exposed_ports.len()
            invariant
                k <= self.exposed_ports@.len(),
                port_texts(exposed_ports@) == port_texts(self.exposed_ports@).take(k as int),
            decreases self.exposed_ports.len() - k,
        {
            let entry = &self.exposed_ports[k];
            let pair = (entry.0, entry.1.clone());
            assert(port_texts(exposed_ports@.push(pair)) =~= port_texts(exposed_ports@).push(
                (pair.0, pair.1@),
            ));
            exposed_ports.push(pair);
            assert(port_texts(self.exposed_ports@).take(k + 1) =~= port_texts(self.exposed_ports@).take(
                k as int,
            ).push((entry.0, entry.1@)));
            k += 1;
        }
        let r = ImageConfig { env, cmd: copy_opt(&self.cmd), workdir: self.workdir.clone(), exposed_ports };
        assert(r@ =~= self@);
        r
    }

    /// The JSON text of the configuration.
    pub fn to_json(&self) -> (r: String)
        ensures
            r@ == config_json(self@),
    {
        let members = self.members();
        json_map(&members)
    }

    /// The members of the configuration's JSON object.
    pub fn members(&self) -> (r: Vec<String>)
        ensures
            views(r@) == config_members(self@),
    {
        let mut env: Vec<String> = Vec::new();
        let mut i: usize = 0;
        while i < self.env.len()
            invariant
                i <= self.env@.len(),
                views(env@) == pair_texts(self.env@).take(i as int).map_values(
                    |p: (Seq<char>, Seq<char>)| env_json(p),
                ),
            decreases self.env.len() - i,
        {
            let entry = &self.env[i];
            let mut pair: Vec<String> = Vec::new();
            pair.push(json_str(entry.0.as_str()));
            pair.push(json_str(entry.1.as_str()));
            assert(views(pair@) =~= seq![json_string(entry.0@), json_string(entry.1@)]);
            let item = json_list(&pair);
            proof {
                let all = pair_texts(self.env@);
                assert(all.take(i + 1) =~= all.take(i as int).push((entry.0@, entry.1@)));
                assert(all.take(i + 1).map_values(|p: (Seq<char>, Seq<char>)| env_json(p)) =~= all.take(
                    i as int,
                ).map_values(|p: (Seq<char>, Seq<char>)| env_json(p)).push(item@));
                assert(views(env@.push(item)) =~= views(env@).push(item@));
            }
            env.push(item);
            i += 1;
        }
        assert(pair_texts(self.env@).take(i as int) =~= pair_texts(self.env@));
        let env_text = json_list(&env);
        let mut ports: Vec<String> = Vec::new();
        let mut k: usize = 0;
        while k < self.exposed_ports.len()
            invariant
                k <= self.exposed_ports@.len(),
                views(ports@) == port_texts(self.exposed_ports@).take(k as int).map_values(
                    |p: (u16, Seq<char>)| port_json(p),
                ),
            decreases self.exposed_ports.len() - k,
        {
            let entry = &self.exposed_ports[k];
            let mut pair: Vec<String> = Vec::new();
            pair.push(u64_text(entry.0 as u64));
            pair.push(json_str(entry.1.as_str()));
            assert(views(pair@) =~= seq![decimal(entry.0 as nat), json_string(entry.1@)]);
            let item = json_list(&pair);
            proof {
                let all = port_texts(self.exposed_ports@);
                assert(all.take(k + 1) =~= all.take(k as int).push((entry.0, entry.1@)));
                assert(all.take(k + 1).map_values(|p: (u16, Seq<char>)| port_json(p)) =~= all.take(
                    k as int,
                ).map_values(|p: (u16, Seq<char>)| port_json(p)).push(item@));
                assert(views(ports@.push(item)) =~= views(ports@).push(item@));
            }
            ports.push(item);
            k += 1;
        }
        assert(port_texts(self.exposed_ports@).take(k as int) =~= port_texts(self.exposed_ports@));
        let ports_text = json_list(&ports);
        let cmd_text = json_opt_str(&self.cmd);
        let workdir_text = json_str(self.workdir.as_str());
        let mut members: Vec<String> = Vec::new();
        members.push(json_pair("env", env_text.as_str()));
        members.push(json_pair("cmd", cmd_text.as_str()));
        members.push(json_pair("workdir", workdir_text.as_str()));
        members.push(json_pair("exposed_ports", ports_text.as_str()));
        assert(views(members@) =~= config_members(self@));
        members
    }

    /// The JSON text of the configuration as a file holds it, `depth` levels
    /// down.
    pub(crate) fn lines(&self, depth: u8) -> (r: String)
        requires
            depth + 2 < u8::MAX,
        ensures
            r@ == config_lines(self@, depth as nat),
    {
        let ghost inner = (depth + 2) as nat;
        let ghost variables = self@.env.map_values(|p: (Seq<char>, Seq<char>)| env_lines(p, inner));
        let mut env: Vec<String> = Vec::new();
        let mut i: usize = 0;
        while i < self.env.len()
            invariant
                i <= self.env@.len(),
                depth + 2 < u8::MAX,
                inner == depth + 2,
                variables == self@.env.map_values(|p: (Seq<char>, Seq<char>)| env_lines(p, inner)),
                views(env@) == variables.take(i as int),
            decreases self.env.len() - i,
        {
            let entry = &self.env[i];
            let mut pair: Vec<String> = Vec::new();
            pair.push(json_str(entry.0.as_str()));
            pair.push(json_str(entry.1.as_str()));
            assert(views(pair@) =~= seq![json_string(entry.0@), json_string(entry.1@)]);
            let item = array_lines(&pair, depth + 2);
            assert(variables[i as int] == item@);
            assert(variables.take(i + 1) =~= variables.take(i as int).push(item@));
            assert(views(env@.push(item)) =~= views(env@).push(item@));
            env.push(item);
            i += 1;
        }
        assert(variables.take(i as int) =~= variables);
        let ghost exposed = self@.exposed_ports.map_values(|p: (u16, Seq<char>)| port_lines(p, inner));
        let mut ports: Vec<String> = Vec::new();
        let mut k: usize = 0;
        while k < self.exposed_ports.len()
            invariant
                k <= self.exposed_ports@.len(),
                depth + 2 < u8::MAX,
                inner == depth + 2,
                exposed == self@.exposed_ports.map_values(|p: (u16, Seq<char>)| port_lines(p, inner)),
                views(ports@) == exposed.take(k as int),
            decreases self.exposed_ports.len() - k,
        {
            let entry = &self.exposed_ports[k];
            let mut pair: Vec<String> = Vec::new();
            pair.push(u64_text(entry.0 as u64));
            pair.push(json_str(entry.1.as_str()));
            assert(views(pair@) =~= seq![decimal(entry.0 as nat), json_string(entry.1@)]);
            let item = array_lines(&pair, depth + 2);
            assert(exposed[k as int] == item@);
            assert(exposed.take(k + 1) =~= exposed.take(k as int).push(item@));
            assert(views(ports@.push(item)) =~= views(ports@).push(item@));
            ports.push(item);
            k += 1;
        }
        assert(exposed.take(k as int) =~= exposed);
        let env_text = array_lines(&env, depth + 1);
        let cmd_text = json_opt_str(&self.cmd);
        let workdir_text = json_str(self.workdir.as_str());
        let ports_text = array_lines(&ports, depth + 1);
        let mut members: Vec<String> = Vec::new();
        add_line(&mut members, "env", env_text.as_str());
        add_line(&mut members, "cmd", cmd_text.as_str());
        add_line(&mut members, "workdir", workdir_text.as_str());
        add_line(&mut members, "exposed_ports", ports_text.as_str());
        assert(views(members@) =~= config_line_members(self@, depth as nat));
        object_lines(&members, depth)
    }
}

/// A variable as JSON: a pair of strings.
pub open spec fn env_json(p: (Seq<char>, Seq<char>)) -> Seq<char> {
    json_array(seq![json_string(p.0), json_string(p.1)])
}

/// An exposed port as JSON: the number and the protocol.
pub open spec fn port_json(p: (u16, Seq<char>)) -> Seq<char> {
    json_array(seq![decimal(p.0 as nat), json_string(p.1)])
}

/// The members of a configuration's JSON object.
pub open spec fn config_members(c: ConfigView) -> Seq<Seq<char>> {
    seq![
        json_member(
            "env"@,
            json_array(c.env.map_values(|p: (Seq<char>, Seq<char>)| env_json(p))),
        ),
        json_member("cmd"@, json_opt_string(c.cmd)),
        json_member("workdir"@, json_string(c.workdir)),
        json_member(
            "exposed_ports"@,
            json_array(c.exposed_ports.map_values(|p: (u16, Seq<char>)| port_json(p))),
        ),
    ]
}

/// The JSON text of a configuration.
pub open spec fn config_json(c: ConfigView) -> Seq<char> {
    json_object(config_members(c))
}

/// A variable as a file holds it, `depth` levels down.
pub open spec fn env_lines(p: (Seq<char>, Seq<char>), depth: nat) -> Seq<char> {
    laid_array(seq![json_string(p.0), json_string(p.1)], depth)
}

/// An exposed port as a file holds it, `depth` levels down.
pub open spec fn port_lines(p: (u16, Seq<char>), depth: nat) -> Seq<char> {
    laid_array(seq![decimal(p.0 as nat), json_string(p.1)], depth)
}

/// The members of a configuration that a file holds `depth` levels down.
pub open spec fn config_line_members(c: ConfigView, depth: nat) -> Seq<Seq<char>> {
    seq![
        laid_member(
            "env"@,
            laid_array(c.env.map_values(|p: (Seq<char>, Seq<char>)| env_lines(p, depth + 2)), depth + 1),
        ),
        laid_member("cmd"@, json_opt_string(c.cmd)),
        laid_member("workdir"@, json_string(c.workdir)),
        laid_member(
            "exposed_ports"@,
            laid_array(c.exposed_ports.map_values(|p: (u16, Seq<char>)| port_lines(p, depth + 2)), depth + 1),
        ),
    ]
}

/// A configuration as a file holds it, `depth` levels down.
pub open spec fn config_lines(c: ConfigView, depth: nat) -> Seq<char> {
    laid_object(config_line_members(c, depth), depth)
}

/// An image: its layers from the base to the top, and its configuration.
pub struct Image {
    pub layers: Vec<crate::store::Hash>,
    pub config: ImageConfig,
}

/// The bytes of each hash.
pub open spec fn hash_bytes(v: Seq<crate::store::Hash>) -> Seq<Seq<u8>> {
    v.map_values(|h: crate::store::Hash| h@)
}

/// The mathematical content of an [`Image`].
#[verifier::ext_equal]
pub struct ImageView {
    pub layers: Seq<Seq<u8>>,
    pub config: ConfigView,
}

impl View for Image {
    type V = ImageView;

    open spec fn view(&self) -> ImageView {
        ImageView { layers: hash_bytes(self.layers@), config: self.config@ }
    }
}

/// The image without layers or configuration.
pub open spec fn scratch_image() -> ImageView {
    ImageView { layers: Seq::empty(), config: empty_config() }
}

/// The JSON text of an image.
pub open spec fn image_json(i: ImageView) -> Seq<char> {
    json_object(
        seq![
            json_member(
                "layers"@,
                json_array(i.layers.map_values(|h: Seq<u8>| json_string(hex_text(h)))),
            ),
            json_member("config"@, config_json(i.config)),
        ],
    )
}

/// The members of an image that a file holds.
pub open spec fn image_line_members(i: ImageView) -> Seq<Seq<char>> {
    seq![
        laid_member("layers"@, laid_array(i.layers.map_values(|h: Seq<u8>| json_string(hex_text(h))), 1)),
        laid_member("config"@, config_lines(i.config, 1)),
    ]
}

/// What the file of an image holds.
pub open spec fn image_file_text(i: ImageView) -> Seq<char> {
    laid_object(image_line_members(i), 0)
}

/// The id of an image: the hash of its JSON text.
pub open spec fn image_id(i: ImageView) -> Seq<u8> {
    sha256(encode_utf8(image_json(i)))
}

/// The file of the image with the given id.
pub open spec fn image_file(root: Seq<char>, id: Seq<u8>) -> Seq<char> {
    joined_path(joined_path(root, "images"@), hex_text(id) + ".json"@)
}

/// What saving an image or a layer comes to: its id, its file, what that file
/// holds, and whether it still has to be written.
pub struct Save {
    pub id: crate::store::Hash,
    pub path: String,
    pub content: Vec<u8>,
    pub write: bool,
}

/// What a reference resolves to.
pub enum Resolved {
    /// The empty base image.
    Scratch(Image),
    /// The stored image with this id.
    Stored(crate::store::Hash),
}

/// What `reference` resolves to: `scratch` is the empty image, the hash of a
/// stored image is that image, and anything else is looked up as a tag
/// (whose file held `tag`).
pub open spec fn resolution(
    root: Seq<char>,
    reference: Seq<char>,
    files: Seq<Seq<char>>,
    tag: Seq<char>,
) -> Option<Option<Seq<u8>>> {
    if reference == "scratch"@ {
        Some(None)
    } else {
        match hash_named(reference) {
            Some(h) if files.contains(image_file(root, h)) => Some(Some(h)),
            _ => match hash_named(trimmed(tag)) {
                Some(h) => Some(Some(h)),
                None => None,
            },
        }
    }
}

/// Whether a reference is looked up as a tag.
pub open spec fn needs_tag(root: Seq<char>, reference: Seq<char>, files: Seq<Seq<char>>) -> bool {
    reference != "scratch"@ && !(hash_named(reference) matches Some(h) && files.contains(
        image_file(root, h),
    ))
}

impl Image {
    /// The JSON text of each layer's id.
    fn layer_texts(&self) -> (r: Vec<String>)
        ensures
            views(r@) == self@.layers.map_values(|h: Seq<u8>| json_string(hex_text(h))),
    {
        let mut layers: Vec<String> = Vec::new();
        let mut i: usize = 0;
        while i < self.layers.len()
            invariant
                i <= self.layers@.len(),
                views(layers@) == hash_bytes(self.layers@).take(i as int).map_values(
                    |h: Seq<u8>| json_string(hex_text(h)),
                ),
            decreases self.layers.len() - i,
        {
            let hex = self.layers[i].to_hex();
            let item = json_str(hex.as_str());
            proof {
                let all = hash_bytes(self.layers@);
                assert(all.take(i + 1) =~= all.take(i as int).push(all[i as int]));
                assert(all.take(i + 1).map_values(|h: Seq<u8>| json_string(hex_text(h))) =~= all.take(
                    i as int,
                ).map_values(|h: Seq<u8>| json_string(hex_text(h))).push(item@));
                assert(views(layers@.push(item)) =~= views(layers@).push(item@));
            }
            layers.push(item);
            i += 1;
        }
        assert(hash_bytes(self.layers@).take(i as int) =~= hash_bytes(self.layers@));
        layers
    }

    /// What the image's file holds.
    pub fn file_text(&self) -> (r: String)
        ensures
            r@ == image_file_text(self@),
    {
        let layers = self.layer_texts();
        let layers_text = array_lines(&layers, 1);
        let config_text = self.config.lines(1);
        let mut members: Vec<String> = Vec::new();
        add_line(&mut members, "layers", layers_text.as_str());
        add_line(&mut members, "config", config_text.as_str());
        assert(views(members@) =~= image_line_members(self@));
        object_lines(&members, 0)
    }

    /// The JSON text of the image.
    pub fn to_json(&self) -> (r: String)
        ensures
            r@ == image_json(self@),
    {
        let layers = self.layer_texts();
        let layers_text = json_list(&layers);
        let config_text = self.config.to_json();
        let mut members: Vec<String> = Vec::new();
        members.push(json_pair("layers", layers_text.as_str()));
        members.push(json_pair("config", config_text.as_str()));
        assert(views(members@) =~= seq![
            json_member(
                "layers"@,
                json_array(self@.layers.map_values(|h: Seq<u8>| json_string(hex_text(h)))),
            ),
            json_member("config"@, config_json(self@.config)),
        ]);
        json_map(&members)
    }

    /// The image's id: the hash of its JSON text.
    pub fn id(&self) -> (r: crate::store::Hash)
        ensures
            r@ == image_id(self@),
    {
        let text = self.to_json();
        let bytes = bytes_of(text.as_str());
        crate::store::Hash::of_bytes(bytes.as_slice())
    }

    /// The file of the image with the given id.
    pub fn file(store: &Store, id: &crate::store::Hash) -> (r: String)
        ensures
            r@ == image_file(store.root@, id@),
    {
        let dir = store.images_dir();
        let hex = id.to_hex();
        let name = cat2(hex.as_str(), ".json");
        path_join(dir.as_str(), name.as_str())
    }

    /// Saves the image under its own id; an image that is saved already is not
    /// written again.
    pub fn save(&self, store: &Store, files: &Vec<String>) -> (r: Save)
        ensures
            r.id@ == image_id(self@),
            r.path@ == image_file(store.root@, image_id(self@)),
            r.content@ == encode_utf8(image_file_text(self@)),
            r.write == !views(files@).contains(image_file(store.root@, image_id(self@))),
    {
        let id = self.id();
        let path = Image::file(store, &id);
        let text = self.file_text();
        let content = bytes_of(text.as_str());
        let write = !listed(files, path.as_str());
        Save { id, path, content, write }
    }

    /// The image with the given id, given what reading its file came to
    /// (`None` if there is no such regular file).
    pub fn load(id: &crate::store::Hash, read: Option<Result<Image, Error>>) -> (r: Result<Image, Error>)
        ensures
            match read {
                None => r matches Err(Error::ImageNotFound(n)) && n@ == hex_text(id@),
                Some(found) => r == found,
            },
    {
        match read {
            None => Err(Error::ImageNotFound(id.to_hex())),
            Some(found) => found,
        }
    }

    /// The tag file that `reference` would be looked up in.
    pub fn tag_file(store: &Store, reference: &str) -> (r: String)
        ensures
            r@ == reference_file(store.root@, reference@),
    {
        let (name, tag) = split_name_tag(reference);
        let repository = normalize_repository(name);
        store.tag_path(repository.as_str(), tag)
    }

    /// What `reference` resolves to, given which files exist and what reading
    /// its tag file came to.
    pub fn resolve(store: &Store, reference: &str, files: &Vec<String>, tag: Result<String, String>) -> (r:
        Result<Resolved, Error>)
        ensures
            match r {
                Ok(Resolved::Scratch(i)) => reference@ == "scratch"@ && i@ == scratch_image(),
                Ok(Resolved::Stored(h)) => reference@ != "scratch"@ && (needs_tag(
                    store.root@,
                    reference@,
                    views(files@),
                ) ==> tag is Ok) && resolution(
                    store.root@,
                    reference@,
                    views(files@),
                    match tag {
                        Ok(t) => t@,
                        Err(m) => m@,
                    },
                ) == Some(Some(h@)),
                Err(e) => needs_tag(store.root@, reference@, views(files@)) && match tag {
                    Ok(t) => hash_named(trimmed(t@)) is None && (e matches Error::InvalidHash(s) && s@
                        == trimmed(t@)),
                    Err(m) => e matches Error::Io { path, message } && message@ == m@ && path@
                        == reference_file(store.root@, reference@),
                },
            },
    {
        if str_eq(reference, "scratch") {
            let r = Image { layers: Vec::new(), config: ImageConfig::default() };
            assert(r@ =~= scratch_image());
            return Ok(Resolved::Scratch(r));
        }
        match crate::store::Hash::from_hex(reference) {
            Ok(hash) => {
                let path = Image::file(store, &hash);
                if listed(files, path.as_str()) {
                    return Ok(Resolved::Stored(hash));
                }
            },
            Err(_) => {},
        }
        let (name, tag_name) = split_name_tag(reference);
        let repository = normalize_repository(name);
        match store.resolve_tag(repository.as_str(), tag_name, tag) {
            Ok(id) => Ok(Resolved::Stored(id)),
            Err(e) => Err(e),
        }
    }

    /// The layers in overlay order: the most recently added first.
    pub fn lower_dirs_order(&self) -> (r: Vec<crate::store::Hash>)
        ensures
            r@ == self.layers@.reverse(),
    {
        let mut out: Vec<crate::store::Hash> = Vec::new();
        let mut n: usize = self.layers.len();
        while n > 0
            invariant
                n <= self.layers@.len(),
                out@ == self.layers@.skip(n as int).reverse(),
            decreases n,
        {
            n -= 1;
            assert(self.layers@.skip(n as int).reverse() =~= self.layers@.skip(n + 1).reverse().push(
                self.layers@[n as int],
            ));
            out.push(self.layers[n]);
        }
        assert(self.layers@.skip(0) =~= self.layers@);
        out
    }
}

/// Setting a variable makes it the value that is read, and no other
/// variable's value changes.
pub proof fn env_set_is_read_back(
    c: ConfigView,
    key: Seq<char>,
    value: Seq<char>,
    other: Seq<char>,
)
    ensures
        env_value(c.env.push((key, value)), key) == Some(value),
        other != key ==> env_value(c.env.push((key, value)), other) == env_value(c.env, other),
{
    let grown = c.env.push((key, value));
    assert(grown.drop_last() =~= c.env);
}

/// A reference that was tagged resolves to the image it was pointed at:
/// reading the tag file gives back what tagging wrote. The exceptions are the
/// name `scratch` and the hash of a stored image, which are never looked up.
pub proof fn tagged_reference_resolves(
    root: Seq<char>,
    reference: Seq<char>,
    files: Seq<Seq<char>>,
    id: crate::store::Hash,
)
    requires
        needs_tag(root, reference, files),
    ensures
        resolution(root, reference, files, hex_text(id@)) == Some(Some(id@)),
{
    crate::store::tag_reads_back(id);
}

/// The hash of a stored image resolves to that image, whatever any tag says.
pub proof fn stored_hash_resolves_to_itself(
    root: Seq<char>,
    id: crate::store::Hash,
    files: Seq<Seq<char>>,
    tag: Seq<char>,
)
    requires
        files.contains(image_file(root, id@)),
    ensures
        resolution(root, hex_text(id@), files, tag) == Some(Some(id@)),
{
    crate::store::hash_text_round_trip(id);
    reveal_strlit("scratch");
    assert("scratch"@.len() == 7);
    assert(hex_text(id@).len() == 64);
}

/// Whether a path goes down, part by part: no part is empty, `.` or `..`.
pub open spec fn goes_down(path: Seq<char>) -> bool {
    forall|i: int|
        0 <= i < pieces(path, '/').len() ==> {
            let part = #[trigger] pieces(path, '/')[i];
            part.len() > 0 && part != "."@ && part != ".."@
        }
}

/// Whether a reference names a repository and a tag that are files below the
/// store's own.
pub open spec fn is_plain(reference: Seq<char>) -> bool {
    let (name, tag) = name_and_tag(reference);
    &&& goes_down(full_repository(name))
    &&& goes_down(tag)
    &&& !tag.contains('/')
}

/// What a file holds, if there is one.
pub open spec fn held_at(files: Map<Seq<char>, Seq<u8>>, path: Seq<char>) -> Option<Seq<u8>> {
    if files.dom().contains(path) {
        Some(files[path])
    } else {
        None
    }
}

/// A path that goes down neither begins nor ends with a slash.
proof fn lemma_goes_down(path: Seq<char>)
    requires
        goes_down(path),
    ensures
        path.len() > 0,
        path[0] != '/',
        path.last() != '/',
{
    let parts = pieces(path, '/');
    lemma_pieces_nonempty(path, '/');
    assert(parts[0].len() > 0);
    if path.len() > 0 && path.last() == '/' {
        lemma_pieces_behind(path, Seq::empty(), '/');
        assert(parts[parts.len() - 1].len() > 0);
    }
}

/// Where the tag of a plain reference is kept.
proof fn lemma_plain_file(root: Seq<char>, reference: Seq<char>)
    requires
        is_plain(reference),
    ensures
        ({
            let (name, tag) = name_and_tag(reference);
            let repository = full_repository(name);
            &&& reference_file(root, reference) == joined_path(root, "refs"@) + seq!['/'] + repository + seq!['/'] + tag
            &&& tag.len() > 0
            &&& repository.len() > 0
        }),
{
    let (name, tag) = name_and_tag(reference);
    let repository = full_repository(name);
    lemma_goes_down(repository);
    lemma_goes_down(tag);
    reveal_strlit("refs");
    let refs = joined_path(root, "refs"@);
    assert(refs.last() == 's');
    let dir = joined_path(refs, repository);
    assert(dir =~= refs + seq!['/'] + repository);
    assert(dir.last() == repository.last());
    assert(joined_path(dir, tag) =~= dir + seq!['/'] + tag);
}

/// Parts of the store begin differently below its root.
proof fn lemma_parts_differ(root: Seq<char>, rest: Seq<char>, part: Seq<char>, other: Seq<char>)
    requires
        part.len() > 0,
        part[0] != '/',
        part[0] != 'r',
    ensures
        joined_path(root, "refs"@) + rest != joined_path(root, part) + other,
{
    reveal_strlit("refs");
    let n: int = if root.len() == 0 || root.last() == '/' {
        root.len() as int
    } else {
        root.len() as int + 1
    };
    assert((joined_path(root, "refs"@) + rest)[n] == 'r');
    assert((joined_path(root, part) + other)[n] == part[0]);
}

/// What is below a directory begins with its path.
proof fn lemma_below(dir: Seq<char>, name: Seq<char>)
    requires
        name.len() > 0,
        name[0] != '/',
    ensures
        exists|rest: Seq<char>| joined_path(dir, name) == dir + rest,
{
    let rest = joined_path(dir, name).skip(dir.len() as int);
    assert(joined_path(dir, name) =~= dir + rest);
}

/// Hexadecimal digits hold no slash.
proof fn lemma_hex_not_slash(id: Seq<u8>)
    requires
        id.len() > 0,
    ensures
        hex_text(id).len() == 2 * id.len(),
        hex_text(id)[0] != '/',
{
    assert(0 <= id[0] as int / 16 < 16);
}

/// Tagging a reference changes that tag alone: every other repository and tag
/// resolves as it did before, and no image, layer or blob is touched.
/// The references must be plain: a name such as `a/../b` leads where another
/// does.
pub proof fn other_tags_stay(
    root: Seq<char>,
    reference: Seq<char>,
    other: Seq<char>,
    files: Map<Seq<char>, Seq<u8>>,
    content: Seq<u8>,
    id: crate::store::Hash,
)
    requires
        is_plain(reference),
        is_plain(other),
        ({
            let (a, t) = name_and_tag(reference);
            let (b, u) = name_and_tag(other);
            full_repository(a) != full_repository(b) || t != u
        }),
    ensures
        ({
            let after = files.insert(reference_file(root, reference), content);
            &&& held_at(after, reference_file(root, reference)) == Some(content)
            &&& held_at(after, reference_file(root, other)) == held_at(files, reference_file(root, other))
            &&& held_at(after, image_file(root, id@)) == held_at(files, image_file(root, id@))
            &&& held_at(after, crate::layer::layer_file(root, id@)) == held_at(
                files,
                crate::layer::layer_file(root, id@),
            )
            &&& held_at(after, crate::store::blob_location(root, id@)) == held_at(
                files,
                crate::store::blob_location(root, id@),
            )
        }),
{
    let (a, t) = name_and_tag(reference);
    let (b, u) = name_and_tag(other);
    let r = full_repository(a);
    let s = full_repository(b);
    lemma_plain_file(root, reference);
    lemma_plain_file(root, other);
    let refs = joined_path(root, "refs"@);
    let p = reference_file(root, reference);
    let q = reference_file(root, other);
    if p == q {
        lemma_last_part(refs + seq!['/'] + r, t, refs + seq!['/'] + s, u);
        assert(r =~= (refs + seq!['/'] + r).skip(refs.len() as int + 1));
        assert(s =~= (refs + seq!['/'] + s).skip(refs.len() as int + 1));
    }
    let below = seq!['/'] + r + seq!['/'] + t;
    assert(p =~= refs + below);
    let hex = hex_text(id@);
    lemma_hex_not_slash(id@);
    reveal_strlit("images");
    reveal_strlit("layers");
    reveal_strlit("blobs");
    let file = hex + ".json"@;
    assert(file[0] == hex[0]);
    let images = joined_path(root, "images"@);
    lemma_below(images, file);
    let x = choose|rest: Seq<char>| joined_path(images, file) == images + rest;
    lemma_parts_differ(root, below, "images"@, x);
    let layers = joined_path(root, "layers"@);
    lemma_below(layers, file);
    let y = choose|rest: Seq<char>| joined_path(layers, file) == layers + rest;
    lemma_parts_differ(root, below, "layers"@, y);
    let blobs = joined_path(root, "blobs"@);
    let group = hex.take(2);
    assert(group[0] == hex[0]);
    lemma_below(blobs, group);
    let g = choose|rest: Seq<char>| joined_path(blobs, group) == blobs + rest;
    lemma_below(joined_path(blobs, group), hex);
    let z = choose|rest: Seq<char>| joined_path(joined_path(blobs, group), hex) == joined_path(blobs, group) + rest;
    assert(blobs + g + z =~= blobs + (g + z));
    lemma_parts_differ(root, below, "blobs"@, g + z);
}

/// A path tells its last part, and what is in front of it.
proof fn lemma_last_part(a: Seq<char>, t: Seq<char>, b: Seq<char>, u: Seq<char>)
    requires
        !t.contains('/'),
        !u.contains('/'),
        a + seq!['/'] + t == b + seq!['/'] + u,
    ensures
        a == b,
        t == u,
{
    let p = a + seq!['/'] + t;
    let q = b + seq!['/'] + u;
    assert(p.len() == a.len() + 1 + t.len());
    assert(q.len() == b.len() + 1 + u.len());
    assert(p[a.len() as int] == '/');
    assert(q[b.len() as int] == '/');
    if a.len() < b.len() {
        assert(t[b.len() - a.len() - 1] == p[b.len() as int]);
        assert(t.contains('/'));
    }
    if b.len() < a.len() {
        assert(u[a.len() - b.len() - 1] == q[a.len() as int]);
        assert(u.contains('/'));
    }
    assert(a =~= p.take(a.len() as int));
    assert(b =~= q.take(b.len() as int));
    assert(t =~= p.skip(a.len() as int + 1));
    assert(u =~= q.skip(b.len() as int + 1));
}

// ---- What files show -------------------------------------------------------

/// Variables in a file can be told apart, and show their names and values.
proof fn lemma_env_lines(p: (Seq<char>, Seq<char>), q: (Seq<char>, Seq<char>), depth: nat)
    ensures
        told_apart(env_lines(p, depth), env_lines(q, depth)),
        env_lines(p, depth) == env_lines(q, depth) ==> p == q,
{
    let a = seq![json_string(p.0), json_string(p.1)];
    let b = seq![json_string(q.0), json_string(q.1)];
    strings_show_their_text(p.0, q.0);
    strings_show_their_text(p.1, q.1);
    arrays_show_their_items(a, b, depth);
    assert(a == b ==> a[0] == b[0] && a[1] == b[1]);
}

/// Ports in a file can be told apart, and show their numbers and protocols.
proof fn lemma_port_lines(p: (u16, Seq<char>), q: (u16, Seq<char>), depth: nat)
    ensures
        told_apart(port_lines(p, depth), port_lines(q, depth)),
        port_lines(p, depth) == port_lines(q, depth) ==> p == q,
{
    let a = seq![decimal(p.0 as nat), json_string(p.1)];
    let b = seq![decimal(q.0 as nat), json_string(q.1)];
    numbers_show_their_value(p.0 as nat, q.0 as nat);
    strings_show_their_text(p.1, q.1);
    arrays_show_their_items(a, b, depth);
    assert(a == b ==> a[0] == b[0] && a[1] == b[1]);
}

/// Lists of variables in a file can be told apart, and show the variables.
proof fn lemma_env_list(c: Seq<(Seq<char>, Seq<char>)>, d: Seq<(Seq<char>, Seq<char>)>, depth: nat)
    ensures
        ({
            let text = |p: (Seq<char>, Seq<char>)| env_lines(p, depth + 1);
            let s = laid_array(c.map_values(text), depth);
            let t = laid_array(d.map_values(text), depth);
            told_apart(s, t) && (s == t ==> c == d)
        }),
{
    let text = |p: (Seq<char>, Seq<char>)| env_lines(p, depth + 1);
    let a = c.map_values(text);
    let b = d.map_values(text);
    assert forall|i: int| 0 <= i < a.len() && i < b.len() implies told_apart(#[trigger] a[i], b[i]) by {
        lemma_env_lines(c[i], d[i], depth + 1);
    }
    arrays_show_their_items(a, b, depth);
    if a == b {
        assert(c.len() == a.len() && d.len() == b.len());
        assert forall|i: int| 0 <= i < c.len() implies c[i] == d[i] by {
            assert(a[i] == b[i]);
            lemma_env_lines(c[i], d[i], depth + 1);
        }
        assert(c =~= d);
    }
}

/// Lists of ports in a file can be told apart, and show the ports.
proof fn lemma_port_list(c: Seq<(u16, Seq<char>)>, d: Seq<(u16, Seq<char>)>, depth: nat)
    ensures
        ({
            let text = |p: (u16, Seq<char>)| port_lines(p, depth + 1);
            let s = laid_array(c.map_values(text), depth);
            let t = laid_array(d.map_values(text), depth);
            told_apart(s, t) && (s == t ==> c == d)
        }),
{
    let text = |p: (u16, Seq<char>)| port_lines(p, depth + 1);
    let a = c.map_values(text);
    let b = d.map_values(text);
    assert forall|i: int| 0 <= i < a.len() && i < b.len() implies told_apart(#[trigger] a[i], b[i]) by {
        lemma_port_lines(c[i], d[i], depth + 1);
    }
    arrays_show_their_items(a, b, depth);
    if a == b {
        assert(c.len() == a.len() && d.len() == b.len());
        assert forall|i: int| 0 <= i < c.len() implies c[i] == d[i] by {
            assert(a[i] == b[i]);
            lemma_port_lines(c[i], d[i], depth + 1);
        }
        assert(c =~= d);
    }
}

/// Configurations in a file can be told apart, and a file shows all of one.
pub proof fn files_show_the_configuration(c: ConfigView, d: ConfigView, depth: nat)
    ensures
        told_apart(config_lines(c, depth), config_lines(d, depth)),
        config_lines(c, depth) == config_lines(d, depth) ==> c == d,
{
    let a = config_line_members(c, depth);
    let b = config_line_members(d, depth);
    let variables = |p: (Seq<char>, Seq<char>)| env_lines(p, depth + 2);
    let ports = |p: (u16, Seq<char>)| port_lines(p, depth + 2);
    let env_c = laid_array(c.env.map_values(variables), depth + 1);
    let env_d = laid_array(d.env.map_values(variables), depth + 1);
    let ports_c = laid_array(c.exposed_ports.map_values(ports), depth + 1);
    let ports_d = laid_array(d.exposed_ports.map_values(ports), depth + 1);
    lemma_env_list(c.env, d.env, depth + 1);
    lemma_port_list(c.exposed_ports, d.exposed_ports, depth + 1);
    assert(variables =~= (|p: (Seq<char>, Seq<char>)| env_lines(p, depth + 1 + 1)));
    assert(ports =~= (|p: (u16, Seq<char>)| port_lines(p, depth + 1 + 1)));
    optional_strings_show_their_text(c.cmd, d.cmd);
    strings_show_their_text(c.workdir, d.workdir);
    members_show_their_values("env"@, env_c, env_d);
    members_show_their_values("cmd"@, json_opt_string(c.cmd), json_opt_string(d.cmd));
    members_show_their_values("workdir"@, json_string(c.workdir), json_string(d.workdir));
    members_show_their_values("exposed_ports"@, ports_c, ports_d);
    assert(a[0] == laid_member("env"@, env_c) && b[0] == laid_member("env"@, env_d));
    assert(a[3] == laid_member("exposed_ports"@, ports_c) && b[3] == laid_member("exposed_ports"@, ports_d));
    assert forall|i: int| 0 <= i < a.len() && i < b.len() implies told_apart(#[trigger] a[i], b[i]) by {
        assert(i == 0 || i == 1 || i == 2 || i == 3);
    }
    objects_show_their_members(a, b, depth);
    if a == b {
        assert(a[0] == b[0] && a[1] == b[1] && a[2] == b[2] && a[3] == b[3]);
        assert(c =~= d);
    }
}

/// Lists of hashes in a file can be told apart, and show the hashes.
proof fn lemma_hash_list(c: Seq<Seq<u8>>, d: Seq<Seq<u8>>, depth: nat)
    ensures
        ({
            let text = |h: Seq<u8>| json_string(hex_text(h));
            let s = laid_array(c.map_values(text), depth);
            let t = laid_array(d.map_values(text), depth);
            told_apart(s, t) && (s == t ==> c == d)
        }),
{
    let text = |h: Seq<u8>| json_string(hex_text(h));
    let a = c.map_values(text);
    let b = d.map_values(text);
    assert forall|i: int| 0 <= i < a.len() && i < b.len() implies told_apart(#[trigger] a[i], b[i]) by {
        strings_show_their_text(hex_text(c[i]), hex_text(d[i]));
    }
    arrays_show_their_items(a, b, depth);
    if a == b {
        assert(c.len() == a.len() && d.len() == b.len());
        assert forall|i: int| 0 <= i < c.len() implies c[i] == d[i] by {
            assert(a[i] == b[i]);
            strings_show_their_text(hex_text(c[i]), hex_text(d[i]));
            hex_text_is_injective(c[i], d[i]);
        }
        assert(c =~= d);
    }
}

/// A saved image can be read back in one way only: images whose files hold the
/// same bytes are the same image.
pub proof fn files_show_the_image(i: ImageView, j: ImageView)
    requires
        encode_utf8(image_file_text(i)) == encode_utf8(image_file_text(j)),
    ensures
        i == j,
{
    encode_utf8_decode_utf8(image_file_text(i));
    encode_utf8_decode_utf8(image_file_text(j));
    let a = image_line_members(i);
    let b = image_line_members(j);
    let text = |h: Seq<u8>| json_string(hex_text(h));
    let layers_i = laid_array(i.layers.map_values(text), 1);
    let layers_j = laid_array(j.layers.map_values(text), 1);
    lemma_hash_list(i.layers, j.layers, 1);
    files_show_the_configuration(i.config, j.config, 1);
    members_show_their_values("layers"@, layers_i, layers_j);
    members_show_their_values("config"@, config_lines(i.config, 1), config_lines(j.config, 1));
    assert(a[0] == laid_member("layers"@, layers_i) && b[0] == laid_member("layers"@, layers_j));
    assert forall|k: int| 0 <= k < a.len() && k < b.len() implies told_apart(#[trigger] a[k], b[k]) by {
        assert(k == 0 || k == 1);
    }
    objects_show_their_members(a, b, 0);
    assert(a[0] == b[0] && a[1] == b[1]);
    assert(i =~= j);
}

// ---- What ids depend on ----------------------------------------------------

/// Variables on one line can be told apart, and show their names and values.
proof fn lemma_env_json(p: (Seq<char>, Seq<char>), q: (Seq<char>, Seq<char>))
    ensures
        told_apart(env_json(p), env_json(q)),
        begins_item(env_json(p)),
        env_json(p) == env_json(q) ==> p == q,
{
    let a = seq![json_string(p.0), json_string(p.1)];
    let b = seq![json_string(q.0), json_string(q.1)];
    strings_show_their_text(p.0, q.0);
    strings_show_their_text(p.1, q.1);
    lists_show_their_items(a, b);
    assert(a == b ==> a[0] == b[0] && a[1] == b[1]);
}

/// Ports on one line can be told apart, and show their numbers and protocols.
proof fn lemma_port_json(p: (u16, Seq<char>), q: (u16, Seq<char>))
    ensures
        told_apart(port_json(p), port_json(q)),
        begins_item(port_json(p)),
        port_json(p) == port_json(q) ==> p == q,
{
    let a = seq![decimal(p.0 as nat), json_string(p.1)];
    let b = seq![decimal(q.0 as nat), json_string(q.1)];
    numbers_show_their_value(p.0 as nat, q.0 as nat);
    lemma_number_begins(p.0 as nat);
    lemma_number_begins(q.0 as nat);
    strings_show_their_text(p.1, q.1);
    lists_show_their_items(a, b);
    assert(a == b ==> a[0] == b[0] && a[1] == b[1]);
}

/// A number begins with a digit.
pub proof fn lemma_number_begins(n: nat)
    ensures
        begins_item(decimal(n)),
{
    crate::num::lemma_decimal(n);
    assert(crate::num::is_digit(decimal(n)[0]));
}

/// Configurations on one line can be told apart, and the text shows all of
/// one, member by member.
pub proof fn texts_show_the_configuration(c: ConfigView, d: ConfigView)
    ensures
        told_apart(config_json(c), config_json(d)),
        begins_item(config_json(c)),
        config_json(c) == config_json(d) ==> c == d,
        config_members(c).len() == 4,
        forall|i: int| 0 <= i < 4 ==> told_apart(#[trigger] config_members(c)[i], config_members(d)[i]),
        config_members(c) == config_members(d) ==> c == d,
        begins_item(config_members(c)[0]),
{
    let variables = |p: (Seq<char>, Seq<char>)| env_json(p);
    let ports = |p: (u16, Seq<char>)| port_json(p);
    let vc = c.env.map_values(variables);
    let vd = d.env.map_values(variables);
    let pc = c.exposed_ports.map_values(ports);
    let pd = d.exposed_ports.map_values(ports);
    assert forall|i: int| 0 <= i < vc.len() && i < vd.len() implies told_apart(#[trigger] vc[i], vd[i]) by {
        lemma_env_json(c.env[i], d.env[i]);
    }
    assert forall|i: int| 0 <= i < pc.len() && i < pd.len() implies told_apart(#[trigger] pc[i], pd[i]) by {
        lemma_port_json(c.exposed_ports[i], d.exposed_ports[i]);
    }
    if c.env.len() > 0 {
        lemma_env_json(c.env[0], c.env[0]);
    }
    if d.env.len() > 0 {
        lemma_env_json(d.env[0], d.env[0]);
    }
    if c.exposed_ports.len() > 0 {
        lemma_port_json(c.exposed_ports[0], c.exposed_ports[0]);
    }
    if d.exposed_ports.len() > 0 {
        lemma_port_json(d.exposed_ports[0], d.exposed_ports[0]);
    }
    lists_show_their_items(vc, vd);
    lists_show_their_items(pc, pd);
    optional_strings_show_their_text(c.cmd, d.cmd);
    strings_show_their_text(c.workdir, d.workdir);
    pairs_show_their_values("env"@, json_array(vc), json_array(vd));
    pairs_show_their_values("cmd"@, json_opt_string(c.cmd), json_opt_string(d.cmd));
    pairs_show_their_values("workdir"@, json_string(c.workdir), json_string(d.workdir));
    pairs_show_their_values("exposed_ports"@, json_array(pc), json_array(pd));
    lists_show_their_items(vd, vd);
    pairs_show_their_values("env"@, json_array(vd), json_array(vd));
    let a = config_members(c);
    let b = config_members(d);
    assert(a[0] == json_member("env"@, json_array(vc)) && b[0] == json_member("env"@, json_array(vd)));
    assert(a[3] == json_member("exposed_ports"@, json_array(pc)) && b[3] == json_member("exposed_ports"@, json_array(pd)));
    assert forall|i: int| 0 <= i < a.len() && i < b.len() implies told_apart(#[trigger] a[i], b[i]) by {
        assert(i == 0 || i == 1 || i == 2 || i == 3);
    }
    maps_show_their_members(a, b);
    if a == b {
        assert(a[0] == b[0] && a[1] == b[1] && a[2] == b[2] && a[3] == b[3]);
        assert(vc == vd && pc == pd);
        assert(c.env.len() == vc.len() && d.env.len() == vd.len());
        assert(c.exposed_ports.len() == pc.len() && d.exposed_ports.len() == pd.len());
        assert forall|i: int| 0 <= i < c.env.len() implies c.env[i] == d.env[i] by {
            assert(vc[i] == vd[i]);
            lemma_env_json(c.env[i], d.env[i]);
        }
        assert forall|i: int| 0 <= i < c.exposed_ports.len() implies c.exposed_ports[i] == d.exposed_ports[i] by {
            assert(pc[i] == pd[i]);
            lemma_port_json(c.exposed_ports[i], d.exposed_ports[i]);
        }
        assert(c.env =~= d.env);
        assert(c.exposed_ports =~= d.exposed_ports);
        assert(c =~= d);
    }
}

/// An image's id is the hash of a text that shows all of the image: every
/// layer in order, and the whole configuration. So images that differ in any
/// of these have their ids from different texts.
pub proof fn ids_depend_on_the_whole_image(i: ImageView, j: ImageView)
    ensures
        image_id(i) == sha256(encode_utf8(image_json(i))),
        encode_utf8(image_json(i)) == encode_utf8(image_json(j)) ==> i == j,
{
    if encode_utf8(image_json(i)) == encode_utf8(image_json(j)) {
        encode_utf8_decode_utf8(image_json(i));
        encode_utf8_decode_utf8(image_json(j));
        let text = |h: Seq<u8>| json_string(hex_text(h));
        let x = i.layers.map_values(text);
        let y = j.layers.map_values(text);
        assert forall|k: int| 0 <= k < x.len() && k < y.len() implies told_apart(#[trigger] x[k], y[k]) by {
            strings_show_their_text(hex_text(i.layers[k]), hex_text(j.layers[k]));
        }
        lists_show_their_items(x, y);
        texts_show_the_configuration(i.config, j.config);
        pairs_show_their_values("layers"@, json_array(x), json_array(y));
        pairs_show_their_values("config"@, config_json(i.config), config_json(j.config));
        let a = seq![json_member("layers"@, json_array(x)), json_member("config"@, config_json(i.config))];
        let b = seq![json_member("layers"@, json_array(y)), json_member("config"@, config_json(j.config))];
        assert forall|k: int| 0 <= k < a.len() && k < b.len() implies told_apart(#[trigger] a[k], b[k]) by {
            assert(k == 0 || k == 1);
        }
        maps_show_their_members(a, b);
        assert(a[0] == b[0] && a[1] == b[1]);
        assert(x == y);
        assert(i.layers.len() == x.len() && j.layers.len() == y.len());
        assert forall|k: int| 0 <= k < i.layers.len() implies i.layers[k] == j.layers[k] by {
            assert(x[k] == y[k]);
            strings_show_their_text(hex_text(i.layers[k]), hex_text(j.layers[k]));
            hex_text_is_injective(i.layers[k], j.layers[k]);
        }
        assert(i.layers =~= j.layers);
        assert(i =~= j);
    }
}

/// A reference is read by its parts: the tag behind the last colon, `latest`
/// where there is none, and a colon in front of a slash belongs to the name.
pub proof fn names_and_tags_are_read(name: Seq<char>, tag: Seq<char>, port: Seq<char>, path: Seq<char>)
    requires
        !tag.contains(':'),
        !tag.contains('/'),
        !path.contains(':'),
    ensures
        name_and_tag(name + seq![':'] + tag) == (name, tag),
        !name.contains(':') ==> name_and_tag(name) == (name, "latest"@),
        ({
            let whole = name + seq![':'] + (port + seq!['/'] + path);
            !port.contains(':') ==> name_and_tag(whole) == (whole, "latest"@)
        }),
{
    crate::text::texts_are_cut_behind(name, ':', tag);
    if !name.contains(':') {
        crate::text::whole_texts_are_not_cut(name, ':');
    }
    if !port.contains(':') {
        let rest = port + seq!['/'] + path;
        assert(!rest.contains(':')) by {
            if rest.contains(':') {
                let k = choose|k: int| 0 <= k < rest.len() && rest[k] == ':';
                if k < port.len() {
                    assert(port.contains(port[k]));
                } else if k > port.len() {
                    assert(path.contains(path[k - port.len() - 1]));
                }
            }
        }
        crate::text::texts_are_cut_behind(name, ':', rest);
        assert(rest[port.len() as int] == '/');
        assert(rest.contains('/'));
    }
}

/// Official images have one name: a name without a slash is the one in the
/// library, and any other stands as it is.
pub proof fn short_names_are_official(name: Seq<char>)
    ensures
        name.contains('/') ==> full_repository(name) == name,
        !name.contains('/') ==> full_repository(name) == "library/"@ + name,
        full_repository(full_repository(name)) == full_repository(name),
{
    reveal_strlit("library/");
    if !name.contains('/') {
        assert(("library/"@ + name)[7] == '/');
        assert(("library/"@ + name).contains('/'));
    }
}

/// The value of a variable is that of its last entry, and one without an entry
/// has none.
pub proof fn the_last_entry_counts(env: Seq<(Seq<char>, Seq<char>)>, key: Seq<char>, i: int)
    ensures
        0 <= i < env.len() && env[i].0 == key && (forall|k: int| i < k < env.len() ==> (#[trigger] env[k]).0 != key)
            ==> env_value(env, key) == Some(env[i].1),
        (forall|k: int| 0 <= k < env.len() ==> (#[trigger] env[k]).0 != key) ==> env_value(env, key) is None,
    decreases env.len(),
{
    if env.len() > 0 {
        let before = env.drop_last();
        the_last_entry_counts(before, key, i);
        if 0 <= i < before.len() && env[i].0 == key && (forall|k: int| i < k < env.len() ==> (#[trigger] env[k]).0 != key) {
            assert(before[i] == env[i]);
            assert(env[env.len() - 1].0 != key);
            assert forall|k: int| i < k < before.len() implies (#[trigger] before[k]).0 != key by {
                assert(env[k].0 != key);
            }
        }
        if forall|k: int| 0 <= k < env.len() ==> (#[trigger] env[k]).0 != key {
            assert(env[env.len() - 1].0 != key);
            assert forall|k: int| 0 <= k < before.len() implies (#[trigger] before[k]).0 != key by {
                assert(env[k].0 != key);
            }
        }
    }
}

/// An image's record stands under its id, and a tag's file under the name that
/// it is for.
pub proof fn images_stand_under_their_id(root: Seq<char>, id: Seq<u8>)
    requires
        root.len() > 0,
        root.last() != '/',
        id.len() > 0,
    ensures
        image_file(root, id) == root + "/images/"@ + hex_text(id) + ".json"@,
{
    reveal_strlit("images");
    reveal_strlit("/images/");
    reveal_strlit(".json");
    crate::codec::bytes_are_two_digits(id, 0);
    let t = hex_text(id);
    assert(t[0] != '/');
    assert(image_file(root, id) =~= root + "/images/"@ + t + ".json"@);
}

/// Nothing is preset in an image that is made from nothing: no layers, no
/// variables, no command, no ports and no directory.
pub proof fn nothing_is_preset()
    ensures
        scratch_image().layers.len() == 0,
        scratch_image().config.env.len() == 0,
        scratch_image().config.cmd is None,
        scratch_image().config.exposed_ports.len() == 0,
        scratch_image().config.workdir.len() == 0,
{
    reveal_strlit("");
}

} // verus!
