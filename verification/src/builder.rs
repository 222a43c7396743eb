//! The build engine: turns a Kilnfile's instructions into an image, reusing
//! whatever an earlier build already did.
//!
//! Every instruction advances a state hash: each state is the hash of the
//! previous one, the kind of instruction and the instruction's own data,
//! seeded by the base image's id. A recorded result for a state is reused as
//! it is; otherwise the instruction runs and its result is recorded. The
//! caller does the outside work of a step (looking up and saving records,
//! walking the build context, running commands) and hands the outcome back.

use crate::codec::{
    bytes_of, hex_text, hex_text_is_injective, json_array, json_list, json_opt_string, json_string, json_str, push_str_bytes, quoted, quoted_text,
};
use crate::error::Error;
use crate::image::{
    config_lines, env_value, files_show_the_configuration, hash_bytes, image_id, port_texts, ConfigView, Image, ImageConfig, ImageView,
};
use crate::kilnfile::{instruction_views, parse, parsed, Instruction, InstructionView};
use crate::layer::{
    entry_path, in_order, path_to_entry_string, sort_entries, Entry, EntryKind, EntryView, KindView, LayerManifest,
};
use crate::num::{decimal, i32_text, signed_decimal, u64_text};
use crate::order::{
    codes, key_ints, lemma_sorted_contents, lemma_text_rank_splits, push_codes, push_number, rank_order, separates,
    sort, Ranked,
};
use crate::paths::{joined_path, path_join};
use crate::pretty::{
    add_line, begins_item, laid_member, laid_object, lists_show_their_items, members_show_their_values,
    numbers_show_their_value, object_lines, objects_show_their_members, optional_strings_show_their_text,
    strings_show_their_text, told_apart,
};
use crate::store::{permission_bits, sha256, Store};
use crate::text::{cat2, cat3, cat4, chars_of, views};
use vstd::prelude::*;
use vstd::utf8::encode_utf8;

verus! {

/// The bridge network that every `RUN` step shares.
pub const BUILD_NETWORK_NAME: &'static str = "kiln-build";

/// The subnet of that network.
pub const BUILD_NETWORK_SUBNET: &'static str = "172.31.0.0/24";

/// One step of a finished build.
#[derive(Debug)]
pub struct StepResult {
    pub instruction: String,
    pub cached: bool,
}

/// What a build produced.
#[derive(Debug)]
pub struct BuildOutput {
    pub image_id: crate::store::Hash,
    pub steps: Vec<StepResult>,
}

/// What a step left behind for the next build: the layer it made, if any,
/// and the configuration after it.
pub struct CacheEntry {
    pub layer: Option<crate::store::Hash>,
    pub config: ImageConfig,
}

/// The mathematical content of a [`CacheEntry`].
#[verifier::ext_equal]
pub struct CacheView {
    pub layer: Option<Seq<u8>>,
    pub config: ConfigView,
}

/// The bytes of an optional hash.
pub open spec fn opt_hash(h: Option<crate::store::Hash>) -> Option<Seq<u8>> {
    match h {
        Some(x) => Some(x@),
        None => None,
    }
}

impl View for CacheEntry {
    type V = CacheView;

    open spec fn view(&self) -> CacheView {
        CacheView { layer: opt_hash(self.layer), config: self.config@ }
    }
}

/// The members of a record of the build cache.
pub open spec fn cache_line_members(c: CacheView) -> Seq<Seq<char>> {
    seq![
        laid_member(
            "layer"@,
            match c.layer {
                Some(h) => json_string(hex_text(h)),
                None => "null"@,
            },
        ),
        laid_member("config"@, config_lines(c.config, 1)),
    ]
}

/// What the file of a record of the build cache holds.
pub open spec fn cache_file_text(c: CacheView) -> Seq<char> {
    laid_object(cache_line_members(c), 0)
}

impl CacheEntry {
    /// What the record's file holds.
    pub fn file_text(&self) -> (r: String)
        ensures
            r@ == cache_file_text(self@),
    {
        let layer_text = match &self.layer {
            Some(h) => {
                let hex = h.to_hex();
                json_str(hex.as_str())
            },
            None => "null".to_owned(),
        };
        let config_text = self.config.lines(1);
        let mut members: Vec<String> = Vec::new();
        add_line(&mut members, "layer", layer_text.as_str());
        add_line(&mut members, "config", config_text.as_str());
        assert(views(members@) =~= cache_line_members(self@));
        object_lines(&members, 0)
    }
}

// ---- The state chain -------------------------------------------------------

/// What is hashed for a step: the previous state in hexadecimal if there is
/// one, the kind of instruction and its data, set apart by zero bytes.
pub open spec fn chain_input(prev: Option<Seq<u8>>, label: Seq<char>, payload: Seq<u8>) -> Seq<u8> {
    (match prev {
        Some(p) => encode_utf8(hex_text(p)),
        None => Seq::empty(),
    }) + seq![0u8] + encode_utf8(label) + seq![0u8] + payload
}

/// The state behind a step.
pub open spec fn chained(prev: Option<Seq<u8>>, label: Seq<char>, payload: Seq<u8>) -> Seq<u8> {
    sha256(chain_input(prev, label, payload))
}

/// The state behind a step.
pub fn chain(prev: Option<crate::store::Hash>, label: &str, payload: &[u8]) -> (r: crate::store::Hash)
    ensures
        r@ == chained(opt_hash(prev), label@, payload@),
{
    let mut buf: Vec<u8> = Vec::new();
    match prev {
        Some(p) => {
            let hex = p.to_hex();
            push_str_bytes(&mut buf, hex.as_str());
            assert(buf@ =~= encode_utf8(hex_text(p@)));
        },
        None => {},
    }
    buf.push(0);
    push_str_bytes(&mut buf, label);
    buf.push(0);
    let mut tail = vstd::slice::slice_to_vec(payload);
    buf.append(&mut tail);
    assert(buf@ =~= chain_input(opt_hash(prev), label@, payload@));
    crate::store::Hash::of_bytes(buf.as_slice())
}

/// The kind of an instruction, as it enters the chain.
pub open spec fn label_of(i: InstructionView) -> Seq<char> {
    match i {
        InstructionView::From { image } => "FROM"@,
        InstructionView::Run { command } => "RUN"@,
        InstructionView::Copy { src, dst } => "COPY"@,
        InstructionView::Env { key, value } => "ENV"@,
        InstructionView::Cmd { command } => "CMD"@,
        InstructionView::Expose { port, proto } => "EXPOSE"@,
        InstructionView::Workdir { path } => "WORKDIR"@,
    }
}

/// The data of an instruction, as it enters the chain. A `COPY` counts by
/// its destination and by `content`, the hash of what is copied, never by
/// anything outside of that.
pub open spec fn payload_of(i: InstructionView, content: Seq<u8>) -> Seq<char> {
    match i {
        InstructionView::From { image } => image,
        InstructionView::Run { command } => command,
        InstructionView::Copy { src, dst } => dst + seq!['\0'] + hex_text(content),
        InstructionView::Env { key, value } => key + seq!['\0'] + value,
        InstructionView::Cmd { command } => command,
        InstructionView::Expose { port, proto } => decimal(port as nat) + "/"@ + proto,
        InstructionView::Workdir { path } => path,
    }
}

/// What is hashed for an instruction.
pub open spec fn step_input(prev: Seq<u8>, i: InstructionView, content: Seq<u8>) -> Seq<u8> {
    chain_input(Some(prev), label_of(i), encode_utf8(payload_of(i, content)))
}

/// The state behind an instruction.
pub open spec fn state_after(prev: Seq<u8>, i: InstructionView, content: Seq<u8>) -> Seq<u8> {
    chained(Some(prev), label_of(i), encode_utf8(payload_of(i, content)))
}

/// The state behind `FROM`.
pub open spec fn state_of_base(base: ImageView) -> Seq<u8> {
    chained(None, "FROM"@, encode_utf8(hex_text(image_id(base))))
}

/// Where the result for a state is recorded.
pub open spec fn cache_file(root: Seq<char>, state: Seq<u8>) -> Seq<char> {
    joined_path(joined_path(root, "build-cache"@), hex_text(state) + ".json"@)
}

/// Where the result for a state is recorded.
pub fn cache_path(store: &Store, state: &crate::store::Hash) -> (r: String)
    ensures
        r@ == cache_file(store.root@, state@),
{
    let dir = path_join(store.root.as_str(), "build-cache");
    let hex = state.to_hex();
    let name = cat2(hex.as_str(), ".json");
    path_join(dir.as_str(), name.as_str())
}

// ---- Instructions ----------------------------------------------------------

/// An instruction as one line of text.
pub open spec fn described(i: InstructionView) -> Seq<char> {
    match i {
        InstructionView::From { image } => "FROM "@ + image,
        InstructionView::Run { command } => "RUN "@ + command,
        InstructionView::Copy { src, dst } => "COPY "@ + src + " "@ + dst,
        InstructionView::Env { key, value } => "ENV "@ + key + "="@ + value,
        InstructionView::Cmd { command } => "CMD "@ + command,
        InstructionView::Expose { port, proto } => "EXPOSE "@ + decimal(port as nat) + "/"@ + proto,
        InstructionView::Workdir { path } => "WORKDIR "@ + path,
    }
}

/// An instruction as one line of text.
pub fn describe(i: &Instruction) -> (r: String)
    ensures
        r@ == described(i@),
{
    match i {
        Instruction::From { image } => cat2("FROM ", image.as_str()),
        Instruction::Run { command } => cat2("RUN ", command.as_str()),
        Instruction::Copy { src, dst } => cat4("COPY ", src.as_str(), " ", dst.as_str()),
        Instruction::Env { key, value } => cat4("ENV ", key.as_str(), "=", value.as_str()),
        Instruction::Cmd { command } => cat2("CMD ", command.as_str()),
        Instruction::Expose { port, proto } => {
            let n = u64_text(*port as u64);
            cat4("EXPOSE ", n.as_str(), "/", proto.as_str())
        },
        Instruction::Workdir { path } => cat2("WORKDIR ", path.as_str()),
    }
}

/// Whether an instruction makes a layer.
pub open spec fn makes_layer(i: InstructionView) -> bool {
    i is Copy || i is Run
}

/// The configuration after an instruction that ran on `c`.
pub open spec fn configured(c: ConfigView, i: InstructionView) -> ConfigView {
    match i {
        InstructionView::Env { key, value } => ConfigView { env: c.env.push((key, value)), ..c },
        InstructionView::Workdir { path } => ConfigView { workdir: path, ..c },
        InstructionView::Cmd { command } => ConfigView { cmd: Some(command), ..c },
        InstructionView::Expose { port, proto } => ConfigView {
            exposed_ports: c.exposed_ports.push((port, proto)),
            ..c
        },
        _ => c,
    }
}

/// The base image's reference and the instructions that follow `FROM`.
pub struct BuildPlan {
    pub base: String,
    pub instructions: Vec<Instruction>,
}

/// The base and the remaining instructions of a Kilnfile. The first
/// instruction must be `FROM`.
pub fn plan(source: &str) -> (r: Result<BuildPlan, Error>)
    ensures
        match parsed(source@) {
            Err(e) => r matches Err(Error::KilnfileParse { line, message }) && e == (line as nat, message@),
            Ok(all) => if all.len() == 0 {
                r matches Err(Error::Build(m)) && m@ == "Kilnfile is empty"@
            } else if all[0] is From {
                r matches Ok(p) && p.base@ == all[0]->image && instruction_views(p.instructions@)
                    == all.skip(1)
            } else {
                r matches Err(Error::Build(m)) && m@
                    == "the first instruction of a Kilnfile must be FROM"@
            },
        },
{
    match parse(source) {
        Err(e) => Err(e),
        Ok(all) => {
            let mut instructions = all;
            let ghost texts = instruction_views(instructions@);
            if instructions.len() == 0 {
                return Err(Error::Build("Kilnfile is empty".to_owned()));
            }
            let first = instructions.remove(0);
            assert(texts[0] == first@);
            match first {
                Instruction::From { image } => {
                    assert(instruction_views(instructions@) =~= texts.skip(1));
                    Ok(BuildPlan { base: image, instructions })
                },
                _ => Err(
                    Error::Build("the first instruction of a Kilnfile must be FROM".to_owned()),
                ),
            }
        },
    }
}

// ---- The build -------------------------------------------------------------

/// A build in progress.
pub struct Build {
    pub layers: Vec<crate::store::Hash>,
    pub config: ImageConfig,
    pub state: crate::store::Hash,
    pub steps: Vec<StepResult>,
}

/// The mathematical content of a [`Build`].
#[verifier::ext_equal]
pub struct BuildView {
    pub layers: Seq<Seq<u8>>,
    pub config: ConfigView,
    pub state: Seq<u8>,
    pub steps: Seq<(Seq<char>, bool)>,
}

/// The texts and cache marks of steps.
pub open spec fn step_views(v: Seq<StepResult>) -> Seq<(Seq<char>, bool)> {
    v.map_values(|s: StepResult| (s.instruction@, s.cached))
}

impl View for Build {
    type V = BuildView;

    open spec fn view(&self) -> BuildView {
        BuildView {
            layers: hash_bytes(self.layers@),
            config: self.config@,
            state: self.state@,
            steps: step_views(self.steps@),
        }
    }
}

/// A build that starts from `base`.
pub open spec fn started(base: ImageView) -> BuildView {
    BuildView {
        layers: base.layers,
        config: base.config,
        state: state_of_base(base),
        steps: Seq::empty(),
    }
}

/// A build after an instruction whose recorded result was reused.
pub open spec fn replayed(b: BuildView, i: InstructionView, content: Seq<u8>, entry: CacheView) -> BuildView {
    BuildView {
        layers: match entry.layer {
            Some(l) => b.layers.push(l),
            None => b.layers,
        },
        config: entry.config,
        state: state_after(b.state, i, content),
        steps: b.steps.push((described(i), true)),
    }
}

/// A build after an instruction that ran; `layer` is the layer it made, if
/// it is one that makes layers.
pub open spec fn executed(b: BuildView, i: InstructionView, content: Seq<u8>, layer: Seq<u8>) -> BuildView {
    BuildView {
        layers: if makes_layer(i) {
            b.layers.push(layer)
        } else {
            b.layers
        },
        config: configured(b.config, i),
        state: state_after(b.state, i, content),
        steps: b.steps.push((described(i), false)),
    }
}

/// What an instruction that ran leaves behind.
pub open spec fn recorded(b: BuildView, i: InstructionView, layer: Seq<u8>) -> CacheView {
    CacheView {
        layer: if makes_layer(i) {
            Some(layer)
        } else {
            None
        },
        config: configured(b.config, i),
    }
}

/// The error of a second `FROM`.
pub open spec fn misplaced_from() -> Seq<char> {
    "FROM may only appear as the first instruction"@
}

impl Build {
    /// A build that starts from `base`.
    pub fn start(base: &Image) -> (r: Build)
        ensures
            r@ == started(base@),
    {
        let mut layers: Vec<crate::store::Hash> = Vec::new();
        let mut i: usize = 0;
        while i < base.layers.len()
            invariant
                i <= base.layers@.len(),
                layers@ == base.layers@.take(i as int),
            decreases base.layers.len() - i,
        {
            layers.push(base.layers[i]);
            assert(base.layers@.take(i + 1) =~= base.layers@.take(i as int).push(base.layers@[i as int]));
            i += 1;
        }
        assert(base.layers@.take(i as int) =~= base.layers@);
        let id = base.id();
        let hex = id.to_hex();
        let bytes = bytes_of(hex.as_str());
        let state = chain(None, "FROM", bytes.as_slice());
        let r = Build { layers, config: base.config.duplicate(), state, steps: Vec::new() };
        assert(r@ =~= started(base@));
        r
    }

    /// The state behind `instruction`, under which its result is looked up.
    /// `content` is the hash of what a `COPY` copies; others ignore it.
    pub fn next_state(&self, instruction: &Instruction, content: crate::store::Hash) -> (r: Result<
        crate::store::Hash,
        Error,
    >)
        ensures
            match r {
                Ok(h) => !(instruction@ is From) && h@ == state_after(self@.state, instruction@, content@),
                Err(e) => instruction@ is From && (e matches Error::Build(m) && m@ == misplaced_from()),
            },
    {
        let label: &str;
        let payload: String;
        match instruction {
            Instruction::From { image } => {
                return Err(Error::Build("FROM may only appear as the first instruction".to_owned()));
            },
            Instruction::Run { command } => {
                label = "RUN";
                payload = command.clone();
            },
            Instruction::Copy { src, dst } => {
                label = "COPY";
                let mut p = dst.clone();
                p.push('\0');
                let hex = content.to_hex();
                p.append(hex.as_str());
                assert(p@ =~= payload_of(instruction@, content@));
                payload = p;
            },
            Instruction::Env { key, value } => {
                label = "ENV";
                let mut p = key.clone();
                p.push('\0');
                p.append(value.as_str());
                assert(p@ =~= payload_of(instruction@, content@));
                payload = p;
            },
            Instruction::Cmd { command } => {
                label = "CMD";
                payload = command.clone();
            },
            Instruction::Expose { port, proto } => {
                label = "EXPOSE";
                let n = u64_text(*port as u64);
                payload = cat3(n.as_str(), "/", proto.as_str());
            },
            Instruction::Workdir { path } => {
                label = "WORKDIR";
                payload = path.clone();
            },
        }
        let bytes = bytes_of(payload.as_str());
        Ok(chain(Some(self.state), label, bytes.as_slice()))
    }

    /// Takes over the recorded result of `instruction`.
    pub fn apply_cache_hit(&mut self, instruction: &Instruction, content: crate::store::Hash, entry: CacheEntry)
        requires
            !(instruction@ is From),
        ensures
            final(self)@ == replayed(old(self)@, instruction@, content@, entry@),
    {
        let state = match self.next_state(instruction, content) {
            Ok(s) => s,
            Err(_) => self.state,
        };
        let ghost before = self@;
        match entry.layer {
            Some(l) => {
                assert(hash_bytes(self.layers@.push(l)) =~= hash_bytes(self.layers@).push(l@));
                self.layers.push(l);
            },
            None => {},
        }
        let step = StepResult { instruction: describe(instruction), cached: true };
        assert(step_views(self.steps@.push(step)) =~= step_views(self.steps@).push(
            (step.instruction@, true),
        ));
        self.config = entry.config;
        self.state = state;
        self.steps.push(step);
        assert(self@ =~= replayed(before, instruction@, content@, entry@));
    }

    /// Decides on `instruction` by what an earlier build recorded for the state
    /// behind it: a recorded result is taken over, and without one nothing
    /// changes and the instruction has to run, which is what `true` says.
    pub fn step(
        &mut self,
        instruction: &Instruction,
        content: crate::store::Hash,
        found: Option<CacheEntry>,
    ) -> (r: bool)
        requires
            !(instruction@ is From),
        ensures
            match found {
                Some(entry) => !r && final(self)@ == replayed(old(self)@, instruction@, content@, entry@),
                None => r && *final(self) == *old(self),
            },
    {
        match found {
            Some(entry) => {
                self.apply_cache_hit(instruction, content, entry);
                false
            },
            None => true,
        }
    }

    /// Takes over `instruction` after it ran. `layer` is the layer that a
    /// `COPY` or `RUN` made; others ignore it. What is returned is to be
    /// recorded under the new state.
    pub fn apply_executed(
        &mut self,
        instruction: &Instruction,
        content: crate::store::Hash,
        layer: crate::store::Hash,
    ) -> (r: CacheEntry)
        requires
            !(instruction@ is From),
        ensures
            final(self)@ == executed(old(self)@, instruction@, content@, layer@),
            r@ == recorded(old(self)@, instruction@, layer@),
    {
        let state = match self.next_state(instruction, content) {
            Ok(s) => s,
            Err(_) => self.state,
        };
        let ghost before = self@;
        let mut made: Option<crate::store::Hash> = None;
        match instruction {
            Instruction::From { image } => {},
            Instruction::Env { key, value } => {
                self.config.env_set(key.clone(), value.clone());
            },
            Instruction::Workdir { path } => {
                self.config.workdir = path.clone();
                assert(self.config@ =~= configured(before.config, instruction@));
            },
            Instruction::Cmd { command } => {
                self.config.cmd = Some(command.clone());
                assert(self.config@ =~= configured(before.config, instruction@));
            },
            Instruction::Expose { port, proto } => {
                let pair = (*port, proto.clone());
                assert(port_texts(self.config.exposed_ports@.push(pair)) =~= port_texts(
                    self.config.exposed_ports@,
                ).push((pair.0, pair.1@)));
                self.config.exposed_ports.push(pair);
                assert(self.config@ =~= configured(before.config, instruction@));
            },
            Instruction::Copy { src, dst } => {
                made = Some(layer);
            },
            Instruction::Run { command } => {
                made = Some(layer);
            },
        }
        match made {
            Some(l) => {
                assert(hash_bytes(self.layers@.push(l)) =~= hash_bytes(self.layers@).push(l@));
                self.layers.push(l);
            },
            None => {},
        }
        let step = StepResult { instruction: describe(instruction), cached: false };
        assert(step_views(self.steps@.push(step)) =~= step_views(self.steps@).push(
            (step.instruction@, false),
        ));
        self.state = state;
        self.steps.push(step);
        assert(self@ =~= executed(before, instruction@, content@, layer@));
        let entry = CacheEntry { layer: made, config: self.config.duplicate() };
        assert(entry@ =~= recorded(before, instruction@, layer@));
        entry
    }

    /// The image that the build made.
    pub fn finish(self) -> (r: (Image, Vec<StepResult>))
        ensures
            r.0@ == (ImageView { layers: self@.layers, config: self@.config }),
            step_views(r.1@) == self@.steps,
    {
        let image = Image { layers: self.layers, config: self.config };
        assert(image@ =~= (ImageView { layers: self@.layers, config: self@.config }));
        (image, self.steps)
    }
}

// ---- COPY ------------------------------------------------------------------

/// One path of what a `COPY` copies: its path relative to the source, its raw
/// mode, and the hash of its content if it is a regular file.
pub struct ContextItem {
    pub path: String,
    pub mode: u32,
    pub content: Option<crate::store::Hash>,
}

/// A context path as it is hashed: path, permission bits, content hash.
#[verifier::ext_equal]
pub struct ItemView {
    pub path: Seq<char>,
    pub mode: u32,
    pub content: Seq<char>,
}

/// A context path in the form that is hashed.
struct HashedItem {
    path: String,
    mode: u32,
    content: String,
}

impl HashedItem {
    spec fn content_view(&self) -> ItemView {
        ItemView { path: self.path@, mode: self.mode, content: self.content@ }
    }
}

/// How context paths rank: by path, then mode, then content.
pub open spec fn item_rank(v: ItemView) -> Seq<int> {
    codes(v.path) + seq![-1int] + (seq![v.mode as int] + codes(v.content))
}

impl Ranked for HashedItem {
    closed spec fn rank(&self) -> Seq<int> {
        item_rank(self.content_view())
    }

    fn key(&self) -> (r: Vec<i64>) {
        let mut k: Vec<i64> = Vec::new();
        assert(key_ints(k@) =~= Seq::<int>::empty());
        push_codes(&mut k, self.path.as_str());
        push_number(&mut k, -1);
        push_number(&mut k, self.mode as i64);
        push_codes(&mut k, self.content.as_str());
        assert(key_ints(k@) =~= item_rank(self.content_view()));
        k
    }
}

/// Different context paths rank differently.
pub proof fn lemma_item_rank_separates()
    ensures
        separates(|v: ItemView| item_rank(v)),
{
    let rank = |v: ItemView| item_rank(v);
    assert forall|a: ItemView, b: ItemView| #[trigger] rank(a) == #[trigger] rank(b) implies a == b by {
        let x = seq![a.mode as int] + codes(a.content);
        let y = seq![b.mode as int] + codes(b.content);
        lemma_text_rank_splits(a.path, x, b.path, y);
        assert(x[0] == y[0]);
        assert(a.content.len() == b.content.len());
        assert forall|i: int| 0 <= i < a.content.len() implies a.content[i] == b.content[i] by {
            assert(x[i + 1] == a.content[i] as int);
            assert(y[i + 1] == b.content[i] as int);
        }
        assert(a.content =~= b.content);
    }
}

/// The form in which a context path is hashed.
pub open spec fn item_view(i: ContextItem) -> ItemView {
    ItemView {
        path: entry_path(i.path@),
        mode: permission_bits(i.mode),
        content: match i.content {
            Some(h) => hex_text(h@),
            None => ""@,
        },
    }
}

/// The forms in which context paths are hashed.
pub open spec fn item_views(v: Seq<ContextItem>) -> Seq<ItemView> {
    v.map_values(|i: ContextItem| item_view(i))
}

/// The JSON text of one context path.
pub open spec fn item_json(v: ItemView) -> Seq<char> {
    json_array(seq![json_string(v.path), decimal(v.mode as nat), json_string(v.content)])
}

/// The hash by which a `COPY` counts: of the paths, permission bits and
/// contents that are copied, in an order that does not depend on how they
/// were found.
pub open spec fn context_hash(items: Seq<ItemView>) -> Seq<u8> {
    sha256(
        encode_utf8(
            json_array(
                items.sort_by(rank_order(|v: ItemView| item_rank(v))).map_values(
                    |v: ItemView| item_json(v),
                ),
            ),
        ),
    )
}

/// The hash by which a `COPY` of these paths counts.
pub fn hash_context_paths(items: &Vec<ContextItem>) -> (r: crate::store::Hash)
    ensures
        r@ == context_hash(item_views(items@)),
{
    let ghost view = |h: HashedItem| h.content_view();
    let mut list: Vec<HashedItem> = Vec::new();
    let mut i: usize = 0;
    while i < items.len()
        invariant
            i <= items@.len(),
            list@.len() == i,
            forall|j: int| 0 <= j < i ==> #[trigger] list@[j].content_view() == item_view(items@[j]),
        decreases items.len() - i,
    {
        let item = &items[i];
        let content = match &item.content {
            Some(h) => h.to_hex(),
            None => "".to_owned(),
        };
        list.push(
            HashedItem {
                path: path_to_entry_string(item.path.as_str()),
                mode: item.mode & 0o7777,
                content,
            },
        );
        i += 1;
    }
    let ghost before = list@;
    let sorted = sort(list);
    let ghost want = item_views(items@).sort_by(rank_order(|v: ItemView| item_rank(v)));
    proof {
        lemma_item_rank_separates();
        lemma_sorted_contents(sorted@, before, view, |v: ItemView| item_rank(v));
        assert(before.map_values(view) =~= item_views(items@));
    }
    let mut texts: Vec<String> = Vec::new();
    let mut k: usize = 0;
    while k < sorted.len()
        invariant
            k <= sorted@.len(),
            want == sorted@.map_values(view),
            view == (|h: HashedItem| h.content_view()),
            views(texts@) == want.take(k as int).map_values(|v: ItemView| item_json(v)),
        decreases sorted.len() - k,
    {
        let item = &sorted[k];
        let mut parts: Vec<String> = Vec::new();
        parts.push(json_str(item.path.as_str()));
        parts.push(u64_text(item.mode as u64));
        parts.push(json_str(item.content.as_str()));
        assert(views(parts@) =~= seq![
            json_string(item.path@),
            decimal(item.mode as nat),
            json_string(item.content@),
        ]);
        let text = json_list(&parts);
        proof {
            assert(want[k as int] == item.content_view());
            assert(want.take(k + 1) =~= want.take(k as int).push(want[k as int]));
            assert(want.take(k + 1).map_values(|v: ItemView| item_json(v)) =~= want.take(
                k as int,
            ).map_values(|v: ItemView| item_json(v)).push(text@));
            assert(views(texts@.push(text)) =~= views(texts@).push(text@));
        }
        texts.push(text);
        k += 1;
    }
    assert(want.take(k as int) =~= want);
    let json = json_list(&texts);
    let bytes = bytes_of(json.as_str());
    crate::store::Hash::of_bytes(bytes.as_slice())
}

/// What a copied path is.
pub enum CopiedKind {
    Dir,
    Symlink { target: String },
    File { blob: crate::store::Hash, size: u64 },
}

/// One path below a copied directory.
pub struct Copied {
    pub path: String,
    pub mode: u32,
    pub kind: CopiedKind,
}

/// What a `COPY` copies: a directory's contents, or a single file.
pub enum CopySource {
    Dir(Vec<Copied>),
    File { mode: u32, blob: crate::store::Hash, size: u64 },
}

/// `s` without its leading slashes.
pub open spec fn without_slashes(s: Seq<char>) -> Seq<char>
    decreases s.len(),
{
    if s.len() > 0 && s[0] == '/' {
        without_slashes(s.drop_first())
    } else {
        s
    }
}

/// `s` without its leading slashes.
pub fn strip_slashes<'a>(s: &'a str) -> (r: &'a str)
    ensures
        r@ == without_slashes(s@),
{
    let cs = chars_of(s);
    let mut i: usize = 0;
    assert(s@.skip(0) =~= s@);
    while i < cs.len() && cs[i] == '/'
        invariant
            i <= cs@.len(),
            cs@ == s@,
            without_slashes(s@.skip(i as int)) == without_slashes(s@),
        decreases cs.len() - i,
    {
        assert(s@.skip(i as int).drop_first() =~= s@.skip(i + 1));
        i += 1;
    }
    let r = s.substring_char(i, cs.len());
    assert(r@ =~= s@.skip(i as int));
    r
}

/// Where a copied path lands.
pub open spec fn landing(dst: Seq<char>, path: Seq<char>) -> Seq<char> {
    let d = without_slashes(dst);
    if d.len() == 0 {
        entry_path(path)
    } else {
        d + "/"@ + entry_path(path)
    }
}

/// The entry that a copied path becomes: owned by the container's root.
pub open spec fn copied_entry(c: Copied, dst: Seq<char>) -> EntryView {
    EntryView {
        path: landing(dst, c.path@),
        mode: permission_bits(c.mode),
        uid: 0,
        gid: 0,
        kind: match c.kind {
            CopiedKind::Dir => KindView::Dir { opaque: false },
            CopiedKind::Symlink { target } => KindView::Symlink { target: entry_path(target@) },
            CopiedKind::File { blob, size } => KindView::File { blob: blob@, size },
        },
    }
}

/// The entries of the layer that a `COPY` to `dst` makes.
pub open spec fn copied_entries(source: CopySource, dst: Seq<char>) -> Seq<EntryView> {
    match source {
        CopySource::Dir(items) => in_order(items@.map_values(|c: Copied| copied_entry(c, dst))),
        CopySource::File { mode, blob, size } => in_order(
            seq![
                EntryView {
                    path: without_slashes(dst),
                    mode: permission_bits(mode),
                    uid: 0,
                    gid: 0,
                    kind: KindView::File { blob: blob@, size },
                },
            ],
        ),
    }
}

/// The layer that a `COPY` to `dst` makes.
pub fn execute_copy(source: &CopySource, dst: &str) -> (r: LayerManifest)
    ensures
        r@ == copied_entries(*source, dst@),
{
    let clean = strip_slashes(dst);
    let mut entries: Vec<Entry> = Vec::new();
    match source {
        CopySource::Dir(items) => {
            let mut i: usize = 0;
            while i < items.len()
                invariant
                    i <= items@.len(),
                    clean@ == without_slashes(dst@),
                    entries@.len() == i,
                    forall|j: int|
                        0 <= j < i ==> #[trigger] entries@[j]@ == copied_entry(items@[j], dst@),
                decreases items.len() - i,
            {
                let item = &items[i];
                let rel = path_to_entry_string(item.path.as_str());
                let path = if clean.is_empty() {
                    rel
                } else {
                    cat3(clean, "/", rel.as_str())
                };
                let kind = match &item.kind {
                    CopiedKind::Dir => EntryKind::Dir { opaque: false },
                    CopiedKind::Symlink { target } => EntryKind::Symlink {
                        target: path_to_entry_string(target.as_str()),
                    },
                    CopiedKind::File { blob, size } => EntryKind::File { blob: *blob, size: *size },
                };
                entries.push(Entry { path, mode: item.mode & 0o7777, uid: 0, gid: 0, kind });
                i += 1;
            }
            assert(crate::layer::entry_views(entries@) =~= items@.map_values(
                |c: Copied| copied_entry(c, dst@),
            ));
        },
        CopySource::File { mode, blob, size } => {
            entries.push(
                Entry {
                    path: clean.to_owned(),
                    mode: *mode & 0o7777,
                    uid: 0,
                    gid: 0,
                    kind: EntryKind::File { blob: *blob, size: *size },
                },
            );
            assert(crate::layer::entry_views(entries@) =~= seq![
                EntryView {
                    path: without_slashes(dst@),
                    mode: permission_bits(*mode),
                    uid: 0,
                    gid: 0,
                    kind: KindView::File { blob: blob@, size: *size },
                },
            ]);
        },
    }
    LayerManifest { entries: sort_entries(entries) }
}

// ---- RUN -------------------------------------------------------------------

/// How the process of a `RUN` step ended.
pub enum RunStatus {
    Exited(i32),
    /// Anything but a regular exit, described.
    Other(String),
}

/// Whether a `RUN` step succeeded: exactly an exit with status 0 does.
pub fn run_outcome(command: &str, status: &RunStatus) -> (r: Result<(), Error>)
    ensures
        match *status {
            RunStatus::Exited(code) => if code == 0 {
                r is Ok
            } else {
                r matches Err(Error::Build(m)) && m@ == "RUN "@ + quoted_text(command@)
                    + " exited with status "@ + signed_decimal(code as int)
            },
            RunStatus::Other(d) => r matches Err(Error::Build(m)) && m@ == "RUN "@ + quoted_text(command@)
                + " did not exit cleanly: "@ + d@,
        },
{
    match status {
        RunStatus::Exited(code) => {
            if *code == 0 {
                Ok(())
            } else {
                let q = quoted(command);
                let n = i32_text(*code);
                Err(Error::Build(cat4("RUN ", q.as_str(), " exited with status ", n.as_str())))
            }
        },
        RunStatus::Other(d) => {
            let q = quoted(command);
            Err(Error::Build(cat4("RUN ", q.as_str(), " did not exit cleanly: ", d.as_str())))
        },
    }
}

/// Where a container with this configuration starts: the root if nothing is set.
pub fn start_directory(config: &ImageConfig) -> (r: String)
    ensures
        r@ == (if config@.workdir.len() == 0 {
            "/"@
        } else {
            config@.workdir
        }),
{
    if config.workdir.as_str().is_empty() {
        "/".to_owned()
    } else {
        config.workdir.clone()
    }
}

/// The lower directories of a build step, highest priority first: the
/// materialized layers from the top down, or an empty directory where there
/// is no layer yet. `dirs` holds the layers' directories from the base up.
pub fn step_lower_dirs(store: &Store, dirs: &Vec<String>) -> (r: Vec<String>)
    ensures
        views(r@) == (if dirs@.len() == 0 {
            seq![joined_path(store.root@, "empty"@)]
        } else {
            views(dirs@).reverse()
        }),
{
    let mut out: Vec<String> = Vec::new();
    if dirs.len() == 0 {
        out.push(path_join(store.root.as_str(), "empty"));
        assert(views(out@) =~= seq![joined_path(store.root@, "empty"@)]);
        return out;
    }
    let mut n: usize = dirs.len();
    while n > 0
        invariant
            n <= dirs@.len(),
            views(out@) == views(dirs@).skip(n as int).reverse(),
        decreases n,
    {
        n -= 1;
        let d = dirs[n].clone();
        assert(views(dirs@).skip(n as int).reverse() =~= views(dirs@).skip(n + 1).reverse().push(
            views(dirs@)[n as int],
        ));
        assert(views(out@.push(d)) =~= views(out@).push(d@));
        out.push(d);
    }
    assert(views(dirs@).skip(0) =~= views(dirs@));
    out
}

// ---- Laws ------------------------------------------------------------------

/// Reusing what a step recorded comes to the same as running the step: the
/// same layers, the same configuration, the same state.
pub proof fn reuse_equals_execution(b: BuildView, i: InstructionView, content: Seq<u8>, layer: Seq<u8>)
    ensures
        ({
            let ran = executed(b, i, content, layer);
            let reused = replayed(b, i, content, recorded(b, i, layer));
            &&& reused.layers == ran.layers
            &&& reused.config == ran.config
            &&& reused.state == ran.state
        }),
{
}

/// A build from `base` over a series of instructions. `contents` holds the
/// content hash of each `COPY`, `layers` the layer that each instruction makes
/// when it runs, and `cached` whether its recorded result is reused instead.
pub open spec fn built(
    base: ImageView,
    instructions: Seq<InstructionView>,
    contents: Seq<Seq<u8>>,
    layers: Seq<Seq<u8>>,
    cached: Seq<bool>,
) -> BuildView
    decreases instructions.len(),
{
    if instructions.len() == 0 {
        started(base)
    } else {
        let n = instructions.len() - 1;
        let b = built(base, instructions.drop_last(), contents, layers, cached);
        let i = instructions.last();
        if cached[n] {
            replayed(b, i, contents[n], recorded(b, i, layers[n]))
        } else {
            executed(b, i, contents[n], layers[n])
        }
    }
}

/// The same instructions over the same contents make the same image, on
/// whatever store and whichever of the steps the cache of that store serves.
pub proof fn identical_builds_make_the_same_image(
    base: ImageView,
    instructions: Seq<InstructionView>,
    contents: Seq<Seq<u8>>,
    layers: Seq<Seq<u8>>,
    here: Seq<bool>,
    there: Seq<bool>,
)
    ensures
        ({
            let a = built(base, instructions, contents, layers, here);
            let b = built(base, instructions, contents, layers, there);
            &&& a.layers == b.layers
            &&& a.config == b.config
            &&& a.state == b.state
            &&& crate::image::image_id(ImageView { layers: a.layers, config: a.config })
                == crate::image::image_id(ImageView { layers: b.layers, config: b.config })
        }),
    decreases instructions.len(),
{
    if instructions.len() > 0 {
        identical_builds_make_the_same_image(base, instructions.drop_last(), contents, layers, here, there);
    }
}

/// The states behind each of a series of instructions; `contents` holds the
/// content hash of each `COPY`.
pub open spec fn states(seed: Seq<u8>, instructions: Seq<InstructionView>, contents: Seq<Seq<u8>>) -> Seq<
    Seq<u8>,
>
    decreases instructions.len(),
{
    if instructions.len() == 0 {
        Seq::empty()
    } else {
        let before = states(seed, instructions.drop_last(), contents);
        let last = if before.len() == 0 {
            seed
        } else {
            before.last()
        };
        before.push(
            state_after(last, instructions.last(), contents[instructions.len() - 1]),
        )
    }
}

/// Steps that come before a change stay as they were: two builds that start
/// alike and agree on their first `n` instructions and on what those copy
/// look their first `n` results up under the same states.
pub proof fn unchanged_steps_keep_their_states(
    seed: Seq<u8>,
    a: Seq<InstructionView>,
    ca: Seq<Seq<u8>>,
    b: Seq<InstructionView>,
    cb: Seq<Seq<u8>>,
    n: int,
)
    requires
        0 <= n <= a.len(),
        n <= b.len(),
        ca.len() == a.len(),
        cb.len() == b.len(),
        forall|i: int| 0 <= i < n ==> #[trigger] a[i] == b[i],
        forall|i: int| 0 <= i < n ==> #[trigger] ca[i] == cb[i],
    ensures
        states(seed, a, ca).take(n) == states(seed, b, cb).take(n),
    decreases a.len() + b.len(),
{
    lemma_states_len(seed, a, ca);
    lemma_states_len(seed, b, cb);
    if a.len() > n {
        lemma_states_ignore_later_contents(seed, a.drop_last(), ca, ca.drop_last());
        lemma_states_len(seed, a.drop_last(), ca);
        unchanged_steps_keep_their_states(seed, a.drop_last(), ca.drop_last(), b, cb, n);
        assert(states(seed, a, ca).take(n) =~= states(seed, a.drop_last(), ca).take(n));
    } else if b.len() > n {
        lemma_states_ignore_later_contents(seed, b.drop_last(), cb, cb.drop_last());
        lemma_states_len(seed, b.drop_last(), cb);
        unchanged_steps_keep_their_states(seed, a, ca, b.drop_last(), cb.drop_last(), n);
        assert(states(seed, b, cb).take(n) =~= states(seed, b.drop_last(), cb).take(n));
    } else {
        assert(a =~= b);
        assert(ca =~= cb);
    }
}

/// There is one state per instruction.
pub proof fn lemma_states_len(seed: Seq<u8>, a: Seq<InstructionView>, c: Seq<Seq<u8>>)
    ensures
        states(seed, a, c).len() == a.len(),
    decreases a.len(),
{
    if a.len() > 0 {
        lemma_states_len(seed, a.drop_last(), c);
    }
}

/// Contents past the last instruction do not matter.
proof fn lemma_states_ignore_later_contents(
    seed: Seq<u8>,
    a: Seq<InstructionView>,
    c: Seq<Seq<u8>>,
    d: Seq<Seq<u8>>,
)
    requires
        a.len() <= c.len(),
        a.len() <= d.len(),
        forall|i: int| 0 <= i < a.len() ==> #[trigger] c[i] == d[i],
    ensures
        states(seed, a, c) == states(seed, a, d),
    decreases a.len(),
{
    if a.len() > 0 {
        lemma_states_ignore_later_contents(seed, a.drop_last(), c, d);
        assert(c[a.len() - 1] == d[a.len() - 1]);
    }
}

/// What a step hashes gives away everything it depends on: two steps that
/// hash the same bytes followed the same state, are of the same kind and
/// carry the same data. So a change in any of these changes what is hashed,
/// for this step and, through the state, for every later one.
pub proof fn step_input_is_injective(
    p: Seq<u8>,
    l: Seq<char>,
    x: Seq<u8>,
    q: Seq<u8>,
    m: Seq<char>,
    y: Seq<u8>,
)
    requires
        p.len() == 32,
        q.len() == 32,
        vstd::utf8::is_ascii_chars(l),
        vstd::utf8::is_ascii_chars(m),
        !l.contains('\0'),
        !m.contains('\0'),
        chain_input(Some(p), l, x) == chain_input(Some(q), m, y),
    ensures
        p == q,
        l == m,
        x == y,
{
    let s = chain_input(Some(p), l, x);
    let hp = encode_utf8(hex_text(p));
    let hq = encode_utf8(hex_text(q));
    let el = encode_utf8(l);
    let em = encode_utf8(m);
    crate::codec::lemma_hex_text_ascii(p);
    crate::codec::lemma_hex_text_ascii(q);
    vstd::utf8::is_ascii_chars_encode_utf8(l);
    vstd::utf8::is_ascii_chars_encode_utf8(m);
    assert(hp =~= s.take(64));
    assert(hq =~= chain_input(Some(q), m, y).take(64));
    crate::codec::hex_round_trip(p);
    crate::codec::hex_round_trip(q);
    if l.len() < m.len() {
        assert(s[65 + l.len() as int] == 0);
        assert(chain_input(Some(q), m, y)[65 + l.len() as int] == em[l.len() as int]);
        assert(em[l.len() as int] == m[l.len() as int] as u8);
        assert(m.contains(m[l.len() as int]));
        lemma_ascii_nonzero(m[l.len() as int]);
    }
    if m.len() < l.len() {
        assert(chain_input(Some(q), m, y)[65 + m.len() as int] == 0);
        assert(s[65 + m.len() as int] == el[m.len() as int]);
        assert(el[m.len() as int] == l[m.len() as int] as u8);
        assert(l.contains(l[m.len() as int]));
        lemma_ascii_nonzero(l[m.len() as int]);
    }
    assert(l.len() == m.len());
    assert(el =~= s.subrange(65, 65 + l.len() as int));
    assert(em =~= chain_input(Some(q), m, y).subrange(65, 65 + m.len() as int));
    vstd::utf8::encode_utf8_decode_utf8(l);
    vstd::utf8::encode_utf8_decode_utf8(m);
    assert(x =~= s.skip(66 + l.len() as int));
    assert(y =~= chain_input(Some(q), m, y).skip(66 + m.len() as int));
}

/// An ASCII character other than NUL is a byte other than zero.
proof fn lemma_ascii_nonzero(c: char)
    requires
        c != '\0',
        0 <= c as int <= 127,
    ensures
        c as u8 != 0,
{
}

/// A record of the build cache can be read back in one way only: records whose
/// files hold the same text are the same.
pub proof fn files_show_the_record(c: CacheView, d: CacheView)
    requires
        cache_file_text(c) == cache_file_text(d),
    ensures
        c == d,
{
    let a = cache_line_members(c);
    let b = cache_line_members(d);
    let hex = |h: Option<Seq<u8>>| match h {
        Some(x) => Some(hex_text(x)),
        None => None::<Seq<char>>,
    };
    optional_strings_show_their_text(hex(c.layer), hex(d.layer));
    files_show_the_configuration(c.config, d.config, 1);
    members_show_their_values("layer"@, json_opt_string(hex(c.layer)), json_opt_string(hex(d.layer)));
    members_show_their_values("config"@, config_lines(c.config, 1), config_lines(d.config, 1));
    assert forall|i: int| 0 <= i < a.len() && i < b.len() implies told_apart(#[trigger] a[i], b[i]) by {
        assert(i == 0 || i == 1);
    }
    objects_show_their_members(a, b, 0);
    assert(a[0] == b[0] && a[1] == b[1]);
    if c.layer is Some && d.layer is Some {
        hex_text_is_injective(c.layer->0, d.layer->0);
    }
    assert(c =~= d);
}

/// Texts without a NUL are what they were behind a NUL between them.
proof fn lemma_nul_splits(a: Seq<char>, x: Seq<char>, b: Seq<char>, y: Seq<char>)
    requires
        !a.contains('\0'),
        !b.contains('\0'),
        a + seq!['\0'] + x == b + seq!['\0'] + y,
    ensures
        a == b,
        x == y,
{
    let s = a + seq!['\0'] + x;
    let t = b + seq!['\0'] + y;
    if a.len() < b.len() {
        assert(s[a.len() as int] == '\0');
        assert(t[a.len() as int] == b[a.len() as int]);
        assert(b.contains(b[a.len() as int]));
    }
    if b.len() < a.len() {
        assert(t[b.len() as int] == '\0');
        assert(s[b.len() as int] == a[b.len() as int]);
        assert(a.contains(a[b.len() as int]));
    }
    assert(a =~= s.take(a.len() as int));
    assert(b =~= t.take(a.len() as int));
    assert(x =~= s.skip(a.len() as int + 1));
    assert(y =~= t.skip(a.len() as int + 1));
}

/// The kinds of instructions are ASCII words, no two of them the same.
proof fn lemma_labels(i: InstructionView, j: InstructionView)
    ensures
        vstd::utf8::is_ascii_chars(label_of(i)),
        !label_of(i).contains('\0'),
        label_of(i) == label_of(j) ==> (i is From <==> j is From) && (i is Run <==> j is Run) && (i is Copy
            <==> j is Copy) && (i is Env <==> j is Env) && (i is Cmd <==> j is Cmd) && (i is Expose <==> j is Expose)
            && (i is Workdir <==> j is Workdir),
{
    reveal_strlit("FROM");
    reveal_strlit("RUN");
    reveal_strlit("COPY");
    reveal_strlit("ENV");
    reveal_strlit("CMD");
    reveal_strlit("EXPOSE");
    reveal_strlit("WORKDIR");
    let l = label_of(i);
    let m = label_of(j);
    if l == m {
        assert(l[0] == m[0] && l.len() == m.len());
    }
}

/// A cached result is only reused where nothing that the step depends on
/// changed. A step's state is the hash of its input, and two steps of the same
/// input followed the same state and do the same: they run the same command,
/// set the same variable to the same value, name the same command, directory
/// or port, or copy the same content to the same place. Names of variables
/// must not hold a NUL.
pub proof fn changed_steps_are_not_reused(
    p: Seq<u8>,
    i: InstructionView,
    c: Seq<u8>,
    q: Seq<u8>,
    j: InstructionView,
    d: Seq<u8>,
)
    requires
        p.len() == 32,
        q.len() == 32,
        c.len() == 32,
        d.len() == 32,
        i matches InstructionView::Env { key, .. } ==> !key.contains('\0'),
        j matches InstructionView::Env { key, .. } ==> !key.contains('\0'),
    ensures
        state_after(p, i, c) == sha256(step_input(p, i, c)),
        step_input(p, i, c) == step_input(q, j, d) ==> p == q && match (i, j) {
            (InstructionView::From { image: a }, InstructionView::From { image: b }) => a == b,
            (InstructionView::Run { command: a }, InstructionView::Run { command: b }) => a == b,
            (InstructionView::Copy { dst: a, .. }, InstructionView::Copy { dst: b, .. }) => a == b && c == d,
            (InstructionView::Env { key: k, value: v }, InstructionView::Env { key: l, value: w }) => k == l && v == w,
            (InstructionView::Cmd { command: a }, InstructionView::Cmd { command: b }) => a == b,
            (
                InstructionView::Expose { port: m, proto: a },
                InstructionView::Expose { port: n, proto: b },
            ) => m == n && a == b,
            (InstructionView::Workdir { path: a }, InstructionView::Workdir { path: b }) => a == b,
            _ => false,
        },
{
    if step_input(p, i, c) == step_input(q, j, d) {
        let x = payload_of(i, c);
        let y = payload_of(j, d);
        lemma_labels(i, j);
        lemma_labels(j, i);
        step_input_is_injective(p, label_of(i), encode_utf8(x), q, label_of(j), encode_utf8(y));
        vstd::utf8::encode_utf8_decode_utf8(x);
        vstd::utf8::encode_utf8_decode_utf8(y);
        assert(x == y);
        match (i, j) {
            (InstructionView::Env { key: k, value: v }, InstructionView::Env { key: l, value: w }) => {
                lemma_nul_splits(k, v, l, w);
            },
            (InstructionView::Copy { dst: a, .. }, InstructionView::Copy { dst: b, .. }) => {
                assert(hex_text(c).len() == 64 && hex_text(d).len() == 64);
                assert(a.len() == b.len());
                assert(a =~= x.take(a.len() as int));
                assert(b =~= y.take(a.len() as int));
                assert(hex_text(c) =~= x.skip(a.len() as int + 1));
                assert(hex_text(d) =~= y.skip(a.len() as int + 1));
                hex_text_is_injective(c, d);
            },
            (InstructionView::Expose { port: m, proto: a }, InstructionView::Expose { port: n, proto: b }) => {
                reveal_strlit("/");
                lemma_port_splits(m as nat, a, n as nat, b);
            },
            _ => {},
        }
    }
}

/// A number in front of a slash ends there.
proof fn lemma_port_splits(m: nat, a: Seq<char>, n: nat, b: Seq<char>)
    requires
        decimal(m) + "/"@ + a == decimal(n) + "/"@ + b,
    ensures
        m == n,
        a == b,
{
    reveal_strlit("/");
    crate::num::lemma_decimal(m);
    crate::num::lemma_decimal(n);
    let k = decimal(m).len() as int;
    let l = decimal(n).len() as int;
    let s = decimal(m) + "/"@ + a;
    let t = decimal(n) + "/"@ + b;
    if k < l {
        assert(s[k] == '/');
        assert(t[k] == decimal(n)[k]);
        assert(crate::num::is_digit(decimal(n)[k]));
    }
    if l < k {
        assert(t[l] == '/');
        assert(s[l] == decimal(m)[l]);
        assert(crate::num::is_digit(decimal(m)[l]));
    }
    assert(decimal(m) =~= s.take(k));
    assert(decimal(n) =~= t.take(k));
    assert(a =~= s.skip(k + 1));
    assert(b =~= t.skip(k + 1));
    crate::num::decimal_is_injective(m, n);
}

/// Nothing else makes a step run again: what is not copied does not count, and
/// a `COPY` counts by what it copies, not by where that came from.
pub proof fn unchanged_steps_are_reused(
    p: Seq<u8>,
    i: InstructionView,
    j: InstructionView,
    c: Seq<u8>,
    d: Seq<u8>,
)
    requires
        match (i, j) {
            (InstructionView::Copy { dst: a, .. }, InstructionView::Copy { dst: b, .. }) => a == b && c == d,
            _ => i == j && !(i is Copy),
        },
    ensures
        state_after(p, i, c) == state_after(p, j, d),
{
}

/// What each instruction does to an image: `ENV` sets its variable to its
/// value and no other, `WORKDIR`, `CMD` and `EXPOSE` say their own part of the
/// configuration, and `RUN` and `COPY` put their layer on top of the others.
/// Nothing but that changes.
pub proof fn instructions_do_their_part(b: BuildView, i: InstructionView, content: Seq<u8>, layer: Seq<u8>)
    ensures
        ({
            let after = executed(b, i, content, layer);
            let config = after.config;
            &&& i is Run || i is Copy ==> after.layers.len() == b.layers.len() + 1 && after.layers.last() == layer
                && after.layers.drop_last() == b.layers && config == b.config
            &&& !(i is Run || i is Copy) ==> after.layers == b.layers
            &&& i matches InstructionView::Env { key, value } ==> env_value(config.env, key) == Some(value)
                && forall|k: Seq<char>| k != key ==> #[trigger] env_value(config.env, k) == env_value(b.config.env, k)
            &&& !(i is Env) ==> config.env == b.config.env
            &&& config.workdir == match i {
                InstructionView::Workdir { path } => path,
                _ => b.config.workdir,
            }
            &&& config.cmd == match i {
                InstructionView::Cmd { command } => Some(command),
                _ => b.config.cmd,
            }
            &&& i matches InstructionView::Expose { port, proto } ==> config.exposed_ports.contains((port, proto))
                && forall|e: (u16, Seq<char>)|
                e != (port, proto) ==> (#[trigger] config.exposed_ports.contains(e)
                    <==> b.config.exposed_ports.contains(e))
            &&& !(i is Expose) ==> config.exposed_ports == b.config.exposed_ports
        }),
{
    let after = executed(b, i, content, layer);
    assert(b.layers.push(layer).drop_last() =~= b.layers);
    match i {
        InstructionView::Env { key, value } => {
            assert(b.config.env.push((key, value)).drop_last() =~= b.config.env);
        },
        InstructionView::Expose { port, proto } => {
            let ports = b.config.exposed_ports;
            let now = ports.push((port, proto));
            assert(now[ports.len() as int] == (port, proto));
            assert forall|e: (u16, Seq<char>)| e != (port, proto) implies (#[trigger] now.contains(e)
                <==> ports.contains(e)) by {
                if ports.contains(e) {
                    let k = choose|k: int| 0 <= k < ports.len() && ports[k] == e;
                    assert(now[k] == e);
                }
                if now.contains(e) {
                    let k = choose|k: int| 0 <= k < now.len() && now[k] == e;
                    assert(ports[k] == e);
                }
            }
        },
        _ => {},
    }
}

/// The text whose hash a `COPY` counts by.
pub open spec fn context_text(items: Seq<ItemView>) -> Seq<char> {
    json_array(
        items.sort_by(rank_order(|v: ItemView| item_rank(v))).map_values(|v: ItemView| item_json(v)),
    )
}

/// Context paths on one line can be told apart, and show all that counts.
proof fn lemma_item_json(v: ItemView, w: ItemView)
    ensures
        told_apart(item_json(v), item_json(w)),
        begins_item(item_json(v)),
        item_json(v) == item_json(w) ==> v == w,
{
    let a = seq![json_string(v.path), decimal(v.mode as nat), json_string(v.content)];
    let b = seq![json_string(w.path), decimal(w.mode as nat), json_string(w.content)];
    strings_show_their_text(v.path, w.path);
    numbers_show_their_value(v.mode as nat, w.mode as nat);
    strings_show_their_text(v.content, w.content);
    assert forall|i: int| 0 <= i < a.len() && i < b.len() implies told_apart(#[trigger] a[i], b[i]) by {
        assert(i == 0 || i == 1 || i == 2);
    }
    lists_show_their_items(a, b);
    if a == b {
        assert(a[0] == b[0] && a[1] == b[1] && a[2] == b[2]);
    }
}

/// The hash that a `COPY` counts by covers everything that is copied: it is
/// taken of a text that shows every path with its permissions and its content,
/// in whatever order they were found.
pub proof fn copies_count_by_everything_copied(c: Seq<ItemView>, d: Seq<ItemView>)
    ensures
        context_hash(c) == sha256(encode_utf8(context_text(c))),
        encode_utf8(context_text(c)) == encode_utf8(context_text(d)) ==> c.to_multiset() == d.to_multiset(),
        c.to_multiset() == d.to_multiset() ==> context_hash(c) == context_hash(d),
{
    let less = rank_order(|v: ItemView| item_rank(v));
    lemma_item_rank_separates();
    crate::order::lemma_rank_order_total(|v: ItemView| item_rank(v));
    c.lemma_sort_by_ensures(less);
    d.lemma_sort_by_ensures(less);
    let x = c.sort_by(less);
    let y = d.sort_by(less);
    if encode_utf8(context_text(c)) == encode_utf8(context_text(d)) {
        vstd::utf8::encode_utf8_decode_utf8(context_text(c));
        vstd::utf8::encode_utf8_decode_utf8(context_text(d));
        let text = |v: ItemView| item_json(v);
        let a = x.map_values(text);
        let b = y.map_values(text);
        assert forall|i: int| 0 <= i < a.len() && i < b.len() implies told_apart(#[trigger] a[i], b[i]) by {
            lemma_item_json(x[i], y[i]);
        }
        if x.len() > 0 {
            lemma_item_json(x[0], x[0]);
        }
        if y.len() > 0 {
            lemma_item_json(y[0], y[0]);
        }
        lists_show_their_items(a, b);
        assert(x.len() == a.len() && y.len() == b.len());
        assert forall|i: int| 0 <= i < x.len() implies x[i] == y[i] by {
            assert(a[i] == b[i]);
            lemma_item_json(x[i], y[i]);
        }
        assert(x =~= y);
    }
    if c.to_multiset() == d.to_multiset() {
        vstd::seq_lib::lemma_sorted_unique(x, y, less);
    }
}

/// A context path is hashed with its path, permissions and content: two paths
/// that are hashed alike agree in each of them.
pub proof fn paths_count_with_permissions_and_content(i: ContextItem, j: ContextItem)
    requires
        item_view(i) == item_view(j),
        i.content matches Some(h) ==> h@.len() == 32,
        j.content matches Some(h) ==> h@.len() == 32,
    ensures
        entry_path(i.path@) == entry_path(j.path@),
        permission_bits(i.mode) == permission_bits(j.mode),
        match (i.content, j.content) {
            (Some(a), Some(b)) => a@ == b@,
            (None, None) => true,
            _ => false,
        },
{
    reveal_strlit("");
    match (i.content, j.content) {
        (Some(a), Some(b)) => {
            hex_text_is_injective(a@, b@);
        },
        (Some(a), None) => {
            assert(hex_text(a@).len() == 64);
        },
        (None, Some(b)) => {
            assert(hex_text(b@).len() == 64);
        },
        _ => {},
    }
}

/// Leading slashes come off, and nothing else does.
proof fn lemma_without_slashes(s: Seq<char>)
    ensures
        s.len() > 0 && s[0] != '/' ==> without_slashes(s) == s,
        without_slashes(seq!['/'] + s) == without_slashes(s),
{
    assert((seq!['/'] + s).drop_first() =~= s);
}

/// A copied path lands below the destination, under its own relative path with
/// forward slashes, with its own permissions and kind, and belongs to the
/// container's root. `/` is the destination at the very top.
pub proof fn copies_land_below_the_destination(c: Copied, dir: Seq<char>)
    requires
        dir.len() > 0,
        dir[0] != '/',
    ensures
        ({
            let e = copied_entry(c, seq!['/'] + dir);
            &&& e.path == dir + seq!['/'] + entry_path(c.path@)
            &&& copied_entry(c, dir) == e
            &&& copied_entry(c, seq!['/']).path == entry_path(c.path@)
            &&& e.mode == c.mode % 4096
            &&& e.uid == 0
            &&& e.gid == 0
            &&& c.kind is Dir ==> e.kind == (KindView::Dir { opaque: false })
            &&& c.kind matches CopiedKind::Symlink { target } ==> e.kind == (KindView::Symlink {
                target: entry_path(target@),
            })
            &&& c.kind matches CopiedKind::File { blob, size } ==> e.kind == (KindView::File { blob: blob@, size })
        }),
        forall|i: int|
            0 <= i < c.path@.len() ==> #[trigger] entry_path(c.path@)[i] == (if c.path@[i] == '\\' {
                '/'
            } else {
                c.path@[i]
            }),
        entry_path(c.path@).len() == c.path@.len(),
{
    lemma_without_slashes(dir);
    lemma_without_slashes(Seq::empty());
    assert(seq!['/'] + Seq::<char>::empty() =~= seq!['/']);
    reveal_strlit("/");
    assert("/"@ =~= seq!['/']);
    crate::store::permission_bits_are_the_low_ones(c.mode);
    crate::text::characters_are_replaced_one_for_one(c.path@, '\\', '/');
}

/// A copied directory makes one entry of each path in it and no others, and a
/// copied file makes one entry, at the destination itself.
pub proof fn copies_are_complete(items: Vec<Copied>, mode: u32, blob: crate::store::Hash, size: u64, dst: Seq<char>)
    requires
        dst.len() > 0,
        dst[0] != '/',
    ensures
        copied_entries(CopySource::Dir(items), dst).to_multiset() == items@.map_values(
            |c: Copied| copied_entry(c, dst),
        ).to_multiset(),
        copied_entries(CopySource::File { mode, blob, size }, seq!['/'] + dst) == seq![
            EntryView {
                path: dst,
                mode: (mode % 4096) as u32,
                uid: 0,
                gid: 0,
                kind: KindView::File { blob: blob@, size },
            },
        ],
{
    lemma_without_slashes(dst);
    crate::store::permission_bits_are_the_low_ones(mode);
    let e = EntryView {
        path: dst,
        mode: (mode % 4096) as u32,
        uid: 0,
        gid: 0,
        kind: KindView::File { blob: blob@, size },
    };
    crate::layer::sorting_keeps_the_entries(seq![e]);
    crate::layer::sorting_keeps_the_entries(items@.map_values(|c: Copied| copied_entry(c, dst)));
    let out = in_order(seq![e]);
    assert(out.len() == 1);
    out.to_multiset_ensures();
    seq![e].to_multiset_ensures();
    assert(out[0] == e) by {
        assert(out.contains(out[0]));
        assert(seq![e].to_multiset().count(out[0]) > 0);
        assert(seq![e].contains(out[0]));
    }
    assert(out =~= seq![e]);
}

/// The line that describes an instruction is read as that instruction's verb
/// and its words: the verb stands in front, and what follows it is what was
/// written.
pub proof fn descriptions_begin_with_the_verb(i: InstructionView)
    ensures
        match i {
            InstructionView::From { image } => crate::text::cut_white(described(i)) == Some(("FROM"@, image)),
            InstructionView::Run { command } => crate::text::cut_white(described(i)) == Some(("RUN"@, command)),
            InstructionView::Copy { src, dst } => crate::text::cut_white(described(i)) == Some(
                ("COPY"@, src + seq![' '] + dst),
            ),
            InstructionView::Env { key, value } => crate::text::cut_white(described(i)) == Some(
                ("ENV"@, key + seq!['='] + value),
            ),
            InstructionView::Cmd { command } => crate::text::cut_white(described(i)) == Some(("CMD"@, command)),
            InstructionView::Expose { port, proto } => crate::text::cut_white(described(i)) == Some(
                ("EXPOSE"@, decimal(port as nat) + seq!['/'] + proto),
            ),
            InstructionView::Workdir { path } => crate::text::cut_white(described(i)) == Some(("WORKDIR"@, path)),
        },
{
    reveal_strlit(" ");
    reveal_strlit("=");
    reveal_strlit("/");
    reveal_strlit("FROM");
    reveal_strlit("FROM ");
    reveal_strlit("RUN");
    reveal_strlit("RUN ");
    reveal_strlit("COPY");
    reveal_strlit("COPY ");
    reveal_strlit("ENV");
    reveal_strlit("ENV ");
    reveal_strlit("CMD");
    reveal_strlit("CMD ");
    reveal_strlit("EXPOSE");
    reveal_strlit("EXPOSE ");
    reveal_strlit("WORKDIR");
    reveal_strlit("WORKDIR ");
    let verb = match i {
        InstructionView::From { image } => "FROM"@,
        InstructionView::Run { command } => "RUN"@,
        InstructionView::Copy { src, dst } => "COPY"@,
        InstructionView::Env { key, value } => "ENV"@,
        InstructionView::Cmd { command } => "CMD"@,
        InstructionView::Expose { port, proto } => "EXPOSE"@,
        InstructionView::Workdir { path } => "WORKDIR"@,
    };
    let rest = match i {
        InstructionView::From { image } => image,
        InstructionView::Run { command } => command,
        InstructionView::Copy { src, dst } => src + seq![' '] + dst,
        InstructionView::Env { key, value } => key + seq!['='] + value,
        InstructionView::Cmd { command } => command,
        InstructionView::Expose { port, proto } => decimal(port as nat) + seq!['/'] + proto,
        InstructionView::Workdir { path } => path,
    };
    assert(described(i) =~= verb + seq![' '] + rest);
    crate::text::words_end_at_white_space(verb, ' ', rest);
}

/// The record of a state stands under the state.
pub proof fn records_stand_under_their_state(root: Seq<char>, state: Seq<u8>)
    requires
        root.len() > 0,
        root.last() != '/',
        state.len() > 0,
    ensures
        cache_file(root, state) == root + "/build-cache/"@ + hex_text(state) + ".json"@,
{
    reveal_strlit("build-cache");
    reveal_strlit("/build-cache/");
    reveal_strlit(".json");
    crate::codec::bytes_are_two_digits(state, 0);
    let t = hex_text(state);
    assert(t[0] != '/');
    assert(cache_file(root, state) =~= root + "/build-cache/"@ + t + ".json"@);
}

/// A build starts with the layers and the configuration of its base, and with
/// nothing done.
pub proof fn builds_start_from_their_base(base: ImageView)
    ensures
        started(base).layers == base.layers,
        started(base).config == base.config,
        started(base).steps.len() == 0,
{
}

/// What is hashed for a step is the state before it, its verb and its words,
/// set apart by zero bytes; a `COPY` counts by its destination and by what is
/// copied.
pub proof fn states_hash_the_verb_and_its_words(prev: Seq<u8>, i: InstructionView, content: Seq<u8>)
    ensures
        ({
            let hashed = |verb: Seq<char>, words: Seq<char>|
                sha256(
                    encode_utf8(hex_text(prev)) + seq![0u8] + encode_utf8(verb) + seq![0u8] + encode_utf8(words),
                );
            let state = state_after(prev, i, content);
            match i {
                InstructionView::From { image } => state == hashed("FROM"@, image),
                InstructionView::Run { command } => state == hashed("RUN"@, command),
                InstructionView::Copy { src, dst } => state == hashed("COPY"@, dst + seq!['\0'] + hex_text(content)),
                InstructionView::Env { key, value } => state == hashed("ENV"@, key + seq!['\0'] + value),
                InstructionView::Cmd { command } => state == hashed("CMD"@, command),
                InstructionView::Expose { port, proto } => state == hashed(
                    "EXPOSE"@,
                    decimal(port as nat) + seq!['/'] + proto,
                ),
                InstructionView::Workdir { path } => state == hashed("WORKDIR"@, path),
            }
        }),
{
    reveal_strlit("/");
    assert("/"@ =~= seq!['/']);
}

/// The first state of a build hashes the id of its base.
pub proof fn the_first_state_hashes_the_base(base: ImageView)
    ensures
        state_of_base(base) == sha256(
            seq![0u8] + encode_utf8("FROM"@) + seq![0u8] + encode_utf8(hex_text(image_id(base))),
        ),
        started(base).state == state_of_base(base),
{
    assert(Seq::<u8>::empty() + seq![0u8] =~= seq![0u8]);
}

} // verus!
