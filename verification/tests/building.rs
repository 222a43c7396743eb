use kiln::builder::{
    chain, describe, execute_copy, hash_context_paths, plan, run_outcome, start_directory, step_lower_dirs,
    strip_slashes, Build, CacheEntry, ContextItem, Copied, CopiedKind, CopySource, RunStatus, StepResult,
};
use kiln::error::Error;
use kiln::image::{Image, ImageConfig, Resolved};
use kiln::kilnfile::{parse, parse_instruction, Instruction};
use kiln::layer::{Entry, EntryKind, LayerManifest};
use kiln::store::Store;
use std::collections::HashMap;

/// A store of its own: the cache entries by path, and nothing else.
struct World {
    store: Store,
    cache: HashMap<String, CacheEntry>,
}

fn world(root: &str) -> World {
    let (store, _) = Store::open(root.to_string());
    World { store, cache: HashMap::new() }
}

/// The files of a build context.
type Context = Vec<(&'static str, &'static str)>;

struct Output {
    image: Image,
    steps: Vec<StepResult>,
}

/// What a `RUN` would leave behind: one file that depends on nothing but the command.
fn run_layer(command: &str) -> LayerManifest {
    LayerManifest {
        entries: vec![Entry {
            path: "ran.txt".to_string(),
            mode: 0o644,
            uid: 0,
            gid: 0,
            kind: EntryKind::File {
                blob: kiln::store::Hash::of_bytes(command.as_bytes()),
                size: command.len() as u64,
            },
        }],
    }
}

fn content_hash(context: &Context, i: &Instruction) -> kiln::store::Hash {
    match i {
        Instruction::Copy { src, .. } => {
            let items: Vec<ContextItem> = context
                .iter()
                .filter(|(path, _)| path == src)
                .map(|(path, text)| ContextItem {
                    path: path.to_string(),
                    mode: 0o644,
                    content: Some(kiln::store::Hash::of_bytes(text.as_bytes())),
                })
                .collect();
            hash_context_paths(&items)
        }
        _ => kiln::store::Hash::of_bytes(b""),
    }
}

fn layer_of(context: &Context, i: &Instruction) -> kiln::store::Hash {
    match i {
        Instruction::Copy { src, dst } => {
            let (_, text) = context.iter().find(|(path, _)| path == src).unwrap();
            let source = CopySource::File {
                mode: 0o644,
                blob: kiln::store::Hash::of_bytes(text.as_bytes()),
                size: text.len() as u64,
            };
            execute_copy(&source, dst).id()
        }
        Instruction::Run { command } => run_layer(command).id(),
        _ => kiln::store::Hash::of_bytes(b""),
    }
}

fn build(world: &mut World, context: &Context, source: &str) -> Output {
    let p = plan(source).unwrap();
    let nothing: Vec<String> = Vec::new();
    let base = match Image::resolve(&world.store, &p.base, &nothing, Err("no such file".to_string())).unwrap() {
        Resolved::Scratch(i) => i,
        Resolved::Stored(_) => panic!("only scratch is used here"),
    };
    let mut b = Build::start(&base);
    for i in &p.instructions {
        let content = content_hash(context, i);
        let state = b.next_state(i, content).unwrap();
        let path = kiln::builder::cache_path(&world.store, &state);
        let hit = world.cache.get(&path).map(|e| CacheEntry { layer: e.layer, config: e.config.duplicate() });
        if b.step(i, content, hit) {
            let entry = b.apply_executed(i, content, layer_of(context, i));
            world.cache.insert(path, entry);
        }
    }
    let (image, steps) = b.finish();
    Output { image, steps }
}

#[test]
fn a_step_runs_only_without_a_record() {
    let base = Image { layers: vec![], config: ImageConfig::default() };
    let nothing = kiln::store::Hash::of_bytes(b"");
    let i = Instruction::Workdir { path: "/w".to_string() };
    let mut b = Build::start(&base);
    let state = b.next_state(&i, nothing).unwrap();
    assert!(b.step(&i, nothing, None));
    assert!(b.next_state(&i, nothing).unwrap().same(&state));
    let entry = b.apply_executed(&i, nothing, nothing);
    let want = "{\n  \"layer\": null,\n  \"config\": {\n    \"env\": [],\n    \"cmd\": null,\n    \"workdir\": \"/w\",\n    \
                \"exposed_ports\": []\n  }\n}";
    assert_eq!(entry.file_text(), want);
    let layer = kiln::store::Hash::of_bytes(b"l");
    let made = CacheEntry { layer: Some(layer), config: ImageConfig::default() };
    assert!(made.file_text().starts_with(&format!("{{\n  \"layer\": \"{}\",\n", layer.to_hex())));
    let mut again = Build::start(&base);
    assert!(!again.step(&i, nothing, Some(entry)));
    let (image, steps) = again.finish();
    assert_eq!(image.config.workdir, "/w");
    assert!(steps.len() == 1 && steps[0].cached);
    assert!(image.id().same(&b.finish().0.id()));
}

#[test]
fn unchanged_steps_are_served_from_cache() {
    let mut w = world("/store");
    let ctx: Context = vec![("busybox", "shell")];
    let kilnfile_v1 = "\
FROM scratch
COPY busybox /bin/sh
RUN echo one > /one.txt
RUN echo two > /two.txt
";
    let out1 = build(&mut w, &ctx, kilnfile_v1);
    assert!(out1.steps.iter().all(|s| !s.cached));

    let out2 = build(&mut w, &ctx, kilnfile_v1);
    assert!(out2.steps.iter().all(|s| s.cached), "identical rebuild should be fully cached");
    assert!(out1.image.id().same(&out2.image.id()));

    let kilnfile_v2 = "\
FROM scratch
COPY busybox /bin/sh
RUN echo one > /one.txt
RUN echo two > /two.txt
RUN echo three > /three.txt
";
    let out3 = build(&mut w, &ctx, kilnfile_v2);
    assert_eq!(out3.steps.len(), 4);
    assert!(out3.steps[0].cached, "unchanged COPY busybox should be cached");
    assert!(out3.steps[1].cached, "unchanged RUN one should be cached");
    assert!(out3.steps[2].cached, "unchanged RUN two should be cached");
    assert!(!out3.steps[3].cached, "new RUN three should actually run");
}

#[test]
fn changing_a_copy_source_invalidates_only_that_step_onward() {
    let mut w = world("/store");
    let kilnfile = "\
FROM scratch
COPY busybox /bin/sh
RUN echo base > /base.txt
COPY data.txt /data.txt
RUN echo after-copy > /after.txt
";
    let ctx: Context = vec![
        ("busybox", "shell"),
        ("unrelated.txt", "never copied, should not affect caching\n"),
        ("data.txt", "version 1\n"),
    ];
    let out1 = build(&mut w, &ctx, kilnfile);
    assert!(out1.steps.iter().all(|s| !s.cached));

    let ctx: Context = vec![
        ("busybox", "shell"),
        ("unrelated.txt", "changed, but COPY never referenced this file\n"),
        ("data.txt", "version 1\n"),
    ];
    let out2 = build(&mut w, &ctx, kilnfile);
    assert!(out2.steps.iter().all(|s| s.cached), "unrelated context change must not bust the cache");

    let ctx: Context = vec![
        ("busybox", "shell"),
        ("unrelated.txt", "changed, but COPY never referenced this file\n"),
        ("data.txt", "version 2\n"),
    ];
    let out3 = build(&mut w, &ctx, kilnfile);
    assert!(out3.steps[0].cached, "COPY busybox should remain cached");
    assert!(out3.steps[1].cached, "RUN before the changed COPY should remain cached");
    assert!(!out3.steps[2].cached, "COPY of the changed file must re-run");
    assert!(!out3.steps[3].cached, "RUN after the changed COPY must re-run too");
    assert!(!out1.image.id().same(&out3.image.id()));
}

#[test]
fn identical_build_on_two_independent_stores_produces_the_same_image_id() {
    let ctx: Context = vec![("busybox", "shell"), ("payload.txt", "reproducibility check\n")];
    let kilnfile = "\
FROM scratch
COPY busybox /bin/sh
RUN mkdir -p /a/b/c && echo x > /a/b/c/f.txt
COPY payload.txt /payload.txt
ENV X=1
";
    let mut a = world("/store-a");
    let mut b = world("/store-b");
    let out_a = build(&mut a, &ctx, kilnfile);
    let out_b = build(&mut b, &ctx, kilnfile);
    assert!(out_a.image.id().same(&out_b.image.id()), "same Kilnfile + sources must hash identically");
    assert_eq!(out_a.image.layers.len(), out_b.image.layers.len());
    for (x, y) in out_a.image.layers.iter().zip(&out_b.image.layers) {
        assert!(x.same(y), "layer ids, not just the final image id, must match");
    }
}

#[test]
fn from_scratch_run_and_copy_produce_expected_files() {
    let mut w = world("/store");
    let ctx: Context = vec![("busybox", "shell"), ("app/hello.txt", "hello from the build context\n")];
    let kilnfile = "\
FROM scratch
COPY busybox /bin/sh
RUN mkdir -p /out && echo made-by-run > /out/run.txt
COPY app/hello.txt /app/hello.txt
ENV GREETING=hi
WORKDIR /app
CMD cat hello.txt
";
    let output = build(&mut w, &ctx, kilnfile);
    assert_eq!(output.steps.len(), 6, "COPY, RUN, COPY, ENV, WORKDIR, CMD");
    assert!(output.steps.iter().all(|s| !s.cached), "first build: nothing should be cached");
    let image = output.image;
    assert_eq!(image.config.env_get("GREETING"), Some("hi"));
    assert_eq!(image.config.workdir, "/app");
    assert_eq!(image.config.cmd.as_deref(), Some("cat hello.txt"));
    assert_eq!(image.layers.len(), 3);
}

#[test]
fn reused_steps_give_the_same_image_as_executed_ones() {
    let ctx: Context = vec![("busybox", "shell")];
    let source = "FROM scratch\nCOPY busybox /bin/sh\nENV A=1\nEXPOSE 80/udp\n";
    let mut w = world("/store");
    let first = build(&mut w, &ctx, source);
    let second = build(&mut w, &ctx, source);
    assert!(first.steps.iter().all(|s| !s.cached));
    assert!(second.steps.iter().all(|s| s.cached));
    assert_eq!(first.image.to_json(), second.image.to_json());
}

#[test]
fn a_second_from_is_refused() {
    let w = world("/store");
    let nothing: Vec<String> = Vec::new();
    let base = match Image::resolve(&w.store, "scratch", &nothing, Err("none".to_string())).unwrap() {
        Resolved::Scratch(i) => i,
        Resolved::Stored(_) => panic!("scratch is never stored"),
    };
    let b = Build::start(&base);
    let from = Instruction::From { image: "other".to_string() };
    assert!(matches!(b.next_state(&from, kiln::store::Hash::of_bytes(b"")), Err(Error::Build(_))));
}

#[test]
fn a_build_without_from_is_refused() {
    assert!(plan("RUN true\n").is_err());
    assert!(plan("").is_err());
}

#[test]
fn states_depend_on_every_part_of_a_step() {
    let a = chain(None, "run", b"one");
    assert!(a.same(&chain(None, "run", b"one")));
    assert!(!a.same(&chain(None, "run", b"two")));
    assert!(!a.same(&chain(None, "cmd", b"one")));
    assert!(!a.same(&chain(Some(a), "run", b"one")));
}

#[test]
fn order_of_the_walk_does_not_change_a_context_hash() {
    let item = |p: &str, t: &str| ContextItem {
        path: p.to_string(),
        mode: 0o644,
        content: Some(kiln::store::Hash::of_bytes(t.as_bytes())),
    };
    let x = hash_context_paths(&vec![item("a", "1"), item("b", "2")]);
    let y = hash_context_paths(&vec![item("b", "2"), item("a", "1")]);
    let z = hash_context_paths(&vec![item("a", "2"), item("b", "1")]);
    assert!(x.same(&y));
    assert!(!x.same(&z));
}

#[test]
fn kilnfile_instructions_are_read() {
    let source = "# comment\n\nfrom alpine:3\nRUN echo hi\ncopy a /b\nENV K=V\nWORKDIR /w\nEXPOSE 8080\nEXPOSE 53/udp\nCMD run it\n";
    let v = parse(source).unwrap();
    assert_eq!(v.len(), 8);
    assert!(matches!(&v[0], Instruction::From { image } if image == "alpine:3"));
    assert!(matches!(&v[1], Instruction::Run { command } if command == "echo hi"));
    assert!(matches!(&v[2], Instruction::Copy { src, dst } if src == "a" && dst == "/b"));
    assert!(matches!(&v[3], Instruction::Env { key, value } if key == "K" && value == "V"));
    assert!(matches!(&v[4], Instruction::Workdir { path } if path == "/w"));
    assert!(matches!(&v[5], Instruction::Expose { port: 8080, proto } if proto == "tcp"));
    assert!(matches!(&v[6], Instruction::Expose { port: 53, proto } if proto == "udp"));
    assert!(matches!(&v[7], Instruction::Cmd { command } if command == "run it"));
}

#[test]
fn comments_and_line_breaks_do_not_matter() {
    let plain = "FROM a\nRUN x  y\nRUN z\n";
    let broken = "FROM a\n# note\n\n  # another\nRUN x \\\n y\nRUN \\\nz\n";
    let (a, b) = (parse(plain).unwrap(), parse(broken).unwrap());
    assert_eq!(a.len(), 3);
    assert_eq!(b.len(), 3);
    for (x, y) in a.iter().zip(b.iter()) {
        match (x, y) {
            (Instruction::From { image: i }, Instruction::From { image: j }) => assert_eq!(i, j),
            (Instruction::Run { command: i }, Instruction::Run { command: j }) => assert_eq!(i, j),
            _ => panic!("the two should read the same"),
        }
    }
}

#[test]
fn files_follow_each_other() {
    let (a, b) = ("FROM a\nRUN x\n\\\n", "# note\nRUN y\n");
    let both = parse(&format!("{a}{b}")).unwrap();
    let (x, y) = (parse(a).unwrap(), parse(b).unwrap());
    assert_eq!((x.len(), y.len(), both.len()), (2, 1, 3));
    assert!(matches!(&both[1], Instruction::Run { command } if command == "x"));
    assert!(matches!(&both[2], Instruction::Run { command } if command == "y"));
}

#[test]
fn bad_instructions_name_their_line() {
    for bad in ["NOPE x", "COPY onlyone", "ENV noequals", "EXPOSE 70000", "RUN"] {
        match parse_instruction(bad, 7) {
            Err(Error::KilnfileParse { line, .. }) => assert_eq!(line, 7),
            _ => panic!("{bad} should not be read"),
        }
    }
}

#[test]
fn copied_files_land_below_their_destination() {
    let blob = kiln::store::Hash::of_bytes(b"x");
    let one = execute_copy(&CopySource::File { mode: 0o755, blob, size: 1 }, "/bin/sh");
    assert_eq!(one.entries.len(), 1);
    assert_eq!(one.entries[0].path, "bin/sh");
    assert_eq!(one.entries[0].mode, 0o755);
    let many = execute_copy(
        &CopySource::Dir(vec![
            Copied { path: "sub".to_string(), mode: 0o755, kind: CopiedKind::Dir },
            Copied { path: "sub/f".to_string(), mode: 0o644, kind: CopiedKind::File { blob, size: 1 } },
            Copied { path: "l".to_string(), mode: 0o777, kind: CopiedKind::Symlink { target: "sub/f".to_string() } },
        ]),
        "/app",
    );
    let paths: Vec<&str> = many.entries.iter().map(|e| e.path.as_str()).collect();
    assert!(paths.contains(&"app/sub"));
    assert!(paths.contains(&"app/sub/f"));
    assert!(paths.contains(&"app/l"));
}

#[test]
fn run_steps_report_how_they_failed() {
    assert!(run_outcome("true", &RunStatus::Exited(0)).is_ok());
    let failed = run_outcome("exit 3", &RunStatus::Exited(3)).unwrap_err().message();
    assert_eq!(failed, "build failed: RUN \"exit 3\" exited with status 3");
    let killed = run_outcome("x", &RunStatus::Other("signaled".to_string())).unwrap_err().message();
    assert_eq!(killed, "build failed: RUN \"x\" did not exit cleanly: signaled");
}

#[test]
fn steps_are_described_as_they_were_written() {
    assert_eq!(describe(&Instruction::Run { command: "echo hi".to_string() }), "RUN echo hi");
    assert_eq!(describe(&Instruction::Copy { src: "a".to_string(), dst: "/b".to_string() }), "COPY a /b");
}

#[test]
fn small_helpers_of_a_build() {
    assert_eq!(strip_slashes("//a/b//"), "a/b//");
    let mut config = ImageConfig { env: vec![], cmd: None, workdir: String::new(), exposed_ports: vec![] };
    assert_eq!(start_directory(&config), "/");
    config.workdir = "/app".to_string();
    assert_eq!(start_directory(&config), "/app");
    let (store, _) = Store::open("/s".to_string());
    assert_eq!(step_lower_dirs(&store, &vec!["/a".to_string(), "/b".to_string()]), vec!["/b", "/a"]);
    assert_eq!(step_lower_dirs(&store, &vec![]), vec!["/s/empty"]);
}
