# Kiln

The logic of a container runtime, as a verified library: content-addressed
images and their builds, registries on either side of the wire, secrets and
signatures, confinement, networks, and a local HTTP daemon.

The library decides; it does no input or output of its own. A function that
needs to know what is on disk, what a command printed or what a server replied
takes it as an argument, and what has to happen next is its result: a file to
write, a request to send, a step to take. Each function states in `ensures`
what it returns, and Verus proves it.

## Layout

- `src/` — the library.
  - Groundwork: `text`, `num`, `paths`, `order`, `codec`, `pretty`, `base64`, `error`.
  - Images: `store`, `layer`, `image`, `kilnfile`, `builder`, `identity`, `scan`.
  - Exchange: `archive`, `oci_layer`, `registry`, `signing`.
  - The registry server: `registry_store`, `registry_auth`, `registry_handlers`,
    `registry_gc`, `registry_server`, `tls`, `audit`.
  - The runtime: `namespaces`, `cgroups`, `rootfs`, `security`, `syscalls`,
    `network`, `netbpf`, `secrets`.
  - The daemon: `http`, and the modules under `daemon`.
- `tests/` — the library on concrete values, with the real crates behind it.
- `app/` — the programs around the library: they read and write files, talk to
  the kernel and to other machines, and do what the library says.

## What is trusted

Functions of other crates are called through small wrappers, marked
`#[verifier::external_body]`. The comment above each names the function that it
calls and says what is claimed of it. Where a result is a function of the
arguments but takes pages to describe (a hash, a signature, a compiled filter),
it is only given a name, and contracts speak of that name.

## Laws

What holds of several functions together is stated in public proof functions,
such as `layer_survives_the_archive` in `oci_layer`, `reuse_equals_execution`
in `builder`, `no_repository_climbs` in `registry_store`, or
`clone_makes_no_namespaces` in `security`.
