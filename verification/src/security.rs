//! The confinement of a container's own command: which capabilities it keeps,
//! and which system calls it may make. Both only ever narrow what the
//! namespaces around the command allow, and both come last, right before the
//! command takes over.

use crate::codec::{quoted, quoted_text};
use crate::error::RuntimeError;
use crate::num::{parsed_hex, signed_decimal, i32_text};
use crate::syscalls::{
    conditionally_allowed_syscalls, gated_by, is_ordinary, ordinary, unlocked, CAP_AUDIT_WRITE, CAP_CHOWN,
    CAP_DAC_OVERRIDE, CAP_FOWNER, CAP_FSETID, CAP_KILL, CAP_MKNOD, CAP_NET_BIND_SERVICE,
    CAP_NET_RAW, CAP_SETFCAP, CAP_SETGID, CAP_SETPCAP, CAP_SETUID, CAP_SYS_ADMIN,
    CAP_SYS_CHROOT, SYSCALL_LIMIT, SYS_CLONE, SYS_CLONE3, SYS_PERSONALITY, SYS_SOCKET,
};
use crate::text::{
    cat2, cat3, cat4, lines, lines_of, lowercased, split_whitespace, starts_with, to_ascii_uppercase, uppercased, views,
    words,
};
use std::str::FromStr;
use vstd::prelude::*;

verus! {

/// What a container asks for beyond the default confinement.
pub struct SecurityProfile {
    /// No filter on system calls at all; capabilities are not affected.
    pub seccomp_unconfined: bool,
    /// Capabilities on top of the baseline; the `CAP_` in front is optional.
    pub cap_add: Vec<String>,
    /// Capabilities to remove, also where `cap_add` names them.
    pub cap_drop: Vec<String>,
}

impl Default for SecurityProfile {
    fn default() -> (r: SecurityProfile)
        ensures
            !r.seccomp_unconfined,
            r.cap_add@.len() == 0,
            r.cap_drop@.len() == 0,
    {
        SecurityProfile { seccomp_unconfined: false, cap_add: Vec::new(), cap_drop: Vec::new() }
    }
}

// ---- Capabilities ----------------------------------------------------------

/// The capabilities a container has by default.
pub const BASELINE_CAPABILITIES: [u8; 14] = [
    CAP_CHOWN,
    CAP_DAC_OVERRIDE,
    CAP_FOWNER,
    CAP_FSETID,
    CAP_KILL,
    CAP_SETGID,
    CAP_SETUID,
    CAP_SETPCAP,
    CAP_NET_BIND_SERVICE,
    CAP_NET_RAW,
    CAP_SYS_CHROOT,
    CAP_MKNOD,
    CAP_AUDIT_WRITE,
    CAP_SETFCAP,
];

/// The highest capability number.
pub const LAST_CAPABILITY: u8 = 40;

/// The number of the capability with this full name.
pub uninterp spec fn capability_named(name: Seq<char>) -> Option<u8>;

/// `caps::Capability::from_str` and `caps::Capability::index`: the number of
/// the capability that is called exactly `name`. There are 41, numbered from 0.
#[verifier::external_body]
fn capability_number(name: &str) -> (r: Option<u8>)
    ensures
        r == capability_named(name@),
        r matches Some(n) ==> n <= LAST_CAPABILITY,
{
    caps::Capability::from_str(name).ok().map(|c| c.index())
}

/// `caps::all`: the number of every capability, each once, in no particular order.
#[verifier::external_body]
fn all_capabilities() -> (r: Vec<u8>)
    ensures
        r@.no_duplicates(),
        forall|n: u8| #[trigger] r@.contains(n) <==> n <= LAST_CAPABILITY,
{
    caps::all().into_iter().map(|c| c.index()).collect()
}

/// A capability's full name in upper case.
pub open spec fn full_name(raw: Seq<char>) -> Seq<char> {
    let upper = uppercased(raw);
    if "CAP_"@.is_prefix_of(upper) {
        upper
    } else {
        "CAP_"@ + upper
    }
}

/// The capability that `raw` names.
pub open spec fn capability_of(raw: Seq<char>) -> Option<u8> {
    capability_named(full_name(raw))
}

/// Whether some of `names` names capability `c`.
pub open spec fn names_capability(names: Seq<Seq<char>>, c: u8) -> bool {
    exists|i: int| 0 <= i < names.len() && capability_of(#[trigger] names[i]) == Some(c)
}

/// The first of `names` that names no capability.
pub open spec fn first_unknown(names: Seq<Seq<char>>) -> Option<Seq<char>>
    decreases names.len(),
{
    if names.len() == 0 {
        None
    } else {
        match first_unknown(names.drop_last()) {
            Some(x) => Some(x),
            None => if capability_of(names.last()) is None {
                Some(names.last())
            } else {
                None
            },
        }
    }
}

/// Whether a profile leaves capability `c` in effect.
pub open spec fn in_effect(profile: SecurityProfile, c: u8) -> bool {
    (BASELINE_CAPABILITIES@.contains(c) || names_capability(views(profile.cap_add@), c)) && !names_capability(
        views(profile.cap_drop@),
        c,
    )
}

/// The name that spoils a profile: the first unknown one, additions first.
pub open spec fn unknown_in(profile: SecurityProfile) -> Option<Seq<char>> {
    match first_unknown(views(profile.cap_add@)) {
        Some(x) => Some(x),
        None => first_unknown(views(profile.cap_drop@)),
    }
}

/// What is said of a name that names no capability.
pub open spec fn unknown_capability(raw: Seq<char>) -> Seq<char> {
    "unknown capability: "@ + quoted_text(raw)
}

/// The capability that `raw` names.
pub fn parse_capability(raw: &str) -> (r: Result<u8, RuntimeError>)
    ensures
        match r {
            Ok(c) => capability_of(raw@) == Some(c) && c <= LAST_CAPABILITY,
            Err(e) => capability_of(raw@) is None && (e matches RuntimeError::InvalidArgument(m) && m@
                == unknown_capability(raw@)),
        },
{
    let upper = to_ascii_uppercase(raw);
    let name = if starts_with(upper.as_str(), "CAP_") {
        upper
    } else {
        cat2("CAP_", upper.as_str())
    };
    match capability_number(name.as_str()) {
        Some(c) => Ok(c),
        None => {
            let q = quoted(raw);
            Err(RuntimeError::InvalidArgument(cat2("unknown capability: ", q.as_str())))
        },
    }
}

/// Whether `c` is among `v`.
fn among(v: &Vec<u8>, c: u8) -> (r: bool)
    ensures
        r == v@.contains(c),
{
    let mut i: usize = 0;
    while i < v.len()
        invariant
            i <= v@.len(),
            forall|j: int| 0 <= j < i ==> v@[j] != c,
        decreases v.len() - i,
    {
        if v[i] == c {
            return true;
        }
        i += 1;
    }
    false
}

/// `v` without `c`.
fn without(v: &Vec<u8>, c: u8) -> (r: Vec<u8>)
    requires
        v@.no_duplicates(),
    ensures
        r@.no_duplicates(),
        forall|x: u8| #[trigger] r@.contains(x) <==> v@.contains(x) && x != c,
{
    let mut out: Vec<u8> = Vec::new();
    let mut i: usize = 0;
    while i < v.len()
        invariant
            i <= v@.len(),
            v@.no_duplicates(),
            out@.no_duplicates(),
            forall|x: u8| #[trigger] out@.contains(x) <==> v@.take(i as int).contains(x) && x != c,
        decreases v.len() - i,
    {
        let x = v[i];
        proof {
            assert(v@.take(i + 1) =~= v@.take(i as int).push(x));
            assert(!v@.take(i as int).contains(x));
            lemma_push_contains(v@.take(i as int), x);
            lemma_push_contains(out@, x);
            assert(!out@.contains(x));
        }
        if x != c {
            out.push(x);
        }
        i += 1;
    }
    assert(v@.take(i as int) =~= v@);
    out
}

/// What a longer list contains.
proof fn lemma_push_contains(v: Seq<u8>, x: u8)
    ensures
        forall|y: u8| #[trigger] v.push(x).contains(y) <==> v.contains(y) || y == x,
        v.no_duplicates() && !v.contains(x) ==> v.push(x).no_duplicates(),
{
    assert forall|y: u8| #[trigger] v.push(x).contains(y) <==> v.contains(y) || y == x by {
        if v.contains(y) {
            let i = choose|i: int| 0 <= i < v.len() && v[i] == y;
            assert(v.push(x)[i] == y);
        }
        if y == x {
            assert(v.push(x)[v.len() as int] == y);
        }
    }
}

/// The first unknown name stays the first.
proof fn lemma_unknown_stays(names: Seq<Seq<char>>, n: int)
    requires
        0 <= n <= names.len(),
        first_unknown(names.take(n)) is Some,
    ensures
        first_unknown(names) == first_unknown(names.take(n)),
    decreases names.len(),
{
    if n == names.len() {
        assert(names.take(n) =~= names);
    } else {
        assert(names.drop_last().take(n) =~= names.take(n));
        lemma_unknown_stays(names.drop_last(), n);
    }
}

/// What one more name names.
proof fn lemma_names_step(names: Seq<Seq<char>>, n: int, c: u8)
    requires
        0 <= n < names.len(),
        capability_of(names[n]) == Some(c),
    ensures
        forall|x: u8| #[trigger] names_capability(names.take(n + 1), x) <==> names_capability(names.take(n), x) || x == c,
{
    let a = names.take(n);
    let b = names.take(n + 1);
    assert forall|x: u8| #[trigger] names_capability(b, x) <==> names_capability(a, x) || x == c by {
        if names_capability(a, x) {
            let i = choose|i: int| 0 <= i < a.len() && capability_of(#[trigger] a[i]) == Some(x);
            assert(b[i] == a[i]);
        }
        if x == c {
            assert(b[n] == names[n]);
        }
        if names_capability(b, x) {
            let i = choose|i: int| 0 <= i < b.len() && capability_of(#[trigger] b[i]) == Some(x);
            if i < n {
                assert(a[i] == b[i]);
            }
        }
    }
}

/// The capabilities a profile leaves in effect, each once: the baseline and
/// the additions, without the removals. A name that names none is refused.
pub fn effective_capabilities(profile: &SecurityProfile) -> (r: Result<Vec<u8>, RuntimeError>)
    ensures
        match r {
            Ok(v) => unknown_in(*profile) is None && v@.no_duplicates() && (forall|c: u8| #[trigger]
                v@.contains(c) <==> in_effect(*profile, c)),
            Err(e) => unknown_in(*profile) matches Some(x) && (e matches RuntimeError::InvalidArgument(m) && m@
                == unknown_capability(x)),
        },
{
    let ghost base = BASELINE_CAPABILITIES@;
    let ghost adds = views(profile.cap_add@);
    let ghost drops = views(profile.cap_drop@);
    let mut held: Vec<u8> = Vec::new();
    let mut b: usize = 0;
    assert(base.take(0) =~= Seq::<u8>::empty());
    while b < 14
        invariant
            b <= 14,
            base == BASELINE_CAPABILITIES@,
            base.len() == 14,
            held@ == base.take(b as int),
        decreases 14 - b,
    {
        held.push(BASELINE_CAPABILITIES[b]);
        b += 1;
        assert(held@ =~= base.take(b as int));
    }
    assert(base.take(14) =~= base);
    let mut i: usize = 0;
    assert(adds.take(0) =~= Seq::<Seq<char>>::empty());
    while i < profile.cap_add.len()
        invariant
            i <= profile.cap_add@.len(),
            adds == views(profile.cap_add@),
            base == BASELINE_CAPABILITIES@,
            first_unknown(adds.take(i as int)) is None,
            held@.no_duplicates(),
            forall|c: u8| #[trigger] held@.contains(c) <==> base.contains(c) || names_capability(adds.take(i as int), c),
        decreases profile.cap_add.len() - i,
    {
        proof {
            assert(adds.take(i + 1).drop_last() =~= adds.take(i as int));
            assert(adds.take(i + 1).last() == profile.cap_add@[i as int]@);
            assert(adds[i as int] == profile.cap_add@[i as int]@);
        }
        match parse_capability(profile.cap_add[i].as_str()) {
            Ok(c) => {
                proof {
                    lemma_names_step(adds, i as int, c);
                    lemma_push_contains(held@, c);
                }
                if !among(&held, c) {
                    held.push(c);
                }
            },
            Err(e) => {
                proof {
                    lemma_unknown_stays(adds, i + 1);
                }
                return Err(e);
            },
        }
        i += 1;
    }
    assert(adds.take(i as int) =~= adds);
    let mut k: usize = 0;
    assert(drops.take(0) =~= Seq::<Seq<char>>::empty());
    while k < profile.cap_drop.len()
        invariant
            k <= profile.cap_drop@.len(),
            adds == views(profile.cap_add@),
            drops == views(profile.cap_drop@),
            base == BASELINE_CAPABILITIES@,
            first_unknown(adds) is None,
            first_unknown(drops.take(k as int)) is None,
            held@.no_duplicates(),
            forall|c: u8| #[trigger]
                held@.contains(c) <==> (base.contains(c) || names_capability(adds, c)) && !names_capability(
                    drops.take(k as int),
                    c,
                ),
        decreases profile.cap_drop.len() - k,
    {
        proof {
            assert(drops.take(k + 1).drop_last() =~= drops.take(k as int));
            assert(drops.take(k + 1).last() == profile.cap_drop@[k as int]@);
            assert(drops[k as int] == profile.cap_drop@[k as int]@);
        }
        match parse_capability(profile.cap_drop[k].as_str()) {
            Ok(c) => {
                proof {
                    lemma_names_step(drops, k as int, c);
                }
                held = without(&held, c);
            },
            Err(e) => {
                proof {
                    lemma_unknown_stays(drops, k + 1);
                }
                return Err(e);
            },
        }
        k += 1;
    }
    assert(drops.take(k as int) =~= drops);
    Ok(held)
}

/// The capabilities among `all` that are not in `kept`, in the order of `all`.
pub open spec fn left_out(all: Seq<u8>, kept: Seq<u8>) -> Seq<u8> {
    all.filter(|c: u8| !kept.contains(c))
}

/// The capabilities of `all` that are not among `kept`.
pub fn capabilities_outside(all: &Vec<u8>, kept: &Vec<u8>) -> (r: Vec<u8>)
    ensures
        r@ == left_out(all@, kept@),
{
    let mut out: Vec<u8> = Vec::new();
    let mut i: usize = 0;
    let ghost keep = |c: u8| !kept@.contains(c);
    assert(all@.take(0).filter(keep) =~= Seq::<u8>::empty()) by {
        reveal(Seq::filter);
    }
    while i < all.len()
        invariant
            i <= all@.len(),
            keep == (|c: u8| !kept@.contains(c)),
            out@ == all@.take(i as int).filter(keep),
        decreases all.len() - i,
    {
        proof {
            assert(all@.take(i + 1).drop_last() =~= all@.take(i as int));
            reveal(Seq::filter);
        }
        if !among(kept, all[i]) {
            out.push(all[i]);
        }
        i += 1;
    }
    assert(all@.take(i as int) =~= all@);
    out
}

/// The capabilities to drop from the bounding set: each that is not in
/// effect, once, in no particular order.
pub fn drop_capabilities(profile: &SecurityProfile) -> (r: Result<Vec<u8>, RuntimeError>)
    ensures
        match r {
            Ok(v) => unknown_in(*profile) is None && v@.no_duplicates() && (forall|c: u8| #[trigger]
                v@.contains(c) <==> c <= LAST_CAPABILITY && !in_effect(*profile, c)),
            Err(e) => unknown_in(*profile) matches Some(x) && (e matches RuntimeError::InvalidArgument(m) && m@
                == unknown_capability(x)),
        },
{
    match effective_capabilities(profile) {
        Ok(kept) => {
            let all = all_capabilities();
            let out = capabilities_outside(&all, &kept);
            proof {
                lemma_filter(all@, |c: u8| !kept@.contains(c));
            }
            Ok(out)
        },
        Err(e) => Err(e),
    }
}

/// What filtering keeps.
proof fn lemma_filter(v: Seq<u8>, keep: spec_fn(u8) -> bool)
    requires
        v.no_duplicates(),
    ensures
        v.filter(keep).no_duplicates(),
        forall|x: u8| #[trigger] v.filter(keep).contains(x) <==> v.contains(x) && keep(x),
    decreases v.len(),
{
    reveal(Seq::filter);
    if v.len() > 0 {
        let a = v.drop_last();
        lemma_filter(a, keep);
        assert(v =~= a.push(v.last()));
        lemma_push_contains(a, v.last());
        lemma_push_contains(a.filter(keep), v.last());
        assert(!a.contains(v.last()));
        assert(!a.filter(keep).contains(v.last()));
    }
}

/// What `u64::from_str_radix` says of a text that is no hexadecimal number.
pub uninterp spec fn hex_number_complaint(s: Seq<char>) -> Seq<char>;

/// `u64::from_str_radix` with radix 16: the number that `s` denotes in
/// hexadecimal, digits of either case behind an optional `+`. The error text
/// depends on `s` alone.
#[verifier::external_body]
fn hex_number(s: &str) -> (r: Result<u64, String>)
    ensures
        match r {
            Ok(n) => parsed_hex(s@) == Some(n as nat),
            Err(m) => parsed_hex(s@) is None && m@ == hex_number_complaint(s@),
        },
{
    u64::from_str_radix(s, 16).map_err(|e| e.to_string())
}

/// The file that describes a process.
pub open spec fn status_file(pid: i32) -> Seq<char> {
    "/proc/"@ + signed_decimal(pid as int) + "/status"@
}

/// The first line that starts with `CapBnd:`.
pub open spec fn bounding_line(all: Seq<Seq<char>>) -> Option<Seq<char>>
    decreases all.len(),
{
    if all.len() == 0 {
        None
    } else if "CapBnd:"@.is_prefix_of(all[0]) {
        Some(all[0])
    } else {
        bounding_line(all.drop_first())
    }
}

/// What is wrong with a status file, if anything.
pub open spec fn bounding_fault(pid: i32, status: Seq<char>) -> Option<Seq<char>> {
    match bounding_line(lines_of(status)) {
        None => Some("no CapBnd: line in "@ + status_file(pid)),
        Some(line) => if words(line).len() < 2 {
            Some("malformed CapBnd: line in "@ + status_file(pid) + ": "@ + quoted_text(line))
        } else if parsed_hex(words(line)[1]) is None {
            Some(
                "CapBnd: value "@ + quoted_text(words(line)[1]) + " isn't valid hex: "@ + hex_number_complaint(
                    words(line)[1],
                ),
            )
        } else {
            None
        },
    }
}

/// A process's bounding set, given what reading its status file came to.
pub fn read_capability_bounding_set(pid: i32, status: &Result<String, String>) -> (r: Result<u64, RuntimeError>)
    ensures
        match status {
            Ok(text) => match r {
                Ok(mask) => bounding_fault(pid, text@) is None && parsed_hex(
                    words(bounding_line(lines_of(text@))->0)[1],
                ) == Some(mask as nat),
                Err(e) => e matches RuntimeError::InvalidArgument(m) && bounding_fault(pid, text@) == Some(m@),
            },
            Err(why) => r matches Err(RuntimeError::InvalidArgument(m)) && m@ == "reading "@ + status_file(pid)
                + ": "@ + why@,
        },
{
    let number = i32_text(pid);
    let file = cat3("/proc/", number.as_str(), "/status");
    let text = match status {
        Ok(text) => text,
        Err(why) => {
            return Err(
                RuntimeError::InvalidArgument(cat4("reading ", file.as_str(), ": ", why.as_str())),
            );
        },
    };
    let all = lines(text.as_str());
    let ghost every = views(all@);
    let mut i: usize = 0;
    assert(every.skip(0) =~= every);
    while i < all.len() && !starts_with(all[i].as_str(), "CapBnd:")
        invariant
            i <= all@.len(),
            every == views(all@),
            bounding_line(every.skip(i as int)) == bounding_line(every),
        decreases all.len() - i,
    {
        proof {
            assert(every.skip(i as int)[0] == all@[i as int]@);
            assert(every.skip(i as int).drop_first() =~= every.skip(i + 1));
        }
        i += 1;
    }
    if i == all.len() {
        assert(every.skip(i as int) =~= Seq::<Seq<char>>::empty());
        return Err(RuntimeError::InvalidArgument(cat2("no CapBnd: line in ", file.as_str())));
    }
    assert(every.skip(i as int)[0] == all@[i as int]@);
    let line = all[i].as_str();
    let parts = split_whitespace(line);
    if parts.len() < 2 {
        let q = quoted(line);
        return Err(
            RuntimeError::InvalidArgument(cat4("malformed CapBnd: line in ", file.as_str(), ": ", q.as_str())),
        );
    }
    assert(views(parts@)[1] == parts@[1]@);
    match hex_number(parts[1].as_str()) {
        Ok(mask) => Ok(mask),
        Err(why) => {
            let q = quoted(parts[1].as_str());
            Err(
                RuntimeError::InvalidArgument(
                    cat4("CapBnd: value ", q.as_str(), " isn't valid hex: ", why.as_str()),
                ),
            )
        },
    }
}

/// Whether capability `c` is in the bit set `mask`.
pub open spec fn in_mask(mask: u64, c: u8) -> bool {
    mask & (1u64 << c) != 0
}

/// The capabilities of `all` that are in the bit set `mask`, in the order of `all`.
pub fn capabilities_in(all: &Vec<u8>, mask: u64) -> (r: Vec<u8>)
    requires
        forall|i: int| 0 <= i < all@.len() ==> #[trigger] all@[i] < 64,
    ensures
        r@ == all@.filter(|c: u8| in_mask(mask, c)),
{
    let mut out: Vec<u8> = Vec::new();
    let mut i: usize = 0;
    let ghost keep = |c: u8| in_mask(mask, c);
    assert(all@.take(0).filter(keep) =~= Seq::<u8>::empty()) by {
        reveal(Seq::filter);
    }
    while i < all.len()
        invariant
            i <= all@.len(),
            forall|j: int| 0 <= j < all@.len() ==> #[trigger] all@[j] < 64,
            keep == (|c: u8| in_mask(mask, c)),
            out@ == all@.take(i as int).filter(keep),
        decreases all.len() - i,
    {
        proof {
            assert(all@.take(i + 1).drop_last() =~= all@.take(i as int));
            reveal(Seq::filter);
        }
        if mask & (1u64 << all[i]) != 0 {
            out.push(all[i]);
        }
        i += 1;
    }
    assert(all@.take(i as int) =~= all@);
    out
}

/// The capabilities that are in the bit set `mask`, each once, in no
/// particular order.
pub fn decode_capability_set(mask: u64) -> (r: Vec<u8>)
    ensures
        r@.no_duplicates(),
        forall|c: u8| #[trigger] r@.contains(c) <==> c <= LAST_CAPABILITY && in_mask(mask, c),
{
    let all = all_capabilities();
    proof {
        assert forall|i: int| 0 <= i < all@.len() implies #[trigger] all@[i] < 64 by {
            assert(all@.contains(all@[i]));
        }
        lemma_filter(all@, |c: u8| in_mask(mask, c));
    }
    capabilities_in(&all, mask)
}

// ---- System calls ----------------------------------------------------------

/// The bits of `clone`'s flags that ask for a new namespace.
pub const CLONE_NEW_NAMESPACE_FLAGS_MASK: u64 = 0x7E02_0000;

/// The error number for an operation that is not permitted.
pub const EPERM: u32 = 1;

/// The error number for a call that does not exist.
pub const ENOSYS: u32 = 38;

/// How much of an argument is looked at.
#[derive(Clone, Copy, PartialEq, Eq, Structural)]
pub enum Width {
    /// The lower 32 bits.
    Dword,
    /// All 64 bits.
    Qword,
}

/// How an argument is compared.
#[derive(Clone, Copy, PartialEq, Eq, Structural)]
pub enum Test {
    Less,
    Equal,
    Greater,
    /// The bits under a mask are equal.
    MaskedEqual(u64),
}

/// A condition on one argument of a call.
#[derive(Clone, Copy, PartialEq, Eq, Structural)]
pub struct Condition {
    pub argument: u8,
    pub width: Width,
    pub test: Test,
    pub value: u64,
}

/// What becomes of a call.
#[derive(Clone, Copy, PartialEq, Eq, Structural)]
pub enum Verdict {
    Allow,
    /// The call fails with this error number.
    Errno(u32),
}

/// A call that a filter matches: always, or where any of the conditions holds.
pub struct SyscallRule {
    pub syscall: i64,
    pub any: Vec<Condition>,
}

/// One instruction of a compiled filter.
pub struct Instruction {
    pub code: u16,
    pub jt: u8,
    pub jf: u8,
    pub k: u32,
}

/// A condition on the first argument.
pub open spec fn first_argument(width: Width, test: Test, value: u64) -> Condition {
    Condition { argument: 0, width, test, value }
}

/// The address families that `socket` may be asked for: all but a few historical ones.
pub open spec fn socket_conditions() -> Seq<Condition> {
    seq![
        first_argument(Width::Dword, Test::Less, 38),
        first_argument(Width::Dword, Test::Equal, 39),
        first_argument(Width::Dword, Test::Greater, 40),
    ]
}

/// The execution domains that `personality` may be asked for: the two Linux
/// ones, with and without address randomisation, and the query.
pub open spec fn personality_conditions() -> Seq<Condition> {
    seq![
        first_argument(Width::Dword, Test::Equal, 0),
        first_argument(Width::Dword, Test::Equal, 8),
        first_argument(Width::Dword, Test::Equal, 0x0002_0000),
        first_argument(Width::Dword, Test::Equal, 0x0002_0008),
        first_argument(Width::Dword, Test::Equal, 0xffff_ffff),
    ]
}

/// A `clone` that asks for no new namespace.
pub open spec fn clone_conditions() -> Seq<Condition> {
    seq![first_argument(Width::Qword, Test::MaskedEqual(CLONE_NEW_NAMESPACE_FLAGS_MASK), 0)]
}

/// The rule for call `n` in a process with these capabilities: the conditions
/// of which one must hold, none if the call is always allowed; no rule at all
/// if it never is.
pub open spec fn rule_for(held: Set<u8>, n: i64) -> Option<Seq<Condition>> {
    if n == SYS_SOCKET {
        Some(socket_conditions())
    } else if n == SYS_PERSONALITY {
        Some(personality_conditions())
    } else if ordinary(n) || unlocked(held, n) {
        Some(Seq::empty())
    } else if n == SYS_CLONE {
        Some(clone_conditions())
    } else {
        None
    }
}

/// Whether a condition holds of its argument's value.
pub open spec fn holds(c: Condition, value: u64) -> bool {
    let seen = match c.width {
        Width::Dword => value & 0xffff_ffff,
        Width::Qword => value,
    };
    match c.test {
        Test::Less => seen < c.value,
        Test::Equal => seen == c.value,
        Test::Greater => seen > c.value,
        Test::MaskedEqual(mask) => seen & mask == c.value & mask,
    }
}

/// Whether a process with these capabilities may make call `n` with this
/// first argument.
pub open spec fn permits(held: Set<u8>, n: i64, first: u64) -> bool {
    match rule_for(held, n) {
        Some(any) => any.len() == 0 || exists|i: int| 0 <= i < any.len() && holds(#[trigger] any[i], first),
        None => false,
    }
}

/// The set of capabilities in a list.
pub open spec fn held_set(v: Seq<u8>) -> Set<u8> {
    Set::new(|c: u8| v.contains(c))
}

/// Whether `rules` are the rules for these capabilities: one for each call
/// that has one, in the order of the calls' numbers.
pub open spec fn are_rules_for(rules: Seq<SyscallRule>, held: Set<u8>) -> bool {
    &&& forall|i: int, j: int| 0 <= i < j < rules.len() ==> (#[trigger] rules[i]).syscall < (#[trigger] rules[j]).syscall
    &&& forall|i: int|
        0 <= i < rules.len() ==> rule_for(held, (#[trigger] rules[i]).syscall) == Some(rules[i].any@)
    &&& forall|n: i64|
        #[trigger] rule_for(held, n) is Some ==> exists|i: int| 0 <= i < rules.len() && (#[trigger] rules[i]).syscall == n
}

/// The call and conditions of each rule.
pub open spec fn rule_views(rules: Seq<SyscallRule>) -> Seq<(i64, Seq<Condition>)> {
    rules.map_values(|r: SyscallRule| (r.syscall, r.any@))
}

/// The rules for the calls with numbers below `n`, in the order of their numbers.
pub open spec fn rules_below(held: Set<u8>, n: nat) -> Seq<(i64, Seq<Condition>)>
    decreases n,
{
    if n == 0 {
        Seq::empty()
    } else {
        let before = rules_below(held, (n - 1) as nat);
        match rule_for(held, (n - 1) as i64) {
            Some(any) => before.push(((n - 1) as i64, any)),
            None => before,
        }
    }
}

/// All rules for these capabilities.
pub open spec fn rule_table(held: Set<u8>) -> Seq<(i64, Seq<Condition>)> {
    rules_below(held, SYSCALL_LIMIT as nat)
}

/// Whether `n` is among `v`.
fn among_calls(v: &Vec<i64>, n: i64) -> (r: bool)
    ensures
        r == v@.contains(n),
{
    let mut i: usize = 0;
    while i < v.len()
        invariant
            i <= v@.len(),
            forall|j: int| 0 <= j < i ==> v@[j] != n,
        decreases v.len() - i,
    {
        if v[i] == n {
            return true;
        }
        i += 1;
    }
    false
}

/// Whether these capabilities let a process make call `n`.
fn is_unlocked(held: &Vec<u8>, n: i64) -> (r: bool)
    ensures
        r == unlocked(held_set(held@), n),
{
    let mut i: usize = 0;
    while i < held.len()
        invariant
            i <= held@.len(),
            forall|j: int| 0 <= j < i ==> !gated_by(#[trigger] held@[j]).contains(n),
        decreases held.len() - i,
    {
        let calls = conditionally_allowed_syscalls(held[i]);
        if among_calls(&calls, n) {
            assert(held_set(held@).contains(held@[i as int]));
            return true;
        }
        i += 1;
    }
    assert forall|c: u8| held_set(held@).contains(c) implies !(#[trigger] gated_by(c).contains(n)) by {
        let j = choose|j: int| 0 <= j < held@.len() && held@[j] == c;
        assert(!gated_by(held@[j]).contains(n));
    }
    false
}

/// A condition on the first argument.
fn first(width: Width, test: Test, value: u64) -> (r: Condition)
    ensures
        r == first_argument(width, test, value),
{
    Condition { argument: 0, width, test, value }
}

/// The rule for call `n`.
fn find_rule(held: &Vec<u8>, n: i64) -> (r: Option<Vec<Condition>>)
    ensures
        match r {
            Some(any) => rule_for(held_set(held@), n) == Some(any@),
            None => rule_for(held_set(held@), n) is None,
        },
{
    if n == SYS_SOCKET {
        let any = vec![
            first(Width::Dword, Test::Less, 38),
            first(Width::Dword, Test::Equal, 39),
            first(Width::Dword, Test::Greater, 40),
        ];
        assert(any@ =~= socket_conditions());
        Some(any)
    } else if n == SYS_PERSONALITY {
        let any = vec![
            first(Width::Dword, Test::Equal, 0),
            first(Width::Dword, Test::Equal, 8),
            first(Width::Dword, Test::Equal, 0x0002_0000),
            first(Width::Dword, Test::Equal, 0x0002_0008),
            first(Width::Dword, Test::Equal, 0xffff_ffff),
        ];
        assert(any@ =~= personality_conditions());
        Some(any)
    } else if is_ordinary(n) || is_unlocked(held, n) {
        let any: Vec<Condition> = Vec::new();
        assert(any@ =~= Seq::<Condition>::empty());
        Some(any)
    } else if n == SYS_CLONE {
        let any = vec![first(Width::Qword, Test::MaskedEqual(CLONE_NEW_NAMESPACE_FLAGS_MASK), 0)];
        assert(any@ =~= clone_conditions());
        Some(any)
    } else {
        None
    }
}

/// Calls that capabilities unlock have small numbers.
proof fn lemma_gated_small(c: u8, n: i64)
    requires
        gated_by(c).contains(n),
    ensures
        0 <= n < SYSCALL_LIMIT,
{
    let calls = gated_by(c);
    let i = choose|i: int| 0 <= i < calls.len() && calls[i] == n;
    assert(calls.len() <= 16);
}

/// Every call with a rule has a small number.
proof fn lemma_rules_small(held: Set<u8>, n: i64)
    requires
        rule_for(held, n) is Some,
    ensures
        0 <= n < SYSCALL_LIMIT,
{
    if unlocked(held, n) {
        let c = choose|c: u8| held.contains(c) && #[trigger] gated_by(c).contains(n);
        lemma_gated_small(c, n);
    }
}

/// The rules for these capabilities.
pub fn seccomp_rules(held: &Vec<u8>) -> (r: Vec<SyscallRule>)
    ensures
        rule_views(r@) == rule_table(held_set(held@)),
        are_rules_for(r@, held_set(held@)),
        forall|i: int| 0 <= i < r@.len() ==> 0 <= (#[trigger] r@[i]).syscall < SYSCALL_LIMIT,
{
    let ghost set = held_set(held@);
    let mut out: Vec<SyscallRule> = Vec::new();
    let mut n: i64 = 0;
    assert(rule_views(out@) =~= rules_below(set, 0));
    while n < SYSCALL_LIMIT
        invariant
            0 <= n <= SYSCALL_LIMIT,
            set == held_set(held@),
            rule_views(out@) == rules_below(set, n as nat),
            forall|i: int, j: int|
                0 <= i < j < out@.len() ==> (#[trigger] out@[i]).syscall < (#[trigger] out@[j]).syscall,
            forall|i: int|
                0 <= i < out@.len() ==> rule_for(set, (#[trigger] out@[i]).syscall) == Some(out@[i].any@) && 0
                    <= out@[i].syscall < n,
            forall|m: i64|
                0 <= m < n && #[trigger] rule_for(set, m) is Some ==> exists|i: int|
                    0 <= i < out@.len() && (#[trigger] out@[i]).syscall == m,
        decreases SYSCALL_LIMIT - n,
    {
        let ghost before = out@;
        match find_rule(held, n) {
            Some(any) => {
                let rule = SyscallRule { syscall: n, any };
                assert(rule_views(out@.push(rule)) =~= rule_views(out@).push((n, any@)));
                out.push(rule);
                assert(out@[before.len() as int].syscall == n);
            },
            None => {},
        }
        proof {
            assert forall|m: i64| 0 <= m < n + 1 && #[trigger] rule_for(set, m) is Some implies exists|i: int|
                0 <= i < out@.len() && (#[trigger] out@[i]).syscall == m by {
                if m < n {
                    let i = choose|i: int| 0 <= i < before.len() && (#[trigger] before[i]).syscall == m;
                    assert(out@[i].syscall == m);
                }
            }
        }
        n += 1;
    }
    proof {
        assert forall|m: i64| #[trigger] rule_for(set, m) is Some implies exists|i: int|
            0 <= i < out@.len() && (#[trigger] out@[i]).syscall == m by {
            lemma_rules_small(set, m);
        }
    }
    out
}

// ---- Filters ---------------------------------------------------------------

/// A rule of a filter for one call.
#[verifier::external_type_specification]
#[verifier::external_body]
pub struct ExSeccompRule(seccompiler::SeccompRule);

/// The conditions that a rule combines.
pub uninterp spec fn rule_conditions(r: seccompiler::SeccompRule) -> Seq<Condition>;

/// `seccompiler::SeccompCondition::new` and `seccompiler::SeccompRule::new`:
/// the rule of one condition. Arguments are numbered from 0 to 5.
#[verifier::external_body]
fn seccomp_rule(c: Condition) -> (r: Result<seccompiler::SeccompRule, String>)
    ensures
        match r {
            Ok(rule) => c.argument <= 5 && rule_conditions(rule) == seq![c],
            Err(_) => c.argument > 5,
        },
{
    let width = match c.width {
        Width::Dword => seccompiler::SeccompCmpArgLen::Dword,
        Width::Qword => seccompiler::SeccompCmpArgLen::Qword,
    };
    let test = match c.test {
        Test::Less => seccompiler::SeccompCmpOp::Lt,
        Test::Equal => seccompiler::SeccompCmpOp::Eq,
        Test::Greater => seccompiler::SeccompCmpOp::Gt,
        Test::MaskedEqual(mask) => seccompiler::SeccompCmpOp::MaskedEq(mask),
    };
    let condition = seccompiler::SeccompCondition::new(c.argument, width, test, c.value);
    condition.and_then(|x| seccompiler::SeccompRule::new(vec![x])).map_err(|e| e.to_string())
}

/// Why a filter was not made.
pub enum FilterFault {
    /// There are no filters for this machine.
    Architecture,
    Building(String),
    Compiling(String),
}

/// The mathematical content of a [`FilterFault`].
pub enum FilterFaultView {
    Architecture,
    Building(Seq<char>),
    Compiling(Seq<char>),
}

impl View for FilterFault {
    type V = FilterFaultView;

    open spec fn view(&self) -> FilterFaultView {
        match *self {
            FilterFault::Architecture => FilterFaultView::Architecture,
            FilterFault::Building(m) => FilterFaultView::Building(m@),
            FilterFault::Compiling(m) => FilterFaultView::Compiling(m@),
        }
    }
}

/// Calls with the rules of which one must match, each rule by its conditions.
pub type Chains = Seq<(i64, Seq<Seq<Condition>>)>;

/// The program that `seccompiler` makes of a filter.
pub uninterp spec fn compiled(chains: Chains, otherwise: Verdict, matched: Verdict, arch: Seq<char>) -> Result<
    Seq<Instruction>,
    FilterFaultView,
>;

/// The calls and rules that are handed over, by their conditions.
pub open spec fn chain_views(v: Seq<(i64, Vec<seccompiler::SeccompRule>)>) -> Chains {
    v.map_values(
        |p: (i64, Vec<seccompiler::SeccompRule>)|
            (p.0, p.1@.map_values(|r: seccompiler::SeccompRule| rule_conditions(r))),
    )
}

/// The machines that there are filters for.
pub open spec fn known_machine(arch: Seq<char>) -> bool {
    lowercased(arch) == "x86_64"@ || lowercased(arch) == "aarch64"@
}

/// `seccompiler::SeccompFilter::new` and its conversion to a program: calls
/// that a rule matches are `matched`, all others `otherwise`. Only two
/// machines are known. What the instructions do is left to the kernel.
#[verifier::external_body]
fn compile_filter(
    rules: Vec<(i64, Vec<seccompiler::SeccompRule>)>,
    otherwise: Verdict,
    matched: Verdict,
    arch: &str,
) -> (r: Result<Vec<Instruction>, FilterFault>)
    requires
        forall|i: int| 0 <= i < rules@.len() ==> 0 <= (#[trigger] rules@[i]).0 <= u32::MAX,
    ensures
        match r {
            Ok(p) => compiled(chain_views(rules@), otherwise, matched, arch@) == Ok::<
                Seq<Instruction>,
                FilterFaultView,
            >(p@) && known_machine(arch@),
            Err(f) => compiled(chain_views(rules@), otherwise, matched, arch@) == Err::<
                Seq<Instruction>,
                FilterFaultView,
            >(f@) && (f is Architecture <==> !known_machine(arch@)),
        },
{
    let action = |v: Verdict| match v {
        Verdict::Allow => seccompiler::SeccompAction::Allow,
        Verdict::Errno(n) => seccompiler::SeccompAction::Errno(n),
    };
    let target = seccompiler::TargetArch::try_from(arch).map_err(|_| FilterFault::Architecture)?;
    let rules = rules.into_iter().collect();
    let filter = seccompiler::SeccompFilter::new(rules, action(otherwise), action(matched), target)
        .map_err(|e| FilterFault::Building(e.to_string()))?;
    let program = seccompiler::BpfProgram::try_from(filter).map_err(|e| FilterFault::Compiling(e.to_string()))?;
    Ok(program.iter().map(|i| Instruction { code: i.code, jt: i.jt, jf: i.jf, k: i.k }).collect())
}

/// The conditions of a rule, one rule each.
pub open spec fn single_rules(any: Seq<Condition>) -> Seq<Seq<Condition>> {
    any.map_values(|c: Condition| seq![c])
}

/// What is handed over for a table of rules.
pub open spec fn chains_of(table: Seq<(i64, Seq<Condition>)>) -> Chains {
    table.map_values(|p: (i64, Seq<Condition>)| (p.0, single_rules(p.1)))
}

/// The program for a table of rules.
fn program_for(rules: &Vec<SyscallRule>, otherwise: Verdict, matched: Verdict, arch: &str) -> (r: Result<
    Vec<Instruction>,
    FilterFault,
>)
    requires
        forall|i: int| 0 <= i < rules@.len() ==> 0 <= (#[trigger] rules@[i]).syscall <= u32::MAX,
        forall|i: int, j: int|
            0 <= i < rules@.len() && 0 <= j < rules@[i].any@.len() ==> (#[trigger] rules@[i].any@[j]).argument <= 5,
    ensures
        match r {
            Ok(p) => compiled(chains_of(rule_views(rules@)), otherwise, matched, arch@) == Ok::<
                Seq<Instruction>,
                FilterFaultView,
            >(p@),
            Err(f) => compiled(chains_of(rule_views(rules@)), otherwise, matched, arch@) == Err::<
                Seq<Instruction>,
                FilterFaultView,
            >(f@),
        },
{
    let mut list: Vec<(i64, Vec<seccompiler::SeccompRule>)> = Vec::new();
    let mut i: usize = 0;
    let ghost table = rule_views(rules@);
    assert(chain_views(list@) =~= chains_of(table.take(0)));
    while i < rules.len()
        invariant
            i <= rules@.len(),
            table == rule_views(rules@),
            forall|k: int| 0 <= k < rules@.len() ==> 0 <= (#[trigger] rules@[k]).syscall <= u32::MAX,
            forall|k: int, j: int|
                0 <= k < rules@.len() && 0 <= j < rules@[k].any@.len() ==> (#[trigger] rules@[k].any@[j]).argument <= 5,
            chain_views(list@) == chains_of(table.take(i as int)),
            forall|k: int| 0 <= k < list@.len() ==> 0 <= (#[trigger] list@[k]).0 <= u32::MAX,
        decreases rules.len() - i,
    {
        let any = &rules[i].any;
        let mut chain: Vec<seccompiler::SeccompRule> = Vec::new();
        let mut j: usize = 0;
        let ghost meaning = |r: seccompiler::SeccompRule| rule_conditions(r);
        assert(chain@.map_values(meaning) =~= single_rules(any@.take(0)));
        while j < any.len()
            invariant
                j <= any@.len(),
                forall|k: int| 0 <= k < any@.len() ==> (#[trigger] any@[k]).argument <= 5,
                meaning == (|r: seccompiler::SeccompRule| rule_conditions(r)),
                chain@.map_values(meaning) == single_rules(any@.take(j as int)),
            decreases any.len() - j,
        {
            match seccomp_rule(any[j]) {
                Ok(rule) => {
                    proof {
                        assert(chain@.push(rule).map_values(meaning) =~= chain@.map_values(meaning).push(
                            seq![any@[j as int]],
                        ));
                        assert(single_rules(any@.take(j + 1)) =~= single_rules(any@.take(j as int)).push(
                            seq![any@[j as int]],
                        ));
                    }
                    chain.push(rule);
                },
                Err(_) => {},
            }
            j += 1;
        }
        let pair = (rules[i].syscall, chain);
        proof {
            assert(any@.take(j as int) =~= any@);
            assert(chain_views(list@.push(pair)) =~= chain_views(list@).push((pair.0, single_rules(any@))));
            assert(chains_of(table.take(i + 1)) =~= chains_of(table.take(i as int)).push(
                (pair.0, single_rules(any@)),
            ));
        }
        list.push(pair);
        i += 1;
    }
    assert(table.take(i as int) =~= table);
    compile_filter(list, otherwise, matched, arch)
}

/// The capabilities a profile leaves in effect.
pub open spec fn effective_set(profile: SecurityProfile) -> Set<u8> {
    Set::new(|c: u8| in_effect(profile, c))
}

/// What is said of a filter that was not made.
pub open spec fn filter_message(f: FilterFaultView, name: Seq<char>, arch: Seq<char>) -> Seq<char> {
    match f {
        FilterFaultView::Architecture => "unsupported seccomp arch: "@ + arch,
        FilterFaultView::Building(m) => "building "@ + name + ": "@ + m,
        FilterFaultView::Compiling(m) => "compiling "@ + name + ": "@ + m,
    }
}

/// The filter of a process with these capabilities: what no rule allows fails.
pub open spec fn main_filter(held: Set<u8>, arch: Seq<char>) -> Result<Seq<Instruction>, FilterFaultView> {
    compiled(chains_of(rule_table(held)), Verdict::Errno(EPERM), Verdict::Allow, arch)
}

/// The filter on top of it for a process that may not make namespaces:
/// `clone3` does not exist, so that libraries fall back to `clone`.
pub open spec fn clone3_filter(arch: Seq<char>) -> Result<Seq<Instruction>, FilterFaultView> {
    compiled(
        chains_of(seq![(SYS_CLONE3, Seq::<Condition>::empty())]),
        Verdict::Allow,
        Verdict::Errno(ENOSYS),
        arch,
    )
}

/// What is said of a filter that was not made.
fn filter_error(f: FilterFault, name: &str, arch: &str) -> (r: RuntimeError)
    ensures
        r matches RuntimeError::InvalidArgument(m) && m@ == filter_message(f@, name@, arch@),
{
    match f {
        FilterFault::Architecture => RuntimeError::InvalidArgument(cat2("unsupported seccomp arch: ", arch)),
        FilterFault::Building(m) => RuntimeError::InvalidArgument(cat4("building ", name, ": ", m.as_str())),
        FilterFault::Compiling(m) => RuntimeError::InvalidArgument(cat4("compiling ", name, ": ", m.as_str())),
    }
}

/// The texts of programs.
pub open spec fn program_views(v: Seq<Vec<Instruction>>) -> Seq<Seq<Instruction>> {
    v.map_values(|p: Vec<Instruction>| p@)
}

/// All conditions are on first arguments.
proof fn lemma_conditions_on_first(held: Set<u8>, n: i64, j: int)
    requires
        rule_for(held, n) matches Some(any) && 0 <= j < any.len(),
    ensures
        rule_for(held, n)->0[j].argument == 0,
{
}

/// The filters to install for a profile on a machine, in this order; none for
/// an unconfined one. The second, where it is needed, has to come after the
/// first to prevail over it.
pub fn apply_seccomp(profile: &SecurityProfile, arch: &str) -> (r: Result<Vec<Vec<Instruction>>, RuntimeError>)
    ensures
        profile.seccomp_unconfined ==> (r matches Ok(v) && v@.len() == 0),
        !profile.seccomp_unconfined ==> match unknown_in(*profile) {
            Some(x) => r matches Err(RuntimeError::InvalidArgument(m)) && m@ == unknown_capability(x),
            None => match main_filter(effective_set(*profile), arch@) {
                Err(f) => r matches Err(RuntimeError::InvalidArgument(m)) && m@ == filter_message(
                    f,
                    "seccomp filter"@,
                    arch@,
                ),
                Ok(main) => if in_effect(*profile, CAP_SYS_ADMIN) {
                    r matches Ok(v) && program_views(v@) == seq![main]
                } else {
                    match clone3_filter(arch@) {
                        Err(f) => r matches Err(RuntimeError::InvalidArgument(m)) && m@ == filter_message(
                            f,
                            "clone3() seccomp patch filter"@,
                            arch@,
                        ),
                        Ok(patch) => r matches Ok(v) && program_views(v@) == seq![main, patch],
                    }
                },
            },
        },
{
    if profile.seccomp_unconfined {
        return Ok(Vec::new());
    }
    let held = match effective_capabilities(profile) {
        Ok(held) => held,
        Err(e) => {
            return Err(e);
        },
    };
    let rules = seccomp_rules(&held);
    proof {
        assert(held_set(held@) =~= effective_set(*profile));
        assert forall|i: int, j: int| 0 <= i < rules@.len() && 0 <= j < rules@[i].any@.len() implies (
        #[trigger] rules@[i].any@[j]).argument <= 5 by {
            lemma_conditions_on_first(held_set(held@), rules@[i].syscall, j);
        }
    }
    let main = match program_for(&rules, Verdict::Errno(EPERM), Verdict::Allow, arch) {
        Ok(p) => p,
        Err(f) => {
            return Err(filter_error(f, "seccomp filter", arch));
        },
    };
    let mut out: Vec<Vec<Instruction>> = Vec::new();
    let ghost first_program = main@;
    out.push(main);
    if among(&held, CAP_SYS_ADMIN) {
        assert(program_views(out@) =~= seq![first_program]);
        return Ok(out);
    }
    let mut patch_rules: Vec<SyscallRule> = Vec::new();
    let patch_rule = SyscallRule { syscall: SYS_CLONE3, any: Vec::new() };
    patch_rules.push(patch_rule);
    proof {
        assert(patch_rule.any@ =~= Seq::<Condition>::empty());
        assert(rule_views(patch_rules@) =~= seq![(SYS_CLONE3, Seq::<Condition>::empty())]);
    }
    match program_for(&patch_rules, Verdict::Allow, Verdict::Errno(ENOSYS), arch) {
        Ok(patch) => {
            let ghost second_program = patch@;
            out.push(patch);
            assert(program_views(out@) =~= seq![first_program, second_program]);
            Ok(out)
        },
        Err(f) => Err(filter_error(f, "clone3() seccomp patch filter", arch)),
    }
}

// ---- What the confinement comes to -----------------------------------------

/// A removal always wins: a capability that `cap_drop` names is not in
/// effect, whether or not `cap_add` names it too.
pub proof fn removal_wins(profile: SecurityProfile, c: u8)
    requires
        names_capability(views(profile.cap_drop@), c),
    ensures
        !in_effect(profile, c),
        !effective_set(profile).contains(c),
{
}

/// Without requests, exactly the baseline is in effect.
pub proof fn default_is_the_baseline(profile: SecurityProfile, c: u8)
    requires
        profile.cap_add@.len() == 0,
        profile.cap_drop@.len() == 0,
    ensures
        in_effect(profile, c) <==> BASELINE_CAPABILITIES@.contains(c),
{
}

/// More capabilities never take a permission away.
pub proof fn capabilities_only_widen(fewer: Set<u8>, more: Set<u8>, n: i64, first: u64)
    requires
        fewer.subset_of(more),
        permits(fewer, n, first),
    ensures
        permits(more, n, first),
{
    if unlocked(fewer, n) {
        let c = choose|c: u8| fewer.contains(c) && #[trigger] gated_by(c).contains(n);
        assert(more.contains(c) && gated_by(c).contains(n));
    }
    let any = rule_for(fewer, n)->0;
    if any.len() > 0 {
        let i = choose|i: int| 0 <= i < any.len() && holds(#[trigger] any[i], first);
        if rule_for(more, n) == Some(any) {
            assert(holds(rule_for(more, n)->0[i], first));
        }
    }
}

/// The baseline unlocks nothing: by default, a call that is not ordinary,
/// and not one of the three that are allowed in part, is refused.
pub proof fn baseline_unlocks_nothing(n: i64, first: u64)
    requires
        !ordinary(n),
        n != SYS_CLONE,
        n != SYS_SOCKET,
        n != SYS_PERSONALITY,
    ensures
        !permits(held_set(BASELINE_CAPABILITIES@), n, first),
{
    let held = held_set(BASELINE_CAPABILITIES@);
    assert forall|c: u8| held.contains(c) implies !(#[trigger] gated_by(c).contains(n)) by {
        let i = choose|i: int| 0 <= i < 14 && BASELINE_CAPABILITIES@[i] == c;
        assert(gated_by(c) =~= Seq::<i64>::empty());
    }
}

/// Without `CAP_SYS_ADMIN`, a `clone` is let through exactly if it asks for
/// no new namespace.
pub proof fn clone_makes_no_namespaces(held: Set<u8>, flags: u64)
    requires
        !held.contains(CAP_SYS_ADMIN),
    ensures
        permits(held, SYS_CLONE, flags) <==> flags & CLONE_NEW_NAMESPACE_FLAGS_MASK == 0,
{
    assert forall|c: u8| held.contains(c) implies !(#[trigger] gated_by(c).contains(SYS_CLONE)) by {
        let calls = gated_by(c);
        if calls.contains(SYS_CLONE) {
            let i = choose|i: int| 0 <= i < calls.len() && calls[i] == SYS_CLONE;
            assert(c == CAP_SYS_ADMIN);
        }
    }
    let any = clone_conditions();
    assert(rule_for(held, SYS_CLONE) == Some(any));
    assert(0u64 & CLONE_NEW_NAMESPACE_FLAGS_MASK == 0) by (bit_vector);
    assert(holds(any[0], flags) <==> flags & CLONE_NEW_NAMESPACE_FLAGS_MASK == 0);
}

/// An added capability opens the calls that need it.
pub proof fn addition_opens_its_calls(profile: SecurityProfile, c: u8, n: i64, first: u64)
    requires
        in_effect(profile, c),
        gated_by(c).contains(n),
    ensures
        permits(effective_set(profile), n, first),
{
    let calls = gated_by(c);
    let i = choose|i: int| 0 <= i < calls.len() && calls[i] == n;
    assert(n != SYS_SOCKET && n != SYS_PERSONALITY);
    assert(effective_set(profile).contains(c) && gated_by(c).contains(n));
}

/// Sockets of all families may be opened but those of the two families 38 and
/// 40, and `personality` may be asked for the five domains and no other.
pub proof fn arguments_decide_on_two_calls(held: Set<u8>, first: u64)
    requires
        first <= u32::MAX,
    ensures
        permits(held, 41, first) <==> first != 38 && first != 40,
        permits(held, 135, first) <==> first == 0 || first == 8 || first == 131072 || first == 131080 || first
            == 4294967295,
{
    assert(first & 0xffff_ffff == first) by (bit_vector)
        requires
            first <= 0xffff_ffffu64,
    ;
    let s = socket_conditions();
    assert(rule_for(held, 41) == Some(s));
    if first < 38 {
        assert(holds(s[0], first));
    } else if first == 39 {
        assert(holds(s[1], first));
    } else if first > 40 {
        assert(holds(s[2], first));
    } else {
        assert forall|i: int| 0 <= i < s.len() implies !holds(#[trigger] s[i], first) by {
            assert(i == 0 || i == 1 || i == 2);
        }
    }
    let p = personality_conditions();
    assert(rule_for(held, 135) == Some(p));
    if first == 0 {
        assert(holds(p[0], first));
    } else if first == 8 {
        assert(holds(p[1], first));
    } else if first == 131072 {
        assert(holds(p[2], first));
    } else if first == 131080 {
        assert(holds(p[3], first));
    } else if first == 4294967295 {
        assert(holds(p[4], first));
    } else {
        assert forall|i: int| 0 <= i < p.len() implies !holds(#[trigger] p[i], first) by {
            assert(i == 0 || i == 1 || i == 2 || i == 3 || i == 4);
        }
    }
}

/// A capability may be named in any case, and with or without `CAP_` in front.
pub proof fn capability_names_are_lenient(a: Seq<char>, b: Seq<char>)
    requires
        uppercased(a) == uppercased(b),
        !("CAP_"@.is_prefix_of(uppercased(a))),
    ensures
        capability_of(a) == capability_of(b),
        capability_of(a) == capability_named("CAP_"@ + uppercased(a)),
        capability_of("CAP_"@ + a) == capability_of(a),
        capability_of("cap_"@ + a) == capability_of(a),
{
    reveal_strlit("CAP_");
    reveal_strlit("cap_");
    let u = "CAP_"@ + uppercased(a);
    assert(uppercased("CAP_"@ + a) =~= u);
    assert(uppercased("cap_"@ + a) =~= u);
    assert("CAP_"@ =~= u.subrange(0, 4));
}

/// A profile is spoilt by the first of its names that names nothing, and by
/// none where all name something.
pub proof fn the_first_unknown_name_is_reported(a: Seq<Seq<char>>, bad: Seq<char>, b: Seq<Seq<char>>)
    requires
        forall|i: int| 0 <= i < a.len() ==> capability_of(#[trigger] a[i]) is Some,
        capability_of(bad) is None,
    ensures
        first_unknown(a) is None,
        first_unknown(a + seq![bad] + b) == Some(bad),
    decreases a.len() + b.len(),
{
    let all = a + seq![bad] + b;
    if b.len() > 0 {
        the_first_unknown_name_is_reported(a, bad, b.drop_last());
        assert(all.drop_last() =~= a + seq![bad] + b.drop_last());
    } else {
        assert(all.drop_last() =~= a);
        assert(all.last() == bad);
        if a.len() > 0 {
            let before = a.drop_last();
            assert forall|i: int| 0 <= i < before.len() implies capability_of(#[trigger] before[i]) is Some by {
                assert(before[i] == a[i]);
            }
            the_first_unknown_name_is_reported(before, bad, b);
            assert(capability_of(a[a.len() - 1]) is Some);
        }
    }
}

/// A capability is in a mask if the bit of its number is set.
pub proof fn masks_have_a_bit_for_each_capability(mask: u64, c: u8)
    requires
        c < 64,
    ensures
        in_mask(mask, c) <==> (mask >> c) % 2 == 1,
{
    assert(mask & (1u64 << c) != 0 <==> (mask >> c) % 2 == 1) by (bit_vector)
        requires
            c < 64u8,
    ;
}

/// The line about the bounding set is the first that begins with its name.
pub proof fn the_bounding_set_is_found(a: Seq<Seq<char>>, value: Seq<char>, b: Seq<Seq<char>>)
    requires
        forall|i: int| 0 <= i < a.len() ==> !("CapBnd:"@.is_prefix_of(#[trigger] a[i])),
    ensures
        bounding_line(a + seq!["CapBnd:"@ + value] + b) == Some("CapBnd:"@ + value),
        bounding_line(a) is None,
    decreases a.len(),
{
    let line = "CapBnd:"@ + value;
    let all = a + seq![line] + b;
    assert("CapBnd:"@ =~= line.subrange(0, "CapBnd:"@.len() as int));
    if a.len() == 0 {
        assert(all[0] == line);
    } else {
        assert(all[0] == a[0]);
        assert(all.drop_first() =~= a.drop_first() + seq![line] + b);
        assert forall|i: int| 0 <= i < a.drop_first().len() implies !("CapBnd:"@.is_prefix_of(
            #[trigger] a.drop_first()[i],
        )) by {
            assert(a.drop_first()[i] == a[i + 1]);
        }
        the_bounding_set_is_found(a.drop_first(), value, b);
    }
}

/// What a container may do by default: change owners, override permissions,
/// own and mark files, send signals, change users and groups and capabilities,
/// bind low ports, use raw sockets, change the root, make devices, write to the
/// audit log and set capabilities of files; nothing else.
pub proof fn the_baseline_is_short(profile: SecurityProfile, c: u8)
    requires
        profile.cap_add@.len() == 0,
        profile.cap_drop@.len() == 0,
    ensures
        in_effect(profile, c) <==> c == 0 || c == 1 || c == 3 || c == 4 || c == 5 || c == 6 || c == 7 || c == 8 || c
            == 10 || c == 13 || c == 18 || c == 27 || c == 29 || c == 31,
{
    let b = BASELINE_CAPABILITIES@;
    assert(b[0] == 0 && b[1] == 1 && b[2] == 3 && b[3] == 4 && b[4] == 5 && b[5] == 6 && b[6] == 7);
    assert(b[7] == 8 && b[8] == 10 && b[9] == 13 && b[10] == 18 && b[11] == 27 && b[12] == 29 && b[13] == 31);
    if b.contains(c) {
        let i = choose|i: int| 0 <= i < b.len() && b[i] == c;
        assert(0 <= i < 14);
    }
}

/// The table has a rule for a call exactly if there is one, and it is that one.
pub proof fn the_table_holds_every_rule(held: Set<u8>, n: i64, any: Seq<Condition>)
    ensures
        rule_table(held).contains((n, any)) <==> 0 <= n < 512 && rule_for(held, n) == Some(any),
{
    lemma_rules_below(held, SYSCALL_LIMIT as nat, n, any);
}

/// The rules of the first calls.
proof fn lemma_rules_below(held: Set<u8>, k: nat, n: i64, any: Seq<Condition>)
    requires
        k <= 512,
    ensures
        rules_below(held, k).contains((n, any)) <==> 0 <= n < k && rule_for(held, n) == Some(any),
    decreases k,
{
    if k > 0 {
        lemma_rules_below(held, (k - 1) as nat, n, any);
        let before = rules_below(held, (k - 1) as nat);
        let all = rules_below(held, k);
        if before.contains((n, any)) {
            let i = choose|i: int| 0 <= i < before.len() && before[i] == (n, any);
            assert(all[i] == (n, any));
        }
        if let Some(r) = rule_for(held, (k - 1) as i64) {
            assert(all[before.len() as int] == ((k - 1) as i64, r));
        }
        if all.contains((n, any)) {
            let i = choose|i: int| 0 <= i < all.len() && all[i] == (n, any);
            if i < before.len() {
                assert(before[i] == (n, any));
            }
        }
    }
}

/// A call that no rule allows fails as not permitted, and one that a rule
/// allows goes ahead; `clone3` is answered as unknown by the filter on top.
pub proof fn refused_calls_fail(held: Set<u8>, arch: Seq<char>)
    ensures
        main_filter(held, arch) == compiled(chains_of(rule_table(held)), Verdict::Errno(1), Verdict::Allow, arch),
        clone3_filter(arch) == compiled(
            chains_of(seq![(435i64, Seq::<Condition>::empty())]),
            Verdict::Allow,
            Verdict::Errno(38),
            arch,
        ),
{
}

/// What is left out of a list is what is not kept, in the order of the list.
pub proof fn the_rest_is_left_out(all: Seq<u8>, kept: Seq<u8>, c: u8)
    ensures
        left_out(all, kept).contains(c) <==> all.contains(c) && !kept.contains(c),
    decreases all.len(),
{
    let keep = |x: u8| !kept.contains(x);
    reveal(Seq::filter);
    if all.len() > 0 {
        let before = all.drop_last();
        the_rest_is_left_out(before, kept, c);
        let a = before.filter(keep);
        let b = all.filter(keep);
        assert(all =~= before.push(all.last()));
        lemma_one_added(before, all.last(), c);
        lemma_one_added(a, all.last(), c);
    }
}

/// What a list holds once one more was added to it.
proof fn lemma_one_added(v: Seq<u8>, one: u8, c: u8)
    ensures
        v.push(one).contains(c) <==> v.contains(c) || one == c,
{
    let w = v.push(one);
    if v.contains(c) {
        let i = choose|i: int| 0 <= i < v.len() && v[i] == c;
        assert(w[i] == c);
    }
    assert(w[v.len() as int] == one);
}

} // verus!
