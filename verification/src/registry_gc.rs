//! Removing blobs that no stored manifest refers to any more.

use crate::image::opt_text;
use crate::num::{decimal, u64_text};
use crate::store::listed;
use crate::text::{cat2, cat4, views};
use vstd::prelude::*;

verus! {

/// The digests that a manifest refers to.
pub struct ManifestDigests {
    pub config: Option<String>,
    pub layers: Vec<String>,
}

/// A stored blob: its name, and its size where that could be told.
pub struct StoredBlob {
    pub hex: String,
    pub size: Option<u64>,
}

/// What a collection came to.
#[derive(Debug, Clone, Copy, PartialEq, Eq, Structural)]
pub struct GcSummary {
    pub blobs_removed: u64,
    pub bytes_freed: u64,
}

/// Whether a manifest refers to a digest.
pub open spec fn refers_to(m: ManifestDigests, digest: Seq<char>) -> bool {
    opt_text(m.config) == Some(digest) || views(m.layers@).contains(digest)
}

/// Whether some manifest refers to a digest.
pub open spec fn is_live(manifests: Seq<ManifestDigests>, digest: Seq<char>) -> bool {
    exists|i: int| 0 <= i < manifests.len() && refers_to(#[trigger] manifests[i], digest)
}

/// The digest of a stored blob.
pub open spec fn blob_digest(b: StoredBlob) -> Seq<char> {
    "sha256:"@ + b.hex@
}

/// The indices of the blobs that no manifest refers to, ascending.
pub open spec fn orphan_indices(manifests: Seq<ManifestDigests>, blobs: Seq<StoredBlob>) -> Seq<int>
    decreases blobs.len(),
{
    if blobs.len() == 0 {
        Seq::empty()
    } else {
        let before = orphan_indices(manifests, blobs.drop_last());
        if is_live(manifests, blob_digest(blobs.last())) {
            before
        } else {
            before.push(blobs.len() - 1)
        }
    }
}

/// Executable indices as integers.
pub open spec fn index_ints(v: Seq<usize>) -> Seq<int> {
    v.map_values(|i: usize| i as int)
}

/// Whether some manifest refers to a digest.
fn live(manifests: &Vec<ManifestDigests>, digest: &str) -> (r: bool)
    ensures
        r == is_live(manifests@, digest@),
{
    let mut i: usize = 0;
    while i < manifests.len()
        invariant
            i <= manifests@.len(),
            forall|j: int| 0 <= j < i ==> !refers_to(#[trigger] manifests@[j], digest@),
        decreases manifests.len() - i,
    {
        let m = &manifests[i];
        let by_config = match &m.config {
            Some(c) => crate::text::str_eq(c.as_str(), digest),
            None => false,
        };
        if by_config || listed(&m.layers, digest) {
            assert(refers_to(manifests@[i as int], digest@));
            return true;
        }
        i += 1;
    }
    false
}

/// The blobs to remove: those that no manifest refers to.
pub fn orphans(manifests: &Vec<ManifestDigests>, blobs: &Vec<StoredBlob>) -> (r: Vec<usize>)
    ensures
        index_ints(r@) == orphan_indices(manifests@, blobs@),
        forall|k: int| 0 <= k < r@.len() ==> (#[trigger] r@[k]) < blobs@.len(),
{
    let mut out: Vec<usize> = Vec::new();
    let mut i: usize = 0;
    assert(index_ints(out@) =~= orphan_indices(manifests@, blobs@.take(0)));
    while i < blobs.len()
        invariant
            i <= blobs@.len(),
            index_ints(out@) == orphan_indices(manifests@, blobs@.take(i as int)),
            forall|k: int| 0 <= k < out@.len() ==> (#[trigger] out@[k]) < i,
        decreases blobs.len() - i,
    {
        proof {
            assert(blobs@.take(i + 1).drop_last() =~= blobs@.take(i as int));
            assert(blobs@.take(i + 1).last() == blobs@[i as int]);
        }
        let digest = cat2("sha256:", blobs[i].hex.as_str());
        if !live(manifests, digest.as_str()) {
            assert(index_ints(out@.push(i)) =~= index_ints(out@).push(i as int));
            out.push(i);
        }
        i += 1;
    }
    assert(blobs@.take(i as int) =~= blobs@);
    out
}

/// The sizes of some of the blobs, added up; an unknown size counts nothing.
pub open spec fn total_size(blobs: Seq<StoredBlob>, which: Seq<int>) -> nat
    decreases which.len(),
{
    if which.len() == 0 {
        0
    } else {
        total_size(blobs, which.drop_last()) + match blobs[which.last()].size {
            Some(n) => n as nat,
            None => 0,
        }
    }
}

/// How many of the outcomes are successes.
pub open spec fn successes(v: Seq<bool>) -> nat
    decreases v.len(),
{
    if v.len() == 0 {
        0
    } else {
        successes(v.drop_last()) + if v.last() {
            1nat
        } else {
            0nat
        }
    }
}

/// What a collection comes to: how many blobs count as removed, and their
/// sizes added up.
pub open spec fn outcome(blobs: Seq<StoredBlob>, which: Seq<int>, dry_run: bool, removed: Seq<bool>) -> (nat, nat) {
    (
        if dry_run {
            which.len()
        } else {
            successes(removed)
        },
        total_size(blobs, which),
    )
}

/// What a collection came to. `removed` says of each orphan whether removing
/// it worked; in a dry run nothing is removed and everything counts.
pub fn collect_garbage(blobs: &Vec<StoredBlob>, which: &Vec<usize>, dry_run: bool, removed: &Vec<bool>) -> (r:
    GcSummary)
    requires
        forall|k: int| 0 <= k < which@.len() ==> (#[trigger] which@[k]) < blobs@.len(),
        !dry_run ==> removed@.len() == which@.len(),
        total_size(blobs@, index_ints(which@)) <= u64::MAX,
    ensures
        (r.blobs_removed as nat, r.bytes_freed as nat) == outcome(blobs@, index_ints(which@), dry_run, removed@),
{
    let ghost all = index_ints(which@);
    let mut bytes_freed: u64 = 0;
    let mut count: u64 = 0;
    let mut k: usize = 0;
    while k < which.len()
        invariant
            k <= which@.len(),
            all == index_ints(which@),
            forall|j: int| 0 <= j < which@.len() ==> (#[trigger] which@[j]) < blobs@.len(),
            !dry_run ==> removed@.len() == which@.len(),
            total_size(blobs@, all) <= u64::MAX,
            bytes_freed == total_size(blobs@, all.take(k as int)),
            count == (if dry_run {
                k as nat
            } else {
                successes(removed@.take(k as int))
            }),
            count <= k,
        decreases which.len() - k,
    {
        proof {
            assert(all.take(k + 1).drop_last() =~= all.take(k as int));
            assert(all.take(k + 1).last() == which@[k as int] as int);
            lemma_total_grows(blobs@, all, k + 1);
        }
        match blobs[which[k]].size {
            Some(n) => {
                bytes_freed = bytes_freed + n;
            },
            None => {},
        }
        if dry_run {
            count = count + 1;
        } else {
            proof {
                assert(removed@.take(k + 1).drop_last() =~= removed@.take(k as int));
            }
            if removed[k] {
                count = count + 1;
            }
        }
        k += 1;
    }
    proof {
        assert(all.take(k as int) =~= all);
        if !dry_run {
            assert(removed@.take(k as int) =~= removed@);
        }
    }
    GcSummary { blobs_removed: count, bytes_freed }
}

/// Adding blobs never makes the total smaller.
proof fn lemma_total_grows(blobs: Seq<StoredBlob>, which: Seq<int>, n: int)
    requires
        0 <= n <= which.len(),
    ensures
        total_size(blobs, which.take(n)) <= total_size(blobs, which),
    decreases which.len(),
{
    if n == which.len() {
        assert(which.take(n) =~= which);
    } else {
        assert(which.drop_last().take(n) =~= which.take(n));
        lemma_total_grows(blobs, which.drop_last(), n);
    }
}

/// Exactly the blobs that no manifest refers to are removed: a blob is chosen
/// if and only if it is not live.
pub proof fn only_orphans_go(manifests: Seq<ManifestDigests>, blobs: Seq<StoredBlob>, i: int)
    requires
        0 <= i < blobs.len(),
    ensures
        orphan_indices(manifests, blobs).contains(i) <==> !is_live(manifests, blob_digest(blobs[i])),
    decreases blobs.len(),
{
    let before = orphan_indices(manifests, blobs.drop_last());
    let n = blobs.len() - 1;
    lemma_orphans_in_range(manifests, blobs.drop_last());
    if i < n {
        only_orphans_go(manifests, blobs.drop_last(), i);
        assert(blobs.drop_last()[i] == blobs[i]);
        if before.contains(i) {
            let k = choose|k: int| 0 <= k < before.len() && before[k] == i;
            assert(before.push(n)[k] == i);
        }
        if before.push(n).contains(i) {
            let k = choose|k: int| 0 <= k < before.push(n).len() && before.push(n)[k] == i;
            assert(before[k] == i);
        }
    } else {
        assert(before.push(n)[before.len() as int] == n);
        if before.contains(n) {
            let k = choose|k: int| 0 <= k < before.len() && before[k] == n;
            assert(before[k] < n);
        }
    }
}

/// A blob is removed exactly if no manifest names its digest, neither as its
/// configuration nor among its layers.
pub proof fn named_blobs_stay(manifests: Seq<ManifestDigests>, blobs: Seq<StoredBlob>, b: int)
    requires
        0 <= b < blobs.len(),
    ensures
        orphan_indices(manifests, blobs).contains(b) <==> forall|m: int|
            0 <= m < manifests.len() ==> {
                &&& (#[trigger] manifests[m]).config matches Some(c) ==> c@ != "sha256:"@ + blobs[b].hex@
                &&& forall|k: int|
                    0 <= k < manifests[m].layers@.len() ==> (#[trigger] manifests[m].layers@[k])@ != "sha256:"@
                        + blobs[b].hex@
            },
{
    let digest = "sha256:"@ + blobs[b].hex@;
    only_orphans_go(manifests, blobs, b);
    assert forall|m: int| 0 <= m < manifests.len() implies (refers_to(#[trigger] manifests[m], digest) <==> !({
        &&& manifests[m].config matches Some(c) ==> c@ != digest
        &&& forall|k: int| 0 <= k < manifests[m].layers@.len() ==> (#[trigger] manifests[m].layers@[k])@ != digest
    })) by {
        let texts = views(manifests[m].layers@);
        if texts.contains(digest) {
            let k = choose|k: int| 0 <= k < texts.len() && texts[k] == digest;
            assert(manifests[m].layers@[k]@ == digest);
        }
        if exists|k: int| 0 <= k < manifests[m].layers@.len() && (#[trigger] manifests[m].layers@[k])@ == digest {
            let k = choose|k: int| 0 <= k < manifests[m].layers@.len() && (#[trigger] manifests[m].layers@[k])@ == digest;
            assert(texts[k] == digest);
        }
    }
}

/// Every blob is removed once at most, in the order in which blobs are listed.
pub proof fn orphans_are_in_order(manifests: Seq<ManifestDigests>, blobs: Seq<StoredBlob>)
    ensures
        ({
            let which = orphan_indices(manifests, blobs);
            &&& forall|k: int| 0 <= k < which.len() ==> 0 <= #[trigger] which[k] < blobs.len()
            &&& forall|k: int, l: int| 0 <= k < l < which.len() ==> #[trigger] which[k] < #[trigger] which[l]
        }),
    decreases blobs.len(),
{
    lemma_orphans_in_range(manifests, blobs);
    if blobs.len() > 0 {
        orphans_are_in_order(manifests, blobs.drop_last());
        lemma_orphans_in_range(manifests, blobs.drop_last());
        let before = orphan_indices(manifests, blobs.drop_last());
        let which = orphan_indices(manifests, blobs);
        assert forall|k: int, l: int| 0 <= k < l < which.len() implies #[trigger] which[k] < #[trigger] which[l] by {
            assert(which[k] == before[k]);
            if l < before.len() {
                assert(which[l] == before[l]);
            }
        }
    }
}

/// What a collection comes to is what its parts come to: of two batches the
/// sums, and of one blob its size, and one if it counts as removed.
pub proof fn batches_add_up(
    blobs: Seq<StoredBlob>,
    a: Seq<int>,
    b: Seq<int>,
    dry_run: bool,
    x: Seq<bool>,
    y: Seq<bool>,
)
    requires
        !dry_run ==> x.len() == a.len() && y.len() == b.len(),
    ensures
        ({
            let both = outcome(blobs, a + b, dry_run, x + y);
            &&& both.0 == outcome(blobs, a, dry_run, x).0 + outcome(blobs, b, dry_run, y).0
            &&& both.1 == outcome(blobs, a, dry_run, x).1 + outcome(blobs, b, dry_run, y).1
        }),
        forall|k: int, gone: bool|
            #![trigger outcome(blobs, seq![k], dry_run, seq![gone])]
            outcome(blobs, seq![k], dry_run, seq![gone]) == (
                if dry_run || gone {
                    1nat
                } else {
                    0nat
                },
                match blobs[k].size {
                    Some(n) => n as nat,
                    None => 0,
                },
            ),
{
    lemma_sizes_add_up(blobs, a, b);
    lemma_successes_add_up(x, y);
    assert forall|k: int, gone: bool|
        #![trigger outcome(blobs, seq![k], dry_run, seq![gone])]
        outcome(blobs, seq![k], dry_run, seq![gone]) == (
            if dry_run || gone {
                1nat
            } else {
                0nat
            },
            match blobs[k].size {
                Some(n) => n as nat,
                None => 0,
            },
        ) by {
        reveal_with_fuel(total_size, 2);
        reveal_with_fuel(successes, 2);
        assert(seq![k].drop_last() =~= Seq::<int>::empty());
        assert(seq![gone].drop_last() =~= Seq::<bool>::empty());
    }
}

/// The sizes of two batches add up.
proof fn lemma_sizes_add_up(blobs: Seq<StoredBlob>, a: Seq<int>, b: Seq<int>)
    ensures
        total_size(blobs, a + b) == total_size(blobs, a) + total_size(blobs, b),
    decreases b.len(),
{
    if b.len() == 0 {
        assert(a + b =~= a);
    } else {
        lemma_sizes_add_up(blobs, a, b.drop_last());
        assert((a + b).drop_last() =~= a + b.drop_last());
        assert((a + b).last() == b.last());
    }
}

/// The successes of two batches add up.
proof fn lemma_successes_add_up(x: Seq<bool>, y: Seq<bool>)
    ensures
        successes(x + y) == successes(x) + successes(y),
    decreases y.len(),
{
    if y.len() == 0 {
        assert(x + y =~= x);
    } else {
        lemma_successes_add_up(x, y.drop_last());
        assert((x + y).drop_last() =~= x + y.drop_last());
        assert((x + y).last() == y.last());
    }
}

/// Orphans are among the blobs.
proof fn lemma_orphans_in_range(manifests: Seq<ManifestDigests>, blobs: Seq<StoredBlob>)
    ensures
        forall|k: int|
            0 <= k < orphan_indices(manifests, blobs).len() ==> 0 <= #[trigger] orphan_indices(
                manifests,
                blobs,
            )[k] < blobs.len(),
    decreases blobs.len(),
{
    if blobs.len() > 0 {
        lemma_orphans_in_range(manifests, blobs.drop_last());
        let before = orphan_indices(manifests, blobs.drop_last());
        let now = orphan_indices(manifests, blobs);
        assert forall|k: int| 0 <= k < now.len() implies 0 <= #[trigger] now[k] < blobs.len() by {
            if k < before.len() {
                assert(now[k] == before[k]);
            }
        }
    }
}

/// Where each of them is one, the successes are all the outcomes.
proof fn lemma_all_succeed(removed: Seq<bool>)
    requires
        forall|k: int| 0 <= k < removed.len() ==> #[trigger] removed[k],
    ensures
        successes(removed) == removed.len(),
    decreases removed.len(),
{
    if removed.len() > 0 {
        assert forall|k: int| 0 <= k < removed.drop_last().len() implies #[trigger] removed.drop_last()[k] by {
            assert(removed[k]);
        }
        lemma_all_succeed(removed.drop_last());
        assert(removed[removed.len() - 1]);
    }
}

/// A dry run comes to exactly what a run comes to in which every removal
/// works.
pub proof fn dry_run_is_exact(blobs: Seq<StoredBlob>, which: Seq<int>, none: Seq<bool>, removed: Seq<bool>)
    requires
        removed.len() == which.len(),
        forall|k: int| 0 <= k < removed.len() ==> #[trigger] removed[k],
    ensures
        outcome(blobs, which, true, none) == outcome(blobs, which, false, removed),
{
    lemma_all_succeed(removed);
}

/// What is said of a collection; `freed` is the readable form of the bytes.
pub fn report(summary: &GcSummary, dry_run: bool, freed: &str) -> (r: String)
    ensures
        r@ == (if dry_run { "would remove"@ } else { "removed"@ }) + " "@ + decimal(summary.blobs_removed as nat)
            + " blob"@ + ((if summary.blobs_removed == 1 { ""@ } else { "s"@ }) + " ("@ + freed@ + ")"@),
{
    let verb = if dry_run { "would remove" } else { "removed" };
    let n = u64_text(summary.blobs_removed);
    let plural = if summary.blobs_removed == 1 { "" } else { "s" };
    let head = cat4(verb, " ", n.as_str(), " blob");
    let tail = cat4(plural, " (", freed, ")");
    cat2(head.as_str(), tail.as_str())
}

/// The size of what goes is counted blob by blob; one whose size cannot be
/// read counts for nothing.
pub proof fn sizes_add_up(blobs: Seq<StoredBlob>, a: Seq<int>, b: Seq<int>, one: int)
    ensures
        total_size(blobs, a + b) == total_size(blobs, a) + total_size(blobs, b),
        blobs[one].size matches Some(n) ==> total_size(blobs, seq![one]) == n,
        blobs[one].size is None ==> total_size(blobs, seq![one]) == 0,
    decreases b.len(),
{
    reveal_with_fuel(total_size, 2);
    assert(seq![one].drop_last() =~= Seq::<int>::empty());
    if b.len() == 0 {
        assert(a + b =~= a);
    } else {
        sizes_add_up(blobs, a, b.drop_last(), one);
        assert((a + b).drop_last() =~= a + b.drop_last());
        assert((a + b).last() == b.last());
    }
}

} // verus!
