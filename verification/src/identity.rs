//! The fixed subordinate id range of remapped containers. Layers store
//! owners as small, container-relative numbers; on disk every container's
//! ids live in one range of host ids.

use crate::namespaces::IdMap;
use vstd::prelude::*;

verus! {

/// The host user id that container user 0 is.
pub const SUBORDINATE_UID_BASE: u32 = 100_000;

/// The host group id that container group 0 is.
pub const SUBORDINATE_GID_BASE: u32 = 100_000;

/// How many ids a container has.
pub const SUBORDINATE_RANGE: u32 = 65_536;

/// The identity map every container is created with.
pub fn container_id_map(base: u32) -> (r: Vec<IdMap>)
    ensures
        r@ == seq![IdMap { container_id: 0, host_id: base, count: SUBORDINATE_RANGE }],
{
    let mut out: Vec<IdMap> = Vec::new();
    out.push(IdMap { container_id: 0, host_id: base, count: SUBORDINATE_RANGE });
    out
}

/// The container-relative number of a host id; ids outside the range stay as they are.
pub open spec fn relative_id(host_id: int, base: int) -> int {
    if base <= host_id < base + SUBORDINATE_RANGE {
        host_id - base
    } else {
        host_id
    }
}

/// The host id of a container-relative number; numbers outside the range stay as they are.
pub open spec fn host_id_of(container_id: int, base: int) -> int {
    if container_id < SUBORDINATE_RANGE {
        base + container_id
    } else {
        container_id
    }
}

/// The container-relative number of a host id. An id outside the range (a
/// file that no container ever owned) is returned unchanged.
pub fn host_to_container(host_id: u32, base: u32) -> (r: u32)
    requires
        host_id >= base ==> base + SUBORDINATE_RANGE <= u32::MAX,
    ensures
        r == relative_id(host_id as int, base as int),
{
    if host_id >= base && host_id < base + SUBORDINATE_RANGE {
        host_id - base
    } else {
        host_id
    }
}

/// Where a container-relative id lives on the host.
pub fn container_to_host(container_id: u32, base: u32) -> (r: u32)
    requires
        container_id < SUBORDINATE_RANGE ==> base + container_id <= u32::MAX,
    ensures
        r == host_id_of(container_id as int, base as int),
{
    if container_id < SUBORDINATE_RANGE {
        base + container_id
    } else {
        container_id
    }
}

/// Going to the host and back gives the same container-relative id. The one
/// exception is a number past the range that happens to be a host id of the
/// range itself.
pub proof fn container_ids_survive_the_host(container_id: int, base: int)
    requires
        0 <= container_id,
        0 <= base,
        container_id < SUBORDINATE_RANGE || !(base <= container_id < base + SUBORDINATE_RANGE),
    ensures
        relative_id(host_id_of(container_id, base), base) == container_id,
{
}

/// A host id of the range comes back from the container as itself.
pub proof fn mapped_host_ids_survive_the_container(host_id: int, base: int)
    requires
        0 <= base <= host_id < base + SUBORDINATE_RANGE,
    ensures
        host_id_of(relative_id(host_id, base), base) == host_id,
{
}

/// No user of a container is root on the host: each number that a container
/// maps lies, on the host, in the range set aside for containers.
pub proof fn container_users_are_unprivileged(container_id: int, base: int)
    requires
        0 <= container_id < SUBORDINATE_RANGE,
        0 < base,
    ensures
        host_id_of(container_id, base) != 0,
        base <= host_id_of(container_id, base) < base + SUBORDINATE_RANGE,
{
}

} // verus!
