//! What to do with each socket found on the host: leave it, ask the kernel
//! to destroy it, or reset it through its owning process.
use vstd::prelude::*;
use std::collections::HashMap;
use crate::endpoint::IpAddress;
use crate::table::Stream;
use crate::diag::KillRequest;

verus! {

broadcast use vstd::std_specs::hash::group_hash_axioms;

/// A socket descriptor held by a process.
#[derive(Clone, Copy, Debug, PartialEq, Eq, Structural)]
pub struct SocketRecord {
    pub pid: i32,
    pub fd: i32,
    pub inode: u64,
}

/// The next thing to do for a socket.
#[derive(Clone, Copy, Debug, PartialEq, Eq, Structural)]
pub enum Action {
    /// Nothing (more) to do.
    Leave,
    /// Ask the kernel to destroy the connection.
    Destroy(KillRequest),
    /// Reset the connection through descriptor `fd` of process `pid`.
    Reset { pid: i32, fd: i32 },
}

/// A connection is spared when either of its addresses is allow-listed.
pub open spec fn spared(allow: Seq<IpAddress>, s: Stream) -> bool {
    allow.contains(s.local.addr) || allow.contains(s.remote.addr)
}

/// The first action for a socket: sockets of no established connection and
/// spared connections are left; the rest are destroyed through the kernel
/// when `use_raw` holds, else reset.
pub open spec fn first_action_spec(
    streams: Map<u64, Stream>,
    allow: Seq<IpAddress>,
    use_raw: bool,
    rec: SocketRecord,
) -> Action {
    if !streams.contains_key(rec.inode) || spared(allow, streams[rec.inode]) {
        Action::Leave
    } else if use_raw {
        let s = streams[rec.inode];
        Action::Destroy(KillRequest { local: s.local, remote: s.remote })
    } else {
        Action::Reset { pid: rec.pid, fd: rec.fd }
    }
}

/// The action after a destroy attempt: none when it succeeded, a single
/// reset when it failed.
pub open spec fn after_destroy_spec(rec: SocketRecord, destroyed: bool) -> Action {
    if destroyed {
        Action::Leave
    } else {
        Action::Reset { pid: rec.pid, fd: rec.fd }
    }
}

/// Whether `a` is in `allow`.
pub fn is_allowed(allow: &[IpAddress], a: &IpAddress) -> (r: bool)
    ensures
        r == allow@.contains(*a),
{
    let mut i: usize = 0;
    while i < allow.len()
        invariant
            i <= allow@.len(),
            forall|j: int| 0 <= j < i ==> allow@[j] != *a,
        decreases allow@.len() - i,
    {
        if allow[i] == *a {
            return true;
        }
        i = i + 1;
    }
    false
}

/// The first action for one scanned socket.
pub fn first_action(
    streams: &HashMap<u64, Stream>,
    allow: &[IpAddress],
    use_raw: bool,
    rec: &SocketRecord,
) -> (a: Action)
    ensures
        a == first_action_spec(streams@, allow@, use_raw, *rec),
{
    match streams.get(&rec.inode) {
        None => Action::Leave,
        Some(s) => {
            if is_allowed(allow, &s.local.addr) || is_allowed(allow, &s.remote.addr) {
                Action::Leave
            } else if use_raw {
                Action::Destroy(KillRequest { local: s.local, remote: s.remote })
            } else {
                Action::Reset { pid: rec.pid, fd: rec.fd }
            }
        },
    }
}

/// The action once a destroy attempt has answered.
pub fn after_destroy(rec: &SocketRecord, destroyed: bool) -> (a: Action)
    ensures
        a == after_destroy_spec(*rec, destroyed),
{
    if destroyed {
        Action::Leave
    } else {
        Action::Reset { pid: rec.pid, fd: rec.fd }
    }
}

/// The action once a reset attempt has answered: nothing more, whether it
/// succeeded or failed, since the reset is the last resort.
pub fn after_reset(rec: &SocketRecord, reset: bool) -> (a: Action)
    ensures
        a == Action::Leave,
{
    Action::Leave
}

/// A socket of an allow-listed connection is left alone: no destroy and no
/// reset, whichever way of killing is chosen.
pub proof fn lemma_allow_listed_left(
    streams: Map<u64, Stream>,
    allow: Seq<IpAddress>,
    use_raw: bool,
    rec: SocketRecord,
)
    requires
        streams.contains_key(rec.inode),
        allow.contains(streams[rec.inode].local.addr) || allow.contains(
            streams[rec.inode].remote.addr,
        ),
    ensures
        first_action_spec(streams, allow, use_raw, rec) == Action::Leave,
{
}

/// A connection that is not spared meets exactly one destroy attempt, then
/// exactly one reset if that failed, when the kernel path is used.
pub proof fn lemma_destroy_then_reset(
    streams: Map<u64, Stream>,
    allow: Seq<IpAddress>,
    rec: SocketRecord,
)
    requires
        streams.contains_key(rec.inode),
        !spared(allow, streams[rec.inode]),
    ensures
        first_action_spec(streams, allow, true, rec) matches Action::Destroy(k) && k.local
            == streams[rec.inode].local && k.remote == streams[rec.inode].remote,
        after_destroy_spec(rec, false) == (Action::Reset { pid: rec.pid, fd: rec.fd }),
        after_destroy_spec(rec, true) == Action::Leave,
        first_action_spec(streams, allow, false, rec) == (Action::Reset { pid: rec.pid, fd: rec.fd }),
{
}

/// Whether the kernel is recent enough for socket destroy requests: newer
/// than 4.9.
pub open spec fn raw_protocol_supported(major: u8, minor: u8) -> bool {
    major > 4 || (major == 4 && minor > 9)
}

/// Whether to destroy sockets through the kernel rather than by reset: only
/// when the kernel version is known and supports it, and no reset was asked
/// for.
pub fn use_raw_protocol(version: Option<(u8, u8)>, force_reset: bool) -> (r: bool)
    ensures
        r == (!force_reset && (version matches Some((major, minor)) && raw_protocol_supported(
            major,
            minor,
        ))),
{
    match version {
        Some((major, minor)) => !force_reset && (major > 4 || (major == 4 && minor > 9)),
        None => false,
    }
}

} // verus!
