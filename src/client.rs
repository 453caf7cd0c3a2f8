use vstd::prelude::*;
use crate::index::{FileHashIndex, diff, diff_set, lists_path, paths_distinct};
use crate::server::{Reply, is_success, spec_is_success};
use crate::wire::{decode_index, json_object_members, pairs_map};

verus! {

/// Why a sync stopped before any file was fetched.
#[derive(Debug, PartialEq, Eq, Structural)]
pub enum SyncError {
    /// The client's own index could not be built.
    LocalIndexUnavailable,
    /// The server could not be reached for its index.
    ServerUnreachable,
    /// The server answered the request for its index with a failure status.
    RemoteIndexUnavailable,
    /// The server's answer is not a JSON object of string members.
    BadRemoteIndex,
}

/// Decides which paths to fetch, from the client's own index (`None` where
/// building it failed) and the server's reply to the request for its index
/// (`None` where the server could not be reached).
pub fn plan_sync(local: Option<&FileHashIndex>, remote: Option<&Reply>) -> (r: Result<Vec<String>, SyncError>)
    requires
        local is Some ==> local->0.wf(),
    ensures
        local is None ==> r == Err::<Vec<String>, SyncError>(SyncError::LocalIndexUnavailable),
        local is Some && remote is None ==> r == Err::<Vec<String>, SyncError>(SyncError::ServerUnreachable),
        local is Some && remote is Some && !spec_is_success(remote->0.status) ==> r == Err::<Vec<String>, SyncError>(
            SyncError::RemoteIndexUnavailable,
        ),
        local is Some && remote is Some && spec_is_success(remote->0.status) && json_object_members(
            remote->0.body@,
        ) is None ==> r == Err::<Vec<String>, SyncError>(SyncError::BadRemoteIndex),
        local is Some && remote is Some && spec_is_success(remote->0.status) && json_object_members(
            remote->0.body@,
        ) is Some ==> r is Ok && paths_distinct(r->Ok_0@) && forall|p: Seq<char>| #[trigger]
            lists_path(r->Ok_0@, p) <==> diff_set(
                local->0@,
                pairs_map(json_object_members(remote->0.body@)->0),
            ).contains(p),
{
    let local = match local {
        Some(l) => l,
        None => {
            return Err(SyncError::LocalIndexUnavailable);
        },
    };
    let reply = match remote {
        Some(reply) => reply,
        None => {
            return Err(SyncError::ServerUnreachable);
        },
    };
    if !is_success(reply.status) {
        return Err(SyncError::RemoteIndexUnavailable);
    }
    match decode_index(reply.body.as_slice()) {
        Some(remote_index) => Ok(diff(local, &remote_index)),
        None => Err(SyncError::BadRemoteIndex),
    }
}

/// What to do with one path of the diff once its transfer has ended.
pub enum FileOutcome {
    /// Write these bytes to the path, creating missing parent directories.
    Store(Vec<u8>),
    /// Report the path as failed and go on with the next one.
    Failed,
}

/// Decides the outcome of one transfer, from the server's reply (`None`
/// where the connection failed or the body could not be read): only a
/// success status leads to a write, of the body as received.
pub fn transfer_outcome(fetched: Option<Reply>) -> (r: FileOutcome)
    ensures
        match fetched {
            Some(reply) => if spec_is_success(reply.status) {
                r matches FileOutcome::Store(bytes) && bytes@ == reply.body@
            } else {
                r is Failed
            },
            None => r is Failed,
        },
{
    match fetched {
        Some(reply) => {
            if is_success(reply.status) {
                FileOutcome::Store(reply.body)
            } else {
                FileOutcome::Failed
            }
        },
        None => FileOutcome::Failed,
    }
}

/// The paths that a sync wrote and those whose transfer failed, in the order
/// in which they were handled.
pub struct SyncReport {
    pub written: Vec<String>,
    pub failed: Vec<String>,
}

impl SyncReport {
    /// A report of a sync that has handled no path yet.
    pub fn new() -> (r: Self)
        ensures
            r.written@.len() == 0,
            r.failed@.len() == 0,
    {
        SyncReport { written: Vec::new(), failed: Vec::new() }
    }

    /// Records how the transfer of `path` ended; a failure is only noted, so
    /// the sync goes on with the remaining paths.
    pub fn record(&mut self, path: String, outcome: &FileOutcome)
        ensures
            outcome is Store ==> final(self).written@ == old(self).written@.push(path) && final(self).failed@
                == old(self).failed@,
            outcome is Failed ==> final(self).failed@ == old(self).failed@.push(path) && final(self).written@
                == old(self).written@,
    {
        match outcome {
            FileOutcome::Store(_) => self.written.push(path),
            FileOutcome::Failed => self.failed.push(path),
        }
    }
}

} // verus!
