//! What is on record of transfers.

use crate::api::sync::node_id::NodeId;
use vstd::prelude::*;

verus! {

/// The text of an optional value.
pub open spec fn opt_text(v: Option<String>) -> Option<Seq<char>> {
    match v {
        Some(s) => Some(s@),
        None => None,
    }
}

/// How far a transfer that is sent has come.
#[derive(Debug, Clone, Copy, PartialEq, Eq, Structural)]
pub enum OutboundState {
    Preparing,
    Queued,
    Announced,
    Transferring,
    Delivered,
    Confirmed,
    Failed,
    Cancelled,
}

impl OutboundState {
    /// Whether the transfer has come to its end.
    pub open spec fn terminal(self) -> bool {
        self == OutboundState::Confirmed || self == OutboundState::Failed || self
            == OutboundState::Cancelled
    }

    /// Whether the transfer has come to its end.
    pub fn is_terminal(self) -> (r: bool)
        ensures
            r == self.terminal(),
    {
        match self {
            OutboundState::Confirmed | OutboundState::Failed | OutboundState::Cancelled => true,
            _ => false,
        }
    }

    /// The word for the state.
    pub open spec fn word(self) -> Seq<char> {
        match self {
            OutboundState::Preparing => "preparing"@,
            OutboundState::Queued => "queued"@,
            OutboundState::Announced => "announced"@,
            OutboundState::Transferring => "transferring"@,
            OutboundState::Delivered => "delivered"@,
            OutboundState::Confirmed => "confirmed"@,
            OutboundState::Failed => "failed"@,
            OutboundState::Cancelled => "cancelled"@,
        }
    }

    /// The word for the state.
    pub fn as_str(self) -> (r: &'static str)
        ensures
            r@ == self.word(),
    {
        match self {
            OutboundState::Preparing => "preparing",
            OutboundState::Queued => "queued",
            OutboundState::Announced => "announced",
            OutboundState::Transferring => "transferring",
            OutboundState::Delivered => "delivered",
            OutboundState::Confirmed => "confirmed",
            OutboundState::Failed => "failed",
            OutboundState::Cancelled => "cancelled",
        }
    }
}

/// How far a transfer that is received has come.
#[derive(Debug, Clone, Copy, PartialEq, Eq, Structural)]
pub enum InboundState {
    Announced,
    Fetching,
    Ingesting,
    /// The sender is gone; the transfer goes on when it is back.
    Waiting,
    Done,
    Failed,
    Cancelled,
}

impl InboundState {
    /// Whether the transfer has come to its end.
    pub open spec fn terminal(self) -> bool {
        self == InboundState::Done || self == InboundState::Failed || self
            == InboundState::Cancelled
    }

    /// Whether the transfer has come to its end.
    pub fn is_terminal(self) -> (r: bool)
        ensures
            r == self.terminal(),
    {
        match self {
            InboundState::Done | InboundState::Failed | InboundState::Cancelled => true,
            _ => false,
        }
    }

    /// The word for the state.
    pub open spec fn word(self) -> Seq<char> {
        match self {
            InboundState::Announced => "announced"@,
            InboundState::Fetching => "fetching"@,
            InboundState::Ingesting => "ingesting"@,
            InboundState::Waiting => "waiting"@,
            InboundState::Done => "done"@,
            InboundState::Failed => "failed"@,
            InboundState::Cancelled => "cancelled"@,
        }
    }

    /// The word for the state.
    pub fn as_str(self) -> (r: &'static str)
        ensures
            r@ == self.word(),
    {
        match self {
            InboundState::Announced => "announced",
            InboundState::Fetching => "fetching",
            InboundState::Ingesting => "ingesting",
            InboundState::Waiting => "waiting",
            InboundState::Done => "done",
            InboundState::Failed => "failed",
            InboundState::Cancelled => "cancelled",
        }
    }
}

/// Which way a transfer goes.
#[derive(Debug, Clone, Copy, PartialEq, Eq, Structural)]
pub enum Direction {
    Sent,
    Received,
}

/// How the files of a package are laid out where they land.
#[derive(Debug, Clone, Copy, PartialEq, Eq, Structural)]
pub enum PackageLayout {
    Batch,
    Mirror,
}

/// A transfer that is sent, on record.
#[derive(Debug)]
pub struct OutboundRow {
    pub id: i64,
    /// The directory of the package.
    pub package_ref: String,
    pub peer: NodeId,
    pub state: OutboundState,
    pub attempts: u32,
    pub next_retry_at: Option<String>,
    pub last_error: Option<String>,
    pub created_at: String,
    pub confirmed_at: Option<String>,
    pub display_name: Option<String>,
    /// The id of the package on the wire; each attempt has its own.
    pub wire_package_id: Option<String>,
    pub generation: u32,
    pub layout: PackageLayout,
}

/// A copy of an optional text.
pub fn copy_opt(value: &Option<String>) -> (r: Option<String>)
    ensures
        r == *value,
{
    match value {
        Some(s) => Some(s.clone()),
        None => None,
    }
}

impl Clone for OutboundRow {
    fn clone(&self) -> (r: Self)
        ensures
            r == *self,
    {
        OutboundRow {
            id: self.id,
            package_ref: self.package_ref.clone(),
            peer: self.peer,
            state: self.state,
            attempts: self.attempts,
            next_retry_at: copy_opt(&self.next_retry_at),
            last_error: copy_opt(&self.last_error),
            created_at: self.created_at.clone(),
            confirmed_at: copy_opt(&self.confirmed_at),
            display_name: copy_opt(&self.display_name),
            wire_package_id: copy_opt(&self.wire_package_id),
            generation: self.generation,
            layout: self.layout,
        }
    }
}

/// A transfer that is received, on record.
#[derive(Debug)]
pub struct InboundRow {
    pub id: i64,
    pub peer: String,
    /// The id of the package on the wire.
    pub package_id: String,
    pub state: InboundState,
    pub frame_count: u32,
    pub byte_size: u64,
    pub bytes_done: u64,
    pub last_error: Option<String>,
    pub created_at: String,
    pub finished_at: Option<String>,
    pub display_name: Option<String>,
    pub landing_dir: Option<String>,
    pub batch_uuid: Option<String>,
    pub project_id: Option<String>,
    pub generation: u32,
    pub declined_at: Option<String>,
    pub peer_capability: Option<String>,
}

impl Clone for InboundRow {
    fn clone(&self) -> (r: Self)
        ensures
            r == *self,
    {
        InboundRow {
            id: self.id,
            peer: self.peer.clone(),
            package_id: self.package_id.clone(),
            state: self.state,
            frame_count: self.frame_count,
            byte_size: self.byte_size,
            bytes_done: self.bytes_done,
            last_error: copy_opt(&self.last_error),
            created_at: self.created_at.clone(),
            finished_at: copy_opt(&self.finished_at),
            display_name: copy_opt(&self.display_name),
            landing_dir: copy_opt(&self.landing_dir),
            batch_uuid: copy_opt(&self.batch_uuid),
            project_id: copy_opt(&self.project_id),
            generation: self.generation,
            declined_at: copy_opt(&self.declined_at),
            peer_capability: copy_opt(&self.peer_capability),
        }
    }
}

/// How many files of a transfer there are, and what came of them.
#[derive(Debug, Clone, Copy, PartialEq, Eq, Structural)]
pub struct TransferFileCounts {
    pub total: u32,
    pub done: u32,
    pub failed: u32,
}

impl Default for TransferFileCounts {
    fn default() -> (r: Self)
        ensures
            r.total == 0,
            r.done == 0,
            r.failed == 0,
    {
        TransferFileCounts { total: 0, done: 0, failed: 0 }
    }
}

/// A file of a transfer in the log of transfers.
#[derive(Debug)]
pub struct HistoryRow {
    pub frame_uuid: String,
    pub filename: String,
    pub object: Option<String>,
    pub peer_device: String,
    pub direction: Direction,
    pub bytes: u64,
    pub started_at: String,
    pub finished_at: Option<String>,
    pub outcome: String,
    pub project: Option<String>,
    pub package_id: Option<String>,
    pub batch_name: Option<String>,
}

impl Clone for HistoryRow {
    fn clone(&self) -> (r: Self)
        ensures
            r == *self,
    {
        HistoryRow {
            frame_uuid: self.frame_uuid.clone(),
            filename: self.filename.clone(),
            object: copy_opt(&self.object),
            peer_device: self.peer_device.clone(),
            direction: self.direction,
            bytes: self.bytes,
            started_at: self.started_at.clone(),
            finished_at: copy_opt(&self.finished_at),
            outcome: self.outcome.clone(),
            project: copy_opt(&self.project),
            package_id: copy_opt(&self.package_id),
            batch_name: copy_opt(&self.batch_name),
        }
    }
}

} // verus!
