//! What the user does to transfers: sending one again, stopping one, removing
//! one from the log.

use crate::api::error::{ApiError, Refusal};
use crate::api::sync::node_id::{same_node, NodeId};
use crate::api::sync::rows::{
    opt_text, InboundRow, InboundState, OutboundRow, OutboundState, PackageLayout,
};
use crate::api::sync::selection::AnnounceFileEntry;
use crate::api::sync::transfer_files::TransferFileRow;
use crate::paths::{join_paths, joined, parent, parent_of};
use crate::text::{blank, is_blank, same_text, signed_decimal, signed_decimal_text};
use vstd::prelude::*;
use vstd::string::*;

verus! {

/// A transfer under way, as a sender knows it.
#[derive(Debug, Clone, Copy)]
pub struct ActiveRow {
    pub id: i64,
    pub peer: NodeId,
}

/// A sender that runs: whom it sends to, and the transfers under way as it
/// knows them, or why it cannot tell. All senders share one catalog, so each
/// knows the transfers of all.
#[derive(Debug)]
pub struct RunningSender {
    pub peer: NodeId,
    pub rows: Result<Vec<ActiveRow>, String>,
}

/// The first transfer at or behind `i` with the given id.
pub open spec fn active_place(rows: Seq<ActiveRow>, id: i64, i: int) -> int
    decreases rows.len() - i,
{
    if i >= rows.len() {
        rows.len() as int
    } else if rows[i].id == id {
        i
    } else {
        active_place(rows, id, i + 1)
    }
}

/// Whether a sender runs for a device.
pub open spec fn runs_for(senders: Seq<RunningSender>, peer: NodeId) -> bool {
    exists|k: int| 0 <= k < senders.len() && (#[trigger] senders[k]).peer@ == peer@
}

/// What is answered from the `i`th sender on.
pub open spec fn sender_verdict(senders: Seq<RunningSender>, id: i64, i: int) -> Result<
    NodeId,
    Refusal,
>
    decreases senders.len() - i,
{
    if i >= senders.len() {
        Err(Refusal::Invalid("package is not active"@))
    } else {
        match senders[i].rows {
            Err(why) => Err(Refusal::Internal("sender status snapshot: "@ + why@)),
            Ok(rows) => {
                let k = active_place(rows@, id, 0);
                if k >= rows@.len() {
                    sender_verdict(senders, id, i + 1)
                } else if runs_for(senders, rows@[k].peer) {
                    Ok(rows@[k].peer)
                } else {
                    Err(Refusal::Invalid("package is not active"@))
                }
            },
        }
    }
}

/// What a `Result` says.
pub open spec fn told<T>(r: Result<T, ApiError>) -> Result<T, Refusal> {
    match r {
        Ok(v) => Ok(v),
        Err(e) => Err(e@),
    }
}

fn sender_runs(senders: &Vec<RunningSender>, peer: &NodeId) -> (r: bool)
    ensures
        r == runs_for(senders@, *peer),
{
    let mut k: usize = 0;
    while k < senders.len()
        invariant
            k <= senders@.len(),
            forall|j: int| 0 <= j < k ==> (#[trigger] senders@[j]).peer@ != peer@,
        decreases senders@.len() - k,
    {
        if same_node(&senders[k].peer, peer) {
            assert(senders@[k as int].peer@ == peer@);
            return true;
        }
        k = k + 1;
    }
    false
}

/// The device whose sender holds a transfer under way. A transfer that has
/// come to its end, or that nobody knows, is not active.
pub fn active_engine_for_row(senders: &Vec<RunningSender>, id: i64) -> (r: Result<NodeId, ApiError>)
    ensures
        told(r) == sender_verdict(senders@, id, 0),
{
    let mut i: usize = 0;
    while i < senders.len()
        invariant
            i <= senders@.len(),
            sender_verdict(senders@, id, 0) == sender_verdict(senders@, id, i as int),
        decreases senders@.len() - i,
    {
        match &senders[i].rows {
            Err(why) => {
                let mut m: String = "sender status snapshot: ".to_owned();
                m.append(why.as_str());
                return Err(ApiError::Internal(m));
            },
            Ok(rows) => {
                let mut k: usize = 0;
                while k < rows.len() && rows[k].id != id
                    invariant
                        k <= rows@.len(),
                        active_place(rows@, id, 0) == active_place(rows@, id, k as int),
                    decreases rows@.len() - k,
                {
                    k = k + 1;
                }
                if k < rows.len() {
                    if sender_runs(senders, &rows[k].peer) {
                        return Ok(rows[k].peer);
                    }
                    return Err(ApiError::Invalid("package is not active".to_owned()));
                }
            },
        }
        i = i + 1;
    }
    Err(ApiError::Invalid("package is not active".to_owned()))
}

/// The device whose sender is told to try a transfer again at once; only one
/// under way can be.
pub fn send_now_sync_package(senders: &Vec<RunningSender>, id: i64) -> (r: Result<NodeId, ApiError>)
    ensures
        told(r) == sender_verdict(senders@, id, 0),
{
    active_engine_for_row(senders, id)
}

/// The device whose sender is told to give a transfer up; only one under way
/// can be.
pub fn cancel_sync_package(senders: &Vec<RunningSender>, id: i64) -> (r: Result<NodeId, ApiError>)
    ensures
        told(r) == sender_verdict(senders@, id, 0),
{
    active_engine_for_row(senders, id)
}

/// What a sender is told to do with a transfer.
#[derive(Debug, Clone, Copy, PartialEq, Eq, Structural)]
pub enum SenderCommand {
    SendNow,
    Cancel,
    Resend,
}

/// What is answered to the user once the sender has answered.
pub open spec fn command_answer(
    command: SenderCommand,
    id: i64,
    answer: Result<(), String>,
) -> Result<(), Refusal> {
    match answer {
        Ok(()) => Ok(()),
        Err(why) => Err(
            Refusal::Internal(
                (match command {
                    SenderCommand::SendNow => "send-now package "@,
                    SenderCommand::Cancel => "cancel package "@,
                    SenderCommand::Resend => "re-drive resend "@,
                }) + signed_decimal(id as int) + ": "@ + why@,
            ),
        ),
    }
}

/// What is answered to the user once the sender has answered.
pub fn answer_command(command: SenderCommand, id: i64, answer: Result<(), String>) -> (r: Result<
    (),
    ApiError,
>)
    ensures
        told(r) == command_answer(command, id, answer),
{
    match answer {
        Ok(()) => Ok(()),
        Err(why) => {
            let mut m: String = match command {
                SenderCommand::SendNow => "send-now package ".to_owned(),
                SenderCommand::Cancel => "cancel package ".to_owned(),
                SenderCommand::Resend => "re-drive resend ".to_owned(),
            };
            m.append(signed_decimal_text(id).as_str());
            m.append(": ");
            m.append(why.as_str());
            Err(ApiError::Internal(m))
        },
    }
}

/// How a transfer is sent again.
#[derive(Debug, Clone, Copy, PartialEq, Eq, Structural)]
pub enum Resend {
    /// Its own record starts over.
    SameTransfer,
    /// The receiver has declined it for good, so it goes as another transfer.
    NewTransfer,
}

/// How a transfer is sent again, or why it is not: only one that failed or was
/// cancelled is, and only while its files are on disk.
pub open spec fn resend_verdict(
    id: i64,
    row: Option<OutboundRow>,
    has_payload: bool,
    declined: Seq<char>,
) -> Result<Resend, Refusal> {
    let n = signed_decimal(id as int);
    match row {
        None => Err(Refusal::Invalid("unknown package id "@ + n)),
        Some(row) => if row.state != OutboundState::Failed && row.state
            != OutboundState::Cancelled {
            Err(
                Refusal::Invalid(
                    "package "@ + n + " is "@ + row.state.word()
                        + " — only failed or cancelled packages can be resent"@,
                ),
            )
        } else if !has_payload {
            Err(
                Refusal::Invalid(
                    "package "@ + n + " data is missing on disk; cannot resend"@,
                ),
            )
        } else if row.state == OutboundState::Cancelled && opt_text(row.last_error) == Some(
            declined,
        ) {
            Ok(Resend::NewTransfer)
        } else {
            Ok(Resend::SameTransfer)
        },
    }
}

/// How a transfer is sent again. `declined` is what stands as the last error
/// of a transfer that the receiver has declined.
pub fn resend_transfer(
    id: i64,
    row: &Option<OutboundRow>,
    has_payload: bool,
    declined: &str,
) -> (r: Result<Resend, ApiError>)
    ensures
        told(r) == resend_verdict(id, *row, has_payload, declined@),
{
    let n = signed_decimal_text(id);
    match row {
        None => {
            let mut m: String = "unknown package id ".to_owned();
            m.append(n.as_str());
            Err(ApiError::Invalid(m))
        },
        Some(row) => {
            let ended = match row.state {
                OutboundState::Failed | OutboundState::Cancelled => true,
                _ => false,
            };
            let mut m: String = "package ".to_owned();
            m.append(n.as_str());
            if !ended {
                m.append(" is ");
                m.append(row.state.as_str());
                m.append(" — only failed or cancelled packages can be resent");
                return Err(ApiError::Invalid(m));
            }
            if !has_payload {
                m.append(" data is missing on disk; cannot resend");
                return Err(ApiError::Invalid(m));
            }
            let refused = match &row.last_error {
                Some(e) => same_text(e.as_str(), declined),
                None => false,
            };
            if row.state == OutboundState::Cancelled && refused {
                Ok(Resend::NewTransfer)
            } else {
                Ok(Resend::SameTransfer)
            }
        },
    }
}

/// How a transfer is sent again, by its older name.
pub fn retry_sync_package(
    id: i64,
    row: &Option<OutboundRow>,
    has_payload: bool,
    declined: &str,
) -> (r: Result<Resend, ApiError>)
    ensures
        told(r) == resend_verdict(id, *row, has_payload, declined@),
{
    resend_transfer(id, row, has_payload, declined)
}

/// Whether `g` is the file `f` as it stands before anything of it was sent.
pub open spec fn is_reset_file(g: TransferFileRow, f: TransferFileRow) -> bool {
    &&& g.rel_path@ == f.rel_path@
    &&& g.byte_size == f.byte_size
    &&& g.frame_uuid@ == f.frame_uuid@
    &&& g.state@ == "pending"@
    &&& g.bytes_done == 0
    &&& g.outcome is None
    &&& g.error is None
}

/// Whether `after` is the record of a transfer that starts over under a new id
/// on the wire: it waits to be sent, one more attempt is counted, and nothing is
/// left of how the last one ended. All else stays as it was.
pub open spec fn is_reset_row(after: OutboundRow, row: OutboundRow, wire_id: Seq<char>) -> bool {
    &&& after == (OutboundRow {
        state: OutboundState::Queued,
        attempts: after.attempts,
        next_retry_at: None,
        last_error: None,
        confirmed_at: None,
        wire_package_id: after.wire_package_id,
        ..row
    })
    &&& after.attempts == row.attempts + 1
    &&& opt_text(after.wire_package_id) == Some(wire_id)
}

/// Whether the files are those of before, in their order, with nothing sent.
pub open spec fn are_reset_files(after: Seq<TransferFileRow>, files: Seq<TransferFileRow>) -> bool {
    &&& after.len() == files.len()
    &&& forall|i: int| 0 <= i < after.len() ==> is_reset_file(#[trigger] after[i], files[i])
}

/// The record of a transfer and of its files, as they are written when it
/// starts over.
pub fn reset_row(row: OutboundRow, files: Vec<TransferFileRow>, wire_id: &str) -> (r: (
    OutboundRow,
    Vec<TransferFileRow>,
))
    requires
        row.attempts < u32::MAX,
    ensures
        is_reset_row(r.0, row, wire_id@),
        are_reset_files(r.1@, files@),
{
    let mut out: Vec<TransferFileRow> = Vec::new();
    let mut i: usize = 0;
    while i < files.len()
        invariant
            i <= files@.len(),
            out@.len() == i,
            forall|k: int| 0 <= k < i ==> is_reset_file(#[trigger] out@[k], files@[k]),
        decreases files@.len() - i,
    {
        let file = &files[i];
        out.push(
            TransferFileRow {
                rel_path: file.rel_path.clone(),
                byte_size: file.byte_size,
                frame_uuid: file.frame_uuid.clone(),
                state: "pending".to_owned(),
                bytes_done: 0,
                outcome: None,
                error: None,
            },
        );
        i = i + 1;
    }
    let attempts: u32 = row.attempts + 1;
    let after = OutboundRow {
        state: OutboundState::Queued,
        attempts,
        next_retry_at: None,
        last_error: None,
        confirmed_at: None,
        wire_package_id: Some(wire_id.to_owned()),
        ..row
    };
    (after, out)
}

/// A transfer that is sent again on its own record keeps its id, its name, its
/// device and its files, is under way again, and goes by another id on the wire
/// than before, so that no receipt of an earlier attempt can be taken for one of
/// the new attempt.
pub proof fn law_a_resent_transfer_is_the_same_transfer(
    id: i64,
    row: OutboundRow,
    declined: Seq<char>,
    wire_id: Seq<char>,
    after: OutboundRow,
)
    requires
        resend_verdict(id, Some(row), true, declined) == Ok::<Resend, Refusal>(
            Resend::SameTransfer,
        ),
        is_reset_row(after, row, wire_id),
        opt_text(row.wire_package_id) != Some(wire_id),
    ensures
        row.state.terminal(),
        !after.state.terminal(),
        after.id == row.id,
        after.display_name == row.display_name,
        after.package_ref == row.package_ref,
        after.peer == row.peer,
        after.attempts > row.attempts,
        opt_text(after.wire_package_id) != opt_text(row.wire_package_id),
        resend_verdict(id, Some(after), true, declined) is Err,
{
}

/// The directory of a package with the transfer it belongs to.
#[derive(Debug)]
pub struct PackageRef {
    pub id: i64,
    pub package_ref: String,
}

/// A declined transfer as it goes out as another one.
#[derive(Debug)]
pub struct DeclinedResend {
    pub old_id: i64,
    pub old_ref: String,
    /// The directory that the package is moved to; its name is the identity of
    /// the new transfer.
    pub new_ref: String,
    pub files: Vec<AnnounceFileEntry>,
    pub display_name: Option<String>,
    pub layout: PackageLayout,
}

/// Whether another transfer has the same directory.
pub open spec fn shared_by_another(refs: Seq<PackageRef>, id: i64, dir: Seq<char>) -> bool {
    exists|k: int|
        0 <= k < refs.len() && (#[trigger] refs[k]).id != id && refs[k].package_ref@ == dir
}

/// Whether the files are announced as they are on record.
pub open spec fn announces_rows(v: Seq<AnnounceFileEntry>, rows: Seq<TransferFileRow>) -> bool {
    v.len() == rows.len() && forall|k: int|
        0 <= k < v.len() ==> (#[trigger] v[k]).rel_path == rows[k].rel_path && v[k].byte_size
            == rows[k].byte_size && v[k].frame_uuid == rows[k].frame_uuid
}

/// Whether `r` says how a declined transfer goes out as another one: with the
/// same files, name and layout, from a directory with a new name next to the
/// old one. A directory that is shared is not moved.
pub open spec fn plans_declined_resend(
    row: OutboundRow,
    refs: Seq<PackageRef>,
    files: Seq<TransferFileRow>,
    fresh: Seq<char>,
    r: Result<DeclinedResend, ApiError>,
) -> bool {
    let n = signed_decimal(row.id as int);
    match parent(row.package_ref@) {
        None => r matches Err(e) && e@ == Refusal::Internal(
            "package "@ + n + " dir has no parent: "@ + row.package_ref@,
        ),
        Some(dir) => if shared_by_another(refs, row.id, row.package_ref@) {
            r matches Err(e) && e@ == Refusal::Invalid(
                "package "@ + n
                    + " shares its payload directory with another transfer; cannot resend as a new transfer"@,
            )
        } else {
            &&& r matches Ok(p)
            &&& p.old_id == row.id
            &&& p.old_ref == row.package_ref
            &&& p.new_ref@ == joined(dir, fresh)
            &&& announces_rows(p.files@, files)
            &&& opt_text(p.display_name) == match row.display_name {
                Some(d) if !is_blank(d@) => Some(d@),
                _ => None,
            }
            &&& p.layout == row.layout
        },
    }
}

fn announce_rows(rows: &Vec<TransferFileRow>) -> (r: Vec<AnnounceFileEntry>)
    ensures
        announces_rows(r@, rows@),
{
    let mut out: Vec<AnnounceFileEntry> = Vec::new();
    let mut i: usize = 0;
    while i < rows.len()
        invariant
            i <= rows@.len(),
            out@.len() == i,
            forall|k: int|
                0 <= k < i ==> (#[trigger] out@[k]).rel_path == rows@[k].rel_path
                    && out@[k].byte_size == rows@[k].byte_size && out@[k].frame_uuid
                    == rows@[k].frame_uuid,
        decreases rows@.len() - i,
    {
        out.push(
            AnnounceFileEntry {
                rel_path: rows[i].rel_path.clone(),
                byte_size: rows[i].byte_size,
                frame_uuid: rows[i].frame_uuid.clone(),
            },
        );
        i = i + 1;
    }
    out
}

/// How a declined transfer goes out as another one. `fresh` is a name that
/// nothing has yet.
pub fn resend_declined_as_new_transfer(
    row: &OutboundRow,
    refs: &Vec<PackageRef>,
    files: &Vec<TransferFileRow>,
    fresh: &str,
) -> (r: Result<DeclinedResend, ApiError>)
    ensures
        plans_declined_resend(*row, refs@, files@, fresh@, r),
{
    let mut m: String = "package ".to_owned();
    m.append(signed_decimal_text(row.id).as_str());
    let dir = match parent_of(row.package_ref.as_str()) {
        Some(d) => d,
        None => {
            m.append(" dir has no parent: ");
            m.append(row.package_ref.as_str());
            return Err(ApiError::Internal(m));
        },
    };
    let mut k: usize = 0;
    while k < refs.len()
        invariant
            k <= refs@.len(),
            m@ == "package "@ + signed_decimal(row.id as int),
            parent(row.package_ref@) == Some(dir@),
            forall|j: int|
                0 <= j < k ==> !((#[trigger] refs@[j]).id != row.id && refs@[j].package_ref@
                    == row.package_ref@),
        decreases refs@.len() - k,
    {
        if refs[k].id != row.id && same_text(
            refs[k].package_ref.as_str(),
            row.package_ref.as_str(),
        ) {
            assert(shared_by_another(refs@, row.id, row.package_ref@));
            m.append(
                " shares its payload directory with another transfer; cannot resend as a new transfer",
            );
            return Err(ApiError::Invalid(m));
        }
        k = k + 1;
    }
    let display_name = match &row.display_name {
        Some(d) => {
            if blank(d.as_str()) {
                None
            } else {
                Some(d.clone())
            }
        },
        None => None,
    };
    Ok(
        DeclinedResend {
            old_id: row.id,
            old_ref: row.package_ref.clone(),
            new_ref: join_paths(dir.as_str(), fresh),
            files: announce_rows(files),
            display_name,
            layout: row.layout,
        },
    )
}

/// Where the sending of a declined transfer as another one stands.
#[derive(Debug)]
pub enum ResendPhase {
    /// The sender is looked for; nothing has been touched.
    Resolving,
    Renaming,
    Rekeying,
    Enqueuing,
    /// The new transfer was not taken; the directory gets its old name back.
    RenamingBack(String),
    RekeyingBack(String),
    /// The new transfer is under way, with this id.
    Journaling(i64),
    Ended,
}

/// What has happened outside.
#[derive(Debug)]
pub enum ResendEvent {
    SenderReady,
    SenderFailed(ApiError),
    Renamed,
    /// The directory could not be renamed: because it is not there, or for
    /// another reason.
    RenameFailed { not_found: bool, why: String },
    /// The links to the sources were moved, or could not be.
    Rekeyed,
    CatalogGone(ApiError),
    Enqueued(i64),
    EnqueueFailed(String),
    RenamedBack(bool),
    RekeyedBack,
    Journaled,
}

/// What is to be done next.
#[derive(Debug)]
pub enum ResendAction {
    Rename,
    Rekey,
    Enqueue,
    RenameBack,
    RekeyBack,
    /// Both transfers are told of each other.
    Journal { of_old: String, of_new: String },
    Finish(Result<i64, ApiError>),
}

/// Whether an event can happen in a phase.
pub open spec fn can_happen(phase: ResendPhase, event: ResendEvent) -> bool {
    match phase {
        ResendPhase::Resolving => event is SenderReady || event is SenderFailed,
        ResendPhase::Renaming => event is Renamed || event is RenameFailed,
        ResendPhase::Rekeying => event is Rekeyed || event is CatalogGone,
        ResendPhase::Enqueuing => event is Enqueued || event is EnqueueFailed,
        ResendPhase::RenamingBack(_) => event is RenamedBack,
        ResendPhase::RekeyingBack(_) => event is RekeyedBack,
        ResendPhase::Journaling(_) => event is Journaled,
        ResendPhase::Ended => false,
    }
}

/// What the renaming of a directory fails with.
pub open spec fn rename_refusal(p: DeclinedResend, not_found: bool, why: Seq<char>) -> Refusal {
    if not_found {
        Refusal::Invalid(
            "package "@ + signed_decimal(p.old_id as int)
                + " data is missing on disk; cannot resend (already resent as a new transfer?)"@,
        )
    } else {
        Refusal::Internal(
            "rename declined package dir for resend ("@ + p.old_ref@ + " → "@ + p.new_ref@ + "): "@
                + why,
        )
    }
}

/// Whether a step of the sending leads from a phase over an event to the next
/// phase and action.
pub open spec fn is_resend_step(
    p: DeclinedResend,
    from: ResendPhase,
    event: ResendEvent,
    to: ResendPhase,
    action: ResendAction,
) -> bool {
    match event {
        ResendEvent::SenderReady => to is Renaming && action is Rename,
        ResendEvent::SenderFailed(e) => to is Ended && action == ResendAction::Finish(Err(e)),
        ResendEvent::Renamed => to is Rekeying && action is Rekey,
        ResendEvent::RenameFailed { not_found, why } => {
            &&& to is Ended
            &&& action matches ResendAction::Finish(Err(e))
            &&& e@ == rename_refusal(p, not_found, why@)
        },
        ResendEvent::Rekeyed => to is Enqueuing && action is Enqueue,
        ResendEvent::CatalogGone(e) => to is Ended && action == ResendAction::Finish(Err(e)),
        ResendEvent::Enqueued(id) => {
            &&& to == ResendPhase::Journaling(id)
            &&& action matches ResendAction::Journal { of_old, of_new }
            &&& of_old@ == "as_new_transfer="@ + signed_decimal(id as int)
            &&& of_new@ == "of_declined="@ + signed_decimal(p.old_id as int)
        },
        ResendEvent::EnqueueFailed(why) => {
            &&& to matches ResendPhase::RenamingBack(w)
            &&& w@ == why@
            &&& action is RenameBack
        },
        ResendEvent::RenamedBack(true) => {
            &&& to == ResendPhase::RekeyingBack(from->RenamingBack_0)
            &&& action is RekeyBack
        },
        ResendEvent::RenamedBack(false) => {
            &&& to is Ended
            &&& action matches ResendAction::Finish(Err(e))
            &&& e@ == Refusal::Internal("enqueue resent transfer: "@ + from->RenamingBack_0@)
        },
        ResendEvent::RekeyedBack => {
            &&& to is Ended
            &&& action matches ResendAction::Finish(Err(e))
            &&& e@ == Refusal::Internal("enqueue resent transfer: "@ + from->RekeyingBack_0@)
        },
        ResendEvent::Journaled => {
            &&& to is Ended
            &&& action == ResendAction::Finish(Ok(from->Journaling_0))
        },
    }
}

fn not_taken(why: &str) -> (r: ResendAction)
    ensures
        r matches ResendAction::Finish(Err(e)) && e@ == Refusal::Internal(
            "enqueue resent transfer: "@ + why@,
        ),
{
    let mut m: String = "enqueue resent transfer: ".to_owned();
    m.append(why);
    ResendAction::Finish(Err(ApiError::Internal(m)))
}

/// A step of the sending of a declined transfer as another one. The sender is
/// found before anything is touched, and a transfer that is not taken gets its
/// directory back.
pub fn resend_step(p: &DeclinedResend, phase: ResendPhase, event: ResendEvent) -> (r: (
    ResendPhase,
    ResendAction,
))
    requires
        can_happen(phase, event),
    ensures
        is_resend_step(*p, phase, event, r.0, r.1),
{
    match event {
        ResendEvent::SenderReady => (ResendPhase::Renaming, ResendAction::Rename),
        ResendEvent::SenderFailed(e) => (ResendPhase::Ended, ResendAction::Finish(Err(e))),
        ResendEvent::Renamed => (ResendPhase::Rekeying, ResendAction::Rekey),
        ResendEvent::RenameFailed { not_found, why } => {
            let error = if not_found {
                let mut m: String = "package ".to_owned();
                m.append(signed_decimal_text(p.old_id).as_str());
                m.append(
                    " data is missing on disk; cannot resend (already resent as a new transfer?)",
                );
                ApiError::Invalid(m)
            } else {
                let mut m: String = "rename declined package dir for resend (".to_owned();
                m.append(p.old_ref.as_str());
                m.append(" → ");
                m.append(p.new_ref.as_str());
                m.append("): ");
                m.append(why.as_str());
                ApiError::Internal(m)
            };
            (ResendPhase::Ended, ResendAction::Finish(Err(error)))
        },
        ResendEvent::Rekeyed => (ResendPhase::Enqueuing, ResendAction::Enqueue),
        ResendEvent::CatalogGone(e) => (ResendPhase::Ended, ResendAction::Finish(Err(e))),
        ResendEvent::Enqueued(id) => {
            let mut of_old: String = "as_new_transfer=".to_owned();
            of_old.append(signed_decimal_text(id).as_str());
            let mut of_new: String = "of_declined=".to_owned();
            of_new.append(signed_decimal_text(p.old_id).as_str());
            (ResendPhase::Journaling(id), ResendAction::Journal { of_old, of_new })
        },
        ResendEvent::EnqueueFailed(why) => (
            ResendPhase::RenamingBack(why),
            ResendAction::RenameBack,
        ),
        ResendEvent::RenamedBack(done) => match phase {
            ResendPhase::RenamingBack(why) => {
                if done {
                    (ResendPhase::RekeyingBack(why), ResendAction::RekeyBack)
                } else {
                    (ResendPhase::Ended, not_taken(why.as_str()))
                }
            },
            _ => (ResendPhase::Ended, not_taken("")),
        },
        ResendEvent::RekeyedBack => match phase {
            ResendPhase::RekeyingBack(why) => (ResendPhase::Ended, not_taken(why.as_str())),
            _ => (ResendPhase::Ended, not_taken("")),
        },
        ResendEvent::Journaled => match phase {
            ResendPhase::Journaling(id) => (ResendPhase::Ended, ResendAction::Finish(Ok(id))),
            _ => (ResendPhase::Ended, not_taken("")),
        },
    }
}

/// Whether the directory of the package has its new name in a phase, as far as
/// the steps have got.
pub open spec fn dir_is_moved(phase: ResendPhase) -> bool {
    phase is Rekeying || phase is Enqueuing || phase is RenamingBack || phase is Journaling
}

/// A directory is moved only by the renaming itself, and a transfer that was
/// not taken ends only after the renaming back was tried: no other step that
/// ends with an error leaves the directory moved, save where the catalog is
/// gone.
pub proof fn law_failed_resend_gives_the_directory_back(
    p: DeclinedResend,
    from: ResendPhase,
    event: ResendEvent,
    to: ResendPhase,
    action: ResendAction,
)
    requires
        can_happen(from, event),
        is_resend_step(p, from, event, to, action),
    ensures
        dir_is_moved(to) && !dir_is_moved(from) ==> event is Renamed,
        action matches ResendAction::Finish(Err(_)) ==> {
            ||| !dir_is_moved(from)
            ||| event == ResendEvent::RenamedBack(false)
            ||| event is CatalogGone
        },
        action is Rename ==> event is SenderReady,
        event is EnqueueFailed ==> action is RenameBack,
{
}

/// What is done to stop a transfer that is received.
#[derive(Debug, Clone, Copy, PartialEq, Eq, Structural)]
pub struct CancelIncoming {
    /// It is put on record that the user has declined the transfer.
    pub stamp_declined: bool,
    /// A receiver that runs is told.
    pub signal: bool,
    /// The record is closed at once.
    pub stamp_cancelled: bool,
}

/// Whether a transfer in that state can be declined: not while its frames are
/// coming in, and not once they are.
pub open spec fn can_be_declined(state: InboundState) -> bool {
    state != InboundState::Ingesting && state != InboundState::Done
}

/// What is done to stop a transfer that is received; `live` says whether a
/// receiver runs.
pub open spec fn cancel_verdict(row: Option<InboundRow>, live: bool) -> Result<
    CancelIncoming,
    Refusal,
> {
    match row {
        None => Ok(
            CancelIncoming { stamp_declined: false, signal: live, stamp_cancelled: false },
        ),
        Some(row) => if row.state == InboundState::Ingesting {
            Err(Refusal::Invalid("too late: ingest in progress"@))
        } else {
            Ok(
                CancelIncoming {
                    stamp_declined: can_be_declined(row.state),
                    signal: live && !row.state.terminal(),
                    stamp_cancelled: match row.state {
                        InboundState::Announced => true,
                        InboundState::Waiting => true,
                        InboundState::Fetching => !live,
                        _ => false,
                    },
                },
            )
        },
    }
}

/// What is done to stop a transfer that is received. Frames that are coming in
/// are not stopped; a transfer that has come to its end is left as it is, but
/// it is put on record that the user has declined it. A fetch under way is
/// stopped by the receiver itself.
pub fn cancel_incoming_package(row: &Option<InboundRow>, live: bool) -> (r: Result<
    CancelIncoming,
    ApiError,
>)
    ensures
        told(r) == cancel_verdict(*row, live),
{
    match row {
        None => Ok(
            CancelIncoming { stamp_declined: false, signal: live, stamp_cancelled: false },
        ),
        Some(row) => {
            let stamp_cancelled = match row.state {
                InboundState::Ingesting => {
                    return Err(ApiError::Invalid("too late: ingest in progress".to_owned()));
                },
                InboundState::Announced | InboundState::Waiting => true,
                InboundState::Fetching => !live,
                _ => false,
            };
            Ok(
                CancelIncoming {
                    stamp_declined: row.state != InboundState::Done,
                    signal: live && !row.state.is_terminal(),
                    stamp_cancelled,
                },
            )
        },
    }
}

/// Puts on record that the user has declined a transfer: the first time
/// counts, and frames that are coming in or are in are never declined.
pub fn stamp_declined(row: &mut InboundRow, now: &str)
    ensures
        opt_text(final(row).declined_at) == if can_be_declined(old(row).state) && old(
            row,
        ).declined_at is None {
            Some(now@)
        } else {
            opt_text(old(row).declined_at)
        },
        *final(row) == (InboundRow { declined_at: final(row).declined_at, ..*old(row) }),
{
    let open = match row.state {
        InboundState::Ingesting | InboundState::Done => false,
        _ => true,
    };
    if open && row.declined_at.is_none() {
        row.declined_at = Some(now.to_owned());
    }
}

/// Closes a transfer that is received because the user has stopped it.
pub fn stamp_cancelled(row: &mut InboundRow, now: &str)
    ensures
        opt_text(final(row).finished_at) == Some(now@),
        *final(row) == (InboundRow {
            state: InboundState::Cancelled,
            finished_at: final(row).finished_at,
            ..*old(row)
        }),
{
    row.state = InboundState::Cancelled;
    row.finished_at = Some(now.to_owned());
}

/// A transfer that nothing else would ever close is closed when the user
/// declines it: whatever is on record and not coming in is declined, told to a
/// receiver that runs, or both; and with no receiver running, nothing but a
/// transfer that had come to its end stays open.
pub proof fn law_a_declined_transfer_is_closed(row: InboundRow, live: bool)
    requires
        row.state != InboundState::Ingesting,
    ensures
        cancel_verdict(Some(row), live) matches Ok(c) && {
            &&& c.stamp_declined == (row.state != InboundState::Done)
            &&& row.state.terminal() ==> !c.signal && !c.stamp_cancelled
            &&& !row.state.terminal() ==> c.stamp_cancelled || (live && c.signal)
        },
{
}

} // verus!
