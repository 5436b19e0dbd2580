//! The outside channels that carry messages to other threads.
//!
//! A message that a channel has accepted is on its way to another thread, so
//! nothing can be said of where it is now. What is named here is what has been
//! handed over: the messages that one handle has offered to its channel, and
//! which of them the channel accepted; and what one handle has got from its
//! channel, whenever it asked.

use crate::persistence::worker::{PersistenceTaskType, PersistenceTaskView};
use crate::quorum::messages::{MessageView, RemoteQuorumMessage};
use crate::service_utils::storage_utils::{EntryView, SerializationData};
use std::sync::Arc;
use vstd::prelude::*;

verus! {

/// The sending half of a channel of crossbeam.
#[verifier::external_type_specification]
#[verifier::external_body]
#[verifier::reject_recursive_types(T)]
pub struct ExSender<T>(crossbeam_channel::Sender<T>);

/// A bounded channel on which every reader sees every value.
#[verifier::external_type_specification]
#[verifier::external_body]
#[verifier::reject_recursive_types(T)]
pub struct ExBus<T>(bus::Bus<T>);

/// One reader of such a channel.
#[verifier::external_type_specification]
#[verifier::external_body]
#[verifier::reject_recursive_types(T)]
pub struct ExBusReader<T>(bus::BusReader<T>);

/// The state of an exponential backoff in a spin loop.
#[verifier::external_type_specification]
#[verifier::external_body]
pub struct ExBackoff(crossbeam_utils::Backoff);

/// Starts an exponential backoff.
pub assume_specification[ crossbeam_utils::Backoff::new ]() -> (backoff: crossbeam_utils::Backoff);

/// Spins for a while, or lets another thread run. Nothing comes of it but time.
pub assume_specification[ crossbeam_utils::Backoff::snooze ](backoff: &crossbeam_utils::Backoff);

/// The persistence tasks that were offered to a channel through this handle,
/// in order, each with whether the channel accepted it.
pub uninterp spec fn offered_tasks(tx: crossbeam_channel::Sender<PersistenceTaskType>) -> Seq<(PersistenceTaskView, bool)>;

/// The messages that were offered to the connection to a peer through this
/// handle, in order, each with whether the connection accepted it.
pub uninterp spec fn offered_messages(tx: crossbeam_channel::Sender<RemoteQuorumMessage>) -> Seq<(MessageView, bool)>;

/// The log entries that were offered to the bus, in order, each with whether
/// the bus accepted it.
pub uninterp spec fn offered_entries(bus: bus::Bus<Arc<SerializationData>>) -> Seq<(Arc<SerializationData>, bool)>;

/// What this reader has got whenever it asked its bus for the next log entry, in
/// order: the entry, or `None` where there was none to be taken.
pub uninterp spec fn polled_entries(reader: bus::BusReader<Arc<SerializationData>>) -> Seq<Option<EntryView>>;

/// Calls `crossbeam_channel::Sender::send` and says whether the channel took the task.
///
/// The call offers the task, once. The channel takes it unless its receiver is
/// gone, which is for another thread to decide: nothing is said of the outcome.
#[verifier::external_body]
pub(crate) fn send_persistence_task(
    tx: &mut crossbeam_channel::Sender<PersistenceTaskType>,
    task: PersistenceTaskType,
) -> (accepted: bool)
    ensures
        offered_tasks(*final(tx)) == offered_tasks(*old(tx)).push((task@, accepted)),
{
    tx.send(task).is_ok()
}

/// Calls `crossbeam_channel::Sender::send` and says whether the channel took the message.
///
/// The call offers the message, once. The channel takes it unless its receiver
/// is gone, which is for another thread to decide: nothing is said of the outcome.
#[verifier::external_body]
pub(crate) fn send_quorum_message(
    tx: &mut crossbeam_channel::Sender<RemoteQuorumMessage>,
    message: RemoteQuorumMessage,
) -> (accepted: bool)
    ensures
        offered_messages(*final(tx)) == offered_messages(*old(tx)).push((message@, accepted)),
{
    tx.send(message).is_ok()
}

/// Calls `bus::Bus::try_broadcast` and says whether the bus took the entry.
///
/// The call offers the entry, once. The bus refuses it while it is full, which
/// is for its readers to decide: nothing is said of the outcome. No reader will
/// see a refused entry.
#[verifier::external_body]
pub(crate) fn try_broadcast(
    bus: &mut bus::Bus<Arc<SerializationData>>,
    entry: Arc<SerializationData>,
) -> (accepted: bool)
    ensures
        offered_entries(*final(bus)) == offered_entries(*old(bus)).push((entry, accepted)),
{
    bus.try_broadcast(entry).is_ok()
}

/// Calls `bus::BusReader::try_recv`, which takes the next entry from the bus.
///
/// The call asks, once. `None` means that no entry is there to be taken, which is
/// for another thread to decide: nothing is said of which entry comes, or whether
/// one does.
#[verifier::external_body]
pub(crate) fn try_receive(
    reader: &mut bus::BusReader<Arc<SerializationData>>,
) -> (entry: Option<Arc<SerializationData>>)
    ensures
        polled_entries(*final(reader)) == polled_entries(*old(reader)).push(
            match entry {
                Some(entry) => Some(entry@),
                None => None,
            },
        ),
{
    reader.try_recv().ok()
}

} // verus!
