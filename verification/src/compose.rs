//! Composition of the outbound protocol messages.

use vstd::prelude::*;

use crate::record::Record;
use crate::storage::Storage;

verus! {

/// An outbound message, as structured data. The caller serializes it; the
/// two shapes correspond to the `pushRecord` and `initStorage` methods of
/// the outbound protocol.
pub enum Message {
    /// Announces one newly appended record.
    PushRecord {
        /// Exactly the record that was pushed.
        record: Record,
    },
    /// Hands a newly connected observer the store's current contents.
    InitStorage {
        /// The row-major snapshot, or `None` for the explicit empty-store
        /// marker, so "not yet sent" is distinguishable from "confirmed
        /// empty".
        data: Option<Vec<Record>>,
    },
}

/// True if `m` is the Init message owed to an observer connecting while the
/// store is `s`: the explicit empty marker if the store is empty, else its
/// current snapshot.
pub open spec fn spec_init_message(s: Storage, m: Message) -> bool {
    if s.empty {
        m == (Message::InitStorage { data: None })
    } else {
        m matches Message::InitStorage { data: Some(rows) } && s.is_snapshot(rows@)
    }
}

/// Compose the Append notification for one newly pushed record: it carries
/// exactly that record, not the full store.
pub fn compose_push_record_message(record: Record) -> (m: Message)
    ensures
        m == (Message::PushRecord { record }),
{
    Message::PushRecord { record }
}

/// Compose the Init message for the store's current state: an explicit
/// empty marker if nothing was accepted yet, else the full row-major
/// snapshot.
pub fn compose_init_message(storage: &Storage) -> (m: Message)
    requires
        storage.wf(),
    ensures
        spec_init_message(*storage, m),
{
    if storage.is_empty() {
        Message::InitStorage { data: None }
    } else {
        Message::InitStorage { data: Some(storage.snapshot()) }
    }
}

} // verus!
