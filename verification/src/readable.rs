use crate::engine::StorageEngine;
use crate::error::DatabaseError;
use crate::error::Failure;
use crate::snapshot::fault_of;
use crate::snapshot::restored;
use crate::snapshot::snapshot_of;
use crate::snapshot::snapshot_view;
use crate::snapshot::sound;
use crate::snapshot::Snapshot;
use crate::snapshot::StoredTable;
use vstd::prelude::*;

verus! {

/// `serde_json::Error`: why a text could not be written or read as JSON.
#[verifier::external_type_specification]
#[verifier::external_body]
pub struct ExJsonError(serde_json::Error);

/// The text that `serde_json::to_string_pretty` gives for a snapshot, or
/// `None` where it fails.
pub uninterp spec fn json_encoding(snapshot: Seq<StoredTable>) -> Option<Seq<char>>;

/// The snapshot that `serde_json::from_str` reads from `text`, or `None`
/// where it fails.
pub uninterp spec fn json_decoding(text: Seq<char>) -> Option<Seq<StoredTable>>;

/// Calls `serde_json::to_string_pretty` on a snapshot. What comes back
/// depends on the snapshot alone: the contract gives it the name
/// `json_encoding` and claims nothing else, neither that the call succeeds
/// nor what the text is.
#[verifier::external_body]
fn encode(snapshot: &Snapshot) -> (result: Result<String, serde_json::Error>)
    ensures
        match result {
            Ok(text) => json_encoding(snapshot_view(snapshot@)) == Some(text@),
            Err(_) => json_encoding(snapshot_view(snapshot@)) is None,
        },
{
    serde_json::to_string_pretty(snapshot)
}

/// Calls `serde_json::from_str` for a snapshot. What comes back depends on
/// the text alone: the contract gives it the name `json_decoding` and
/// claims nothing else.
#[verifier::external_body]
fn decode(text: &str) -> (result: Result<Snapshot, serde_json::Error>)
    ensures
        match result {
            Ok(snapshot) => json_decoding(text@) == Some(snapshot_view(snapshot@)),
            Err(_) => json_decoding(text@) is None,
        },
{
    serde_json::from_str(text)
}

/// The text of a `serde_json::Error`, by its `Display`. Nothing is claimed
/// of it.
#[verifier::external_body]
fn reason(e: &serde_json::Error) -> (text: String) {
    e.to_string()
}

impl StorageEngine {
    /// The whole state in the readable form: its snapshot as indented JSON.
    pub fn serialize(&self) -> (result: Result<String, DatabaseError>)
        ensures
            match result {
                Ok(text) => json_encoding(snapshot_of(self@)) == Some(text@),
                Err(e) => json_encoding(snapshot_of(self@)) is None && e@ is IOFailure,
            },
    {
        let snapshot = self.to_snapshot();
        match encode(&snapshot) {
            Ok(text) => Ok(text),
            Err(e) => Err(DatabaseError::IOFailure(reason(&e))),
        }
    }

    /// The engine that `json` holds in the readable form. A text that is no
    /// JSON of a snapshot, and a snapshot that is not sound, are corrupt
    /// data.
    pub fn deserialize(json: &str) -> (result: Result<StorageEngine, DatabaseError>)
        ensures
            match result {
                Ok(engine) => match json_decoding(json@) {
                    Some(snapshot) => sound(snapshot) && engine.wf() && engine@ == restored(
                        snapshot,
                    ),
                    None => false,
                },
                Err(e) => match json_decoding(json@) {
                    Some(snapshot) => !sound(snapshot) && e@ == Failure::CorruptData(
                        fault_of(snapshot),
                    ),
                    None => e@ is CorruptData,
                },
            },
    {
        match decode(json) {
            Ok(snapshot) => StorageEngine::from_snapshot(&snapshot),
            Err(e) => Err(DatabaseError::CorruptData(reason(&e))),
        }
    }
}

} // verus!
