use crate::engine::StorageEngine;
use crate::error::DatabaseError;
use crate::error::Failure;
use crate::snapshot::fault_of;
use crate::snapshot::restored;
use crate::snapshot::snapshot_of;
use crate::snapshot::snapshot_view;
use crate::snapshot::sound;
use crate::snapshot::Snapshot;
use crate::snapshot::StoredTable;
use vstd::prelude::*;

verus! {

/// `bincode::ErrorKind`, which `bincode::Error` boxes: why an encoding or a
/// decoding failed.
#[verifier::external_type_specification]
#[verifier::external_body]
pub struct ExErrorKind(bincode::ErrorKind);

/// The bytes that `bincode::serialize` gives for a snapshot, or `None`
/// where it fails.
pub uninterp spec fn bincode_encoding(snapshot: Seq<StoredTable>) -> Option<Seq<u8>>;

/// The snapshot that `bincode::deserialize` reads from `data`, or `None`
/// where it fails.
pub uninterp spec fn bincode_decoding(data: Seq<u8>) -> Option<Seq<StoredTable>>;

/// Calls `bincode::serialize` on a snapshot. What comes back depends on the
/// snapshot alone: the contract gives it the name `bincode_encoding` and
/// claims nothing else, neither that the call succeeds nor what the bytes
/// are.
#[verifier::external_body]
fn encode(snapshot: &Snapshot) -> (result: Result<Vec<u8>, bincode::Error>)
    ensures
        match result {
            Ok(bytes) => bincode_encoding(snapshot_view(snapshot@)) == Some(bytes@),
            Err(_) => bincode_encoding(snapshot_view(snapshot@)) is None,
        },
{
    bincode::serialize(snapshot)
}

/// Calls `bincode::deserialize` for a snapshot. What comes back depends on
/// the bytes alone: the contract gives it the name `bincode_decoding` and
/// claims nothing else.
#[verifier::external_body]
fn decode(data: &[u8]) -> (result: Result<Snapshot, bincode::Error>)
    ensures
        match result {
            Ok(snapshot) => bincode_decoding(data@) == Some(snapshot_view(snapshot@)),
            Err(_) => bincode_decoding(data@) is None,
        },
{
    bincode::deserialize(data)
}

/// The text of a `bincode::Error`, by its `Display`. Nothing is claimed of
/// it.
#[verifier::external_body]
fn reason(e: &bincode::Error) -> (text: String) {
    e.to_string()
}

impl StorageEngine {
    /// The whole state in the compact binary form: the bincode encoding of
    /// its snapshot.
    pub fn serialize_binary(&self) -> (result: Result<Vec<u8>, DatabaseError>)
        ensures
            match result {
                Ok(bytes) => bincode_encoding(snapshot_of(self@)) == Some(bytes@),
                Err(e) => bincode_encoding(snapshot_of(self@)) is None && e@ is IOFailure,
            },
    {
        let snapshot = self.to_snapshot();
        match encode(&snapshot) {
            Ok(bytes) => Ok(bytes),
            Err(e) => Err(DatabaseError::IOFailure(reason(&e))),
        }
    }

    /// The engine that `data` holds in the compact binary form. Bytes that
    /// bincode cannot read as a snapshot, and a snapshot that is not sound,
    /// are corrupt data.
    pub fn deserialize_binary(data: &[u8]) -> (result: Result<StorageEngine, DatabaseError>)
        ensures
            match result {
                Ok(engine) => match bincode_decoding(data@) {
                    Some(snapshot) => sound(snapshot) && engine.wf() && engine@ == restored(
                        snapshot,
                    ),
                    None => false,
                },
                Err(e) => match bincode_decoding(data@) {
                    Some(snapshot) => !sound(snapshot) && e@ == Failure::CorruptData(
                        fault_of(snapshot),
                    ),
                    None => e@ is CorruptData,
                },
            },
    {
        match decode(data) {
            Ok(snapshot) => StorageEngine::from_snapshot(&snapshot),
            Err(e) => Err(DatabaseError::CorruptData(reason(&e))),
        }
    }
}

} // verus!
