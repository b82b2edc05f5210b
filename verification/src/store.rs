use std::collections::BTreeMap;
use vstd::prelude::*;
use worker_kv::KvError;

use crate::stamp::Stamp;

verus! {

/// Why a check or a redemption failed.
#[derive(Debug)]
pub enum LimitError {
    /// The store did not carry out a get or a put.
    Storage(KvError),
    /// Stored bytes are no record, or a record could not be rendered.
    Json(serde_json::Error),
}

/// The record that `serde_json::from_slice` reads from `bytes`, `None` where
/// it reports an error.
pub uninterp spec fn parsed_record(bytes: Seq<u8>) -> Option<Map<u64, u64>>;

/// The bytes that `serde_json::to_vec` renders `record` into, `None` where
/// it reports an error.
pub uninterp spec fn rendered_record(record: Map<u64, u64>) -> Option<Seq<u8>>;

/// Calls `serde_json::from_slice` for a map from timestamps to counts. What
/// it returns depends on `bytes` alone: the record goes by the name
/// `parsed_record`, and an error stands for `None`.
#[verifier::external_body]
fn json_from_slice(bytes: &[u8]) -> (res: Result<Stamp, serde_json::Error>)
    ensures
        match res {
            Ok(stamp) => parsed_record(bytes@) == Some(stamp@),
            Err(_) => parsed_record(bytes@) is None,
        },
{
    serde_json::from_slice::<BTreeMap<u64, u64>>(bytes)
}

/// Calls `serde_json::to_vec` on a map from timestamps to counts. What it
/// returns depends on the entries of `stamp` alone: the bytes go by the name
/// `rendered_record`, and an error stands for `None`.
#[verifier::external_body]
fn json_to_vec(stamp: &Stamp) -> (res: Result<Vec<u8>, serde_json::Error>)
    ensures
        match res {
            Ok(bytes) => rendered_record(stamp@) == Some(bytes@),
            Err(_) => rendered_record(stamp@) is None,
        },
{
    serde_json::to_vec(stamp)
}

/// Parses stored bytes into a record. Bytes that hold no record are an
/// error, never an empty record.
pub fn parse(bytes: &[u8]) -> (res: Result<Stamp, LimitError>)
    ensures
        match parsed_record(bytes@) {
            Some(record) => res matches Ok(stamp) && stamp@ == record,
            None => res matches Err(LimitError::Json(_)),
        },
{
    match json_from_slice(bytes) {
        Ok(stamp) => Ok(stamp),
        Err(error) => Err(LimitError::Json(error)),
    }
}

/// Renders a record into the bytes that are stored for it.
pub fn render(stamp: &Stamp) -> (res: Result<Vec<u8>, LimitError>)
    ensures
        match rendered_record(stamp@) {
            Some(bytes) => res matches Ok(value) && value@ == bytes,
            None => res matches Err(LimitError::Json(_)),
        },
{
    match json_to_vec(stamp) {
        Ok(value) => Ok(value),
        Err(error) => Err(LimitError::Json(error)),
    }
}

/// The record that the store's answer to a get stands for: the empty record
/// where the key is missing, the parsed bytes where it is there, and `None`
/// where the get failed or the bytes hold no record.
pub open spec fn fetched_record(answer: Result<Option<Vec<u8>>, KvError>) -> Option<Map<u64, u64>> {
    match answer {
        Ok(None) => Some(Map::empty()),
        Ok(Some(bytes)) => parsed_record(bytes@),
        Err(_) => None,
    }
}

/// Whether `error` is the failure that `answer` calls for: the store's own
/// error where the get failed, a decoding error where the bytes hold no
/// record.
pub open spec fn fetch_failure(answer: Result<Option<Vec<u8>>, KvError>, error: LimitError) -> bool {
    match answer {
        Ok(_) => error is Json,
        Err(cause) => error == LimitError::Storage(cause),
    }
}

/// Turns the store's answer to a get into the record of the identifier.
pub fn fetch(answer: Result<Option<Vec<u8>>, KvError>) -> (res: Result<Stamp, LimitError>)
    ensures
        match fetched_record(answer) {
            Some(record) => res matches Ok(stamp) && stamp@ == record,
            None => res matches Err(error) && fetch_failure(answer, error),
        },
{
    match answer {
        Ok(Some(bytes)) => parse(bytes.as_slice()),
        Ok(None) => Ok(BTreeMap::new()),
        Err(cause) => Err(LimitError::Storage(cause)),
    }
}

} // verus!
