//! Request and response shapes of the coordinator's transport boundary.
//!
//! The transport itself (an HTTP server) lives outside the library; these
//! types carry the four blob operations and the job-submission request as
//! plain values.

use vstd::prelude::*;

verus! {

/// Address and credential of the coordinator's HTTP endpoint.
pub struct HTTP {
    /// The host for the http server.
    pub host: String,
    /// The port for the http server.
    pub port: String,
    /// The key callers must present in the `Authorization` header.
    pub api_key: String,
}

impl HTTP {
    /// Bundles the endpoint configuration.
    pub fn new(host: String, port: String, api_key: String) -> (r: HTTP)
        ensures
            r.host@ == host@,
            r.port@ == port@,
            r.api_key@ == api_key@,
    {
        HTTP { host, port, api_key }
    }
}

/// A key to number-of-bytes mapping: one entry of an allocation batch.
#[derive(Debug, Clone)]
pub struct BlobEntry {
    pub key: String,
    pub num_bytes: u64,
}

/// Spec-level mirror of `BlobEntry`.
pub struct EntryModel {
    pub key: Seq<char>,
    pub num_bytes: u64,
}

impl View for BlobEntry {
    type V = EntryModel;

    open spec fn view(&self) -> EntryModel {
        EntryModel { key: self.key@, num_bytes: self.num_bytes }
    }
}

impl BlobEntry {
    pub fn new(key: String, num_bytes: u64) -> (r: BlobEntry)
        ensures
            r@.key == key@,
            r@.num_bytes == num_bytes,
    {
        BlobEntry { key, num_bytes }
    }
}

/// Body of `create_and_lock`: the batch of entries and the requesting node.
#[derive(Clone)]
pub struct CreateAndLockRequest {
    pub entries: Vec<BlobEntry>,
    pub node_id: String,
}

/// Body of `create_unlock`.
#[derive(Clone)]
pub struct CreateUnlockRequest {
    pub file_id: u32,
    pub node_id: String,
}

/// Body of `keep_alive_lock`.
#[derive(Clone)]
pub struct KeepAliveLockRequest {
    pub file_id: u32,
}

/// Body of `lookup`.
#[derive(Clone)]
pub struct LookupRequest {
    pub key: String,
}

/// Body of `submit`: a job for the coordinator's worker pool.
#[derive(Clone)]
pub struct SubmitJobRequest {
    pub job_type: JobType,
}

/// The kinds of job a caller can submit.
#[derive(Clone)]
pub enum JobType {
    DownloadURLs { urls: Vec<String> },
}

} // verus!
