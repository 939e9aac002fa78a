//! Entries of the kernel's integrity measurement log, carried alongside
//! attestation quotes.

use vstd::prelude::*;
use crate::words::B256;

verus! {

/// The digest algorithm of a measurement entry.
#[derive(Clone, Copy, Debug, PartialEq, Eq)]
pub enum HashAlgo {
    SHA256,
}

/// One measurement-log entry: the running log hash, the measured file's
/// digest and algorithm, and the file name.
pub struct IMALog {
    pub log_hash: B256,
    pub data_hash: B256,
    pub data_hash_algo: HashAlgo,
    pub name: String,
}

} // verus!
