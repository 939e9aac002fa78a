//! The two binaries' settings, and the merge that lets a config file fill
//! whatever the command line left at its default.

use vstd::prelude::*;
use crate::words::Address;

verus! {

/// The prover service settings.
pub struct MultiProver {
    pub config: String,
    pub private_key: String,
    pub l1_endpoint: String,
    pub prover_registry: Address,
    pub listen: String,
    pub attestation_pre_expire_secs: u64,
    pub worker_num: usize,
}

/// The default listen address.
pub open spec fn default_listen() -> Seq<char> {
    "127.0.0.1:20300"@
}

/// The default renewal margin in seconds.
pub open spec fn default_pre_expire() -> u64 {
    1800u64
}

impl MultiProver {
    /// Fill defaults from another settings record: a field is taken from
    /// `rhs` exactly when this record still holds its default.
    pub fn merge(&mut self, rhs: MultiProver)
        ensures
            final(self).config == old(self).config,
            final(self).private_key == if old(self).private_key@ == Seq::<char>::empty() {
                rhs.private_key
            } else {
                old(self).private_key
            },
            final(self).l1_endpoint == if old(self).l1_endpoint@ == Seq::<char>::empty() {
                rhs.l1_endpoint
            } else {
                old(self).l1_endpoint
            },
            final(self).prover_registry == if old(self).prover_registry@ == Seq::new(
                20,
                |i: int| 0u8,
            ) {
                rhs.prover_registry
            } else {
                old(self).prover_registry
            },
            final(self).listen == if old(self).listen@ == default_listen() && rhs.listen@
                != Seq::<char>::empty() {
                rhs.listen
            } else {
                old(self).listen
            },
            final(self).attestation_pre_expire_secs == if old(self).attestation_pre_expire_secs
                == default_pre_expire() && rhs.attestation_pre_expire_secs > 0 {
                rhs.attestation_pre_expire_secs
            } else {
                old(self).attestation_pre_expire_secs
            },
            final(self).worker_num == old(self).worker_num,
    {
        let empty = String::new();
        if self.private_key == empty {
            self.private_key = rhs.private_key;
        }
        if self.l1_endpoint == empty {
            self.l1_endpoint = rhs.l1_endpoint;
        }
        let zero = Address::zero();
        if self.prover_registry.eq_bytes(&zero) {
            self.prover_registry = rhs.prover_registry;
        }
        let def = "127.0.0.1:20300".to_owned();
        if self.listen == def && !(rhs.listen == empty) {
            self.listen = rhs.listen;
        }
        if self.attestation_pre_expire_secs == 1800 && rhs.attestation_pre_expire_secs > 0 {
            self.attestation_pre_expire_secs = rhs.attestation_pre_expire_secs;
        }
    }
}

/// The proof-submitter settings.
pub struct ProofSubmitter {
    pub config: String,
    pub private_key: String,
    pub l1_endpoint: String,
    pub prover_registry: Address,
    pub prover_url: String,
    pub input: String,
}

impl ProofSubmitter {
    /// Fill defaults from another settings record.
    pub fn merge(&mut self, rhs: ProofSubmitter)
        ensures
            final(self).config == old(self).config,
            final(self).private_key == if old(self).private_key@ == Seq::<char>::empty() {
                rhs.private_key
            } else {
                old(self).private_key
            },
            final(self).l1_endpoint == if old(self).l1_endpoint@ == Seq::<char>::empty() {
                rhs.l1_endpoint
            } else {
                old(self).l1_endpoint
            },
            final(self).prover_registry == if old(self).prover_registry@ == Seq::new(
                20,
                |i: int| 0u8,
            ) {
                rhs.prover_registry
            } else {
                old(self).prover_registry
            },
            final(self).prover_url == old(self).prover_url,
            final(self).input == old(self).input,
    {
        let empty = String::new();
        if self.private_key == empty {
            self.private_key = rhs.private_key;
        }
        if self.l1_endpoint == empty {
            self.l1_endpoint = rhs.l1_endpoint;
        }
        let zero = Address::zero();
        if self.prover_registry.eq_bytes(&zero) {
            self.prover_registry = rhs.prover_registry;
        }
    }
}

} // verus!
