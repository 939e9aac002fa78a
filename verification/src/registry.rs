//! The typed face of the on-chain prover registry: the report record a
//! registration submits, the `InstanceAdded` event a receipt must carry,
//! and the decoding of contract reverts into typed reasons.

use vstd::prelude::*;
use crate::words::{B256, U256, Address, u64_to_be32, slice_to_vec, slice_eq, u64_of_word};
use crate::keccak::{keccak_of, keccak256_vec};
use crate::abi::{zero_pad, addr32, addr_word, u64_word, append_padded, append_word};
use crate::rlp::append_bytes;

verus! {

/// The report record bound into a registration: the key's address, the
/// TEE type tag, the reference block, the hash of the running binary, and
/// an optional extension.
pub struct ReportData {
    pub addr: Address,
    pub tee_type: U256,
    pub reference_block_number: U256,
    pub reference_block_hash: B256,
    pub bin_hash: B256,
    pub ext: Vec<u8>,
}

/// The ABI encoding of a report record, as the standalone dynamic value
/// whose keccak the TEE binds into its quote: offset word, six head words,
/// then the extension tail.
pub open spec fn report_data_abi(rd: ReportData) -> Seq<u8> {
    u64_to_be32(32) + addr32(rd.addr@) + rd.tee_type@ + rd.reference_block_number@
        + rd.reference_block_hash@ + rd.bin_hash@ + u64_to_be32(192) + u64_to_be32(
        rd.ext@.len() as u64,
    ) + zero_pad(rd.ext@)
}

/// Encode a report record.
pub fn encode_report_data(rd: &ReportData) -> (r: Vec<u8>)
    ensures
        r@ == report_data_abi(*rd),
{
    let mut out: Vec<u8> = Vec::new();
    let w = u64_word(32);
    append_word(&mut out, &w);
    let w = addr_word(&rd.addr);
    append_word(&mut out, &w);
    append_bytes(&mut out, rd.tee_type.be.as_slice());
    append_bytes(&mut out, rd.reference_block_number.be.as_slice());
    append_word(&mut out, &rd.reference_block_hash);
    append_word(&mut out, &rd.bin_hash);
    let w = u64_word(192);
    append_word(&mut out, &w);
    let w = u64_word(rd.ext.len() as u64);
    append_word(&mut out, &w);
    append_padded(&mut out, rd.ext.as_slice());
    assert(out@ =~= report_data_abi(*rd));
    out
}

/// The digest the TEE quote must carry in its user data: keccak of the
/// encoded report record.
pub fn report_data_digest(rd: &ReportData) -> (r: B256)
    ensures
        r@ == keccak_of(report_data_abi(*rd)),
{
    let encoded = encode_report_data(rd);
    keccak256_vec(&encoded)
}

/// What a successful registration yields.
#[derive(Clone, Copy, Debug, PartialEq, Eq)]
pub struct Registration {
    pub address: Address,
    pub instance_id: U256,
    pub valid_until: u64,
}

/// One receipt log, reduced to what event decoding reads.
pub struct EventLog {
    pub topics: Vec<B256>,
    pub data: Vec<u8>,
}

/// Whether a log is a well-formed `InstanceAdded` event: the signature
/// topic, the two indexed fields, and a data payload whose second word is
/// a validity timestamp that fits a `u64`.
pub open spec fn is_instance_added(log: EventLog) -> bool {
    &&& log.topics@.len() >= 3
    &&& log.topics@[0]@ == keccak_of(instance_added_sig())
    &&& log.data@.len() >= 64
    &&& exists|v: u64| log.data@.subrange(32, 64) == u64_to_be32(v)
}

/// Scan receipt logs for the first `InstanceAdded` event and read the
/// registration out of it: the id and instance from the indexed topics,
/// the validity deadline from the data.
pub fn find_instance_added(logs: &Vec<EventLog>) -> (r: Option<Registration>)
    ensures
        match r {
            Some(reg) => exists|i: int|
                {
                    &&& 0 <= i < logs@.len()
                    &&& is_instance_added(#[trigger] logs@[i])
                    &&& forall|j: int| 0 <= j < i ==> !is_instance_added(#[trigger] logs@[j])
                    &&& reg.instance_id@ == logs@[i].topics@[1]@
                    &&& reg.address@ == logs@[i].topics@[2]@.skip(12)
                    &&& logs@[i].data@.subrange(32, 64) == u64_to_be32(reg.valid_until)
                },
            None => forall|i: int| 0 <= i < logs@.len() ==> !is_instance_added(#[trigger] logs@[i]),
        },
{
    let sig = instance_added_sig_bytes();
    let topic0 = keccak256_vec(&sig);
    let n = logs.len();
    let mut i: usize = 0;
    while i < n
        invariant
            topic0@ == keccak_of(instance_added_sig()),
            n == logs@.len(),
            i <= n,
            forall|j: int| 0 <= j < i ==> !is_instance_added(#[trigger] logs@[j]),
        decreases n - i,
    {
        let log = &logs[i];
        if log.topics.len() >= 3 && log.data.len() >= 64 && log.topics[0].eq_bytes(&topic0) {
            let word = crate::state::copy_range(log.data.as_slice(), 32, 32);
            match u64_of_word(word.as_slice()) {
                Some(valid_until) => {
                    let id = U256 { be: log.topics[1].bytes };
                    let topic2 = &log.topics[2];
                    let mut addr_bytes = [0u8; 20];
                    let mut k: usize = 0;
                    while k < 20
                        invariant
                            k <= 20,
                            forall|j: int| 0 <= j < k ==> addr_bytes@[j] == topic2@[12 + j],
                        decreases 20 - k,
                    {
                        addr_bytes[k] = topic2.bytes[12 + k];
                        k = k + 1;
                    }
                    let reg = Registration {
                        address: Address { bytes: addr_bytes },
                        instance_id: id,
                        valid_until,
                    };
                    proof {
                        assert(reg.address@ =~= logs@[i as int].topics@[2]@.skip(12));
                        assert(logs@[i as int].data@.subrange(32, 64) =~= word@);
                        assert(is_instance_added(logs@[i as int]));
                    }
                    return Some(reg);
                },
                None => {
                    proof {
                        assert(logs@[i as int].data@.subrange(32, 64) =~= word@);
                        assert(!is_instance_added(logs@[i as int])) by {
                            if is_instance_added(logs@[i as int]) {
                                let v = choose|v: u64|
                                    logs@[i as int].data@.subrange(32, 64) == u64_to_be32(v);
                                assert(word@ != u64_to_be32(v));
                            }
                        }
                    }
                },
            }
        } else {
            proof {
                assert(!is_instance_added(logs@[i as int]));
            }
        }
        i = i + 1;
    }
    None
}

/// A contract revert decoded to its typed reason; unrecognized selectors
/// stay raw.
pub enum RegistryRevert {
    /// The reference block number does not match the chain.
    BlockNumberMismatch,
    /// The attestation report did not verify.
    InvalidReport,
    /// The report was already used.
    ReportUsed,
    /// The report's address does not match the registering prover.
    ProverAddrMismatch { want: Address, got: Address },
    /// Any other revert payload.
    Unknown { data: Vec<u8> },
}

/// The 4-byte selector of an error signature.
pub open spec fn selector_of(sig: Seq<u8>) -> Seq<u8> {
    keccak_of(sig).take(4)
}

/// Whether revert data starts with the selector of a signature.
pub open spec fn has_selector(data: Seq<u8>, sig: Seq<u8>) -> bool {
    data.len() >= 4 && data.take(4) == selector_of(sig)
}

/// Match the first four bytes of revert data against a selector.
fn selector_matches(data: &[u8], sig_hash: &B256) -> (r: bool)
    requires
        data@.len() >= 4,
    ensures
        r == (data@.take(4) == sig_hash@.take(4)),
{
    let prefix = crate::state::copy_range(data, 0, 4);
    let hash_prefix = crate::state::copy_range(sig_hash.bytes.as_slice(), 0, 4);
    proof {
        assert(prefix@ =~= data@.take(4));
        assert(hash_prefix@ =~= sig_hash@.take(4));
    }
    slice_eq(prefix.as_slice(), hash_prefix.as_slice())
}

/// Decode registry revert data into a typed reason.  The recognized
/// selectors are matched in a fixed order; everything else is `Unknown`.
pub fn decode_revert(data: &[u8]) -> (r: RegistryRevert)
    ensures
        match r {
            RegistryRevert::BlockNumberMismatch => has_selector(data@, block_number_mismatch_sig()),
            RegistryRevert::InvalidReport => has_selector(data@, invalid_report_sig()),
            RegistryRevert::ReportUsed => has_selector(data@, report_used_sig()),
            RegistryRevert::ProverAddrMismatch { want, got } => {
                &&& has_selector(data@, prover_addr_mismatch_sig())
                &&& data@.len() >= 68
                &&& want@ == data@.subrange(16, 36)
                &&& got@ == data@.subrange(48, 68)
            },
            RegistryRevert::Unknown { data: d } => d@ == data@ && (data@.len() < 4 || (
            !has_selector(data@, block_number_mismatch_sig()) && !has_selector(
                data@,
                invalid_report_sig(),
            ) && !has_selector(data@, report_used_sig()) && (!has_selector(
                data@,
                prover_addr_mismatch_sig(),
            ) || data@.len() < 68))),
        },
{
    if data.len() < 4 {
        return RegistryRevert::Unknown { data: slice_to_vec(data) };
    }
    let sig = block_number_mismatch_sig_bytes();
    let h = keccak256_vec(&sig);
    if selector_matches(data, &h) {
        assert(h@.take(4) =~= selector_of(block_number_mismatch_sig()));
        return RegistryRevert::BlockNumberMismatch;
    }
    assert(h@.take(4) =~= selector_of(block_number_mismatch_sig()));
    let sig = invalid_report_sig_bytes();
    let h2 = keccak256_vec(&sig);
    if selector_matches(data, &h2) {
        assert(h2@.take(4) =~= selector_of(invalid_report_sig()));
        return RegistryRevert::InvalidReport;
    }
    assert(h2@.take(4) =~= selector_of(invalid_report_sig()));
    let sig = report_used_sig_bytes();
    let h3 = keccak256_vec(&sig);
    if selector_matches(data, &h3) {
        assert(h3@.take(4) =~= selector_of(report_used_sig()));
        return RegistryRevert::ReportUsed;
    }
    assert(h3@.take(4) =~= selector_of(report_used_sig()));
    let sig = prover_addr_mismatch_sig_bytes();
    let h4 = keccak256_vec(&sig);
    if data.len() >= 68 && selector_matches(data, &h4) {
        assert(h4@.take(4) =~= selector_of(prover_addr_mismatch_sig()));
        let want_bytes = crate::state::copy_range(data, 16, 20);
        let got_bytes = crate::state::copy_range(data, 48, 20);
        let mut want = [0u8; 20];
        let mut got = [0u8; 20];
        let mut k: usize = 0;
        while k < 20
            invariant
                k <= 20,
                want_bytes@.len() == 20,
                got_bytes@.len() == 20,
                want_bytes@ == data@.subrange(16, 36),
                got_bytes@ == data@.subrange(48, 68),
                forall|j: int| 0 <= j < k ==> want@[j] == want_bytes@[j] && got@[j]
                    == got_bytes@[j],
            decreases 20 - k,
        {
            want[k] = want_bytes[k];
            got[k] = got_bytes[k];
            k = k + 1;
        }
        let r = RegistryRevert::ProverAddrMismatch {
            want: Address { bytes: want },
            got: Address { bytes: got },
        };
        proof {
            assert(want@ =~= data@.subrange(16, 36));
            assert(got@ =~= data@.subrange(48, 68));
        }
        return r;
    }
    assert(h4@.take(4) =~= selector_of(prover_addr_mismatch_sig()));
    RegistryRevert::Unknown { data: slice_to_vec(data) }
}

/// The ASCII bytes of the `InstanceAdded(uint256,address,address,uint256)` signature.
pub open spec fn instance_added_sig() -> Seq<u8> {
    seq![0x49u8, 0x6eu8, 0x73u8, 0x74u8, 0x61u8, 0x6eu8, 0x63u8, 0x65u8, 0x41u8, 0x64u8, 0x64u8, 0x65u8, 0x64u8, 0x28u8, 0x75u8, 0x69u8, 0x6eu8, 0x74u8, 0x32u8, 0x35u8, 0x36u8, 0x2cu8, 0x61u8, 0x64u8, 0x64u8, 0x72u8, 0x65u8, 0x73u8, 0x73u8, 0x2cu8, 0x61u8, 0x64u8, 0x64u8, 0x72u8, 0x65u8, 0x73u8, 0x73u8, 0x2cu8, 0x75u8, 0x69u8, 0x6eu8, 0x74u8, 0x32u8, 0x35u8, 0x36u8, 0x29u8]
}

/// The signature as bytes.
fn instance_added_sig_bytes() -> (r: Vec<u8>)
    ensures
        r@ == instance_added_sig(),
{
    let mut r: Vec<u8> = Vec::new();
    r.push(0x49);
    r.push(0x6e);
    r.push(0x73);
    r.push(0x74);
    r.push(0x61);
    r.push(0x6e);
    r.push(0x63);
    r.push(0x65);
    r.push(0x41);
    r.push(0x64);
    r.push(0x64);
    r.push(0x65);
    r.push(0x64);
    r.push(0x28);
    r.push(0x75);
    r.push(0x69);
    r.push(0x6e);
    r.push(0x74);
    r.push(0x32);
    r.push(0x35);
    r.push(0x36);
    r.push(0x2c);
    r.push(0x61);
    r.push(0x64);
    r.push(0x64);
    r.push(0x72);
    r.push(0x65);
    r.push(0x73);
    r.push(0x73);
    r.push(0x2c);
    r.push(0x61);
    r.push(0x64);
    r.push(0x64);
    r.push(0x72);
    r.push(0x65);
    r.push(0x73);
    r.push(0x73);
    r.push(0x2c);
    r.push(0x75);
    r.push(0x69);
    r.push(0x6e);
    r.push(0x74);
    r.push(0x32);
    r.push(0x35);
    r.push(0x36);
    r.push(0x29);
    assert(r@ =~= instance_added_sig());
    r
}

/// The ASCII bytes of the `BLOCK_NUMBER_MISMATCH()` signature.
pub open spec fn block_number_mismatch_sig() -> Seq<u8> {
    seq![0x42u8, 0x4cu8, 0x4fu8, 0x43u8, 0x4bu8, 0x5fu8, 0x4eu8, 0x55u8, 0x4du8, 0x42u8, 0x45u8, 0x52u8, 0x5fu8, 0x4du8, 0x49u8, 0x53u8, 0x4du8, 0x41u8, 0x54u8, 0x43u8, 0x48u8, 0x28u8, 0x29u8]
}

/// The signature as bytes.
fn block_number_mismatch_sig_bytes() -> (r: Vec<u8>)
    ensures
        r@ == block_number_mismatch_sig(),
{
    let mut r: Vec<u8> = Vec::new();
    r.push(0x42);
    r.push(0x4c);
    r.push(0x4f);
    r.push(0x43);
    r.push(0x4b);
    r.push(0x5f);
    r.push(0x4e);
    r.push(0x55);
    r.push(0x4d);
    r.push(0x42);
    r.push(0x45);
    r.push(0x52);
    r.push(0x5f);
    r.push(0x4d);
    r.push(0x49);
    r.push(0x53);
    r.push(0x4d);
    r.push(0x41);
    r.push(0x54);
    r.push(0x43);
    r.push(0x48);
    r.push(0x28);
    r.push(0x29);
    assert(r@ =~= block_number_mismatch_sig());
    r
}

/// The ASCII bytes of the `INVALID_REPORT()` signature.
pub open spec fn invalid_report_sig() -> Seq<u8> {
    seq![0x49u8, 0x4eu8, 0x56u8, 0x41u8, 0x4cu8, 0x49u8, 0x44u8, 0x5fu8, 0x52u8, 0x45u8, 0x50u8, 0x4fu8, 0x52u8, 0x54u8, 0x28u8, 0x29u8]
}

/// The signature as bytes.
fn invalid_report_sig_bytes() -> (r: Vec<u8>)
    ensures
        r@ == invalid_report_sig(),
{
    let mut r: Vec<u8> = Vec::new();
    r.push(0x49);
    r.push(0x4e);
    r.push(0x56);
    r.push(0x41);
    r.push(0x4c);
    r.push(0x49);
    r.push(0x44);
    r.push(0x5f);
    r.push(0x52);
    r.push(0x45);
    r.push(0x50);
    r.push(0x4f);
    r.push(0x52);
    r.push(0x54);
    r.push(0x28);
    r.push(0x29);
    assert(r@ =~= invalid_report_sig());
    r
}

/// The ASCII bytes of the `REPORT_USED()` signature.
pub open spec fn report_used_sig() -> Seq<u8> {
    seq![0x52u8, 0x45u8, 0x50u8, 0x4fu8, 0x52u8, 0x54u8, 0x5fu8, 0x55u8, 0x53u8, 0x45u8, 0x44u8, 0x28u8, 0x29u8]
}

/// The signature as bytes.
fn report_used_sig_bytes() -> (r: Vec<u8>)
    ensures
        r@ == report_used_sig(),
{
    let mut r: Vec<u8> = Vec::new();
    r.push(0x52);
    r.push(0x45);
    r.push(0x50);
    r.push(0x4f);
    r.push(0x52);
    r.push(0x54);
    r.push(0x5f);
    r.push(0x55);
    r.push(0x53);
    r.push(0x45);
    r.push(0x44);
    r.push(0x28);
    r.push(0x29);
    assert(r@ =~= report_used_sig());
    r
}

/// The ASCII bytes of the `PROVER_ADDR_MISMATCH(address,address)` signature.
pub open spec fn prover_addr_mismatch_sig() -> Seq<u8> {
    seq![0x50u8, 0x52u8, 0x4fu8, 0x56u8, 0x45u8, 0x52u8, 0x5fu8, 0x41u8, 0x44u8, 0x44u8, 0x52u8, 0x5fu8, 0x4du8, 0x49u8, 0x53u8, 0x4du8, 0x41u8, 0x54u8, 0x43u8, 0x48u8, 0x28u8, 0x61u8, 0x64u8, 0x64u8, 0x72u8, 0x65u8, 0x73u8, 0x73u8, 0x2cu8, 0x61u8, 0x64u8, 0x64u8, 0x72u8, 0x65u8, 0x73u8, 0x73u8, 0x29u8]
}

/// The signature as bytes.
fn prover_addr_mismatch_sig_bytes() -> (r: Vec<u8>)
    ensures
        r@ == prover_addr_mismatch_sig(),
{
    let mut r: Vec<u8> = Vec::new();
    r.push(0x50);
    r.push(0x52);
    r.push(0x4f);
    r.push(0x56);
    r.push(0x45);
    r.push(0x52);
    r.push(0x5f);
    r.push(0x41);
    r.push(0x44);
    r.push(0x44);
    r.push(0x52);
    r.push(0x5f);
    r.push(0x4d);
    r.push(0x49);
    r.push(0x53);
    r.push(0x4d);
    r.push(0x41);
    r.push(0x54);
    r.push(0x43);
    r.push(0x48);
    r.push(0x28);
    r.push(0x61);
    r.push(0x64);
    r.push(0x64);
    r.push(0x72);
    r.push(0x65);
    r.push(0x73);
    r.push(0x73);
    r.push(0x2c);
    r.push(0x61);
    r.push(0x64);
    r.push(0x64);
    r.push(0x72);
    r.push(0x65);
    r.push(0x73);
    r.push(0x73);
    r.push(0x29);
    assert(r@ =~= prover_addr_mismatch_sig());
    r
}
} // verus!
