//! The TEE side of attestation: report builders for the real and mock
//! environments, the binding of a key to a reference block and the running
//! binary, and the byte handling around quote producers.

use vstd::prelude::*;
use crate::words::{B256, U256, Address, u64_to_be32, zero32};
use crate::keccak::{keccak_of, keccak256};
use crate::registry::{ReportData, report_data_abi, report_data_digest};
use crate::rlp::append_bytes;
use crate::state::copy_range;

verus! {

/// A TEE attestation report: the opaque quote and the values it binds.
pub struct AttestationReport {
    /// The TEE-issued quote; its user data carries the keccak of the
    /// encoded report record.
    pub report: Vec<u8>,
    pub address: Address,
    pub reference_block_hash: B256,
    pub reference_block_number: U256,
    pub bin_hash: B256,
    pub tee_type: U256,
}

impl AttestationReport {
    /// The report record this report binds, with an empty extension.
    pub fn to_report_data(&self) -> (r: ReportData)
        ensures
            r.addr == self.address,
            r.tee_type == self.tee_type,
            r.reference_block_number == self.reference_block_number,
            r.reference_block_hash == self.reference_block_hash,
            r.bin_hash == self.bin_hash,
            r.ext@ == Seq::<u8>::empty(),
    {
        let ext: Vec<u8> = Vec::new();
        assert(ext@ =~= Seq::<u8>::empty());
        ReportData {
            addr: self.address,
            tee_type: self.tee_type,
            reference_block_number: self.reference_block_number,
            reference_block_hash: self.reference_block_hash,
            bin_hash: self.bin_hash,
            ext,
        }
    }

    /// Assemble the report for a fresh key: the address, TEE type,
    /// reference block, and the keccak of the running binary's bytes; the
    /// quote itself is attached once the producer answers.
    pub fn assemble(
        address: Address,
        tee_type: U256,
        reference_block_number: U256,
        reference_block_hash: B256,
        bin_bytes: &[u8],
    ) -> (r: AttestationReport)
        ensures
            r.address == address,
            r.tee_type == tee_type,
            r.reference_block_number == reference_block_number,
            r.reference_block_hash == reference_block_hash,
            r.bin_hash@ == keccak_of(bin_bytes@),
            r.report@ == Seq::<u8>::empty(),
    {
        let report: Vec<u8> = Vec::new();
        assert(report@ =~= Seq::<u8>::empty());
        AttestationReport {
            report,
            address,
            reference_block_hash,
            reference_block_number,
            bin_hash: keccak256(bin_bytes),
            tee_type,
        }
    }

    /// Attach the quote the producer returned.
    pub fn with_quote(self, quote: Vec<u8>) -> (r: AttestationReport)
        ensures
            r.report == quote,
            r.address == self.address,
            r.reference_block_hash == self.reference_block_hash,
            r.reference_block_number == self.reference_block_number,
            r.bin_hash == self.bin_hash,
            r.tee_type == self.tee_type,
    {
        AttestationReport {
            report: quote,
            address: self.address,
            reference_block_hash: self.reference_block_hash,
            reference_block_number: self.reference_block_number,
            bin_hash: self.bin_hash,
            tee_type: self.tee_type,
        }
    }
}

/// Relies on `rand::fill` over a zeroed buffer: `len` bytes whose values
/// are random; nothing is assumed of them.
#[verifier::external_body]
fn rand_bytes(len: usize) -> (r: Vec<u8>)
    ensures
        r@.len() == len,
{
    let mut buf = vec![0u8; len];
    rand::fill(&mut buf[..]);
    buf
}

/// The mock report builder: tagged 201, answering quotes of 1024 random
/// bytes.
pub struct MockBuilder {
    ty: U256,
}

impl MockBuilder {
    pub fn new() -> (r: MockBuilder)
        ensures
            r.tee_type_spec()@ == u64_to_be32(201),
    {
        MockBuilder { ty: U256::from_u64(201) }
    }

    /// The TEE type tag.
    pub closed spec fn tee_type_spec(self) -> U256 {
        self.ty
    }

    pub fn tee_type(&self) -> (r: U256)
        ensures
            r == self.tee_type_spec(),
    {
        self.ty
    }

    /// A mock quote: 1024 random bytes, binding nothing.
    pub fn generate_quote(&self, _rd: &ReportData) -> (r: Vec<u8>)
        ensures
            r@.len() == 1024,
    {
        rand_bytes(1024)
    }
}

/// The quote-producing subprocess configuration: the binary to invoke.
/// The invocation itself happens outside the library; the byte handling
/// around it is here.
#[derive(Clone, Debug, PartialEq, Eq, Hash)]
pub struct TdxQuoteBuilder {
    pub bin: String,
}

impl TdxQuoteBuilder {
    pub fn new(bin: String) -> (r: TdxQuoteBuilder)
        ensures
            r.bin == bin,
    {
        TdxQuoteBuilder { bin }
    }

    /// The TEE type tag this producer reports: Intel TDX.
    pub fn tee_type(&self) -> (r: U256)
        ensures
            r@ == u64_to_be32(1),
    {
        U256::from_u64(1)
    }

    /// The 64-byte input handed to the subprocess: 32 zero bytes, then the
    /// keccak of the encoded report record.
    pub fn quote_input(&self, rd: &ReportData) -> (r: Vec<u8>)
        ensures
            r@ == zero32() + keccak_of(report_data_abi(*rd)),
    {
        let digest = report_data_digest(rd);
        let mut out: Vec<u8> = Vec::new();
        let mut i: usize = 0;
        while i < 32
            invariant
                i <= 32,
                out@ == Seq::new(i as nat, |j: int| 0u8),
            decreases 32 - i,
        {
            out.push(0u8);
            assert(out@ =~= Seq::new((i + 1) as nat, |j: int| 0u8));
            i = i + 1;
        }
        append_bytes(&mut out, digest.bytes.as_slice());
        assert(out@ =~= zero32() + keccak_of(report_data_abi(*rd)));
        out
    }

    /// Cut the quote out of the subprocess output: the 4936 bytes after
    /// the first newline, or from the start when there is none; `None`
    /// exactly when the output is too short to hold one.
    pub fn extract_quote(&self, stdout: &[u8]) -> (r: Option<Vec<u8>>)
        ensures
            r is Some <==> quote_start_spec(stdout@) + 4936 <= stdout@.len(),
            r matches Some(q) ==> q@ == stdout@.subrange(
                quote_start_spec(stdout@),
                quote_start_spec(stdout@) + 4936,
            ),
    {
        let n = stdout.len();
        let mut i: usize = 0;
        while i < n && stdout[i] != 0x0a
            invariant
                n == stdout@.len(),
                i <= n,
                forall|j: int| 0 <= j < i ==> stdout@[j] != 0x0au8,
            decreases n - i,
        {
            i = i + 1;
        }
        let start: usize = if i < n {
            proof {
                lemma_quote_start_at(stdout@, i as int);
            }
            i + 1
        } else {
            proof {
                lemma_quote_start_missing(stdout@);
            }
            0
        };
        if n < 4936 || start > n - 4936 {
            return None;
        }
        let q = copy_range(stdout, start, 4936);
        Some(q)
    }
}

/// Where the quote begins in subprocess output: one past the first
/// newline, or the start when there is none.
pub open spec fn quote_start_spec(s: Seq<u8>) -> int
    decreases s.len(),
{
    if s.len() == 0 {
        0int
    } else if s[0] == 0x0au8 {
        1int
    } else {
        let rest = quote_start_spec(s.skip(1));
        if rest == 0 {
            0int
        } else {
            rest + 1
        }
    }
}

/// With the first newline at `j`, the quote begins at `j + 1`.
proof fn lemma_quote_start_at(s: Seq<u8>, j: int)
    requires
        0 <= j < s.len(),
        s[j] == 0x0au8,
        forall|k: int| 0 <= k < j ==> s[k] != 0x0au8,
    ensures
        quote_start_spec(s) == j + 1,
    decreases j,
{
    if j == 0 {
    } else {
        lemma_quote_start_at(s.skip(1), j - 1);
    }
}

/// With no newline at all, the quote begins at the start.
proof fn lemma_quote_start_missing(s: Seq<u8>)
    requires
        forall|k: int| 0 <= k < s.len() ==> s[k] != 0x0au8,
    ensures
        quote_start_spec(s) == 0,
    decreases s.len(),
{
    if s.len() > 0 {
        lemma_quote_start_missing(s.skip(1));
    }
}

/// The local-agent response, reduced to the fields the builder reads.
pub struct AgentReply {
    /// The TDX attestation report the agent returned.
    pub attestation_report: Vec<u8>,
}

/// The local-agent report builder: tagged 1 (Intel TDX); the HTTP exchange
/// happens outside the library, and the quote is the report field of the
/// agent's reply.
pub struct TdxQuoteLocalAgentBuilder {
}

impl TdxQuoteLocalAgentBuilder {
    pub fn new() -> (r: TdxQuoteLocalAgentBuilder) {
        TdxQuoteLocalAgentBuilder {  }
    }

    /// The TEE type tag this producer reports.
    pub fn tee_type(&self) -> (r: U256)
        ensures
            r@ == u64_to_be32(1),
    {
        U256::from_u64(1)
    }

    /// The path component of the agent request: the keccak of the encoded
    /// report record, which the agent echoes into the quote's user data.
    pub fn request_digest(&self, rd: &ReportData) -> (r: B256)
        ensures
            r@ == keccak_of(report_data_abi(*rd)),
    {
        report_data_digest(rd)
    }

    /// Read the quote out of the agent's reply.
    pub fn quote_of_reply(&self, reply: AgentReply) -> (r: Vec<u8>)
        ensures
            r == reply.attestation_report,
    {
        reply.attestation_report
    }
}

} // verus!
