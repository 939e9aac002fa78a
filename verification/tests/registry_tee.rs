//! Registry decoding, report data, TEE byte handling, the attestation
//! loop's decisions, and config merging.

use tee_prover::attest_loop::{next_attestation_action, LoopAction, LoopEvent};
use tee_prover::config::MultiProver;
use tee_prover::registry::{decode_revert, find_instance_added, EventLog, Registration,
    RegistryRevert, ReportData};
use tee_prover::tee::{AttestationReport, MockBuilder, TdxQuoteBuilder, TdxQuoteLocalAgentBuilder};
use tee_prover::words::{Address, B256, U256};

fn instance_added_topic() -> B256 {
    B256::from_array(
        alloy_primitives::keccak256(b"InstanceAdded(uint256,address,address,uint256)").0,
    )
}

fn mk_log(topic0: B256, id: u64, instance: Address, valid_until: u64) -> EventLog {
    let mut topic2 = [0u8; 32];
    topic2[12..].copy_from_slice(&instance.bytes);
    let mut data = vec![0u8; 64];
    data[56..64].copy_from_slice(&valid_until.to_be_bytes());
    EventLog {
        topics: vec![topic0, B256 { bytes: U256::from_u64(id).be }, B256 { bytes: topic2 }],
        data,
    }
}

#[test]
fn instance_added_is_found() {
    let instance = Address::from_array([0x55; 20]);
    let noise = EventLog { topics: vec![B256::zero()], data: Vec::new() };
    let logs = vec![noise, mk_log(instance_added_topic(), 9, instance, 123456)];
    let reg: Registration = find_instance_added(&logs).unwrap();
    assert_eq!(reg.instance_id.be, U256::from_u64(9).be);
    assert_eq!(reg.address.bytes, instance.bytes);
    assert_eq!(reg.valid_until, 123456);
}

#[test]
fn missing_instance_added() {
    let noise = EventLog { topics: vec![B256::zero()], data: vec![0u8; 64] };
    assert!(find_instance_added(&vec![noise]).is_none());
    // The right shape under the wrong topic is not the event.
    let wrong = mk_log(B256::from_array([1u8; 32]), 9, Address::zero(), 1);
    assert!(find_instance_added(&vec![wrong]).is_none());
    // A validity timestamp beyond a u64 does not decode as the event.
    let mut oversized = mk_log(instance_added_topic(), 9, Address::zero(), 1);
    oversized.data[33] = 1;
    assert!(find_instance_added(&vec![oversized]).is_none());
}

#[test]
fn revert_decoding() {
    let sel = |sig: &[u8]| alloy_primitives::keccak256(sig)[..4].to_vec();

    let data = sel(b"REPORT_USED()");
    assert!(matches!(decode_revert(&data), RegistryRevert::ReportUsed));

    let data = sel(b"BLOCK_NUMBER_MISMATCH()");
    assert!(matches!(decode_revert(&data), RegistryRevert::BlockNumberMismatch));

    let data = sel(b"INVALID_REPORT()");
    assert!(matches!(decode_revert(&data), RegistryRevert::InvalidReport));

    let mut data = sel(b"PROVER_ADDR_MISMATCH(address,address)");
    let want = Address::from_array([0xaa; 20]);
    let got = Address::from_array([0xbb; 20]);
    let mut w1 = [0u8; 32];
    w1[12..].copy_from_slice(&want.bytes);
    let mut w2 = [0u8; 32];
    w2[12..].copy_from_slice(&got.bytes);
    data.extend_from_slice(&w1);
    data.extend_from_slice(&w2);
    match decode_revert(&data) {
        RegistryRevert::ProverAddrMismatch { want: w, got: g } => {
            assert_eq!(w.bytes, want.bytes);
            assert_eq!(g.bytes, got.bytes);
        },
        _ => panic!("expected the address-mismatch revert"),
    }

    let data = vec![1, 2, 3, 4, 5];
    match decode_revert(&data) {
        RegistryRevert::Unknown { data: d } => assert_eq!(d, vec![1, 2, 3, 4, 5]),
        _ => panic!("expected the raw revert"),
    }
}

#[test]
fn report_data_binding() {
    let report = AttestationReport::assemble(
        Address::from_array([0x44; 20]),
        U256::from_u64(1),
        U256::from_u64(100),
        B256::from_array([0x10; 32]),
        b"the running binary",
    );
    // The binary hash is the keccak of the binary's bytes, stable across
    // assemblies of the same bytes.
    let again = AttestationReport::assemble(
        Address::from_array([0x44; 20]),
        U256::from_u64(1),
        U256::from_u64(100),
        B256::from_array([0x10; 32]),
        b"the running binary",
    );
    assert_eq!(report.bin_hash.bytes, again.bin_hash.bytes);
    assert_eq!(
        report.bin_hash.bytes,
        alloy_primitives::keccak256(b"the running binary").0
    );

    let rd: ReportData = report.to_report_data();
    assert_eq!(rd.addr.bytes, [0x44; 20]);
    assert!(rd.ext.is_empty());
}

#[test]
fn quote_input_shape() {
    let builder = TdxQuoteBuilder::new("/usr/bin/quote-producer".to_string());
    let rd = ReportData {
        addr: Address::from_array([0x44; 20]),
        tee_type: U256::from_u64(201),
        reference_block_number: U256::from_u64(100),
        reference_block_hash: B256::from_array([0x10; 32]),
        bin_hash: B256::from_array([0x20; 32]),
        ext: Vec::new(),
    };
    // The subprocess producer reports Intel TDX.
    assert_eq!(builder.tee_type().be, U256::from_u64(1).be);
    let input = builder.quote_input(&rd);
    assert_eq!(input.len(), 64);
    assert_eq!(&input[..32], &[0u8; 32]);
    let local = TdxQuoteLocalAgentBuilder::new();
    assert_eq!(&input[32..], &local.request_digest(&rd).bytes);
}

#[test]
fn quote_extraction() {
    let builder = TdxQuoteBuilder::new("producer".to_string());
    // After the first newline.
    let mut stdout = b"some banner line\n".to_vec();
    let quote: Vec<u8> = (0..4936).map(|i| (i % 200 + 32) as u8).collect();
    stdout.extend_from_slice(&quote);
    stdout.extend_from_slice(b"trailing");
    assert_eq!(builder.extract_quote(&stdout).unwrap(), quote);

    // From the start when there is no newline.
    let mut stdout = quote.clone();
    stdout.extend_from_slice(&[0xff; 10]);
    assert_eq!(builder.extract_quote(&stdout).unwrap(), quote);

    // Too short to hold a quote.
    assert!(builder.extract_quote(b"\nshort").is_none());
}

#[test]
fn mock_quote() {
    let mock = MockBuilder::new();
    assert_eq!(mock.tee_type().be, U256::from_u64(201).be);
    let rd = ReportData {
        addr: Address::zero(),
        tee_type: U256::from_u64(201),
        reference_block_number: U256::zero(),
        reference_block_hash: B256::zero(),
        bin_hash: B256::zero(),
        ext: Vec::new(),
    };
    assert_eq!(mock.generate_quote(&rd).len(), 1024);
}

#[test]
fn attestation_loop_decisions() {
    // Failures retry in five seconds.
    assert_eq!(
        next_attestation_action(&LoopEvent::ReportFailed, 1800),
        LoopAction::Retry { sleep_secs: 5 }
    );
    assert_eq!(
        next_attestation_action(&LoopEvent::RegisterFailed, 1800),
        LoopAction::Retry { sleep_secs: 5 }
    );

    // A matching acknowledgment commits and wakes before expiry.
    let staged = Address::from_array([0x66; 20]);
    let reg = Registration {
        address: staged,
        instance_id: U256::from_u64(3),
        valid_until: 10_000,
    };
    assert_eq!(
        next_attestation_action(
            &LoopEvent::Registered { registration: reg, staged_address: staged },
            1800
        ),
        LoopAction::Commit { instance_id: U256::from_u64(3), next_wakeup: 8200 }
    );

    // A mismatched address halts the process.
    let other = Address::from_array([0x77; 20]);
    assert_eq!(
        next_attestation_action(
            &LoopEvent::Registered { registration: reg, staged_address: other },
            1800
        ),
        LoopAction::Halt
    );
}

#[test]
fn config_merge() {
    let mut cfg = MultiProver {
        config: "cfg.json".to_string(),
        private_key: String::new(),
        l1_endpoint: "http://left".to_string(),
        prover_registry: Address::zero(),
        listen: "127.0.0.1:20300".to_string(),
        attestation_pre_expire_secs: 1800,
        worker_num: 8,
    };
    let file = MultiProver {
        config: String::new(),
        private_key: "SECRET-REDACTED".to_string(),
        l1_endpoint: "http://right".to_string(),
        prover_registry: Address::from_array([1u8; 20]),
        listen: "0.0.0.0:9000".to_string(),
        attestation_pre_expire_secs: 600,
        worker_num: 2,
    };
    cfg.merge(file);
    // Empty and default fields are filled; set fields stay.
    assert_eq!(cfg.private_key, "SECRET-REDACTED");
    assert_eq!(cfg.l1_endpoint, "http://left");
    assert_eq!(cfg.prover_registry.bytes, [1u8; 20]);
    assert_eq!(cfg.listen, "0.0.0.0:9000");
    assert_eq!(cfg.attestation_pre_expire_secs, 600);
    assert_eq!(cfg.worker_num, 8);
}
