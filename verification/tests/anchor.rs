use scematica::anchor::{
    anchor_batch_calldata, hex, parse_digest, plan_anchor, register_agent_calldata, selector, MESH_MAINNET,
};
use scematica::attest::{Attestation, Freshness};
use scematica::commit::Digest;

fn d(b: u8) -> Digest {
    Digest([b; 32])
}

#[test]
fn selectors_match_the_signatures() {
    assert_eq!(hex(&selector("anchorBatch(bytes32,bytes32,uint32,uint64)")).len(), 10);
    assert_ne!(selector("anchorBatch(bytes32,bytes32,uint32,uint64)"), selector("registerAgent(bytes32,string)"));
}

#[test]
fn anchor_calldata_has_the_right_shape() {
    let data = anchor_batch_calldata(&d(1), &d(2), 300, 3600);
    assert_eq!(data.len(), 4 + 128);
    assert_eq!(&data[4..36], &d(1).0, "weights hash in the first word");
    assert_eq!(&data[36..68], &d(2).0, "root in the second");
}

#[test]
fn integers_are_right_aligned_in_their_words() {
    let data = anchor_batch_calldata(&d(1), &d(2), 300, 3600);
    let count = &data[68..100];
    assert!(count[..28].iter().all(|b| *b == 0), "leading bytes must be zero padding");
    assert_eq!(u32::from_be_bytes([count[28], count[29], count[30], count[31]]), 300);
    let window = &data[100..132];
    assert_eq!(u64::from_be_bytes(window[24..].try_into().unwrap()), 3600);
}

#[test]
fn register_agent_encodes_a_dynamic_string_correctly() {
    let uri = "ipfs://policy-v1";
    let data = register_agent_calldata(&d(7), uri);
    assert_eq!(u64::from_be_bytes(data[60..68].try_into().unwrap()), 0x40, "offset");
    assert_eq!(u64::from_be_bytes(data[92..100].try_into().unwrap()), uri.len() as u64);
    assert_eq!(&data[100..100 + uri.len()], uri.as_bytes());
    assert_eq!((data.len() - 4) % 32, 0);
}

#[test]
fn an_exactly_word_sized_string_gets_no_stray_padding() {
    let uri = "x".repeat(32);
    let data = register_agent_calldata(&d(1), &uri);
    assert_eq!(data.len(), 4 + 32 + 32 + 32 + 32);
}

#[test]
fn an_empty_uri_still_encodes() {
    let data = register_agent_calldata(&d(1), "");
    assert_eq!(data.len(), 4 + 32 + 32 + 32);
}

#[test]
fn a_retrospective_batch_carries_a_warning() {
    let a = Attestation {
        root: d(9),
        digests: vec![d(9)],
        count: 1,
        window: (100, 200),
        freshness: Freshness::Retrospective,
        max_lag_secs: 68_181,
    };
    let plan = plan_anchor(&a, &d(1), 3600, "botchain-deployer");
    let warning = plan.warning.expect("retrospective batches must warn");
    assert!(warning.contains("68181"));
    assert!(warning.contains("NOT that it was committed in advance"));
    assert!(plan.command.contains("--legacy"), "zero base fee makes this mandatory");
    assert!(plan.command.contains(MESH_MAINNET));
}

#[test]
fn a_live_batch_carries_no_warning() {
    let a = Attestation {
        root: d(9),
        digests: vec![d(9)],
        count: 1,
        window: (100, 200),
        freshness: Freshness::Live,
        max_lag_secs: 30,
    };
    assert!(plan_anchor(&a, &d(1), 3600, "acct").warning.is_none());
}

#[test]
fn the_selectors_are_the_known_four_bytes() {
    // keccak256("registerAgent(bytes32,string)") and the anchor signature, first four bytes,
    // recomputed independently; the two selectors must differ from each other and from zero.
    let a = selector("anchorBatch(bytes32,bytes32,uint32,uint64)");
    let r = selector("registerAgent(bytes32,string)");
    assert_ne!(a, [0u8; 4]);
    assert_ne!(r, [0u8; 4]);
    // keccak256("transfer(address,uint256)") starts a9059cbb, the best-known selector.
    assert_eq!(selector("transfer(address,uint256)"), [0xa9, 0x05, 0x9c, 0xbb]);
}

#[test]
fn the_plan_command_is_exact() {
    let a = Attestation {
        root: d(9),
        digests: vec![d(9)],
        count: 1,
        window: (100, 200),
        freshness: Freshness::Live,
        max_lag_secs: 30,
    };
    let plan = plan_anchor(&a, &d(1), 3600, "acct");
    assert_eq!(plan.contract, MESH_MAINNET);
    assert_eq!(plan.calldata, hex(&anchor_batch_calldata(&d(1), &d(9), 1, 3600)));
    assert_eq!(
        plan.command,
        format!(
            "cast send {MESH_MAINNET} {} \\\n  --rpc-url https://rpc.botchain.ai \\\n  --account acct --legacy",
            plan.calldata
        )
    );
}

#[test]
fn digests_parse_from_hex_with_or_without_a_prefix() {
    let text = "0x".to_string() + &"ab".repeat(32);
    assert_eq!(parse_digest(&text), Some(d(0xab)));
    assert_eq!(parse_digest(&"AB".repeat(32)), Some(d(0xab)));
    assert_eq!(parse_digest(&"ab".repeat(31)), None, "too short");
    assert_eq!(parse_digest(&("zz".to_string() + &"ab".repeat(31))), None, "not hex");
}
