use scematica::commit::weights_hash;
use scematica::fixed::Fx;
use scematica::format::{checksum, decode, encode, FormatError, Reader};
use scematica::net::PolicyNet;

fn populated() -> PolicyNet {
    let mut net = PolicyNet::new(5, &[7, 4], 3);
    let mut seed = 1i32;
    let mut fill = |layer: &mut scematica::net::Layer| {
        for w in layer.weights.iter_mut().chain(layer.biases.iter_mut()) {
            seed = seed.wrapping_mul(1_103_515_245).wrapping_add(12_345);
            *w = Fx::from_bits(seed >> 12);
        }
    };
    for layer in net.trunk.iter_mut() {
        fill(layer);
    }
    fill(&mut net.value_head);
    fill(&mut net.advantage_head);
    net
}

#[test]
fn round_trip_is_bit_exact() {
    let net = populated();
    let back = decode(&encode(&net)).unwrap();
    assert_eq!(back, net);
}

#[test]
fn round_trip_preserves_the_commitment_hash() {
    let net = populated();
    assert_eq!(weights_hash(&decode(&encode(&net)).unwrap()), weights_hash(&net));
}

#[test]
fn a_linear_policy_with_no_hidden_layers_round_trips() {
    let net = PolicyNet::new(3, &[], 2);
    assert_eq!(decode(&encode(&net)).unwrap(), net);
}

#[test]
fn foreign_files_are_rejected() {
    assert_eq!(decode(b"not a mesh file at all"), Err(FormatError::NotMeshFile));
}

#[test]
fn a_future_version_is_refused_rather_than_guessed() {
    let mut bytes = encode(&populated());
    bytes[4..6].copy_from_slice(&99u16.to_be_bytes());
    assert_eq!(decode(&bytes), Err(FormatError::UnsupportedVersion(99)));
}

#[test]
fn truncation_is_detected() {
    let bytes = encode(&populated());
    let cut = &bytes[..bytes.len() - 8];
    assert!(matches!(decode(cut), Err(FormatError::Truncated { .. })));
}

#[test]
fn a_flipped_weight_fails_the_checksum() {
    let mut bytes = encode(&populated());
    let mid = bytes.len() / 2;
    bytes[mid] ^= 0x01;
    assert!(matches!(decode(&bytes), Err(FormatError::ChecksumMismatch { .. })));
}

#[test]
fn trailing_bytes_are_refused() {
    let mut bytes = encode(&populated());
    bytes.push(0);
    assert_eq!(decode(&bytes), Err(FormatError::TrailingBytes(1)));
}

#[test]
fn an_absurd_header_is_rejected_before_allocating() {
    let mut bytes = encode(&populated());
    bytes[6..10].copy_from_slice(&u32::MAX.to_be_bytes());
    assert!(matches!(decode(&bytes), Err(FormatError::ImplausibleShape(_))));
}

#[test]
fn no_floats_are_written_to_disk() {
    let net = populated();
    let bytes = encode(&net);
    let header = 4 + 2 + 4 + 2 + 4 + net.trunk.len() * 4;
    assert_eq!(bytes.len(), header + net.parameter_count() * 4 + 4);
}

#[test]
fn the_reader_takes_big_endian_fields_and_reports_shortfall() {
    let data = [0x12u8, 0x34, 0xDE, 0xAD, 0xBE, 0xEF, 0x01];
    let mut r = Reader::new(&data);
    assert_eq!(r.u16().unwrap(), 0x1234);
    assert_eq!(r.u32().unwrap(), 0xDEAD_BEEF);
    assert_eq!(r.remaining(), 1);
    assert!(!r.is_empty());
    assert_eq!(r.take(2), Err(FormatError::Truncated { need: 8, have: 7 }));
    assert_eq!(r.take(1).unwrap(), &[0x01]);
    assert!(r.is_empty());
}

#[test]
fn the_checksum_is_fnv1a() {
    // FNV-1a of the empty input is its offset basis; of "a" it is 0xe40c292c.
    assert_eq!(checksum(&[]), 0x811c_9dc5);
    assert_eq!(checksum(b"a"), 0xe40c_292c);
}
