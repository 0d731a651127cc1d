use darwinia_bridge::DoubleNodeWithMerkleProof;

#[test]
fn test_scale_coding_of_default_double_node_with_proof() {
    let default_double_node_with_proof = DoubleNodeWithMerkleProof::default();
    let scale_encode_str: &[u8] = b"\x00\x00\x00\x00\x00\x00\x00\x00\x00\x00\x00\x00\x00\x00\x00\x00\x00\x00\x00\x00\x00\x00\x00\x00\x00\x00\x00\x00\x00\x00\x00\x00\x00\x00\x00\x00\x00\x00\x00\x00\x00\x00\x00\x00\x00\x00\x00\x00\x00\x00\x00\x00\x00\x00\x00\x00\x00\x00\x00\x00\x00\x00\x00\x00\x00\x00\x00\x00\x00\x00\x00\x00\x00\x00\x00\x00\x00\x00\x00\x00\x00\x00\x00\x00\x00\x00\x00\x00\x00\x00\x00\x00\x00\x00\x00\x00\x00\x00\x00\x00\x00\x00\x00\x00\x00\x00\x00\x00\x00\x00\x00\x00\x00\x00\x00\x00\x00\x00\x00\x00\x00\x00\x00\x00\x00\x00\x00\x00\x00"; // len 129
    let may_decoded_double_node_with_proof: Option<DoubleNodeWithMerkleProof> =
        DoubleNodeWithMerkleProof::decode(scale_encode_str);
    assert_eq!(
        default_double_node_with_proof,
        may_decoded_double_node_with_proof.unwrap()
    );
}

#[test]
fn test_scale_coding_of_double_node_with_two_proof() {
    let scale_encode_str: &[u8] = b"\x00\x00\x00\x00\x00\x00\x00\x00\x00\x00\x00\x00\x00\x00\x00\x00\x00\x00\x00\x00\x00\x00\x00\x00\x00\x00\x00\x00\x00\x00\x00\x00\x00\x00\x00\x00\x00\x00\x00\x00\x00\x00\x00\x00\x00\x00\x00\x00\x00\x00\x00\x00\x00\x00\x00\x00\x00\x00\x00\x00\x00\x00\x00\x00\x00\x00\x00\x00\x00\x00\x00\x00\x00\x00\x00\x00\x00\x00\x00\x00\x00\x00\x00\x00\x00\x00\x00\x00\x00\x00\x00\x00\x00\x00\x00\x00\x00\x00\x00\x00\x00\x00\x00\x00\x00\x00\x00\x00\x00\x00\x00\x00\x00\x00\x00\x00\x00\x00\x00\x00\x00\x00\x00\x00\x00\x00\x00\x00\x08\x00\x00\x00\x00\x00\x00\x00\x00\x00\x00\x00\x00\x00\x00\x00\x00\x00\x00\x00\x00\x00\x00\x00\x00\x00\x00\x00\x00\x00\x00\x00\x00"; // len 129 + 16 + 16
    let may_decoded_double_node_with_proof: Option<DoubleNodeWithMerkleProof> =
        DoubleNodeWithMerkleProof::decode(scale_encode_str);
    assert_eq!(2, may_decoded_double_node_with_proof.unwrap().proof.len());
}

fn sample_node() -> DoubleNodeWithMerkleProof {
    let mut first = [0u8; 64];
    let mut second = [0u8; 64];
    for i in 0..64 {
        first[i] = i as u8;
        second[i] = 200 - i as u8;
    }
    let mut h1 = [0u8; 16];
    let mut h2 = [0u8; 16];
    h1[0] = 0xaa;
    h2[15] = 0xbb;
    DoubleNodeWithMerkleProof { dag_nodes: [first, second], proof: vec![h1, h2] }
}

#[test]
fn double_node_encoding_lays_out_nodes_then_framed_proof() {
    let node = sample_node();
    let bytes = node.encode();
    assert_eq!(bytes.len(), 64 + 64 + 1 + 32);
    assert_eq!(&bytes[0..64], &node.dag_nodes[0][..]);
    assert_eq!(&bytes[64..128], &node.dag_nodes[1][..]);
    assert_eq!(bytes[128], 8);
    assert_eq!(bytes[129], 0xaa);
    assert_eq!(bytes[160], 0xbb);
}

#[test]
fn double_node_round_trip_ignores_trailing_bytes() {
    let node = sample_node();
    let mut bytes = node.encode();
    bytes.extend_from_slice(&[9, 9, 9]);
    assert_eq!(DoubleNodeWithMerkleProof::decode(&bytes), Some(node));
}

#[test]
fn double_node_default_encodes_to_zero_nodes_and_empty_proof() {
    assert_eq!(DoubleNodeWithMerkleProof::default().encode(), vec![0u8; 129]);
}

#[test]
fn double_node_decode_rejects_short_or_truncated_input() {
    assert_eq!(DoubleNodeWithMerkleProof::decode(&[0u8; 63]), None);
    assert_eq!(DoubleNodeWithMerkleProof::decode(&[0u8; 128]), None);
    // Proof length two, but only one hash follows.
    let mut bytes = vec![0u8; 128];
    bytes.push(8);
    bytes.extend_from_slice(&[1u8; 16]);
    assert_eq!(DoubleNodeWithMerkleProof::decode(&bytes), None);
}

#[test]
fn double_node_decode_rejects_non_canonical_length() {
    // Length zero written in the two-byte mode.
    let mut bytes = vec![0u8; 128];
    bytes.extend_from_slice(&[0x01, 0x00]);
    assert_eq!(DoubleNodeWithMerkleProof::decode(&bytes), None);
}

#[test]
fn double_node_clone_is_equal() {
    let node = sample_node();
    assert_eq!(node.clone(), node);
}
