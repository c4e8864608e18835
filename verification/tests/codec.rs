use p2pool_node::codec::INVENTORY_TAG;
use p2pool_node::ids::ShareId;
use p2pool_node::message::{InventoryMessage, Message};

fn inventory(ids: Vec<Vec<u8>>) -> Message {
    Message::Inventory(InventoryMessage {
        have_shares: ids.into_iter().map(ShareId::new).collect(),
    })
}

#[test]
fn decode_inverts_encode() {
    let msg = inventory(vec![vec![1, 2, 3], vec![], vec![0xff; 40]]);
    let bytes = msg.encode();
    let back = Message::decode(&bytes).expect("an exact encoding decodes");
    let Message::Inventory(inv) = back;
    assert_eq!(inv.have_shares.len(), 3);
    assert_eq!(inv.have_shares[0], ShareId::new(vec![1, 2, 3]));
    assert_eq!(inv.have_shares[1], ShareId::new(vec![]));
    assert_eq!(inv.have_shares[2], ShareId::new(vec![0xff; 40]));
}

#[test]
fn decode_round_trip_empty_inventory() {
    let msg = inventory(Vec::new());
    let back = Message::decode(&msg.encode()).expect("an exact encoding decodes");
    let Message::Inventory(inv) = back;
    assert!(inv.have_shares.is_empty());
}

#[test]
fn decode_rejects_empty_input() {
    assert!(Message::decode(&Vec::new()).is_none());
}

#[test]
fn decode_rejects_unknown_tag() {
    let mut bytes = inventory(vec![vec![7]]).encode();
    bytes[0] = INVENTORY_TAG.wrapping_add(1);
    assert!(Message::decode(&bytes).is_none());
}

#[test]
fn decode_rejects_truncated_frame() {
    let bytes = inventory(vec![vec![7, 8, 9]]).encode();
    let cut = bytes[..bytes.len() - 1].to_vec();
    assert!(Message::decode(&cut).is_none());
}

#[test]
fn decode_rejects_trailing_bytes() {
    let mut bytes = inventory(vec![vec![7]]).encode();
    bytes.push(0);
    assert!(Message::decode(&bytes).is_none());
}

#[test]
fn decode_rejects_overstated_count() {
    // A header that promises one more item than the body holds.
    let mut bytes = vec![INVENTORY_TAG];
    bytes.extend_from_slice(&2u64.to_le_bytes());
    bytes.extend_from_slice(&1u64.to_le_bytes());
    bytes.push(5);
    assert!(Message::decode(&bytes).is_none());
}
