use pool_lib::WithdrawalData;

fn record() -> WithdrawalData {
    WithdrawalData {
        nullifier: [1u8; 32],
        block_number: 0x0102_0304_0506_0708,
        block_hash: [2u8; 32],
        exclusion_set_root: [3u8; 32],
        relayer_fee: [4u8; 32],
        recipient: [5u8; 20],
        relayer: [6u8; 20],
        contract_address: [7u8; 20],
    }
}

#[test]
fn abi_layout_is_slot_aligned() {
    let bytes = record().abi_encode();
    assert_eq!(bytes.len(), 256);
    assert_eq!(&bytes[0..32], &[1u8; 32]);
    assert_eq!(&bytes[32..56], &[0u8; 24]);
    assert_eq!(&bytes[56..64], &[1, 2, 3, 4, 5, 6, 7, 8]);
    assert_eq!(&bytes[64..96], &[2u8; 32]);
    assert_eq!(&bytes[96..128], &[3u8; 32]);
    assert_eq!(&bytes[128..160], &[4u8; 32]);
    assert_eq!(&bytes[160..172], &[0u8; 12]);
    assert_eq!(&bytes[172..192], &[5u8; 20]);
    assert_eq!(&bytes[192..204], &[0u8; 12]);
    assert_eq!(&bytes[204..224], &[6u8; 20]);
    assert_eq!(&bytes[224..236], &[0u8; 12]);
    assert_eq!(&bytes[236..256], &[7u8; 20]);
}

#[test]
fn abi_round_trip() {
    let d = record();
    assert_eq!(WithdrawalData::abi_decode(&d.abi_encode()), Some(d));
    let mut e = d;
    e.block_number = u64::MAX;
    e.recipient = [0u8; 20];
    assert_eq!(WithdrawalData::abi_decode(&e.abi_encode()), Some(e));
}

#[test]
fn abi_decode_rejects_bad_shapes() {
    let bytes = record().abi_encode();
    assert_eq!(WithdrawalData::abi_decode(&bytes[..255]), None);
    let mut longer = bytes.clone();
    longer.push(0);
    assert_eq!(WithdrawalData::abi_decode(&longer), None);
    let mut padded = bytes.clone();
    padded[40] = 1;
    assert_eq!(WithdrawalData::abi_decode(&padded), None);
    let mut address_pad = bytes;
    address_pad[224] = 9;
    assert_eq!(WithdrawalData::abi_decode(&address_pad), None);
}
