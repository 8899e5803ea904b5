use re0inv::inventory::Item;
use re0inv::save_file::{DecodeError, SaveFile, SlotData, StoreData};

fn item(id: i32, count: i32) -> Item {
    Item { id, count }
}

fn sample() -> SaveFile {
    SaveFile {
        slots: vec![
            SlotData {
                slot: 3,
                box_items: vec![item(5, 1), item(180, 0), item(42, 30)],
                stores: vec![
                    StoreData {
                        offset: 0x20,
                        position: 2,
                        items: vec![item(1, 1), item(2, 2), item(3, 3)],
                    },
                    StoreData {
                        offset: 0x60,
                        position: 0,
                        items: vec![item(9, 9)],
                    },
                ],
            },
            SlotData {
                slot: 7,
                box_items: vec![],
                stores: vec![],
            },
        ],
    }
}

#[test]
fn round_trips() {
    let encoded = sample().encode();
    let decoded = SaveFile::decode(&encoded).expect("should decode");

    assert_eq!(decoded.slots.len(), 2);
    assert_eq!(decoded.get(3), sample().get(3));
    assert_eq!(decoded.get(7), sample().get(7));
}

#[test]
fn rejects_a_corrupted_body() {
    let mut encoded = sample().encode();
    let last = encoded.len() - 1;
    encoded[last] ^= 0xFF;

    assert!(SaveFile::decode(&encoded).is_err());
}

#[test]
fn rejects_a_foreign_file() {
    assert!(SaveFile::decode(b"IBOXsomething else entirely").is_err());
}

#[test]
fn rejects_a_truncated_file() {
    let encoded = sample().encode();
    assert!(SaveFile::decode(&encoded[..encoded.len() - 8]).is_err());
}

#[test]
fn put_replaces_rather_than_duplicating() {
    let mut file = sample();
    file.put(SlotData {
        slot: 3,
        box_items: vec![item(1, 1)],
        stores: vec![],
    });

    assert_eq!(file.slots.len(), 2);
    assert_eq!(file.get(3).unwrap().box_items, vec![item(1, 1)]);
}

#[test]
fn take_removes_and_returns_the_record() {
    let mut file = sample();
    let taken = file.take(3);

    assert_eq!(taken, sample().get(3).cloned());
    assert!(file.get(3).is_none());
    assert!(file.get(7).is_some());
}

#[test]
fn rejects_a_count_larger_than_the_body() {
    let mut encoded = sample().encode();
    encoded[8..12].copy_from_slice(&0x0800_0000u32.to_le_bytes());

    assert!(SaveFile::decode(&encoded).is_err());
}

#[test]
fn visible_reads_through_the_window() {
    let store = StoreData {
        offset: 0x20,
        position: 2,
        items: vec![item(1, 1), item(2, 2), item(3, 3), item(4, 4)],
    };

    let visible = store.visible(3);
    assert_eq!(visible, vec![item(3, 3), item(4, 4), Item::empty()]);
}

#[test]
fn each_refusal_names_its_reason() {
    assert_eq!(SaveFile::decode(b"RE0INV").unwrap_err(), DecodeError::TooShort);
    assert_eq!(
        SaveFile::decode(b"IBOXsomething else entirely").unwrap_err(),
        DecodeError::Foreign
    );

    let mut encoded = sample().encode();
    encoded[6] = 2;
    assert_eq!(SaveFile::decode(&encoded).unwrap_err(), DecodeError::Version(2));

    let mut encoded = sample().encode();
    encoded[8..12].copy_from_slice(&0x0800_0000u32.to_le_bytes());
    assert!(matches!(
        SaveFile::decode(&encoded).unwrap_err(),
        DecodeError::TooManyRecords { count: 0x0800_0000, .. }
    ));

    let mut encoded = sample().encode();
    let last = encoded.len() - 1;
    encoded[last] ^= 0xFF;
    assert!(matches!(SaveFile::decode(&encoded).unwrap_err(), DecodeError::Checksum { .. }));

    // A body cut short with a checksum that matches what is left.
    let mut encoded = sample().encode();
    encoded.truncate(encoded.len() - 8);
    let crc = re0inv::save_file::crc32(&encoded[16..]);
    encoded[12..16].copy_from_slice(&crc.to_le_bytes());
    assert_eq!(SaveFile::decode(&encoded).unwrap_err(), DecodeError::Truncated);
}

#[test]
fn the_checksum_is_the_zip_crc32() {
    assert_eq!(re0inv::save_file::crc32(b"123456789"), 0xCBF4_3926);
    assert_eq!(re0inv::save_file::crc32(b""), 0);
}

#[test]
fn the_header_is_laid_out_as_documented() {
    let encoded = sample().encode();
    assert_eq!(&encoded[..6], b"RE0INV");
    assert_eq!(u16::from_le_bytes([encoded[6], encoded[7]]), 1);
    assert_eq!(u32::from_le_bytes([encoded[8], encoded[9], encoded[10], encoded[11]]), 2);
    let crc = u32::from_le_bytes([encoded[12], encoded[13], encoded[14], encoded[15]]);
    assert_eq!(crc, re0inv::save_file::crc32(&encoded[16..]));
}

#[test]
fn more_than_255_stores_are_cut_to_what_the_count_can_say() {
    let stores: Vec<StoreData> = (0..300)
        .map(|i| StoreData { offset: i, position: 0, items: vec![] })
        .collect();
    let file = SaveFile { slots: vec![SlotData { slot: 1, box_items: vec![], stores }] };
    let decoded = SaveFile::decode(&file.encode()).unwrap();
    let record = decoded.get(1).unwrap();
    assert_eq!(record.stores.len(), 255);
    assert_eq!(record.stores[254].offset, 254);
}

#[test]
fn a_put_of_a_new_slot_adds_it_at_the_end() {
    let mut file = sample();
    file.put(SlotData { slot: 9, box_items: vec![item(4, 4)], stores: vec![] });
    assert_eq!(file.slots.len(), 3);
    assert_eq!(file.slots[2].slot, 9);
    assert_eq!(file.get(3), sample().get(3));
}

#[test]
fn taking_a_missing_slot_changes_nothing() {
    let mut file = sample();
    assert!(file.take(11).is_none());
    assert_eq!(file.slots.len(), 2);
}

#[test]
fn a_body_holding_more_than_the_header_counts_is_refused() {
    let mut encoded = sample().encode();
    encoded[8..12].copy_from_slice(&1u32.to_le_bytes());
    assert!(matches!(
        SaveFile::decode(&encoded),
        Err(DecodeError::TrailingBytes { .. })
    ));
}

#[test]
fn a_file_cut_anywhere_is_refused() {
    let encoded = sample().encode();
    for k in 0..encoded.len() {
        assert!(SaveFile::decode(&encoded[..k]).is_err(), "cut at {k}");
    }
}

#[test]
fn a_file_with_any_byte_changed_is_refused() {
    let encoded = sample().encode();
    for k in 0..encoded.len() {
        for flip in [0x01u8, 0x80, 0xFF] {
            let mut changed = encoded.clone();
            changed[k] ^= flip;
            assert!(SaveFile::decode(&changed).is_err(), "byte {k} flipped by {flip:#x}");
        }
    }
}

#[test]
fn a_changed_count_is_refused_either_way() {
    let encoded = sample().encode();
    for count in [0u32, 1, 3, 4] {
        let mut changed = encoded.clone();
        changed[8..12].copy_from_slice(&count.to_le_bytes());
        assert!(SaveFile::decode(&changed).is_err(), "count {count}");
    }
}
