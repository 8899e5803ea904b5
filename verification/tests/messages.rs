use re0inv::arc::{Archive, ArcError, Entry};
use re0inv::gmd::{verify, Gmd, GmdError, VerifyError};
use re0inv::messages::{missing_languages, original, patched_path};

/// A message file holding `strings`.
fn gmd_bytes(strings: &[&str]) -> Vec<u8> {
    let mut head = vec![0u8; 0x24];
    head[..4].copy_from_slice(b"GMD\0");
    head[0x18..0x1C].copy_from_slice(&(strings.len() as u32).to_le_bytes());
    let mut block = Vec::new();
    for s in strings {
        block.extend_from_slice(s.as_bytes());
        block.push(0);
    }
    head[0x20..0x24].copy_from_slice(&(block.len() as u32).to_le_bytes());
    head.extend_from_slice(&block);
    head
}

#[test]
fn a_message_file_reads_its_strings() {
    let bytes = gmd_bytes(&["Hello", "World"]);
    let g = Gmd::read(&bytes).unwrap();
    assert_eq!(g.strings(), vec!["Hello".to_string(), "World".to_string()]);
    assert_eq!(g.get(1), Some("World".to_string()));
    assert_eq!(g.get(2), None);
    assert_eq!(g.head_len(), 0x24);
}

#[test]
fn a_message_file_survives_a_read_and_a_write() {
    let bytes = gmd_bytes(&["Hello", "World"]);
    assert_eq!(Gmd::read(&bytes).unwrap().write(), bytes);
    assert_eq!(verify(&bytes), Ok(()));
}

#[test]
fn a_changed_string_moves_the_block_size() {
    let bytes = gmd_bytes(&["Hello", "World"]);
    let mut g = Gmd::read(&bytes).unwrap();
    g.set(0, "Hi there").unwrap();
    assert_eq!(g.write(), gmd_bytes(&["Hi there", "World"]));
    assert_eq!(g.set(5, "x"), Err(GmdError::NoString(5)));
}

#[test]
fn what_is_set_is_what_is_got() {
    let bytes = gmd_bytes(&["Hello", "World"]);
    let mut g = Gmd::read(&bytes).unwrap();
    g.set(1, "Welt – größer").unwrap();
    assert_eq!(g.get(1), Some("Welt – größer".to_string()));
    assert_eq!(g.get(0), Some("Hello".to_string()));
}

#[test]
fn what_is_not_a_message_file_is_refused() {
    assert_eq!(Gmd::read(b"GMX\0").err(), Some(GmdError::NotGmd));
    let mut bytes = gmd_bytes(&["Hello"]);
    bytes[0x20..0x24].copy_from_slice(&1000u32.to_le_bytes());
    assert!(matches!(Gmd::read(&bytes).err(), Some(GmdError::BlockTooLarge { block: 1000, .. })));
    let mut bytes = gmd_bytes(&["Hello"]);
    bytes[0x18..0x1C].copy_from_slice(&2u32.to_le_bytes());
    assert!(matches!(Gmd::read(&bytes).err(), Some(GmdError::CountMismatch { found: 1, expected: 2 })));
    assert!(matches!(verify(b"nope"), Err(VerifyError::Unreadable(GmdError::NotGmd))));
}

#[test]
fn an_archive_round_trips_through_compression() {
    let archive = Archive {
        version: 7,
        entries: vec![
            Entry { name: "message\\first".to_string(), extension: 0x1234, flags: 2, data: b"first entry".to_vec() },
            Entry { name: "second".to_string(), extension: 9, flags: 0, data: vec![0xAB; 3000] },
        ],
    };
    let bytes = archive.write();
    assert_eq!(&bytes[..4], b"ARC\0");
    assert!(bytes.len() >= 0x8000);
    let back = Archive::read(&bytes).unwrap();
    assert_eq!(back.version, 7);
    assert_eq!(back.entries.len(), 2);
    assert_eq!(back.entries[0].name, "message\\first");
    assert_eq!(back.entries[0].data, b"first entry".to_vec());
    assert_eq!(back.entries[1].data, vec![0xAB; 3000]);
    assert_eq!(back.entries[1].extension, 9);
    assert_eq!(back.find("second"), Some(1));
    assert_eq!(back.find("third"), None);
    // The compressed data is not the entry's own bytes.
    assert!(!bytes.windows(11).any(|w| w == b"first entry"));
}

#[test]
fn what_is_not_an_archive_is_refused() {
    assert_eq!(Archive::read(b"ARX\0\0\0\0\0").err(), Some(ArcError::NotArc));
}

#[test]
fn archive_file_names_follow_the_language() {
    assert_eq!(original("eng"), "msg_eng.arc");
    assert_eq!(patched_path("eng"), "msg_eng_inv.arc");
}

#[test]
fn an_archive_gives_back_each_entry_as_written() {
    let archive = Archive {
        version: 7,
        entries: vec![
            Entry { name: "système\\ü".to_string(), extension: 0xDEAD_BEEF, flags: 0x4000_0000, data: vec![] },
            Entry { name: "x".repeat(63), extension: 1, flags: 0xC000_0000, data: (0..=255u8).collect() },
        ],
    };
    let back = Archive::read(&archive.write()).unwrap();
    assert_eq!(back.version, 7);
    assert_eq!(back.entries.len(), 2);
    for (a, b) in archive.entries.iter().zip(back.entries.iter()) {
        assert_eq!(a.name, b.name);
        assert_eq!(a.extension, b.extension);
        assert_eq!(a.flags, b.flags);
        assert_eq!(a.data, b.data);
    }
}

#[test]
fn a_file_whose_head_cannot_hold_the_size_is_answered_not_rebuilt() {
    let mut answered = false;
    for count in 0u32..64 {
        let mut bytes = vec![0u8; 0x24];
        bytes[..4].copy_from_slice(b"GMD\0");
        bytes[0x18..0x1C].copy_from_slice(&count.to_le_bytes());
        bytes[0x20..0x24].copy_from_slice(&0x24u32.to_le_bytes());
        if let Ok(g) = Gmd::read(&bytes) {
            assert_eq!(g.head_len(), 0);
            assert_eq!(verify(&bytes), Err(VerifyError::HeadTooShort { head: 0 }));
            answered = true;
        } else {
            assert!(matches!(verify(&bytes), Err(VerifyError::Unreadable(_))));
        }
    }
    assert!(answered);
}

#[test]
fn only_languages_with_an_original_and_no_patched_archive_are_built() {
    let original = [true, true, false, true];
    let patched = [false, true, false, false];
    assert_eq!(missing_languages(&original, &patched), vec![0, 3]);
    assert_eq!(missing_languages(&[true, true], &[false]), vec![0, 1]);
    assert!(missing_languages(&[], &[]).is_empty());
}
