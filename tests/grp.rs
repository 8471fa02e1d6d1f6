use rebuild::art::Palette;
use rebuild::error::FormatError;
use rebuild::grp::GroupManager;
use rebuild::path::PathManager;

fn sample_archive() -> Vec<u8> {
    vec![
        b'K', b'e', b'n', b'S', b'i', b'l', b'v', b'e',
        b'r', b'm', b'a', b'n', 0x03, 0x00, 0x00, 0x00,
        b'T', b'E', b'S', b'T', b'F', b'I', b'L', b'E',
        b'A', 0x00, 0x00, 0x00, 0x01, 0x00, 0x00, 0x00,
        b'T', b'E', b'S', b'T', b'F', b'I', b'L', b'E',
        b'B', 0x00, 0x00, 0x00, 0x02, 0x00, 0x00, 0x00,
        b'T', b'E', b'S', b'T', b'F', b'I', b'L', b'E',
        b'C', 0x00, 0x00, 0x00, 0x03, 0x00, 0x00, 0x00,
        0x01, 0x02, 0x02, 0x03, 0x03, 0x03,
    ]
}

/// An archive holding the given entries, in order.
fn archive(entries: &[(&str, &[u8])]) -> Vec<u8> {
    let mut out = b"KenSilverman".to_vec();
    out.extend_from_slice(&(entries.len() as u32).to_le_bytes());
    for (name, data) in entries {
        let mut field = [0u8; 12];
        field[..name.len()].copy_from_slice(name.as_bytes());
        out.extend_from_slice(&field);
        out.extend_from_slice(&(data.len() as u32).to_le_bytes());
    }
    for (_, data) in entries {
        out.extend_from_slice(data);
    }
    out
}

#[test]
fn grp_test_load_slice() {
    let data = sample_archive();
    let path_manager = PathManager::new();
    let mut group_manager = GroupManager::new(path_manager);
    match group_manager.load_data(&data) {
        Err(e) => panic!("{}", e.message()),
        Ok(_) => (),
    }

    let data = match group_manager.get("TESTFILEA") {
        Some(data) => data,
        None => panic!("TESTFILEA wasn't found in the archive"),
    };
    assert_eq!(data.len(), 1);
    assert_eq!(data[0], 0x01);

    let data = match group_manager.get("TESTFILEB") {
        Some(data) => data,
        None => panic!("TESTFILEB wasn't found in the archive"),
    };
    assert_eq!(data.len(), 2);
    assert_eq!(data[0], 0x02);
    assert_eq!(data[1], 0x02);

    let data = match group_manager.get("TESTFILEC") {
        Some(data) => data,
        None => panic!("TESTFILEC wasn't found in the archive"),
    };
    assert_eq!(data.len(), 3);
    assert_eq!(data[0], 0x03);
    assert_eq!(data[1], 0x03);
    assert_eq!(data[2], 0x03);
}

#[test]
fn fmt_test_load_slice() {
    let data = sample_archive();
    let path_manager = PathManager::new();
    let mut group_manager = GroupManager::new(path_manager);
    match group_manager.load_data(&data) {
        Err(e) => panic!("{}", e.message()),
        Ok(_) => (),
    }

    let data = match group_manager.get("TESTFILEA") {
        Some(data) => data,
        None => panic!("TESTFILEA wasn't found in the archive"),
    };
    assert_eq!(data.len(), 1);
    assert_eq!(data[0], 0x01);

    let data = match group_manager.get("TESTFILEB") {
        Some(data) => data,
        None => panic!("TESTFILEB wasn't found in the archive"),
    };
    assert_eq!(data.len(), 2);
    assert_eq!(data[0], 0x02);
    assert_eq!(data[1], 0x02);

    let data = match group_manager.get("TESTFILEC") {
        Some(data) => data,
        None => panic!("TESTFILEC wasn't found in the archive"),
    };
    assert_eq!(data.len(), 3);
    assert_eq!(data[0], 0x03);
    assert_eq!(data[1], 0x03);
    assert_eq!(data[2], 0x03);
}

#[test]
fn test_load_slice() {
    let data = [0; 0x10301];
    if let Err(e) = Palette::new(&data) {
        panic!("Valid PALETTE errored out with '{}'", e.message());
    }
}

#[test]
fn grp_test_incomplete_header() {
    let data = vec![b'J', b'a', b'k', b'o', b'b'];
    let path_manager = PathManager::new();
    let mut group_manager = GroupManager::new(path_manager);
    if let Ok(_) = group_manager.load_data(&data) {
        panic!("Accepted invalid header.");
    }
}

#[test]
fn fmt_test_incomplete_header() {
    let data = vec![b'J', b'a', b'k', b'o', b'b'];
    let path_manager = PathManager::new();
    let mut group_manager = GroupManager::new(path_manager);
    if let Ok(_) = group_manager.load_data(&data) {
        panic!("Accepted invalid header.");
    }
}

fn invalid_header() -> Vec<u8> {
    vec![
        b'J', b'a', b'k', b'o', b'b', b'L', b'K', b'r',
        b'e', b'u', b'z', b'e', 0x01, 0x00, 0x00, 0x00,
        b'T', b'E', b'S', b'T', b'F', b'I', b'L', b'E',
        b'A', 0x00, 0x00, 0x00, 0x01, 0x00, 0x00, 0x00,
        0x01,
    ]
}

#[test]
fn grp_test_invalid_header() {
    let data = invalid_header();
    let path_manager = PathManager::new();
    let mut group_manager = GroupManager::new(path_manager);
    if let Ok(_) = group_manager.load_data(&data) {
        panic!("Accepted invalid header.");
    }
}

#[test]
fn fmt_test_invalid_header() {
    let data = invalid_header();
    let path_manager = PathManager::new();
    let mut group_manager = GroupManager::new(path_manager);
    if let Ok(_) = group_manager.load_data(&data) {
        panic!("Accepted invalid header.");
    }
}

fn invalid_file_count() -> Vec<u8> {
    vec![
        b'K', b'e', b'n', b'S', b'i', b'l', b'v', b'e',
        b'r', b'm', b'a', b'n', 0x69, 0x00, 0x00, 0x00,
        b'T', b'E', b'S', b'T', b'F', b'I', b'L', b'E',
        b'A', 0x00, 0x00, 0x00, 0x01, 0x00, 0x00, 0x00,
        0x01,
    ]
}

#[test]
fn grp_test_invalid_file_count() {
    let data = invalid_file_count();
    let path_manager = PathManager::new();
    let mut group_manager = GroupManager::new(path_manager);
    if let Ok(_) = group_manager.load_data(&data) {
        panic!("Accepted invalid header.");
    }
}

#[test]
fn fmt_test_invalid_file_count() {
    let data = invalid_file_count();
    let path_manager = PathManager::new();
    let mut group_manager = GroupManager::new(path_manager);
    if let Ok(_) = group_manager.load_data(&data) {
        panic!("Accepted invalid header.");
    }
}

fn not_enough_data() -> Vec<u8> {
    vec![
        b'K', b'e', b'n', b'S', b'i', b'l', b'v', b'e',
        b'r', b'm', b'a', b'n', 0x69, 0x00, 0x00, 0x00,
        b'T', b'E', b'S', b'T', b'F', b'I', b'L', b'E',
        b'A', 0x00, 0x00, 0x00, 0x02, 0x00, 0x00, 0x00,
        0x01,
    ]
}

#[test]
fn grp_test_not_enough_data() {
    let data = not_enough_data();
    let path_manager = PathManager::new();
    let mut group_manager = GroupManager::new(path_manager);
    if let Ok(_) = group_manager.load_data(&data) {
        panic!("Accepted invalid header.");
    }
}

#[test]
fn fmt_test_not_enough_data() {
    let data = not_enough_data();
    let path_manager = PathManager::new();
    let mut group_manager = GroupManager::new(path_manager);
    if let Ok(_) = group_manager.load_data(&data) {
        panic!("Accepted invalid header.");
    }
}

#[test]
fn test_not_enough_data() {
    let data = [0; 1];
    if let Ok(_) = Palette::new(&data) {
        panic!("Accepted incomplete header.");
    }
}

#[test]
fn archive_short_buffer_is_truncated_header() {
    let mut g = GroupManager::new(PathManager::new());
    assert_eq!(g.load_data(&[0u8; 15]), Err(FormatError::TruncatedHeader));
    assert_eq!(g.load_data(&[]), Err(FormatError::TruncatedHeader));
}

#[test]
fn archive_bad_signature_is_invalid_signature() {
    let mut g = GroupManager::new(PathManager::new());
    assert_eq!(g.load_data(&invalid_header()), Err(FormatError::InvalidSignature));
    let mut data = sample_archive();
    data[0] = b'k';
    assert_eq!(g.load_data(&data), Err(FormatError::InvalidSignature));
}

#[test]
fn archive_large_count_is_invalid_entry_count() {
    let mut g = GroupManager::new(PathManager::new());
    assert_eq!(g.load_data(&invalid_file_count()), Err(FormatError::InvalidEntryCount));
    // A table that ends exactly at the end of the buffer leaves no payload.
    let mut data = b"KenSilverman".to_vec();
    data.extend_from_slice(&[1, 0, 0, 0]);
    data.extend_from_slice(&[0u8; 16]);
    assert_eq!(g.load_data(&data), Err(FormatError::InvalidEntryCount));
    let mut huge = b"KenSilverman".to_vec();
    huge.extend_from_slice(&[0xff, 0xff, 0xff, 0xff]);
    huge.extend_from_slice(&[0u8; 40]);
    assert_eq!(g.load_data(&huge), Err(FormatError::InvalidEntryCount));
}

#[test]
fn archive_payload_past_end_is_corrupt_table() {
    let mut data = archive(&[("A", &[1]), ("B", &[2, 2])]);
    data.pop();
    let mut g = GroupManager::new(PathManager::new());
    assert_eq!(g.load_data(&data), Err(FormatError::CorruptTable));
    // Nothing of the failed load is kept, not even the entry that fit.
    assert_eq!(g.get("A"), None);
    assert_eq!(g.len(), 0);
}

#[test]
fn archive_entry_sizes_round_trip() {
    let payloads: [&[u8]; 4] = [&[], &[7], &[1, 2, 3, 4, 5], &[9; 300]];
    let data = archive(&[
        ("EMPTY", payloads[0]),
        ("ONE", payloads[1]),
        ("FIVE.DAT", payloads[2]),
        ("TWELVECHARSX", payloads[3]),
    ]);
    let mut g = GroupManager::new(PathManager::new());
    assert_eq!(g.load_data(&data), Ok(()));
    assert_eq!(g.len(), 4);
    assert_eq!(g.get("EMPTY").unwrap().len(), 0);
    assert_eq!(g.get("ONE").unwrap(), payloads[1]);
    assert_eq!(g.get("FIVE.DAT").unwrap(), payloads[2]);
    assert_eq!(g.get("TWELVECHARSX").unwrap().len(), 300);
    assert_eq!(g.get("MISSING"), None);
    assert_eq!(g.get("one"), None);
}

#[test]
fn archive_loading_twice_changes_nothing() {
    let data = sample_archive();
    let mut once = GroupManager::new(PathManager::new());
    once.load_data(&data).unwrap();
    let mut twice = GroupManager::new(PathManager::new());
    twice.load_data(&data).unwrap();
    twice.load_data(&data).unwrap();
    assert_eq!(once.len(), twice.len());
    for name in ["TESTFILEA", "TESTFILEB", "TESTFILEC"] {
        assert_eq!(once.get(name), twice.get(name));
    }
}

#[test]
fn archive_later_entry_of_same_name_wins() {
    let data = archive(&[("SAME", &[1]), ("OTHER", &[2]), ("SAME", &[3, 3])]);
    let mut g = GroupManager::new(PathManager::new());
    g.load_data(&data).unwrap();
    assert_eq!(g.len(), 2);
    assert_eq!(g.get("SAME").unwrap(), &[3, 3]);
    let again = archive(&[("OTHER", &[5, 5, 5])]);
    g.load_data(&again).unwrap();
    assert_eq!(g.get("OTHER").unwrap(), &[5, 5, 5]);
    assert_eq!(g.get("SAME").unwrap(), &[3, 3]);
}

#[test]
fn archive_name_is_cut_at_nul() {
    let mut data = b"KenSilverman".to_vec();
    data.extend_from_slice(&[1, 0, 0, 0]);
    data.extend_from_slice(b"AB\0CDEFGHIJK");
    data.extend_from_slice(&[1, 0, 0, 0]);
    data.push(0x42);
    let mut g = GroupManager::new(PathManager::new());
    g.load_data(&data).unwrap();
    assert_eq!(g.get("AB").unwrap(), &[0x42]);
    assert_eq!(g.get_bytes(b"AB"), Some(&[0x42u8][..]));
    assert_eq!(g.get("AB\0CDEFGHIJK"), None);
}
