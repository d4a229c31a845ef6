use edr_agent::filescan::{hash_file_bytes, scan_and_hash_files};
use edr_agent::hexcode::{hex_decode, hex_encode};
use edr_agent::clock::current_timestamp;

#[test]
fn sha256_digest_matches_known_value() {
    let h = hash_file_bytes(b"abc");
    assert_eq!(h, "ba7816bf8f01cfea414140de5dae2223b00361a396177a9cb410ff61f20015ad");
    assert_eq!(h.len(), 64);
}

#[test]
fn scan_reports_one_record_per_file() {
    let files = vec![
        ("a.txt".to_string(), b"abc".to_vec()),
        ("b.txt".to_string(), Vec::new()),
    ];
    let hashes = scan_and_hash_files(&files);
    assert_eq!(hashes.len(), 2);
    assert_eq!(hashes[0].path, "a.txt");
    assert_eq!(
        hashes[0].hash,
        "ba7816bf8f01cfea414140de5dae2223b00361a396177a9cb410ff61f20015ad"
    );
    assert_eq!(hashes[1].path, "b.txt");
    assert_eq!(
        hashes[1].hash,
        "e3b0c44298fc1c149afbf4c8996fb92427ae41e4649b934ca495991b7852b855"
    );
}

#[test]
fn hex_round_trip() {
    assert_eq!(hex_encode(&[0x00, 0xff, 0x10]), "00ff10");
    assert_eq!(hex_decode(b"00ff10"), Some(vec![0x00, 0xff, 0x10]));
    assert_eq!(hex_decode(b"0AfF"), Some(vec![0x0a, 0xff]));
    assert_eq!(hex_decode(b"abc"), None);
    assert_eq!(hex_decode(b"zz"), None);
}

#[test]
fn clock_reads_a_plausible_time() {
    // well past 2001-09-09 on any host with a set clock
    assert!(current_timestamp() > 1_000_000_000);
}
