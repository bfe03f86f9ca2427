//! Sealing and opening one step at a time, and the layout underneath.
use seald::header::{write_header, FileHeader, HeaderState, HeaderStep};
use seald::le::{from_le, u32_to_le, u64_to_le};
use seald::open::{decrypt_stream, open_records, OpenStep, Opener};
use seald::record::{chunk_aad_bytes, list_record, nonce_array};
use seald::seal::{prepare, prepare_with_random_salt, SealStep, Sealer};
use seald::stream::{append_pieces, failure_text, read_bytes, Piece, ReadEvent};

fn key() -> [u8; 32] {
    let mut key = [0u8; 32];
    for (i, b) in key.iter_mut().enumerate() {
        *b = i as u8;
    }
    key
}

fn header() -> FileHeader {
    let mut salt = [0u8; 16];
    for (i, b) in salt.iter_mut().enumerate() {
        *b = 16 + i as u8;
    }
    FileHeader::from_kdf_params(8_192, 1, 1, salt).expect("header")
}

fn nonce() -> [u8; 12] {
    let mut nonce = [0u8; 12];
    for (i, b) in nonce.iter_mut().enumerate() {
        *b = 64 + i as u8;
    }
    nonce
}

fn bytes_of(list: &Vec<Piece>) -> Vec<u8> {
    let mut out = Vec::new();
    append_pieces(&mut out, list);
    out
}

/// "hello" as the record with index 0.
const HELLO: [u8; 21] = [
    0x90, 0x31, 0x10, 0xed, 0x1d, 0xa8, 0xdf, 0x2c, 0xa1, 0xf7, 0x6c, 0xe3, 0x42, 0xb2, 0x44, 0xbe,
    0x8a, 0xd3, 0x24, 0x83, 0xc5,
];

/// The marker with index 1.
const MARKER: [u8; 16] = [
    0xb9, 0xe4, 0xcb, 0x20, 0x3c, 0xfb, 0x5d, 0xd3, 0x66, 0xba, 0x2f, 0x0e, 0xae, 0xfe, 0x44, 0x4b,
];

fn two_records() -> Vec<u8> {
    let mut bytes = vec![0u8; 8];
    bytes.extend_from_slice(&nonce());
    bytes.extend_from_slice(&[5, 0, 0, 0]);
    bytes.extend_from_slice(&HELLO);
    bytes.extend_from_slice(&[1, 0, 0, 0, 0, 0, 0, 0]);
    bytes.extend_from_slice(&nonce());
    bytes.extend_from_slice(&[0, 0, 0, 0]);
    bytes.extend_from_slice(&MARKER);
    bytes
}

#[test]
fn integers_are_little_endian() {
    assert_eq!(u32_to_le(0x0102_0304), vec![4, 3, 2, 1]);
    assert_eq!(u64_to_le(0x0102_0304_0506_0708), vec![8, 7, 6, 5, 4, 3, 2, 1]);
    assert_eq!(u64_to_le(u64::MAX), vec![255; 8]);
    assert_eq!(from_le(&[4, 3, 2, 1]), 0x0102_0304);
    assert_eq!(from_le(&[255; 8]), u64::MAX);
    assert_eq!(from_le(&[]), 0);
    for value in [0u64, 1, 255, 256, 65_535, 1 << 40, u64::MAX] {
        assert_eq!(from_le(&u64_to_le(value)), value);
    }
}

#[test]
fn header_layout() {
    let mut out = vec![9u8];
    write_header(&mut out, &header());
    let mut expected = vec![9, b'S', b'L', b'D', 1, 1, 1, 1];
    expected.extend_from_slice(&[0, 32, 0, 0, 1, 0, 0, 0, 1, 0, 0, 0, 0, 0, 4, 0]);
    expected.extend_from_slice(&header().salt);
    assert_eq!(out, expected);
    assert_eq!(header().aad_prefix_bytes(), expected[5..].to_vec());
}

#[test]
fn header_writes_have_their_names() {
    let names: Vec<&str> = header().header_pieces().iter().map(|p| p.label).collect();
    assert_eq!(
        names,
        vec![
            "write header magic",
            "write header ids",
            "write kdf mem cost",
            "write kdf time cost",
            "write kdf parallelism",
            "write chunk size",
            "write salt",
        ]
    );
}

#[test]
fn header_costs_are_checked() {
    assert_eq!(
        FileHeader::from_kdf_params(1, 1, 1, [0u8; 16]).err(),
        Some("invalid Argon2 memory cost: must be between 8192 and 262144 KiB".to_string())
    );
}

#[test]
fn header_is_read_field_by_field() {
    let mut bytes = Vec::new();
    write_header(&mut bytes, &header());
    let mut state = HeaderState::Magic;
    let mut at = 0;
    let read = loop {
        let event = read_bytes(&bytes, at, state.wanted());
        at += state.wanted();
        match state.feed(&event) {
            HeaderStep::More(next) => state = next,
            HeaderStep::Done(read) => break read,
            HeaderStep::Failed(text) => panic!("{text}"),
        }
    };
    assert_eq!(at, 39);
    assert_eq!(read.kdf_mem_cost, 8_192);
    assert_eq!(read.kdf_time_cost, 1);
    assert_eq!(read.kdf_parallelism, 1);
    assert_eq!(read.chunk_plain, 262_144);
    assert_eq!(read.salt, header().salt);
}

#[test]
fn header_reads_fail_with_their_names() {
    let step = HeaderState::MemCost.feed(&ReadEvent::Failed("broken pipe".to_string()));
    assert!(matches!(step, HeaderStep::Failed(text) if text == "read kdf mem cost: broken pipe"));
    assert_eq!(HeaderState::Ids.read_label(), "read header ids");
    assert_eq!(HeaderState::Ids.wanted(), 3);
}

#[test]
fn records_are_sealed_exactly() {
    let mut sealer = Sealer::new(key(), &header());
    let (first, step) = sealer.feed(&nonce(), b"hello").expect("seal");
    assert!(matches!(step, SealStep::More));
    assert!(!sealer.is_finished());
    let (marker, step) = sealer.feed(&nonce(), b"").expect("seal");
    assert!(matches!(step, SealStep::Finished));
    assert!(sealer.is_finished());
    let mut all = bytes_of(&first);
    all.extend_from_slice(&bytes_of(&marker));
    assert_eq!(all, two_records());

    let names: Vec<&str> = first.iter().map(|p| p.label).collect();
    assert_eq!(names, vec!["write chunk index", "write nonce", "write length", "write ciphertext"]);
    let names: Vec<&str> = marker.iter().map(|p| p.label).collect();
    assert_eq!(
        names,
        vec![
            "write final marker index",
            "write final marker nonce",
            "write final marker length",
            "write final marker ciphertext",
        ]
    );
}

#[test]
fn random_nonces_open_again() {
    let marker = || {
        let mut sealer = Sealer::new(key(), &header());
        bytes_of(&sealer.feed_with_random_nonce(b"").expect("seal").0)
    };
    let a = marker();
    let b = marker();
    assert_ne!(a[8..20], b[8..20]);
    let mut out = Vec::new();
    let opener = Opener::new(key(), &header());
    assert_eq!(open_records(opener, &a, &mut out), Ok(()));
    assert!(out.is_empty());
}

#[test]
fn closing_ends_the_run() {
    let mut sealer = Sealer::new(key(), &header());
    assert!(!sealer.is_finished());
    sealer.close();
    assert!(sealer.is_finished());

    let mut opener = Opener::new(key(), &header());
    assert_eq!(opener.wanted(), 1);
    opener.close();
    assert_eq!(opener.wanted(), 0);
}

#[test]
fn chunks_of_any_length_open_again() {
    let mut sealer = Sealer::new(key(), &header());
    let mut bytes = Vec::new();
    for chunk in [&b"a"[..], &b"bcd"[..], &b"ef"[..]] {
        let (list, step) = sealer.feed_with_random_nonce(chunk).expect("seal");
        assert!(matches!(step, SealStep::More));
        bytes.extend_from_slice(&bytes_of(&list));
    }
    let (list, step) = sealer.feed_with_random_nonce(b"").expect("seal");
    assert!(matches!(step, SealStep::Finished));
    bytes.extend_from_slice(&bytes_of(&list));
    let mut out = b">".to_vec();
    let opener = Opener::new(key(), &header());
    assert_eq!(open_records(opener, &bytes, &mut out), Ok(()));
    assert_eq!(out, b">abcdef");
}

#[test]
fn output_before_a_failure_is_a_prefix() {
    let records = two_records();
    let mut out = Vec::new();
    let opener = Opener::new(key(), &header());
    assert_eq!(
        open_records(opener, &records[..45], &mut out),
        Err("missing final authentication marker".to_string())
    );
    assert_eq!(out, b"hello");

    let mut records = two_records();
    records[30] ^= 1;
    let mut out = Vec::new();
    let opener = Opener::new(key(), &header());
    assert_eq!(
        open_records(opener, &records, &mut out),
        Err("decrypt failed (wrong passphrase or corrupt data)".to_string())
    );
    assert!(out.is_empty());
}

#[test]
fn a_record_opens_only_under_its_header() {
    let other = FileHeader::from_kdf_params(8_192, 2, 1, header().salt).expect("header");
    let mut out = Vec::new();
    let opener = Opener::new(key(), &other);
    assert_eq!(
        open_records(opener, &two_records(), &mut out),
        Err("decrypt failed (wrong passphrase or corrupt data)".to_string())
    );
}

#[test]
fn records_are_opened_one_read_at_a_time() {
    let records = two_records();
    let mut opener = Opener::new(key(), &header());
    let mut at = 0;
    let mut reads = Vec::new();
    let mut plain = Vec::new();
    loop {
        let wanted = opener.wanted();
        reads.push(wanted);
        let event = read_bytes(&records, at, wanted);
        at += wanted;
        match opener.feed(event) {
            OpenStep::More => {}
            OpenStep::Plain(bytes) => {
                assert_eq!(opener.wanted(), 0);
                plain.extend_from_slice(&bytes);
                assert_eq!(opener.advance(), Ok(()));
            }
            OpenStep::Finished => break,
            OpenStep::Failed(text) => panic!("{text}"),
        }
    }
    assert_eq!(plain, b"hello");
    assert_eq!(reads, vec![1, 7, 12, 4, 21, 1, 7, 12, 4, 16, 1]);
}

#[test]
fn failed_reads_of_records_have_their_names() {
    let mut opener = Opener::new(key(), &header());
    let step = opener.feed(ReadEvent::Failed("no disk".to_string()));
    assert!(matches!(step, OpenStep::Failed(text) if text == "read chunk index: no disk"));
    assert_eq!(opener.wanted(), 0);

    let mut opener = Opener::new(key(), &header());
    let step = opener.feed(ReadEvent::Bytes(vec![0]));
    assert!(matches!(step, OpenStep::More));
    let step = opener.feed(ReadEvent::Ended("gone".to_string()));
    assert!(matches!(step, OpenStep::Failed(text) if text == "truncated chunk header: gone"));
    assert_eq!(opener.wanted(), 0);
}

/// An opener that waits for the ciphertext of `plain_len` bytes.
fn opener_before_ciphertext(plain_len: u8) -> Opener {
    let mut opener = Opener::new(key(), &header());
    for bytes in [vec![0], vec![0; 7], nonce().to_vec(), vec![plain_len, 0, 0, 0]] {
        assert!(matches!(opener.feed(ReadEvent::Bytes(bytes)), OpenStep::More));
    }
    assert_eq!(opener.wanted(), plain_len as usize + 16);
    opener
}

#[test]
fn answers_of_the_cipher_decide() {
    let mut opener = opener_before_ciphertext(3);
    let step = opener.answer(3, None);
    assert!(matches!(
        step,
        OpenStep::Failed(text) if text == "decrypt failed (wrong passphrase or corrupt data)"
    ));
    assert_eq!(opener.wanted(), 0);

    let mut opener = opener_before_ciphertext(3);
    let step = opener.answer(3, Some(b"abc".to_vec()));
    assert!(matches!(step, OpenStep::Plain(bytes) if bytes == b"abc"));
    assert_eq!(opener.advance(), Ok(()));
    assert_eq!(opener.wanted(), 1);

    let mut opener = opener_before_ciphertext(0);
    let step = opener.answer(0, Some(Vec::new()));
    assert!(matches!(step, OpenStep::More));
    let step = opener.feed(ReadEvent::Ended("end".to_string()));
    assert!(matches!(step, OpenStep::Finished));
}

#[test]
fn prepared_sealers_match_their_header() {
    let passphrase = b"test-passphrase";
    let (head, mut sealer) = prepare(passphrase, 8_192, 1, 1, false, [5u8; 16]).expect("prepare");
    assert_eq!(head.salt, [5u8; 16]);
    let marker = bytes_of(&sealer.feed(&nonce(), b"").expect("seal").0);
    let mut out = Vec::new();
    assert_eq!(decrypt_stream(&marker, &mut out, passphrase, &head), Ok(()));

    let (a, _) = prepare_with_random_salt(passphrase, 8_192, 1, 1, false).expect("prepare");
    let (b, _) = prepare_with_random_salt(passphrase, 8_192, 1, 1, false).expect("prepare");
    assert_ne!(a.salt, b.salt);
    assert_eq!(
        prepare_with_random_salt(b"shortpass", 1, 1, 1, false).err(),
        Some("passphrase too weak: need at least 12 bytes".to_string())
    );
    assert_eq!(
        prepare(passphrase, 1, 1, 1, false, [0u8; 16]).err(),
        Some("invalid Argon2 memory cost: must be between 8192 and 262144 KiB".to_string())
    );
}

#[test]
fn associated_data_ends_in_the_index() {
    assert_eq!(chunk_aad_bytes(&vec![7, 8], 258), vec![7, 8, 2, 1, 0, 0, 0, 0, 0, 0]);
    assert_eq!(nonce_array(&nonce().to_vec()), nonce());
    let list = list_record(1, &nonce(), 0, vec![42]);
    assert_eq!(list[3].bytes, vec![42]);
}

#[test]
fn failures_name_what_was_tried() {
    assert_eq!(failure_text("write salt", "disk full"), "write salt: disk full");
    assert!(matches!(read_bytes(b"abc", 1, 2), ReadEvent::Bytes(b) if b == b"bc"));
    assert!(matches!(
        read_bytes(b"abc", 1, 3),
        ReadEvent::Ended(text) if text == "failed to fill whole buffer"
    ));
}
