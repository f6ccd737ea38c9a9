use aes::cipher::{BlockEncrypt, KeyInit};
use rar::blocks::{ArchiveBlock, EncryptionParams, FileBlock, SignatureBlock};
use rar::error::{ExtractError, HeaderKind};
use rar::extractor::{extract, DecryptionFilter, BUFFER_SIZE};
use rar::pipeline::extract_volumes;
use rar::stream::{ByteSource, Chain, SubStream};
use rar::volume::{continue_data_next_file, decimal_digits, next_volume_name, ParsedVolume};
use rar::writer::{BoundedWriter, WriteStatus};

fn block(name: &str, data_next: bool, data_area_size: u64, unpacked_size: u64) -> FileBlock {
    FileBlock {
        name: name.to_string(),
        data_next,
        data_area_size,
        unpacked_size,
        encryption: None,
    }
}

fn encryption() -> Option<EncryptionParams> {
    Some(EncryptionParams { kdf_count: 15, salt: vec![1; 16], iv: vec![2; 16] })
}

fn pattern(n: usize, seed: u8) -> Vec<u8> {
    (0..n).map(|i| (i as u8).wrapping_mul(13).wrapping_add(seed)).collect()
}

fn volume(number: u64, file: FileBlock, data: Vec<u8>) -> ParsedVolume {
    ParsedVolume {
        signature: Some(SignatureBlock::Rar5),
        archive: Some(ArchiveBlock { volume_number: number }),
        file: Some(file),
        data: ByteSource::new(data),
    }
}

fn single_chain(data: Vec<u8>) -> Chain {
    Chain::single(SubStream::whole(ByteSource::new(data)))
}

#[test]
fn writer_exact_size_then_capacity_reached() {
    let mut w = BoundedWriter::new(10);
    assert_eq!(w.write(&[1, 2, 3, 4]), WriteStatus::Written);
    assert_eq!(w.write(&[5, 6, 7, 8, 9, 10]), WriteStatus::Written);
    assert_eq!(w.written(), 10);
    assert_eq!(w.write(&[11]), WriteStatus::CapacityReached);
    assert_eq!(w.finish(), vec![1, 2, 3, 4, 5, 6, 7, 8, 9, 10]);
}

#[test]
fn writer_overlong_chunk_is_cut() {
    let mut w = BoundedWriter::new(3);
    assert_eq!(w.write(&[1, 2, 3, 4, 5]), WriteStatus::CapacityReached);
    assert_eq!(w.finish(), vec![1, 2, 3]);
}

#[test]
fn writer_short_of_expected_is_a_valid_truncated_output() {
    let mut w = BoundedWriter::new(100);
    assert_eq!(w.write(&[7, 7]), WriteStatus::Written);
    assert_eq!(w.finish(), vec![7, 7]);
}

#[test]
fn writer_empty_chunk_on_full_target_is_written() {
    let mut w = BoundedWriter::new(0);
    assert_eq!(w.write(&[]), WriteStatus::Written);
    assert_eq!(w.write(&[1]), WriteStatus::CapacityReached);
}

#[test]
fn filter_without_encryption_passes_bytes_through() {
    let data: Vec<u8> = (0..=255u8).collect();
    let file = block("a.txt", false, 256, 256);
    let mut f = DecryptionFilter::new(single_chain(data.clone()), 1000, &file, None).unwrap();
    let mut out = Vec::new();
    loop {
        let got = f.read(100);
        if got.is_empty() {
            break;
        }
        out.extend_from_slice(&got);
    }
    assert_eq!(out, data);
}

#[test]
fn filter_encrypted_without_password_fails() {
    let mut file = block("a.txt", false, 4, 4);
    file.encryption = encryption();
    let r = DecryptionFilter::new(single_chain(vec![1, 2, 3, 4]), 4, &file, None);
    assert_eq!(r.err(), Some(ExtractError::MissingPassword));
}

#[test]
fn filter_encrypted_with_unusable_parameters() {
    let mut file = block("a.txt", false, 4, 4);
    file.encryption = Some(EncryptionParams { kdf_count: 1, salt: vec![1; 16], iv: vec![2; 8] });
    let r = DecryptionFilter::new(single_chain(vec![1, 2, 3, 4]), 4, &file, Some("pw"));
    assert_eq!(r.err(), Some(ExtractError::UnsupportedEncryption));
    file.encryption = Some(EncryptionParams { kdf_count: 25, salt: vec![1; 16], iv: vec![2; 16] });
    let r = DecryptionFilter::new(single_chain(vec![1, 2, 3, 4]), 4, &file, Some("pw"));
    assert_eq!(r.err(), Some(ExtractError::UnsupportedEncryption));
}

fn encrypt(password: &str, params: &EncryptionParams, plain: &[u8]) -> Vec<u8> {
    let key = pbkdf2::pbkdf2_hmac_array::<sha2::Sha256, 32>(
        password.as_bytes(),
        &params.salt,
        1u32 << params.kdf_count,
    );
    let cipher = aes::Aes256::new_from_slice(&key).unwrap();
    let mut prev = params.iv.clone();
    let mut out = Vec::new();
    for chunk in plain.chunks(16) {
        let mut block = [0u8; 16];
        block[..chunk.len()].copy_from_slice(chunk);
        for i in 0..16 {
            block[i] ^= prev[i];
        }
        let mut b = aes::cipher::generic_array::GenericArray::clone_from_slice(&block);
        cipher.encrypt_block(&mut b);
        prev = b.to_vec();
        out.extend_from_slice(&b);
    }
    out
}

fn params() -> EncryptionParams {
    EncryptionParams { kdf_count: 3, salt: (0..16).collect(), iv: (100..116).collect() }
}

#[test]
fn filter_decrypts_with_password() {
    let plain = pattern(160, 21);
    let ct = encrypt("secret", &params(), &plain);
    assert_ne!(ct, plain);
    let mut file = block("s.bin", false, 160, 160);
    file.encryption = Some(params());
    for chunk in [1usize, 5, 15, 16, 17, 40, 100, 4096] {
        let mut f =
            DecryptionFilter::new(single_chain(ct.clone()), 160, &file, Some("secret")).unwrap();
        let mut out = Vec::new();
        loop {
            let got = f.read(chunk);
            if got.is_empty() {
                break;
            }
            assert!(got.len() <= chunk);
            out.extend_from_slice(&got);
        }
        assert_eq!(out, plain);
    }
}

#[test]
fn filter_wrong_password_gives_other_bytes() {
    let plain = pattern(64, 22);
    let ct = encrypt("secret", &params(), &plain);
    let mut file = block("s.bin", false, 64, 64);
    file.encryption = Some(params());
    let mut f = DecryptionFilter::new(single_chain(ct), 64, &file, Some("guess")).unwrap();
    let out = f.read(64);
    assert_eq!(out.len(), 64);
    assert_ne!(out, plain);
}

#[test]
fn extract_encrypted_file_cut_at_unpacked_size() {
    let plain = pattern(100, 23);
    let ct = encrypt("pw", &params(), &plain);
    assert_eq!(ct.len(), 112);
    let mut file = block("s.bin", false, 112, 100);
    file.encryption = Some(params());
    let mut reader = single_chain(ct);
    let out = extract(&file, &mut reader, 112, Some("pw")).unwrap();
    assert_eq!(out, plain);
}

#[test]
fn encrypted_file_over_two_volumes() {
    let plain = pattern(480, 24);
    let ct = encrypt("pw", &params(), &plain);
    let mut first = block("enc", true, 320, 480);
    first.encryption = Some(params());
    let mut second_block = block("enc", false, 160, 480);
    second_block.encryption = Some(params());
    let mut first_data = ct[..320].to_vec();
    first_data.extend_from_slice(&[0x55; 16]);
    let second = volume(1, second_block, ct[320..].to_vec());
    let out = extract_volumes(first, ByteSource::new(first_data), 1, vec![second], Some("pw"))
        .unwrap();
    assert_eq!(out, plain);
}

#[test]
fn decimal_digits_of_numbers() {
    assert_eq!(decimal_digits(0), b"0".to_vec());
    assert_eq!(decimal_digits(7), b"7".to_vec());
    assert_eq!(decimal_digits(1234), b"1234".to_vec());
    assert_eq!(decimal_digits(u64::MAX), u64::MAX.to_string().into_bytes());
}

#[test]
fn next_volume_name_replaces_suffix() {
    assert_eq!(next_volume_name("movie.part1.rar", 1).unwrap(), b"movie.part2.rar".to_vec());
    assert_eq!(next_volume_name("1.rar", 1).unwrap(), b"2.rar".to_vec());
    assert_eq!(next_volume_name("x.part9.rar", 9).unwrap(), b"x.part10.rar".to_vec());
}

#[test]
fn next_volume_name_refuses_short_names() {
    assert_eq!(next_volume_name("a.rr", 1), Err(ExtractError::BadVolumeName));
    assert_eq!(next_volume_name("", 1), Err(ExtractError::BadVolumeName));
}

#[test]
fn next_volume_name_refuses_a_cut_inside_a_character() {
    assert_eq!(next_volume_name("\u{e9}1.rar", 1).unwrap(), "\u{e9}2.rar".as_bytes().to_vec());
    assert_eq!(next_volume_name("a\u{e9}.rar", 1), Err(ExtractError::BadVolumeName));
}

fn continue_with(next: ParsedVolume) -> (Result<Chain, ExtractError>, FileBlock, usize, u64) {
    let mut file = block("report", true, 4, 8);
    let mut number: usize = 2;
    let mut size: u64 = 4;
    let chain = single_chain(vec![1, 2, 3, 4]);
    let r = continue_data_next_file(chain, &mut file, &mut number, &mut size, next);
    (r, file, number, size)
}

#[test]
fn continuation_chains_and_updates_state() {
    let next = volume(2, block("report", false, 4, 8), vec![5, 6, 7, 8]);
    let (r, file, number, size) = continue_with(next);
    let mut chain = r.unwrap();
    assert_eq!(chain.read_to_end(3), vec![1, 2, 3, 4, 5, 6, 7, 8]);
    assert_eq!(number, 3);
    assert_eq!(size, 8);
    assert!(!file.data_next);
}

#[test]
fn continuation_rebounds_when_data_goes_on() {
    let next = volume(2, block("report", true, 2, 8), vec![5, 6, 70, 80]);
    let (r, _, _, size) = continue_with(next);
    assert_eq!(r.unwrap().read_to_end(100), vec![1, 2, 3, 4, 5, 6]);
    assert_eq!(size, 6);
}

#[test]
fn continuation_sequence_mismatch() {
    let next = volume(3, block("report", false, 4, 8), vec![5, 6, 7, 8]);
    let (r, file, number, size) = continue_with(next);
    assert_eq!(r.err(), Some(ExtractError::SequenceMismatch));
    assert_eq!((number, size, file.data_area_size), (2, 4, 4));
    assert!(file.data_next);
}

#[test]
fn continuation_identity_mismatch() {
    let next = volume(2, block("other", false, 4, 8), vec![5, 6, 7, 8]);
    assert_eq!(continue_with(next).0.err(), Some(ExtractError::IdentityMismatch));
}

#[test]
fn continuation_version_mismatch() {
    let mut next = volume(2, block("report", false, 4, 8), vec![5, 6, 7, 8]);
    next.signature = Some(SignatureBlock::Rar4);
    assert_eq!(continue_with(next).0.err(), Some(ExtractError::VersionMismatch));
}

#[test]
fn continuation_format_errors_name_the_header() {
    let mut next = volume(2, block("report", false, 4, 8), vec![]);
    next.signature = None;
    assert_eq!(continue_with(next).0.err(), Some(ExtractError::Format(HeaderKind::Signature)));
    let mut next = volume(2, block("report", false, 4, 8), vec![]);
    next.archive = None;
    assert_eq!(continue_with(next).0.err(), Some(ExtractError::Format(HeaderKind::Archive)));
    let mut next = volume(2, block("report", false, 4, 8), vec![]);
    next.file = None;
    assert_eq!(continue_with(next).0.err(), Some(ExtractError::Format(HeaderKind::File)));
}

#[test]
fn continuation_size_overflow() {
    let next = volume(2, block("report", false, u64::MAX, 8), vec![]);
    assert_eq!(continue_with(next).0.err(), Some(ExtractError::SizeOverflow));
}

#[test]
fn extract_stops_at_data_area_size() {
    let data = pattern(BUFFER_SIZE * 2 + 17, 3);
    let file = block("f", false, 20000, 100000);
    let mut reader = single_chain(data.clone());
    let out = extract(&file, &mut reader, 10000, None).unwrap();
    assert_eq!(out, data[..10000].to_vec());
}

#[test]
fn extract_stops_at_expected_size() {
    let data = pattern(5000, 4);
    let file = block("f", false, 5000, 1234);
    let mut reader = single_chain(data.clone());
    let out = extract(&file, &mut reader, 5000, None).unwrap();
    assert_eq!(out, data[..1234].to_vec());
}

#[test]
fn extract_stops_at_end_of_stream() {
    let data = pattern(300, 5);
    let file = block("f", false, 1000, 1000);
    let mut reader = single_chain(data.clone());
    assert_eq!(extract(&file, &mut reader, 1000, None).unwrap(), data);
}

#[test]
fn extract_encrypted_without_password() {
    let mut file = block("f", false, 3, 3);
    file.encryption = encryption();
    let mut reader = single_chain(vec![1, 2, 3]);
    assert_eq!(extract(&file, &mut reader, 3, None), Err(ExtractError::MissingPassword));
}

#[test]
fn report_over_two_volumes() {
    let v1 = pattern(1000, 11);
    let v2 = pattern(500, 77);
    let first = block("report", true, 1000, 1500);
    let mut trailing = v1.clone();
    trailing.extend_from_slice(&[0xEE; 64]);
    let mut v2_data = v2.clone();
    v2_data.extend_from_slice(&[0xDD; 32]);
    let second = volume(2, block("report", false, 500, 1500), v2_data);
    let out = extract_volumes(first, ByteSource::new(trailing), 2, vec![second], None).unwrap();
    let mut expected = v1.clone();
    expected.extend_from_slice(&v2);
    assert_eq!(out.len(), 1500);
    assert_eq!(out, expected);
}

#[test]
fn report_second_volume_out_of_sequence() {
    let first = block("report", true, 1000, 1500);
    let second = volume(3, block("report", false, 500, 1500), pattern(500, 77));
    let r = extract_volumes(first, ByteSource::new(pattern(1000, 11)), 2, vec![second], None);
    assert_eq!(r, Err(ExtractError::SequenceMismatch));
}

#[test]
fn report_by_hand_over_two_volumes() {
    let v1 = pattern(1000, 11);
    let v2 = pattern(500, 77);
    let mut file = block("report", true, 1000, 1500);
    let mut number: usize = 2;
    let mut size: u64 = 1000;
    let chain = Chain::single(SubStream::new(ByteSource::new(v1.clone()), 1000));
    let second = volume(2, block("report", false, 500, 1500), v2.clone());
    let mut chain =
        continue_data_next_file(chain, &mut file, &mut number, &mut size, second).unwrap();
    assert_eq!(size, 1500);
    let out = extract(&file, &mut chain, size, None).unwrap();
    let mut expected = v1;
    expected.extend_from_slice(&v2);
    assert_eq!(out, expected);
}

#[test]
fn many_volumes_concatenate_in_order() {
    let parts: Vec<Vec<u8>> = (0..5).map(|i| pattern(300 + 50 * i, i as u8 * 40)).collect();
    let total: u64 = parts.iter().map(|p| p.len() as u64).sum();
    let first = block("big", true, parts[0].len() as u64, total - 100);
    let mut rest = Vec::new();
    for (i, p) in parts.iter().enumerate().skip(1) {
        let mut d = p.clone();
        d.extend_from_slice(&[0xAB; 10]);
        rest.push(volume(i as u64, block("big", i < 4, p.len() as u64, total - 100), d));
    }
    let mut first_data = parts[0].clone();
    first_data.extend_from_slice(&[0xCD; 10]);
    let out = extract_volumes(first, ByteSource::new(first_data), 1, rest, None).unwrap();
    let all: Vec<u8> = parts.concat();
    assert_eq!(out, all[..(total - 100) as usize].to_vec());
}

#[test]
fn single_volume_file() {
    let data = pattern(700, 9);
    let first = block("one", false, 700, 700);
    let out = extract_volumes(first, ByteSource::new(data.clone()), 1, vec![], None).unwrap();
    assert_eq!(out, data);
}

#[test]
fn missing_next_volume() {
    let first = block("report", true, 10, 20);
    let r = extract_volumes(first, ByteSource::new(pattern(10, 1)), 2, vec![], None);
    assert_eq!(r, Err(ExtractError::NotFound));
}
