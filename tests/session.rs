use aes::cipher::{BlockEncrypt, KeyInit};
use rar::blocks::{ArchiveBlock, EncryptionParams, FileBlock, SignatureBlock};
use rar::error::ExtractError;
use rar::extractor::extract;
use rar::session::Session;
use rar::stream::{ByteSource, Chain, SubStream};
use rar::volume::accept_next_volume;
use std::io::{Cursor, Read};

fn block(name: &str, data_next: bool, data_area_size: u64, unpacked_size: u64) -> FileBlock {
    FileBlock { name: name.to_string(), data_next, data_area_size, unpacked_size, encryption: None }
}

fn pattern(n: usize, seed: u8) -> Vec<u8> {
    (0..n).map(|i| (i as u8).wrapping_mul(31).wrapping_add(seed)).collect()
}

/// Runs a session over in-memory volumes, reading at most `chunk` bytes at a time.
fn drive(session: &mut Session, volumes: Vec<Vec<u8>>, chunk: usize) -> Vec<u8> {
    let mut readers: Vec<Cursor<Vec<u8>>> = volumes.into_iter().map(Cursor::new).collect();
    let mut out = Vec::new();
    let mut buf = vec![0u8; 1 << 16];
    while let Some((part, max)) = session.next_read() {
        let want = max.min(chunk);
        let n = readers[part].read(&mut buf[..want]).unwrap();
        out.extend_from_slice(&session.on_read(&buf[..n]));
    }
    out
}

#[test]
fn session_streams_report_over_two_volumes() {
    let v1 = pattern(1000, 3);
    let v2 = pattern(500, 9);
    let mut file = block("report", true, 1000, 1500);
    let mut number: usize = 2;
    let mut size: u64 = 1000;
    let bound = accept_next_volume(
        &mut file,
        &mut number,
        &mut size,
        Some(SignatureBlock::Rar5),
        Some(ArchiveBlock { volume_number: 2 }),
        Some(block("report", false, 500, 1500)),
    )
    .unwrap();
    assert_eq!(bound, None);
    assert_eq!((number, size), (3, 1500));
    let mut first = v1.clone();
    first.extend_from_slice(&[0xEE; 40]);
    let mut second = v2.clone();
    second.extend_from_slice(&[0xDD; 40]);
    for chunk in [1usize, 7, 512, 8192] {
        let mut s = Session::new(&file, size, Some(1000), None).unwrap();
        s.push_part(bound);
        let out = drive(&mut s, vec![first.clone(), second.clone()], chunk);
        assert_eq!(out.len(), 1500);
        assert_eq!(out[..1000].to_vec(), v1);
        assert_eq!(out[1000..].to_vec(), v2);
    }
}

#[test]
fn accept_next_volume_out_of_sequence() {
    let mut file = block("report", true, 1000, 1500);
    let mut number: usize = 2;
    let mut size: u64 = 1000;
    let r = accept_next_volume(
        &mut file,
        &mut number,
        &mut size,
        Some(SignatureBlock::Rar5),
        Some(ArchiveBlock { volume_number: 3 }),
        Some(block("report", false, 500, 1500)),
    );
    assert_eq!(r, Err(ExtractError::SequenceMismatch));
    assert_eq!((number, size, file.data_area_size), (2, 1000, 1000));
}

#[test]
fn session_stops_at_capacity() {
    let data = pattern(300, 4);
    let file = block("f", false, 300, 120);
    let mut s = Session::new(&file, 300, None, None).unwrap();
    assert_eq!(drive(&mut s, vec![data.clone()], 50), data[..120].to_vec());
}

#[test]
fn session_missing_password_before_any_read() {
    let mut file = block("f", false, 32, 32);
    file.encryption = Some(EncryptionParams { kdf_count: 2, salt: vec![0; 16], iv: vec![0; 16] });
    assert_eq!(Session::new(&file, 32, None, None).err(), Some(ExtractError::MissingPassword));
}

fn encrypt(password: &str, p: &EncryptionParams, plain: &[u8]) -> Vec<u8> {
    let key = pbkdf2::pbkdf2_hmac_array::<sha2::Sha256, 32>(password.as_bytes(), &p.salt, 1u32 << p.kdf_count);
    let cipher = aes::Aes256::new_from_slice(&key).unwrap();
    let mut prev = p.iv.clone();
    let mut out = Vec::new();
    for chunk in plain.chunks(16) {
        let mut block = [0u8; 16];
        block[..chunk.len()].copy_from_slice(chunk);
        for i in 0..16 {
            block[i] ^= prev[i];
        }
        let mut b = aes::cipher::generic_array::GenericArray::clone_from_slice(&block);
        cipher.encrypt_block(&mut b);
        prev = b.to_vec();
        out.extend_from_slice(&b);
    }
    out
}

#[test]
fn session_decrypts_with_any_chunk_size() {
    let p = EncryptionParams { kdf_count: 2, salt: (7..23).collect(), iv: (50..66).collect() };
    let plain = pattern(200, 5);
    let ct = encrypt("pw", &p, &plain);
    let mut file = block("e", false, ct.len() as u64, 200);
    file.encryption = Some(p);
    for chunk in [1usize, 5, 16, 33, 4096] {
        let mut s = Session::new(&file, ct.len() as u64, None, Some("pw")).unwrap();
        assert_eq!(drive(&mut s, vec![ct.clone()], chunk), plain);
    }
}

#[test]
fn extract_leaves_reader_past_the_region() {
    let data = pattern(100, 6);
    let file = block("f", false, 60, 60);
    let mut reader = Chain::single(SubStream::whole(ByteSource::new(data.clone())));
    assert_eq!(extract(&file, &mut reader, 60, None).unwrap(), data[..60].to_vec());
    assert_eq!(reader.read_to_end(100), data[60..].to_vec());
}

#[test]
fn extract_missing_password_leaves_reader() {
    let data = pattern(40, 7);
    let mut file = block("f", false, 40, 40);
    file.encryption = Some(EncryptionParams { kdf_count: 1, salt: vec![0; 16], iv: vec![0; 16] });
    let mut reader = Chain::single(SubStream::whole(ByteSource::new(data.clone())));
    assert_eq!(extract(&file, &mut reader, 40, None), Err(ExtractError::MissingPassword));
    assert_eq!(reader.read_to_end(100), data);
}
