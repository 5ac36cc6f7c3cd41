use valv::crypto::{
    decrypt_header, derive_key, encode_header, new_header, CipherState, DecryptError, HeaderFormat,
    DEFAULT_ITERATIONS, MAX_HEADER_LEN, V1_ITERATIONS, VALV_V2,
};

fn metadata_for(name: &str) -> String {
    format!("{{\"originalName\":{}}}", serde_json::to_string(name).unwrap())
}

fn name_in(metadata: &str) -> String {
    let v: serde_json::Value = serde_json::from_str(metadata).unwrap();
    v.get("originalName").unwrap().as_str().unwrap().to_string()
}

fn encrypt(payload: &[u8], password: &[u8], name: &str, iterations: u32) -> Vec<u8> {
    let (mut out, mut cipher) = new_header(password, &metadata_for(name), iterations);
    let mut body = payload.to_vec();
    cipher.apply_keystream(&mut body);
    out.extend_from_slice(&body);
    out
}

#[test]
fn test_v2_encrypt_decrypt_roundtrip() {
    let password = b"TestPassphrase123!";
    let original_name = "vacation_photo.jpg";
    let payload = b"Simulated JPEG raw image content binary data \x00\xff\xfe\x01\x02";

    let encrypted = encrypt(payload, password, original_name, 1000);

    assert!(encrypted.len() > payload.len());
    assert_eq!(&encrypted[..4], &VALV_V2.to_be_bytes());

    let mut header = decrypt_header(&encrypted, password, false).expect("Decryption header failed");
    assert_eq!(header.format, HeaderFormat::V2);
    assert_eq!(name_in(&header.text), original_name);

    let mut decrypted_payload = encrypted[header.header_len..].to_vec();
    header.cipher.apply_keystream(&mut decrypted_payload);
    assert_eq!(decrypted_payload, payload);
}

#[test]
fn test_v2_wrong_password() {
    let password = b"CorrectPassword";
    let wrong_password = b"WrongPassword";
    let original_name = "secret.txt";
    let payload = b"Top secret contents";

    let encrypted = encrypt(payload, password, original_name, 1000);

    let res = decrypt_header(&encrypted, wrong_password, false);
    assert!(matches!(res, Err(DecryptError::InvalidPassword)));
}

#[test]
fn header_layout() {
    let salt = [7u8; 16];
    let nonce = [9u8; 12];
    let check = [1u8; 12];
    let metadata = "{\"originalName\":\"a\"}";
    let (out, cipher) = encode_header(&salt, &nonce, &check, 0x00000104, b"pw", metadata);
    assert_eq!(out.len(), 48 + 12 + metadata.len() + 2);
    assert_eq!(&out[..4], &[0, 0, 0, 2]);
    assert_eq!(&out[4..20], &salt);
    assert_eq!(&out[20..32], &nonce);
    assert_eq!(&out[32..36], &[0, 0, 1, 4]);
    assert_eq!(&out[36..48], &check);
    assert_ne!(&out[48..60], &check);
    assert_eq!(cipher.position(), (12 + metadata.len() + 2) as u64);
    let h = decrypt_header(&out, b"pw", false).unwrap();
    assert_eq!(h.text, metadata);
    assert_eq!(h.header_len, out.len());
    assert_eq!(h.cipher.position(), cipher.position());
}

#[test]
fn payload_decrypts_in_any_chunks() {
    let password = b"chunky";
    let payload: Vec<u8> = (0..5000u32).map(|i| (i * 7 % 251) as u8).collect();
    let encrypted = encrypt(&payload, password, "big.bin", 10);
    let h = decrypt_header(&encrypted, password, false).unwrap();
    let mut cipher = h.cipher;
    let mut plain = Vec::new();
    for chunk in encrypted[h.header_len..].chunks(333) {
        let mut c = chunk.to_vec();
        cipher.apply_keystream(&mut c);
        plain.extend_from_slice(&c);
    }
    assert_eq!(plain, payload);
}

#[test]
fn truncated_headers_are_io_errors() {
    let encrypted = encrypt(b"x", b"pw", "n.txt", 5);
    let h = decrypt_header(&encrypted, b"pw", false).unwrap();
    for cut in [0usize, 3, 4, 47, 59, 60, 61, h.header_len - 1] {
        let res = decrypt_header(&encrypted[..cut], b"pw", false);
        assert!(matches!(res, Err(DecryptError::Io(_))), "cut at {}", cut);
        if let Err(DecryptError::Io(e)) = res {
            assert_eq!(e.kind(), std::io::ErrorKind::UnexpectedEof);
        }
    }
    assert!(decrypt_header(&encrypted[..h.header_len], b"pw", false).is_ok());
}

/// Builds a header whose encrypted part holds `line` (the `\n` that opens it included).
fn v2_with_line(password: &[u8], line: &[u8]) -> Vec<u8> {
    let salt = [3u8; 16];
    let nonce = [4u8; 12];
    let check = [5u8; 12];
    let iterations = 3u32;
    let key = derive_key(password, &salt, iterations);
    let mut out = Vec::new();
    out.extend_from_slice(&2u32.to_be_bytes());
    out.extend_from_slice(&salt);
    out.extend_from_slice(&nonce);
    out.extend_from_slice(&iterations.to_be_bytes());
    out.extend_from_slice(&check);
    let mut cipher = CipherState::new(key, nonce);
    let mut sealed = check.to_vec();
    cipher.apply_keystream(&mut sealed);
    out.extend_from_slice(&sealed);
    let mut rest = line.to_vec();
    cipher.apply_keystream(&mut rest);
    out.extend_from_slice(&rest);
    out
}

#[test]
fn corrupt_headers() {
    let pw = b"pw";
    let res = decrypt_header(&v2_with_line(pw, b"X{}\n"), pw, false);
    assert!(matches!(res, Err(DecryptError::CorruptHeader("Missing initial newline"))));

    let mut long = vec![b'\n'];
    long.extend(std::iter::repeat(b'a').take(4097));
    long.push(b'\n');
    let res = decrypt_header(&v2_with_line(pw, &long), pw, false);
    assert!(matches!(res, Err(DecryptError::CorruptHeader("Metadata exceeds 4KB"))));

    let mut longest = vec![b'\n'];
    longest.extend(std::iter::repeat(b'a').take(4096));
    longest.push(b'\n');
    let encoded = v2_with_line(pw, &longest);
    assert_eq!(encoded.len(), MAX_HEADER_LEN);
    let h = decrypt_header(&encoded, pw, false).unwrap();
    assert_eq!(h.text.len(), 4096);

    let res = decrypt_header(&v2_with_line(pw, b"\n\xff\xfe\n"), pw, false);
    assert!(matches!(res, Err(DecryptError::CorruptHeader("Invalid UTF-8 in metadata"))));
}

/// A legacy v1 file: salt, nonce, then `\n name \n` and the payload under a
/// key derived with 20000 rounds.
fn v1_file(password: &[u8], name: &[u8], payload: &[u8]) -> Vec<u8> {
    let salt = [0x11u8; 16];
    let nonce = [0x22u8; 12];
    let key = derive_key(password, &salt, V1_ITERATIONS);
    let mut out = Vec::new();
    out.extend_from_slice(&salt);
    out.extend_from_slice(&nonce);
    let mut rest = vec![b'\n'];
    rest.extend_from_slice(name);
    rest.push(b'\n');
    rest.extend_from_slice(payload);
    let mut cipher = CipherState::new(key, nonce);
    cipher.apply_keystream(&mut rest);
    out.extend_from_slice(&rest);
    out
}

#[test]
fn v1_files() {
    let file = v1_file(b"old", b"old_photo.jpg", b"legacy payload");
    let h = decrypt_header(&file, b"old", false).unwrap();
    assert_eq!(h.format, HeaderFormat::V1);
    assert_eq!(h.text, "old_photo.jpg");
    let mut body = file[h.header_len..].to_vec();
    let mut cipher = h.cipher;
    cipher.apply_keystream(&mut body);
    assert_eq!(body, b"legacy payload");

    let res = decrypt_header(&file, b"new", false);
    assert!(matches!(res, Err(DecryptError::InvalidPassword)));

    let long_name = vec![b'n'; 1025];
    let res = decrypt_header(&v1_file(b"old", &long_name, b""), b"old", false);
    assert!(matches!(res, Err(DecryptError::InvalidPassword)));
    let res = decrypt_header(&v1_file(b"old", b"\xff", b""), b"old", false);
    assert!(matches!(res, Err(DecryptError::InvalidPassword)));
}

#[test]
fn v1_hint_overrides_version() {
    let encrypted = encrypt(b"data", b"pw", "n", 4);
    let res = decrypt_header(&encrypted, b"pw", true);
    assert!(res.is_err());
}

#[test]
fn pbkdf2_sha512_known_value() {
    let key = derive_key(b"password", b"salt", 1);
    let expected: [u8; 32] = [
        0x86, 0x7f, 0x70, 0xcf, 0x1a, 0xde, 0x02, 0xcf, 0xf3, 0x75, 0x25, 0x99, 0xa3, 0xa5, 0x3d,
        0xc4, 0xaf, 0x34, 0xc7, 0xa6, 0x69, 0x81, 0x5a, 0xe5, 0xd5, 0x13, 0x55, 0x4e, 0x1c, 0x8c,
        0xf2, 0x52,
    ];
    assert_eq!(key, expected);
    assert_eq!(DEFAULT_ITERATIONS, 50_000);
}

#[test]
fn chacha20_keystream_known_value() {
    // RFC 8439, section 2.4.2: block counter 1, i.e. keystream position 64.
    let mut key = [0u8; 32];
    for (i, k) in key.iter_mut().enumerate() {
        *k = i as u8;
    }
    let nonce = [0, 0, 0, 0, 0, 0, 0, 0x4a, 0, 0, 0, 0];
    let mut cipher = CipherState::new(key, nonce);
    let mut skip = [0u8; 64];
    cipher.apply_keystream(&mut skip);
    let mut text = b"Ladies and Gentlemen of the class of '99".to_vec();
    cipher.apply_keystream(&mut text);
    assert_eq!(&text[..8], &[0x6e, 0x2e, 0x35, 0x9a, 0x25, 0x68, 0xf9, 0x80]);
    assert_eq!(cipher.position(), 64 + 40);
    assert_eq!(cipher.remaining(), 274877906880 - 104);
}

#[test]
fn error_messages() {
    assert_eq!(DecryptError::InvalidPassword.message(), "Invalid password");
    assert_eq!(
        DecryptError::CorruptHeader("Missing initial newline").message(),
        "Corrupt file header: Missing initial newline"
    );
    let io = DecryptError::from(std::io::Error::new(std::io::ErrorKind::Other, "disk"));
    assert_eq!(io.message(), "I/O error: disk");
}

#[test]
fn fresh_headers_differ() {
    let (a, ca) = new_header(b"pw", "{}", 2);
    let (b, cb) = new_header(b"pw", "{}", 2);
    assert_eq!(a.len(), b.len());
    assert_ne!(&a[4..48], &b[4..48]);
    assert_eq!(ca.position(), cb.position());
    assert_eq!(ca.position(), 12 + 2 + 2);
}

#[test]
fn header_needs_no_more_than_max_len() {
    let payload = vec![0xabu8; 10_000];
    let encrypted = encrypt(&payload, b"pw", "long.bin", 3);
    let full = decrypt_header(&encrypted, b"pw", false).unwrap();
    let cut = decrypt_header(&encrypted[..MAX_HEADER_LEN], b"pw", false).unwrap();
    assert_eq!(full.text, cut.text);
    assert_eq!(full.header_len, cut.header_len);
    assert_eq!(full.cipher.position(), cut.cipher.position());
}

#[test]
fn whole_file_reads_back_whatever_the_chunks() {
    let password = b"both sides";
    let name = "notes\nwith newline.txt";
    let metadata = metadata_for(name);
    let payload: Vec<u8> = (0..10_000u32).map(|i| (i * 31 % 256) as u8).collect();
    let (mut file, mut cipher) = new_header(password, &metadata, 7);
    assert_eq!(file.len(), 62 + metadata.len());
    for chunk in payload.chunks(4096) {
        let mut c = chunk.to_vec();
        cipher.apply_keystream(&mut c);
        file.extend_from_slice(&c);
    }
    let h = decrypt_header(&file, password, false).unwrap();
    assert_eq!(h.header_len, 62 + metadata.len());
    assert_eq!(name_in(&h.text), name);
    let mut reader = h.cipher;
    let mut plain = Vec::new();
    let mut rest = &file[h.header_len..];
    let mut size = 1;
    while !rest.is_empty() {
        let take = size.min(rest.len());
        let mut c = rest[..take].to_vec();
        reader.apply_keystream(&mut c);
        plain.extend_from_slice(&c);
        rest = &rest[take..];
        size = size * 3 + 1;
    }
    assert_eq!(plain, payload);
}
