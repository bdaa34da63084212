use kernel::sha256::{hex_digest, sha256, Sha256};

fn hex(digest: &[u8; 32]) -> String {
    let mut buf = [0u8; 64];
    hex_digest(digest, &mut buf);
    String::from_utf8(buf.to_vec()).unwrap()
}

#[test]
fn sha256_of_abc() {
    assert_eq!(
        hex(&sha256(b"abc")),
        "ba7816bf8f01cfea414140de5dae2223b00361a396177a9cb410ff61f20015ad"
    );
}

#[test]
fn sha256_of_empty_input() {
    assert_eq!(
        hex(&sha256(b"")),
        "e3b0c44298fc1c149afbf4c8996fb92427ae41e4649b934ca495991b7852b855"
    );
}

#[test]
fn sha256_two_block_message() {
    assert_eq!(
        hex(&sha256(b"abcdbcdecdefdefgefghfghighijhijkijkljklmklmnlmnomnopnopq")),
        "248d6a61d20638b8e5c026930c3e6039a33ce45964ff2167f6ecedd419db06c1"
    );
}

#[test]
fn sha256_incremental_matches_one_shot() {
    let data: Vec<u8> = (0u32..300).map(|i| (i * 7 + 3) as u8).collect();
    let mut hasher = Sha256::new();
    hasher.update(&data[..1]);
    hasher.update(&data[1..70]);
    hasher.update(&data[70..200]);
    hasher.update(&data[200..]);
    assert_eq!(hasher.finalize(), sha256(&data));
}
