use statekit::encryption::aesgcm::Secure;

const KEY: &[u8; 32] = b"0123456789abcdef0123456789abcdef";
const OTHER_KEY: &[u8; 32] = b"0123456789abcdef0123456789abcdeg";

#[test]
fn roundtrip() {
    let message = b"Hello, world!";

    let secure = Secure::new(message, KEY);
    let plaintext = secure.read(KEY).unwrap();

    assert_eq!(message, plaintext.as_slice());
}

#[test]
fn read_with_another_key_gives_nothing() {
    let secure = Secure::new(b"Hello, world!", KEY);
    assert_eq!(secure.read(OTHER_KEY), None);
}

#[test]
fn empty_plaintext_comes_back_empty() {
    let secure = Secure::new(b"", KEY);
    assert_eq!(secure.read(KEY), Some(Vec::new()));
}

#[test]
fn with_nonce_seals_under_the_given_nonce() {
    let message = b"the same message";
    let nonce = vec![7u8; 12];

    let secure = Secure::with_nonce(message, KEY, nonce);
    assert_eq!(secure.read(KEY), Some(message.to_vec()));
    assert_eq!(secure.read(OTHER_KEY), None);
}
