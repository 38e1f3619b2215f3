use websock::utils::base64::Base64;

#[test]
fn base64_encode() {
    let encoded = Base64.encode(b"hello world");
    println!("encoded: {}", encoded);
    assert_eq!(encoded, "aGVsbG8gd29ybGQ=");
}

#[test]
fn base64_length_and_alphabet() {
    let inputs: [&[u8]; 5] = [b"", b"f", b"fo", b"foo", b"\x00\xff\x80\x7f"];
    for data in inputs.iter() {
        let encoded = Base64.encode(data);
        assert_eq!(encoded.len(), 4 * ((data.len() + 2) / 3));
        for c in encoded.chars() {
            assert!(c.is_ascii_alphanumeric() || c == '+' || c == '/' || c == '=');
        }
    }
}

#[test]
fn base64_padding_tails() {
    assert_eq!(Base64.encode(b""), "");
    assert_eq!(Base64.encode(b"f"), "Zg==");
    assert_eq!(Base64.encode(b"fo"), "Zm8=");
    assert_eq!(Base64.encode(b"foo"), "Zm9v");
    assert_eq!(Base64.encode(b"foob"), "Zm9vYg==");
    assert_eq!(Base64.encode(b"fooba"), "Zm9vYmE=");
    assert_eq!(Base64.encode(b"foobar"), "Zm9vYmFy");
}
