#[test]
fn sha1_test1() {
    let text = "The quick brown fox jumps over the lazy dog";
    let bytes = websock::sha1::Sha1::from(text.as_bytes()).digest();
    for byte in bytes {
        println!("{:#04x}", byte);
    }
    println!();

    let text = "The quick brown fox jumps over the lazy cog";
    let bytes = websock::sha1::Sha1::from(text.as_bytes()).digest();
    for byte in bytes {
        println!("{:#04x}", byte);
    }
}

#[test]
fn sha1_test_from() {
    let texts = [
        "The quick brown fox jumps over the lazy dog",
        "The quick brown fox jumps over the lazy cog",
    ];
    let expected = [
        "2fd4e1c67a2d28fced849ee1bb76e7391b93eb12",
        "de9f2c7fd25e1b3afad3e85a0bd17d9b100db4b3",
    ];

    for (idx, text) in texts.iter().enumerate() {
        let output = websock::utils::sha1::Sha1::from(text.as_bytes())
            .digest()
            .to_hexstring();
        println!("target: {}", text);
        println!("SHA-1: {}", output);
        assert_eq!(expected[idx], output);
    }
}

#[test]
fn sha1_empty_message() {
    let output = websock::utils::sha1::Sha1::new().digest().to_hexstring();
    assert_eq!(output, "da39a3ee5e6b4b0d3255bfef95601890afd80709");
}

#[test]
fn sha1_block_boundaries() {
    // 55, 56 and 64 bytes straddle the padding boundaries
    let cases = [
        (55usize, "c1c8bbdc22796e28c0e15163d20899b65621d65a"),
        (56usize, "c2db330f6083854c99d4b5bfb6e8f29f201be699"),
        (64usize, "0098ba824b5c16427bd7a1122a5a442a25ec644d"),
    ];
    for (n, expected) in cases.iter() {
        let data: Vec<u8> = std::iter::repeat(b'a').take(*n).collect();
        let output = websock::utils::sha1::Sha1::from(&data).digest().to_hexstring();
        assert_eq!(&output, expected);
    }
}
