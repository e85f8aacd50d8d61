//! Base64 texts.

use camelid::base64::nvfp4_b64_decode;

#[test]
fn base64_vectors() {
    let cases = [
        ("", ""),
        ("Zg==", "f"),
        ("Zm8=", "fo"),
        ("Zm9v", "foo"),
        ("Zm9vYg==", "foob"),
        ("Zm9vYmE=", "fooba"),
        ("Zm9vYmFy", "foobar"),
        ("Zm9vYmFy0", "foobar"),
    ];
    for (text, bytes) in cases {
        assert_eq!(nvfp4_b64_decode(text), bytes.as_bytes(), "{text}");
    }
    assert_eq!(nvfp4_b64_decode("+/+/"), vec![0xfb, 0xff, 0xbf]);
    assert_eq!(nvfp4_b64_decode("=Z=m=9=v="), b"foo".to_vec());
}

#[test]
fn every_byte_comes_back() {
    let table: Vec<char> = "ABCDEFGHIJKLMNOPQRSTUVWXYZabcdefghijklmnopqrstuvwxyz0123456789+/"
        .chars()
        .collect();
    for len in 0..40usize {
        let bytes: Vec<u8> = (0..len).map(|i| (i * 37 + len * 11) as u8).collect();
        let mut text = String::new();
        for chunk in bytes.chunks(3) {
            let mut n = 0u32;
            for k in 0..3 {
                n = (n << 8) | chunk.get(k).copied().unwrap_or(0) as u32;
            }
            for k in 0..4 {
                if k <= chunk.len() {
                    text.push(table[(n >> (18 - 6 * k)) as usize & 63]);
                } else {
                    text.push('=');
                }
            }
        }
        assert_eq!(nvfp4_b64_decode(&text), bytes);
    }
}
