use rivus::uid::generate_api_key;
use rivus::uid::int_to_str;
use rivus::uid::str_to_int;

#[test]
fn test_api_key_length() {
    let key_length = 32;
    let api_key = generate_api_key(key_length);
    println!("Generated API Key: {}", api_key);
    // 验证生成的 API Key 长度是否符合预期
    assert_eq!(
        api_key.len(),
        key_length,
        "生成的 API Key 长度应为 {}",
        key_length
    );
}

#[test]
fn test_api_key_randomness() {
    let key_length = 32;
    let key1 = generate_api_key(key_length);
    let key2 = generate_api_key(key_length);
    // 检查两次生成的 API Key 是否不同（极低概率下可能相同，但几乎可以忽略）
    assert_ne!(key1, key2, "两次生成的 API Key 不应相同");
}

#[test]
fn test_api_key_alphabet() {
    let key = generate_api_key(64);
    assert!(key.chars().all(|c| c.is_ascii_alphanumeric()));
}

#[test]
fn test_str_to_int_values() {
    // Little-endian: the first character is the least significant 6 bits.
    assert_eq!(str_to_int("").unwrap(), 0);
    assert_eq!(str_to_int("A").unwrap(), 0);
    assert_eq!(str_to_int("B").unwrap(), 1);
    assert_eq!(str_to_int("/").unwrap(), 63);
    assert_eq!(str_to_int("AB").unwrap(), 64);
    assert_eq!(str_to_int("BA").unwrap(), 1);
    assert_eq!(str_to_int("ba").unwrap(), 27 + 26 * 64);
}

#[test]
fn test_str_to_int_rejects_bad_input() {
    // Longer than 10 characters.
    let e = str_to_int("ABCDEFGHIJK").unwrap_err();
    assert_eq!(e.code, 500);
    // A character outside the alphabet.
    let e = str_to_int("ab!").unwrap_err();
    assert_eq!(e.code, 500);
}

#[test]
fn test_int_to_str_values() {
    assert_eq!(int_to_str(0), "");
    assert_eq!(int_to_str(1), "B");
    assert_eq!(int_to_str(63), "/");
    assert_eq!(int_to_str(64), "AB");
}

#[test]
fn test_int_str_roundtrip() {
    for n in [1u64, 2, 63, 64, 65, 4096, 123456789, 0x0FFF_FFFF_FFFF_FFFF] {
        assert_eq!(str_to_int(&int_to_str(n)).unwrap(), n);
    }
}
