use traverse_cli::digest::fnv1a64;

#[test]
fn fnv1a64_is_deterministic_and_distinguishes_input() {
    assert_eq!(fnv1a64(b"abc"), fnv1a64(b"abc"));
    assert_ne!(fnv1a64(b"abc"), fnv1a64(b"abd"));
    assert!(fnv1a64(b"abc").starts_with("fnv1a64:"));
}

#[test]
fn fnv1a64_of_empty_input_is_the_offset_basis() {
    assert_eq!(fnv1a64(b""), "fnv1a64:cbf29ce484222325");
}

#[test]
fn fnv1a64_matches_the_reference_value_for_one_byte() {
    assert_eq!(fnv1a64(b"a"), "fnv1a64:af63dc4c8601ec8c");
}

#[test]
fn fnv1a64_always_renders_sixteen_hex_digits() {
    for input in [&b""[..], b"x", b"hello world", &[0u8, 255, 7][..]] {
        let d = fnv1a64(input);
        assert_eq!(d.len(), "fnv1a64:".len() + 16);
        assert!(d["fnv1a64:".len()..].chars().all(|c| c.is_ascii_hexdigit() && !c.is_ascii_uppercase()));
    }
}
