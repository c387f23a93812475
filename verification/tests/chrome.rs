use el_terminal::chrome::hash2;

#[test]
fn grain_hash_values() {
    assert_eq!(hash2(0, 0), 0);
    assert_eq!(hash2(1, 2), 3792824159);
    assert_eq!(hash2(100, 37), 2464533433);
}
