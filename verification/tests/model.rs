use airpcez::model::vram_reliable;

#[test]
fn flags_overflow_and_over_physical_vram_as_unreliable() {
    assert!(vram_reliable(8192, 7700));
    assert!(!vram_reliable(8192, 17_592_186_044_362));
    assert!(!vram_reliable(8192, 9000));
    assert!(!vram_reliable(0, 0));
}

#[test]
fn vram_reliable_when_free_equals_total() {
    assert!(vram_reliable(8192, 8192));
    assert!(vram_reliable(1, 0));
}
