use airpcez::stats_macos::{metal_vram_reading, pages_named, parse_vm_stat_free_mib, vm_stat_free_mib};

const VM_STAT: &str = "Mach Virtual Memory Statistics: (page size of 16384 bytes)
Pages free:                               50000.
Pages active:                            200000.
Pages inactive:                          120000.
Pages speculative:                        10000.
Pages throttled:                              0.
Pages wired down:                        150000.
Pages purgeable:                           3000.
\"Translation faults\":                 123456789.
Pages copy-on-write:                    1000000.
";

#[test]
fn computes_real_free_mib_from_vm_stat() {
    let mib = parse_vm_stat_free_mib(VM_STAT, 16384);
    assert_eq!(mib, 2812);
}

#[test]
fn pages_named_reads_the_labelled_line() {
    assert_eq!(pages_named(VM_STAT, "Pages free"), 50000);
    assert_eq!(pages_named(VM_STAT, "Pages inactive"), 120000);
    assert_eq!(pages_named(VM_STAT, "Pages speculative"), 10000);
    assert_eq!(pages_named(VM_STAT, "Pages missing"), 0);
    assert_eq!(pages_named("", "Pages free"), 0);
}

#[test]
fn vm_stat_free_mib_checks_the_arithmetic() {
    assert_eq!(vm_stat_free_mib(VM_STAT, 16384), Some(2812));
    assert_eq!(vm_stat_free_mib(VM_STAT, u64::MAX), None);
    assert_eq!(vm_stat_free_mib("nothing here", 4096), Some(0));
}

#[test]
fn metal_vram_reading_units() {
    assert_eq!(metal_vram_reading("      VRAM (Total): 4 GB"), Some(("4".to_string(), 1024)));
    assert_eq!(metal_vram_reading("      VRAM (Dynamic, Max): 1536 MB"), Some(("1536".to_string(), 1)));
    assert_eq!(metal_vram_reading("      VRAM (Total): 4 TB"), None);
    assert_eq!(metal_vram_reading("no vram line here"), None);
}

#[test]
fn metal_vram_reading_takes_the_first_vram_line() {
    let text = "Graphics/Displays:\n    Apple M2:\n      Chipset Model: Apple M2\n      VRAM (Total): 8 GB\n      VRAM (Total): 16 GB\n";
    assert_eq!(metal_vram_reading(text), Some(("8".to_string(), 1024)));
    assert_eq!(metal_vram_reading("VRAM (Total): 1.5 GB"), Some(("1.5".to_string(), 1024)));
    assert_eq!(metal_vram_reading("VRAM (Total): 12"), None);
}
