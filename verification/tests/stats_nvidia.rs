use airpcez::model::DeviceKind;
use airpcez::stats_nvidia::parse_nvidia_smi;

const CSV: &str = "NVIDIA GeForce RTX 2080 SUPER, 8192, 7700\n";

#[test]
fn parses_one_gpu() {
    let devs = parse_nvidia_smi(CSV);
    assert_eq!(devs.len(), 1);
    let d = &devs[0];
    assert_eq!(d.name, "NVIDIA GeForce RTX 2080 SUPER");
    assert_eq!(d.kind, DeviceKind::Cuda);
    assert_eq!(d.vram_total_mib, 8192);
    assert_eq!(d.vram_free_mib, 7700);
    assert!(d.reliable);
}

#[test]
fn skips_blank_short_and_unparseable_rows() {
    let csv = "\n  \nGPU A, 100, 50\nGPU B, 100\nGPU C, x, 5\nGPU D, 10, 20, extra\r\n";
    let devs = parse_nvidia_smi(csv);
    assert_eq!(devs.len(), 2);
    assert_eq!(devs[0].name, "GPU A");
    assert!(devs[0].reliable);
    assert_eq!(devs[1].name, "GPU D");
    assert!(!devs[1].reliable);
}
