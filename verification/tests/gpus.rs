//! GPU readings.

use llm_orch::gpu::{
    find_hwmon_numeric, is_amd_vendor, low_half, pci_slots_of, read_dpm_clock, read_one_gpu,
    read_pci_slot, read_u64, CardNodes, Reading,
};
use llm_orch::nvidia::{normalize_pci_slot, parse_csv};

const SAMPLE_TWO_GPU: &str = "\
00000000:41:00.0, 24576, 512, 34, 0, 25.50, 210, 5001
00000000:C1:00.0, 24576, 12000, 41, 87, 180.25, 1500, 5001
";

fn number(r: &Reading) -> Option<f64> {
    match r {
        Reading::Missing => None,
        Reading::Fraction { value, per_unit } => Some(*value as f64 / *per_unit as f64),
        Reading::Decimal(text) => text.parse().ok(),
    }
}

#[test]
fn parses_two_gpu_output() {
    let gpus = parse_csv(SAMPLE_TWO_GPU);
    assert_eq!(gpus.len(), 2);

    assert_eq!(gpus[0].index, 0);
    assert_eq!(gpus[0].pci_slot, "0000:41:00.0");
    assert_eq!(gpus[0].vram_total_bytes, 24576 * 1024 * 1024);
    assert_eq!(gpus[0].vram_used_bytes, 512 * 1024 * 1024);
    assert_eq!(number(&gpus[0].temperature), Some(34.0));
    assert_eq!(gpus[0].gpu_busy_pct, Some(0));
    assert_eq!(number(&gpus[0].power), Some(25.50));
    assert_eq!(gpus[0].sclk_mhz, Some(210));
    assert_eq!(gpus[0].mclk_mhz, Some(5001));

    // Uppercase hex domain/device letters normalize to lowercase.
    assert_eq!(gpus[1].index, 1);
    assert_eq!(gpus[1].pci_slot, "0000:c1:00.0");
    assert_eq!(gpus[1].gpu_busy_pct, Some(87));
}

#[test]
fn skips_row_with_na_vram_total() {
    let out = "00000000:41:00.0, [N/A], 0, 34, 0, 25.50, 210, 5001\n";
    assert!(parse_csv(out).is_empty());
}

#[test]
fn keeps_row_with_na_optional_fields() {
    let out = "00000000:41:00.0, 24576, [N/A], N/A, N/A, [N/A], N/A, N/A\n";
    let gpus = parse_csv(out);
    assert_eq!(gpus.len(), 1);
    assert_eq!(gpus[0].vram_total_bytes, 24576 * 1024 * 1024);
    assert_eq!(gpus[0].vram_used_bytes, 0);
    assert_eq!(number(&gpus[0].temperature), None);
    assert_eq!(gpus[0].gpu_busy_pct, None);
    assert_eq!(number(&gpus[0].power), None);
    assert_eq!(gpus[0].sclk_mhz, None);
}

#[test]
fn skips_malformed_rows() {
    let out = "garbage line\n00000000:41:00.0, 24576\n\n";
    assert!(parse_csv(out).is_empty());
}

#[test]
fn empty_output_yields_no_gpus() {
    assert!(parse_csv("").is_empty());
    assert!(parse_csv("\n\n").is_empty());
}

#[test]
fn normalizes_pci_slot_forms() {
    assert_eq!(
        normalize_pci_slot("00000000:65:00.0").as_deref(),
        Some("0000:65:00.0")
    );
    assert_eq!(
        normalize_pci_slot("0000:65:00.0").as_deref(),
        Some("0000:65:00.0")
    );
    assert!(normalize_pci_slot("not-a-slot").is_none());
    assert!(normalize_pci_slot("zzzz:65:00.0").is_none());
}

#[test]
fn test_parse_dpm_clock() {
    let sample = "0: 600Mhz *\n1: 700Mhz\n2: 2200Mhz\n";
    assert_eq!(read_dpm_clock(sample), Some(600));
}

#[test]
fn the_marked_clock_is_read() {
    assert_eq!(read_dpm_clock("0: 500Mhz\n1: 2100Mhz *\n"), Some(2100));
    assert_eq!(read_dpm_clock("0: 500Mhz\n"), None);
    assert_eq!(read_dpm_clock(""), None);
}

#[test]
fn card_nodes_are_read() {
    let nodes = CardNodes {
        uevent: Some("DRIVER=amdgpu\nPCI_SLOT_NAME=0000:03:00.0\n".to_owned()),
        vram_vendor: Some("samsung\n".to_owned()),
        vram_total: Some("17163091968\n".to_owned()),
        vram_used: Some("1024\n".to_owned()),
        temperatures: vec![None, Some("45000\n".to_owned())],
        powers: vec![Some("15000000\n".to_owned())],
        busy_percent: Some("7\n".to_owned()),
        sclk: Some("0: 500Mhz *\n".to_owned()),
        mclk: None,
    };
    let gpu = read_one_gpu(1, &nodes);
    assert_eq!(gpu.index, 1);
    assert_eq!(gpu.pci_slot, "0000:03:00.0");
    assert_eq!(gpu.vram_vendor.as_deref(), Some("samsung"));
    assert_eq!(gpu.vram_total_bytes, 17163091968);
    assert_eq!(gpu.vram_used_bytes, 1024);
    assert_eq!(number(&gpu.temperature), Some(45.0));
    assert_eq!(number(&gpu.power), Some(15.0));
    assert_eq!(gpu.gpu_busy_pct, Some(7));
    assert_eq!(gpu.sclk_mhz, Some(500));
    assert_eq!(gpu.mclk_mhz, None);
}

#[test]
fn small_readers() {
    assert_eq!(read_u64(" 42\n"), Some(42));
    assert_eq!(read_u64("x"), None);
    assert!(is_amd_vendor("0x1002\n"));
    assert!(!is_amd_vendor("0x10de\n"));
    assert_eq!(find_hwmon_numeric(&vec![None, Some("9".to_owned())]), Some(9));
    assert_eq!(
        pci_slots_of("DRIVER=x\nPCI_SLOT_NAME=0000:0a:00.0\n"),
        vec!["0000:0a:00.0".to_owned()]
    );
    assert_eq!(read_pci_slot(Some("PCI_SLOT_NAME=0000:0a:00.0\n")), "0000:0a:00.0");
    assert_eq!(low_half(0x1_0000_0007), 7);
}

#[test]
fn normalizing_a_slot_twice_is_normalizing_it_once() {
    for id in ["00000000:C1:00.0", "1:AB:1F.7", "00012345:00:00.0"] {
        let once = normalize_pci_slot(id).unwrap();
        assert!(!once.chars().any(|c| c.is_ascii_uppercase()), "{once}");
        assert_eq!(normalize_pci_slot(&once), Some(once));
    }
    assert_eq!(
        normalize_pci_slot("00000000:C1:00.0").as_deref(),
        Some("0000:c1:00.0")
    );
    assert_eq!(
        normalize_pci_slot("00012345:00:00.0").as_deref(),
        Some("12345:00:00.0")
    );
}

#[test]
fn only_the_value_of_the_domain_counts() {
    for id in ["0:C1:0A.0", "0000:c1:0A.0", "00000000:C1:0a.0", "+0:c1:0a.0"] {
        assert_eq!(normalize_pci_slot(id).as_deref(), Some("0000:c1:0a.0"));
    }
    for id in ["", "0000", ":65:00.0", "100000000:65:00.0", "0000:65:00", "0000:65:00.0.0"] {
        assert_eq!(normalize_pci_slot(id), None, "{id}");
    }
}
