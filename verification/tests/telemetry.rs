use ov3rride::telemetry::{
    ac_power_online, gpu_sample_from_query, integrated_gpu_busy, is_mains_supply, SupplyReading,
};

#[test]
fn gpu_query_with_five_fields() {
    let g = gpu_sample_from_query(true, "45, 2048, 8192, 60, 35.20\n").expect("five fields");
    assert_eq!(g.usage, 45);
    assert_eq!(g.vram_used, 2048);
    assert_eq!(g.vram_total, 8192);
    assert_eq!(g.temp, 60);
    assert_eq!(g.power_text, "35.20");
}

#[test]
fn gpu_query_fields_that_are_not_numbers_read_zero() {
    let g = gpu_sample_from_query(true, "[N/A], 10, 20, 30, [N/A]").expect("five fields");
    assert_eq!(g.usage, 0);
    assert_eq!(g.vram_used, 10);
    assert_eq!(g.power_text, "[N/A]");
}

#[test]
fn gpu_query_with_other_field_counts_gives_nothing() {
    assert!(gpu_sample_from_query(true, "45, 2048, 8192, 60").is_none());
    assert!(gpu_sample_from_query(true, "").is_none());
    assert!(gpu_sample_from_query(true, "1, 2, 3, 4, 5, 6").is_none());
    assert!(gpu_sample_from_query(true, "1,2,3,4,5").is_none());
}

#[test]
fn gpu_query_that_failed_gives_nothing() {
    assert!(gpu_sample_from_query(false, "45, 2048, 8192, 60, 35.20").is_none());
}

#[test]
fn integrated_gpu_first_parsable_file_wins() {
    assert_eq!(integrated_gpu_busy(&vec![None, Some("37\n".to_string())]), Some(37));
    assert_eq!(
        integrated_gpu_busy(&vec![Some("busy".to_string()), Some(" 12 ".to_string())]),
        Some(12)
    );
    assert_eq!(integrated_gpu_busy(&vec![Some("5".to_string()), Some("9".to_string())]), Some(5));
    assert_eq!(integrated_gpu_busy(&vec![]), None);
    assert_eq!(integrated_gpu_busy(&vec![None, Some("-3".to_string())]), None);
}

fn reading(kind: Option<&str>, online: Option<&str>) -> SupplyReading {
    SupplyReading { kind: kind.map(|s| s.to_string()), online: online.map(|s| s.to_string()) }
}

#[test]
fn mains_supply_is_recognised_after_trimming() {
    assert!(is_mains_supply("Mains\n"));
    assert!(!is_mains_supply("Battery\n"));
    assert!(!is_mains_supply("mains"));
}

#[test]
fn ac_state_follows_first_mains_supply() {
    let rs = vec![reading(Some("Battery\n"), None), reading(Some("Mains\n"), Some("0\n"))];
    assert!(!ac_power_online(&rs));
    let rs = vec![reading(Some("Mains\n"), Some("1\n")), reading(Some("Mains\n"), Some("0\n"))];
    assert!(ac_power_online(&rs));
    let rs = vec![reading(Some("Mains\n"), None), reading(Some("Mains\n"), Some("0"))];
    assert!(!ac_power_online(&rs));
}

#[test]
fn ac_state_assumed_without_mains() {
    assert!(ac_power_online(&vec![]));
    assert!(ac_power_online(&vec![reading(Some("Battery"), None), reading(None, None)]));
    assert!(ac_power_online(&vec![reading(Some("USB"), Some("0"))]));
}
