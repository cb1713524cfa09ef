use skirk_desktop::performance::{
    default_performance_settings, normalize_performance_settings, performance_for_preset,
    ClientPerformanceSettings, PerformancePreset,
};

fn custom() -> ClientPerformanceSettings {
    ClientPerformanceSettings {
        preset: PerformancePreset::Custom,
        poll_ms: 250,
        upload_concurrency: 64,
        download_concurrency: 64,
        burst_poll: true,
        burst_poll_ms: 75,
        burst_poll_window_ms: 5000,
    }
}

#[test]
fn normalize_performance_settings_accepts_explicit_high_custom_combo() {
    let result = normalize_performance_settings(custom());
    assert!(result.is_ok());
}

#[test]
fn presets_resolve_to_their_values() {
    let lower = performance_for_preset(PerformancePreset::LowerUsage);
    assert_eq!((lower.poll_ms, lower.upload_concurrency, lower.download_concurrency), (2000, 4, 8));
    assert!(!lower.burst_poll);
    let responsive = performance_for_preset(PerformancePreset::Responsive);
    assert!(responsive.burst_poll);
    assert_eq!(responsive.poll_ms, 1000);
    let bulk = performance_for_preset(PerformancePreset::BulkTransfer);
    assert_eq!((bulk.upload_concurrency, bulk.download_concurrency), (16, 32));
    let default = default_performance_settings();
    assert_eq!(default, performance_for_preset(PerformancePreset::Recommended));
    assert_eq!(default.preset, PerformancePreset::Recommended);
    assert_eq!((default.poll_ms, default.upload_concurrency, default.download_concurrency), (1000, 8, 16));
    assert_eq!((default.burst_poll_ms, default.burst_poll_window_ms), (75, 5000));
}

#[test]
fn named_preset_ignores_submitted_values() {
    let mut settings = custom();
    settings.preset = PerformancePreset::BulkTransfer;
    settings.poll_ms = 5;
    assert_eq!(
        normalize_performance_settings(settings),
        Ok(performance_for_preset(PerformancePreset::BulkTransfer))
    );
}

#[test]
fn custom_values_out_of_range_are_refused() {
    let cases: Vec<(fn(&mut ClientPerformanceSettings), &str)> = vec![
        (|s| s.poll_ms = 249, "check interval must be between 250 ms and 60000 ms"),
        (|s| s.poll_ms = 60001, "check interval must be between 250 ms and 60000 ms"),
        (|s| s.upload_concurrency = 0, "upload workers must be between 1 and 64"),
        (|s| s.upload_concurrency = 65, "upload workers must be between 1 and 64"),
        (|s| s.download_concurrency = 0, "download workers must be between 1 and 64"),
        (|s| s.download_concurrency = 65, "download workers must be between 1 and 64"),
        (|s| s.burst_poll_ms = 24, "burst interval must be between 25 ms and 1000 ms"),
        (|s| s.burst_poll_ms = 1001, "burst interval must be between 25 ms and 1000 ms"),
        (|s| s.burst_poll_window_ms = 999, "burst window must be between 1000 ms and 30000 ms"),
        (|s| s.burst_poll_window_ms = 30001, "burst window must be between 1000 ms and 30000 ms"),
    ];
    for (change, message) in cases {
        let mut settings = custom();
        change(&mut settings);
        assert_eq!(normalize_performance_settings(settings), Err(message.to_string()));
    }
}

#[test]
fn normalizing_twice_changes_nothing() {
    let once = normalize_performance_settings(custom()).expect("accepted");
    assert_eq!(normalize_performance_settings(once), Ok(once));
    let preset = normalize_performance_settings(performance_for_preset(PerformancePreset::Responsive))
        .expect("preset");
    assert_eq!(normalize_performance_settings(preset), Ok(preset));
}
