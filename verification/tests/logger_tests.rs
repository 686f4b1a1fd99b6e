use rivus::logger::LoggerConfig;

#[test]
fn test_logger_defaults() {
    let c = LoggerConfig::new();
    assert_eq!(c.file_prefix, "app.log");
    assert_eq!(c.log_dir, "./logs");
    assert_eq!(c.time_format, "%Y-%m-%d %H:%M:%S%.3f");
    assert_eq!(c.level, "INFO");
    assert!(c.console);
    assert!(c.file);
    assert_eq!(c.max_files, None);
    assert_eq!(c.cleanup_interval_secs, 3600);
}

#[test]
fn test_logger_builders() {
    let c = LoggerConfig::new()
        .file_prefix("test_scenarios.log".to_string())
        .log_dir("./target/cleanup_scenarios_logs".to_string())
        .time_format("%H:%M:%S".to_string())
        .level("DEBUG".to_string())
        .enable_console(false)
        .enable_file(true)
        .max_files(3)
        .cleanup_interval(1);
    assert_eq!(c.file_prefix, "test_scenarios.log");
    assert_eq!(c.log_dir, "./target/cleanup_scenarios_logs");
    assert_eq!(c.time_format, "%H:%M:%S");
    assert_eq!(c.level, "DEBUG");
    assert!(!c.console);
    assert!(c.file);
    assert_eq!(c.max_files, Some(3));
    assert_eq!(c.cleanup_interval_secs, 1);
}
