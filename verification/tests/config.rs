use s3_cp::config::{RunConfig, DEFAULT_MAX_PENDING};

#[test]
fn default_configuration_allows_128_copies_in_flight() {
    let config = RunConfig::default();
    assert_eq!(config, RunConfig { sync: false, show_verbose: false, max_pending: 128 });
    assert_eq!(DEFAULT_MAX_PENDING, 128);
    assert_eq!(config.effective_bound(), 128);
    assert!(!config.is_sequential());
}

#[test]
fn forced_sequential_mode_has_bound_one() {
    let config = RunConfig { sync: true, show_verbose: false, max_pending: 128 };
    assert!(config.is_sequential());
    assert_eq!(config.effective_bound(), 1);
}

#[test]
fn a_limit_of_one_is_sequential() {
    let config = RunConfig { sync: false, show_verbose: false, max_pending: 1 };
    assert!(config.is_sequential());
    assert_eq!(config.effective_bound(), 1);
}

#[test]
fn a_limit_of_zero_is_sequential() {
    let config = RunConfig { sync: false, show_verbose: false, max_pending: 0 };
    assert!(config.is_sequential());
    assert_eq!(config.effective_bound(), 1);
}

#[test]
fn a_limit_above_one_is_the_bound() {
    let config = RunConfig { sync: false, show_verbose: true, max_pending: 2 };
    assert!(!config.is_sequential());
    assert_eq!(config.effective_bound(), 2);
    let wide = RunConfig { sync: false, show_verbose: false, max_pending: usize::MAX };
    assert_eq!(wide.effective_bound(), usize::MAX);
}

#[test]
fn a_configuration_is_cloned_field_by_field() {
    let config = RunConfig { sync: true, show_verbose: true, max_pending: 7 };
    assert_eq!(config.clone(), config);
}
