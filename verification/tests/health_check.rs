use queue_health::admission::can_take_more_traffic;
use queue_health::health::handle_health_check;
use queue_health::health::health_response;
use queue_health::inspect::inspect;
use queue_health::inspect::CommandOutcome;
use queue_health::inspect::InspectError;
use queue_health::settings::load_settings;
use queue_health::settings::ConfigurationError;

fn finished(stdout: &[u8]) -> CommandOutcome {
    CommandOutcome::Finished { success: true, stdout: stdout.to_vec() }
}

#[test]
fn passenger_running_with_space_in_queue() {
    let settings = load_settings(None, None).unwrap();
    let outcome = finished(b"Requests in top-level queue : 42");
    let response = handle_health_check(&outcome, settings.max_queue_length);
    assert_eq!(response.status, 200);
    assert_eq!(response.body, "true");
}

#[test]
fn health_check_responds_unavailable_when_overloaded() {
    let settings = load_settings(Some(5), Some(8080)).unwrap();
    let outcome = finished(b"Requests in top-level queue : 6");
    let response = handle_health_check(&outcome, settings.max_queue_length);
    assert_eq!(response.status, 503);
    assert_eq!(response.body, "false");
}

#[test]
fn health_check_responds_unavailable_when_passenger_down() {
    let settings = load_settings(Some(100), Some(8080)).unwrap();
    let response = handle_health_check(&CommandOutcome::Failed, settings.max_queue_length);
    assert_eq!(response.status, 503);
    assert_eq!(response.body, "false");
}

#[test]
fn admits_just_below_threshold() {
    assert!(can_take_more_traffic(&Ok(79), 100));
    assert!(!can_take_more_traffic(&Ok(80), 100));
    assert!(!can_take_more_traffic(&Ok(81), 100));
    assert!(can_take_more_traffic(&Ok(0), 100));
}

#[test]
fn zero_maximum_rejects_every_depth() {
    assert!(!can_take_more_traffic(&Ok(0), 0));
    assert!(!can_take_more_traffic(&Ok(5), 0));
    assert!(!can_take_more_traffic(&Ok(i32::MIN), 0));
}

#[test]
fn every_inspection_failure_rejects() {
    assert!(!can_take_more_traffic(&Err(InspectError::Timeout), 100));
    assert!(!can_take_more_traffic(&Err(InspectError::CommandFailed), 100));
    assert!(!can_take_more_traffic(&Err(InspectError::ParseFailed), 100));
}

#[test]
fn timeout_surfaces_as_unavailable() {
    let response = handle_health_check(&CommandOutcome::TimedOut, 100);
    assert_eq!(response.status, 503);
    assert_eq!(response.body, "false");
}

#[test]
fn nonzero_exit_surfaces_as_unavailable() {
    let outcome = CommandOutcome::Finished { success: false, stdout: Vec::new() };
    let response = handle_health_check(&outcome, 100);
    assert_eq!(response.status, 503);
    assert_eq!(response.body, "false");
}

#[test]
fn missing_delimiter_surfaces_as_unavailable() {
    let outcome = finished(b"no colon here");
    assert_eq!(inspect(&outcome), Err(InspectError::ParseFailed));
    let response = handle_health_check(&outcome, 100);
    assert_eq!(response.status, 503);
    assert_eq!(response.body, "false");
}

#[test]
fn non_integer_field_surfaces_as_unavailable() {
    let outcome = finished(b"Requests in queue : abc");
    assert_eq!(inspect(&outcome), Err(InspectError::ParseFailed));
    let response = handle_health_check(&outcome, 100);
    assert_eq!(response.status, 503);
    assert_eq!(response.body, "false");
}

#[test]
fn end_to_end_admits_depth_42_of_100() {
    let outcome = finished(b"Requests in top-level queue : 42");
    let response = handle_health_check(&outcome, 100);
    assert_eq!(response.status, 200);
    assert_eq!(response.body, "true");
}

#[test]
fn end_to_end_rejects_depth_90_of_100() {
    let outcome = finished(b"Requests in top-level queue : 90");
    let response = handle_health_check(&outcome, 100);
    assert_eq!(response.status, 503);
    assert_eq!(response.body, "false");
}

#[test]
fn inspect_classifies_each_failure() {
    assert_eq!(inspect(&CommandOutcome::TimedOut), Err(InspectError::Timeout));
    assert_eq!(inspect(&CommandOutcome::Failed), Err(InspectError::CommandFailed));
    let crashed = CommandOutcome::Finished { success: false, stdout: b"garbage".to_vec() };
    assert_eq!(inspect(&crashed), Err(InspectError::CommandFailed));
    assert_eq!(inspect(&finished(b"Requests in top-level queue : 7")), Ok(7));
}

#[test]
fn verdict_maps_to_status_and_body() {
    let available = health_response(true);
    assert_eq!(available.status, 200);
    assert_eq!(available.body, "true");
    let reject = health_response(false);
    assert_eq!(reject.status, 503);
    assert_eq!(reject.body, "false");
}

#[test]
fn defaults_apply_without_overrides() {
    let settings = load_settings(None, None).unwrap();
    assert_eq!(settings.max_queue_length, 100);
    assert_eq!(settings.server_port, 8080);
}

#[test]
fn overrides_replace_defaults() {
    let settings = load_settings(Some(50), Some(9090)).unwrap();
    assert_eq!(settings.max_queue_length, 50);
    assert_eq!(settings.server_port, 9090);
}

#[test]
fn negative_maximum_is_rejected_at_load() {
    let result = load_settings(Some(-1), None);
    assert_eq!(result, Err(ConfigurationError::NegativeMaxQueueLength));
}
