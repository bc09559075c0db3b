use stellar_k8s::connection_drain::{prestop_hook_yaml, DrainConfig, DrainController, DrainPhase};
use stellar_k8s::span::Duration;

fn fast_config() -> DrainConfig {
    DrainConfig {
        drain_timeout: Duration::from_millis(500),
        stream_grace_period: Duration::from_millis(100),
        prestop_sleep: Duration::from_secs(1),
    }
}

#[test]
fn readiness_is_true_while_active() {
    let controller = DrainController::new(DrainConfig::default());
    assert_eq!(controller.phase(), DrainPhase::Active);
    assert!(controller.is_ready());
}

#[test]
fn stop_intake_flips_readiness_and_refuses_new_work() {
    let mut controller = DrainController::new(DrainConfig::default());
    controller.stop_intake();
    assert_eq!(controller.phase(), DrainPhase::StopIntake);
    assert!(!controller.is_ready());
    assert!(controller.acquire().is_none());
    assert!(controller.open_stream().is_none());
}

#[test]
fn idle_drain_terminates_without_force() {
    let mut controller = DrainController::new(fast_config());
    controller.stop_intake();
    assert!(!controller.begin_drain());
    assert!(controller.is_quiet());
    let metrics = controller.terminate(Duration::zero());
    assert_eq!(controller.phase(), DrainPhase::Terminated);
    assert!(metrics.completed_without_force());
    assert_eq!(metrics.peak_in_flight, 0);
}

#[test]
fn the_peak_is_that_of_the_drain() {
    let mut controller = DrainController::new(DrainConfig::default());
    let guard = controller.acquire().unwrap();
    controller.release(guard);
    controller.stop_intake();
    assert!(!controller.begin_drain());
    let metrics = controller.terminate(Duration::from_secs(0));
    assert_eq!((metrics.peak_in_flight, metrics.forced_terminations, metrics.streams_interrupted), (0, 0, 0));
    assert!(metrics.completed_without_force() && !controller.is_ready());
}

#[test]
fn in_flight_requests_drain_before_timeout() {
    let mut controller = DrainController::new(fast_config());
    let guard = controller.acquire().unwrap();
    assert_eq!(controller.in_flight(), 1);
    controller.stop_intake();
    controller.begin_drain();
    assert!(!controller.is_quiet());
    controller.release(guard);
    assert!(controller.is_quiet());
    let metrics = controller.terminate(Duration::from_millis(50));
    assert!(metrics.completed_without_force());
    assert_eq!(metrics.peak_in_flight, 1);
}

#[test]
fn stuck_work_is_force_terminated_at_the_deadline() {
    let mut controller = DrainController::new(fast_config());
    let _guard = controller.acquire().unwrap();
    controller.stop_intake();
    controller.begin_drain();
    let metrics = controller.terminate(Duration::from_millis(500));
    assert!(!metrics.completed_without_force());
    assert_eq!(metrics.forced_terminations, 1);
    assert!(metrics.drain_duration.as_millis() >= fast_config().drain_timeout.as_millis());
}

#[test]
fn a_forced_drain_takes_no_longer_than_its_grace() {
    let mut controller = DrainController::new(fast_config());
    let _guard = controller.acquire().unwrap();
    controller.begin_drain();
    assert_eq!(controller.terminate(Duration::from_millis(510)).drain_duration, Duration::from_millis(500));
    let mut controller = DrainController::new(fast_config());
    let _guard = controller.acquire().unwrap();
    let _stream = controller.open_stream().unwrap();
    controller.begin_drain();
    controller.interrupt_streams();
    assert_eq!(controller.terminate(Duration::from_millis(610)).drain_duration, Duration::from_millis(600));
}

#[test]
fn lingering_streams_are_interrupted_within_bound() {
    let mut controller = DrainController::new(fast_config());
    let _stream = controller.open_stream().unwrap();
    controller.stop_intake();
    assert!(controller.begin_drain());
    assert_eq!(controller.interrupt_streams(), 1);
    let metrics = controller.terminate(Duration::from_millis(100));
    assert_eq!(metrics.streams_interrupted, 1);
    assert!(metrics.completed_without_force());
}

#[test]
fn closing_streams_drain_cleanly() {
    let mut controller = DrainController::new(fast_config());
    let stream = controller.open_stream().unwrap();
    controller.stop_intake();
    assert!(controller.begin_drain());
    controller.close_stream(stream);
    assert_eq!(controller.interrupt_streams(), 0);
    let metrics = controller.terminate(Duration::from_millis(20));
    assert!(metrics.completed_without_force());
    assert_eq!(metrics.streams_interrupted, 0);
}

#[test]
fn prestop_template_covers_drain_plus_propagation() {
    let yaml = prestop_hook_yaml(&DrainConfig::default());
    assert!(yaml.contains("preStop"));
    assert!(yaml.contains("terminationGracePeriodSeconds: 35"));
}

#[test]
fn config_builders_override_timeouts() {
    let config = DrainConfig::default()
        .with_drain_timeout(Duration::from_secs(60))
        .with_stream_grace_period(Duration::from_secs(20));
    assert_eq!(config.drain_timeout, Duration::from_secs(60));
    assert_eq!(config.stream_grace_period, Duration::from_secs(20));
}
