use tronomic::dmx::DmxState;
use tronomic::error::{DmGuiError, EvaluationError, NetworkError, evaluation_to_gui,
    network_to_gui};
use tronomic::fixed::Fx;
use tronomic::sched::{SchedulerConfig, output_snapshots, period_nanos, tick_rate_hz};

fn config(eval_hz: i64, out_hz: i64, universes: usize) -> SchedulerConfig {
    SchedulerConfig {
        evaluation_frequency: Fx::from_int(eval_hz),
        output_frequency: Fx::from_int(out_hz),
        universe_count: universes,
        artnet_addrs: vec!["127.0.0.1:6454".to_string()],
    }
}

#[test]
fn valid_configuration_passes() {
    assert!(config(60, 50, 3).validate().is_ok());
}

#[test]
fn zero_universes_abort_startup() {
    let r = config(60, 50, 0).validate();
    assert!(matches!(r.unwrap_err(), DmGuiError::DMX(_)));
}

#[test]
fn nonpositive_frequency_aborts_startup() {
    assert!(config(0, 50, 1).validate().is_err());
    assert!(config(60, -1, 1).validate().is_err());
}

#[test]
fn period_of_sixty_hertz() {
    // 60 Hz -> 16_666_666 ns
    assert_eq!(period_nanos(Fx::from_int(60)).unwrap(), 16_666_666);
    assert_eq!(period_nanos(Fx::from_int(50)).unwrap(), 20_000_000);
    assert!(period_nanos(Fx::zero()).is_none());
}

#[test]
fn achieved_rate_from_elapsed_nanos() {
    // one tick every 20 ms is 50 Hz
    assert_eq!(tick_rate_hz(20_000_000).unwrap().micros(), 50_000_000);
    assert!(tick_rate_hz(0).is_none());
}

#[test]
fn output_tick_snapshots_every_universe() {
    let mut dmx = DmxState::new(2);
    dmx.set(0, 0, 5);
    dmx.override_with(1, 7, true, 99);
    let snaps = output_snapshots(&dmx);
    assert_eq!(snaps.len(), 2);
    assert_eq!(snaps[0][0], 5);
    assert_eq!(snaps[1][7], 99);
    assert_eq!(snaps[1][8], 0);
}

#[test]
fn error_constructors_carry_their_message() {
    let e = DmGuiError::dmx("broken".to_string());
    assert!(matches!(e, DmGuiError::DMX(_)));
    assert_eq!(e.message(), "broken");
    let e = DmGuiError::evaluation("tick".to_string());
    assert!(matches!(e, DmGuiError::Evaluation(_)));
    let e = DmGuiError::networking("wire".to_string());
    assert!(matches!(e, DmGuiError::Networking(_)));
}

#[test]
fn structured_errors_lift_to_the_top_level() {
    let e = evaluation_to_gui(EvaluationError::Cycle);
    assert!(matches!(e, DmGuiError::Evaluation(_)));
    assert_eq!(e.message(), "graph connections form a cycle");
    let e = network_to_gui(NetworkError::NotEstablished);
    assert!(matches!(e, DmGuiError::Networking(_)));
    assert_eq!(e.message(), "connection is not established");
}
