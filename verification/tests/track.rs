use rusty_net_sim::reconciler::{RecentResiduals, ReconciliationPolicy};
use rusty_net_sim::shim::NetworkShim;
use rusty_net_sim::source::{PeerPublishSource, RemoteStateSource, RemoteUpdate, ServerOnlySource};
use rusty_net_sim::track::{peer_divergence, ticks_since, ReconciliationLog};

type Position = [f32; 3];

fn ticks(ms: u32, tick_rate_hz: u32) -> i64 {
    let ms_per_tick = 1000.0 / tick_rate_hz as f64;
    (ms as f64 / ms_per_tick).round() as i64
}

fn distance(a: Position, b: Position) -> f32 {
    let dx = a[0] - b[0];
    let dy = a[1] - b[1];
    let dz = a[2] - b[2];
    (dx * dx + dy * dy + dz * dz).sqrt()
}

#[test]
fn no_delivery_yet_reports_sentinel_blend_frames() {
    let shim: NetworkShim<RemoteUpdate<Position>> = NetworkShim::new(ticks(1000, 60), 0, 3);
    let mut source = ServerOnlySource::new(shim);
    let log = ReconciliationLog::new(0.0f32);

    assert!(source.latest(1).is_none());
    let report = log.carry_forward();
    assert_eq!(report.residual, 0.0);
    assert_eq!(report.blend_frames, 0);
    assert!(!report.pop);
}

#[test]
fn peer_divergence_stays_at_sentinel_until_both_tracks_have_reconciled() {
    let server_shim: NetworkShim<RemoteUpdate<Position>> =
        NetworkShim::new(ticks(1_000_000, 60), 0, 4);
    let mut server_source = ServerOnlySource::new(server_shim);
    let peer_shim: NetworkShim<RemoteUpdate<Position>> = NetworkShim::new(0, 0, 5);
    let mut peer_source = PeerPublishSource::new(peer_shim);

    let server_log = ReconciliationLog::new(0.0f32);
    let mut peer_log = ReconciliationLog::new(0.0f32);
    let server_predicted: Position = [0.0, 0.0, 0.0];

    peer_source.publish(
        1,
        RemoteUpdate {
            tick: 1,
            state: [50.0, 0.0, 0.0],
        },
    );
    assert!(server_source.latest(1).is_none());
    let update = peer_source.latest(1).unwrap();
    peer_log.record(
        distance(server_predicted, update.state),
        ReconciliationPolicy::from_smoothing_steps(7),
    );

    let divergence = peer_divergence(
        &server_log,
        &peer_log,
        0.0,
        distance(update.state, server_predicted),
    );
    assert_eq!(divergence, 0.0);
}

#[test]
fn peer_divergence_reports_gap_once_both_tracks_have_reconciled() {
    let server_shim: NetworkShim<RemoteUpdate<Position>> = NetworkShim::new(0, 0, 6);
    let mut server_source = ServerOnlySource::new(server_shim);
    let peer_shim: NetworkShim<RemoteUpdate<Position>> = NetworkShim::new(0, 0, 7);
    let mut peer_source = PeerPublishSource::new(peer_shim);

    let mut server_log = ReconciliationLog::new(0.0f32);
    let mut peer_log = ReconciliationLog::new(0.0f32);

    server_source.send(
        1,
        RemoteUpdate {
            tick: 1,
            state: [0.0, 0.0, 0.0],
        },
    );
    peer_source.publish(
        1,
        RemoteUpdate {
            tick: 1,
            state: [30.0, 40.0, 0.0],
        },
    );

    let server_target = server_source.latest(1).unwrap().state;
    server_log.record(0.0, ReconciliationPolicy::from_smoothing_steps(7));
    let peer_target = peer_source.latest(1).unwrap().state;
    peer_log.record(
        distance([0.0; 3], peer_target),
        ReconciliationPolicy::from_smoothing_steps(6),
    );

    let divergence = peer_divergence(
        &server_log,
        &peer_log,
        0.0,
        distance(peer_target, server_target),
    );
    assert_eq!(divergence, 50.0);
}

#[test]
fn record_reports_pop_only_at_or_below_threshold() {
    let mut log = ReconciliationLog::new(0u32);
    let snap = log.record(7, ReconciliationPolicy::from_smoothing_steps(0));
    assert_eq!((snap.residual, snap.blend_frames, snap.pop), (7, 1, true));
    let edge = log.record(8, ReconciliationPolicy::from_smoothing_steps(3));
    assert_eq!((edge.blend_frames, edge.pop), (4, true));
    let smooth = log.record(9, ReconciliationPolicy::from_smoothing_steps(4));
    assert_eq!((smooth.blend_frames, smooth.pop), (5, false));
    let carried = log.carry_forward();
    assert_eq!((carried.residual, carried.blend_frames, carried.pop), (9, 5, false));
    assert!(log.has_reconciled());
    assert_eq!(log.last_residual(), 9);
    assert_eq!(log.last_blend_frames(), 5);
}

#[test]
fn policy_spans_one_to_eight_frames() {
    assert_eq!(ReconciliationPolicy::from_smoothing_steps(0).blend_frames, 1);
    assert_eq!(ReconciliationPolicy::from_smoothing_steps(7).blend_frames, 8);
    assert!(ReconciliationPolicy { blend_frames: 4 }.is_pop());
    assert!(!ReconciliationPolicy { blend_frames: 8 }.is_pop());
}

#[test]
fn stale_updates_measure_elapsed_ticks() {
    assert_eq!(ticks_since(13, 10), 3);
    assert_eq!(ticks_since(10, 10), 0);
    assert_eq!(ticks_since(4, 10), 0);
}

#[test]
fn recent_residuals_keep_the_last_sixty_four() {
    let mut recent = RecentResiduals::new();
    assert_eq!(recent.latest(), None);
    for i in 0..100u32 {
        recent.push(i);
    }
    assert_eq!(recent.len(), 64);
    assert_eq!(recent.latest(), Some(99));
    let mut one = RecentResiduals::new();
    one.push(0.0f32);
    assert_eq!(one.latest(), Some(0.0));
    assert_eq!(one.len(), 1);
}
