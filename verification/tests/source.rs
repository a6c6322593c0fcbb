use rusty_net_sim::shim::NetworkShim;
use rusty_net_sim::source::{
    freshest_update, PeerPublishSource, RemoteStateSource, RemoteUpdate, ServerOnlySource,
};

type Position = [f32; 3];

fn ticks(ms: u32, tick_rate_hz: u32) -> i64 {
    let ms_per_tick = 1000.0 / tick_rate_hz as f64;
    (ms as f64 / ms_per_tick).round() as i64
}

#[test]
fn reconciliation_fires_exactly_on_delivery_tick_not_before() {
    let tick_rate_hz = 60;
    let shim: NetworkShim<RemoteUpdate<Position>> =
        NetworkShim::new(ticks(50, tick_rate_hz), ticks(0, tick_rate_hz), 7);
    let mut source = ServerOnlySource::new(shim);

    let send_tick = 10u64;
    let sent_state: Position = [1.0, 2.0, 3.0];
    source.send(
        send_tick,
        RemoteUpdate {
            tick: send_tick,
            state: sent_state,
        },
    );

    let mut reconcile_fired_at: Option<u64> = None;

    for tick in send_tick..=20 {
        if let Some(update) = source.latest(tick) {
            assert!(reconcile_fired_at.is_none(), "reconciled more than once");
            assert_eq!(update.state, sent_state);
            reconcile_fired_at = Some(tick);
        }
    }

    // 50ms @ 60Hz = round(50 / 16.667) = 3 ticks -> delivers at tick 13.
    assert_eq!(reconcile_fired_at, Some(13));
}

#[test]
fn only_the_freshest_of_a_batch_is_kept() {
    let shim: NetworkShim<RemoteUpdate<u32>> = NetworkShim::new(0, 0, 1);
    let mut source = ServerOnlySource::new(shim);
    source.send(5, RemoteUpdate { tick: 3, state: 30 });
    source.send(5, RemoteUpdate { tick: 4, state: 40 });
    source.send(5, RemoteUpdate { tick: 2, state: 20 });
    let got = source.latest(5).unwrap();
    assert_eq!((got.tick, got.state), (4, 40));
    assert!(source.latest(5).is_none());
}

#[test]
fn freshest_prefers_the_later_of_equal_ticks() {
    let batch = vec![
        RemoteUpdate { tick: 7, state: 'a' },
        RemoteUpdate { tick: 9, state: 'b' },
        RemoteUpdate { tick: 9, state: 'c' },
        RemoteUpdate { tick: 1, state: 'd' },
    ];
    let best = freshest_update(batch).unwrap();
    assert_eq!((best.tick, best.state), (9, 'c'));
    assert!(freshest_update(Vec::<RemoteUpdate<char>>::new()).is_none());
}

#[test]
fn peer_source_delivers_published_updates() {
    let shim: NetworkShim<RemoteUpdate<u8>> = NetworkShim::new(2, 0, 4);
    let mut source = PeerPublishSource::new(shim);
    source.publish(1, RemoteUpdate { tick: 1, state: 11 });
    assert!(source.latest(2).is_none());
    let got = source.latest(3).unwrap();
    assert_eq!((got.tick, got.state), (1, 11));
    assert!(source.latest(10).is_none());
}
