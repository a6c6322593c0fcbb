use rand::Rng;
use rusty_net_sim::shim::NetworkShim;

/// Milliseconds to ticks at a tick rate, rounded to the nearest tick.
fn ticks(ms: u32, tick_rate_hz: u32) -> i64 {
    let ms_per_tick = 1000.0 / tick_rate_hz as f64;
    (ms as f64 / ms_per_tick).round() as i64
}

fn link(latency_ms: u32, jitter_ms: u32, seed: u64) -> NetworkShim<u32> {
    NetworkShim::new(ticks(latency_ms, 60), ticks(jitter_ms, 60), seed)
}

/// The loss roll of a lossy link, made on the link's own generator before
/// the message is scheduled.
fn send_lossy(shim: &mut NetworkShim<u32>, loss_pct: f32, send_tick: u64, payload: u32) {
    if loss_pct > 0.0 && shim.rng_mut().gen_range(0.0..100.0) < loss_pct {
        return;
    }
    shim.send(send_tick, payload);
}

#[test]
fn zero_jitter_zero_loss_delivers_at_fixed_offset() {
    // 50ms @ 60Hz = round(50 / 16.667) = 3 ticks.
    let mut shim = link(50, 0, 1);
    assert_eq!(shim.latency_ticks(), 3);
    shim.send(10, 999);

    assert!(shim.poll(12).is_empty());
    assert_eq!(shim.poll(13), vec![999]);
}

#[test]
fn full_loss_drops_everything() {
    let mut shim = link(20, 5, 2);
    for t in 0..50u64 {
        send_lossy(&mut shim, 100.0, t, t as u32);
    }

    assert!(shim.poll(10_000).is_empty());
}

#[test]
fn same_seed_produces_identical_delivery_schedule() {
    let mut a = link(80, 25, 42);
    let mut b = link(80, 25, 42);
    for t in 0..200u64 {
        send_lossy(&mut a, 10.0, t, t as u32);
        send_lossy(&mut b, 10.0, t, t as u32);
    }

    for now in 0..300u64 {
        assert_eq!(a.poll(now), b.poll(now));
    }
}

#[test]
fn zero_loss_never_drops() {
    let mut shim = link(10, 10, 3);
    for t in 0..100u64 {
        shim.send(t, t as u32);
    }

    let mut delivered = shim.poll(10_000);
    delivered.sort_unstable();
    assert_eq!(delivered, (0..100u32).collect::<Vec<_>>());
}

#[test]
fn messages_arrive_within_latency_plus_minus_jitter() {
    // latency 6 ticks, jitter 2 ticks: a message sent at t arrives in [t + 4, t + 8].
    let mut shim: NetworkShim<u64> = NetworkShim::new(6, 2, 11);
    for t in 0..40u64 {
        shim.send(t, t);
    }
    for now in 0..100u64 {
        for sent in shim.poll(now) {
            assert!(now >= sent + 4 && now <= sent + 8, "sent {sent}, delivered at {now}");
        }
    }
    assert_eq!(shim.pending_len(), 0);
}

#[test]
fn delay_is_floored_at_zero() {
    // Jitter can exceed the latency; a message still never arrives before it was sent.
    let mut shim: NetworkShim<u64> = NetworkShim::new(1, 5, 12);
    for t in 10..60u64 {
        shim.send(t, t);
    }
    for now in 0..100u64 {
        for sent in shim.poll(now) {
            assert!(now >= sent);
        }
    }
}

#[test]
fn poll_hands_out_in_delivery_order_and_only_once() {
    let mut shim: NetworkShim<&str> = NetworkShim::new(3, 0, 5);
    shim.send(5, "late");
    shim.send(1, "early");
    shim.send(1, "early-second");
    assert_eq!(shim.pending_len(), 3);
    assert_eq!(shim.poll(3), Vec::<&str>::new());
    assert_eq!(shim.poll(4), vec!["early", "early-second"]);
    assert_eq!(shim.poll(4), Vec::<&str>::new());
    assert_eq!(shim.poll(8), vec!["late"]);
    assert_eq!(shim.pending_len(), 0);
}

#[test]
fn equal_delivery_ticks_keep_send_order() {
    let mut shim: NetworkShim<u32> = NetworkShim::new(2, 0, 9);
    for p in 0..5u32 {
        shim.send(7, p);
    }
    assert_eq!(shim.poll(9), vec![0, 1, 2, 3, 4]);
}

#[test]
fn loss_roll_leaves_lossless_link_untouched() {
    // A zero-loss link never rolls for loss, so its schedule equals that of
    // a plain send on an identically seeded link.
    let mut a = link(80, 25, 7);
    let mut b = link(80, 25, 7);
    for t in 0..50u64 {
        send_lossy(&mut a, 0.0, t, t as u32);
        b.send(t, t as u32);
    }
    for now in 0..200u64 {
        assert_eq!(a.poll(now), b.poll(now));
    }
}

#[test]
fn jitter_draws_spread_over_the_window() {
    let mut shim: NetworkShim<u64> = NetworkShim::new(6, 2, 21);
    for t in 0..40u64 {
        shim.send(t * 100, t * 100);
    }
    let mut delays = Vec::new();
    for now in 0..4_000u64 {
        for sent in shim.poll(now) {
            delays.push(now - sent);
        }
    }
    delays.sort_unstable();
    delays.dedup();
    assert!(delays.len() > 1, "every draw gave the same delay: {delays:?}");
    assert!(delays.iter().all(|d| (4..=8).contains(d)));
}

#[test]
fn polling_does_not_disturb_the_generator() {
    let mut a: NetworkShim<u32> = NetworkShim::new(5, 3, 77);
    let mut b: NetworkShim<u32> = NetworkShim::new(5, 3, 77);
    let mut out_a = Vec::new();
    for t in 0..60u64 {
        out_a.extend(a.poll(t));
        out_a.extend(a.poll(t));
        a.send(t, t as u32);
        b.send(t, t as u32);
    }
    out_a.extend(a.poll(1_000));
    assert_eq!(out_a, b.poll(1_000));
}
