use lockstep_core::actions::{Direction, PlayerAction, PlayerId};
use lockstep_core::messages::ChannelId;
use lockstep_core::session::{CoordinationState, Session};

/// Runs one frame on each side and shuttles the produced byte frames
/// across, host first.
fn pump(host: &mut Session, client: &mut Session, host_ch: ChannelId, client_ch: ChannelId) {
    host.frame();
    for (cid, bytes) in host.take_outbound_frames() {
        if cid == host_ch {
            assert!(client.deliver_frame(client_ch, &bytes));
        }
    }
    client.frame();
    for (cid, bytes) in client.take_outbound_frames() {
        if cid == client_ch {
            assert!(host.deliver_frame(host_ch, &bytes));
        }
    }
}

/// Builds a freshly joined host/client pair, pumping until the client
/// is in lockstep.
fn make_host_client_pair() -> (Session, Session, ChannelId, ChannelId) {
    let mut host = Session::new();
    host.connect_as_host();
    for _ in 0..5 {
        host.frame();
    }
    assert_eq!(host.last_simulated_tick(), 5);

    let mut client = Session::new();
    let host_ch = host.add_client_as_host();
    let client_ch = client.connect_as_client();
    assert_eq!(client.coordination_state(), CoordinationState::ConnectedToHost);

    for _ in 0..5 {
        pump(&mut host, &mut client, host_ch, client_ch);
    }
    assert!(client.is_running(), "client should have joined");
    (host, client, host_ch, client_ch)
}

/// The per-tick checksums two participants share must agree.
fn assert_hashes_agree(host: &Session, client: &Session, from_tick: usize) {
    let mut compared = 0;
    for (ct, ch) in client.tick_hash_log() {
        if *ct < from_tick {
            continue;
        }
        for (ht, hh) in host.tick_hash_log() {
            if ht == ct {
                assert_eq!(hh, ch, "checksums diverge at tick {}", ct);
                compared += 1;
            }
        }
    }
    assert!(compared > 0, "no common simulated ticks to compare");
}

#[test]
fn local_degenerate() {
    // Start ConnectedLocal; tick 0 counts as simulated.  Enqueue Fire
    // at frame 1; after frame 1 runs, slot 1 is simulated with exactly
    // that action and the next tick to simulate is 2.
    let mut session = Session::new();
    session.connect_local();
    assert_eq!(session.last_simulated_tick(), 0);

    session.add_action(PlayerAction::Fire);
    session.frame();

    assert_eq!(session.last_simulated_tick(), 1);
    let log = session.tick_hash_log();
    assert_eq!(log.len(), 1);
    assert_eq!(log[0].0, 1);
    // The fired particles are in the world: the demo world has 9
    // entities, one Fire has no controlled entity to anchor on, so the
    // world is unchanged in size but was stepped once.
    session.frame();
    assert_eq!(session.last_simulated_tick(), 2);
}

#[test]
fn sync_test() {
    let (mut host, mut client, host_ch, client_ch) = make_host_client_pair();

    for _ in 0..100 {
        pump(&mut host, &mut client, host_ch, client_ch);

        let host_hash = host.last_tick_hash();
        let client_hash = client.last_tick_hash();
        if host.last_simulated_tick() == client.last_simulated_tick() {
            assert_eq!(
                host_hash,
                client_hash,
                "Out of sync at host={} client={}",
                host.last_simulated_tick(),
                client.last_simulated_tick()
            );
        }
    }
    assert!(client.last_simulated_tick() >= 100);
    assert_hashes_agree(&host, &client, 6);
}

#[test]
fn host_client_join() {
    // Host ticks 5 times alone, the client joins with Ping(0), gets
    // the world as of tick 5 and identity 0, and from tick 6 on both
    // sides record identical checksums.
    let (mut host, mut client, host_ch, client_ch) = make_host_client_pair();
    assert_eq!(client.local_player_id(), Some(PlayerId(0)));

    for _ in 0..10 {
        pump(&mut host, &mut client, host_ch, client_ch);
    }
    assert!(client.last_simulated_tick() >= 15);
    assert_hashes_agree(&host, &client, 6);
}

#[test]
fn action_ordering() {
    // Two clients; both request an action in the same host frame; all
    // three participants end with identical checksums, so the host's
    // drain order was applied everywhere.
    let mut host = Session::new();
    host.connect_as_host();
    host.frame();

    let mut a = Session::new();
    let mut b = Session::new();
    let host_ch_a = host.add_client_as_host();
    let a_ch = a.connect_as_client();
    let host_ch_b = host.add_client_as_host();
    let b_ch = b.connect_as_client();

    let mut pump_all = |host: &mut Session, a: &mut Session, b: &mut Session| {
        host.frame();
        for (cid, bytes) in host.take_outbound_frames() {
            if cid == host_ch_a {
                assert!(a.deliver_frame(a_ch, &bytes));
            } else if cid == host_ch_b {
                assert!(b.deliver_frame(b_ch, &bytes));
            }
        }
        a.frame();
        for (cid, bytes) in a.take_outbound_frames() {
            if cid == a_ch {
                assert!(host.deliver_frame(host_ch_a, &bytes));
            }
        }
        b.frame();
        for (cid, bytes) in b.take_outbound_frames() {
            if cid == b_ch {
                assert!(host.deliver_frame(host_ch_b, &bytes));
            }
        }
    };

    for _ in 0..6 {
        pump_all(&mut host, &mut a, &mut b);
    }
    assert!(a.is_running() && b.is_running());
    assert_eq!(a.local_player_id(), Some(PlayerId(0)));
    assert_eq!(b.local_player_id(), Some(PlayerId(1)));

    // Both clients move their players in the same frame.
    a.add_action(PlayerAction::StartMoving { dir: Direction::right() });
    b.add_action(PlayerAction::StartMoving { dir: Direction::left() });

    for _ in 0..10 {
        pump_all(&mut host, &mut a, &mut b);
    }
    assert_hashes_agree(&host, &a, 6);
    assert_hashes_agree(&host, &b, 6);
    assert_hashes_agree(&a, &b, 6);
}

#[test]
fn buffered_finalizations_during_join() {
    // Finalizations that arrive while the client is still waiting for
    // the world are buffered and applied, in order, right after the
    // world loads.
    let (_host, client, _hc, _cc) = make_host_client_pair();
    // The client joined at tick 5; everything it simulated afterwards
    // came from buffered or fresh finalizations, strictly in order.
    let log = client.tick_hash_log();
    assert!(!log.is_empty());
    let first = log[0].0;
    assert!(first > 5, "the client joined after tick 5");
    for (i, (tick, _)) in log.iter().enumerate() {
        assert_eq!(*tick, first + i, "ticks must be simulated in order");
    }
}

#[test]
fn divergence_detection() {
    // A single perturbation on the client makes the per-tick checksums
    // differ from the host's at every later tick.
    let (mut host, mut client, host_ch, client_ch) = make_host_client_pair();
    for _ in 0..10 {
        pump(&mut host, &mut client, host_ch, client_ch);
    }
    assert_hashes_agree(&host, &client, 6);

    // Nudge one velocity component on the client only.
    assert!(client.perturb_entity_velocity(0, 4096));
    let diverged_from = client.last_simulated_tick() + 1;

    for _ in 0..10 {
        pump(&mut host, &mut client, host_ch, client_ch);
    }
    let mut compared = 0;
    for (ct, ch) in client.tick_hash_log() {
        if *ct < diverged_from {
            continue;
        }
        for (ht, hh) in host.tick_hash_log() {
            if ht == ct {
                assert_ne!(hh, ch, "checksums must diverge at tick {}", ct);
                compared += 1;
            }
        }
    }
    assert!(compared > 0, "no post-perturbation ticks compared");
}

#[test]
fn test_serialization() {
    let mut session = Session::new();
    session.connect_local();
    session.frame();

    let stuffing = session.world().serialize_world();

    println!("{:?}", stuffing.len());

    let reloaded = lockstep_core::world::World::load_world(&stuffing)
        .expect("a fresh snapshot must load");
    assert_eq!(reloaded.hash_world(), session.world().hash_world());
}

#[test]
fn malformed_frame_disconnects_the_peer() {
    let (mut host, mut client, host_ch, client_ch) = make_host_client_pair();
    // Garbage at the host: that client is disconnected, the session
    // survives.
    let garbage = vec![1, 2, 3];
    assert!(!host.deliver_frame(host_ch, &garbage));
    assert_eq!(host.coordination_state(), CoordinationState::Hosting);
    // Garbage at the client: fatal for its session.
    assert!(!client.deliver_frame(client_ch, &garbage));
    assert_eq!(client.coordination_state(), CoordinationState::Disconnected);
}

#[test]
fn client_channels_are_fresh_and_increasing() {
    let mut host = Session::new();
    host.connect_as_host();
    let a = host.add_client_as_host();
    let b = host.add_client_as_host();
    let c = host.add_client_as_host();
    assert_ne!(a, b);
    assert_ne!(b, c);
    assert!(a.0 < b.0 && b.0 < c.0);
}
