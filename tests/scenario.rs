use lockframe::connection::ConnectionState;
use lockframe::scenario::{decimal_string, NetworkEvent, Scenario, World};

#[test]
fn scenario_requires_oracle() {
    let _scenario = Scenario::new("test").client("alice").oracle(|_world| Ok(()));
}

#[test]
fn scenario_creates_actors() {
    let scenario = Scenario::new("test").client("alice").server("hub").oracle(|world| {
        assert!(world.client("alice").is_some());
        assert!(world.server("hub").is_some());
        Ok(())
    });

    scenario.run().expect("scenario should succeed");
}

#[test]
fn scenario_framework_basic_example() {
    let result = Scenario::new("basic example")
        .client("alice")
        .server("hub")
        .oracle(|world| {
            assert!(world.client("alice").is_some(), "alice client should exist");
            assert!(world.server("hub").is_some(), "hub server should exist");

            let alice = world.client("alice").unwrap();
            let hub = world.server("hub").unwrap();

            assert_eq!(
                alice.state(),
                ConnectionState::Authenticated,
                "alice should be Authenticated after handshake"
            );
            assert_eq!(
                hub.state(),
                ConnectionState::Authenticated,
                "hub should be Authenticated after handshake"
            );

            assert_eq!(alice.session_id(), hub.session_id(), "session IDs should match");

            Ok(())
        })
        .run();

    assert!(result.is_ok(), "scenario should succeed: {:?}", result);
}

#[test]
fn scenario_handshake_single_client_server() {
    let result = Scenario::new("single client-server handshake")
        .client("alice")
        .server("hub")
        .oracle(|world| {
            let alice = world.client("alice").ok_or("alice should exist")?;
            let hub = world.server("hub").ok_or("hub should exist")?;

            if alice.state() != ConnectionState::Authenticated {
                return Err(format!("alice should be Authenticated, got {:?}", alice.state()));
            }

            if hub.state() != ConnectionState::Authenticated {
                return Err(format!("hub should be Authenticated, got {:?}", hub.state()));
            }

            let alice_session = alice.session_id().ok_or("alice should have session_id")?;
            let hub_session = hub.session_id().ok_or("hub should have session_id")?;

            if alice_session != hub_session {
                return Err(format!(
                    "session IDs should match: alice={:x}, hub={:x}",
                    alice_session, hub_session
                ));
            }

            if world.frames_sent("alice") != 1 {
                return Err(format!(
                    "alice should have sent 1 frame, got {}",
                    world.frames_sent("alice")
                ));
            }

            if world.frames_received("alice") != 1 {
                return Err(format!(
                    "alice should have received 1 frame, got {}",
                    world.frames_received("alice")
                ));
            }

            if world.frames_sent("hub") != 1 {
                return Err(format!(
                    "hub should have sent 1 frame, got {}",
                    world.frames_sent("hub")
                ));
            }

            if world.frames_received("hub") != 1 {
                return Err(format!(
                    "hub should have received 1 frame, got {}",
                    world.frames_received("hub")
                ));
            }

            Ok(())
        })
        .run();

    assert!(result.is_ok(), "scenario failed: {:?}", result);
}

#[test]
fn scenario_handshake_validates_frame_counts() {
    let result = Scenario::new("frame count validation")
        .client("alice")
        .server("hub")
        .oracle(|world| {
            let alice = world.client("alice").ok_or("alice should exist")?;
            let hub = world.server("hub").ok_or("hub should exist")?;

            assert_eq!(alice.state(), ConnectionState::Authenticated);
            assert_eq!(hub.state(), ConnectionState::Authenticated);

            assert_eq!(world.frames_sent("alice"), 1, "alice should send 1 frame (Hello)");
            assert_eq!(
                world.frames_received("alice"),
                1,
                "alice should receive 1 frame (HelloReply)"
            );

            assert_eq!(world.frames_sent("hub"), 1, "hub should send 1 frame (HelloReply)");
            assert_eq!(world.frames_received("hub"), 1, "hub should receive 1 frame (Hello)");

            Ok(())
        })
        .run();

    assert!(result.is_ok(), "scenario failed: {:?}", result);
}

#[test]
fn handshake_assigns_first_session_id() {
    let result = Scenario::new("session id")
        .client("alice")
        .server("hub")
        .oracle(|world| {
            assert_eq!(world.client("alice").unwrap().session_id(), Some(0x1000_0000_0000_0000));
            assert_eq!(world.server("hub").unwrap().session_id(), Some(0x1000_0000_0000_0000));
            assert!(world.all_authenticated());
            assert!(world.session_ids_match());
            Ok(())
        })
        .run();
    assert!(result.is_ok());
}

#[test]
fn scenario_with_two_clients_fails() {
    let result = Scenario::new("too many")
        .client("a")
        .client("b")
        .server("hub")
        .oracle(|_world| Ok(()))
        .run();
    assert!(result.is_err());
    let result = Scenario::new("no server").client("a").oracle(|_world| Ok(())).run();
    assert!(result.is_err());
}

#[test]
fn oracle_error_is_returned() {
    let result = Scenario::new("failing oracle")
        .client("alice")
        .server("hub")
        .oracle(|_world| Err("nope".to_string()))
        .run();
    assert_eq!(result, Err("nope".to_string()));
}

#[test]
fn world_counters_and_events() {
    let mut world = World::new();
    assert_eq!(world.frames_sent("ghost"), 0);
    world.record_frame_sent("ghost");
    world.record_frame_sent("ghost");
    assert_eq!(world.frames_sent("ghost"), 2);
    assert_eq!(world.frames_received("ghost"), 0);
    world.record_network_event(NetworkEvent::Latency { min_ms: 100, max_ms: 100 });
    world.record_network_event(NetworkEvent::PacketLoss { rate_ppm: 20_000 });
    assert_eq!(world.network_events().len(), 2);
    assert_eq!(world.network_events()[0], NetworkEvent::Latency { min_ms: 100, max_ms: 100 });
    assert!(world.actor_names().is_empty());
    assert!(world.all_authenticated());
    assert!(!world.session_ids_match());
}

fn all_authenticated(world: &World) -> Result<(), String> {
    if world.all_authenticated() {
        Ok(())
    } else {
        Err("not all actors are authenticated".to_string())
    }
}

fn session_ids_match(world: &World) -> Result<(), String> {
    if world.session_ids_match() {
        Ok(())
    } else {
        Err("session ids do not match".to_string())
    }
}

#[test]
fn scenario_framework_oracle_helpers() {
    let result = Scenario::new("oracle helpers")
        .client("client1")
        .server("server1")
        .oracle(all_authenticated)
        .run();

    assert!(result.is_ok(), "scenario should succeed: {:?}", result);
}

#[test]
fn scenario_framework_oracle_composition() {
    let result = Scenario::new("oracle composition")
        .client("alice")
        .server("hub")
        .oracle(|world| {
            all_authenticated(world)?;
            session_ids_match(world)
        })
        .run();

    assert!(result.is_ok(), "scenario should succeed: {:?}", result);
}

#[test]
fn scenario_handshake_use_oracle_helpers() {
    let result = Scenario::new("using oracle helper functions")
        .client("alice")
        .server("hub")
        .oracle(|world| {
            all_authenticated(world)?;
            session_ids_match(world)
        })
        .run();

    assert!(result.is_ok(), "scenario failed: {:?}", result);
}

#[test]
fn actor_count_error_names_scenario_and_counts() {
    let result = Scenario::new("crowd")
        .client("a")
        .client("b")
        .server("hub")
        .oracle(|_world| panic!("the oracle must not run"))
        .run();
    assert_eq!(
        result,
        Err("Scenario 'crowd': only 1 client and 1 server are supported (got 2 clients, 1 servers)"
            .to_string())
    );
    let empty = Scenario::new("empty").oracle(|_world| panic!("the oracle must not run")).run();
    assert_eq!(
        empty,
        Err("Scenario 'empty': only 1 client and 1 server are supported (got 0 clients, 0 servers)"
            .to_string())
    );
}

#[test]
fn decimal_text_of_counts() {
    assert_eq!(decimal_string(0), "0");
    assert_eq!(decimal_string(7), "7");
    assert_eq!(decimal_string(10), "10");
    assert_eq!(decimal_string(1234567890), "1234567890");
}
