use arena::{
    receive, ClientError, ClientMessage, Headings, IdAllocator, Key, Moving, Outgoing, PeerEvent, Position,
    Relay, Rotating, ServerMessage, Shot, Sprites, World, FULL_HEALTH, SHOT_TTL, UNIT,
};

fn headings() -> Headings {
    let mut table = Vec::new();
    for d in 0..360 {
        let r = (d as f64).to_radians();
        table.push(((r.sin() * 1000.0).round() as i64, (r.cos() * 1000.0).round() as i64));
    }
    Headings::new(table).unwrap()
}

fn sprites() -> Sprites {
    Sprites { player_width: 10, player_height: 10, shot_width: 4, shot_height: 4 }
}

fn pos(x: i64, y: i64, angle: i64) -> Position {
    Position { x, y, angle }
}

fn init(id: u32, width: u32, height: u32) -> ServerMessage {
    ServerMessage::Init { id, width, height }
}

#[test]
fn allocator_hands_out_smallest_free() {
    let mut ids = IdAllocator::new();
    assert_eq!(ids.allocate(), Some(0));
    assert_eq!(ids.allocate(), Some(1));
    assert_eq!(ids.allocate(), Some(2));
    ids.free(1);
    assert!(!ids.is_live(1));
    assert_eq!(ids.allocate(), Some(1));
    ids.free(0);
    ids.free(2);
    assert_eq!(ids.allocate(), Some(0));
    assert_eq!(ids.allocate(), Some(2));
    assert_eq!(ids.allocate(), Some(3));
}

#[test]
fn allocators_fed_the_same_calls_agree() {
    let mut a = IdAllocator::new();
    let mut b = IdAllocator::new();
    let mut got_a = Vec::new();
    let mut got_b = Vec::new();
    for round in 0..5u32 {
        got_a.push(a.allocate());
        got_b.push(b.allocate());
        got_a.push(a.allocate());
        got_b.push(b.allocate());
        a.free(round);
        b.free(round);
    }
    assert_eq!(got_a, got_b);
}

#[test]
fn first_client_gets_id_zero() {
    let mut relay = Relay::new(800, 600);
    let out = relay.handle(PeerEvent::Connect { peer: 0 });
    assert_eq!(out, Some(Outgoing::Send { peer: 0, message: init(0, 800, 600) }));
    assert_eq!(relay.id_of(0), Some(0));
}

#[test]
fn second_client_and_moves_are_broadcast() {
    let mut relay = Relay::new(800, 600);
    relay.handle(PeerEvent::Connect { peer: 0 });
    let out = relay.handle(PeerEvent::Connect { peer: 1 });
    assert_eq!(out, Some(Outgoing::Send { peer: 1, message: init(1, 800, 600) }));
    let a = pos(1000, 2000, 90);
    let b = pos(3000, 4000, 180);
    let out = relay.handle(PeerEvent::Receive { peer: 0, message: ClientMessage::Move { position: a } });
    assert_eq!(out, Some(Outgoing::Broadcast { message: ServerMessage::Move { id: 0, position: a } }));
    let out = relay.handle(PeerEvent::Receive { peer: 1, message: ClientMessage::Move { position: b } });
    assert_eq!(out, Some(Outgoing::Broadcast { message: ServerMessage::Move { id: 1, position: b } }));
}

#[test]
fn leave_is_broadcast_and_id_reused() {
    let mut relay = Relay::new(800, 600);
    relay.handle(PeerEvent::Connect { peer: 0 });
    relay.handle(PeerEvent::Connect { peer: 1 });
    let out = relay.handle(PeerEvent::Disconnect { peer: 0 });
    assert_eq!(out, Some(Outgoing::Broadcast { message: ServerMessage::Leave { id: 0 } }));
    assert_eq!(relay.id_of(0), None);
    let out = relay.handle(PeerEvent::Connect { peer: 2 });
    assert_eq!(out, Some(Outgoing::Send { peer: 2, message: init(0, 800, 600) }));
    assert_eq!(relay.id_of(1), Some(1));
}

#[test]
fn die_is_answered_with_init_to_sender() {
    let mut relay = Relay::new(640, 480);
    relay.handle(PeerEvent::Connect { peer: 0 });
    relay.handle(PeerEvent::Connect { peer: 5 });
    let out = relay.handle(PeerEvent::Receive { peer: 5, message: ClientMessage::Die });
    assert_eq!(out, Some(Outgoing::Send { peer: 5, message: init(1, 640, 480) }));
    assert_eq!(relay.id_of(5), Some(1));
}

#[test]
fn shoot_is_broadcast_and_malformed_drops() {
    let mut relay = Relay::new(800, 600);
    relay.handle(PeerEvent::Connect { peer: 0 });
    let out = relay.handle(PeerEvent::Receive { peer: 0, message: ClientMessage::Shoot });
    assert_eq!(out, Some(Outgoing::Broadcast { message: ServerMessage::Shoot { id: 0 } }));
    let out = relay.handle(PeerEvent::Malformed { peer: 0 });
    assert_eq!(out, Some(Outgoing::Drop { peer: 0 }));
    let out = relay.handle(PeerEvent::Receive { peer: 9, message: ClientMessage::Shoot });
    assert_eq!(out, None);
    assert_eq!(relay.handle(PeerEvent::Disconnect { peer: 9 }), None);
}

#[test]
fn relayed_events_keep_their_order() {
    let mut relay = Relay::new(800, 600);
    relay.handle(PeerEvent::Connect { peer: 0 });
    relay.handle(PeerEvent::Connect { peer: 1 });
    let events = vec![
        PeerEvent::Receive { peer: 1, message: ClientMessage::Shoot },
        PeerEvent::Receive { peer: 0, message: ClientMessage::Move { position: pos(1, 2, 3) } },
        PeerEvent::Receive { peer: 1, message: ClientMessage::Move { position: pos(4, 5, 6) } },
        PeerEvent::Receive { peer: 0, message: ClientMessage::Shoot },
    ];
    let out: Vec<_> = events.into_iter().map(|e| relay.handle(e)).collect();
    assert_eq!(
        out,
        vec![
            Some(Outgoing::Broadcast { message: ServerMessage::Shoot { id: 1 } }),
            Some(Outgoing::Broadcast { message: ServerMessage::Move { id: 0, position: pos(1, 2, 3) } }),
            Some(Outgoing::Broadcast { message: ServerMessage::Move { id: 1, position: pos(4, 5, 6) } }),
            Some(Outgoing::Broadcast { message: ServerMessage::Shoot { id: 0 } }),
        ]
    );
}

#[test]
fn init_centres_a_fresh_world() {
    let h = headings();
    let mut state = None;
    assert_eq!(receive(&mut state, init(3, 800, 600), &h, sprites()), Ok(()));
    let w = state.unwrap();
    assert_eq!(w.id, 3);
    assert_eq!(w.health, FULL_HEALTH);
    assert_eq!(w.position, pos(400 * UNIT, 300 * UNIT, 0));
    assert_eq!(w.moving, Moving::Idle);
    assert_eq!(w.rotating, Rotating::Idle);
    assert!(w.players.is_empty() && w.shots.is_empty());
}

#[test]
fn messages_before_init_are_unexpected() {
    let h = headings();
    let mut state = None;
    let r = receive(&mut state, ServerMessage::Leave { id: 0 }, &h, sprites());
    assert_eq!(r, Err(ClientError::Unexpected));
    assert!(state.is_none());
    assert!(!ClientError::Unexpected.message().is_empty());
}

#[test]
fn move_out_of_range_is_refused() {
    let h = headings();
    let mut state = Some(World::new(0, 800, 600));
    let r = receive(&mut state, ServerMessage::Move { id: 1, position: pos(i64::MAX, 0, 0) }, &h, sprites());
    assert_eq!(r, Err(ClientError::OutOfRange));
    assert!(state.unwrap().players.is_empty());
}

#[test]
fn move_leave_and_shoot_update_the_world() {
    let h = headings();
    let mut state = Some(World::new(0, 800, 600));
    receive(&mut state, ServerMessage::Move { id: 1, position: pos(100 * UNIT, 200 * UNIT, 90) }, &h, sprites()).unwrap();
    receive(&mut state, ServerMessage::Move { id: 1, position: pos(50 * UNIT, 60 * UNIT, 0) }, &h, sprites()).unwrap();
    let w = state.as_ref().unwrap();
    assert_eq!(w.find(1), Some(pos(50 * UNIT, 60 * UNIT, 0)));
    assert_eq!(w.players.len(), 1);
    receive(&mut state, ServerMessage::Shoot { id: 7 }, &h, sprites()).unwrap();
    assert!(state.as_ref().unwrap().shots.is_empty());
    receive(&mut state, ServerMessage::Shoot { id: 1 }, &h, sprites()).unwrap();
    // facing up: x + (10/2 - 4/2) px, y + 4/2 px - 1 * 10 px
    let shot = state.as_ref().unwrap().shots[0];
    assert_eq!(shot, Shot { ttl: SHOT_TTL, position: pos(53 * UNIT, 52 * UNIT, 0) });
    receive(&mut state, ServerMessage::Leave { id: 1 }, &h, sprites()).unwrap();
    assert_eq!(state.as_ref().unwrap().find(1), None);
    receive(&mut state, ServerMessage::Leave { id: 1 }, &h, sprites()).unwrap();
}

#[test]
fn tick_moves_turns_and_reports_old_position() {
    let h = headings();
    let mut w = World::new(0, 800, 600);
    w.press(Key::Up);
    w.press(Key::Right);
    let out = w.tick(&h, sprites());
    assert_eq!(out, vec![ClientMessage::Move { position: pos(400 * UNIT, 300 * UNIT, 0) }]);
    assert_eq!(w.position, pos(400 * UNIT, 296 * UNIT, 4));
    w.release(Key::Up);
    w.release(Key::Right);
    w.press(Key::Left);
    w.tick(&h, sprites());
    w.tick(&h, sprites());
    // turning left from 0 leaves a negative angle, as Rust's remainder does
    assert_eq!(w.position.angle, -4);
    assert_eq!(w.press(Key::Fire), Some(ClientMessage::Shoot));
    assert_eq!(w.press(Key::Respawn), Some(ClientMessage::Die));
}

#[test]
fn shot_bounces_off_left_wall() {
    let h = headings();
    let mut w = World::new(0, 800, 600);
    w.shots.push(Shot { ttl: SHOT_TTL, position: pos(UNIT, 100 * UNIT, 270) });
    w.tick(&h, sprites());
    assert_eq!(w.shots, vec![Shot { ttl: 1, position: pos(0, 100 * UNIT, 90) }]);
    w.tick(&h, sprites());
    assert_eq!(w.shots[0].position, pos(8 * UNIT, 100 * UNIT, 90));
    assert_eq!(w.shots[0].ttl, 1);
}

#[test]
fn corner_bounce_spends_two_and_purges() {
    let h = headings();
    let mut w = World::new(0, 800, 600);
    w.shots.push(Shot { ttl: SHOT_TTL, position: pos(UNIT, UNIT, 315) });
    w.tick(&h, sprites());
    assert!(w.shots.is_empty());
}

#[test]
fn charged_shot_hits_and_discharged_does_not() {
    let h = headings();
    let mut w = World::new(0, 800, 600);
    w.place(0, pos(100 * UNIT, 100 * UNIT, 0));
    w.shots.push(Shot { ttl: SHOT_TTL, position: pos(101 * UNIT, 105 * UNIT, 90) });
    w.tick(&h, sprites());
    assert_eq!(w.health, FULL_HEALTH);
    assert_eq!(w.shots.len(), 1);
    w.shots.clear();
    w.shots.push(Shot { ttl: 1, position: pos(101 * UNIT, 105 * UNIT, 90) });
    let out = w.tick(&h, sprites());
    assert!(w.shots.is_empty());
    assert_eq!(w.health, FULL_HEALTH - 1);
    assert_eq!(out.len(), 1);
}

#[test]
fn hit_on_other_player_spends_shot_only() {
    let h = headings();
    let mut w = World::new(0, 800, 600);
    w.place(4, pos(100 * UNIT, 100 * UNIT, 0));
    w.shots.push(Shot { ttl: 1, position: pos(101 * UNIT, 105 * UNIT, 90) });
    w.tick(&h, sprites());
    assert!(w.shots.is_empty());
    assert_eq!(w.health, FULL_HEALTH);
}

#[test]
fn last_hit_sends_die_and_init_restores() {
    let h = headings();
    let mut state = Some(World::new(0, 800, 600));
    {
        let w = state.as_mut().unwrap();
        w.health = 1;
        w.place(0, pos(100 * UNIT, 100 * UNIT, 0));
        w.shots.push(Shot { ttl: 1, position: pos(101 * UNIT, 105 * UNIT, 90) });
        let out = w.tick(&h, sprites());
        assert_eq!(out.len(), 2);
        assert_eq!(out[1], ClientMessage::Die);
        assert_eq!(w.health, 0);
    }
    receive(&mut state, init(0, 800, 600), &h, sprites()).unwrap();
    let w = state.unwrap();
    assert_eq!(w.health, FULL_HEALTH);
    assert_eq!(w.position, pos(400 * UNIT, 300 * UNIT, 0));
}

#[test]
fn headings_table_is_checked() {
    assert!(Headings::new(vec![(0, 1000); 359]).is_none());
    assert!(Headings::new(vec![(0, 1001); 360]).is_none());
    assert!(Headings::new(vec![(0, 1000); 360]).is_some());
}

#[test]
fn position_range_is_checked() {
    assert!(pos(0, 0, 0).is_valid());
    assert!(!pos(0, 0, i64::MIN).is_valid());
}
