use ws_relay::frame::Frame;
use ws_relay::hub::Hub;

fn text(s: &str) -> Frame {
    Frame::Text(s.to_string())
}

#[test]
fn registered_target_receives_exact_payload() {
    let mut hub = Hub::new();
    let b = hub.connect("eph-b".to_string());
    let a = hub.connect("eph-a".to_string());

    hub.step_frame(b, text("{\"type\": \"register\", \"connectionId\": \"X\"}"));
    assert_eq!(hub.queue_len(b), 0);

    let payload = "{\"target_id\": \"X\", \"msg\": \"hello\"}";
    hub.step_frame(a, text(payload));

    assert_eq!(hub.queue_len(b), 1);
    assert_eq!(*hub.queue_at(b, 0), Frame::Text(payload.to_string()));
    assert_eq!(hub.queue_len(a), 0);
}

#[test]
fn second_registration_owns_future_routing() {
    let mut hub = Hub::new();
    let b = hub.connect("eph-b".to_string());
    let c = hub.connect("eph-c".to_string());
    let a = hub.connect("eph-a".to_string());

    hub.step_frame(b, text("{\"type\": \"register\", \"connectionId\": \"X\"}"));
    let early = "{\"target_id\": \"X\", \"msg\": \"early\"}";
    hub.step_frame(a, text(early));
    assert_eq!(hub.queue_len(b), 1);

    hub.step_frame(c, text("{\"type\": \"register\", \"connectionId\": \"X\"}"));
    let late = "{\"target_id\": \"X\", \"msg\": \"late\"}";
    hub.step_frame(a, text(late));

    assert_eq!(hub.queue_len(c), 1);
    assert_eq!(*hub.queue_at(c, 0), Frame::Text(late.to_string()));
    // The early delivery is not redirected retroactively.
    assert_eq!(hub.queue_len(b), 1);
    assert_eq!(*hub.queue_at(b, 0), Frame::Text(early.to_string()));
}

#[test]
fn binary_without_binding_is_dropped() {
    let mut hub = Hub::new();
    let b = hub.connect("eph-b".to_string());
    let a = hub.connect("eph-a".to_string());

    hub.step_frame(b, text("{\"type\": \"register\", \"connectionId\": \"X\"}"));
    hub.step_frame(a, Frame::Binary(vec![1, 2, 3]));

    assert_eq!(hub.queue_len(a), 0);
    assert_eq!(hub.queue_len(b), 0);
}

#[test]
fn binary_follows_most_recent_binding() {
    let mut hub = Hub::new();
    let y = hub.connect("eph-y".to_string());
    let z = hub.connect("eph-z".to_string());
    let a = hub.connect("eph-a".to_string());

    hub.step_frame(y, text("{\"type\": \"register\", \"connectionId\": \"Y\"}"));
    hub.step_frame(z, text("{\"type\": \"register\", \"connectionId\": \"Z\"}"));

    hub.step_frame(a, text("{\"target_id\": \"Y\"}"));
    hub.step_frame(a, Frame::Binary(vec![10]));
    assert_eq!(hub.queue_len(y), 2);
    assert_eq!(*hub.queue_at(y, 1), Frame::Binary(vec![10]));

    hub.step_frame(a, text("{\"target_id\": \"Z\"}"));
    hub.step_frame(a, Frame::Binary(vec![20]));
    assert_eq!(hub.queue_len(z), 2);
    assert_eq!(*hub.queue_at(z, 1), Frame::Binary(vec![20]));
    // Y saw nothing more after the retarget.
    assert_eq!(hub.queue_len(y), 2);
}

#[test]
fn three_ticks_record_three_pings() {
    let mut hub = Hub::new();
    let a = hub.connect("eph-a".to_string());

    hub.tick(a);
    hub.tick(a);
    hub.tick(a);

    assert_eq!(hub.queue_len(a), 3);
    assert_eq!(*hub.queue_at(a, 0), Frame::Ping(vec![]));
    assert_eq!(*hub.queue_at(a, 1), Frame::Ping(vec![]));
    assert_eq!(*hub.queue_at(a, 2), Frame::Ping(vec![]));
}

#[test]
fn pings_interleave_with_traffic() {
    let mut hub = Hub::new();
    let b = hub.connect("eph-b".to_string());
    let a = hub.connect("eph-a".to_string());

    hub.step_frame(b, text("{\"type\": \"register\", \"connectionId\": \"X\"}"));
    hub.tick(b);
    let payload = "{\"target_id\": \"X\", \"n\": 1}";
    hub.step_frame(a, text(payload));
    hub.tick(b);

    assert_eq!(hub.queue_len(b), 3);
    assert_eq!(*hub.queue_at(b, 0), Frame::Ping(vec![]));
    assert_eq!(*hub.queue_at(b, 1), Frame::Text(payload.to_string()));
    assert_eq!(*hub.queue_at(b, 2), Frame::Ping(vec![]));
}

#[test]
fn close_removes_ephemeral_identity() {
    let mut hub = Hub::new();
    let b = hub.connect("eph-b".to_string());

    assert_eq!(hub.resolve(&"eph-b".to_string()), Some(b));
    hub.step_frame(b, Frame::Close);

    assert_eq!(hub.resolve(&"eph-b".to_string()), None);
    assert!(!hub.is_open(b));
}

#[test]
fn close_leaves_later_registration_behind() {
    // The documented lifecycle gap: teardown removes only the original
    // ephemeral identity; an identity taken by registration stays in the
    // registry, pointing at the closed connection, until overwritten.
    let mut hub = Hub::new();
    let b = hub.connect("eph-b".to_string());

    hub.step_frame(b, text("{\"type\": \"register\", \"connectionId\": \"X\"}"));
    hub.step_frame(b, Frame::Close);

    assert_eq!(hub.resolve(&"eph-b".to_string()), None);
    assert_eq!(hub.resolve(&"X".to_string()), Some(b));
}

#[test]
fn one_sender_one_target_keeps_order() {
    let mut hub = Hub::new();
    let b = hub.connect("eph-b".to_string());
    let a = hub.connect("eph-a".to_string());

    hub.step_frame(b, text("{\"type\": \"register\", \"connectionId\": \"X\"}"));
    let t1 = "{\"target_id\": \"X\", \"payload\": 1}";
    let t2 = "{\"target_id\": \"X\", \"payload\": 2}";
    hub.step_frame(a, text(t1));
    hub.step_frame(a, text(t2));
    hub.step_frame(a, Frame::Binary(vec![7, 8, 9]));

    assert_eq!(hub.queue_len(b), 3);
    assert_eq!(*hub.queue_at(b, 0), Frame::Text(t1.to_string()));
    assert_eq!(*hub.queue_at(b, 1), Frame::Text(t2.to_string()));
    assert_eq!(*hub.queue_at(b, 2), Frame::Binary(vec![7, 8, 9]));
}

#[test]
fn registration_rebinds_current_identity() {
    let mut hub = Hub::new();
    let b = hub.connect("eph-b".to_string());

    assert_eq!(hub.current_id(b), "eph-b");
    hub.step_frame(b, text("{\"type\": \"register\", \"connectionId\": \"X\"}"));
    assert_eq!(hub.current_id(b), "X");
}

#[test]
fn addressed_to_unknown_target_is_dropped() {
    let mut hub = Hub::new();
    let a = hub.connect("eph-a".to_string());

    hub.step_frame(a, text("{\"target_id\": \"nobody\", \"msg\": \"void\"}"));
    assert_eq!(hub.queue_len(a), 0);
    assert_eq!(hub.conn_count(), 1);
}

#[test]
fn connect_fresh_registers_a_uuid_identity() {
    let mut hub = Hub::new();
    let (c, id) = hub.connect_fresh();

    assert_eq!(id.len(), 36);
    assert_eq!(hub.resolve(&id), Some(c));
}

#[test]
fn ephemeral_identity_routes_before_registration() {
    // A connection is addressable under its ephemeral identity from the
    // moment it connects.
    let mut hub = Hub::new();
    let b = hub.connect("eph-b".to_string());
    let a = hub.connect("eph-a".to_string());

    let payload = "{\"target_id\": \"eph-b\", \"msg\": \"hi\"}";
    hub.step_frame(a, text(payload));
    assert_eq!(hub.queue_len(b), 1);
    assert_eq!(*hub.queue_at(b, 0), Frame::Text(payload.to_string()));
}
