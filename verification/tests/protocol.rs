use relay::dispatch::complete_login;
use relay::dispatch::dispatch;
use relay::dispatch::plan_broadcast;
use relay::dispatch::Directive;
use relay::dispatch::Event;
use relay::registry::Registry;

/// Registers a connection the way the event loop does: dispatch the
/// accept event, check the login notice, report the send as successful.
fn register(r: &mut Registry, id: u16) -> String {
    match dispatch(r, Event::NewConnection(id)) {
        Directive::SendLogin(to, line) => {
            assert_eq!(to, id);
            complete_login(r, id, true);
            line
        }
        _ => panic!("an accepted connection asks for a login send"),
    }
}

fn deliveries(r: &mut Registry, from: u16, text: &str) -> Vec<(u16, String)> {
    match dispatch(r, Event::NewMessage(from, text.to_string())) {
        Directive::Deliver(plan) => plan,
        _ => panic!("a message asks for a delivery"),
    }
}

#[test]
fn two_clients_login_and_relay() {
    let mut r = Registry::new(8192);
    assert_eq!(register(&mut r, 5001), "LOGIN:5001");
    assert_eq!(register(&mut r, 5002), "LOGIN:5002");
    let plan = deliveries(&mut r, 5001, "hello");
    // 5002 gets the tagged message; 5001 gets nothing.
    assert_eq!(plan, vec![(5002, "MESSAGE:5001 hello".to_string())]);
    assert!(plan.iter().all(|(to, _)| *to != 5001));
}

#[test]
fn messages_skip_a_disconnected_client() {
    let mut r = Registry::new(8192);
    register(&mut r, 1);
    register(&mut r, 2);
    register(&mut r, 3);
    assert!(matches!(dispatch(&mut r, Event::Disconnected(1)), Directive::Done));
    let plan = deliveries(&mut r, 2, "ping");
    assert_eq!(plan, vec![(3, "MESSAGE:2 ping".to_string())]);
}

#[test]
fn empty_registry_accepts_a_first_connection() {
    let mut r = Registry::new(8192);
    assert!(r.is_empty());
    let login = register(&mut r, 4242);
    assert_eq!(login, "LOGIN:4242");
    assert!(!r.is_empty());
    assert!(r.contains(4242));
    // Its own first message is broadcast to nobody, and nothing breaks.
    assert!(deliveries(&mut r, 4242, "anyone?").is_empty());
}

#[test]
fn failed_login_send_leaves_the_connection_unregistered() {
    let mut r = Registry::new(8192);
    match dispatch(&mut r, Event::NewConnection(9)) {
        Directive::SendLogin(to, _) => complete_login(&mut r, to, false),
        _ => panic!("an accepted connection asks for a login send"),
    }
    assert!(r.is_empty());
    assert!(!r.contains(9));
}

#[test]
fn simultaneous_broadcasts_complete_without_loss_or_duplication() {
    let mut r = Registry::new(8192);
    register(&mut r, 10);
    register(&mut r, 20);
    register(&mut r, 30);
    let plan_a = deliveries(&mut r, 10, "a");
    let plan_b = deliveries(&mut r, 20, "b");
    assert_eq!(plan_a, vec![(20, "MESSAGE:10 a".to_string()), (30, "MESSAGE:10 a".to_string())]);
    assert_eq!(plan_b, vec![(10, "MESSAGE:20 b".to_string()), (30, "MESSAGE:20 b".to_string())]);
}

#[test]
fn messages_from_one_sender_keep_their_order() {
    let mut r = Registry::new(8192);
    register(&mut r, 1);
    register(&mut r, 2);
    let mut seen_by_2: Vec<String> = Vec::new();
    for text in ["first", "second", "third"] {
        for (to, line) in deliveries(&mut r, 1, text) {
            if to == 2 {
                seen_by_2.push(line);
            }
        }
    }
    assert_eq!(
        seen_by_2,
        vec![
            "MESSAGE:1 first".to_string(),
            "MESSAGE:1 second".to_string(),
            "MESSAGE:1 third".to_string()
        ]
    );
}

#[test]
fn a_line_of_the_maximum_length_is_relayed() {
    let mut r = Registry::new(4);
    register(&mut r, 1);
    register(&mut r, 2);
    let out = r.feed_bytes(1, b"abcd\n");
    assert!(!out.overflow);
    assert_eq!(out.lines.len(), 1);
    let text = String::from_utf8(out.lines[0].clone()).unwrap();
    let plan = deliveries(&mut r, 1, &text);
    assert_eq!(plan, vec![(2, "MESSAGE:1 abcd".to_string())]);
}

#[test]
fn an_overlong_line_disconnects_only_the_offender() {
    let mut r = Registry::new(4);
    register(&mut r, 1);
    register(&mut r, 2);
    register(&mut r, 3);
    let out = r.feed_bytes(1, b"abcde");
    assert!(out.overflow);
    // The loop answers an overflow with a disconnect event for that id.
    dispatch(&mut r, Event::Disconnected(1));
    assert_eq!(r.ids_vec(), vec![2, 3]);
    let ok = r.feed_bytes(2, b"ok\n");
    assert_eq!(ok.lines, vec![b"ok".to_vec()]);
    let plan = deliveries(&mut r, 2, "ok");
    assert_eq!(plan, vec![(3, "MESSAGE:2 ok".to_string())]);
}

#[test]
fn plan_broadcast_names_every_other_connection_once() {
    let mut r = Registry::new(8192);
    for id in [11, 22, 33, 44] {
        r.insert(id);
    }
    let plan = plan_broadcast(&r, 22, "x");
    let targets: Vec<u16> = plan.iter().map(|(to, _)| *to).collect();
    assert_eq!(targets, vec![11, 33, 44]);
    assert!(plan.iter().all(|(_, line)| line == "MESSAGE:22 x"));
}
