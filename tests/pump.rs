use meshpit::{
    claim_connection, inbound_action, IdentityRegistry, InboundAction, IncomingFrame,
};

fn marker() -> String {
    "__hb__".to_string()
}

#[test]
fn heartbeat_frame_is_skipped() {
    let r = inbound_action(Some(IncomingFrame::Text("__hb__".to_string())), &marker());
    assert_eq!(r, InboundAction::Skip);
}

#[test]
fn near_heartbeat_frame_is_delivered_unchanged() {
    let r = inbound_action(Some(IncomingFrame::Text("__hb__x".to_string())), &marker());
    assert_eq!(r, InboundAction::Deliver("__hb__x".to_string()));
    let r = inbound_action(Some(IncomingFrame::Text("".to_string())), &marker());
    assert_eq!(r, InboundAction::Deliver(String::new()));
}

#[test]
fn close_and_end_of_stream_stop() {
    assert_eq!(inbound_action(Some(IncomingFrame::Close), &marker()), InboundAction::Stop);
    assert_eq!(inbound_action(None, &marker()), InboundAction::Stop);
}

#[test]
fn non_text_frame_is_skipped() {
    assert_eq!(inbound_action(Some(IncomingFrame::Other), &marker()), InboundAction::Skip);
}

#[test]
fn stream_of_frames_keeps_order_and_drops_heartbeats() {
    let frames = ["a", "__hb__", "b", "__hb__x", "__hb__", "c"];
    let mut out: Vec<String> = Vec::new();
    for f in frames {
        if let InboundAction::Deliver(t) =
            inbound_action(Some(IncomingFrame::Text(f.to_string())), &marker())
        {
            out.push(t);
        }
    }
    assert_eq!(out, vec!["a", "b", "__hb__x", "c"]);
}

#[test]
fn ping_pong_scenario_through_claimed_mailboxes() {
    // host side: mailbox ends kept by the handle; remote side: ends handed to the pump
    let (to_client_tx, to_client_rx) = std::sync::mpsc::sync_channel::<String>(1);
    let (to_host_tx, to_host_rx) = std::sync::mpsc::sync_channel::<String>(1);
    let mut reg = IdentityRegistry::new();
    reg.register(7, (to_host_tx, to_client_rx)).unwrap();
    let (id, (pump_to_host, pump_from_host)) =
        claim_connection(&mut reg, "/meshpit", Some(b"7")).unwrap();
    assert_eq!(id, 7);
    to_client_tx.send("ping".to_string()).unwrap();
    assert_eq!(pump_from_host.recv().unwrap(), "ping");
    match inbound_action(Some(IncomingFrame::Text("pong".to_string())), &marker()) {
        InboundAction::Deliver(t) => pump_to_host.send(t).unwrap(),
        other => panic!("unexpected {other:?}"),
    }
    assert_eq!(to_host_rx.recv().unwrap(), "pong");
    assert_eq!(inbound_action(Some(IncomingFrame::Close), &marker()), InboundAction::Stop);
    drop(pump_to_host);
    assert!(to_host_rx.recv().is_err());
}
