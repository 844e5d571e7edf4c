//! The broker's transport: protection, admission and sessions.
use mailctl::domain::{Error, ErrorCode};
use mailctl::ipc::{
    binding, check_broker, check_hello, check_listener, check_reply, check_welcome,
    endpoint_identity, frame_length, let_in, lock_file, protected_directory, release, replaces_reply,
    request_id, require_listeners, reserve, settle, Attributes, Binding, Budget, Ending,
    ListenerLimits, Message, Node, Occupant, Preflight, Probe, Reaction, Session,
};

fn attributes(node: Node) -> Attributes {
    Attributes { node, owner: 501, mode: 0o700, links: 1, canonical: true }
}

fn budget() -> Budget {
    Budget::new(&ListenerLimits {
        ipc_frame_bytes: 1024,
        json_nesting: 8,
        clients: 4,
        handshakes: 2,
        active_requests: 3,
        queued_requests: 2,
        buffered_bytes: 10_000,
        handshake_seconds: 1,
        operation_seconds: 2,
        connection_lifetime_seconds: 3,
    })
}

fn request(id: &str) -> Message {
    Message::Request { request_id: id.to_string() }
}

fn cancel(id: &str, target: &str) -> Message {
    Message::Cancel { request_id: id.to_string(), target_request_id: target.to_string() }
}

#[test]
fn directories_and_sockets_must_be_private() {
    let directory = attributes(Node::Directory);
    assert!(protected_directory(Some(directory), 501).is_ok());
    assert_eq!(
        protected_directory(None, 501).unwrap_err().code,
        ErrorCode::BrokerUnavailable
    );
    for broken in [
        Attributes { owner: 0, ..directory },
        Attributes { mode: 0o750, ..directory },
        Attributes { canonical: false, ..directory },
        attributes(Node::Regular),
    ] {
        assert_eq!(
            protected_directory(Some(broken), 501).unwrap_err().code,
            ErrorCode::PermissionDenied
        );
    }
    let socket = attributes(Node::Socket);
    assert!(endpoint_identity(Some(directory), Some(socket), 501).is_ok());
    assert_eq!(
        endpoint_identity(Some(directory), None, 501).unwrap_err().code,
        ErrorCode::BrokerUnavailable
    );
    assert_eq!(
        endpoint_identity(Some(directory), Some(directory), 501).unwrap_err().code,
        ErrorCode::PermissionDenied
    );
    assert!(endpoint_identity(None, Some(socket), 501).is_err());
}

#[test]
fn lock_files_have_one_name() {
    let file = attributes(Node::Regular);
    assert!(lock_file(Some(file), 501).is_ok());
    for broken in [None, Some(Attributes { links: 2, ..file }), Some(attributes(Node::Socket))] {
        assert_eq!(lock_file(broken, 501).unwrap_err().code, ErrorCode::PermissionDenied);
    }
}

#[test]
fn listeners_are_checked_before_any_is_served() {
    let directory = Some(attributes(Node::Directory));
    assert_eq!(check_listener(directory, Occupant::Nothing, 501).unwrap(), Preflight::Proceed);
    assert_eq!(check_listener(None, Occupant::Nothing, 501).unwrap(), Preflight::Skip);
    let socket = Occupant::Found(attributes(Node::Socket));
    assert_eq!(check_listener(directory, socket, 501).unwrap(), Preflight::Proceed);
    for occupant in [Occupant::Unreadable, Occupant::Found(attributes(Node::Regular))] {
        assert_eq!(
            check_listener(directory, occupant, 501).unwrap_err().code,
            ErrorCode::PermissionDenied
        );
    }
    assert!(check_listener(Some(attributes(Node::Other)), Occupant::Nothing, 501).is_err());
}

#[test]
fn live_sockets_are_never_replaced() {
    assert_eq!(binding(Probe::Absent), Binding::Bind);
    assert_eq!(binding(Probe::Refused), Binding::RemoveAndBind);
    assert_eq!(binding(Probe::Live), Binding::MarkUnavailable);
    assert!(require_listeners(1).is_ok());
    assert_eq!(require_listeners(0).unwrap_err().code, ErrorCode::BrokerUnavailable);
}

#[test]
fn reservations_take_from_both_shares_or_from_neither() {
    let (mut global, mut local) = (10usize, 4usize);
    reserve(&mut global, &mut local, 4).unwrap();
    assert_eq!((global, local), (6, 0));
    assert_eq!(
        reserve(&mut global, &mut local, 1).unwrap_err().code,
        ErrorCode::RateLimited
    );
    assert_eq!((global, local), (6, 0));
    release(&mut global, &mut local, 4);
    assert_eq!((global, local), (10, 4));
}

#[test]
fn frames_have_a_length() {
    assert_eq!(frame_length(100, 1024).unwrap(), 200);
    for length in [0, 1025] {
        assert_eq!(frame_length(length, 1024).unwrap_err().code, ErrorCode::InvalidRequest);
    }
    assert_eq!(frame_length(0x7fff_ffff, usize::MAX).unwrap(), 0xffff_fffe);
    assert_eq!(frame_length(0x8000_0000, usize::MAX).unwrap_err().code, ErrorCode::RateLimited);
}

#[test]
fn greetings_are_checked() {
    assert!(check_hello("hello", &None, 1).is_ok());
    assert!(check_hello("hello", &Some("a".repeat(256)), 1).is_ok());
    assert_eq!(
        check_hello("hello", &Some("a".repeat(257)), 1).unwrap_err().code,
        ErrorCode::InvalidRequest
    );
    assert_eq!(check_hello("hi", &None, 1).unwrap_err().code, ErrorCode::InvalidRequest);
    assert_eq!(check_hello("hello", &None, 2).unwrap_err().code, ErrorCode::ProtocolMismatch);
    assert!(check_welcome(1).is_ok());
    assert_eq!(check_welcome(2).unwrap_err().code, ErrorCode::ProtocolMismatch);
    assert!(check_broker(Some(501), 501).is_ok());
    assert_eq!(check_broker(Some(0), 501).unwrap_err().code, ErrorCode::PermissionDenied);
    assert_eq!(check_broker(None, 501).unwrap_err().code, ErrorCode::PermissionDenied);
}

#[test]
fn request_identifiers_are_short_words() {
    assert!(request_id("abc-DEF_09"));
    assert!(request_id(&"a".repeat(64)));
    assert!(!request_id(&"a".repeat(65)));
    assert!(!request_id(""));
    assert!(!request_id("a b"));
}

#[test]
fn sessions_start_queue_and_cancel_requests() {
    let mut session = Session::new();
    let (mut global, mut local) = (budget(), budget());
    assert!(matches!(
        session.receive(&request("one"), &mut global, &mut local, 100).unwrap(),
        Reaction::Start
    ));
    assert_eq!(global.bytes, 10_000 - 3 - 128 - 100);
    assert_eq!(global.queued, 1);
    assert!(matches!(
        session.receive(&request("two"), &mut global, &mut local, 100).unwrap(),
        Reaction::Start
    ));
    match session.receive(&request("three"), &mut global, &mut local, 100).unwrap() {
        Reaction::Refuse(error) => assert_eq!(error.code, ErrorCode::RateLimited),
        other => panic!("{other:?}"),
    }
    match session.receive(&cancel("four", "one"), &mut global, &mut local, 100).unwrap() {
        Reaction::Cancelled { target } => assert_eq!(target, "one"),
        other => panic!("{other:?}"),
    }
    match session.receive(&cancel("five", "one"), &mut global, &mut local, 100).unwrap() {
        Reaction::Refuse(error) => assert_eq!(error.code, ErrorCode::InvalidRequest),
        other => panic!("{other:?}"),
    }
    assert!(session.finish("two"));
    assert!(!session.finish("two"));
}

#[test]
fn identifiers_are_never_used_twice() {
    let mut session = Session::new();
    let (mut global, mut local) = (budget(), budget());
    session.receive(&request("one"), &mut global, &mut local, 1).unwrap();
    assert!(session.finish("one"));
    assert_eq!(
        session.receive(&request("one"), &mut global, &mut local, 1).unwrap_err().code,
        ErrorCode::InvalidRequest
    );
}

#[test]
fn sessions_end_when_nothing_is_left() {
    let mut session = Session::new();
    let (mut global, mut local) = (budget(), budget());
    local.bytes = 130;
    assert_eq!(
        session.receive(&request("one"), &mut global, &mut local, 1).unwrap_err().code,
        ErrorCode::RateLimited
    );
    assert_eq!((global.bytes, local.bytes), (10_000, 130));
    local.bytes = 131;
    assert_eq!(
        session.receive(&request("one"), &mut global, &mut local, 1).unwrap_err().code,
        ErrorCode::RateLimited
    );
    assert_eq!(local.bytes, 0);
}

#[test]
fn endings_become_results() {
    assert_eq!(settle::<u8>(Ending::Cancelled).unwrap_err().code, ErrorCode::Cancelled);
    assert_eq!(settle::<u8>(Ending::Expired).unwrap_err().code, ErrorCode::Timeout);
    assert_eq!(settle(Ending::Finished(Ok(3))).unwrap(), 3);
    assert!(replaces_reply(&Error::new(ErrorCode::ResponseTooLarge)));
    assert!(!replaces_reply(&Error::new(ErrorCode::Timeout)));
    assert!(check_reply("a", "a", 1).is_ok());
    assert_eq!(check_reply("a", "b", 1).unwrap_err().code, ErrorCode::ProtocolMismatch);
    assert_eq!(check_reply("a", "a", 2).unwrap_err().code, ErrorCode::ProtocolMismatch);
}

#[test]
fn callers_are_let_in_with_both_places_or_with_none() {
    let served = vec![501, 502];
    let (mut global, mut local) = (budget(), budget());
    assert!(!let_in(None, &served, &mut global, &mut local));
    assert!(!let_in(Some(503), &served, &mut global, &mut local));
    assert_eq!((global, local), (budget(), budget()));
    assert!(let_in(Some(502), &served, &mut global, &mut local));
    assert_eq!((global.clients, global.handshakes), (3, 1));
    assert_eq!((local.clients, local.handshakes), (3, 1));
    global.handshakes = 0;
    let before = (global, local);
    assert!(!let_in(Some(501), &served, &mut global, &mut local));
    assert_eq!((global, local), before);
    global.handshakes = 1;
    local.clients = 0;
    let before = (global, local);
    assert!(!let_in(Some(501), &served, &mut global, &mut local));
    assert_eq!((global, local), before);
}
