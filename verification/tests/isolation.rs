//! The isolated topology: routes, sessions and the paths they rely on.
use mailctl::config::Limits;
use mailctl::domain::{Capabilities, Capacity, ErrorCode, Health, OperationResult, ProcessCapacity};
use mailctl::isolation::{
    check_contents, check_frame, check_greeting, check_home, check_lock, check_private_file, check_request,
    check_run_directory, check_state, frame_length, isolated_capacity,
    session_limits, stale_socket, starts_with, verify_private_directory, verify_root_path, Caller,
    Client, ClientFrame, GrantPlaces, Leftover, Offer, PathFacts, Places, Route, REQUEST_BYTES,
    SESSIONS,
};

const SOCKET: &str = "/Library/Application Support/mailctl-isolated/run/socket";

fn route() -> Route {
    Route {
        version: 1,
        service_uid: 300,
        socket: SOCKET.to_string(),
        callers: vec![
            Caller { uid: 501, grant: "default".to_string() },
            Caller { uid: 502, grant: "writer".to_string() },
        ],
    }
}

fn facts() -> PathFacts {
    PathFacts {
        link: false,
        directory: true,
        regular: false,
        socket: false,
        owner: 0,
        mode: 0o755,
        length: 0,
    }
}

#[test]
fn session_admission_requires_space_for_generic_json_decoding() {
    let limits = Limits {
        envelope_bytes: 1024,
        buffered_bytes: 1024 * 1024,
        ..Limits::default()
    };
    limits.validate().unwrap();
    assert_eq!(
        session_limits(&limits).unwrap_err().code,
        ErrorCode::BrokerUnavailable
    );
    assert!(session_limits(&Limits::default()).unwrap().1 >= 1024);
}

#[test]
fn sessions_narrow_the_limits_of_their_grant() {
    let configured = Limits::default();
    let (limits, bound) = session_limits(&configured).unwrap();
    assert_eq!(limits.active_requests, 1);
    assert!(limits.operation_seconds <= 30);
    assert!(limits.json_nesting <= 32);
    assert!(SESSIONS * (128 * REQUEST_BYTES + 16 * bound) <= configured.buffered_bytes);
    let share = configured.buffered_bytes / 4;
    assert_eq!(bound, configured.envelope_bytes.min((share - 8_388_608) / 16));
}

#[test]
fn routes_lead_to_one_socket_and_name_callers_once() {
    route().validate().unwrap();
    let broken: Vec<fn(&mut Route)> = vec![
        |route| route.version = 2,
        |route| route.service_uid = 0,
        |route| route.socket = "/tmp/socket".to_string(),
        |route| route.callers[0].uid = 0,
        |route| route.callers[0].uid = 300,
        |route| route.callers[0].uid = 502,
        |route| route.callers[0].grant = String::new(),
        |route| route.callers[0].grant = "a".repeat(129),
    ];
    for change in broken {
        let mut route = route();
        change(&mut route);
        assert_eq!(route.validate().unwrap_err().code, ErrorCode::BrokerUnavailable);
    }
}

#[test]
fn routes_may_spell_their_socket_otherwise() {
    let mut spelled = route();
    spelled.socket = SOCKET.replace("/run/", "//run/./");
    assert!(spelled.validate().is_ok());
    spelled.socket = format!("{SOCKET}/other");
    assert_eq!(spelled.validate().unwrap_err().code, ErrorCode::BrokerUnavailable);
}

#[test]
fn callers_have_the_grant_that_their_route_names() {
    let route = route();
    assert_eq!(route.grant(502), Some("writer"));
    assert_eq!(route.grant(503), None);
    assert!(route.check_caller(501).is_ok());
    for uid in [0, 300, 503] {
        assert_eq!(route.check_caller(uid).unwrap_err().code, ErrorCode::PermissionDenied);
    }
    assert!(route.check_server(300).is_ok());
    assert_eq!(route.check_server(0).unwrap_err().code, ErrorCode::BrokerUnavailable);
    assert!(route.check_peer(Some(300)).is_ok());
    assert!(route.check_peer(Some(0)).is_err());
    assert!(route.check_peer(None).is_err());
}

#[test]
fn clients_accept_a_plausible_offer() {
    let hello = |version: u32, response_bound: usize| Offer::Hello {
        version,
        limits: Limits::default(),
        response_bound,
    };
    let client = Client::accept(hello(1, 1024)).unwrap();
    assert!(client.open && client.response_bound == 1024);
    let too_much = Limits::default().envelope_bytes + 1;
    for offer in [hello(2, 1024), hello(1, 1023), hello(1, too_much), Offer::Other] {
        assert_eq!(Client::accept(offer).unwrap_err().code, ErrorCode::ProtocolMismatch);
    }
}

#[test]
fn broken_exchanges_close_the_session() {
    let offer = Offer::Hello { version: 1, limits: Limits::default(), response_bound: 2048 };
    let mut client = Client::accept(offer).unwrap();
    client.limit_response(4096);
    assert_eq!(client.response_bound, 2048);
    client.limit_response(1500);
    assert_eq!(client.response_bound, 1500);
    client.begin().unwrap();
    client.finish(true).unwrap();
    client.begin().unwrap();
    assert_eq!(client.begin().unwrap_err().code, ErrorCode::BrokerUnavailable);
    assert_eq!(client.finish(false).unwrap_err().code, ErrorCode::ProtocolMismatch);
    assert!(!client.open);
}

#[test]
fn sessions_greet_once_and_then_ask() {
    assert!(check_greeting(ClientFrame::Hello { version: 1 }).is_ok());
    for frame in [ClientFrame::Hello { version: 2 }, ClientFrame::Doctor { response_limit: 1024 }] {
        assert_eq!(check_greeting(frame).unwrap_err().code, ErrorCode::ProtocolMismatch);
    }
    assert_eq!(check_request(ClientFrame::Doctor { response_limit: 1024 }, 2048).unwrap(), 1024);
    assert_eq!(
        check_request(ClientFrame::Hello { version: 1 }, 2048).unwrap_err().code,
        ErrorCode::ProtocolMismatch
    );
    for response_limit in [1023, 2049] {
        assert_eq!(
            check_request(ClientFrame::Operation { response_limit }, 2048).unwrap_err().code,
            ErrorCode::InvalidRequest
        );
    }
}

#[test]
fn capabilities_show_the_capacity_of_a_session() {
    let capabilities = Capabilities {
        operations: vec!["health".to_string()],
        permissions: Vec::new(),
        health: Health {
            status: "ready".to_string(),
            listener: "default".to_string(),
            accounts: Vec::new(),
        },
        capacity: Capacity {
            isolation: None,
            per_process: ProcessCapacity {
                active_requests: 9,
                queued_requests: 9,
                buffered_bytes: 77,
            },
        },
    };
    let limits = Limits::default();
    match isolated_capacity(Ok(OperationResult::Capabilities(capabilities)), &limits, 3).unwrap() {
        OperationResult::Capabilities(shown) => {
            assert_eq!(shown.capacity.per_process.active_requests, 3);
            assert_eq!(shown.capacity.per_process.queued_requests, 0);
            assert_eq!(shown.capacity.per_process.buffered_bytes, 77);
            let isolation = shown.capacity.isolation.unwrap();
            assert_eq!(isolation.sessions, 3);
            assert_eq!(isolation.request_bytes, 65_536);
            assert_eq!(isolation.session_seconds, limits.connection_lifetime_seconds as u64);
        }
        other => panic!("{other:?}"),
    }
}

#[test]
fn isolated_frames_are_measured_before_they_are_decoded() {
    assert_eq!(frame_length(7, 8).unwrap(), 7);
    assert!(frame_length(0, 8).is_err());
    assert!(frame_length(9, 8).is_err());
    assert!(check_frame(b"[[1]]", 2).is_ok());
    assert_eq!(check_frame(b"[[1]]", 1).unwrap_err().code, ErrorCode::InvalidRequest);
}

#[test]
fn places_are_taken_from_the_service_and_the_grant() {
    let mut places = Places {
        left: 2,
        grants: vec![
            GrantPlaces { grant: "default".to_string(), cap: 1, left: 1 },
            GrantPlaces { grant: "writer".to_string(), cap: 4, left: 4 },
        ],
    };
    assert_eq!(places.take("default"), Some(1));
    assert_eq!(places.take("default"), None);
    assert_eq!(places.take("other"), None);
    assert_eq!(places.take("writer"), Some(4));
    assert_eq!(places.take("writer"), None);
    assert_eq!(places.left, 0);
    assert_eq!(places.grants[1].left, 3);
}

#[test]
fn places_return_to_the_service_and_the_grant() {
    assert_eq!(Places::new(2).left, 2);
    let mut places = Places::new(100);
    assert_eq!(places.left, SESSIONS);
    assert!(places.grants.is_empty());
    places.enroll("default", 1, SESSIONS);
    places.enroll("writer", 100, SESSIONS);
    places.enroll("default", 100, SESSIONS);
    let caps: Vec<usize> = places.grants.iter().map(|grant| grant.cap).collect();
    assert_eq!(caps, vec![1, SESSIONS]);
    assert_eq!(places.take("default"), Some(1));
    assert_eq!(places.take("default"), None);
    places.give_back("default");
    assert_eq!((places.left, places.grants[0].left), (SESSIONS, 1));
    assert_eq!(places.take("default"), Some(1));
}

#[test]
fn root_paths_belong_to_the_superuser() {
    let file = PathFacts { directory: false, regular: true, mode: 0o644, ..facts() };
    assert!(verify_root_path(true, &vec![file, facts()], false).is_ok());
    assert!(verify_root_path(false, &vec![file, facts()], false).is_err());
    assert!(verify_root_path(true, &vec![file, facts()], true).is_err());
    assert!(verify_root_path(true, &vec![facts(), file], false).is_err());
    for broken in [
        PathFacts { link: true, ..facts() },
        PathFacts { owner: 1, ..facts() },
        PathFacts { mode: 0o775, ..facts() },
    ] {
        assert!(verify_root_path(true, &vec![facts(), broken], true).is_err());
    }
}

#[test]
fn private_paths_belong_to_the_service() {
    let home = PathFacts { owner: 300, mode: 0o700, ..facts() };
    assert!(verify_private_directory(&vec![home, facts()], 300).is_ok());
    assert!(verify_private_directory(&vec![facts(), facts()], 300).is_err());
    assert!(verify_private_directory(&Vec::new(), 300).is_err());
    assert!(
        verify_private_directory(&vec![PathFacts { mode: 0o750, ..home }, facts()], 300).is_err()
    );
    let file = PathFacts {
        directory: false,
        regular: true,
        owner: 300,
        mode: 0o600,
        length: 10,
        ..facts()
    };
    assert!(check_private_file(file, 10, 300, 0o077).is_ok());
    assert!(check_private_file(file, 9, 300, 0o077).is_err());
    assert!(check_private_file(PathFacts { mode: 0o604, ..file }, 10, 300, 0o077).is_err());
    assert!(check_private_file(PathFacts { mode: 0o604, ..file }, 10, 300, 0o022).is_ok());
    assert!(check_contents(10, 10).is_ok());
    assert!(check_contents(11, 10).is_err());
    assert!(check_lock(file, 300).is_ok());
    assert!(check_lock(file, 301).is_err());
    let run = PathFacts { owner: 300, mode: 0o711, ..facts() };
    assert!(check_run_directory(run, 300).is_ok());
    assert!(check_run_directory(PathFacts { mode: 0o700, ..run }, 300).is_err());
}

#[test]
fn only_sockets_are_removed() {
    assert!(!stale_socket(Leftover::Nothing).unwrap());
    let socket = PathFacts { directory: false, socket: true, ..facts() };
    assert!(stale_socket(Leftover::Found(socket)).unwrap());
    assert!(stale_socket(Leftover::Found(facts())).is_err());
    assert!(stale_socket(Leftover::Unreadable).is_err());
}

#[test]
fn state_lies_within_its_home() {
    assert!(starts_with("/home/a", "/home/a"));
    assert!(starts_with("/home//a/./b", "/home/a/"));
    assert!(starts_with("/home", "/"));
    assert!(!starts_with("home/a", "/home"));
    assert!(starts_with("/home/a/b", "/home/a"));
    assert!(!starts_with("/home/ab", "/home/a"));
    assert!(!starts_with("/home", "/home/a"));
    assert!(check_state("/home/a/state", "/home/a").is_ok());
    assert_eq!(
        check_state("/var/state", "/home/a").unwrap_err().code,
        ErrorCode::BrokerUnavailable
    );
}

#[test]
fn the_service_has_one_home() {
    assert!(check_home("/private/var/db/mailctl-isolated").is_ok());
    assert!(check_home("/private/var/db/mailctl-isolated/").is_ok());
    assert_eq!(
        check_home("/private/var/db/mailctl-isolated/home").unwrap_err().code,
        ErrorCode::BrokerUnavailable
    );
    assert!(check_home("/Users/someone").is_err());
}
