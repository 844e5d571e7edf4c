//! Search criteria, pages of results and the commands behind them.
use mailctl::config::Limits;
use mailctl::domain::search::{
    bounded_text, page_limit, search_text, Metadata, MessageMetadata, SearchCriteria, SearchDate,
    SearchMessagesInput, SearchPredicate, StandardFlag,
};
use mailctl::domain::{Error, ErrorCode};
use mailctl::imap::search::{fetch_order, query, search_key, upper_uid, SearchKey};
use mailctl::search::{origin, LocatedMessage, Origin, Page, Row, SearchPosition};

fn date(text: &str) -> SearchDate {
    SearchDate::try_from(text.to_string()).unwrap()
}

fn text(value: &str) -> String {
    value.to_string()
}

fn metadata() -> MessageMetadata {
    MessageMetadata {
        subject: Metadata::Missing,
        from: Metadata::Missing,
        to: Metadata::Missing,
        cc: Metadata::Missing,
        received_date: text("2024-05-06T00:00:00Z"),
        sent_date: Metadata::Missing,
        flags: Vec::new(),
        message_id: Metadata::Missing,
        size: 1,
    }
}

fn found(uid: u32) -> Row {
    Row { message: LocatedMessage { uid, metadata: metadata() }, size: 100 }
}

fn position(next_uid: u32) -> SearchPosition {
    SearchPosition { uid_validity: 7, upper_uid: 100, next_uid }
}

#[test]
fn dates_are_canonical_days() {
    let day = date("2024-02-29");
    assert_eq!(day.as_str(), "2024-02-29");
    assert_eq!(day.date(), (2024, 2, 29));
    for refused in ["2023-02-29", "2024-2-9", "0000-01-01", "2024-13-01", "", "2024-02-29 ", "+2024-01-01"] {
        assert_eq!(
            SearchDate::try_from(text(refused)).unwrap_err().code,
            ErrorCode::InvalidRequest,
            "{refused:?}"
        );
    }
    assert!(SearchDate::canonical(text("2024-03-01"), (2024, 3, 1)).is_ok());
    assert!(SearchDate::canonical(text("2024-03-01"), (2024, 3, 2)).is_err());
    assert!(SearchDate::canonical(text("10000-03-01"), (10000, 3, 1)).is_err());
}

#[test]
fn dates_are_ordered_by_their_texts() {
    let days = ["0001-01-01", "0999-12-31", "2023-12-31", "2024-01-01", "2024-01-10", "9999-12-31"];
    for (i, a) in days.iter().enumerate() {
        for (j, b) in days.iter().enumerate() {
            assert_eq!(i < j, date(a).date() < date(b).date());
            assert_eq!(i < j, a < b);
        }
    }
}

#[test]
fn criteria_are_sorted_and_repetitions_are_kept() {
    let criteria = SearchCriteria::try_from(vec![
        SearchPredicate::Text { value: text("b") },
        SearchPredicate::ForbiddenFlag { flag: StandardFlag::Seen },
        SearchPredicate::From { value: text("z") },
        SearchPredicate::Text { value: text("a") },
        SearchPredicate::Text { value: text("b") },
        SearchPredicate::ReceivedAfter { date: date("2024-01-01") },
    ])
    .unwrap();
    assert_eq!(
        criteria.predicates(),
        &[
            SearchPredicate::ReceivedAfter { date: date("2024-01-01") },
            SearchPredicate::From { value: text("z") },
            SearchPredicate::Text { value: text("a") },
            SearchPredicate::Text { value: text("b") },
            SearchPredicate::Text { value: text("b") },
            SearchPredicate::ForbiddenFlag { flag: StandardFlag::Seen },
        ]
    );
    assert!(SearchCriteria::default().predicates().is_empty());
}

#[test]
fn contradictions_and_excess_are_refused() {
    let refused = vec![
        vec![
            SearchPredicate::RequiredFlag { flag: StandardFlag::Seen },
            SearchPredicate::ForbiddenFlag { flag: StandardFlag::Seen },
        ],
        vec![
            SearchPredicate::ReceivedBefore { date: date("2024-01-01") },
            SearchPredicate::ReceivedAfter { date: date("2024-01-01") },
        ],
        vec![
            SearchPredicate::SentBefore { date: date("2024-01-01") },
            SearchPredicate::SentAfter { date: date("2024-01-02") },
        ],
        vec![SearchPredicate::Subject { value: text("a\0") }],
        vec![SearchPredicate::Subject { value: "a".repeat(4097) }],
        (0..33).map(|_| SearchPredicate::Text { value: text("a") }).collect(),
    ];
    for predicates in refused {
        assert_eq!(
            SearchCriteria::try_from(predicates).unwrap_err().code,
            ErrorCode::InvalidRequest
        );
    }
    assert!(SearchCriteria::try_from(vec![
        SearchPredicate::RequiredFlag { flag: StandardFlag::Seen },
        SearchPredicate::ForbiddenFlag { flag: StandardFlag::Draft },
        SearchPredicate::ReceivedAfter { date: date("2024-01-01") },
        SearchPredicate::SentBefore { date: date("2023-01-01") },
    ])
    .is_ok());
    assert!(search_text(&"a".repeat(4096)));
}

#[test]
fn requests_are_bounded() {
    assert!(bounded_text("ab", 1, 2));
    assert!(!bounded_text("", 1, 2));
    assert!(!bounded_text("abc", 1, 2));
    let input = |mailbox: &str, limit: Option<usize>, cursor: Option<String>| SearchMessagesInput {
        mailbox: text(mailbox),
        criteria: SearchCriteria::default(),
        limit,
        cursor,
    };
    assert!(input("INBOX", None, None).is_bounded());
    assert!(!input("", None, None).is_bounded());
    assert!(!input("INBOX", None, Some("c".repeat(8193))).is_bounded());
    assert_eq!(input("INBOX", Some(0), None).is_bounded(), page_limit(Some(0)));
    assert!(page_limit(None) && page_limit(Some(1)) && !page_limit(Some(0)));
}

#[test]
fn flags_have_their_protocol_names() {
    assert_eq!(StandardFlag::Answered.imap_name(), "\\Answered");
    assert_eq!(StandardFlag::Recent.imap_name(), "\\Recent");
    assert_eq!(Metadata::Present(3).value(), Some(&3));
    assert_eq!(Metadata::<u8>::Malformed.value(), None);
}

#[test]
fn pages_start_where_they_may() {
    let limits = Limits::default();
    assert_eq!(origin(&limits, 1, 7, None).unwrap(), Origin::Top);
    assert_eq!(
        origin(&limits, 1, 7, Some(position(9))).unwrap(),
        Origin::At(position(9))
    );
    assert_eq!(
        origin(&limits, 1, 8, Some(position(9))).unwrap_err().code,
        ErrorCode::StaleCursor
    );
    assert_eq!(origin(&limits, 1, 0, None).unwrap_err().code, ErrorCode::ProviderUnavailable);
    for limit in [0, limits.search_page + 1] {
        assert_eq!(origin(&limits, limit, 7, None).unwrap_err().code, ErrorCode::InvalidRequest);
    }
    let broken = Limits { search_page: 0, ..limits };
    let refused = origin(&broken, 1, 7, None).unwrap_err();
    assert_eq!(refused.code, ErrorCode::InvalidRequest);
    assert_eq!(refused.message, Error::setup_required().message);
    assert_ne!(refused.message, origin(&limits, 0, 7, None).unwrap_err().message);
}

#[test]
fn pages_are_filled_from_the_top_and_resume_below() {
    let limits = Limits { search_uid_window: 10, ..Limits::default() };
    let mut page = Page::new(&limits, 3, 100_000, position(25));
    assert_eq!(page.next(), Some((16, 25)));
    page.matched(&vec![17, 25, 20]).unwrap();
    assert_eq!(page.wanted, vec![25, 20, 17]);
    page.fetched(vec![found(17), found(25)]).unwrap();
    assert_eq!(page.budget.remaining, 100_000 - 2 * 1124);
    assert_eq!(page.next(), Some((6, 15)));
    page.matched(&vec![6, 9, 15]).unwrap();
    assert_eq!(page.wanted, vec![15]);
    page.fetched(vec![found(15)]).unwrap();
    assert_eq!(page.next(), None);
    let first = page.finish();
    let uids: Vec<u32> = first.messages.iter().map(|message| message.uid).collect();
    assert_eq!(uids, vec![25, 17, 15]);
    assert_eq!(first.position.next_uid, 14);

    let mut page = Page::new(&limits, 3, 100_000, first.position);
    assert_eq!(page.next(), Some((5, 14)));
    page.matched(&vec![6, 9]).unwrap();
    page.fetched(vec![found(9), found(6)]).unwrap();
    assert_eq!(page.next(), Some((1, 4)));
    page.matched(&Vec::new()).unwrap();
    page.fetched(Vec::new()).unwrap();
    assert_eq!(page.next(), None);
    let second = page.finish();
    let uids: Vec<u32> = second.messages.iter().map(|message| message.uid).collect();
    assert_eq!(uids, vec![9, 6]);
    assert_eq!(second.position.next_uid, 0);
}

#[test]
fn pages_refuse_answers_to_other_questions() {
    let limits = Limits { search_uid_window: 10, ..Limits::default() };
    for answer in [vec![26], vec![15], vec![20, 20]] {
        let mut page = Page::new(&limits, 3, 100_000, position(25));
        page.next();
        assert_eq!(page.matched(&answer).unwrap_err().code, ErrorCode::ProviderUnavailable);
    }
    let mut page = Page::new(&limits, 3, 100_000, position(25));
    page.next();
    page.matched(&vec![20, 21]).unwrap();
    assert_eq!(
        page.fetched(vec![found(22)]).unwrap_err().code,
        ErrorCode::ProviderUnavailable
    );
    let mut page = Page::new(&limits, 3, 100_000, position(25));
    page.next();
    page.matched(&vec![20, 21]).unwrap();
    assert_eq!(
        page.fetched(vec![found(20), found(20)]).unwrap_err().code,
        ErrorCode::ProviderUnavailable
    );
    let mut page = Page::new(&limits, 3, 1123, position(25));
    page.next();
    page.matched(&vec![20]).unwrap();
    assert_eq!(
        page.fetched(vec![found(20)]).unwrap_err().code,
        ErrorCode::ResponseTooLarge
    );
}

#[test]
fn searches_stop_after_their_windows() {
    let limits = Limits { search_uid_window: 2, search_windows: 2, ..Limits::default() };
    let mut page = Page::new(&limits, 3, 100_000, position(25));
    for window in [(24, 25), (22, 23)] {
        assert_eq!(page.next(), Some(window));
        page.matched(&Vec::new()).unwrap();
    }
    assert_eq!(page.next(), None);
    assert_eq!(page.finish().position.next_uid, 21);
}

#[test]
fn predicates_become_search_keys() {
    let mut utf8 = false;
    assert!(matches!(
        search_key(&SearchPredicate::SentBefore { date: date("2024-02-03") }, &mut utf8),
        Ok(SearchKey::SentBefore((2024, 2, 3)))
    ));
    assert!(matches!(
        search_key(&SearchPredicate::ForbiddenFlag { flag: StandardFlag::Recent }, &mut utf8),
        Ok(SearchKey::Old)
    ));
    match search_key(&SearchPredicate::Cc { value: text("plain") }, &mut utf8).unwrap() {
        SearchKey::Cc(value) => assert_eq!(value, "plain"),
        other => panic!("{other:?}"),
    }
    assert!(!utf8);
    search_key(&SearchPredicate::Subject { value: text("caf\u{e9}") }, &mut utf8).unwrap();
    assert!(utf8);
    assert_eq!(
        search_key(&SearchPredicate::Subject { value: text("\0") }, &mut utf8).unwrap_err().code,
        ErrorCode::InvalidRequest
    );
}

#[test]
fn queries_search_one_window() {
    let criteria = SearchCriteria::try_from(vec![
        SearchPredicate::To { value: text("\u{e9}") },
        SearchPredicate::RequiredFlag { flag: StandardFlag::Flagged },
    ])
    .unwrap();
    let query = query(3, 9, &criteria).unwrap();
    assert_eq!((query.first, query.last, query.utf8), (3, 9, true));
    assert_eq!(query.keys.len(), 2);
    assert!(matches!(query.keys[1], SearchKey::Flagged));
}

#[test]
fn the_upper_uid_comes_from_the_selection_or_a_search() {
    assert_eq!(upper_uid(Some(8), &Vec::new()).unwrap(), 7);
    assert_eq!(upper_uid(None, &vec![41]).unwrap(), 41);
    assert_eq!(upper_uid(None, &Vec::new()).unwrap(), 0);
    assert_eq!(
        upper_uid(None, &vec![1, 2]).unwrap_err().code,
        ErrorCode::ProviderUnavailable
    );
}

#[test]
fn messages_are_fetched_in_ascending_order() {
    assert_eq!(fetch_order(&vec![9, 3, 7]).unwrap(), vec![3, 7, 9]);
    assert_eq!(fetch_order(&vec![9, 0]).unwrap_err().code, ErrorCode::InvalidRequest);
}

#[test]
fn resumed_searches_find_every_match_once() {
    let matching: Vec<u32> = (1..=60).filter(|uid| uid % 7 == 0 || uid % 11 == 3).collect();
    let limits = Limits { search_uid_window: 9, search_windows: 2, ..Limits::default() };
    let mut at = position(60);
    let mut all = Vec::new();
    while at.next_uid > 0 {
        let mut page = Page::new(&limits, 3, 100_000, at);
        while let Some((first, last)) = page.next() {
            let window: Vec<u32> =
                matching.iter().copied().filter(|uid| (first..=last).contains(uid)).collect();
            page.matched(&window).unwrap();
            let rows = page.wanted.iter().map(|uid| found(*uid)).collect();
            page.fetched(rows).unwrap();
        }
        let batch = page.finish();
        assert!(batch.position.next_uid < at.next_uid);
        all.extend(batch.messages.iter().map(|message| message.uid));
        at = batch.position;
    }
    let mut expected = matching;
    expected.reverse();
    assert_eq!(all, expected);
}

#[test]
fn canonical_criteria_are_a_fixed_point() {
    let terms = || {
        vec![
            SearchPredicate::ForbiddenFlag { flag: StandardFlag::Seen },
            SearchPredicate::Subject { value: text("b") },
            SearchPredicate::ReceivedAfter { date: date("2024-02-03") },
            SearchPredicate::Subject { value: text("a") },
        ]
    };
    let criteria = SearchCriteria::try_from(terms()).unwrap();
    let mut reversed = terms();
    reversed.reverse();
    assert_eq!(SearchCriteria::try_from(reversed).unwrap(), criteria);
    let again = SearchCriteria::try_from(criteria.terms).unwrap();
    assert_eq!(again, SearchCriteria::try_from(terms()).unwrap());
    assert!(again.predicates().len() <= 32);
    let none = SearchCriteria::try_from(Vec::new()).unwrap();
    assert_eq!(none, SearchCriteria::default());
}
