//! Profiles, narrowing and request contexts.
use mailctl::policy::{
    copy_names, intersect, short_names, Narrowing, Permission, Profile,
};

fn names(list: &[&str]) -> Option<Vec<String>> {
    Some(list.iter().map(|name| name.to_string()).collect())
}

#[test]
fn profiles_grant_what_their_names_say() {
    assert_eq!(
        Profile::ReadOnly.permissions(false),
        vec![
            Permission::ListAccounts,
            Permission::ListMailboxes,
            Permission::SearchMessages,
            Permission::ReadMessage,
            Permission::ReadAttachment,
        ]
    );
    assert_eq!(
        Profile::DraftsOnly.permissions(false),
        vec![
            Permission::ListAccounts,
            Permission::AppendDraft,
            Permission::InspectDraftOperation,
        ]
    );
    assert_eq!(Profile::ReadAndDrafts.permissions(false).len(), 7);
}

#[test]
fn read_only_requests_hold_no_draft_permission() {
    for profile in [Profile::ReadOnly, Profile::DraftsOnly, Profile::ReadAndDrafts] {
        let held = profile.permissions(true);
        assert!(!held.contains(&Permission::AppendDraft));
        assert!(!held.contains(&Permission::InspectDraftOperation));
    }
    assert_eq!(Profile::DraftsOnly.permissions(true), vec![Permission::ListAccounts]);
}

#[test]
fn narrowing_twice_allows_what_both_allow() {
    let session = Narrowing { read_only: false, accounts: names(&["work", "home", "club"]) };
    let request = Narrowing { read_only: true, accounts: names(&["club", "other", "work"]) };
    let both = intersect(&session, &request);
    assert!(both.read_only);
    for alias in ["work", "home", "club", "other"] {
        assert_eq!(both.allows(alias), session.allows(alias) && request.allows(alias), "{alias}");
    }
    let open = intersect(&Narrowing::default(), &Narrowing::default());
    assert!(!open.read_only && open.accounts.is_none());
    assert!(intersect(&session, &Narrowing::default()).allows("home"));
    assert!(!intersect(&Narrowing::default(), &request).allows("home"));
}

#[test]
fn narrowing_is_bounded() {
    assert!(Narrowing::default().is_bounded());
    let longest = "a".repeat(1024);
    let too_long = "a".repeat(1025);
    assert!(Narrowing { read_only: false, accounts: Some(vec![longest.clone(); 256]) }.is_bounded());
    assert!(!Narrowing { read_only: false, accounts: Some(vec![longest; 257]) }.is_bounded());
    assert!(!short_names(&vec![too_long]));
}

#[test]
fn names_are_copied_in_order() {
    assert_eq!(copy_names(&names(&["b", "a"]).unwrap()), names(&["b", "a"]).unwrap());
}
