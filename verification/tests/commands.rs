use robo_pass::kernel::{
    add_privacy, can_user_access, copy_to_clipboard, create_account, fetch_sorted_privacy_vec,
    generate_password, login, logout, remove_privacy, update_privacy,
};
use robo_pass::mem::UserSession;

#[test]
fn happy_path_create_add_fetch() {
    let mut slot: Option<UserSession> = None;
    create_account(
        &mut slot,
        "alice".to_string(),
        "correct horse".to_string(),
        false,
    )
    .unwrap();
    let (id1, _image) = add_privacy(
        &mut slot,
        "https://example.com".to_string(),
        "alice@ex".to_string(),
        "pw1".to_string(),
    )
    .unwrap();
    let list = fetch_sorted_privacy_vec(&slot).unwrap();
    assert_eq!(list.len(), 1);
    assert_eq!(list[0].hash, id1);
    assert_eq!(list[0].credential.url, "https://example.com");
    assert_eq!(list[0].credential.username, "alice@ex");
    assert_eq!(list[0].credential.password, "pw1");
}

#[test]
fn login_with_wrong_passphrase() {
    let mut slot: Option<UserSession> = None;
    let image = create_account(
        &mut slot,
        "alice".to_string(),
        "correct horse".to_string(),
        false,
    )
    .unwrap();
    logout(&mut slot).unwrap();
    let err = login(
        &mut slot,
        "alice".to_string(),
        "wrong".to_string(),
        Some(image),
    )
    .unwrap_err();
    assert_eq!(err.key(), "invalid_keeper");
    assert!(slot.is_none());
}

#[test]
fn username_mismatch_on_renamed_file() {
    let mut slot: Option<UserSession> = None;
    let image = create_account(
        &mut slot,
        "alice".to_string(),
        "correct horse".to_string(),
        false,
    )
    .unwrap();
    logout(&mut slot).unwrap();
    // The caller renamed alice.pwdb to bob.pwdb: the same bytes are now
    // offered under the other username, so the salt no longer matches.
    let err = login(
        &mut slot,
        "bob".to_string(),
        "correct horse".to_string(),
        Some(image),
    )
    .unwrap_err();
    assert_eq!(err.key(), "invalid_keeper");
}

#[test]
fn duplicate_account_rejected() {
    let mut slot: Option<UserSession> = None;
    create_account(
        &mut slot,
        "alice".to_string(),
        "correct horse".to_string(),
        false,
    )
    .unwrap();
    logout(&mut slot).unwrap();
    // The vault file now exists on disk.
    let err = create_account(
        &mut slot,
        "alice".to_string(),
        "whatever".to_string(),
        true,
    )
    .unwrap_err();
    assert_eq!(err.key(), "username_taken");
}

#[test]
fn sort_determinism() {
    let mut slot: Option<UserSession> = None;
    create_account(&mut slot, "u".to_string(), "longpassword".to_string(), false).unwrap();
    add_privacy(&mut slot, "b".to_string(), "n1".to_string(), "p1".to_string()).unwrap();
    add_privacy(&mut slot, "a".to_string(), "n2".to_string(), "p2".to_string()).unwrap();
    add_privacy(&mut slot, "c".to_string(), "n3".to_string(), "p3".to_string()).unwrap();
    let list = fetch_sorted_privacy_vec(&slot).unwrap();
    let urls: Vec<&str> = list.iter().map(|e| e.credential.url.as_str()).collect();
    assert_eq!(urls, vec!["a", "b", "c"]);
}

#[test]
fn remove_unknown_id() {
    let mut slot: Option<UserSession> = None;
    create_account(&mut slot, "u".to_string(), "longpassword".to_string(), false).unwrap();
    let err = remove_privacy(
        &mut slot,
        "00000000-0000-4000-8000-000000000000".to_string(),
    )
    .unwrap_err();
    assert_eq!(err.key(), "invalid_parameter");
}

#[test]
fn durability_across_reopen() {
    let mut slot: Option<UserSession> = None;
    create_account(
        &mut slot,
        "alice".to_string(),
        "correct horse".to_string(),
        false,
    )
    .unwrap();
    add_privacy(
        &mut slot,
        "https://one.example".to_string(),
        "n1".to_string(),
        "p1".to_string(),
    )
    .unwrap();
    let (id2, _) = add_privacy(
        &mut slot,
        "https://two.example".to_string(),
        "n2".to_string(),
        "p2".to_string(),
    )
    .unwrap();
    let image = remove_privacy(&mut slot, id2).unwrap();
    let before = fetch_sorted_privacy_vec(&slot).unwrap();
    // A new process: a fresh slot, the bytes read back from disk.
    let mut slot2: Option<UserSession> = None;
    login(
        &mut slot2,
        "alice".to_string(),
        "correct horse".to_string(),
        Some(image),
    )
    .unwrap();
    let after = fetch_sorted_privacy_vec(&slot2).unwrap();
    assert_eq!(before.len(), after.len());
    for (b, a) in before.iter().zip(after.iter()) {
        assert_eq!(b.hash, a.hash);
        assert_eq!(b.credential.url, a.credential.url);
        assert_eq!(b.credential.username, a.credential.username);
        assert_eq!(b.credential.password, a.credential.password);
    }
}

#[test]
fn session_exclusivity() {
    let mut slot: Option<UserSession> = None;
    create_account(&mut slot, "u".to_string(), "longpassword".to_string(), false).unwrap();
    let err = create_account(&mut slot, "v".to_string(), "otherpass".to_string(), false)
        .unwrap_err();
    assert_eq!(err.key(), "unexpected");
    let err = login(&mut slot, "v".to_string(), "otherpass".to_string(), None).unwrap_err();
    assert_eq!(err.key(), "unexpected");
    assert!(can_user_access(&slot).unwrap());
    logout(&mut slot).unwrap();
    assert!(!can_user_access(&slot).unwrap());
}

#[test]
fn update_and_copy_fields() {
    let mut slot: Option<UserSession> = None;
    create_account(&mut slot, "u".to_string(), "longpassword".to_string(), false).unwrap();
    let (id, _) = add_privacy(
        &mut slot,
        "https://example.com".to_string(),
        "old-name".to_string(),
        "old-pass".to_string(),
    )
    .unwrap();
    let (flag, _) = update_privacy(
        &mut slot,
        id.clone(),
        "https://example.com".to_string(),
        "new-name".to_string(),
        "new-pass".to_string(),
    )
    .unwrap();
    assert!(flag);
    let name = copy_to_clipboard(&slot, id.clone(), "username".to_string()).unwrap();
    assert_eq!(name, "new-name");
    let pass = copy_to_clipboard(&slot, id.clone(), "password".to_string()).unwrap();
    assert_eq!(pass, "new-pass");
    let err = copy_to_clipboard(&slot, id.clone(), "url".to_string()).unwrap_err();
    assert_eq!(err.key(), "invalid_parameter");
    let err = copy_to_clipboard(
        &slot,
        "00000000-0000-4000-8000-000000000000".to_string(),
        "username".to_string(),
    )
    .unwrap_err();
    assert_eq!(err.key(), "invalid_parameter");
    // An unknown id still reports success and re-persists.
    let (flag, _) = update_privacy(
        &mut slot,
        "00000000-0000-4000-8000-000000000000".to_string(),
        "x".to_string(),
        "y".to_string(),
        "z".to_string(),
    )
    .unwrap();
    assert!(flag);
    let list = fetch_sorted_privacy_vec(&slot).unwrap();
    assert_eq!(list.len(), 1);
    assert_eq!(list[0].credential.username, "new-name");
}

#[test]
fn empty_inputs_rejected() {
    let mut slot: Option<UserSession> = None;
    let err = create_account(&mut slot, "".to_string(), "p".to_string(), false).unwrap_err();
    assert_eq!(err.key(), "invalid_keeper");
    let err = create_account(&mut slot, "u".to_string(), "".to_string(), false).unwrap_err();
    assert_eq!(err.key(), "invalid_keeper");
    let err = login(&mut slot, "".to_string(), "p".to_string(), None).unwrap_err();
    assert_eq!(err.key(), "invalid_keeper");
    let err = login(&mut slot, "u".to_string(), "".to_string(), None).unwrap_err();
    assert_eq!(err.key(), "invalid_keeper");
    let err = add_privacy(&mut slot, "".to_string(), "n".to_string(), "p".to_string())
        .unwrap_err();
    assert_eq!(err.key(), "invalid_reader");
    let err = add_privacy(&mut slot, "u".to_string(), "".to_string(), "p".to_string())
        .unwrap_err();
    assert_eq!(err.key(), "invalid_reader");
    let err = add_privacy(&mut slot, "u".to_string(), "n".to_string(), "".to_string())
        .unwrap_err();
    assert_eq!(err.key(), "invalid_reader");
    let err = update_privacy(
        &mut slot,
        "".to_string(),
        "u".to_string(),
        "n".to_string(),
        "p".to_string(),
    )
    .unwrap_err();
    assert_eq!(err.key(), "invalid_reader");
    let err = update_privacy(
        &mut slot,
        "i".to_string(),
        "".to_string(),
        "n".to_string(),
        "p".to_string(),
    )
    .unwrap_err();
    assert_eq!(err.key(), "invalid_reader");
}

#[test]
fn commands_need_a_session() {
    let mut slot: Option<UserSession> = None;
    let err = add_privacy(&mut slot, "u".to_string(), "n".to_string(), "p".to_string())
        .unwrap_err();
    assert_eq!(err.key(), "invalid_reader");
    let err = remove_privacy(&mut slot, "some-id".to_string()).unwrap_err();
    assert_eq!(err.key(), "invalid_reader");
    let err = fetch_sorted_privacy_vec(&slot).unwrap_err();
    assert_eq!(err.key(), "invalid_reader");
    let err = copy_to_clipboard(&slot, "some-id".to_string(), "username".to_string())
        .unwrap_err();
    assert_eq!(err.key(), "invalid_reader");
}

#[test]
fn generated_passwords_are_well_formed() {
    let alphabet = "abcdefghijklmnopqrstuvwxyzABCDEFGHIJKLMNOPQRSTUVWXYZ0123456789!@#$%^&*";
    let p1 = generate_password().unwrap();
    let p2 = generate_password().unwrap();
    assert_eq!(p1.chars().count(), 16);
    assert_eq!(p2.chars().count(), 16);
    for c in p1.chars().chain(p2.chars()) {
        assert!(alphabet.contains(c));
    }
}

#[test]
fn fetch_with_equal_urls() {
    let mut slot: Option<UserSession> = None;
    create_account(&mut slot, "u".to_string(), "longpassword".to_string(), false).unwrap();
    let empty = fetch_sorted_privacy_vec(&slot).unwrap();
    assert!(empty.is_empty());
    add_privacy(&mut slot, "a".to_string(), "n1".to_string(), "p1".to_string()).unwrap();
    add_privacy(&mut slot, "b".to_string(), "n2".to_string(), "p2".to_string()).unwrap();
    add_privacy(&mut slot, "a".to_string(), "n3".to_string(), "p3".to_string()).unwrap();
    let list = fetch_sorted_privacy_vec(&slot).unwrap();
    assert_eq!(list.len(), 3);
    for pair in list.windows(2) {
        assert!(pair[0].credential.url.as_bytes() <= pair[1].credential.url.as_bytes());
    }
    // The two url-"a" entries may come out in either order.
    let names: Vec<&str> = list
        .iter()
        .filter(|e| e.credential.url == "a")
        .map(|e| e.credential.username.as_str())
        .collect();
    assert!(names == vec!["n1", "n3"] || names == vec!["n3", "n1"]);
}
