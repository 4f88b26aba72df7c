use workbench::session::windows::{
    session_window_state, texts_at_quit, window_state_texts, WindowInfo, WindowState,
    WindowStateWriter, WINDOW_STATE_INTERVAL,
};
use workbench::session::{
    AppSession, Session, StoredSession, WindowId, SESSION_ID_KEY, SESSION_WINDOW_STACK_KEY,
    SESSION_WINDOW_TAB_GROUPS_KEY,
};

fn stored(stack: Option<&str>, groups: Option<&str>) -> StoredSession {
    StoredSession {
        session_id: Some("last".to_string()),
        window_stack: stack.map(str::to_owned),
        window_tab_groups: groups.map(str::to_owned),
    }
}

fn windows(ids: &[u64]) -> Vec<WindowId> {
    ids.iter().map(|id| WindowId { id: *id }).collect()
}

fn window(id: u64, tabs: Option<Vec<u64>>, participates: bool) -> WindowInfo {
    WindowInfo { id, tabs, participates }
}

#[test]
fn a_session_knows_what_the_last_one_left() {
    let session =
        Session::new("this".to_string(), stored(Some("[3,1,2]"), Some("[[3, 1], [2,4]]")));
    assert_eq!(session.id(), "this");
    let app = AppSession::new(session);
    assert_eq!(app.id(), "this");
    assert_eq!(app.last_session_id(), Some("last"));
    assert_eq!(app.last_session_window_stack(), Some(windows(&[3, 1, 2])));
    assert_eq!(
        app.last_session_window_tab_groups(),
        Some(vec![windows(&[3, 1]), windows(&[2, 4])])
    );
}

#[test]
fn what_cannot_be_read_is_not_known() {
    let app = AppSession::new(Session::new(
        "this".to_string(),
        stored(Some("not json"), Some("[[1],2]")),
    ));
    assert_eq!(app.last_session_id(), Some("last"));
    assert_eq!(app.last_session_window_stack(), None);
    assert_eq!(app.last_session_window_tab_groups(), None);

    let app = AppSession::new(Session::new(
        "this".to_string(),
        StoredSession { session_id: None, window_stack: None, window_tab_groups: None },
    ));
    assert_eq!(app.last_session_id(), None);
    assert_eq!(app.last_session_window_stack(), None);
    assert_eq!(app.last_session_window_tab_groups(), None);
}

#[test]
fn test_sessions_have_identifiers_of_their_own() {
    let a = Session::test();
    let b = Session::test();
    assert_ne!(a.id(), b.id());
    assert_eq!(a.id().len(), 36);
    assert_eq!(a.id().as_bytes()[14], b'4');
    let mut app = AppSession::new(a);
    assert_eq!(app.last_session_id(), None);
    app.replace_session_for_test(Session::test_with_old_session("old".to_string()));
    assert_eq!(app.last_session_id(), Some("old"));
    assert_eq!(app.last_session_window_stack(), None);
    assert_eq!(app.id().len(), 36);
}

#[test]
fn the_stack_lists_every_window() {
    let list = vec![window(5, None, false), window(3, Some(vec![3]), true)];
    let state = session_window_state(Some(&list)).unwrap();
    assert_eq!(state.stack, vec![5, 3]);
    assert!(state.tab_groups.is_empty());
    assert!(session_window_state(None).is_none());
}

#[test]
fn groups_start_with_the_window_and_share_no_tab() {
    let list = vec![
        window(2, Some(vec![1, 2, 3]), true),
        window(1, Some(vec![1, 2, 3]), true),
        window(9, Some(vec![8, 7]), true),
        window(6, Some(vec![6, 5]), false),
        window(5, Some(vec![5, 3]), true),
        window(4, Some(vec![4, 10]), true),
    ];
    let state = session_window_state(Some(&list)).unwrap();
    assert_eq!(state.stack, vec![2, 1, 9, 6, 5, 4]);
    assert_eq!(state.tab_groups, vec![vec![2, 3, 1], vec![8, 7], vec![4, 10]]);
}

#[test]
fn a_group_that_was_passed_over_still_counts_as_seen() {
    let list = vec![
        window(1, Some(vec![1, 2]), true),
        window(3, Some(vec![2, 3]), true),
        window(4, Some(vec![3, 4]), true),
    ];
    let state = session_window_state(Some(&list)).unwrap();
    assert_eq!(state.tab_groups, vec![vec![1, 2]]);
}

#[test]
fn stored_windows_are_read_back() {
    let state = WindowState { stack: vec![3, 1, 18446744073709551615], tab_groups: vec![vec![3, 1], vec![]] };
    let texts = window_state_texts(&state);
    assert_eq!(texts.stack, "[3,1,18446744073709551615]");
    assert_eq!(texts.tab_groups, "[[3,1],[]]");
    let app = AppSession::new(Session::new(
        "next".to_string(),
        stored(Some(&texts.stack), Some(&texts.tab_groups)),
    ));
    assert_eq!(
        app.last_session_window_stack(),
        Some(windows(&[3, 1, 18446744073709551615]))
    );
    assert_eq!(
        app.last_session_window_tab_groups(),
        Some(vec![windows(&[3, 1]), windows(&[])])
    );
}

#[test]
fn windows_are_stored_when_they_have_changed() {
    let mut writer = WindowStateWriter::new();
    assert!(writer.observe(Some(WindowState { stack: vec![], tab_groups: vec![] })).is_none());
    assert!(writer.observe(None).is_none());
    let texts =
        writer.observe(Some(WindowState { stack: vec![1, 2], tab_groups: vec![vec![1, 2]] }));
    assert_eq!(texts.unwrap().tab_groups, "[[1,2]]");
    assert!(writer
        .observe(Some(WindowState { stack: vec![1, 2], tab_groups: vec![vec![1, 2]] }))
        .is_none());
    assert!(writer.observe(None).is_none());
    assert!(writer
        .observe(Some(WindowState { stack: vec![1, 2], tab_groups: vec![vec![2, 1]] }))
        .is_some());
    assert!(writer
        .observe(Some(WindowState { stack: vec![1, 2], tab_groups: vec![] }))
        .is_some());
    assert!(writer.observe(Some(WindowState { stack: vec![1], tab_groups: vec![] })).is_some());
}

#[test]
fn windows_are_stored_at_quit() {
    let texts =
        texts_at_quit(Some(WindowState { stack: vec![], tab_groups: vec![] })).unwrap();
    assert_eq!(texts.stack, "[]");
    assert_eq!(texts.tab_groups, "[]");
    assert!(texts_at_quit(None).is_none());
}

#[test]
fn keys_and_interval() {
    assert_eq!(SESSION_ID_KEY, "session_id");
    assert_eq!(SESSION_WINDOW_STACK_KEY, "session_window_stack");
    assert_eq!(SESSION_WINDOW_TAB_GROUPS_KEY, "session_window_tab_groups");
    assert_eq!(WINDOW_STATE_INTERVAL, 500);
}
