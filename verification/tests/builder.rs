use noline::builder::EditorBuilder;
use noline::sync::{Request, SessionState};

#[test]
fn new_static_sets_the_line_capacity_and_no_history() {
    let builder = EditorBuilder::new_static::<100>();
    assert_eq!(builder.line_capacity(), 100);
    assert_eq!(builder.history_capacity(), 0);
}

#[test]
fn with_static_history_sets_the_history_capacity_only() {
    let builder = EditorBuilder::new_static::<100>().with_static_history::<200>();
    assert_eq!(builder.line_capacity(), 100);
    assert_eq!(builder.history_capacity(), 200);
    let again = builder.with_static_history::<3>();
    assert_eq!(again.line_capacity(), 100);
    assert_eq!(again.history_capacity(), 3);
}

#[test]
fn build_gives_a_session_with_the_probe_pending() {
    let editor = EditorBuilder::new_static::<16>().with_static_history::<4>().build_sync().unwrap();
    assert_eq!(editor.state(), SessionState::Negotiating);
    assert_eq!(editor.line_capacity(), 16);
    assert_eq!(editor.request(), Request::Emit(Some(b"\x1b7\x1b[999;999f\x1b[6n\x1b8".as_slice())));
    assert!(editor.get_history().next().is_none());
}

#[test]
fn build_refuses_capacities_that_cannot_be_addressed() {
    let builder = EditorBuilder::new_static::<{ usize::MAX }>().with_static_history::<2>();
    assert!(builder.build_sync().is_none());
}

#[test]
fn zero_capacities_are_accepted() {
    let editor = EditorBuilder::new_static::<0>().build_sync().unwrap();
    assert_eq!(editor.line_capacity(), 0);
}

#[test]
fn build_refuses_a_line_that_cannot_be_stored() {
    assert!(EditorBuilder::new_static::<{ usize::MAX }>().build_sync().is_none());
    assert!(EditorBuilder::new_static::<{ usize::MAX / 2 + 1 }>().build_sync().is_none());
    assert!(EditorBuilder::new_static::<8>().with_static_history::<{ usize::MAX / 8 }>().build_sync().is_none());
}
