use mail_search::actions::{ActionBuilder, ActionType};
use mail_search::undo::{ActionResult, ActionState, UndoService, UndoableAction};

const T0: u64 = 1_700_000_000_000;

fn make_thread_id(s: &str) -> String {
    s.to_string()
}

fn make_label_id(s: &str) -> String {
    s.to_string()
}

#[test]
fn action_type_properties() {
    assert!(ActionType::Archive.is_undoable());
    assert!(ActionType::Delete.is_undoable());
    assert!(!ActionType::PermanentDelete.is_undoable());
    assert!(!ActionType::Send.is_undoable());
}

#[test]
fn action_type_descriptions() {
    assert_eq!(ActionType::Archive.description(), "archived");
    assert_eq!(ActionType::PermanentDelete.description(), "permanently deleted");
    assert_eq!(ActionType::MarkRead.description(), "marked as read");
    assert_eq!(ActionType::NotSpam.description(), "marked as not spam");
    assert_eq!(ActionType::Send.description(), "sent");
    assert!(ActionType::Snooze.is_undoable());
}

#[test]
fn action_description() {
    let state = ActionState::archive(
        vec![make_thread_id("t1"), make_thread_id("t2")],
        make_label_id("inbox"),
    );
    let action = UndoableAction::new(ActionType::Archive, state, T0);

    assert!(action.description.contains("2"));
    assert!(action.description.contains("conversations"));
    assert!(action.description.contains("archived"));
}

#[test]
fn action_description_and_id_exact() {
    let one = UndoableAction::new(ActionType::Star, ActionState::starred_state(vec![("t1".to_string(), false)]), 42);
    assert_eq!(one.description, "1 conversation starred");
    assert_eq!(one.id, "Star-42");
    assert_eq!(one.item_count, 1);
    assert_eq!(one.before_state.thread_ids, vec!["t1".to_string()]);
    let many = UndoableAction::new(ActionType::MarkRead, ActionState::read_state(vec![]), T0);
    assert_eq!(many.description, "0 conversations marked as read");
    assert_eq!(many.id, "MarkRead-1700000000000");
}

#[test]
fn undo_service_basic() {
    let mut service = UndoService::new();

    let state = ActionState::archive(vec![make_thread_id("t1")], make_label_id("inbox"));
    service.record(UndoableAction::new(ActionType::Archive, state, T0), T0);

    assert!(service.can_undo(T0));
    assert!(!service.can_redo());

    let action = service.pop_undo(T0).unwrap();
    assert_eq!(action.action_type, ActionType::Archive);

    service.push_to_redo(action);
    assert!(service.can_redo());
}

#[test]
fn undo_clears_redo_on_new_action() {
    let mut service = UndoService::new();

    let state1 = ActionState::archive(vec![make_thread_id("t1")], make_label_id("inbox"));
    service.record(UndoableAction::new(ActionType::Archive, state1, T0), T0);

    let action = service.pop_undo(T0 + 1).unwrap();
    service.push_to_redo(action);
    assert!(service.can_redo());

    let state2 = ActionState::delete(vec![make_thread_id("t2")], make_label_id("inbox"));
    service.record(UndoableAction::new(ActionType::Delete, state2, T0 + 2), T0 + 2);

    assert!(!service.can_redo());
}

#[test]
fn action_builder() {
    let action = ActionBuilder::new(ActionType::Move)
        .threads(vec![make_thread_id("t1"), make_thread_id("t2")])
        .from_folder(make_label_id("inbox"))
        .to_folder(make_label_id("archive"))
        .build(T0);

    assert_eq!(action.action_type, ActionType::Move);
    assert_eq!(action.before_state.thread_ids.len(), 2);
    assert!(action.before_state.original_folder.is_some());
    assert!(action.before_state.target_folder.is_some());
}

#[test]
fn action_builder_gathers_in_order() {
    let action = ActionBuilder::new(ActionType::AddLabels)
        .threads(vec!["t1".to_string(), "t2".to_string()])
        .threads(vec!["t3".to_string()])
        .labels(vec!["work".to_string()])
        .labels(vec!["urgent".to_string()])
        .read_states(vec![("t1".to_string(), true)])
        .starred_states(vec![("t2".to_string(), false)])
        .build(5);
    assert_eq!(action.before_state.thread_ids, vec!["t1", "t2", "t3"]);
    assert_eq!(action.before_state.affected_labels, vec!["work", "urgent"]);
    assert!(action.before_state.original_labels.is_empty());
    assert_eq!(action.before_state.read_states, vec![("t1".to_string(), true)]);
    assert_eq!(action.before_state.starred_states, vec![("t2".to_string(), false)]);
    assert_eq!(action.description, "3 conversations labeled");
    assert_eq!(action.performed_at, 5);
}

#[test]
fn undo_window_expiry() {
    let mut service = UndoService::new();
    service.set_undo_window(1);

    let state = ActionState::archive(vec![make_thread_id("t1")], make_label_id("inbox"));
    service.record(UndoableAction::new(ActionType::Archive, state, T0), T0);

    assert!(!service.can_undo(T0 + 10));
}

#[test]
fn non_undoable_actions_not_recorded() {
    let mut service = UndoService::new();

    let state = ActionState::archive(vec![make_thread_id("t1")], make_label_id("inbox"));
    service.record(UndoableAction::new(ActionType::PermanentDelete, state, T0), T0);

    assert!(!service.can_undo(T0));
    assert_eq!(service.undo_count(T0), 0);
}

#[test]
fn disabled_service_records_nothing() {
    let mut service = UndoService::new();
    service.set_enabled(false);
    service.record_action(ActionType::Archive, ActionState::archive(vec!["t".to_string()], "inbox".to_string()), T0);
    assert_eq!(service.undo_count(T0), 0);
}

#[test]
fn undo_stack_keeps_newest_hundred() {
    let mut service = UndoService::new();
    for i in 0..105u64 {
        service.record_action(ActionType::Star, ActionState::starred_state(vec![(format!("t{}", i), false)]), T0 + i);
    }
    assert_eq!(service.undo_count(T0 + 105), 100);
    let recent = service.recent_actions(3);
    assert_eq!(recent.len(), 3);
    assert_eq!(recent[0].performed_at, T0 + 104);
    assert_eq!(recent[2].performed_at, T0 + 102);
    assert_eq!(service.recent_actions(1000).last().unwrap().performed_at, T0 + 5);
}

#[test]
fn descriptions_and_time_remaining() {
    let mut service = UndoService::new();
    service.record_action(ActionType::Archive, ActionState::archive(vec!["a".to_string(), "b".to_string()], "inbox".to_string()), T0);
    assert_eq!(service.undo_description(T0 + 1_000), Some("Undo: 2 conversations archived".to_string()));
    assert_eq!(service.undo_time_remaining(T0 + 1_000), Some(29_000));
    assert_eq!(service.undo_description(T0 + 30_000), None);
    assert_eq!(service.redo_description(), None);
    let action = service.pop_undo(T0 + 2_000).unwrap();
    service.push_to_redo(action);
    assert_eq!(service.redo_description(), Some("Redo: 2 conversations archived".to_string()));
    assert_eq!(service.redo_count(), 1);
    let again = service.pop_redo().unwrap();
    assert_eq!(again.description, "2 conversations archived");
    assert!(service.pop_redo().is_none());
    service.record(again, T0 + 3_000);
    service.clear();
    assert_eq!(service.undo_count(T0 + 3_000), 0);
}

#[test]
fn pop_undo_drops_expired_actions() {
    let mut service = UndoService::new();
    service.set_undo_window(60_000);
    service.record_action(ActionType::Archive, ActionState::archive(vec!["a".to_string()], "inbox".to_string()), T0);
    service.record_action(ActionType::Delete, ActionState::delete(vec!["b".to_string()], "inbox".to_string()), T0 + 40_000);
    assert_eq!(service.undo_count(T0 + 70_000), 1);
    assert!(service.pop_undo(T0 + 80_000).is_none());
    assert_eq!(service.undo_count(T0 + 80_000), 0);
}

#[test]
fn action_results() {
    let action = UndoableAction::new(ActionType::Move, ActionState::folder_move(vec!["t".to_string()], "inbox".to_string(), "work".to_string()), 1);
    assert_eq!(action.before_state.target_folder, Some("work".to_string()));
    let failed = ActionResult::failure(action.clone(), "offline");
    assert!(!failed.success);
    assert_eq!(failed.error, Some("offline".to_string()));
    let ok = ActionResult::success(action);
    assert!(ok.success);
    assert!(ok.error.is_none());
    let labels = ActionState::labels(vec!["t".to_string()], vec!["a".to_string()], vec!["b".to_string()]);
    assert_eq!(labels.original_labels, vec!["a".to_string()]);
    assert_eq!(labels.affected_labels, vec!["b".to_string()]);
    assert!(labels.read_states.is_empty());
}
