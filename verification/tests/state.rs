use greet_tasks::state::{greet_command_name, AppState};

fn contents(st: &AppState) -> Vec<&str> {
    st.tasks.iter().map(|t| t.content.as_str()).collect()
}

fn ids(st: &AppState) -> Vec<usize> {
    st.tasks.iter().map(|t| t.id).collect()
}

#[test]
fn fresh_state_is_empty() {
    let st = AppState::new();
    assert_eq!(st.name, "");
    assert_eq!(st.greet_msg, "");
    assert_eq!(st.new_input, "");
    assert!(st.tasks.is_empty());
    assert_eq!(st.next_id, 0);
}

#[test]
fn create_trims_appends_and_clears() {
    let mut st = AppState::new();
    st.set_new_input("  buy milk  ".to_string());
    st.create_task();
    assert_eq!(st.tasks.len(), 1);
    assert_eq!(st.tasks[0].content, "buy milk");
    assert_eq!(st.tasks[0].id, 0);
    assert!(!st.tasks[0].completed);
    assert_eq!(st.new_input, "");
    assert_eq!(st.next_id, 1);
}

#[test]
fn create_whitespace_only_is_noop() {
    let mut st = AppState::new();
    st.set_new_input("   ".to_string());
    st.create_task();
    assert!(st.tasks.is_empty());
    assert_eq!(st.new_input, "   ");
    assert_eq!(st.next_id, 0);
}

#[test]
fn create_empty_is_noop() {
    let mut st = AppState::new();
    st.create_task();
    assert!(st.tasks.is_empty());
    assert_eq!(st.next_id, 0);
}

#[test]
fn ids_count_effective_calls_only() {
    let mut st = AppState::new();
    for input in ["A", "  ", "B", "", "C"] {
        st.set_new_input(input.to_string());
        st.create_task();
    }
    assert_eq!(contents(&st), ["A", "B", "C"]);
    assert_eq!(ids(&st), [0, 1, 2]);
    assert_eq!(st.next_id, 3);
}

#[test]
fn ids_are_never_reused_after_delete() {
    let mut st = AppState::new();
    st.set_new_input("A".to_string());
    st.create_task();
    st.set_new_input("B".to_string());
    st.create_task();
    st.delete_task(0);
    st.delete_task(1);
    assert!(st.tasks.is_empty());
    st.set_new_input("C".to_string());
    st.create_task();
    assert_eq!(ids(&st), [2]);
    assert_eq!(st.next_id, 3);
}

#[test]
fn delete_middle_keeps_order() {
    let mut st = AppState::new();
    for input in ["A", "B", "C"] {
        st.set_new_input(input.to_string());
        st.create_task();
    }
    let b_id = st.tasks[1].id;
    st.delete_task(b_id);
    assert_eq!(contents(&st), ["A", "C"]);
    assert_eq!(ids(&st), [0, 2]);
}

#[test]
fn delete_first_and_last() {
    let mut st = AppState::new();
    for input in ["A", "B", "C"] {
        st.set_new_input(input.to_string());
        st.create_task();
    }
    st.delete_task(0);
    assert_eq!(contents(&st), ["B", "C"]);
    st.delete_task(2);
    assert_eq!(contents(&st), ["B"]);
}

#[test]
fn delete_absent_id_is_noop() {
    let mut st = AppState::new();
    for input in ["A", "B"] {
        st.set_new_input(input.to_string());
        st.create_task();
    }
    st.delete_task(99);
    assert_eq!(contents(&st), ["A", "B"]);
    assert_eq!(ids(&st), [0, 1]);
    assert_eq!(st.next_id, 2);
}

#[test]
fn delete_on_empty_list_is_noop() {
    let mut st = AppState::new();
    st.delete_task(0);
    assert!(st.tasks.is_empty());
}

#[test]
fn delete_does_not_touch_other_state() {
    let mut st = AppState::new();
    st.set_name("N".to_string());
    st.set_new_input("pending".to_string());
    st.delete_task(7);
    assert_eq!(st.name, "N");
    assert_eq!(st.new_input, "pending");
}

#[test]
fn completed_stays_false() {
    let mut st = AppState::new();
    for input in ["A", "B", "C"] {
        st.set_new_input(input.to_string());
        st.create_task();
    }
    st.delete_task(1);
    assert!(st.tasks.iter().all(|t| !t.completed));
}

#[test]
fn greet_empty_name_sends_nothing() {
    let mut st = AppState::new();
    assert!(st.greet_request().is_none());
    assert_eq!(st.greet_msg, "");
    st.set_name("Ada".to_string());
    st.set_name(String::new());
    assert!(st.greet_request().is_none());
    assert_eq!(st.greet_msg, "");
}

#[test]
fn greet_round_trip() {
    let mut st = AppState::new();
    st.set_name("Ada".to_string());
    let req = st.greet_request().expect("a non-empty name must be sent");
    assert_eq!(req.name, "Ada");
    assert_eq!(greet_command_name(), "greet");
    st.apply_greet_response("Hello, Ada!".to_string());
    assert_eq!(st.greet_msg, "Hello, Ada!");
    assert_eq!(st.name, "Ada");
}

#[test]
fn greet_name_is_not_trimmed() {
    let mut st = AppState::new();
    st.set_name(" Ada ".to_string());
    let req = st.greet_request().expect("a non-empty name must be sent");
    assert_eq!(req.name, " Ada ");
}

#[test]
fn greet_whitespace_name_is_still_sent() {
    let mut st = AppState::new();
    st.set_name(" ".to_string());
    let req = st.greet_request().expect("only an empty name is skipped");
    assert_eq!(req.name, " ");
}

#[test]
fn greet_response_replaces_previous_message() {
    let mut st = AppState::new();
    st.apply_greet_response("Hello, A!".to_string());
    st.apply_greet_response("Hello, B!".to_string());
    assert_eq!(st.greet_msg, "Hello, B!");
}
