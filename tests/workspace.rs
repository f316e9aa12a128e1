use sway_mirror::workspace::{focus_command, moves_to_source, SwayWorkspace, WorkspaceState};

fn ws(name: &str, output: &str, focused: bool) -> SwayWorkspace {
    SwayWorkspace { name: name.to_string(), output: output.to_string(), focused }
}

#[test]
fn records_mapping_and_focus() {
    let all = vec![ws("1", "eDP-1", false), ws("2", "DP-1", true), ws("3", "DP-2", false)];
    let st = WorkspaceState::from_workspaces(&all, "eDP-1");
    assert_eq!(st.original_mapping.len(), 3);
    assert_eq!(st.original_mapping[1], ("2".to_string(), "DP-1".to_string()));
    assert_eq!(st.original_focused, Some("2".to_string()));
    assert_eq!(st.source_output, "eDP-1");
}

#[test]
fn gathers_others_onto_source() {
    let all = vec![ws("1", "eDP-1", false), ws("2", "DP-1", true), ws("3", "DP-2", false)];
    let moves = moves_to_source(&all, "eDP-1");
    assert_eq!(moves.len(), 2);
    assert_eq!(moves[0].command(), "workspace 2; move workspace to output eDP-1");
    assert_eq!(moves[1].command(), "workspace 3; move workspace to output eDP-1");
}

#[test]
fn restore_moves_back_only_moved_workspaces() {
    let before = vec![ws("1", "eDP-1", false), ws("2", "DP-1", true), ws("3", "DP-2", false)];
    let st = WorkspaceState::from_workspaces(&before, "eDP-1");
    let now = vec![
        ws("1", "eDP-1", false),
        ws("2", "eDP-1", false),
        ws("3", "DP-2", false),
        ws("4", "eDP-1", true),
    ];
    let plan = st.restore(&now);
    assert_eq!(plan.moves.len(), 1);
    assert_eq!(plan.moves[0].workspace, "2");
    assert_eq!(plan.moves[0].output, "DP-1");
    assert_eq!(plan.focus, Some("2".to_string()));
}

#[test]
fn restore_from_file_without_state_does_nothing() {
    assert!(WorkspaceState::restore_from_file(None, &vec![ws("1", "eDP-1", true)]).is_none());
}

#[test]
fn restore_from_file_with_state() {
    let st = WorkspaceState {
        original_mapping: vec![("5".to_string(), "HDMI-A-1".to_string())],
        original_focused: None,
        source_output: "eDP-1".to_string(),
    };
    let plan = WorkspaceState::restore_from_file(Some(&st), &vec![ws("5", "eDP-1", true)]).unwrap();
    assert_eq!(plan.moves.len(), 1);
    assert_eq!(plan.moves[0].command(), "workspace 5; move workspace to output HDMI-A-1");
    assert_eq!(plan.focus, None);
}

#[test]
fn focus_command_text() {
    assert_eq!(focus_command("3: web"), "workspace 3: web");
}

#[test]
fn later_record_of_a_name_wins() {
    let st = WorkspaceState {
        original_mapping: vec![
            ("7".to_string(), "DP-1".to_string()),
            ("7".to_string(), "DP-2".to_string()),
        ],
        original_focused: None,
        source_output: "eDP-1".to_string(),
    };
    let plan = st.restore(&vec![ws("7", "eDP-1", false)]);
    assert_eq!(plan.moves.len(), 1);
    assert_eq!(plan.moves[0].output, "DP-2");
}
