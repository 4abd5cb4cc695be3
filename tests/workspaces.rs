use tiler::binarytree::RATIO_RESET;
use tiler::config::{generate_config, KEY_1, KEY_Q, KEY_RETURN};
use tiler::{Action, Gaps, KeyModifier, KeyModifiers, KeyModifiersDef, KeyPattern, WorkspaceError, Workspaces};

fn three() -> Workspaces {
    Workspaces::new(3, Gaps { horizontal: 0, vertical: 0 }, RATIO_RESET)
}

#[test]
fn new_starts_on_first_workspace() {
    let w = three();
    assert_eq!(w.len(), 3);
    assert_eq!(w.active_index(), 0);
    assert!(w.all_windows().is_empty());
}

#[test]
fn switch_to_valid_and_invalid() {
    let mut w = three();
    assert_eq!(w.switch_to(2), Ok(()));
    assert_eq!(w.active_index(), 2);
    assert_eq!(w.switch_to(3), Err(WorkspaceError::InvalidWorkspaceIndex));
    assert_eq!(w.active_index(), 2);
}

#[test]
fn insert_goes_to_current_workspace() {
    let mut w = three();
    w.insert_window(1);
    w.switch_to(1).unwrap();
    w.insert_window(2);
    w.insert_window(1);
    assert_eq!(w.get(0).unwrap().window_ids(), vec![1]);
    assert_eq!(w.current().window_ids(), vec![2]);
    assert_eq!(w.all_windows(), vec![1, 2]);
    assert_eq!(w.find_window(2), Some(1));
    assert_eq!(w.find_window(5), None);
}

#[test]
fn move_window_between_workspaces() {
    let mut w = three();
    w.insert_window(1);
    w.insert_window(2);
    assert_eq!(w.move_window(1, 2), Ok(()));
    assert_eq!(w.get(0).unwrap().window_ids(), vec![2]);
    assert_eq!(w.get(2).unwrap().window_ids(), vec![1]);
    assert_eq!(w.all_windows(), vec![2, 1]);
}

#[test]
fn move_window_to_invalid_index_changes_nothing() {
    let mut w = three();
    w.insert_window(1);
    w.insert_window(2);
    let before_ids = w.current().window_ids();
    let before_tree = format!("{:?}", w.current().windows());
    assert_eq!(w.move_window(1, 7), Err(WorkspaceError::InvalidWorkspaceIndex));
    assert_eq!(w.current().window_ids(), before_ids);
    assert_eq!(format!("{:?}", w.current().windows()), before_tree);
    assert!(matches!(w.current().tree(), tiler::BinaryTree::Split { .. }));
}

#[test]
fn move_unknown_window_is_noop() {
    let mut w = three();
    w.insert_window(1);
    assert_eq!(w.move_window(9, 1), Ok(()));
    assert_eq!(w.all_windows(), vec![1]);
}

#[test]
fn remove_window_from_other_workspace() {
    let mut w = three();
    w.insert_window(1);
    w.switch_to(1).unwrap();
    w.insert_window(2);
    w.remove_window(1);
    assert_eq!(w.all_windows(), vec![2]);
}

#[test]
fn update_ratio_on_current() {
    let mut w = three();
    w.insert_window(1);
    w.insert_window(2);
    w.update_ratio(50, Some(true));
    match w.current().tree() {
        tiler::BinaryTree::Split { ratio, counter_ratio, .. } => {
            assert_eq!((*ratio, *counter_ratio), (550, 450));
        }
        _ => panic!("expected a split"),
    }
}

#[test]
fn modifiers_from_list() {
    let m: KeyModifiers = KeyModifiersDef(vec![KeyModifier::Ctrl, KeyModifier::Shift]).into();
    assert_eq!(m, KeyModifiers::new(true, false, true, false));
    assert!(m.matches_state(true, false, true, false));
    assert!(!m.matches_state(true, true, true, false));
    let mut n = KeyModifiers::new(false, false, false, false);
    n.add_assign(KeyModifier::Super);
    assert_eq!(n, KeyModifiers::new(false, false, false, true));
}

#[test]
fn default_config_bindings() {
    let c = generate_config();
    assert_eq!(c.workspaces, 3);
    assert_eq!(c.gaps, (5, 5));
    assert_eq!(c.tile_ratio_update_interval, 50);
    assert_eq!(c.keybindings.len(), 8);
    let ctrl = KeyModifiers::new(true, false, false, false);
    let ctrl_shift = KeyModifiers::new(true, false, true, false);
    assert_eq!(
        c.keybindings.get(&KeyPattern { modifiers: ctrl, key: KEY_RETURN }),
        Some(&Action::Spawn(String::from("foot")))
    );
    assert_eq!(c.keybindings.get(&KeyPattern { modifiers: ctrl_shift, key: KEY_Q }), Some(&Action::Quit));
    assert_eq!(c.keybindings.get(&KeyPattern { modifiers: ctrl, key: KEY_Q }), None);
    assert_eq!(c.keybindings.get(&KeyPattern { modifiers: ctrl, key: KEY_1 }), Some(&Action::Workspace(0)));
}
