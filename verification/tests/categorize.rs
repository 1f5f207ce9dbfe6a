use tfplanshow::{categorize, ActionKind};

fn actions(strs: &[&str]) -> Vec<String> {
    strs.iter().map(|s| s.to_string()).collect()
}

#[test]
fn categorize_single_actions() {
    assert_eq!(categorize(&actions(&["create"])), ActionKind::Create);
    assert_eq!(categorize(&actions(&["update"])), ActionKind::Update);
    assert_eq!(categorize(&actions(&["delete"])), ActionKind::Delete);
    assert_eq!(categorize(&actions(&["read"])), ActionKind::Read);
    assert_eq!(categorize(&actions(&["no-op"])), ActionKind::NoOp);
}

#[test]
fn categorize_replace_destroy_then_create() {
    assert_eq!(
        categorize(&actions(&["delete", "create"])),
        ActionKind::Replace {
            create_before_destroy: false
        }
    );
}

#[test]
fn categorize_replace_create_before_destroy() {
    assert_eq!(
        categorize(&actions(&["create", "delete"])),
        ActionKind::Replace {
            create_before_destroy: true
        }
    );
}

#[test]
fn categorize_unrecognized_combo_is_unknown_not_a_guess() {
    assert_eq!(
        categorize(&actions(&["create", "read"])),
        ActionKind::Unknown(vec!["create".into(), "read".into()])
    );
    assert_eq!(categorize(&[]), ActionKind::Unknown(vec![]));
}

#[test]
fn categorize_is_case_sensitive_and_exact() {
    assert_eq!(
        categorize(&actions(&["Create"])),
        ActionKind::Unknown(vec!["Create".into()])
    );
    assert_eq!(
        categorize(&actions(&["create "])),
        ActionKind::Unknown(vec!["create ".into()])
    );
    assert_eq!(
        categorize(&actions(&["delete", "create", "read"])),
        ActionKind::Unknown(vec!["delete".into(), "create".into(), "read".into()])
    );
    assert_eq!(
        categorize(&actions(&["create", "create"])),
        ActionKind::Unknown(vec!["create".into(), "create".into()])
    );
}
