use sysml_core::project::{walk_step, WalkAction, CONFIG_FILE, MAX_WALK_DEPTH, PROJECT_DIR};

#[test]
fn walk_decisions() {
    assert_eq!(walk_step(0, true, true), WalkAction::Load);
    assert_eq!(walk_step(0, false, true), WalkAction::Ascend);
    assert_eq!(walk_step(3, false, false), WalkAction::Stop);
    assert_eq!(walk_step(MAX_WALK_DEPTH - 1, false, true), WalkAction::Stop);
    assert_eq!(walk_step(MAX_WALK_DEPTH - 1, true, true), WalkAction::Load);
    assert_eq!(PROJECT_DIR, ".sysml");
    assert_eq!(CONFIG_FILE, "config.toml");
}
