use cleromancy::scene::{position_label, position_rationale};

#[test]
fn position_names_read_as_words() {
    assert_eq!(position_label("next_step"), "Next step");
    assert_eq!(position_label("focus"), "Focus");
    assert_eq!(position_label(""), "");
    assert_eq!(position_label("_x"), " x");
    assert_eq!(position_label("ßeta"), "SSeta");
}

#[test]
fn built_in_positions_have_their_own_guidance() {
    assert!(position_rationale("foundation").starts_with("Read this as the ground"));
    assert!(position_rationale("tension").starts_with("Read this against the foundation"));
    assert!(position_rationale("next_step").starts_with("Read this as a possible response"));
    assert!(position_rationale("focus").starts_with("Use this as a single lens"));
    assert!(position_rationale("other").starts_with("Read this through the named position"));
    assert_eq!(position_rationale("Focus"), position_rationale("anything"));
}
