use cleromancy::sync::{
    parse_selection, CleromancySyncImport, CleromancySyncSelection, CleromancySyncSettings,
    CleromancySyncSettingsError, CLEROMANCY_SYNC_SETTINGS_SCHEMA, CONTEXT_FACET,
    CONCURRENCE_FACET, FIELD_FACET, REFLECTION_FACET,
};

const ALL: [CleromancySyncSelection; 4] = [
    CleromancySyncSelection::Off,
    CleromancySyncSelection::Contexts,
    CleromancySyncSelection::ContextsAndReadings,
    CleromancySyncSelection::ContextsReadingsAndReflections,
];

#[test]
fn selection_names_round_trip() {
    for s in ALL {
        assert_eq!(parse_selection(s.as_str()), Ok(s));
        assert_eq!(s.as_str().parse::<CleromancySyncSelection>(), Ok(s));
    }
    assert_eq!(
        parse_selection("contexts_readings_and_reflections"),
        Ok(CleromancySyncSelection::ContextsReadingsAndReflections)
    );
    let error = parse_selection("everything").unwrap_err();
    assert_eq!(error.value(), "everything");
    assert!(parse_selection("Off").is_err());
}

#[test]
fn wider_selections_include_narrower_truth() {
    let off = CleromancySyncSelection::Off;
    let contexts = CleromancySyncSelection::Contexts;
    let readings = CleromancySyncSelection::ContextsAndReadings;
    let all = CleromancySyncSelection::ContextsReadingsAndReflections;
    assert!(!off.includes_contexts());
    assert!(contexts.includes_contexts() && !contexts.includes_readings());
    assert!(readings.includes_readings() && readings.includes_sessions());
    assert!(readings.includes_astrology() && readings.includes_concurrences());
    assert!(!readings.includes_reflections());
    assert!(all.includes_reflections() && all.includes_contexts());
    assert_eq!(CleromancySyncSelection::default(), off);
}

#[test]
fn selected_facets_follow_the_selection() {
    assert!(CleromancySyncSelection::Off.selected_facets().is_empty());
    assert_eq!(CleromancySyncSelection::Contexts.selected_facets(), vec![CONTEXT_FACET]);
    let readings = CleromancySyncSelection::ContextsAndReadings.selected_facets();
    assert_eq!(readings.len(), 10);
    assert_eq!(readings[0], CONTEXT_FACET);
    assert_eq!(readings[1], FIELD_FACET);
    assert_eq!(readings[9], CONCURRENCE_FACET);
    let all = CleromancySyncSelection::ContextsReadingsAndReflections.selected_facets();
    assert_eq!(all.len(), 11);
    assert_eq!(all[10], REFLECTION_FACET);
}

#[test]
fn settings_default_to_off_and_check_their_schema() {
    let settings = CleromancySyncSettings::default();
    assert_eq!(settings.schema, CLEROMANCY_SYNC_SETTINGS_SCHEMA);
    assert_eq!(settings.selection, CleromancySyncSelection::Off);
    assert_eq!(settings.validate(), Ok(()));
    let other = CleromancySyncSettings { schema: "v0".to_string(), selection: CleromancySyncSelection::Contexts };
    assert_eq!(other.validate(), Err(CleromancySyncSettingsError::Schema { schema: "v0".to_string() }));
    assert_eq!(CleromancySyncImport::default().reflections, 0);
}
