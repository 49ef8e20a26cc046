use cleromancy::session::{ReadingPlacement, ReadingSession};
use cleromancy::spread::{
    spread_id, valid_position_name, Spread, SpreadError, SpreadPosition, SpreadRelation,
    SpreadRelationKind, SpreadTemplate, ThreeCardPosition, ThreeCardSpread, SPREAD_SCHEMA,
    THREE_CARD_SPREAD_SCHEMA,
};

fn hex(text: &str) -> String {
    blake3::hash(text.as_bytes()).to_hex().to_string()
}

fn digest(c: char) -> String {
    std::iter::repeat(c).take(64).collect()
}

fn placement(position: &str, reading: char) -> ReadingPlacement {
    ReadingPlacement { position: position.to_string(), reading_id: digest(reading) }
}

fn invalid(message: &str) -> SpreadError {
    SpreadError::InvalidSpread(message.to_string())
}

#[test]
fn a_three_card_frame_binds_each_position_once() {
    let session = digest('a');
    let placements = vec![
        placement("next_step", '3'),
        placement("foundation", '1'),
        placement("tension", '2'),
        placement("foundation", '9'),
    ];
    let spread = ThreeCardSpread::new(&session, &placements).unwrap();
    assert_eq!(spread.schema, THREE_CARD_SPREAD_SCHEMA);
    let bound: Vec<(ThreeCardPosition, String)> =
        spread.placements.iter().map(|p| (p.position, p.reading_id.clone())).collect();
    assert_eq!(
        bound,
        vec![
            (ThreeCardPosition::Foundation, digest('1')),
            (ThreeCardPosition::Tension, digest('2')),
            (ThreeCardPosition::NextStep, digest('3')),
        ]
    );
    assert_eq!(spread.relations[0].label, "tests the foundation");
    assert_eq!(spread.relations[1].label, "answers the tension");
    let identity = format!(
        "{{\"schema\":\"{THREE_CARD_SPREAD_SCHEMA}\",\"session_id\":\"{session}\",\"placements\":[{{\"position\":\"foundation\",\"reading_id\":\"{}\"}},{{\"position\":\"tension\",\"reading_id\":\"{}\"}},{{\"position\":\"next_step\",\"reading_id\":\"{}\"}}],\"relations\":[{{\"from\":\"tension\",\"to\":\"foundation\",\"kind\":\"questions\",\"label\":\"tests the foundation\"}},{{\"from\":\"next_step\",\"to\":\"tension\",\"kind\":\"next_step\",\"label\":\"answers the tension\"}}]}}",
        digest('1'),
        digest('2'),
        digest('3')
    );
    assert_eq!(spread.id, hex(&identity));
    assert_eq!(spread.validate(), Ok(()));
}

#[test]
fn three_card_frames_refuse_missing_or_malformed_members() {
    let session = digest('a');
    let missing = vec![placement("foundation", '1'), placement("tension", '2')];
    assert_eq!(ThreeCardSpread::new(&session, &missing), Err(invalid("session positions")));
    let all = vec![placement("foundation", '1'), placement("tension", '2'), placement("next_step", '3')];
    assert_eq!(ThreeCardSpread::new("short", &all), Err(invalid("session id")));
    let bad = vec![placement("foundation", '1'), placement("tension", 'X'), placement("next_step", '3')];
    assert_eq!(ThreeCardSpread::new(&session, &bad), Err(invalid("placement reading id")));
    let mut spread = ThreeCardSpread::new(&session, &all).unwrap();
    spread.relations.swap(0, 1);
    assert_eq!(spread.validate(), Err(invalid("authored relations")));
    let mut spread = ThreeCardSpread::new(&session, &all).unwrap();
    spread.id = digest('0');
    assert_eq!(spread.validate(), Err(invalid("identity")));
}

#[test]
fn position_names_are_lowercase_identifiers() {
    assert!(valid_position_name("next_step2"));
    assert!(!valid_position_name(""));
    assert!(!valid_position_name("2nd"));
    assert!(!valid_position_name("Upper"));
    assert!(!valid_position_name("with space"));
    assert!(valid_position_name(&"a".repeat(64)));
    assert!(!valid_position_name(&"a".repeat(65)));
}

#[test]
fn templates_sort_relations_and_identify_their_layout() {
    let positions = vec![SpreadPosition::new("a", "A"), SpreadPosition::new("b", "B")];
    let relations = vec![
        SpreadRelation::new("b", SpreadRelationKind::Supports, "a", "back"),
        SpreadRelation::new("a", SpreadRelationKind::Questions, "b", "forth"),
        SpreadRelation::new("a", SpreadRelationKind::Supports, "b", "also"),
    ];
    let t = SpreadTemplate::new("Pair", positions, relations).unwrap();
    let order: Vec<(&str, SpreadRelationKind)> = t.relations.iter().map(|r| (r.from.as_str(), r.kind)).collect();
    assert_eq!(
        order,
        vec![("a", SpreadRelationKind::Supports), ("a", SpreadRelationKind::Questions), ("b", SpreadRelationKind::Supports)]
    );
    let identity = [
        "{\"schema\":\"cleromancy.spread-template/v1\",\"label\":\"Pair\",\"positions\":[",
        "{\"name\":\"a\",\"label\":\"A\"},{\"name\":\"b\",\"label\":\"B\"}],\"relations\":[",
        "{\"from\":\"a\",\"to\":\"b\",\"kind\":\"supports\",\"label\":\"also\"},",
        "{\"from\":\"a\",\"to\":\"b\",\"kind\":\"questions\",\"label\":\"forth\"},",
        "{\"from\":\"b\",\"to\":\"a\",\"kind\":\"supports\",\"label\":\"back\"}]}"
    ].concat();
    assert_eq!(t.id, hex(&identity));
    assert_eq!(t.validate(), Ok(()));
}

#[test]
fn templates_refuse_malformed_layouts() {
    let p = |n: &str| SpreadPosition::new(n, "Label");
    let r = |f: &str, t: &str| SpreadRelation::new(f, SpreadRelationKind::Supports, t, "l");
    assert_eq!(SpreadTemplate::new(" ", vec![p("a")], vec![]), Err(invalid("template label")));
    assert_eq!(SpreadTemplate::new("x", vec![], vec![]), Err(invalid("template positions")));
    assert_eq!(SpreadTemplate::new("x", vec![p("A")], vec![]), Err(invalid("position name")));
    assert_eq!(
        SpreadTemplate::new("x", vec![SpreadPosition::new("a", " ")], vec![]),
        Err(invalid("position label"))
    );
    assert_eq!(SpreadTemplate::new("x", vec![p("a"), p("a")], vec![]), Err(invalid("duplicate position name")));
    assert_eq!(SpreadTemplate::new("x", vec![p("a")], vec![r("a", "a")]), Err(invalid("relation positions")));
    assert_eq!(SpreadTemplate::new("x", vec![p("a")], vec![r("a", "z")]), Err(invalid("relation positions")));
    assert_eq!(
        SpreadTemplate::new("x", vec![p("a"), p("b")], vec![r("a", "b"), r("a", "b")]),
        Err(invalid("duplicate relation"))
    );
    let thirteen: Vec<SpreadPosition> = (0..13).map(|i| p(&format!("p{i}"))).collect();
    assert_eq!(SpreadTemplate::new("x", thirteen, vec![]), Err(invalid("template positions")));
}

#[test]
fn a_spread_attaches_a_template_to_a_matching_session() {
    let template = SpreadTemplate::new(
        "Pair",
        vec![SpreadPosition::new("a", "A"), SpreadPosition::new("b", "B")],
        vec![],
    )
    .unwrap();
    let session = ReadingSession {
        id: digest('5'),
        created_at_ms: 7,
        context_digest: digest('c'),
        field_digest: digest('f'),
        placements: vec![placement("a", '1'), placement("b", '2')],
    };
    let spread = Spread::new(&template, &session).unwrap();
    assert_eq!(spread.schema, SPREAD_SCHEMA);
    assert_eq!(spread.template_id, template.id);
    assert_eq!(spread.session_id, session.id);
    let identity = format!(
        "{{\"schema\":\"{SPREAD_SCHEMA}\",\"template_id\":\"{}\",\"session_id\":\"{}\"}}",
        template.id, session.id
    );
    assert_eq!(spread.id, hex(&identity));
    assert_eq!(spread_id(&template.id, &session.id), spread.id);
    assert_eq!(spread.validate(), Ok(()));
    let mut reordered = session.clone();
    reordered.placements.reverse();
    assert_eq!(
        Spread::new(&template, &reordered),
        Err(invalid("session positions do not match template"))
    );
}
