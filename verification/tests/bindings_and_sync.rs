use cleromancy::binding::{check_spread_binding, check_three_card_binding, BindingError};
use cleromancy::reading::{Reading, Receipt, SelectionMode};
use cleromancy::session::{ReadingPlacement, ReadingSession};
use cleromancy::spread::{SpreadError, SpreadPosition, Spread, SpreadTemplate, ThreeCardSpread};
use cleromancy::sync::CleromancySyncSelection;
use cleromancy::sync_plan::{
    decode_projection_nodes, sync_batch_plan, CleromancySyncError, SyncEdge, SyncEdgeKind, SyncKind,
    SyncNeed, SyncNodeProblem, SyncRecord,
};

fn digest(c: char) -> String {
    std::iter::repeat(c).take(64).collect()
}

fn placement(position: &str, reading: char) -> ReadingPlacement {
    ReadingPlacement { position: position.to_string(), reading_id: digest(reading) }
}

fn reading(id: &str) -> Reading {
    Reading {
        schema: "cleromancy.reading/v1".to_string(),
        id: id.to_string(),
        system: "tarot".to_string(),
        candidate_id: format!("c-{id}"),
        title: "t".to_string(),
        interpretation: "i".to_string(),
        receipt: Receipt {
            schema: "cleromancy.receipt/v1".to_string(),
            mode: SelectionMode::Calculated,
            algorithm: "a".to_string(),
            context_digest: digest('c'),
            field_digest: digest('f'),
            enrichment: None,
            derivation: None,
            derivation_digest: None,
            qualified_weights: vec![1],
            total_weight: 1,
            sample: None,
            event_nonce: None,
            selected_index: 0,
            selected_candidate: format!("c-{id}"),
        },
    }
}

fn session(placements: Vec<ReadingPlacement>) -> ReadingSession {
    ReadingSession {
        id: digest('5'),
        created_at_ms: 7,
        context_digest: digest('c'),
        field_digest: digest('f'),
        placements,
    }
}

fn invalid(message: &str) -> BindingError {
    BindingError::Spread(SpreadError::InvalidSpread(message.to_string()))
}

#[test]
fn a_three_card_frame_binds_only_its_own_session_and_results() {
    let s = session(vec![placement("foundation", '1'), placement("tension", '2'), placement("next_step", '3')]);
    let spread = ThreeCardSpread::new(&s.id, &s.placements).unwrap();
    let all = vec![reading(&digest('1')), reading(&digest('2')), reading(&digest('3'))];
    assert_eq!(check_three_card_binding(&s, &all, &spread), Ok(()));
    assert_eq!(
        check_three_card_binding(&s, &all[..2], &spread),
        Err(BindingError::MissingReading(digest('3')))
    );
    let mut other = s.clone();
    other.id = digest('6');
    assert_eq!(check_three_card_binding(&other, &all, &spread), Err(invalid("bound session id")));
    let mut moved = s.clone();
    moved.placements[1] = placement("tension", '9');
    assert_eq!(check_three_card_binding(&moved, &all, &spread), Err(invalid("placement reading id")));
    let mut unnamed = s.clone();
    unnamed.placements.truncate(2);
    assert_eq!(check_three_card_binding(&unnamed, &all, &spread), Err(invalid("session positions")));
}

#[test]
fn an_authored_spread_binds_its_template_session_and_results() {
    let template = SpreadTemplate::new(
        "Pair",
        vec![SpreadPosition::new("a", "A"), SpreadPosition::new("b", "B")],
        vec![],
    )
    .unwrap();
    let s = session(vec![placement("a", '1'), placement("b", '2')]);
    let spread = Spread::new(&template, &s).unwrap();
    let all = vec![reading(&digest('2')), reading(&digest('1'))];
    assert_eq!(check_spread_binding(&s, &all, &template, &spread), Ok(()));
    assert_eq!(
        check_spread_binding(&s, &all[..1], &template, &spread),
        Err(BindingError::MissingReading(digest('1')))
    );
    let mut other = s.clone();
    other.id = digest('6');
    assert_eq!(
        check_spread_binding(&other, &all, &template, &spread),
        Err(invalid("bound template or session id"))
    );
    let mut foreign = all.clone();
    foreign[1].receipt.field_digest = digest('e');
    assert_eq!(
        check_spread_binding(&s, &foreign, &template, &spread),
        Err(BindingError::InvalidSession("reading field digest".to_string()))
    );
    foreign[1].receipt.context_digest = digest('e');
    assert_eq!(
        check_spread_binding(&s, &foreign, &template, &spread),
        Err(BindingError::InvalidSession("reading context digest".to_string()))
    );
}

fn record(node: u128, kind: SyncKind, key: &str, needs: Vec<SyncNeed>) -> SyncRecord {
    let address = format!("cleromancy://{node}/{key}");
    SyncRecord {
        node,
        address: address.clone(),
        identity: address,
        namespaced: true,
        kinds: vec![kind],
        key: key.to_string(),
        needs,
        refusal: None,
    }
}

fn reading_record(node: u128, key: &str, context: &str, field: &str) -> SyncRecord {
    record(
        node,
        SyncKind::Reading,
        key,
        vec![
            SyncNeed::Record(SyncKind::Context, context.to_string()),
            SyncNeed::Record(SyncKind::Field, field.to_string()),
        ],
    )
}

#[test]
fn a_sync_plan_takes_only_the_selected_kinds() {
    let records = vec![
        record(1, SyncKind::Context, "ctx", vec![]),
        record(2, SyncKind::Field, "fld", vec![]),
        reading_record(3, "r1", "ctx", "fld"),
        record(4, SyncKind::Reflection, "note", vec![]),
    ];
    let off = sync_batch_plan(&records, CleromancySyncSelection::Off).unwrap();
    assert!(off.records.is_empty());
    assert_eq!(off.counts.contexts, 0);
    let contexts = sync_batch_plan(&records, CleromancySyncSelection::Contexts).unwrap();
    assert_eq!(contexts.records, vec![0]);
    assert_eq!(contexts.counts.contexts, 1);
    assert_eq!(contexts.counts.readings, 0);
    let readings = sync_batch_plan(&records, CleromancySyncSelection::ContextsAndReadings).unwrap();
    assert_eq!(readings.records, vec![0, 1, 2]);
    assert_eq!((readings.counts.fields, readings.counts.readings, readings.counts.reflections), (1, 1, 0));
    let all = sync_batch_plan(&records, CleromancySyncSelection::ContextsReadingsAndReflections).unwrap();
    assert_eq!(all.records, vec![0, 1, 2, 3]);
    assert_eq!(all.counts.reflections, 1);
}

#[test]
fn a_sync_plan_refuses_a_reading_without_its_context() {
    let records = vec![record(2, SyncKind::Field, "fld", vec![]), reading_record(3, "r1", "ctx", "fld")];
    let e = sync_batch_plan(&records, CleromancySyncSelection::ContextsAndReadings).unwrap_err();
    assert_eq!(
        e,
        CleromancySyncError::MissingContext { reading: "r1".to_string(), context_digest: "ctx".to_string() }
    );
}

#[test]
fn a_sync_plan_refuses_malformed_nodes_in_order() {
    let mut two = record(1, SyncKind::Context, "ctx", vec![]);
    two.kinds.push(SyncKind::Field);
    let mut moved = record(2, SyncKind::Context, "other", vec![]);
    moved.identity = "cleromancy://elsewhere".to_string();
    let mut foreign = record(3, SyncKind::Context, "third", vec![]);
    foreign.namespaced = false;
    assert_eq!(
        sync_batch_plan(&vec![moved.clone(), two.clone()], CleromancySyncSelection::Contexts),
        Err(CleromancySyncError::InvalidNode { node: 2, problem: SyncNodeProblem::AddressMismatch })
    );
    assert_eq!(
        sync_batch_plan(&vec![two, moved], CleromancySyncSelection::Contexts),
        Err(CleromancySyncError::InvalidNode { node: 1, problem: SyncNodeProblem::MoreThanOneFacet })
    );
    assert_eq!(
        sync_batch_plan(&vec![foreign], CleromancySyncSelection::Contexts),
        Err(CleromancySyncError::InvalidNode { node: 3, problem: SyncNodeProblem::ForeignId })
    );
}

#[test]
fn astrology_facts_and_charts_travel_together() {
    let chart = record(1, SyncKind::AstrologyChart, "chart", vec![SyncNeed::FactsFor("chart".to_string())]);
    let facts = record(
        2,
        SyncKind::AstrologyFacts,
        "facts",
        vec![SyncNeed::Record(SyncKind::AstrologyChart, "chart".to_string())],
    );
    let both = vec![chart.clone(), facts];
    let plan = sync_batch_plan(&both, CleromancySyncSelection::ContextsAndReadings).unwrap();
    assert_eq!((plan.counts.charts, plan.counts.facts), (1, 1));
    assert_eq!(plan.edges, vec![SyncEdge { from: 2, to: 1, kind: SyncEdgeKind::GeneratedFrom }]);
    assert_eq!(
        sync_batch_plan(&vec![chart], CleromancySyncSelection::ContextsAndReadings),
        Err(CleromancySyncError::MissingAstrologyFacts { chart_digest: "chart".to_string() })
    );
}

#[test]
fn an_import_waits_for_history_and_refuses_selected_conflicts() {
    let records = vec![record(1, SyncKind::Context, "ctx", vec![])];
    assert_eq!(
        decode_projection_nodes(&records, 2, &vec![], CleromancySyncSelection::Contexts),
        Err(CleromancySyncError::PendingHistory(2))
    );
    let reflection_conflict = vec!["node/7/facet/cleromancy.reflection/v1".to_string()];
    let plan = decode_projection_nodes(&records, 0, &reflection_conflict, CleromancySyncSelection::Contexts)
        .unwrap();
    assert_eq!(plan.records, vec![0]);
    assert_eq!(
        decode_projection_nodes(
            &records,
            0,
            &reflection_conflict,
            CleromancySyncSelection::ContextsReadingsAndReflections
        ),
        Err(CleromancySyncError::Conflict(reflection_conflict[0].clone()))
    );
    let off = decode_projection_nodes(&records, 3, &reflection_conflict, CleromancySyncSelection::Off).unwrap();
    assert!(off.records.is_empty());
}

#[test]
fn a_sync_plan_lists_records_by_kind_then_node() {
    let records = vec![
        reading_record(9, "r1", "ctx", "fld"),
        record(5, SyncKind::Field, "fld", vec![]),
        record(7, SyncKind::Context, "ctx2", vec![]),
        record(3, SyncKind::Context, "ctx", vec![]),
    ];
    let plan = sync_batch_plan(&records, CleromancySyncSelection::ContextsAndReadings).unwrap();
    assert_eq!(plan.records, vec![3, 2, 1, 0]);
    assert_eq!((plan.counts.contexts, plan.counts.fields, plan.counts.readings), (2, 1, 1));
    assert_eq!(
        plan.edges,
        vec![
            SyncEdge { from: 9, to: 3, kind: SyncEdgeKind::GeneratedFrom },
            SyncEdge { from: 9, to: 5, kind: SyncEdgeKind::GeneratedFrom },
        ]
    );
}

#[test]
fn records_are_checked_in_kind_order_then_by_their_own_checks() {
    let facts = record(
        8,
        SyncKind::AstrologyFacts,
        "facts",
        vec![SyncNeed::Record(SyncKind::AstrologyChart, "chart".to_string())],
    );
    let reading = reading_record(1, "r1", "missing-context", "fld");
    let field = record(2, SyncKind::Field, "fld", vec![]);
    let records = vec![reading.clone(), field.clone(), facts];
    assert_eq!(
        sync_batch_plan(&records, CleromancySyncSelection::ContextsAndReadings),
        Err(CleromancySyncError::MissingAstrologyChart {
            facts: "facts".to_string(),
            chart_digest: "chart".to_string()
        })
    );
    let context = record(3, SyncKind::Context, "missing-context", vec![]);
    let mut unreplayed = reading.clone();
    unreplayed.refusal = Some("sealed reading".to_string());
    assert_eq!(
        sync_batch_plan(&vec![unreplayed, field.clone(), context.clone()], CleromancySyncSelection::ContextsAndReadings),
        Err(CleromancySyncError::Refused {
            node: 1,
            record: "r1".to_string(),
            reason: "sealed reading".to_string()
        })
    );
    assert!(sync_batch_plan(&vec![reading, field, context], CleromancySyncSelection::ContextsAndReadings).is_ok());
}
