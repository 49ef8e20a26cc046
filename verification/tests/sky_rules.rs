use cleromancy::sky::{
    is_leap_year, next_day, nonempty, SkyEarthOrientationApproximation, SkyEarthOrientationPolicy,
    SkyError, SkyFactKind, SkyNumericalPolicy, SkyProvenance, SkyRule, SkyRulePack,
    SkySearchControls, SkyTwilightMeasurement, SkyTwilightPolicy, UtcCivilDay, Wgs84Observer,
    SKY_RULE_PACK_SCHEMA,
};

fn rule(id: &str, kind: SkyFactKind, prompt: &str) -> SkyRule {
    SkyRule { id: id.to_string(), fact_kind: kind, prompt: prompt.to_string() }
}

fn twilight(altitude: i32, step: u32) -> SkyTwilightPolicy {
    SkyTwilightPolicy {
        measurement: SkyTwilightMeasurement::AirlessSolarCenter,
        altitude_millidegrees: altitude,
        search: SkySearchControls { step_seconds: step, tolerance_milliseconds: 1_000 },
    }
}

#[test]
fn gregorian_leap_years() {
    assert!(is_leap_year(2000));
    assert!(!is_leap_year(1900));
    assert!(is_leap_year(2024));
    assert!(!is_leap_year(2023));
    assert!(is_leap_year(-4));
    assert!(!is_leap_year(-1));
}

#[test]
fn civil_days_are_checked_against_their_month() {
    assert_eq!(UtcCivilDay::new(2024, 2, 29), Ok(UtcCivilDay { year: 2024, month: 2, day: 29 }));
    assert_eq!(UtcCivilDay::new(2023, 2, 29), Err(SkyError::InvalidCivilDay));
    assert_eq!(UtcCivilDay::new(2024, 13, 1), Err(SkyError::InvalidCivilDay));
    assert_eq!(UtcCivilDay::new(2024, 4, 31), Err(SkyError::InvalidCivilDay));
    assert_eq!(UtcCivilDay::new(2024, 1, 0), Err(SkyError::InvalidCivilDay));
}

#[test]
fn the_next_day_rolls_over_months_and_years() {
    let d = |y, m, n| UtcCivilDay { year: y, month: m, day: n };
    assert_eq!(next_day(d(2024, 2, 28)), Ok(d(2024, 2, 29)));
    assert_eq!(next_day(d(2023, 2, 28)), Ok(d(2023, 3, 1)));
    assert_eq!(next_day(d(2024, 4, 30)), Ok(d(2024, 5, 1)));
    assert_eq!(next_day(d(2023, 12, 31)), Ok(d(2024, 1, 1)));
    assert_eq!(next_day(d(2024, 13, 1)), Err(SkyError::InvalidCivilDay));
}

#[test]
fn observers_are_within_wgs84_bounds() {
    assert_eq!(Wgs84Observer::new(91_000_000, 0, 0), Err(SkyError::InvalidLatitude(91_000_000)));
    assert_eq!(Wgs84Observer::new(0, -180_000_001, 0), Err(SkyError::InvalidLongitude(-180_000_001)));
    let ok = Wgs84Observer::new(-90_000_000, 180_000_000, -5).unwrap();
    assert_eq!(ok.height_millimeters, -5);
}

#[test]
fn search_controls_bound_step_and_tolerance() {
    assert_eq!(SkySearchControls::new(0, 1), Err(SkyError::InvalidSearch("step_seconds")));
    assert_eq!(SkySearchControls::new(86_401, 1), Err(SkyError::InvalidSearch("step_seconds")));
    assert_eq!(
        SkySearchControls::new(60, 60_001),
        Err(SkyError::InvalidSearch("tolerance_milliseconds"))
    );
    assert_eq!(SkySearchControls::new(60, 0), Err(SkyError::InvalidSearch("tolerance_milliseconds")));
    assert!(SkySearchControls::new(60, 60_000).is_ok());
}

#[test]
fn twilight_policy_bounds_altitude_and_step() {
    assert_eq!(twilight(90_001, 60).validate(), Err(SkyError::InvalidTwilightAltitude(90_001)));
    assert_eq!(twilight(-6_000, 3_601).validate(), Err(SkyError::InvalidSearch("twilight step_seconds")));
    assert_eq!(twilight(-6_000, 0).validate(), Err(SkyError::InvalidSearch("step_seconds")));
    assert_eq!(twilight(-6_000, 3_600).validate(), Ok(()));
}

#[test]
fn numerical_policy_checks_each_part_in_order() {
    let policy = SkyNumericalPolicy {
        phase_search: SkySearchControls { step_seconds: 600, tolerance_milliseconds: 1_000 },
        twilight: twilight(-6_000, 60),
        earth_orientation: SkyEarthOrientationPolicy {
            authority: "IERS".to_string(),
            snapshot: "  ".to_string(),
            approximation: SkyEarthOrientationApproximation::ConstantUt1MinusUtcZeroPolarMotion {
                ut1_minus_utc_milliseconds: 0,
            },
        },
    };
    assert_eq!(policy.validate(), Err(SkyError::Empty("earth_orientation.snapshot")));
}

#[test]
fn blank_values_are_refused_by_name() {
    assert_eq!(nonempty("x", " \t\n"), Err(SkyError::Empty("x")));
    assert_eq!(nonempty("x", " a "), Ok(()));
    let provenance = SkyProvenance {
        model: "m".to_string(),
        provider: "p".to_string(),
        provider_snapshot: Some("  ".to_string()),
        transform: "t".to_string(),
        earth_orientation: "e".to_string(),
    };
    assert_eq!(provenance.validate(), Err(SkyError::Empty("provenance.provider_snapshot")));
}

#[test]
fn rule_packs_sort_rules_by_identity() {
    let pack = SkyRulePack::new(
        "pack",
        "author",
        "1",
        vec![rule("b", SkyFactKind::Dusk, "Evening."), rule("a", SkyFactKind::Dawn, "Morning.")],
    )
    .unwrap();
    assert_eq!(pack.schema, SKY_RULE_PACK_SCHEMA);
    let ids: Vec<&str> = pack.rules.iter().map(|r| r.id.as_str()).collect();
    assert_eq!(ids, vec!["a", "b"]);
    assert_eq!(pack.rule_for(SkyFactKind::Dusk).unwrap().prompt, "Evening.");
    assert!(pack.rule_for(SkyFactKind::NewMoon).is_none());
    assert_eq!(pack.validate(), Ok(()));
}

#[test]
fn rule_packs_refuse_repeats_and_blanks() {
    let dup_id = SkyRulePack::new(
        "pack",
        "author",
        "1",
        vec![rule("a", SkyFactKind::Dawn, "x"), rule("a", SkyFactKind::Dusk, "y")],
    );
    assert_eq!(dup_id, Err(SkyError::NonCanonicalRules));
    let dup_kind = SkyRulePack::new(
        "pack",
        "author",
        "1",
        vec![rule("a", SkyFactKind::Dawn, "x"), rule("b", SkyFactKind::Dawn, "y")],
    );
    assert_eq!(dup_kind, Err(SkyError::Duplicate("rule kind Dawn".to_string())));
    let blank = SkyRulePack::new(" ", "author", "1", vec![]);
    assert_eq!(blank, Err(SkyError::Empty("pack.id")));
    let blank_prompt = SkyRulePack::new("p", "a", "1", vec![rule("a", SkyFactKind::Dawn, " ")]);
    assert_eq!(blank_prompt, Err(SkyError::Empty("rule.prompt")));
    let mut pack = SkyRulePack::new("p", "a", "1", vec![]).unwrap();
    pack.schema = "other".to_string();
    assert_eq!(pack.validate(), Err(SkyError::InvalidPackSchema));
}

#[test]
fn rule_pack_digest_is_blake3_of_its_identity_json() {
    let pack = SkyRulePack::new("pack", "me", "2", vec![rule("r1", SkyFactKind::NewMoon, "Begin \"again\".")])
        .unwrap();
    let text = [
        "{\"schema\":\"cleromancy.sky-rule-pack/v1\",\"id\":\"pack\",\"author\":\"me\",",
        "\"version\":\"2\",\"rules\":[{\"id\":\"r1\",\"fact_kind\":\"new_moon\",",
        "\"prompt\":\"Begin \\\"again\\\".\"}]}"
    ].concat();
    assert_eq!(pack.digest(), blake3::hash(text.as_bytes()).to_hex().to_string());
}
