//! Device-local consent for personal graph sync: which Cleromancy truth this
//! device may offer, the facets that consent selects, and its settings file.

use vstd::prelude::*;

use crate::text::{copy_str, replace_all_char, replace_char, str_eq};

verus! {

pub const SYNC_BATCH_SCHEMA: &'static str = "cleromancy.sync-batch/v6";

pub const CLEROMANCY_SYNC_SETTINGS_SCHEMA: &'static str = "cleromancy.sync-settings/v1";

pub const CLEROMANCY_SYNC_SETTINGS_FILENAME: &'static str = "sync-settings.json";

pub const CONTEXT_FACET: &'static str = "cleromancy.context/v1";

pub const FIELD_FACET: &'static str = "cleromancy.field/v1";

pub const READING_FACET: &'static str = "cleromancy.reading/v1";

pub const SESSION_FACET: &'static str = "cleromancy.reading-session/v1";

pub const REFLECTION_FACET: &'static str = "cleromancy.reflection/v1";

pub const THREE_CARD_SPREAD_FACET: &'static str = "cleromancy.three-card-spread/v1";

pub const SPREAD_TEMPLATE_FACET: &'static str = "cleromancy.spread-template/v1";

pub const SPREAD_FACET: &'static str = "cleromancy.spread/v1";

pub const ASTROLOGY_CHART_FACET: &'static str = "cleromancy.astrology-chart/v1";

pub const ASTROLOGY_FACTS_FACET: &'static str = "cleromancy.astrology-facts/v1";

pub const CONCURRENCE_FACET: &'static str = "cleromancy.concurrence/v1";

/// Which Cleromancy truth may enter the personal graph. Reading sync
/// includes its contexts and exact candidate fields, because a receipt
/// without either cannot be independently replayed.
#[derive(Clone, Copy, Debug, PartialEq, Eq, Structural)]
pub enum CleromancySyncSelection {
    Off,
    Contexts,
    /// Contexts, fields, sealed results, saved occasions, astrology facts and
    /// pattern occasions, without reflective notes.
    ContextsAndReadings,
    /// The full reading history, reflections included.
    ContextsReadingsAndReflections,
}

impl Default for CleromancySyncSelection {
    fn default() -> (r: Self)
        ensures
            r == CleromancySyncSelection::Off,
    {
        CleromancySyncSelection::Off
    }
}

/// The supplied name did not identify a supported selection.
#[derive(Clone, Debug, PartialEq, Eq)]
pub struct CleromancySyncSelectionParseError {
    value: String,
}

impl CleromancySyncSelectionParseError {
    /// The name that was refused.
    pub fn value(&self) -> (r: &str)
        ensures
            r@ == self.refused(),
    {
        self.value.as_str()
    }

    pub closed spec fn refused(&self) -> Seq<char> {
        self.value@
    }
}

impl CleromancySyncSelection {
    /// The stable, human-entered name of a selection.
    pub open spec fn name(self) -> Seq<char> {
        match self {
            CleromancySyncSelection::Off => "off"@,
            CleromancySyncSelection::Contexts => "contexts"@,
            CleromancySyncSelection::ContextsAndReadings => "contexts-and-readings"@,
            CleromancySyncSelection::ContextsReadingsAndReflections => "contexts-readings-and-reflections"@,
        }
    }

    pub fn as_str(self) -> (r: &'static str)
        ensures
            r@ == self.name(),
    {
        match self {
            CleromancySyncSelection::Off => "off",
            CleromancySyncSelection::Contexts => "contexts",
            CleromancySyncSelection::ContextsAndReadings => "contexts-and-readings",
            CleromancySyncSelection::ContextsReadingsAndReflections => "contexts-readings-and-reflections",
        }
    }

    pub fn includes_contexts(self) -> (r: bool)
        ensures
            r == (self != CleromancySyncSelection::Off),
    {
        !matches!(self, CleromancySyncSelection::Off)
    }

    pub fn includes_readings(self) -> (r: bool)
        ensures
            r == (self == CleromancySyncSelection::ContextsAndReadings || self
                == CleromancySyncSelection::ContextsReadingsAndReflections),
    {
        matches!(
            self,
            CleromancySyncSelection::ContextsAndReadings
                | CleromancySyncSelection::ContextsReadingsAndReflections
        )
    }

    pub fn includes_sessions(self) -> (r: bool)
        ensures
            r == (self == CleromancySyncSelection::ContextsAndReadings || self
                == CleromancySyncSelection::ContextsReadingsAndReflections),
    {
        self.includes_readings()
    }

    pub fn includes_astrology(self) -> (r: bool)
        ensures
            r == (self == CleromancySyncSelection::ContextsAndReadings || self
                == CleromancySyncSelection::ContextsReadingsAndReflections),
    {
        self.includes_readings()
    }

    pub fn includes_concurrences(self) -> (r: bool)
        ensures
            r == (self == CleromancySyncSelection::ContextsAndReadings || self
                == CleromancySyncSelection::ContextsReadingsAndReflections),
    {
        self.includes_readings()
    }

    pub fn includes_reflections(self) -> (r: bool)
        ensures
            r == (self == CleromancySyncSelection::ContextsReadingsAndReflections),
    {
        matches!(self, CleromancySyncSelection::ContextsReadingsAndReflections)
    }

    /// The facets the personal graph materializes under this selection: the
    /// context facet for any selection but `off`; the reading history facets
    /// when readings are selected; the reflection facet last when
    /// reflections are.
    pub open spec fn facets(self) -> Seq<Seq<char>> {
        let contexts: Seq<Seq<char>> = if self != CleromancySyncSelection::Off {
            seq![CONTEXT_FACET@]
        } else {
            seq![]
        };
        let readings: Seq<Seq<char>> = if self == CleromancySyncSelection::ContextsAndReadings
            || self == CleromancySyncSelection::ContextsReadingsAndReflections {
            seq![
                FIELD_FACET@,
                READING_FACET@,
                SESSION_FACET@,
                THREE_CARD_SPREAD_FACET@,
                SPREAD_TEMPLATE_FACET@,
                SPREAD_FACET@,
                ASTROLOGY_CHART_FACET@,
                ASTROLOGY_FACTS_FACET@,
                CONCURRENCE_FACET@,
            ]
        } else {
            seq![]
        };
        let reflections: Seq<Seq<char>> = if self
            == CleromancySyncSelection::ContextsReadingsAndReflections {
            seq![REFLECTION_FACET@]
        } else {
            seq![]
        };
        contexts + readings + reflections
    }

    /// The named facets this selection lets the personal graph materialize.
    pub fn selected_facets(self) -> (r: Vec<&'static str>)
        ensures
            r@.map_values(|f: &'static str| f@) == self.facets(),
    {
        let mut facets: Vec<&'static str> = Vec::new();
        if self.includes_contexts() {
            facets.push(CONTEXT_FACET);
        }
        if self.includes_readings() {
            facets.push(FIELD_FACET);
            facets.push(READING_FACET);
            facets.push(SESSION_FACET);
            facets.push(THREE_CARD_SPREAD_FACET);
            facets.push(SPREAD_TEMPLATE_FACET);
            facets.push(SPREAD_FACET);
            facets.push(ASTROLOGY_CHART_FACET);
            facets.push(ASTROLOGY_FACTS_FACET);
            facets.push(CONCURRENCE_FACET);
        }
        if self.includes_reflections() {
            facets.push(REFLECTION_FACET);
        }
        assert(facets@.map_values(|f: &'static str| f@) =~= self.facets());
        facets
    }
}

/// The selection a name stands for, once underscores are read as hyphens.
pub open spec fn selection_named(name: Seq<char>) -> Option<CleromancySyncSelection> {
    let n = replace_char(name, '_', '-');
    if n == "off"@ {
        Some(CleromancySyncSelection::Off)
    } else if n == "contexts"@ {
        Some(CleromancySyncSelection::Contexts)
    } else if n == "contexts-and-readings"@ {
        Some(CleromancySyncSelection::ContextsAndReadings)
    } else if n == "contexts-readings-and-reflections"@ {
        Some(CleromancySyncSelection::ContextsReadingsAndReflections)
    } else {
        None
    }
}

/// Reads a selection from its name; `_` may stand for `-`.
pub fn parse_selection(value: &str) -> (r: Result<CleromancySyncSelection, CleromancySyncSelectionParseError>)
    ensures
        match selection_named(value@) {
            Some(s) => r == Ok::<CleromancySyncSelection, CleromancySyncSelectionParseError>(s),
            None => r matches Err(e) && e.refused() == value@,
        },
{
    let n = replace_all_char(value, '_', '-');
    if str_eq(n.as_str(), "off") {
        Ok(CleromancySyncSelection::Off)
    } else if str_eq(n.as_str(), "contexts") {
        Ok(CleromancySyncSelection::Contexts)
    } else if str_eq(n.as_str(), "contexts-and-readings") {
        Ok(CleromancySyncSelection::ContextsAndReadings)
    } else if str_eq(n.as_str(), "contexts-readings-and-reflections") {
        Ok(CleromancySyncSelection::ContextsReadingsAndReflections)
    } else {
        Err(CleromancySyncSelectionParseError { value: copy_str(value) })
    }
}

impl core::str::FromStr for CleromancySyncSelection {
    type Err = CleromancySyncSelectionParseError;

    fn from_str(value: &str) -> (r: Result<Self, Self::Err>)
        ensures
            match selection_named(value@) {
                Some(s) => r == Ok::<CleromancySyncSelection, CleromancySyncSelectionParseError>(s),
                None => r matches Err(e) && e.refused() == value@,
            },
    {
        parse_selection(value)
    }
}

/// A selection's name reads back as that selection, and each wider
/// selection contains the narrower: reflections imply readings, and readings
/// imply their contexts.
pub proof fn law_selection_names_round_trip(s: CleromancySyncSelection)
    ensures
        selection_named(s.name()) == Some(s),
        s == CleromancySyncSelection::ContextsReadingsAndReflections ==> s.facets().contains(
            READING_FACET@,
        ),
        (s == CleromancySyncSelection::ContextsAndReadings || s
            == CleromancySyncSelection::ContextsReadingsAndReflections) ==> s.facets().contains(
            CONTEXT_FACET@,
        ) && s.facets().contains(FIELD_FACET@),
{
    reveal_strlit("off");
    reveal_strlit("contexts");
    reveal_strlit("contexts-and-readings");
    reveal_strlit("contexts-readings-and-reflections");
    assert(replace_char(s.name(), '_', '-') =~= s.name());
    if s == CleromancySyncSelection::ContextsReadingsAndReflections {
        assert(s.facets()[2] == READING_FACET@);
    }
    if s == CleromancySyncSelection::ContextsAndReadings || s
        == CleromancySyncSelection::ContextsReadingsAndReflections {
        assert(s.facets()[0] == CONTEXT_FACET@);
        assert(s.facets()[1] == FIELD_FACET@);
    }
}

/// How many records of each kind a sync import applied.
#[derive(Clone, Copy, Debug, Default, PartialEq, Eq)]
pub struct CleromancySyncImport {
    pub contexts: usize,
    pub fields: usize,
    pub readings: usize,
    pub sessions: usize,
    pub spreads: usize,
    pub spread_templates: usize,
    pub charts: usize,
    pub facts: usize,
    pub concurrences: usize,
    pub reflections: usize,
}

/// The local consent boundary for the personal-sync adapter. The selection
/// is not itself personal graph truth: copying it to another device could
/// silently broaden what that device publishes.
#[derive(Clone, Debug, PartialEq, Eq)]
pub struct CleromancySyncSettings {
    pub schema: String,
    pub selection: CleromancySyncSelection,
}

impl Default for CleromancySyncSettings {
    /// The privacy-preserving default: nothing is selected for sync.
    fn default() -> (r: Self)
        ensures
            r.schema@ == CLEROMANCY_SYNC_SETTINGS_SCHEMA@,
            r.selection == CleromancySyncSelection::Off,
    {
        CleromancySyncSettings {
            schema: copy_str(CLEROMANCY_SYNC_SETTINGS_SCHEMA),
            selection: CleromancySyncSelection::Off,
        }
    }
}

#[derive(Clone, Debug, PartialEq, Eq)]
pub enum CleromancySyncSettingsError {
    File { path: String, message: String },
    Schema { schema: String },
}

impl CleromancySyncSettings {
    /// Settings of an unknown schema are refused, naming the schema.
    pub fn validate(&self) -> (r: Result<(), CleromancySyncSettingsError>)
        ensures
            self.schema@ == CLEROMANCY_SYNC_SETTINGS_SCHEMA@ ==> r is Ok,
            self.schema@ != CLEROMANCY_SYNC_SETTINGS_SCHEMA@ ==> (r matches Err(
                CleromancySyncSettingsError::Schema { schema },
            ) && schema@ == self.schema@),
    {
        if !str_eq(self.schema.as_str(), CLEROMANCY_SYNC_SETTINGS_SCHEMA) {
            return Err(CleromancySyncSettingsError::Schema { schema: self.schema.clone() });
        }
        Ok(())
    }
}

} // verus!
