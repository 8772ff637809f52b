//! The model's structured answer.

use vstd::prelude::*;

use crate::text;

verus! {

/// A commit message as the model answers it.
#[derive(Debug, Clone, PartialEq, Eq)]
pub struct CommitMessage {
    /// Coherent purpose or project-level effect of the staged changes.
    pub intent: String,
    /// Important concrete changes that support the inferred intent.
    pub key_changes: Vec<String>,
    /// Nature of the change as a whole.
    pub change_kind: ChangeKind,
    /// Qualitative confidence in the inferred intent.
    pub confidence: Confidence,
    /// Final commit subject.
    pub subject: String,
    /// Additional information not already expressed by the subject.
    pub body: Option<String>,
}

/// High-level classification of the commit as a whole.
#[derive(Debug, Clone, Copy, PartialEq, Eq, Structural)]
pub enum ChangeKind {
    /// Introduces a new capability or feature.
    Feature,
    /// Intentionally changes existing behavior without primarily fixing a bug.
    BehaviorChange,
    /// Corrects unintended or erroneous behavior.
    BugFix,
    /// Restructures implementation without intentionally changing behavior or capabilities.
    Refactor,
    /// Primarily adds, removes, or changes tests.
    Tests,
    /// Primarily changes documentation.
    Documentation,
    /// Changes development, build, release, or repository tooling.
    Tooling,
    /// Primarily changes configuration.
    Configuration,
    /// Combines multiple change kinds without a single clearly dominant one.
    Mixed,
}

/// Qualitative confidence that the supplied repository evidence supports the inferred intent.
///
/// The variants are ordered from lowest to highest confidence.
#[derive(Debug, Clone, Copy, PartialEq, Eq, PartialOrd, Ord, Structural)]
pub enum Confidence {
    /// The inferred intent is weakly supported or substantially uncertain.
    Low,
    /// The inferred intent is reasonably supported but contains some uncertainty.
    Medium,
    /// The inferred intent is strongly supported by the supplied evidence.
    High,
}

/// What a change kind is called in an answer.
pub open spec fn kind_name(kind: ChangeKind) -> Seq<char> {
    match kind {
        ChangeKind::Feature => "feature"@,
        ChangeKind::BehaviorChange => "behavior_change"@,
        ChangeKind::BugFix => "bug_fix"@,
        ChangeKind::Refactor => "refactor"@,
        ChangeKind::Tests => "tests"@,
        ChangeKind::Documentation => "documentation"@,
        ChangeKind::Tooling => "tooling"@,
        ChangeKind::Configuration => "configuration"@,
        ChangeKind::Mixed => "mixed"@,
    }
}

/// What a change kind is called in a diagnostic.
pub open spec fn kind_label(kind: ChangeKind) -> Seq<char> {
    match kind {
        ChangeKind::Feature => "Feature"@,
        ChangeKind::BehaviorChange => "BehaviorChange"@,
        ChangeKind::BugFix => "BugFix"@,
        ChangeKind::Refactor => "Refactor"@,
        ChangeKind::Tests => "Tests"@,
        ChangeKind::Documentation => "Documentation"@,
        ChangeKind::Tooling => "Tooling"@,
        ChangeKind::Configuration => "Configuration"@,
        ChangeKind::Mixed => "Mixed"@,
    }
}

/// What a confidence is called in an answer.
pub open spec fn confidence_name(confidence: Confidence) -> Seq<char> {
    match confidence {
        Confidence::Low => "low"@,
        Confidence::Medium => "medium"@,
        Confidence::High => "high"@,
    }
}

/// What a confidence is called in a diagnostic.
pub open spec fn confidence_label(confidence: Confidence) -> Seq<char> {
    match confidence {
        Confidence::Low => "Low"@,
        Confidence::Medium => "Medium"@,
        Confidence::High => "High"@,
    }
}

impl ChangeKind {
    /// What the kind is called in an answer.
    pub fn name(self) -> (name: &'static str)
        ensures
            name@ == kind_name(self),
    {
        match self {
            ChangeKind::Feature => "feature",
            ChangeKind::BehaviorChange => "behavior_change",
            ChangeKind::BugFix => "bug_fix",
            ChangeKind::Refactor => "refactor",
            ChangeKind::Tests => "tests",
            ChangeKind::Documentation => "documentation",
            ChangeKind::Tooling => "tooling",
            ChangeKind::Configuration => "configuration",
            ChangeKind::Mixed => "mixed",
        }
    }

    /// What the kind is called in a diagnostic.
    pub fn label(self) -> (label: &'static str)
        ensures
            label@ == kind_label(self),
    {
        match self {
            ChangeKind::Feature => "Feature",
            ChangeKind::BehaviorChange => "BehaviorChange",
            ChangeKind::BugFix => "BugFix",
            ChangeKind::Refactor => "Refactor",
            ChangeKind::Tests => "Tests",
            ChangeKind::Documentation => "Documentation",
            ChangeKind::Tooling => "Tooling",
            ChangeKind::Configuration => "Configuration",
            ChangeKind::Mixed => "Mixed",
        }
    }
}

impl Confidence {
    /// What the confidence is called in an answer.
    pub fn name(self) -> (name: &'static str)
        ensures
            name@ == confidence_name(self),
    {
        match self {
            Confidence::Low => "low",
            Confidence::Medium => "medium",
            Confidence::High => "high",
        }
    }

    /// What the confidence is called in a diagnostic.
    pub fn label(self) -> (label: &'static str)
        ensures
            label@ == confidence_label(self),
    {
        match self {
            Confidence::Low => "Low",
            Confidence::Medium => "Medium",
            Confidence::High => "High",
        }
    }
}

/// The lines of a text without white space around them, those that are not empty.
pub open spec fn filled_lines(lines: Seq<Seq<char>>) -> Seq<Seq<char>>
    decreases lines.len(),
{
    if lines.len() == 0 {
        seq![]
    } else {
        let before = filled_lines(lines.drop_last());
        if text::trim(lines.last()).len() == 0 {
            before
        } else {
            before.push(text::trim(lines.last()))
        }
    }
}

/// A text on one line.
pub open spec fn on_one_line(text: Seq<char>) -> Seq<char> {
    text::join(filled_lines(text::lines(text)), " "@)
}

/// A subject with nothing but white space.
#[derive(Debug, Clone, Copy, PartialEq, Eq, Structural)]
pub struct EmptySubject;

impl EmptySubject {
    /// What the error is reported as.
    pub fn message(&self) -> (message: &'static str)
        ensures
            message@ == "model returned an empty subject"@,
    {
        "model returned an empty subject"
    }
}

/// The type of a property, with its limits.
#[derive(Debug, Clone, PartialEq, Eq)]
pub enum PropertyType {
    /// A text.
    Text {
        /// Minimum number of characters.
        min_length: u32,
        /// Maximum number of characters.
        max_length: u32,
    },
    /// An array of texts.
    TextArray {
        /// Minimum number of items.
        min_items: u32,
        /// Maximum number of items.
        max_items: u32,
        /// Minimum number of characters of an item.
        min_length: u32,
        /// Maximum number of characters of an item.
        max_length: u32,
    },
    /// One of several texts.
    Choice {
        /// The texts.
        values: Vec<&'static str>,
    },
}

/// One property of the object that an answer is.
#[derive(Debug, Clone, PartialEq, Eq)]
pub struct SchemaProperty {
    /// Name of the property.
    pub name: &'static str,
    /// Type of the property.
    pub property_type: PropertyType,
    /// What the property means.
    pub description: &'static str,
    /// Whether an answer must have the property.
    pub required: bool,
}

/// The schema of the object that an answer is.
#[derive(Debug, Clone, PartialEq, Eq)]
pub struct AnswerSchema {
    /// The properties, in order.
    pub properties: Vec<SchemaProperty>,
    /// Whether an answer may have other properties.
    pub additional_properties: bool,
}

/// What a [`PropertyType`] holds.
pub ghost enum TypeView {
    Text { min_length: int, max_length: int },
    TextArray { min_items: int, max_items: int, min_length: int, max_length: int },
    Choice { values: Seq<Seq<char>> },
}

/// What a [`SchemaProperty`] holds.
pub ghost struct PropertyView {
    pub name: Seq<char>,
    pub property_type: TypeView,
    pub description: Seq<char>,
    pub required: bool,
}

/// What names hold.
pub open spec fn name_views(names: Seq<&'static str>) -> Seq<Seq<char>> {
    names.map_values(|name: &'static str| name@)
}

impl View for PropertyType {
    type V = TypeView;

    open spec fn view(&self) -> TypeView {
        match self {
            PropertyType::Text { min_length, max_length } => TypeView::Text {
                min_length: *min_length as int,
                max_length: *max_length as int,
            },
            PropertyType::TextArray { min_items, max_items, min_length, max_length } => {
                TypeView::TextArray {
                    min_items: *min_items as int,
                    max_items: *max_items as int,
                    min_length: *min_length as int,
                    max_length: *max_length as int,
                }
            },
            PropertyType::Choice { values } => TypeView::Choice { values: name_views(values@) },
        }
    }
}

impl View for SchemaProperty {
    type V = PropertyView;

    open spec fn view(&self) -> PropertyView {
        PropertyView {
            name: self.name@,
            property_type: self.property_type@,
            description: self.description@,
            required: self.required,
        }
    }
}

/// What properties hold.
pub open spec fn property_views(properties: Seq<SchemaProperty>) -> Seq<PropertyView> {
    properties.map_values(|property: SchemaProperty| property@)
}

/// The JSON type of a property.
pub open spec fn json_type(property_type: TypeView) -> Seq<char> {
    match property_type {
        TypeView::Text { .. } => "string"@,
        TypeView::TextArray { .. } => "array"@,
        TypeView::Choice { .. } => "string"@,
    }
}

/// The names of the properties that an answer must have, in order.
pub open spec fn required_names(properties: Seq<PropertyView>) -> Seq<Seq<char>>
    decreases properties.len(),
{
    if properties.len() == 0 {
        seq![]
    } else {
        let before = required_names(properties.drop_last());
        if properties.last().required {
            before.push(properties.last().name)
        } else {
            before
        }
    }
}

impl PropertyType {
    /// The JSON type of the items of an array.
    pub const ITEM_TYPE: &'static str = "string";

    /// The JSON type of the property.
    pub fn json_type(&self) -> (name: &'static str)
        ensures
            name@ == json_type(self@),
    {
        match self {
            PropertyType::Text { .. } => "string",
            PropertyType::TextArray { .. } => "array",
            PropertyType::Choice { .. } => "string",
        }
    }
}

impl AnswerSchema {
    /// The JSON type of an answer.
    pub const TYPE: &'static str = "object";

    /// The names of the properties that an answer must have, in order.
    pub fn required_names(&self) -> (names: Vec<&'static str>)
        ensures
            name_views(names@) == required_names(property_views(self.properties@)),
    {
        let ghost views = property_views(self.properties@);
        let mut names: Vec<&'static str> = Vec::new();
        assert(name_views(names@) =~= seq![]);
        for i in 0..self.properties.len()
            invariant
                views == property_views(self.properties@),
                name_views(names@) == required_names(views.take(i as int)),
        {
            assert(views.take(i + 1).drop_last() =~= views.take(i as int));
            assert(views.take(i + 1).last() == self.properties@[i as int]@);
            if self.properties[i].required {
                let ghost before = name_views(names@);
                let name = self.properties[i].name;
                names.push(name);
                assert(name_views(names@) =~= before.push(name@));
            }
        }
        assert(views.take(self.properties@.len() as int) =~= views);
        names
    }
}

/// The names of all change kinds.
pub open spec fn all_kind_names() -> Seq<Seq<char>> {
    seq![
        "feature"@,
        "behavior_change"@,
        "bug_fix"@,
        "refactor"@,
        "tests"@,
        "documentation"@,
        "tooling"@,
        "configuration"@,
        "mixed"@,
    ]
}

/// The names of all confidences.
pub open spec fn all_confidence_names() -> Seq<Seq<char>> {
    seq!["low"@, "medium"@, "high"@]
}

/// The properties of an answer, in order.
pub open spec fn answer_properties() -> Seq<PropertyView> {
    seq![
        PropertyView {
            name: "intent"@,
            property_type: TypeView::Text { min_length: 1, max_length: 240 },
            description: CommitMessage::INTENT@,
            required: true,
        },
        PropertyView {
            name: "key_changes"@,
            property_type: TypeView::TextArray {
                min_items: 1,
                max_items: 4,
                min_length: 1,
                max_length: 180,
            },
            description: CommitMessage::KEY_CHANGES@,
            required: true,
        },
        PropertyView {
            name: "change_kind"@,
            property_type: TypeView::Choice { values: all_kind_names() },
            description: CommitMessage::CHANGE_KIND@,
            required: true,
        },
        PropertyView {
            name: "confidence"@,
            property_type: TypeView::Choice { values: all_confidence_names() },
            description: CommitMessage::CONFIDENCE@,
            required: true,
        },
        PropertyView {
            name: "subject"@,
            property_type: TypeView::Text { min_length: 1, max_length: 100 },
            description: CommitMessage::SUBJECT@,
            required: true,
        },
        PropertyView {
            name: "body"@,
            property_type: TypeView::Text { min_length: 1, max_length: 700 },
            description: CommitMessage::BODY@,
            required: false,
        },
    ]
}

impl CommitMessage {
    /// What the intent means.
    pub const INTENT: &'static str = "The coherent purpose or project-level effect of the staged changes as a whole.";

    /// What the key changes mean.
    pub const KEY_CHANGES: &'static str = "The most important concrete changes that support the inferred intent. Focus on distinct, relevant changes rather than restating the diff.";

    /// What the change kind means.
    pub const CHANGE_KIND: &'static str = "The best high-level classification of the commit as a whole. Use feature for a new capability; behavior_change for an intentional change to existing behavior; bug_fix for correcting unintended behavior; refactor for internal restructuring without an intentional change in behavior or capabilities; tests for primarily test changes; documentation for primarily documentation changes; tooling for changes to development, build, release, or repository tooling rather than product functionality; configuration for primarily configuration changes; mixed when no single category clearly dominates.";

    /// What the confidence means.
    pub const CONFIDENCE: &'static str = "Qualitative confidence that the supplied repository evidence supports the inferred intent.";

    /// What the subject means.
    pub const SUBJECT: &'static str = "Imperative Git commit subject describing the coherent purpose of the change.";

    /// What the body means.
    pub const BODY: &'static str = "Optional commit body containing useful information not already conveyed by the subject.";

    /// Return the normalized commit subject produced by the model.
    ///
    /// Leading and trailing whitespace is removed from each line, empty lines are discarded, and
    /// remaining lines are joined with spaces. Returns an error if the resulting subject is empty.
    pub fn normalized_subject(&self) -> (result: Result<String, EmptySubject>)
        ensures
            match result {
                Ok(subject) => subject@ == on_one_line(self.subject@) && subject@.len() > 0,
                Err(_) => on_one_line(self.subject@).len() == 0,
            },
    {
        let lines = text::lines_of(&self.subject);
        let ghost views = text::lines(self.subject@);
        let mut filled: Vec<String> = Vec::new();
        assert(text::texts(filled@) =~= filled_lines(views.take(0)));
        for i in 0..lines.len()
            invariant
                views == text::texts(lines@),
                text::texts(filled@) == filled_lines(views.take(i as int)),
        {
            assert(views.take(i + 1).drop_last() =~= views.take(i as int));
            assert(views.take(i + 1).last() == lines@[i as int]@);
            let line = text::trimmed(&lines[i]);
            if !line.as_str().is_empty() {
                proof {
                    text::lemma_texts_push(filled@, line);
                }
                filled.push(line);
            }
        }
        assert(views.take(lines@.len() as int) =~= views);
        let subject = text::joined(&filled, " ");
        if subject.as_str().is_empty() {
            Err(EmptySubject)
        } else {
            Ok(subject)
        }
    }

    /// Return the normalized commit body, if the model provided a non-empty one.
    ///
    /// Leading and trailing whitespace is removed. A missing or whitespace-only body is returned
    /// as `None`.
    pub fn normalized_body(&self) -> (result: Option<String>)
        ensures
            match (result, self.body) {
                (Some(shown), Some(body)) => shown@ == text::trim(body@) && shown@.len() > 0,
                (None, Some(body)) => text::trim(body@).len() == 0,
                (None, None) => true,
                (Some(_), None) => false,
            },
    {
        match &self.body {
            Some(body) => {
                let shown = text::trimmed(body);
                if shown.as_str().is_empty() {
                    None
                } else {
                    Some(shown)
                }
            },
            None => None,
        }
    }

    /// Return the schema expected for the model's structured response.
    ///
    /// The schema constrains the model to a [`CommitMessage`], describing its attributes' meaning
    /// and types. An answer has no other properties.
    #[must_use]
    pub fn schema() -> (schema: AnswerSchema)
        ensures
            property_views(schema.properties@) == answer_properties(),
            !schema.additional_properties,
    {
        let kinds: Vec<&'static str> = vec![
            "feature",
            "behavior_change",
            "bug_fix",
            "refactor",
            "tests",
            "documentation",
            "tooling",
            "configuration",
            "mixed",
        ];
        assert(name_views(kinds@) =~= all_kind_names());
        let confidences: Vec<&'static str> = vec!["low", "medium", "high"];
        assert(name_views(confidences@) =~= all_confidence_names());
        let properties: Vec<SchemaProperty> = vec![
            SchemaProperty {
                name: "intent",
                property_type: PropertyType::Text { min_length: 1, max_length: 240 },
                description: CommitMessage::INTENT,
                required: true,
            },
            SchemaProperty {
                name: "key_changes",
                property_type: PropertyType::TextArray {
                    min_items: 1,
                    max_items: 4,
                    min_length: 1,
                    max_length: 180,
                },
                description: CommitMessage::KEY_CHANGES,
                required: true,
            },
            SchemaProperty {
                name: "change_kind",
                property_type: PropertyType::Choice { values: kinds },
                description: CommitMessage::CHANGE_KIND,
                required: true,
            },
            SchemaProperty {
                name: "confidence",
                property_type: PropertyType::Choice { values: confidences },
                description: CommitMessage::CONFIDENCE,
                required: true,
            },
            SchemaProperty {
                name: "subject",
                property_type: PropertyType::Text { min_length: 1, max_length: 100 },
                description: CommitMessage::SUBJECT,
                required: true,
            },
            SchemaProperty {
                name: "body",
                property_type: PropertyType::Text { min_length: 1, max_length: 700 },
                description: CommitMessage::BODY,
                required: false,
            },
        ];
        assert(property_views(properties@) =~= answer_properties());
        AnswerSchema { properties, additional_properties: false }
    }
}

/// What a property of a JSON object holds, as far as a schema tells values apart.
pub ghost enum JsonField {
    Text(Seq<char>),
    Texts(Seq<Seq<char>>),
    Other,
}

/// Whether a text has at least and at most as many characters as the limits say.
pub open spec fn is_within(text: Seq<char>, min_length: int, max_length: int) -> bool {
    min_length <= text.len() <= max_length
}

/// Whether a field is of a type.
pub open spec fn is_of_type(field: JsonField, property_type: TypeView) -> bool {
    match (field, property_type) {
        (JsonField::Text(text), TypeView::Text { min_length, max_length }) => is_within(
            text,
            min_length,
            max_length,
        ),
        (JsonField::Text(text), TypeView::Choice { values }) => values.contains(text),
        (
            JsonField::Texts(items),
            TypeView::TextArray { min_items, max_items, min_length, max_length },
        ) => min_items <= items.len() <= max_items && forall|i: int|
            0 <= i < items.len() ==> is_within(#[trigger] items[i], min_length, max_length),
        _ => false,
    }
}

/// Whether an object is valid under a schema: its fields are of the types of their properties, it
/// has every required one, and no other field unless such are allowed.
pub open spec fn is_valid(
    properties: Seq<PropertyView>,
    additional_properties: bool,
    object: Map<Seq<char>, JsonField>,
) -> bool {
    &&& forall|i: int|
        0 <= i < properties.len() && object.contains_key((#[trigger] properties[i]).name)
            ==> is_of_type(object[properties[i].name], properties[i].property_type)
    &&& forall|i: int|
        0 <= i < properties.len() && (#[trigger] properties[i]).required ==> object.contains_key(
            properties[i].name,
        )
    &&& additional_properties || forall|name: Seq<char>| #[trigger]
        object.contains_key(name) ==> exists|i: int|
            0 <= i < properties.len() && (#[trigger] properties[i]).name == name
}

/// Whether an object has a field with a text.
pub open spec fn has_text(object: Map<Seq<char>, JsonField>, name: Seq<char>) -> bool {
    object.contains_key(name) && object[name] is Text
}

/// Whether an object has the fields of a commit message and no others, each with a value of its
/// field.
pub open spec fn is_answer(object: Map<Seq<char>, JsonField>) -> bool {
    &&& has_text(object, "intent"@)
    &&& object.contains_key("key_changes"@) && object["key_changes"@] is Texts
    &&& object.contains_key("change_kind"@) && exists|kind: ChangeKind|
        object["change_kind"@] == JsonField::Text(#[trigger] kind_name(kind))
    &&& object.contains_key("confidence"@) && exists|confidence: Confidence|
        object["confidence"@] == JsonField::Text(#[trigger] confidence_name(confidence))
    &&& has_text(object, "subject"@)
    &&& object.contains_key("body"@) ==> object["body"@] is Text
    &&& forall|name: Seq<char>| #[trigger]
        object.contains_key(name) ==> name == "intent"@ || name == "key_changes"@ || name
            == "change_kind"@ || name == "confidence"@ || name == "subject"@ || name == "body"@
}

/// Every object that is valid under the schema of an answer is a commit message.
pub proof fn lemma_schema_allows_only_answers(object: Map<Seq<char>, JsonField>)
    requires
        is_valid(answer_properties(), false, object),
    ensures
        is_answer(object),
{
    let properties = answer_properties();
    assert(properties[0].name == "intent"@);
    assert(properties[1].name == "key_changes"@);
    assert(properties[2].name == "change_kind"@);
    assert(properties[3].name == "confidence"@);
    assert(properties[4].name == "subject"@);
    assert(properties[5].name == "body"@);
    lemma_schema_allows_every_name(ChangeKind::Mixed, Confidence::Low);
    if let JsonField::Text(kind) = object["change_kind"@] {
        let i = choose|i: int| 0 <= i < all_kind_names().len() && all_kind_names()[i] == kind;
        assert(exists|of: ChangeKind| #[trigger] kind_name(of) == all_kind_names()[i]);
    }
    if let JsonField::Text(confidence) = object["confidence"@] {
        let i = choose|i: int|
            0 <= i < all_confidence_names().len() && all_confidence_names()[i] == confidence;
        assert(exists|of: Confidence| #[trigger] confidence_name(of) == all_confidence_names()[i]);
    }
}

/// All fields of an answer but its body are required.
pub proof fn lemma_only_the_body_is_optional()
    ensures
        required_names(answer_properties()) == seq![
            "intent"@,
            "key_changes"@,
            "change_kind"@,
            "confidence"@,
            "subject"@,
        ],
{
    reveal_with_fuel(required_names, 7);
    let all = answer_properties();
    assert(all.drop_last() =~= all.take(5));
    assert(all.take(5).drop_last() =~= all.take(4));
    assert(all.take(4).drop_last() =~= all.take(3));
    assert(all.take(3).drop_last() =~= all.take(2));
    assert(all.take(2).drop_last() =~= all.take(1));
    assert(all.take(1).drop_last() =~= all.take(0));
    assert(required_names(all) =~= seq![
        "intent"@,
        "key_changes"@,
        "change_kind"@,
        "confidence"@,
        "subject"@,
    ]);
}

/// The schema allows exactly the names of the change kinds and confidences.
pub proof fn lemma_schema_allows_every_name(kind: ChangeKind, confidence: Confidence)
    ensures
        all_kind_names().contains(kind_name(kind)),
        all_confidence_names().contains(confidence_name(confidence)),
        forall|i: int|
            0 <= i < all_kind_names().len() ==> exists|of: ChangeKind| #[trigger]
                kind_name(of) == #[trigger] all_kind_names()[i],
        forall|i: int|
            0 <= i < all_confidence_names().len() ==> exists|of: Confidence| #[trigger]
                confidence_name(of) == #[trigger] all_confidence_names()[i],
{
    let kinds = all_kind_names();
    assert(kinds[0] == kind_name(ChangeKind::Feature));
    assert(kinds[1] == kind_name(ChangeKind::BehaviorChange));
    assert(kinds[2] == kind_name(ChangeKind::BugFix));
    assert(kinds[3] == kind_name(ChangeKind::Refactor));
    assert(kinds[4] == kind_name(ChangeKind::Tests));
    assert(kinds[5] == kind_name(ChangeKind::Documentation));
    assert(kinds[6] == kind_name(ChangeKind::Tooling));
    assert(kinds[7] == kind_name(ChangeKind::Configuration));
    assert(kinds[8] == kind_name(ChangeKind::Mixed));
    let confidences = all_confidence_names();
    assert(confidences[0] == confidence_name(Confidence::Low));
    assert(confidences[1] == confidence_name(Confidence::Medium));
    assert(confidences[2] == confidence_name(Confidence::High));
}

/// A line holds no line feed.
proof fn lemma_lines_hold_no_line_feed(text: Seq<char>)
    ensures
        forall|i: int| 0 <= i < text::lines(text).len() ==> !(#[trigger] text::lines(text)[i]).contains('\n'),
    decreases text.len(),
{
    let end = text::find(text, '\n');
    text::lemma_find(text, '\n');
    if text.len() == 0 {
    } else if 0 <= end < text.len() {
        let rest = text.skip(end + 1);
        lemma_lines_hold_no_line_feed(rest);
        let first = text::without_return(text.take(end));
        assert(!first.contains('\n')) by {
            if first.contains('\n') {
                let i = choose|i: int| 0 <= i < first.len() && first[i] == '\n';
                assert(text[i] == '\n');
            }
        }
        let all = seq![first] + text::lines(rest);
        assert forall|i: int| 0 <= i < all.len() implies !(#[trigger] all[i]).contains('\n') by {
            if i > 0 {
                assert(all[i] == text::lines(rest)[i - 1]);
            }
        }
    } else {
        assert(!text.contains('\n')) by {
            if text.contains('\n') {
                let i = choose|i: int| 0 <= i < text.len() && text[i] == '\n';
                assert(text[i] == '\n');
            }
        }
        assert(text::lines(text) =~= seq![text]);
    }
}

proof fn lemma_trim_keeps_out(text: Seq<char>, character: char)
    requires
        !text.contains(character),
    ensures
        !text::trim(text).contains(character),
{
    text::lemma_trim_is_within(text);
    let (from, to) = choose|from: int, to: int|
        0 <= from <= to <= text.len() && text::trim(text) == #[trigger] text.subrange(from, to);
    if text::trim(text).contains(character) {
        let i = choose|i: int| 0 <= i < text::trim(text).len() && text::trim(text)[i] == character;
        assert(text[from + i] == character);
    }
}

/// Whether no text of a sequence holds a character.
pub open spec fn all_without(texts: Seq<Seq<char>>, character: char) -> bool {
    forall|i: int| 0 <= i < texts.len() ==> !(#[trigger] texts[i]).contains(character)
}

proof fn lemma_filled_lines_keep_out(lines: Seq<Seq<char>>, character: char)
    requires
        all_without(lines, character),
    ensures
        all_without(filled_lines(lines), character),
    decreases lines.len(),
{
    if lines.len() > 0 {
        let rest = lines.drop_last();
        assert forall|i: int| 0 <= i < rest.len() implies !(#[trigger] rest[i]).contains(
            character,
        ) by {
            assert(rest[i] == lines[i]);
        }
        lemma_filled_lines_keep_out(rest, character);
        assert(!lines[lines.len() - 1].contains(character));
        lemma_trim_keeps_out(lines.last(), character);
    }
}

proof fn lemma_join_keeps_out(parts: Seq<Seq<char>>, separator: Seq<char>, character: char)
    requires
        all_without(parts, character),
        !separator.contains(character),
    ensures
        !text::join(parts, separator).contains(character),
    decreases parts.len(),
{
    if parts.len() == 1 {
        assert(!parts[0].contains(character));
    } else if parts.len() > 1 {
        let rest = parts.drop_last();
        assert forall|i: int| 0 <= i < rest.len() implies !(#[trigger] rest[i]).contains(
            character,
        ) by {
            assert(rest[i] == parts[i]);
        }
        lemma_join_keeps_out(rest, separator, character);
        assert(!parts[parts.len() - 1].contains(character));
        let before = text::join(rest, separator);
        let whole = before + separator + parts.last();
        assert forall|i: int| 0 <= i < whole.len() implies whole[i] != character by {
            if i < before.len() {
                assert(before.contains(before[i]));
            } else if i < before.len() + separator.len() {
                assert(separator.contains(separator[i - before.len()]));
            } else {
                assert(parts.last().contains(parts.last()[i - before.len() - separator.len()]));
            }
        }
    }
}

/// A normalized subject is one line.
pub proof fn lemma_normalized_subjects_are_one_line(subject: Seq<char>)
    ensures
        !on_one_line(subject).contains('\n'),
{
    lemma_lines_hold_no_line_feed(subject);
    lemma_filled_lines_keep_out(text::lines(subject), '\n');
    reveal_strlit(" ");
    lemma_join_keeps_out(filled_lines(text::lines(subject)), " "@, '\n');
}

/// Whether a text is not empty and has no white space at its ends.
pub open spec fn has_firm_ends(text: Seq<char>) -> bool {
    text.len() > 0 && !text::is_space(text[0]) && !text::is_space(text.last())
}

/// Whether each of the texts is not empty and has no white space at its ends.
pub open spec fn all_have_firm_ends(texts: Seq<Seq<char>>) -> bool {
    forall|i: int| 0 <= i < texts.len() ==> has_firm_ends(#[trigger] texts[i])
}

proof fn lemma_trim_start_ends(text: Seq<char>)
    ensures
        text::trim_start(text).len() > 0 ==> !text::is_space(text::trim_start(text)[0])
            && text::trim_start(text).last() == text.last(),
    decreases text.len(),
{
    if text.len() > 0 && text::is_space(text[0]) {
        lemma_trim_start_ends(text.skip(1));
    }
}

proof fn lemma_trim_end_ends(text: Seq<char>)
    ensures
        text::trim_end(text).len() > 0 ==> !text::is_space(text::trim_end(text).last()),
    decreases text.len(),
{
    if text.len() > 0 && text::is_space(text.last()) {
        lemma_trim_end_ends(text.drop_last());
    }
}

proof fn lemma_trim_ends(text: Seq<char>)
    requires
        text::trim(text).len() > 0,
    ensures
        has_firm_ends(text::trim(text)),
{
    lemma_trim_end_ends(text);
    lemma_trim_start_ends(text::trim_end(text));
    if text::trim_end(text).len() == 0 {
        assert(text::trim(text).len() == 0);
    }
}

proof fn lemma_filled_lines_have_firm_ends(lines: Seq<Seq<char>>)
    ensures
        all_have_firm_ends(filled_lines(lines)),
    decreases lines.len(),
{
    if lines.len() > 0 {
        lemma_filled_lines_have_firm_ends(lines.drop_last());
        if text::trim(lines.last()).len() > 0 {
            lemma_trim_ends(lines.last());
        }
    }
}

proof fn lemma_joined_texts_have_firm_ends(parts: Seq<Seq<char>>, separator: Seq<char>)
    requires
        parts.len() > 0,
        all_have_firm_ends(parts),
    ensures
        has_firm_ends(text::join(parts, separator)),
    decreases parts.len(),
{
    assert(has_firm_ends(parts[parts.len() - 1]));
    if parts.len() > 1 {
        let rest = parts.drop_last();
        assert forall|i: int| 0 <= i < rest.len() implies has_firm_ends(#[trigger] rest[i]) by {
            assert(rest[i] == parts[i]);
        }
        lemma_joined_texts_have_firm_ends(rest, separator);
        let before = text::join(rest, separator);
        let whole = before + separator + parts.last();
        assert(whole[0] == before[0]);
        assert(whole.last() == parts.last().last());
    }
}

/// Normalizing a normalized subject changes nothing.
pub proof fn lemma_normalized_subjects_stay_as_they_are(subject: Seq<char>)
    ensures
        on_one_line(on_one_line(subject)) == on_one_line(subject),
{
    let once = on_one_line(subject);
    let parts = filled_lines(text::lines(subject));
    lemma_normalized_subjects_are_one_line(subject);
    lemma_filled_lines_have_firm_ends(text::lines(subject));
    text::lemma_find(once, '\n');
    if parts.len() == 0 {
        assert(once =~= seq![]);
        assert(text::lines(once) =~= seq![]);
    } else {
        lemma_joined_texts_have_firm_ends(parts, " "@);
        assert(text::lines(once) =~= seq![once]);
        assert(text::trim(once) == once);
        assert(seq![once].drop_last() =~= seq![]);
        assert(filled_lines(seq![once].drop_last()) =~= seq![]);
        assert(filled_lines(seq![once]) =~= seq![once]);
        assert(text::join(seq![once], " "@) == once);
    }
}

/// No line of a subject is lost: the text of each line that is not blank stands in the normalized
/// subject, without the white space around it.
pub proof fn lemma_normalized_subjects_keep_every_line(subject: Seq<char>, i: int)
    requires
        0 <= i < text::lines(subject).len(),
    ensures
        text::occurs(text::trim(text::lines(subject)[i]), on_one_line(subject)),
{
    let lines = text::lines(subject);
    let line = text::trim(lines[i]);
    if line.len() > 0 {
        lemma_filled_lines_keep(lines, i);
        let kept = filled_lines(lines);
        let at = choose|at: int| 0 <= at < kept.len() && kept[at] == line;
        text::lemma_joined_parts_occur(kept, " "@, at);
    } else {
        let whole = on_one_line(subject);
        assert(whole.subrange(0, 0) =~= line);
        assert(text::occurs_at(line, whole, 0));
    }
}

proof fn lemma_filled_lines_keep(lines: Seq<Seq<char>>, i: int)
    requires
        0 <= i < lines.len(),
        text::trim(lines[i]).len() > 0,
    ensures
        filled_lines(lines).contains(text::trim(lines[i])),
    decreases lines.len(),
{
    let rest = lines.drop_last();
    let before = filled_lines(rest);
    let all = filled_lines(lines);
    if i == lines.len() - 1 {
        assert(all[before.len() as int] == text::trim(lines[i]));
    } else {
        assert(rest[i] == lines[i]);
        lemma_filled_lines_keep(rest, i);
        let at = choose|at: int| 0 <= at < before.len() && before[at] == text::trim(lines[i]);
        assert(all[at] == before[at]);
    }
}

/// A subject on one line without white space at its ends stays as it is.
pub proof fn lemma_plain_subjects_stay_as_they_are(subject: Seq<char>)
    requires
        has_firm_ends(subject),
        !subject.contains('\n'),
    ensures
        on_one_line(subject) == subject,
{
    text::lemma_find(subject, '\n');
    assert(text::lines(subject) =~= seq![subject]);
    text::lemma_trimming_takes_only_white_space(subject);
    assert(seq![subject].drop_last() =~= seq![]);
    assert(filled_lines(seq![]) =~= seq![]);
    assert(filled_lines(seq![subject]) =~= seq![subject]);
    assert(text::join(seq![subject], " "@) == subject);
}

/// Kinds and confidences that differ have different names, which say the same as their labels.
#[verifier::rlimit(50)]
pub proof fn lemma_names_tell_kinds_apart(
    kind: ChangeKind,
    other: ChangeKind,
    confidence: Confidence,
    another: Confidence,
)
    ensures
        kind_name(kind) == kind_name(other) ==> kind == other,
        kind_label(kind) == kind_label(other) ==> kind == other,
        confidence_name(confidence) == confidence_name(another) ==> confidence == another,
        confidence_label(confidence) == confidence_label(another) ==> confidence == another,
{
    reveal_strlit("feature");
    reveal_strlit("behavior_change");
    reveal_strlit("bug_fix");
    reveal_strlit("refactor");
    reveal_strlit("tests");
    reveal_strlit("documentation");
    reveal_strlit("tooling");
    reveal_strlit("configuration");
    reveal_strlit("mixed");
    reveal_strlit("Feature");
    reveal_strlit("BehaviorChange");
    reveal_strlit("BugFix");
    reveal_strlit("Refactor");
    reveal_strlit("Tests");
    reveal_strlit("Documentation");
    reveal_strlit("Tooling");
    reveal_strlit("Configuration");
    reveal_strlit("Mixed");
    reveal_strlit("low");
    reveal_strlit("medium");
    reveal_strlit("high");
    reveal_strlit("Low");
    reveal_strlit("Medium");
    reveal_strlit("High");
    assert(kind_name(kind).len() == kind_name(other).len() && kind_name(kind)[0] == kind_name(
        other,
    )[0] && kind_name(kind)[2] == kind_name(other)[2] ==> kind == other);
    assert(kind_label(kind).len() == kind_label(other).len() && kind_label(kind)[0] == kind_label(
        other,
    )[0] && kind_label(kind)[2] == kind_label(other)[2] ==> kind == other);
    assert(confidence_name(confidence)[0] == confidence_name(another)[0] ==> confidence
        == another);
    assert(confidence_label(confidence)[0] == confidence_label(another)[0] ==> confidence
        == another);
}

} // verus!
