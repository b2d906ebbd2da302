//! The remote question record: a question as the survey platform's data
//! source represents it.
//!
//! The platform's shape does not mirror the authored model one-to-one —
//! single- and multi-choice questions share one generic choice-list
//! representation distinguished by a flag — so the comparator classifies
//! remote records through capability predicates (free-form? single-choice?
//! multi-choice?) rather than assuming structural identity.
use vstd::prelude::*;

verus! {

/// A question as fetched from the survey platform.
#[derive(Debug, Clone, PartialEq, Eq)]
pub enum Question {
    /// A free-text input question.
    Input { text: String },
    /// A generic choice list; `multiple` distinguishes pick-one from
    /// pick-any-subset.
    ChoiceList { text: String, multiple: bool, choices: Vec<String> },
    /// A grid of statement rows rated against shared columns.
    ChoiceTable { text: String, rows: Vec<String>, columns: Vec<String> },
    /// A rating scale; the scale itself is implied.
    RatingScale { text: String },
    /// An ordered list of labels the respondent ranks.
    Ranking { text: String, choices: Vec<String> },
    /// An ordered list of items, each its own text input.
    InputList { text: String, items: Vec<String> },
}

/// The mathematical model of a remote [`Question`].
pub enum RemoteModel {
    Input { text: Seq<char> },
    ChoiceList { text: Seq<char>, multiple: bool, choices: Seq<Seq<char>> },
    ChoiceTable { text: Seq<char>, rows: Seq<Seq<char>>, columns: Seq<Seq<char>> },
    RatingScale { text: Seq<char> },
    Ranking { text: Seq<char>, choices: Seq<Seq<char>> },
    InputList { text: Seq<char>, items: Seq<Seq<char>> },
}

impl RemoteModel {
    /// The prompt text of the record, whatever its shape.
    pub open spec fn spec_text(self) -> Seq<char> {
        match self {
            RemoteModel::Input { text } => text,
            RemoteModel::ChoiceList { text, .. } => text,
            RemoteModel::ChoiceTable { text, .. } => text,
            RemoteModel::RatingScale { text } => text,
            RemoteModel::Ranking { text, .. } => text,
            RemoteModel::InputList { text, .. } => text,
        }
    }

    /// Whether the record is answered by free-form text.
    pub open spec fn spec_is_free_form(self) -> bool {
        self is Input
    }

    /// Whether the record asks the respondent to pick exactly one option.
    pub open spec fn spec_is_select_one(self) -> bool {
        self matches RemoteModel::ChoiceList { multiple, .. } && !multiple
    }

    /// Whether the record asks the respondent to pick any subset.
    pub open spec fn spec_is_select_many(self) -> bool {
        self matches RemoteModel::ChoiceList { multiple, .. } && multiple
    }
}

impl View for Question {
    type V = RemoteModel;

    open spec fn view(&self) -> RemoteModel {
        match self {
            Question::Input { text } => RemoteModel::Input { text: text@ },
            Question::ChoiceList { text, multiple, choices } => RemoteModel::ChoiceList {
                text: text@,
                multiple: *multiple,
                choices: choices.deep_view(),
            },
            Question::ChoiceTable { text, rows, columns } => RemoteModel::ChoiceTable {
                text: text@,
                rows: rows.deep_view(),
                columns: columns.deep_view(),
            },
            Question::RatingScale { text } => RemoteModel::RatingScale { text: text@ },
            Question::Ranking { text, choices } => RemoteModel::Ranking {
                text: text@,
                choices: choices.deep_view(),
            },
            Question::InputList { text, items } => RemoteModel::InputList {
                text: text@,
                items: items.deep_view(),
            },
        }
    }
}

impl DeepView for Question {
    type V = RemoteModel;

    open spec fn deep_view(&self) -> RemoteModel {
        self.view()
    }
}

impl Question {
    /// The prompt text of the record.
    pub fn text(&self) -> (r: &String)
        ensures
            r@ == self@.spec_text(),
    {
        match self {
            Question::Input { text } => text,
            Question::ChoiceList { text, .. } => text,
            Question::ChoiceTable { text, .. } => text,
            Question::RatingScale { text } => text,
            Question::Ranking { text, .. } => text,
            Question::InputList { text, .. } => text,
        }
    }

    /// Whether the record is answered by free-form text.
    pub fn is_free_form(&self) -> (r: bool)
        ensures
            r == self@.spec_is_free_form(),
    {
        matches!(self, Question::Input { .. })
    }

    /// Whether the record asks the respondent to pick exactly one option.
    pub fn is_select_one(&self) -> (r: bool)
        ensures
            r == self@.spec_is_select_one(),
    {
        match self {
            Question::ChoiceList { multiple, .. } => !*multiple,
            _ => false,
        }
    }

    /// Whether the record asks the respondent to pick any subset.
    pub fn is_select_many(&self) -> (r: bool)
        ensures
            r == self@.spec_is_select_many(),
    {
        match self {
            Question::ChoiceList { multiple, .. } => *multiple,
            _ => false,
        }
    }
}

} // verus!
