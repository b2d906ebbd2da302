//! Tooling for keeping a survey authored in a structured-text notation in
//! sync with the copy hosted on a survey platform: a shared question model,
//! a parser for the authored notation, an encoder for the platform's
//! plain-text import format, and a comparator that reports every structural
//! or textual discrepancy between an authored question and its remote
//! counterpart.
use vstd::prelude::*;

pub mod api;
pub mod cli;
pub mod markdown;
pub mod render;
pub mod txt_writer;

use crate::markdown::AnswersModel;
use crate::markdown::QuestionModel;

verus! {

/// One mismatched answer pair found by the positional list diff: the
/// remote-side label and the authored-side label.  A side is `None` when
/// the corresponding list was already exhausted at that position (an extra
/// or missing answer).
#[derive(Debug, Clone, PartialEq, Eq)]
pub struct AnswerDiff {
    /// The label the platform holds at this position, if any.
    pub remote: Option<String>,
    /// The label the authored file holds at this position, if any.
    pub authored: Option<String>,
}

/// The mathematical model of an [`AnswerDiff`].
pub struct AnswerDiffModel {
    pub remote: Option<Seq<char>>,
    pub authored: Option<Seq<char>>,
}

impl View for AnswerDiff {
    type V = AnswerDiffModel;

    open spec fn view(&self) -> AnswerDiffModel {
        AnswerDiffModel { remote: self.remote.deep_view(), authored: self.authored.deep_view() }
    }
}

impl DeepView for AnswerDiff {
    type V = AnswerDiffModel;

    open spec fn deep_view(&self) -> AnswerDiffModel {
        self.view()
    }
}

/// The structural kind of a question, used to classify both sides of a
/// pair when their kinds cannot be compared any further.
#[derive(Debug, Clone, Copy, PartialEq, Eq, Structural)]
pub enum QuestionType {
    FreeForm,
    SelectOne,
    SelectMany,
    Matrix,
    RatingScale,
    Ranking,
    InputList,
}

/// The classified outcome of comparing one authored question against its
/// remote counterpart.  A mismatch is a reportable outcome, never an error.
#[derive(Debug, Clone, PartialEq, Eq)]
pub enum Comparison {
    /// The prompts differ; no further checks were made.
    TitlesDiffer { authored_text: String, remote_text: String },
    /// The kinds are incompatible; both sides classified structurally.
    KindsDiffer { question: String, authored_kind: QuestionType, remote_kind: QuestionType },
    /// Same kind, but the option lists disagree at the recorded positions.
    AnswersDiffer(Vec<AnswerDiff>),
    /// A matrix row or column list disagrees at the recorded positions.
    MatrixAnswersDiffer(Vec<AnswerDiff>),
    /// No discrepancy.
    Equal,
}

/// The mathematical model of a [`Comparison`].
pub enum ComparisonModel {
    TitlesDiffer { authored_text: Seq<char>, remote_text: Seq<char> },
    KindsDiffer { question: Seq<char>, authored_kind: QuestionType, remote_kind: QuestionType },
    AnswersDiffer(Seq<AnswerDiffModel>),
    MatrixAnswersDiffer(Seq<AnswerDiffModel>),
    Equal,
}

impl View for Comparison {
    type V = ComparisonModel;

    open spec fn view(&self) -> ComparisonModel {
        match self {
            Comparison::TitlesDiffer { authored_text, remote_text } => {
                ComparisonModel::TitlesDiffer {
                    authored_text: authored_text@,
                    remote_text: remote_text@,
                }
            },
            Comparison::KindsDiffer { question, authored_kind, remote_kind } => {
                ComparisonModel::KindsDiffer {
                    question: question@,
                    authored_kind: *authored_kind,
                    remote_kind: *remote_kind,
                }
            },
            Comparison::AnswersDiffer(diffs) => ComparisonModel::AnswersDiffer(diffs.deep_view()),
            Comparison::MatrixAnswersDiffer(diffs) => ComparisonModel::MatrixAnswersDiffer(
                diffs.deep_view(),
            ),
            Comparison::Equal => ComparisonModel::Equal,
        }
    }
}

impl DeepView for Comparison {
    type V = ComparisonModel;

    open spec fn deep_view(&self) -> ComparisonModel {
        self.view()
    }
}

/// The positional diff of two ordered label lists: at each position where
/// both lists still have an element and the elements differ, or where one
/// list is exhausted while the other is not, one [`AnswerDiffModel`] is
/// recorded.  Empty exactly when the lists are equal; deliberately
/// order-sensitive.
pub open spec fn spec_list_diff(remote: Seq<Seq<char>>, authored: Seq<Seq<char>>) -> Seq<
    AnswerDiffModel,
>
    decreases remote.len() + authored.len(),
{
    if remote.len() == 0 && authored.len() == 0 {
        Seq::empty()
    } else if remote.len() == 0 {
        seq![AnswerDiffModel { remote: None, authored: Some(authored[0]) }] + spec_list_diff(
            remote,
            authored.drop_first(),
        )
    } else if authored.len() == 0 {
        seq![AnswerDiffModel { remote: Some(remote[0]), authored: None }] + spec_list_diff(
            remote.drop_first(),
            authored,
        )
    } else if remote[0] == authored[0] {
        spec_list_diff(remote.drop_first(), authored.drop_first())
    } else {
        seq![AnswerDiffModel { remote: Some(remote[0]), authored: Some(authored[0]) }]
            + spec_list_diff(remote.drop_first(), authored.drop_first())
    }
}

/// The structural kind of an authored answer block.
pub open spec fn spec_kind_of_answers(answers: AnswersModel) -> QuestionType {
    match answers {
        AnswersModel::FreeForm => QuestionType::FreeForm,
        AnswersModel::RatingScale => QuestionType::RatingScale,
        AnswersModel::SelectOne(_) => QuestionType::SelectOne,
        AnswersModel::SelectMany(_) => QuestionType::SelectMany,
        AnswersModel::Ranking(_) => QuestionType::Ranking,
        AnswersModel::InputList(_) => QuestionType::InputList,
        AnswersModel::Matrix { .. } => QuestionType::Matrix,
    }
}

/// The structural kind of a remote record, derived from the capability
/// predicates: a generic choice list flagged single-select classifies as
/// `SelectOne` even though its concrete representation differs from the
/// authored union.
pub open spec fn spec_kind_of_remote(r: api::RemoteModel) -> QuestionType {
    if r.spec_is_select_one() {
        QuestionType::SelectOne
    } else if r.spec_is_select_many() {
        QuestionType::SelectMany
    } else if r.spec_is_free_form() {
        QuestionType::FreeForm
    } else {
        match r {
            api::RemoteModel::RatingScale { .. } => QuestionType::RatingScale,
            api::RemoteModel::Ranking { .. } => QuestionType::Ranking,
            api::RemoteModel::InputList { .. } => QuestionType::InputList,
            _ => QuestionType::Matrix,
        }
    }
}

/// `Equal` when the positional diff of the two lists is empty, otherwise
/// `AnswersDiffer` carrying the diff.
pub open spec fn spec_answers_outcome(remote: Seq<Seq<char>>, authored: Seq<Seq<char>>) -> ComparisonModel {
    if spec_list_diff(remote, authored).len() > 0 {
        ComparisonModel::AnswersDiffer(spec_list_diff(remote, authored))
    } else {
        ComparisonModel::Equal
    }
}

/// The classified outcome of comparing an authored question against a
/// remote record: a total function over every pairing.
///
/// A title mismatch short-circuits all further checks.  A matrix row
/// mismatch short-circuits the column check.  Incompatible kind pairings
/// fall through to `KindsDiffer`.
pub open spec fn spec_compare(a: QuestionModel, r: api::RemoteModel) -> ComparisonModel {
    if a.text != r.spec_text() {
        ComparisonModel::TitlesDiffer { authored_text: a.text, remote_text: r.spec_text() }
    } else {
        match (a.answers, r) {
            (AnswersModel::FreeForm, _) => {
                if r.spec_is_free_form() {
                    ComparisonModel::Equal
                } else {
                    ComparisonModel::KindsDiffer {
                        question: a.text,
                        authored_kind: QuestionType::FreeForm,
                        remote_kind: spec_kind_of_remote(r),
                    }
                }
            },
            (
                AnswersModel::SelectOne(options),
                api::RemoteModel::ChoiceList { multiple: false, choices, .. },
            ) => spec_answers_outcome(choices, options),
            (
                AnswersModel::SelectMany(options),
                api::RemoteModel::ChoiceList { multiple: true, choices, .. },
            ) => spec_answers_outcome(choices, options),
            (
                AnswersModel::Matrix { rows, columns },
                api::RemoteModel::ChoiceTable { rows: remote_rows, columns: remote_columns, .. },
            ) => {
                if spec_list_diff(remote_rows, rows).len() > 0 {
                    ComparisonModel::MatrixAnswersDiffer(spec_list_diff(remote_rows, rows))
                } else if spec_list_diff(remote_columns, columns).len() > 0 {
                    ComparisonModel::MatrixAnswersDiffer(spec_list_diff(remote_columns, columns))
                } else {
                    ComparisonModel::Equal
                }
            },
            (AnswersModel::RatingScale, api::RemoteModel::RatingScale { .. }) => {
                ComparisonModel::Equal
            },
            (AnswersModel::Ranking(options), api::RemoteModel::Ranking { choices, .. }) => {
                spec_answers_outcome(choices, options)
            },
            (AnswersModel::InputList(items), api::RemoteModel::InputList { items: remote_items, .. }) => {
                spec_answers_outcome(remote_items, items)
            },
            _ => ComparisonModel::KindsDiffer {
                question: a.text,
                authored_kind: spec_kind_of_answers(a.answers),
                remote_kind: spec_kind_of_remote(r),
            },
        }
    }
}

impl QuestionType {
    /// Classifies an authored question by its answer block.
    pub fn from_authored(q: &markdown::Question) -> (r: QuestionType)
        ensures
            r == spec_kind_of_answers(q@.answers),
    {
        match &q.answers {
            markdown::Answers::FreeForm => QuestionType::FreeForm,
            markdown::Answers::RatingScale => QuestionType::RatingScale,
            markdown::Answers::SelectOne(_) => QuestionType::SelectOne,
            markdown::Answers::SelectMany(_) => QuestionType::SelectMany,
            markdown::Answers::Ranking(_) => QuestionType::Ranking,
            markdown::Answers::InputList(_) => QuestionType::InputList,
            markdown::Answers::Matrix { .. } => QuestionType::Matrix,
        }
    }

    /// Classifies a remote record through the capability predicates.
    pub fn from_remote(q: &api::Question) -> (r: QuestionType)
        ensures
            r == spec_kind_of_remote(q@),
    {
        if q.is_select_one() {
            return QuestionType::SelectOne;
        }
        if q.is_select_many() {
            return QuestionType::SelectMany;
        }
        if q.is_free_form() {
            return QuestionType::FreeForm;
        }
        match q {
            api::Question::RatingScale { .. } => QuestionType::RatingScale,
            api::Question::Ranking { .. } => QuestionType::Ranking,
            api::Question::InputList { .. } => QuestionType::InputList,
            _ => QuestionType::Matrix,
        }
    }
}

/// Walks two ordered label lists by position and records every mismatch:
/// unequal elements, or an element on one side with nothing on the other.
/// Returns the empty vector exactly when the lists are equal.
pub fn mismatched_answers(remote: &Vec<String>, authored: &Vec<String>) -> (diffs: Vec<AnswerDiff>)
    ensures
        diffs.deep_view() == spec_list_diff(remote.deep_view(), authored.deep_view()),
{
    let ghost r = remote.deep_view();
    let ghost a = authored.deep_view();
    let mut diffs: Vec<AnswerDiff> = Vec::new();
    let mut i: usize = 0;
    proof {
        assert(r.skip(0) =~= r);
        assert(a.skip(0) =~= a);
        assert(diffs.deep_view() =~= Seq::<AnswerDiffModel>::empty());
        assert(spec_list_diff(r, a) =~= diffs.deep_view() + spec_list_diff(r.skip(0), a.skip(0)));
    }
    while i < remote.len() || i < authored.len()
        invariant
            r == remote.deep_view(),
            a == authored.deep_view(),
            r.len() == remote.len(),
            a.len() == authored.len(),
            i <= r.len() || i <= a.len(),
            spec_list_diff(r, a) == diffs.deep_view() + spec_list_diff(
                r.skip(if i < r.len() { i as int } else { r.len() as int }),
                a.skip(if i < a.len() { i as int } else { a.len() as int }),
            ),
        decreases (if i < remote.len() { remote.len() - i } else { 0 }) + (if i < authored.len() {
            authored.len() - i
        } else {
            0
        }),
    {
        let ghost ri = if i < r.len() { i as int } else { r.len() as int };
        let ghost ai = if i < a.len() { i as int } else { a.len() as int };
        let ghost old_diffs = diffs.deep_view();
        if i < remote.len() && i < authored.len() {
            if !(remote[i] == authored[i]) {
                diffs.push(
                    AnswerDiff {
                        remote: Some(remote[i].clone()),
                        authored: Some(authored[i].clone()),
                    },
                );
            }
            proof {
                assert(r.skip(ri)[0] == r[i as int]);
                assert(a.skip(ai)[0] == a[i as int]);
                assert(r.skip(ri).drop_first() =~= r.skip(i + 1));
                assert(a.skip(ai).drop_first() =~= a.skip(i + 1));
            }
        } else if i < remote.len() {
            diffs.push(AnswerDiff { remote: Some(remote[i].clone()), authored: None });
            proof {
                assert(a.skip(ai) =~= Seq::<Seq<char>>::empty());
                assert(r.skip(ri)[0] == r[i as int]);
                assert(r.skip(ri).drop_first() =~= r.skip(i + 1));
            }
        } else {
            diffs.push(AnswerDiff { remote: None, authored: Some(authored[i].clone()) });
            proof {
                assert(r.skip(ri) =~= Seq::<Seq<char>>::empty());
                assert(a.skip(ai)[0] == a[i as int]);
                assert(a.skip(ai).drop_first() =~= a.skip(i + 1));
            }
        }
        proof {
            let nri = if i + 1 < r.len() { i + 1 } else { r.len() as int };
            let nai = if i + 1 < a.len() { i + 1 } else { a.len() as int };
            assert(spec_list_diff(r, a) =~= diffs.deep_view() + spec_list_diff(
                r.skip(nri),
                a.skip(nai),
            ));
        }
        i = i + 1;
    }
    proof {
        assert(r.skip(r.len() as int) =~= Seq::<Seq<char>>::empty());
        assert(a.skip(a.len() as int) =~= Seq::<Seq<char>>::empty());
        assert(diffs.deep_view() =~= diffs.deep_view() + Seq::<AnswerDiffModel>::empty());
    }
    diffs
}

impl markdown::Question {
    /// Compares this authored question against its remote counterpart and
    /// classifies every discrepancy.  Total: every pairing yields a
    /// [`Comparison`], never an error.
    pub fn compare(&self, other: &api::Question) -> (r: Comparison)
        ensures
            r@ == spec_compare(self@, other@),
    {
        if !(self.text == *other.text()) {
            return Comparison::TitlesDiffer {
                authored_text: self.text.clone(),
                remote_text: other.text().clone(),
            };
        }
        match (&self.answers, other) {
            (markdown::Answers::FreeForm, _) => {
                if other.is_free_form() {
                    Comparison::Equal
                } else {
                    Comparison::KindsDiffer {
                        question: self.text.clone(),
                        authored_kind: QuestionType::FreeForm,
                        remote_kind: QuestionType::from_remote(other),
                    }
                }
            },
            (
                markdown::Answers::SelectOne(options),
                api::Question::ChoiceList { multiple: false, choices, .. },
            ) => {
                let mismatched = mismatched_answers(choices, options);
                if mismatched.len() > 0 {
                    Comparison::AnswersDiffer(mismatched)
                } else {
                    Comparison::Equal
                }
            },
            (
                markdown::Answers::SelectMany(options),
                api::Question::ChoiceList { multiple: true, choices, .. },
            ) => {
                let mismatched = mismatched_answers(choices, options);
                if mismatched.len() > 0 {
                    Comparison::AnswersDiffer(mismatched)
                } else {
                    Comparison::Equal
                }
            },
            (
                markdown::Answers::Matrix { rows, columns },
                api::Question::ChoiceTable { rows: remote_rows, columns: remote_columns, .. },
            ) => {
                let mismatched_rows = mismatched_answers(remote_rows, rows);
                if mismatched_rows.len() > 0 {
                    return Comparison::MatrixAnswersDiffer(mismatched_rows);
                }
                let mismatched_columns = mismatched_answers(remote_columns, columns);
                if mismatched_columns.len() > 0 {
                    return Comparison::MatrixAnswersDiffer(mismatched_columns);
                }
                Comparison::Equal
            },
            (markdown::Answers::RatingScale, api::Question::RatingScale { .. }) => {
                Comparison::Equal
            },
            (
                markdown::Answers::Ranking(options),
                api::Question::Ranking { choices, .. },
            ) => {
                let mismatched = mismatched_answers(choices, options);
                if mismatched.len() > 0 {
                    Comparison::AnswersDiffer(mismatched)
                } else {
                    Comparison::Equal
                }
            },
            (
                markdown::Answers::InputList(items),
                api::Question::InputList { items: remote_items, .. },
            ) => {
                let mismatched = mismatched_answers(remote_items, items);
                if mismatched.len() > 0 {
                    Comparison::AnswersDiffer(mismatched)
                } else {
                    Comparison::Equal
                }
            },
            _ => Comparison::KindsDiffer {
                question: self.text.clone(),
                authored_kind: QuestionType::from_authored(self),
                remote_kind: QuestionType::from_remote(other),
            },
        }
    }
}

/// Pushing an element onto a vector pushes its model onto the vector's
/// deep view.
pub proof fn lemma_deep_view_push<T: DeepView>(pre: Vec<T>, post: Vec<T>, x: T)
    requires
        post@ == pre@.push(x),
    ensures
        post.deep_view() =~= pre.deep_view().push(x.deep_view()),
{
    assert forall|m: int| 0 <= m < post.deep_view().len() implies post.deep_view()[m]
        == pre.deep_view().push(x.deep_view())[m] by {
        if m < pre@.len() {
            assert(post@[m] == pre@[m]);
        } else {
            assert(post@[m] == x);
        }
    }
}

/// The per-position comparisons of two question sequences, up to the
/// shorter length.
pub open spec fn spec_pairwise_comparisons(
    authored: Seq<QuestionModel>,
    remote: Seq<api::RemoteModel>,
) -> Seq<ComparisonModel> {
    Seq::new(
        if authored.len() < remote.len() {
            authored.len()
        } else {
            remote.len()
        },
        |i: int| spec_compare(authored[i], remote[i]),
    )
}

/// The prompts of the authored questions that have no remote counterpart:
/// the authored tail beyond the remote length.
pub open spec fn spec_missing_online(
    authored: Seq<QuestionModel>,
    remote: Seq<api::RemoteModel>,
) -> Seq<Seq<char>> {
    Seq::new(
        if authored.len() > remote.len() {
            (authored.len() - remote.len()) as nat
        } else {
            0
        },
        |i: int| authored[remote.len() + i].text,
    )
}

/// The prompts of the remote questions that have no authored counterpart:
/// the remote tail beyond the authored length.
pub open spec fn spec_missing_in_markdown(
    authored: Seq<QuestionModel>,
    remote: Seq<api::RemoteModel>,
) -> Seq<Seq<char>> {
    Seq::new(
        if remote.len() > authored.len() {
            (remote.len() - authored.len()) as nat
        } else {
            0
        },
        |i: int| remote[authored.len() + i].spec_text(),
    )
}

/// The outcome of comparing a whole authored question sequence against the
/// remote sequence: one comparison per shared position, and the prompts of
/// the unmatched trailing questions on each side.
#[derive(Debug, Clone, PartialEq, Eq)]
pub struct CheckReport {
    /// The comparison at each position shared by both sequences.
    pub comparisons: Vec<Comparison>,
    /// Prompts of authored questions missing from the remote survey.
    pub missing_online: Vec<String>,
    /// Prompts of remote questions missing from the authored file.
    pub missing_in_markdown: Vec<String>,
}

/// Pairs the authored and remote question sequences positionally up to the
/// shorter length, comparing each pair, and reports the unmatched trailing
/// questions of the longer side by their prompt text.
pub fn check_questions(
    markdown_questions: &Vec<markdown::Question>,
    sh_questions: &Vec<api::Question>,
) -> (report: CheckReport)
    ensures
        report.comparisons.deep_view() == spec_pairwise_comparisons(
            markdown_questions.deep_view(),
            sh_questions.deep_view(),
        ),
        report.missing_online.deep_view() == spec_missing_online(
            markdown_questions.deep_view(),
            sh_questions.deep_view(),
        ),
        report.missing_in_markdown.deep_view() == spec_missing_in_markdown(
            markdown_questions.deep_view(),
            sh_questions.deep_view(),
        ),
{
    let ghost a = markdown_questions.deep_view();
    let ghost r = sh_questions.deep_view();
    let n = if markdown_questions.len() < sh_questions.len() {
        markdown_questions.len()
    } else {
        sh_questions.len()
    };
    let mut comparisons: Vec<Comparison> = Vec::new();
    let mut i: usize = 0;
    while i < n
        invariant
            a == markdown_questions.deep_view(),
            r == sh_questions.deep_view(),
            a.len() == markdown_questions.len(),
            r.len() == sh_questions.len(),
            n == if a.len() < r.len() { a.len() } else { r.len() },
            i <= n,
            comparisons.deep_view() =~= spec_pairwise_comparisons(a, r).take(i as int),
        decreases n - i,
    {
        let c = markdown_questions[i].compare(&sh_questions[i]);
        let ghost pre = comparisons;
        comparisons.push(c);
        proof {
            lemma_deep_view_push(pre, comparisons, c);
            assert(a[i as int] == markdown_questions@[i as int].deep_view());
            assert(r[i as int] == sh_questions@[i as int].deep_view());
            assert(c@ == spec_pairwise_comparisons(a, r)[i as int]);
            assert(comparisons.deep_view() =~= spec_pairwise_comparisons(a, r).take(i + 1));
        }
        i = i + 1;
    }
    let mut missing_online: Vec<String> = Vec::new();
    let mut j: usize = sh_questions.len();
    while j < markdown_questions.len()
        invariant
            a == markdown_questions.deep_view(),
            r == sh_questions.deep_view(),
            a.len() == markdown_questions.len(),
            r.len() == sh_questions.len(),
            r.len() <= j <= a.len() || (j == r.len() && a.len() <= r.len()),
            missing_online.deep_view() =~= spec_missing_online(a, r).take(
                if j > r.len() { j - r.len() } else { 0 },
            ),
        decreases markdown_questions.len() - j,
    {
        let t = markdown_questions[j].text.clone();
        let ghost pre = missing_online;
        missing_online.push(t);
        proof {
            lemma_deep_view_push(pre, missing_online, t);
            assert(a[j as int] == markdown_questions@[j as int].deep_view());
            assert(a[j as int].text == spec_missing_online(a, r)[j - r.len()]);
            assert(missing_online.deep_view() =~= spec_missing_online(a, r).take(
                j + 1 - r.len(),
            ));
        }
        j = j + 1;
    }
    let mut missing_in_markdown: Vec<String> = Vec::new();
    let mut k: usize = markdown_questions.len();
    while k < sh_questions.len()
        invariant
            a == markdown_questions.deep_view(),
            r == sh_questions.deep_view(),
            a.len() == markdown_questions.len(),
            r.len() == sh_questions.len(),
            a.len() <= k <= r.len() || (k == a.len() && r.len() <= a.len()),
            missing_in_markdown.deep_view() =~= spec_missing_in_markdown(a, r).take(
                if k > a.len() { k - a.len() } else { 0 },
            ),
        decreases sh_questions.len() - k,
    {
        let t = sh_questions[k].text().clone();
        let ghost pre = missing_in_markdown;
        missing_in_markdown.push(t);
        proof {
            lemma_deep_view_push(pre, missing_in_markdown, t);
            assert(r[k as int] == sh_questions@[k as int].deep_view());
            assert(r[k as int].spec_text() == spec_missing_in_markdown(a, r)[k - a.len()]);
            assert(missing_in_markdown.deep_view() =~= spec_missing_in_markdown(a, r).take(
                k + 1 - a.len(),
            ));
        }
        k = k + 1;
    }
    proof {
        assert(comparisons.deep_view() =~= spec_pairwise_comparisons(a, r));
        assert(missing_online.deep_view() =~= spec_missing_online(a, r));
        assert(missing_in_markdown.deep_view() =~= spec_missing_in_markdown(a, r));
    }
    CheckReport { comparisons, missing_online, missing_in_markdown }
}

/// All question data fetched for one survey: the main-language questions
/// and those of each secondary language, keyed by language code.
#[derive(Debug, Clone, PartialEq, Eq)]
pub struct SurveyData {
    pub main: Vec<api::Question>,
    pub secondary_languages: Vec<(String, Vec<api::Question>)>,
}

/// Arguments shared by every verifier command.
#[derive(Debug, Clone, PartialEq, Eq)]
pub struct SharedArgs {
    /// ID of the survey on the platform.
    pub survey_id: usize,
    /// Survey path: an authored file, or a directory holding one per
    /// language.
    pub path: String,
}

/// The verifier's command line: one command to run.
#[derive(Debug, Clone, PartialEq, Eq)]
pub struct Args {
    pub cmd: VerifierCmd,
}

/// What the verifier is asked to do: diff the authored files against the
/// platform's content, or download the platform's content over them.
#[derive(Debug, Clone, PartialEq, Eq)]
pub enum VerifierCmd {
    Check { shared: SharedArgs },
    Download { shared: SharedArgs },
}

impl VerifierCmd {
    /// The shared arguments the command carries.
    pub open spec fn spec_shared(&self) -> SharedArgs {
        match self {
            VerifierCmd::Check { shared } => *shared,
            VerifierCmd::Download { shared } => *shared,
        }
    }

    /// The shared arguments the command carries.
    pub fn shared(&self) -> (r: &SharedArgs)
        ensures
            *r == self.spec_shared(),
    {
        match self {
            VerifierCmd::Check { shared } => shared,
            VerifierCmd::Download { shared } => shared,
        }
    }
}

/// The positional diff of a list against itself is empty.
pub proof fn lemma_list_diff_self(l: Seq<Seq<char>>)
    ensures
        spec_list_diff(l, l) == Seq::<AnswerDiffModel>::empty(),
    decreases l.len(),
{
    if l.len() > 0 {
        lemma_list_diff_self(l.drop_first());
    }
}

/// The positional diff is empty exactly when the two lists are equal:
/// every discrepancy, including a bare reordering, is reported.
pub proof fn lemma_list_diff_empty_iff(remote: Seq<Seq<char>>, authored: Seq<Seq<char>>)
    ensures
        (spec_list_diff(remote, authored).len() == 0) <==> (remote == authored),
    decreases remote.len() + authored.len(),
{
    if remote.len() == 0 && authored.len() == 0 {
        assert(remote =~= authored);
    } else if remote.len() == 0 || authored.len() == 0 {
    } else if remote[0] == authored[0] {
        lemma_list_diff_empty_iff(remote.drop_first(), authored.drop_first());
        if spec_list_diff(remote, authored).len() == 0 {
            assert(remote =~= seq![remote[0]] + remote.drop_first());
            assert(authored =~= seq![authored[0]] + authored.drop_first());
        } else {
            assert(remote.drop_first() != authored.drop_first());
            if remote == authored {
                assert(remote.drop_first() =~= authored.drop_first());
            }
        }
    } else {
        assert(remote != authored);
    }
}

/// The remote record a faithfully synchronized platform would hold for an
/// authored question: same prompt, same labels, the kind carried over
/// through the platform's own shapes.
pub open spec fn spec_remote_equivalent(q: QuestionModel) -> api::RemoteModel {
    match q.answers {
        AnswersModel::FreeForm => api::RemoteModel::Input { text: q.text },
        AnswersModel::RatingScale => api::RemoteModel::RatingScale { text: q.text },
        AnswersModel::SelectOne(options) => api::RemoteModel::ChoiceList {
            text: q.text,
            multiple: false,
            choices: options,
        },
        AnswersModel::SelectMany(options) => api::RemoteModel::ChoiceList {
            text: q.text,
            multiple: true,
            choices: options,
        },
        AnswersModel::Ranking(options) => api::RemoteModel::Ranking {
            text: q.text,
            choices: options,
        },
        AnswersModel::InputList(items) => api::RemoteModel::InputList {
            text: q.text,
            items,
        },
        AnswersModel::Matrix { rows, columns } => api::RemoteModel::ChoiceTable {
            text: q.text,
            rows,
            columns,
        },
    }
}

/// Comparing any authored question, of every kind, against its faithful
/// remote equivalent yields `Equal`.
pub proof fn lemma_compare_reflexive(q: QuestionModel)
    ensures
        spec_compare(q, spec_remote_equivalent(q)) == ComparisonModel::Equal,
{
    match q.answers {
        AnswersModel::SelectOne(options) => lemma_list_diff_self(options),
        AnswersModel::SelectMany(options) => lemma_list_diff_self(options),
        AnswersModel::Ranking(options) => lemma_list_diff_self(options),
        AnswersModel::InputList(items) => lemma_list_diff_self(items),
        AnswersModel::Matrix { rows, columns } => {
            lemma_list_diff_self(rows);
            lemma_list_diff_self(columns);
        },
        _ => {},
    }
}

/// The comparator is order-sensitive: whenever the two option lists of a
/// single-choice pairing differ at all — in particular when one is a
/// reordering of the other, so the label sets coincide — the outcome is a
/// non-empty `AnswersDiffer`, never `Equal`.
pub proof fn lemma_compare_order_sensitive(
    text: Seq<char>,
    authored: Seq<Seq<char>>,
    remote: Seq<Seq<char>>,
)
    requires
        authored != remote,
    ensures
        spec_compare(
            QuestionModel { text, answers: AnswersModel::SelectOne(authored) },
            api::RemoteModel::ChoiceList { text, multiple: false, choices: remote },
        ) matches ComparisonModel::AnswersDiffer(diffs) && diffs.len() > 0,
{
    lemma_list_diff_empty_iff(remote, authored);
}

/// A matrix row mismatch short-circuits the column check: whenever the row
/// lists differ, the outcome reports exactly the row diff, whatever the
/// column lists hold — even if they mismatch as well.
pub proof fn lemma_matrix_short_circuit(
    text: Seq<char>,
    rows: Seq<Seq<char>>,
    columns: Seq<Seq<char>>,
    remote_rows: Seq<Seq<char>>,
    remote_columns: Seq<Seq<char>>,
)
    requires
        rows != remote_rows,
    ensures
        spec_compare(
            QuestionModel { text, answers: AnswersModel::Matrix { rows, columns } },
            api::RemoteModel::ChoiceTable {
                text,
                rows: remote_rows,
                columns: remote_columns,
            },
        ) == ComparisonModel::MatrixAnswersDiffer(spec_list_diff(remote_rows, rows)),
{
    lemma_list_diff_empty_iff(remote_rows, rows);
}

} // verus!
