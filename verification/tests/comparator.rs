//! The equivalence comparator, the sequence-level check, and the
//! remaining public surface.
use std::path::PathBuf;

use survey_tools::api;
use survey_tools::check_questions;
use survey_tools::cli::Cli;
use survey_tools::markdown::Answers;
use survey_tools::markdown::Question;
use survey_tools::mismatched_answers;
use survey_tools::render::question_of_remote;
use survey_tools::render::render_questions;
use survey_tools::AnswerDiff;
use survey_tools::Args;
use survey_tools::Comparison;
use survey_tools::QuestionType;
use survey_tools::SharedArgs;
use survey_tools::VerifierCmd;

fn s(x: &str) -> String {
    x.to_string()
}

fn v(xs: &[&str]) -> Vec<String> {
    xs.iter().map(|x| x.to_string()).collect()
}

#[test]
fn compare_equal_every_kind() {
    let pairs = vec![
        (
            Question { text: s("a"), answers: Answers::FreeForm },
            api::Question::Input { text: s("a") },
        ),
        (
            Question { text: s("b"), answers: Answers::RatingScale },
            api::Question::RatingScale { text: s("b") },
        ),
        (
            Question { text: s("c"), answers: Answers::SelectOne(v(&["x", "y"])) },
            api::Question::ChoiceList { text: s("c"), multiple: false, choices: v(&["x", "y"]) },
        ),
        (
            Question { text: s("d"), answers: Answers::SelectMany(v(&["x"])) },
            api::Question::ChoiceList { text: s("d"), multiple: true, choices: v(&["x"]) },
        ),
        (
            Question { text: s("e"), answers: Answers::Ranking(v(&["x", "y"])) },
            api::Question::Ranking { text: s("e"), choices: v(&["x", "y"]) },
        ),
        (
            Question { text: s("f"), answers: Answers::InputList(v(&["x"])) },
            api::Question::InputList { text: s("f"), items: v(&["x"]) },
        ),
        (
            Question {
                text: s("g"),
                answers: Answers::Matrix { rows: v(&["r"]), columns: v(&["c"]) },
            },
            api::Question::ChoiceTable { text: s("g"), rows: v(&["r"]), columns: v(&["c"]) },
        ),
    ];
    for (authored, remote) in &pairs {
        assert_eq!(authored.compare(remote), Comparison::Equal);
    }
}

#[test]
fn compare_titles_differ_short_circuits() {
    let authored = Question { text: s("A"), answers: Answers::FreeForm };
    let remote = api::Question::RatingScale { text: s("B") };
    assert_eq!(
        authored.compare(&remote),
        Comparison::TitlesDiffer { authored_text: s("A"), remote_text: s("B") }
    );
}

#[test]
fn compare_kinds_differ() {
    let authored = Question { text: s("Q"), answers: Answers::FreeForm };
    let remote = api::Question::RatingScale { text: s("Q") };
    assert_eq!(
        authored.compare(&remote),
        Comparison::KindsDiffer {
            question: s("Q"),
            authored_kind: QuestionType::FreeForm,
            remote_kind: QuestionType::RatingScale,
        }
    );
}

#[test]
fn compare_select_flag_mismatch_is_kinds_differ() {
    let authored = Question { text: s("Q"), answers: Answers::SelectOne(v(&["x"])) };
    let remote = api::Question::ChoiceList { text: s("Q"), multiple: true, choices: v(&["x"]) };
    assert_eq!(
        authored.compare(&remote),
        Comparison::KindsDiffer {
            question: s("Q"),
            authored_kind: QuestionType::SelectOne,
            remote_kind: QuestionType::SelectMany,
        }
    );
}

#[test]
fn compare_order_sensitivity() {
    let authored = Question { text: s("Q"), answers: Answers::SelectOne(v(&["A", "B"])) };
    let remote = api::Question::ChoiceList { text: s("Q"), multiple: false, choices: v(&["B", "A"]) };
    let diffs = vec![
        AnswerDiff { remote: Some(s("B")), authored: Some(s("A")) },
        AnswerDiff { remote: Some(s("A")), authored: Some(s("B")) },
    ];
    assert_eq!(authored.compare(&remote), Comparison::AnswersDiffer(diffs));
}

#[test]
fn compare_matrix_short_circuit() {
    let authored = Question {
        text: s("Q"),
        answers: Answers::Matrix { rows: v(&["r1"]), columns: v(&["c1"]) },
    };
    let remote = api::Question::ChoiceTable {
        text: s("Q"),
        rows: v(&["other row"]),
        columns: v(&["other column"]),
    };
    let row_diff = vec![AnswerDiff { remote: Some(s("other row")), authored: Some(s("r1")) }];
    assert_eq!(authored.compare(&remote), Comparison::MatrixAnswersDiffer(row_diff));
}

#[test]
fn compare_matrix_column_mismatch_reported_when_rows_match() {
    let authored = Question {
        text: s("Q"),
        answers: Answers::Matrix { rows: v(&["r1"]), columns: v(&["c1"]) },
    };
    let remote = api::Question::ChoiceTable {
        text: s("Q"),
        rows: v(&["r1"]),
        columns: v(&["c2"]),
    };
    let column_diff = vec![AnswerDiff { remote: Some(s("c2")), authored: Some(s("c1")) }];
    assert_eq!(authored.compare(&remote), Comparison::MatrixAnswersDiffer(column_diff));
}

#[test]
fn mismatched_answers_absent_sides() {
    let diffs = mismatched_answers(&v(&["a", "b", "c"]), &v(&["a"]));
    assert_eq!(
        diffs,
        vec![
            AnswerDiff { remote: Some(s("b")), authored: None },
            AnswerDiff { remote: Some(s("c")), authored: None },
        ]
    );
    let diffs = mismatched_answers(&v(&["a"]), &v(&["a", "b"]));
    assert_eq!(diffs, vec![AnswerDiff { remote: None, authored: Some(s("b")) }]);
}

#[test]
fn missing_question_detection() {
    let authored = vec![
        Question { text: s("one"), answers: Answers::FreeForm },
        Question { text: s("two"), answers: Answers::RatingScale },
        Question { text: s("three"), answers: Answers::SelectOne(v(&["x"])) },
    ];
    let remote = vec![
        api::Question::Input { text: s("one") },
        api::Question::RatingScale { text: s("two") },
    ];
    let report = check_questions(&authored, &remote);
    assert_eq!(report.comparisons, vec![Comparison::Equal, Comparison::Equal]);
    assert_eq!(report.missing_online, vec![s("three")]);
    assert_eq!(report.missing_in_markdown, Vec::<String>::new());
}

#[test]
fn check_questions_reports_remote_extras() {
    let authored = vec![Question { text: s("one"), answers: Answers::FreeForm }];
    let remote = vec![
        api::Question::Input { text: s("one") },
        api::Question::Input { text: s("extra") },
    ];
    let report = check_questions(&authored, &remote);
    assert_eq!(report.comparisons.len(), 1);
    assert_eq!(report.missing_in_markdown, vec![s("extra")]);
}

#[test]
fn remote_predicates_follow_choice_flag() {
    let single = api::Question::ChoiceList { text: s("q"), multiple: false, choices: v(&["x"]) };
    let multi = api::Question::ChoiceList { text: s("q"), multiple: true, choices: v(&["x"]) };
    assert!(single.is_select_one() && !single.is_select_many());
    assert!(multi.is_select_many() && !multi.is_select_one());
    assert!(!single.is_free_form());
    assert_eq!(QuestionType::from_remote(&single), QuestionType::SelectOne);
    assert_eq!(QuestionType::from_remote(&multi), QuestionType::SelectMany);
}

#[test]
fn render_remote_questions() {
    let remote = vec![
        api::Question::ChoiceList { text: s("Pick one"), multiple: false, choices: v(&["a", "b"]) },
        api::Question::Input { text: s("Why?") },
    ];
    assert_eq!(render_questions(&remote), "Pick one\na\nb\n\nWhy?+\n\n\n");
}

#[test]
fn question_of_remote_maps_choice_flag() {
    let single = api::Question::ChoiceList { text: s("q"), multiple: false, choices: v(&["x"]) };
    assert_eq!(
        question_of_remote(&single),
        Question { text: s("q"), answers: Answers::SelectOne(v(&["x"])) }
    );
    let multi = api::Question::ChoiceList { text: s("q"), multiple: true, choices: v(&["x"]) };
    assert_eq!(
        question_of_remote(&multi),
        Question { text: s("q"), answers: Answers::SelectMany(v(&["x"])) }
    );
}

#[test]
fn cli_accessors() {
    let cli = Cli { source: PathBuf::from("questions.md"), dist: Some(PathBuf::from("out")) };
    assert_eq!(cli.source(), &PathBuf::from("questions.md"));
    assert_eq!(cli.dist(), Some(&PathBuf::from("out")));
    let cli = Cli { source: PathBuf::from("questions.md"), dist: None };
    assert_eq!(cli.dist(), None);
}

#[test]
fn verifier_cmd_shared() {
    let shared = SharedArgs { survey_id: 7, path: s("2024") };
    let check = VerifierCmd::Check { shared: shared.clone() };
    let download = VerifierCmd::Download { shared: shared.clone() };
    assert_eq!(check.shared(), &shared);
    assert_eq!(download.shared(), &shared);
    let args = Args { cmd: check };
    assert_eq!(args.cmd.shared().survey_id, 7);
}
