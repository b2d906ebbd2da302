//! The authored-notation parser: round trips, accepted forms, and the
//! errors rejected forms produce.
use survey_tools::markdown::parse;
use survey_tools::markdown::Answers;
use survey_tools::markdown::FormatErrorKind;
use survey_tools::markdown::Question;
use survey_tools::txt_writer::write_questions;

fn s(x: &str) -> String {
    x.to_string()
}

fn v(xs: &[&str]) -> Vec<String> {
    xs.iter().map(|x| x.to_string()).collect()
}

#[test]
fn round_trip_all_representable_kinds() {
    let qs = vec![
        Question { text: s("Comments?"), answers: Answers::FreeForm },
        Question { text: s("Rate us"), answers: Answers::RatingScale },
        Question { text: s("Favorite?"), answers: Answers::SelectOne(v(&["A", "B", "Other"])) },
        Question { text: s("Pick some"), answers: Answers::SelectMany(v(&["x", "y"])) },
        Question {
            text: s("Agree?"),
            answers: Answers::Matrix { rows: v(&["r1", "Other"]), columns: v(&["c1", "c2"]) },
        },
    ];
    let encoded = write_questions(&qs);
    let parsed = parse(&encoded).expect("canonical text must parse");
    assert_eq!(parsed, qs);
}

#[test]
fn round_trip_single_free_form() {
    let qs = vec![Question { text: s("Q"), answers: Answers::FreeForm }];
    assert_eq!(parse(&write_questions(&qs)).unwrap(), qs);
}

#[test]
fn parse_empty_input() {
    assert_eq!(parse("").unwrap(), Vec::<Question>::new());
}

#[test]
fn parse_select_one_strips_other_marker() {
    let parsed = parse("Q\nRust\nOther+\n\n").unwrap();
    assert_eq!(
        parsed,
        vec![Question { text: s("Q"), answers: Answers::SelectOne(v(&["Rust", "Other"])) }]
    );
}

#[test]
fn parse_keeps_unrelated_plus_suffix() {
    let parsed = parse("Q\nC++\n\n").unwrap();
    assert_eq!(parsed, vec![Question { text: s("Q"), answers: Answers::SelectOne(v(&["C++"])) }]);
}

#[test]
fn parse_matrix_block() {
    let parsed = parse("Agree?+\nc1|c2\nr1\nr2\n\n").unwrap();
    assert_eq!(
        parsed,
        vec![Question {
            text: s("Agree?"),
            answers: Answers::Matrix { rows: v(&["r1", "r2"]), columns: v(&["c1", "c2"]) },
        }]
    );
}

#[test]
fn parse_ranking_rejected() {
    let err = parse("Order these\n [RANKING]A\nB\n\n").unwrap_err();
    assert_eq!(err.kind, FormatErrorKind::RankingUnsupported);
    assert_eq!(err.line, 1);
    assert_eq!(err.question, 1);
}

#[test]
fn parse_input_list_rejected() {
    let err = parse("Name them [INPUT LIST] +\n\nOne\n\n").unwrap_err();
    assert_eq!(err.kind, FormatErrorKind::InputListUnsupported);
    assert_eq!(err.question, 1);
}

#[test]
fn parse_missing_prompt() {
    let err = parse("\nX\n\n").unwrap_err();
    assert_eq!(err.kind, FormatErrorKind::MissingPrompt);
    assert_eq!(err.line, 1);
}

#[test]
fn parse_unterminated_block() {
    let err = parse("Q\nA").unwrap_err();
    assert_eq!(err.kind, FormatErrorKind::UnterminatedBlock);
}

#[test]
fn parse_prompt_without_answers() {
    let err = parse("Q\n\n").unwrap_err();
    assert_eq!(err.kind, FormatErrorKind::MissingAnswers);
}

#[test]
fn parse_error_locates_second_block() {
    let err = parse("A\n*****\n\nOrder\n [RANKING]x\ny\n\n").unwrap_err();
    assert_eq!(err.kind, FormatErrorKind::RankingUnsupported);
    assert_eq!(err.line, 4);
    assert_eq!(err.question, 2);
}
