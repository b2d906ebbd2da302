//! Byte-exact checks of the platform-text encoder.
use survey_tools::markdown::Answers;
use survey_tools::markdown::Question;
use survey_tools::txt_writer::label_is_other;
use survey_tools::txt_writer::write_answers;
use survey_tools::txt_writer::write_question;
use survey_tools::txt_writer::write_questions;

fn s(x: &str) -> String {
    x.to_string()
}

fn v(xs: &[&str]) -> Vec<String> {
    xs.iter().map(|x| x.to_string()).collect()
}

#[test]
fn encode_select_many_example() {
    let q = Question {
        text: s("Pick languages"),
        answers: Answers::SelectMany(v(&["Rust", "Go", "Other"])),
    };
    let out = write_questions(&vec![q]);
    assert_eq!(out, "Pick languages+\n\nRust\nGo\nOther+\n\n");
}

#[test]
fn encode_free_form() {
    let q = Question { text: s("Any comments?"), answers: Answers::FreeForm };
    assert_eq!(write_question(&q), "Any comments?+\n\n\n");
}

#[test]
fn encode_rating_scale() {
    let q = Question { text: s("Rate us"), answers: Answers::RatingScale };
    assert_eq!(write_question(&q), "Rate us\n*****\n\n");
}

#[test]
fn encode_select_one() {
    let q = Question { text: s("Favorite?"), answers: Answers::SelectOne(v(&["A", "B"])) };
    assert_eq!(write_question(&q), "Favorite?\nA\nB\n\n");
}

#[test]
fn encode_ranking() {
    let q = Question { text: s("Order these"), answers: Answers::Ranking(v(&["A", "B"])) };
    assert_eq!(write_question(&q), "Order these\n [RANKING]A\nB\n\n");
}

#[test]
fn encode_input_list() {
    let q = Question { text: s("Name them"), answers: Answers::InputList(v(&["One", "Two"])) };
    assert_eq!(write_question(&q), "Name them [INPUT LIST] +\n\nOne\nTwo\n\n");
}

#[test]
fn encode_matrix() {
    let q = Question {
        text: s("Agree?"),
        answers: Answers::Matrix { rows: v(&["r1", "r2"]), columns: v(&["c1", "c2"]) },
    };
    assert_eq!(write_question(&q), "Agree?+\nc1|c2\nr1\nr2\n\n");
}

#[test]
fn encode_two_blocks_separated() {
    let qs = vec![
        Question { text: s("A"), answers: Answers::RatingScale },
        Question { text: s("B"), answers: Answers::SelectOne(v(&["x"])) },
    ];
    assert_eq!(write_questions(&qs), "A\n*****\n\nB\nx\n\n");
}

#[test]
fn other_sentinel_marked_in_every_case() {
    assert_eq!(write_answers(&v(&["OTHER"])), "OTHER+\n");
    assert_eq!(write_answers(&v(&["other"])), "other+\n");
    assert_eq!(write_answers(&v(&["Other"])), "Other+\n");
    assert_eq!(write_answers(&v(&["oThEr"])), "oThEr+\n");
}

#[test]
fn other_sentinel_exact_match_only() {
    assert_eq!(write_answers(&v(&["Others"])), "Others\n");
    assert_eq!(write_answers(&v(&["another"])), "another\n");
    assert_eq!(write_answers(&v(&["othe"])), "othe\n");
    assert!(label_is_other("OTHER"));
    assert!(!label_is_other("Others"));
}

#[test]
fn other_sentinel_in_matrix_rows_not_columns() {
    let q = Question {
        text: s("Grid"),
        answers: Answers::Matrix { rows: v(&["Other", "r"]), columns: v(&["c1", "c2"]) },
    };
    assert_eq!(write_question(&q), "Grid+\nc1|c2\nOther+\nr\n\n");
}

#[test]
fn encoder_deterministic() {
    let qs = vec![
        Question { text: s("Q1"), answers: Answers::SelectMany(v(&["a", "Other"])) },
        Question { text: s("Q2"), answers: Answers::FreeForm },
    ];
    let first = write_questions(&qs);
    let second = write_questions(&qs);
    assert_eq!(first, second);
}
