//! The platform-text encoder.
//!
//! Turns a sequence of [`Question`](crate::markdown::Question) values into
//! the survey platform's plain-text import format: one block per question,
//! blocks separated by exactly one blank line, a trailing blank line after
//! the last block.  Encoding is total: every model value is representable.
//!
//! An option label equal to `"other"` ignoring ASCII case is a reserved
//! sentinel meaning "free-text fallback option"; the encoder marks it with
//! a `+` appended immediately after the label.
use vstd::prelude::*;
use vstd::string::StringExecFns;

use crate::markdown::Answers;
use crate::markdown::AnswersModel;
use crate::markdown::Question;
use crate::markdown::QuestionModel;

verus! {

/// Whether a label equals `"other"` up to ASCII case: the reserved
/// free-text-fallback sentinel.  Exact equality of all five characters,
/// each ignoring case only; no substring or prefix matching.
pub open spec fn is_other_label(s: Seq<char>) -> bool {
    &&& s.len() == 5
    &&& (s[0] == 'o' || s[0] == 'O')
    &&& (s[1] == 't' || s[1] == 'T')
    &&& (s[2] == 'h' || s[2] == 'H')
    &&& (s[3] == 'e' || s[3] == 'E')
    &&& (s[4] == 'r' || s[4] == 'R')
}

/// One encoded option/row/item line, without its terminating newline: the
/// label itself, with `+` appended immediately after it when the label is
/// the `"other"` sentinel.
pub open spec fn spec_answer_line(label: Seq<char>) -> Seq<char> {
    if is_other_label(label) {
        label + "+"@
    } else {
        label
    }
}

/// The encoding of a list of option labels: one line per label, each
/// terminated by a newline.
pub open spec fn spec_encode_answers(labels: Seq<Seq<char>>) -> Seq<char>
    decreases labels.len(),
{
    if labels.len() == 0 {
        Seq::empty()
    } else {
        spec_answer_line(labels[0]) + "\n"@ + spec_encode_answers(labels.drop_first())
    }
}

/// Matrix column labels joined by `|` on a single line (no newline).
pub open spec fn spec_join_columns(columns: Seq<Seq<char>>) -> Seq<char>
    decreases columns.len(),
{
    if columns.len() == 0 {
        Seq::empty()
    } else if columns.len() == 1 {
        columns[0]
    } else {
        columns[0] + "|"@ + spec_join_columns(columns.drop_first())
    }
}

/// The platform-text block for a single question, including the blank line
/// that terminates every block.
pub open spec fn spec_encode_question(q: QuestionModel) -> Seq<char> {
    match q.answers {
        AnswersModel::FreeForm => q.text + "+\n\n\n"@,
        AnswersModel::RatingScale => q.text + "\n*****\n\n"@,
        AnswersModel::SelectOne(options) => q.text + "\n"@ + spec_encode_answers(options)
            + "\n"@,
        AnswersModel::SelectMany(options) => q.text + "+\n\n"@ + spec_encode_answers(options)
            + "\n"@,
        AnswersModel::Ranking(options) => q.text + "\n [RANKING]"@ + spec_encode_answers(options)
            + "\n"@,
        AnswersModel::InputList(items) => q.text + " [INPUT LIST] +\n\n"@ + spec_encode_answers(
            items,
        ) + "\n"@,
        AnswersModel::Matrix { rows, columns } => q.text + "+\n"@ + spec_join_columns(columns)
            + "\n"@ + spec_encode_answers(rows) + "\n"@,
    }
}

/// The platform-text encoding of a whole question sequence: the
/// concatenation of the per-question blocks, in order.
pub open spec fn spec_encode_questions(qs: Seq<QuestionModel>) -> Seq<char>
    decreases qs.len(),
{
    if qs.len() == 0 {
        Seq::empty()
    } else {
        spec_encode_question(qs[0]) + spec_encode_questions(qs.drop_first())
    }
}

/// Appending one label to a list appends exactly its encoded line.
pub proof fn lemma_encode_answers_snoc(labels: Seq<Seq<char>>, label: Seq<char>)
    ensures
        spec_encode_answers(labels.push(label)) == spec_encode_answers(labels) + spec_answer_line(
            label,
        ) + "\n"@,
    decreases labels.len(),
{
    if labels.len() == 0 {
        assert(labels.push(label)[0] == label);
        assert(labels.push(label).drop_first() =~= Seq::<Seq<char>>::empty());
        assert(spec_encode_answers(Seq::<Seq<char>>::empty()) == Seq::<char>::empty());
        assert(spec_encode_answers(labels.push(label)) =~= spec_answer_line(label) + "\n"@);
        assert(spec_encode_answers(labels) + spec_answer_line(label) + "\n"@ =~= spec_answer_line(
            label,
        ) + "\n"@);
    } else {
        let l0 = labels[0];
        let rest = labels.drop_first();
        assert(labels.push(label)[0] == l0);
        assert(labels.push(label).drop_first() =~= rest.push(label));
        lemma_encode_answers_snoc(rest, label);
        assert(spec_encode_answers(labels.push(label)) == spec_answer_line(l0) + "\n"@
            + spec_encode_answers(rest.push(label)));
        assert(spec_encode_answers(labels) == spec_answer_line(l0) + "\n"@ + spec_encode_answers(
            rest,
        ));
        assert(spec_answer_line(l0) + "\n"@ + (spec_encode_answers(rest) + spec_answer_line(label)
            + "\n"@) =~= (spec_answer_line(l0) + "\n"@ + spec_encode_answers(rest))
            + spec_answer_line(label) + "\n"@);
    }
}

/// Appending one column to a non-empty list appends `|` and the column.
pub proof fn lemma_join_columns_snoc(columns: Seq<Seq<char>>, column: Seq<char>)
    requires
        columns.len() > 0,
    ensures
        spec_join_columns(columns.push(column)) == spec_join_columns(columns) + "|"@ + column,
    decreases columns.len(),
{
    if columns.len() == 1 {
        assert(columns.push(column)[0] == columns[0]);
        assert(columns.push(column).drop_first() =~= seq![column]);
        assert(spec_join_columns(seq![column]) == column);
        assert(spec_join_columns(columns.push(column)) =~= spec_join_columns(columns) + "|"@
            + column);
    } else {
        assert(columns.push(column)[0] == columns[0]);
        assert(columns.push(column).drop_first() =~= columns.drop_first().push(column));
        lemma_join_columns_snoc(columns.drop_first(), column);
        assert(spec_join_columns(columns.push(column)) =~= spec_join_columns(columns) + "|"@
            + column);
    }
}

/// Appending one question to a sequence appends exactly its encoded block.
pub proof fn lemma_encode_questions_snoc(qs: Seq<QuestionModel>, q: QuestionModel)
    ensures
        spec_encode_questions(qs.push(q)) == spec_encode_questions(qs) + spec_encode_question(q),
    decreases qs.len(),
{
    if qs.len() == 0 {
        assert(qs.push(q)[0] == q);
        assert(qs.push(q).drop_first() =~= Seq::<QuestionModel>::empty());
        assert(spec_encode_questions(Seq::<QuestionModel>::empty()) == Seq::<char>::empty());
        assert(spec_encode_questions(qs.push(q)) =~= spec_encode_questions(qs)
            + spec_encode_question(q));
    } else {
        let q0 = qs[0];
        let rest = qs.drop_first();
        assert(qs.push(q)[0] == q0);
        assert(qs.push(q).drop_first() =~= rest.push(q));
        lemma_encode_questions_snoc(rest, q);
        assert(spec_encode_questions(qs.push(q)) == spec_encode_question(q0)
            + spec_encode_questions(rest.push(q)));
        assert(spec_encode_questions(qs) == spec_encode_question(q0) + spec_encode_questions(
            rest,
        ));
        assert(spec_encode_question(q0) + (spec_encode_questions(rest) + spec_encode_question(q))
            =~= (spec_encode_question(q0) + spec_encode_questions(rest)) + spec_encode_question(
            q,
        ));
    }
}

/// Encoding is deterministic: any two encodings of the same question
/// sequence are character-for-character identical, since each equals the
/// one sequence [`spec_encode_questions`] fixes.
pub proof fn lemma_encode_deterministic(qs: Seq<QuestionModel>, out1: Seq<char>, out2: Seq<char>)
    requires
        out1 == spec_encode_questions(qs),
        out2 == spec_encode_questions(qs),
    ensures
        out1 == out2,
{
}

/// Exactly the `"other"` sentinel is marked: an option line carries the
/// trailing `+` marker if and only if its label equals `"other"` ignoring
/// ASCII case — `"Others"` or any other label passes through unchanged.
pub proof fn lemma_other_sentinel(label: Seq<char>)
    ensures
        is_other_label(label) ==> spec_answer_line(label) == label + "+"@,
        !is_other_label(label) ==> spec_answer_line(label) == label,
        (spec_answer_line(label) == label + "+"@) <==> is_other_label(label),
{
    reveal_strlit("+");
    if !is_other_label(label) && spec_answer_line(label) == label + "+"@ {
        assert(label.len() == (label + "+"@).len());
        assert(false);
    }
}

/// Whether a label is the `"other"` free-text-fallback sentinel.
pub fn label_is_other(label: &str) -> (r: bool)
    ensures
        r == is_other_label(label@),
{
    let n = label.unicode_len();
    if n != 5 {
        return false;
    }
    let c0 = label.get_char(0);
    let c1 = label.get_char(1);
    let c2 = label.get_char(2);
    let c3 = label.get_char(3);
    let c4 = label.get_char(4);
    (c0 == 'o' || c0 == 'O') && (c1 == 't' || c1 == 'T') && (c2 == 'h' || c2 == 'H') && (c3 == 'e'
        || c3 == 'E') && (c4 == 'r' || c4 == 'R')
}

/// Writes the option/row/item lines of one question: each label on its own
/// line, the `"other"` sentinel marked with a trailing `+`.
pub fn write_answers(answers: &Vec<String>) -> (out: String)
    ensures
        out@ == spec_encode_answers(answers.deep_view()),
{
    let ghost labels = answers.deep_view();
    let mut out = String::new();
    let mut i: usize = 0;
    while i < answers.len()
        invariant
            i <= answers.len(),
            labels == answers.deep_view(),
            labels.len() == answers.len(),
            out@ == spec_encode_answers(labels.take(i as int)),
        decreases answers.len() - i,
    {
        out.append(answers[i].as_str());
        if label_is_other(answers[i].as_str()) {
            out.append("+");
        }
        out.append("\n");
        proof {
            lemma_encode_answers_snoc(labels.take(i as int), labels[i as int]);
            assert(labels.take(i + 1) =~= labels.take(i as int).push(labels[i as int]));
            assert(out@ =~= spec_encode_answers(labels.take(i + 1)));
        }
        i = i + 1;
    }
    proof {
        assert(labels.take(labels.len() as int) =~= labels);
    }
    out
}

/// Writes the matrix column header: the column labels joined by `|`.
fn write_columns(columns: &Vec<String>) -> (out: String)
    ensures
        out@ == spec_join_columns(columns.deep_view()),
{
    let ghost labels = columns.deep_view();
    let mut out = String::new();
    let mut i: usize = 0;
    while i < columns.len()
        invariant
            i <= columns.len(),
            labels == columns.deep_view(),
            labels.len() == columns.len(),
            out@ == spec_join_columns(labels.take(i as int)),
        decreases columns.len() - i,
    {
        if i > 0 {
            out.append("|");
        }
        out.append(columns[i].as_str());
        proof {
            if i == 0 {
                assert(labels.take(1int) =~= seq![labels[0]]);
                assert(spec_join_columns(labels.take(1int)) == labels[0]);
                assert(out@ =~= labels[0]);
            } else {
                lemma_join_columns_snoc(labels.take(i as int), labels[i as int]);
                assert(labels.take(i + 1) =~= labels.take(i as int).push(labels[i as int]));
                assert(out@ =~= spec_join_columns(labels.take(i + 1)));
            }
        }
        i = i + 1;
    }
    proof {
        assert(labels.take(labels.len() as int) =~= labels);
    }
    out
}

/// Writes the platform-text block of a single question, terminated by the
/// blank line that separates blocks.  Total: every kind has an encoding.
pub fn write_question(q: &Question) -> (out: String)
    ensures
        out@ == spec_encode_question(q@),
{
    let mut out = String::new();
    out.append(q.text.as_str());
    match &q.answers {
        Answers::FreeForm => {
            out.append("+\n\n\n");
            proof {
                assert(out@ =~= q@.text + "+\n\n\n"@);
            }
        },
        Answers::RatingScale => {
            out.append("\n*****\n\n");
            proof {
                assert(out@ =~= q@.text + "\n*****\n\n"@);
            }
        },
        Answers::SelectOne(options) => {
            out.append("\n");
            let lines = write_answers(options);
            out.append(lines.as_str());
            out.append("\n");
            proof {
                assert(out@ =~= q@.text + "\n"@ + spec_encode_answers(options.deep_view())
                    + "\n"@);
            }
        },
        Answers::SelectMany(options) => {
            out.append("+\n\n");
            let lines = write_answers(options);
            out.append(lines.as_str());
            out.append("\n");
            proof {
                assert(out@ =~= q@.text + "+\n\n"@ + spec_encode_answers(options.deep_view())
                    + "\n"@);
            }
        },
        Answers::Ranking(options) => {
            out.append("\n [RANKING]");
            let lines = write_answers(options);
            out.append(lines.as_str());
            out.append("\n");
            proof {
                assert(out@ =~= q@.text + "\n [RANKING]"@ + spec_encode_answers(
                    options.deep_view(),
                ) + "\n"@);
            }
        },
        Answers::InputList(items) => {
            out.append(" [INPUT LIST] +\n\n");
            let lines = write_answers(items);
            out.append(lines.as_str());
            out.append("\n");
            proof {
                assert(out@ =~= q@.text + " [INPUT LIST] +\n\n"@ + spec_encode_answers(
                    items.deep_view(),
                ) + "\n"@);
            }
        },
        Answers::Matrix { rows, columns } => {
            out.append("+\n");
            let header = write_columns(columns);
            out.append(header.as_str());
            out.append("\n");
            let lines = write_answers(rows);
            out.append(lines.as_str());
            out.append("\n");
            proof {
                assert(out@ =~= q@.text + "+\n"@ + spec_join_columns(columns.deep_view()) + "\n"@
                    + spec_encode_answers(rows.deep_view()) + "\n"@);
            }
        },
    }
    out
}

/// Writes the platform import text for a whole question sequence: the
/// per-question blocks concatenated in order.
pub fn write_questions(questions: &Vec<Question>) -> (out: String)
    ensures
        out@ == spec_encode_questions(questions.deep_view()),
{
    let ghost models = questions.deep_view();
    let mut out = String::new();
    let mut i: usize = 0;
    while i < questions.len()
        invariant
            i <= questions.len(),
            models == questions.deep_view(),
            models.len() == questions.len(),
            out@ == spec_encode_questions(models.take(i as int)),
        decreases questions.len() - i,
    {
        let block = write_question(&questions[i]);
        out.append(block.as_str());
        proof {
            lemma_encode_questions_snoc(models.take(i as int), models[i as int]);
            assert(models.take(i + 1) =~= models.take(i as int).push(models[i as int]));
            assert(out@ =~= spec_encode_questions(models.take(i + 1)));
        }
        i = i + 1;
    }
    proof {
        assert(models.take(models.len() as int) =~= models);
    }
    out
}

} // verus!
