//! Rendering remote question records back into authored notation.
//!
//! Each remote record is first mapped onto the authored question model —
//! the same reconciliation the comparator performs, a choice list becoming
//! `SelectOne` or `SelectMany` by its flag — and the resulting sequence is
//! then encoded.  For the kinds the authored notation supports, the
//! notation coincides with the platform import format, so the encoder
//! serves as the emitter.
use vstd::prelude::*;

use crate::api;
use crate::api::RemoteModel;
use crate::markdown::Answers;
use crate::markdown::Question;
use crate::markdown::QuestionModel;
use crate::markdown::AnswersModel;
use crate::txt_writer::spec_encode_questions;
use crate::txt_writer::write_questions;

verus! {

/// The authored-model counterpart of a remote record: the shape the
/// comparator would pair it with.
pub open spec fn spec_question_of_remote(r: RemoteModel) -> QuestionModel {
    match r {
        RemoteModel::Input { text } => QuestionModel { text, answers: AnswersModel::FreeForm },
        RemoteModel::ChoiceList { text, multiple, choices } => QuestionModel {
            text,
            answers: if multiple {
                AnswersModel::SelectMany(choices)
            } else {
                AnswersModel::SelectOne(choices)
            },
        },
        RemoteModel::ChoiceTable { text, rows, columns } => QuestionModel {
            text,
            answers: AnswersModel::Matrix { rows, columns },
        },
        RemoteModel::RatingScale { text } => QuestionModel {
            text,
            answers: AnswersModel::RatingScale,
        },
        RemoteModel::Ranking { text, choices } => QuestionModel {
            text,
            answers: AnswersModel::Ranking(choices),
        },
        RemoteModel::InputList { text, items } => QuestionModel {
            text,
            answers: AnswersModel::InputList(items),
        },
    }
}

/// Maps one remote record onto the authored question model.
pub fn question_of_remote(q: &api::Question) -> (r: Question)
    ensures
        r@ == spec_question_of_remote(q@),
{
    match q {
        api::Question::Input { text } => Question { text: text.clone(), answers: Answers::FreeForm },
        api::Question::ChoiceList { text, multiple, choices } => Question {
            text: text.clone(),
            answers: if *multiple {
                Answers::SelectMany(choices.clone())
            } else {
                Answers::SelectOne(choices.clone())
            },
        },
        api::Question::ChoiceTable { text, rows, columns } => Question {
            text: text.clone(),
            answers: Answers::Matrix { rows: rows.clone(), columns: columns.clone() },
        },
        api::Question::RatingScale { text } => Question {
            text: text.clone(),
            answers: Answers::RatingScale,
        },
        api::Question::Ranking { text, choices } => Question {
            text: text.clone(),
            answers: Answers::Ranking(choices.clone()),
        },
        api::Question::InputList { text, items } => Question {
            text: text.clone(),
            answers: Answers::InputList(items.clone()),
        },
    }
}

/// Renders fetched remote questions as authored-notation text: each record
/// mapped onto the authored model, then encoded block by block.
pub fn render_questions(questions: &Vec<api::Question>) -> (out: String)
    ensures
        out@ == spec_encode_questions(
            questions.deep_view().map_values(|r: RemoteModel| spec_question_of_remote(r)),
        ),
{
    let ghost target = questions.deep_view().map_values(
        |r: RemoteModel| spec_question_of_remote(r),
    );
    let mut converted: Vec<Question> = Vec::new();
    let mut i: usize = 0;
    proof {
        assert(converted.deep_view() =~= target.take(0));
    }
    while i < questions.len()
        invariant
            i <= questions.len(),
            target == questions.deep_view().map_values(
                |r: RemoteModel| spec_question_of_remote(r),
            ),
            target.len() == questions.len(),
            converted.deep_view() == target.take(i as int),
        decreases questions.len() - i,
    {
        let q = question_of_remote(&questions[i]);
        let ghost pre = converted;
        converted.push(q);
        proof {
            crate::lemma_deep_view_push(pre, converted, q);
            assert(questions.deep_view()[i as int] == questions@[i as int].deep_view());
            assert(q@ == target[i as int]);
            assert(converted.deep_view() =~= target.take(i + 1));
        }
        i = i + 1;
    }
    proof {
        assert(target.take(target.len() as int) =~= target);
    }
    write_questions(&converted)
}

} // verus!
