//! The canonical in-memory model of an authored survey question.
//!
//! A question is a prompt together with one of seven kinds of answer
//! blocks.  Values of this model are produced by the authored-notation
//! parser and consumed by the platform-text encoder and the comparator.
use vstd::prelude::*;

verus! {

/// One authored survey question: a prompt and its answer block.
#[derive(Debug, Clone, PartialEq, Eq)]
pub struct Question {
    /// The question prompt, compared verbatim against its remote counterpart.
    pub text: String,
    /// The kind-specific answer data.
    pub answers: Answers,
}

/// The closed set of answer-block kinds an authored question can carry.
///
/// The option lists are ordered and the order is significant end-to-end:
/// parsing, encoding and comparison all treat position as meaningful.
#[derive(Debug, Clone, PartialEq, Eq)]
pub enum Answers {
    /// A free-text answer with no enumerated options.
    FreeForm,
    /// A fixed five-point rating scale; the scale itself is implied, never
    /// enumerated.
    RatingScale,
    /// An ordered list of labels of which the respondent picks exactly one.
    SelectOne(Vec<String>),
    /// An ordered list of labels of which the respondent picks any subset.
    SelectMany(Vec<String>),
    /// An ordered list of labels the respondent ranks.
    Ranking(Vec<String>),
    /// An ordered list of item labels, each rendered as its own text input.
    InputList(Vec<String>),
    /// A grid of statement rows rated against a shared list of columns.
    Matrix { rows: Vec<String>, columns: Vec<String> },
}

/// The mathematical model of a [`Question`]: the prompt and every label as
/// a sequence of characters.
pub struct QuestionModel {
    pub text: Seq<char>,
    pub answers: AnswersModel,
}

/// The mathematical model of an [`Answers`] value.
pub enum AnswersModel {
    FreeForm,
    RatingScale,
    SelectOne(Seq<Seq<char>>),
    SelectMany(Seq<Seq<char>>),
    Ranking(Seq<Seq<char>>),
    InputList(Seq<Seq<char>>),
    Matrix { rows: Seq<Seq<char>>, columns: Seq<Seq<char>> },
}

impl View for Answers {
    type V = AnswersModel;

    open spec fn view(&self) -> AnswersModel {
        match self {
            Answers::FreeForm => AnswersModel::FreeForm,
            Answers::RatingScale => AnswersModel::RatingScale,
            Answers::SelectOne(options) => AnswersModel::SelectOne(options.deep_view()),
            Answers::SelectMany(options) => AnswersModel::SelectMany(options.deep_view()),
            Answers::Ranking(options) => AnswersModel::Ranking(options.deep_view()),
            Answers::InputList(items) => AnswersModel::InputList(items.deep_view()),
            Answers::Matrix { rows, columns } => AnswersModel::Matrix {
                rows: rows.deep_view(),
                columns: columns.deep_view(),
            },
        }
    }
}

impl DeepView for Answers {
    type V = AnswersModel;

    open spec fn deep_view(&self) -> AnswersModel {
        self.view()
    }
}

impl View for Question {
    type V = QuestionModel;

    open spec fn view(&self) -> QuestionModel {
        QuestionModel { text: self.text@, answers: self.answers@ }
    }
}

impl DeepView for Question {
    type V = QuestionModel;

    open spec fn deep_view(&self) -> QuestionModel {
        self.view()
    }
}

/// Why a piece of authored text failed to parse.
#[derive(Debug, Clone, Copy, PartialEq, Eq, Structural)]
pub enum FormatErrorKind {
    /// A blank line stood where a question prompt was expected.
    MissingPrompt,
    /// The block ended before an answer block could be classified, or the
    /// answer block was empty.
    MissingAnswers,
    /// The block was not terminated by the blank line every block must end
    /// with.
    UnterminatedBlock,
    /// The block carried the ranking tag, which the authored notation does
    /// not support.
    RankingUnsupported,
    /// The block carried the input-list tag, which the authored notation
    /// does not support.
    InputListUnsupported,
}

/// A failure to decompose authored text into well-formed question blocks,
/// locating the offending block by its first line and question index
/// (both 1-based).
#[derive(Debug, Clone, Copy, PartialEq, Eq, Structural)]
pub struct FormatError {
    /// 1-based number of the line on which the offending block starts.
    pub line: usize,
    /// 1-based index of the offending question block.
    pub question: usize,
    /// What was wrong with the block.
    pub kind: FormatErrorKind,
}

/// The mathematical model of a [`FormatError`].
pub struct FormatErrorModel {
    pub line: int,
    pub question: int,
    pub kind: FormatErrorKind,
}

impl View for FormatError {
    type V = FormatErrorModel;

    open spec fn view(&self) -> FormatErrorModel {
        FormatErrorModel {
            line: self.line as int,
            question: self.question as int,
            kind: self.kind,
        }
    }
}

/// Splits a character sequence at every occurrence of `sep`, separator
/// semantics: `n` separators yield `n + 1` parts, so the result is never
/// empty and empty parts are kept.
pub open spec fn spec_split(s: Seq<char>, sep: char) -> Seq<Seq<char>>
    decreases s.len(),
{
    if s.len() == 0 {
        seq![Seq::<char>::empty()]
    } else {
        let rest = spec_split(s.drop_first(), sep);
        if s[0] == sep {
            seq![Seq::<char>::empty()] + rest
        } else {
            seq![seq![s[0]] + rest[0]] + rest.drop_first()
        }
    }
}

/// A split has at least one part.
pub proof fn lemma_split_len(s: Seq<char>, sep: char)
    ensures
        spec_split(s, sep).len() >= 1,
    decreases s.len(),
{
    if s.len() != 0 {
        lemma_split_len(s.drop_first(), sep);
    }
}

/// A sequence without the separator splits into itself alone.
pub proof fn lemma_split_no_sep(s: Seq<char>, sep: char)
    requires
        forall|m: int| 0 <= m < s.len() ==> s[m] != sep,
    ensures
        spec_split(s, sep) == seq![s],
    decreases s.len(),
{
    if s.len() == 0 {
        assert(s =~= Seq::<char>::empty());
        assert(spec_split(s, sep) =~= seq![s]);
    } else {
        lemma_split_no_sep(s.drop_first(), sep);
        let rest = spec_split(s.drop_first(), sep);
        assert(s[0] != sep);
        assert(spec_split(s, sep) == seq![seq![s[0]] + rest[0]] + rest.drop_first());
        assert(rest == seq![s.drop_first()]);
        assert(rest[0] == s.drop_first());
        assert(seq![s[0]] + rest[0] =~= s);
        assert(rest.drop_first() =~= Seq::<Seq<char>>::empty());
        assert(seq![s] + Seq::<Seq<char>>::empty() =~= seq![s]);
        assert(spec_split(s, sep) =~= seq![s]);
    }
}

/// Splitting `part + sep + rest` where `part` is separator-free peels off
/// `part` and continues with `rest`.
pub proof fn lemma_split_peel(part: Seq<char>, rest: Seq<char>, sep: char)
    requires
        forall|m: int| 0 <= m < part.len() ==> part[m] != sep,
    ensures
        spec_split(part + seq![sep] + rest, sep) == seq![part] + spec_split(rest, sep),
    decreases part.len(),
{
    let s = part + seq![sep] + rest;
    if part.len() == 0 {
        assert(part =~= Seq::<char>::empty());
        assert(s =~= seq![sep] + rest);
        assert(s[0] == sep);
        assert(s.drop_first() =~= rest);
        assert(spec_split(s, sep) =~= seq![part] + spec_split(rest, sep));
    } else {
        assert(s[0] == part[0]);
        assert(s[0] != sep);
        let inner = spec_split(s.drop_first(), sep);
        assert(spec_split(s, sep) == seq![seq![s[0]] + inner[0]] + inner.drop_first());
        assert(s.drop_first() =~= part.drop_first() + seq![sep] + rest);
        lemma_split_peel(part.drop_first(), rest, sep);
        assert(inner == seq![part.drop_first()] + spec_split(rest, sep));
        lemma_split_len(rest, sep);
        assert(inner[0] == part.drop_first());
        assert(seq![s[0]] + inner[0] =~= part);
        assert(inner.drop_first() =~= spec_split(rest, sep));
        assert(seq![part] + spec_split(rest, sep) =~= seq![seq![s[0]] + inner[0]]
            + inner.drop_first());
    }
}

/// Splits a string at every occurrence of `sep`, separator semantics:
/// empty parts are kept, and `n` separators yield `n + 1` parts.
pub fn split_char(s: &str, sep: char) -> (parts: Vec<String>)
    ensures
        parts.deep_view() == spec_split(s@, sep),
{
    let n = s.unicode_len();
    let mut parts: Vec<String> = Vec::new();
    let mut start: usize = 0;
    let mut i: usize = 0;
    proof {
        assert(s@.skip(0) =~= s@);
        assert(parts.deep_view() =~= Seq::<Seq<char>>::empty());
        assert(spec_split(s@, sep) =~= parts.deep_view() + spec_split(s@.skip(0), sep));
    }
    while i < n
        invariant
            n == s@.len(),
            start <= i <= n,
            spec_split(s@, sep) == parts.deep_view() + spec_split(s@.skip(start as int), sep),
            forall|m: int| start <= m < i ==> s@[m] != sep,
        decreases n - i,
    {
        let c = s.get_char(i);
        if c == sep {
            let part = String::from_str(s.substring_char(start, i));
            let ghost pre = parts;
            parts.push(part);
            proof {
                crate::lemma_deep_view_push(pre, parts, part);
                assert(s@.skip(start as int) =~= s@.subrange(start as int, i as int) + seq![sep]
                    + s@.skip(i + 1));
                lemma_split_peel(s@.subrange(start as int, i as int), s@.skip(i + 1), sep);
                assert(parts.deep_view() + spec_split(s@.skip(i + 1), sep) =~= pre.deep_view() + (
                seq![s@.subrange(start as int, i as int)] + spec_split(s@.skip(i + 1), sep)));
            }
            start = i + 1;
        }
        i = i + 1;
    }
    let tail = String::from_str(s.substring_char(start, n));
    let ghost pre = parts;
    parts.push(tail);
    proof {
        crate::lemma_deep_view_push(pre, parts, tail);
        assert(s@.skip(start as int) =~= s@.subrange(start as int, n as int));
        lemma_split_no_sep(s@.skip(start as int), sep);
        assert(parts.deep_view() =~= pre.deep_view() + seq![s@.subrange(start as int, n as int)]);
        assert(parts.deep_view() =~= spec_split(s@, sep));
    }
    parts
}

/// Whether `l` begins with `prefix`.
pub open spec fn spec_starts_with(l: Seq<char>, prefix: Seq<char>) -> bool {
    l.len() >= prefix.len() && l.subrange(0, prefix.len() as int) == prefix
}

/// Whether `l` ends with `suffix`.
pub open spec fn spec_ends_with(l: Seq<char>, suffix: Seq<char>) -> bool {
    l.len() >= suffix.len() && l.subrange(l.len() - suffix.len(), l.len() as int) == suffix
}

/// Undoes the encoder's `"other"` sentinel marking on one option line: a
/// trailing `+` is stripped exactly when what precedes it is the sentinel.
pub open spec fn spec_strip_marker(l: Seq<char>) -> Seq<char> {
    if l.len() > 0 && l[l.len() - 1] == '+' && crate::txt_writer::is_other_label(l.drop_last()) {
        l.drop_last()
    } else {
        l
    }
}

/// The index of the first blank line at or after `from`, or the total
/// number of lines if none exists.
pub open spec fn first_blank_at(ls: Seq<Seq<char>>, from: int) -> int
    decreases ls.len() - from,
{
    if from < 0 || from >= ls.len() {
        ls.len() as int
    } else if ls[from].len() == 0 {
        from
    } else {
        first_blank_at(ls, from + 1)
    }
}

/// One parsed question block: the question it encodes and the number of
/// lines it occupies (its lines and the blank line terminating it), or a
/// located [`FormatErrorModel`].
///
/// Block classification, given the block's first (prompt) line:
/// a blank prompt is an error; a prompt carrying the input-list tag is the
/// unsupported input-list kind; a prompt ending in `+` is free-form (two
/// blank lines follow), select-many (a blank line, then options), or a
/// matrix (a column-header line, then rows); any other prompt is followed
/// by the ranking tag (unsupported), the rating-scale marker line, or the
/// option lines of a select-one question.
pub open spec fn spec_parse_block(ls: Seq<Seq<char>>, i: int, q: int) -> Result<
    (QuestionModel, int),
    FormatErrorModel,
> {
    let p = ls[i];
    if p.len() == 0 {
        Err(FormatErrorModel { line: i + 1, question: q, kind: FormatErrorKind::MissingPrompt })
    } else if spec_ends_with(p, " [INPUT LIST] +"@) {
        Err(
            FormatErrorModel {
                line: i + 1,
                question: q,
                kind: FormatErrorKind::InputListUnsupported,
            },
        )
    } else if p[p.len() - 1] == '+' {
        let text = p.drop_last();
        if i + 1 >= ls.len() {
            Err(
                FormatErrorModel {
                    line: i + 1,
                    question: q,
                    kind: FormatErrorKind::UnterminatedBlock,
                },
            )
        } else if ls[i + 1].len() == 0 {
            if i + 2 >= ls.len() {
                Err(
                    FormatErrorModel {
                        line: i + 1,
                        question: q,
                        kind: FormatErrorKind::UnterminatedBlock,
                    },
                )
            } else if ls[i + 2].len() == 0 {
                Ok((QuestionModel { text, answers: AnswersModel::FreeForm }, 3))
            } else {
                let j = first_blank_at(ls, i + 2);
                if j >= ls.len() {
                    Err(
                        FormatErrorModel {
                            line: i + 1,
                            question: q,
                            kind: FormatErrorKind::UnterminatedBlock,
                        },
                    )
                } else {
                    Ok(
                        (
                            QuestionModel {
                                text,
                                answers: AnswersModel::SelectMany(
                                    ls.subrange(i + 2, j).map_values(
                                        |l: Seq<char>| spec_strip_marker(l),
                                    ),
                                ),
                            },
                            j - i + 1,
                        ),
                    )
                }
            }
        } else {
            let columns = spec_split(ls[i + 1], '|');
            if i + 2 >= ls.len() {
                Err(
                    FormatErrorModel {
                        line: i + 1,
                        question: q,
                        kind: FormatErrorKind::UnterminatedBlock,
                    },
                )
            } else if ls[i + 2].len() == 0 {
                Err(
                    FormatErrorModel {
                        line: i + 1,
                        question: q,
                        kind: FormatErrorKind::MissingAnswers,
                    },
                )
            } else {
                let j = first_blank_at(ls, i + 2);
                if j >= ls.len() {
                    Err(
                        FormatErrorModel {
                            line: i + 1,
                            question: q,
                            kind: FormatErrorKind::UnterminatedBlock,
                        },
                    )
                } else {
                    Ok(
                        (
                            QuestionModel {
                                text,
                                answers: AnswersModel::Matrix {
                                    rows: ls.subrange(i + 2, j).map_values(
                                        |l: Seq<char>| spec_strip_marker(l),
                                    ),
                                    columns,
                                },
                            },
                            j - i + 1,
                        ),
                    )
                }
            }
        }
    } else {
        if i + 1 >= ls.len() {
            Err(
                FormatErrorModel {
                    line: i + 1,
                    question: q,
                    kind: FormatErrorKind::MissingAnswers,
                },
            )
        } else if spec_starts_with(ls[i + 1], " [RANKING]"@) {
            Err(
                FormatErrorModel {
                    line: i + 1,
                    question: q,
                    kind: FormatErrorKind::RankingUnsupported,
                },
            )
        } else if ls[i + 1] == "*****"@ {
            if i + 2 >= ls.len() || ls[i + 2].len() != 0 {
                Err(
                    FormatErrorModel {
                        line: i + 1,
                        question: q,
                        kind: FormatErrorKind::UnterminatedBlock,
                    },
                )
            } else {
                Ok((QuestionModel { text: p, answers: AnswersModel::RatingScale }, 3))
            }
        } else if ls[i + 1].len() == 0 {
            Err(
                FormatErrorModel {
                    line: i + 1,
                    question: q,
                    kind: FormatErrorKind::MissingAnswers,
                },
            )
        } else {
            let j = first_blank_at(ls, i + 1);
            if j >= ls.len() {
                Err(
                    FormatErrorModel {
                        line: i + 1,
                        question: q,
                        kind: FormatErrorKind::UnterminatedBlock,
                    },
                )
            } else {
                Ok(
                    (
                        QuestionModel {
                            text: p,
                            answers: AnswersModel::SelectOne(
                                ls.subrange(i + 1, j).map_values(
                                    |l: Seq<char>| spec_strip_marker(l),
                                ),
                            ),
                        },
                        j - i + 1,
                    ),
                )
            }
        }
    }
}

/// Parses every question block of `ls` from position `i` on, numbering
/// questions from `q`; the ordered questions, or the first error.
pub open spec fn spec_parse_blocks(ls: Seq<Seq<char>>, i: int, q: int) -> Result<
    Seq<QuestionModel>,
    FormatErrorModel,
>
    decreases ls.len() - i,
{
    if i < 0 || i >= ls.len() {
        Ok(Seq::empty())
    } else {
        match spec_parse_block(ls, i, q) {
            Err(e) => Err(e),
            Ok(pair) => {
                let k = if 1 <= pair.1 && i + pair.1 <= ls.len() {
                    pair.1
                } else {
                    ls.len() - i
                };
                match spec_parse_blocks(ls, i + k, q + 1) {
                    Err(e) => Err(e),
                    Ok(qs) => Ok(seq![pair.0] + qs),
                }
            },
        }
    }
}

/// Parses a whole authored text: its lines (a trailing newline does not
/// open a final empty line), decomposed into question blocks.
pub open spec fn spec_parse(text: Seq<char>) -> Result<Seq<QuestionModel>, FormatErrorModel> {
    let ls = spec_split(text, '\n');
    let core = if ls.len() > 0 && ls.last().len() == 0 {
        ls.drop_last()
    } else {
        ls
    };
    spec_parse_blocks(core, 0, 1)
}

/// An option/row label the authored notation can round-trip: non-empty,
/// free of newlines, and not of the one shape the sentinel-stripping of
/// the parser would alter (the `"other"` sentinel followed by `+`).
pub open spec fn spec_label_ok(l: Seq<char>) -> bool {
    &&& l.len() > 0
    &&& (forall|m: int| 0 <= m < l.len() ==> l[m] != '\n')
    &&& !(l[l.len() - 1] == '+' && crate::txt_writer::is_other_label(l.drop_last()))
}

/// Every label of the list is representable.
pub open spec fn spec_labels_ok(ls: Seq<Seq<char>>) -> bool {
    forall|m: int| 0 <= m < ls.len() ==> spec_label_ok(#[trigger] ls[m])
}

/// A matrix column label the notation can round-trip: non-empty and free
/// of newlines and of the column separator.
pub open spec fn spec_column_ok(l: Seq<char>) -> bool {
    &&& l.len() > 0
    &&& (forall|m: int| 0 <= m < l.len() ==> l[m] != '\n' && l[m] != '|')
}

/// A prompt free of newlines.
pub open spec fn spec_text_ok(t: Seq<char>) -> bool {
    forall|m: int| 0 <= m < t.len() ==> t[m] != '\n'
}

/// A prompt encoded bare (no trailing `+` in the notation): it must not
/// itself end in `+`, which would make the block read as a different kind.
pub open spec fn spec_plain_prompt_ok(t: Seq<char>) -> bool {
    t.len() > 0 && t[t.len() - 1] != '+' && spec_text_ok(t)
}

/// A prompt encoded with a trailing `+`: it must not make the prompt line
/// read as the input-list tag.
pub open spec fn spec_plus_prompt_ok(t: Seq<char>) -> bool {
    spec_text_ok(t) && !spec_ends_with(t + "+"@, " [INPUT LIST] +"@)
}

/// The questions the authored notation represents faithfully: five of the
/// seven kinds (ranking and input-list blocks are rejected by the parser),
/// narrowed to prompts and labels whose encoding reads back unambiguously.
/// For every such question, parsing its encoding yields it back.
pub open spec fn spec_authored_representable(q: QuestionModel) -> bool {
    match q.answers {
        AnswersModel::FreeForm => spec_plus_prompt_ok(q.text),
        AnswersModel::RatingScale => spec_plain_prompt_ok(q.text),
        AnswersModel::SelectOne(options) => spec_plain_prompt_ok(q.text) && options.len() > 0
            && spec_labels_ok(options) && options[0] != "*****"@ && !spec_starts_with(
            options[0],
            " [RANKING]"@,
        ),
        AnswersModel::SelectMany(options) => spec_plus_prompt_ok(q.text) && options.len() > 0
            && spec_labels_ok(options),
        AnswersModel::Matrix { rows, columns } => spec_plus_prompt_ok(q.text) && rows.len() > 0
            && spec_labels_ok(rows) && columns.len() > 0 && (forall|m: int|
            0 <= m < columns.len() ==> spec_column_ok(#[trigger] columns[m])),
        AnswersModel::Ranking(_) => false,
        AnswersModel::InputList(_) => false,
    }
}

/// The encoded option lines of a label list, sentinel marking applied.
pub open spec fn spec_marked_lines(labels: Seq<Seq<char>>) -> Seq<Seq<char>> {
    labels.map_values(|l: Seq<char>| crate::txt_writer::spec_answer_line(l))
}

/// The encoded block of a representable question, as its sequence of
/// lines, the terminating blank line included.
pub open spec fn spec_block_lines(q: QuestionModel) -> Seq<Seq<char>> {
    match q.answers {
        AnswersModel::FreeForm => seq![q.text + "+"@, Seq::<char>::empty(), Seq::<char>::empty()],
        AnswersModel::RatingScale => seq![q.text, "*****"@, Seq::<char>::empty()],
        AnswersModel::SelectOne(options) => seq![q.text] + spec_marked_lines(options) + seq![
            Seq::<char>::empty(),
        ],
        AnswersModel::SelectMany(options) => seq![q.text + "+"@, Seq::<char>::empty()]
            + spec_marked_lines(options) + seq![Seq::<char>::empty()],
        AnswersModel::Matrix { rows, columns } => seq![
            q.text + "+"@,
            crate::txt_writer::spec_join_columns(columns),
        ] + spec_marked_lines(rows) + seq![Seq::<char>::empty()],
        AnswersModel::Ranking(_) => Seq::empty(),
        AnswersModel::InputList(_) => Seq::empty(),
    }
}

/// The encoded lines of a whole question sequence.
pub open spec fn spec_all_block_lines(qs: Seq<QuestionModel>) -> Seq<Seq<char>>
    decreases qs.len(),
{
    if qs.len() == 0 {
        Seq::empty()
    } else {
        spec_block_lines(qs[0]) + spec_all_block_lines(qs.drop_first())
    }
}

/// Whether the line's last character is `+`.
fn ends_with_plus(l: &String) -> (r: bool)
    ensures
        r == (l@.len() > 0 && l@[l@.len() - 1] == '+'),
{
    let n = l.as_str().unicode_len();
    n > 0 && l.as_str().get_char(n - 1) == '+'
}

/// Whether the prompt line carries the input-list tag.
fn has_input_list_tag(l: &String) -> (r: bool)
    ensures
        r == spec_ends_with(l@, " [INPUT LIST] +"@),
{
    proof {
        reveal_strlit(" [INPUT LIST] +");
    }
    let n = l.as_str().unicode_len();
    if n < 15 {
        return false;
    }
    let suffix = String::from_str(l.as_str().substring_char(n - 15, n));
    let tag = String::from_str(" [INPUT LIST] +");
    suffix == tag
}

/// Whether the line carries the ranking tag.
fn has_ranking_tag(l: &String) -> (r: bool)
    ensures
        r == spec_starts_with(l@, " [RANKING]"@),
{
    proof {
        reveal_strlit(" [RANKING]");
    }
    let n = l.as_str().unicode_len();
    if n < 10 {
        return false;
    }
    let prefix = String::from_str(l.as_str().substring_char(0, 10));
    let tag = String::from_str(" [RANKING]");
    prefix == tag
}

/// Whether the line is the rating-scale marker.
fn is_scale_marker(l: &String) -> (r: bool)
    ensures
        r == (l@ == "*****"@),
{
    let marker = String::from_str("*****");
    *l == marker
}

/// The index of the first blank line at or after `from`.
fn find_blank(lines: &Vec<String>, from: usize) -> (j: usize)
    requires
        from <= lines.len(),
    ensures
        j == first_blank_at(lines.deep_view(), from as int),
        from <= j <= lines.len(),
{
    let ghost dv = lines.deep_view();
    let mut j = from;
    while j < lines.len()
        invariant
            from <= j <= lines.len(),
            dv == lines.deep_view(),
            dv.len() == lines.len(),
            first_blank_at(dv, from as int) == first_blank_at(dv, j as int),
        decreases lines.len() - j,
    {
        proof {
            assert(dv[j as int] == lines@[j as int]@);
        }
        if lines[j].as_str().is_empty() {
            return j;
        }
        j = j + 1;
    }
    j
}

/// Undoes the `"other"` sentinel marking on one option line.
fn strip_marker(l: &String) -> (r: String)
    ensures
        r@ == spec_strip_marker(l@),
{
    let n = l.as_str().unicode_len();
    if n > 0 && l.as_str().get_char(n - 1) == '+' {
        let head = l.as_str().substring_char(0, n - 1);
        proof {
            assert(head@ =~= l@.drop_last());
        }
        if crate::txt_writer::label_is_other(head) {
            return String::from_str(head);
        }
    }
    l.clone()
}

/// The lines `[from, to)` with the sentinel marking undone on each.
fn strip_range(lines: &Vec<String>, from: usize, to: usize) -> (out: Vec<String>)
    requires
        from <= to <= lines.len(),
    ensures
        out.deep_view() == lines.deep_view().subrange(from as int, to as int).map_values(
            |l: Seq<char>| spec_strip_marker(l),
        ),
{
    let ghost dv = lines.deep_view();
    let ghost target = dv.subrange(from as int, to as int).map_values(
        |l: Seq<char>| spec_strip_marker(l),
    );
    let mut out: Vec<String> = Vec::new();
    let mut m = from;
    proof {
        assert(out.deep_view() =~= target.take(0));
    }
    while m < to
        invariant
            from <= m <= to <= lines.len(),
            dv == lines.deep_view(),
            dv.len() == lines.len(),
            target == dv.subrange(from as int, to as int).map_values(
                |l: Seq<char>| spec_strip_marker(l),
            ),
            out.deep_view() == target.take(m - from),
        decreases to - m,
    {
        let stripped = strip_marker(&lines[m]);
        let ghost pre = out;
        out.push(stripped);
        proof {
            crate::lemma_deep_view_push(pre, out, stripped);
            assert(dv[m as int] == lines@[m as int]@);
            assert(target[m - from] == spec_strip_marker(dv[m as int]));
            assert(out.deep_view() =~= target.take(m - from + 1));
        }
        m = m + 1;
    }
    proof {
        assert(target.take(to - from) =~= target);
    }
    out
}

/// Parses one question block starting at line `i`: the question and the
/// number of lines consumed, or the error locating block `q`.
fn parse_block(lines: &Vec<String>, i: usize, q: usize) -> (r: Result<
    (Question, usize),
    FormatError,
>)
    requires
        i < lines.len(),
    ensures
        r matches Ok(pair) ==> spec_parse_block(lines.deep_view(), i as int, q as int) == Ok::<
            _,
            FormatErrorModel,
        >((pair.0@, pair.1 as int)),
        r matches Err(e) ==> spec_parse_block(lines.deep_view(), i as int, q as int) == Err::<
            (QuestionModel, int),
            _,
        >(e@),
{
    let ghost dv = lines.deep_view();
    proof {
        assert(dv[i as int] == lines@[i as int]@);
    }
    let n = lines[i].as_str().unicode_len();
    if n == 0 {
        return Err(
            FormatError { line: i + 1, question: q, kind: FormatErrorKind::MissingPrompt },
        );
    }
    if has_input_list_tag(&lines[i]) {
        return Err(
            FormatError { line: i + 1, question: q, kind: FormatErrorKind::InputListUnsupported },
        );
    }
    if ends_with_plus(&lines[i]) {
        let text = String::from_str(lines[i].as_str().substring_char(0, n - 1));
        proof {
            assert(text@ =~= dv[i as int].drop_last());
        }
        if i + 1 >= lines.len() {
            return Err(
                FormatError { line: i + 1, question: q, kind: FormatErrorKind::UnterminatedBlock },
            );
        }
        proof {
            assert(dv[i + 1] == lines@[i + 1]@);
        }
        if lines[i + 1].as_str().is_empty() {
            if i + 2 >= lines.len() {
                return Err(
                    FormatError {
                        line: i + 1,
                        question: q,
                        kind: FormatErrorKind::UnterminatedBlock,
                    },
                );
            }
            proof {
                assert(dv[i + 2] == lines@[i + 2]@);
            }
            if lines[i + 2].as_str().is_empty() {
                return Ok((Question { text, answers: Answers::FreeForm }, 3));
            }
            let j = find_blank(lines, i + 2);
            if j >= lines.len() {
                return Err(
                    FormatError {
                        line: i + 1,
                        question: q,
                        kind: FormatErrorKind::UnterminatedBlock,
                    },
                );
            }
            let options = strip_range(lines, i + 2, j);
            return Ok((Question { text, answers: Answers::SelectMany(options) }, j - i + 1));
        }
        let columns = split_char(lines[i + 1].as_str(), '|');
        if i + 2 >= lines.len() {
            return Err(
                FormatError { line: i + 1, question: q, kind: FormatErrorKind::UnterminatedBlock },
            );
        }
        proof {
            assert(dv[i + 2] == lines@[i + 2]@);
        }
        if lines[i + 2].as_str().is_empty() {
            return Err(
                FormatError { line: i + 1, question: q, kind: FormatErrorKind::MissingAnswers },
            );
        }
        let j = find_blank(lines, i + 2);
        if j >= lines.len() {
            return Err(
                FormatError { line: i + 1, question: q, kind: FormatErrorKind::UnterminatedBlock },
            );
        }
        let rows = strip_range(lines, i + 2, j);
        return Ok((Question { text, answers: Answers::Matrix { rows, columns } }, j - i + 1));
    }
    if i + 1 >= lines.len() {
        return Err(
            FormatError { line: i + 1, question: q, kind: FormatErrorKind::MissingAnswers },
        );
    }
    proof {
        assert(dv[i + 1] == lines@[i + 1]@);
    }
    if has_ranking_tag(&lines[i + 1]) {
        return Err(
            FormatError { line: i + 1, question: q, kind: FormatErrorKind::RankingUnsupported },
        );
    }
    if is_scale_marker(&lines[i + 1]) {
        if i + 2 >= lines.len() {
            return Err(
                FormatError { line: i + 1, question: q, kind: FormatErrorKind::UnterminatedBlock },
            );
        }
        proof {
            assert(dv[i + 2] == lines@[i + 2]@);
        }
        if !lines[i + 2].as_str().is_empty() {
            return Err(
                FormatError { line: i + 1, question: q, kind: FormatErrorKind::UnterminatedBlock },
            );
        }
        return Ok((Question { text: lines[i].clone(), answers: Answers::RatingScale }, 3));
    }
    if lines[i + 1].as_str().is_empty() {
        return Err(
            FormatError { line: i + 1, question: q, kind: FormatErrorKind::MissingAnswers },
        );
    }
    let j = find_blank(lines, i + 1);
    if j >= lines.len() {
        return Err(
            FormatError { line: i + 1, question: q, kind: FormatErrorKind::UnterminatedBlock },
        );
    }
    let options = strip_range(lines, i + 1, j);
    Ok((Question { text: lines[i].clone(), answers: Answers::SelectOne(options) }, j - i + 1))
}

/// Parses every question block from line `i` on, numbering questions from
/// `q`.
fn parse_blocks(lines: &Vec<String>, i: usize, q: usize) -> (r: Result<Vec<Question>, FormatError>)
    requires
        i <= lines.len(),
        q <= i + 1,
    ensures
        r matches Ok(v) ==> spec_parse_blocks(lines.deep_view(), i as int, q as int) == Ok::<
            _,
            FormatErrorModel,
        >(v.deep_view()),
        r matches Err(e) ==> spec_parse_blocks(lines.deep_view(), i as int, q as int) == Err::<
            Seq<QuestionModel>,
            _,
        >(e@),
    decreases lines.len() - i,
{
    let ghost dv = lines.deep_view();
    if i >= lines.len() {
        let empty: Vec<Question> = Vec::new();
        proof {
            assert(empty.deep_view() =~= Seq::<QuestionModel>::empty());
        }
        return Ok(empty);
    }
    match parse_block(lines, i, q) {
        Err(e) => Err(e),
        Ok((question, k)) => {
            let kk = if 1 <= k && k <= lines.len() - i {
                k
            } else {
                lines.len() - i
            };
            let next = i + kk;
            if next >= lines.len() {
                let mut only: Vec<Question> = Vec::new();
                only.push(question);
                proof {
                    assert(spec_parse_blocks(dv, next as int, q + 1) == Ok::<
                        _,
                        FormatErrorModel,
                    >(Seq::<QuestionModel>::empty()));
                    assert(only.deep_view() =~= seq![question@] + Seq::<QuestionModel>::empty());
                }
                return Ok(only);
            }
            match parse_blocks(lines, next, q + 1) {
                Err(e) => Err(e),
                Ok(mut rest) => {
                    let ghost pre = rest;
                    rest.insert(0, question);
                    proof {
                        assert forall|m: int| 0 <= m < rest.deep_view().len() implies
                            rest.deep_view()[m] == (seq![question@] + pre.deep_view())[m] by {
                            if m == 0 {
                                assert(rest@[0] == question);
                            } else {
                                assert(rest@[m] == pre@[m - 1]);
                            }
                        }
                        assert(rest.deep_view() =~= seq![question@] + pre.deep_view());
                    }
                    Ok(rest)
                },
            }
        },
    }
}

/// Parses the full text of an authored survey file into the ordered
/// sequence of questions it encodes, preserving source order exactly, or
/// fails with the first [`FormatError`], located by line and question
/// index.
///
/// The notation supports five of the seven question kinds; a block tagged
/// as a ranking or input-list question is rejected rather than guessed at.
pub fn parse(contents: &str) -> (r: Result<Vec<Question>, FormatError>)
    ensures
        r matches Ok(v) ==> spec_parse(contents@) == Ok::<_, FormatErrorModel>(v.deep_view()),
        r matches Err(e) ==> spec_parse(contents@) == Err::<Seq<QuestionModel>, _>(e@),
{
    let mut lines = split_char(contents, '\n');
    let ghost full = lines.deep_view();
    if lines.len() > 0 && lines[lines.len() - 1].as_str().is_empty() {
        proof {
            assert(full[lines@.len() - 1] == lines@[lines@.len() - 1]@);
        }
        let ghost pre = lines;
        lines.pop();
        proof {
            assert forall|m: int| 0 <= m < lines.deep_view().len() implies lines.deep_view()[m]
                == full.drop_last()[m] by {
                assert(lines@[m] == pre@[m]);
            }
            assert(lines.deep_view() =~= full.drop_last());
        }
    }
    parse_blocks(&lines, 0, 1)
}

/// An encoded option line is non-empty, newline-free, and stripping the
/// sentinel marking recovers the label.
proof fn lemma_answer_line_props(l: Seq<char>)
    requires
        spec_label_ok(l),
    ensures
        crate::txt_writer::spec_answer_line(l).len() > 0,
        forall|m: int| 0 <= m < crate::txt_writer::spec_answer_line(l).len()
            ==> crate::txt_writer::spec_answer_line(l)[m] != '\n',
        spec_strip_marker(crate::txt_writer::spec_answer_line(l)) == l,
{
    reveal_strlit("+");
    assert("+"@ =~= seq!['+']);
    let line = crate::txt_writer::spec_answer_line(l);
    if crate::txt_writer::is_other_label(l) {
        assert(line =~= l.push('+'));
        assert(line.drop_last() =~= l);
        assert(line[line.len() - 1] == '+');
        assert(spec_strip_marker(line) == l);
    } else {
        assert(line == l);
    }
}

/// A joined column header is non-empty and newline-free, and splitting it
/// at `|` recovers the columns.
proof fn lemma_join_columns_props(columns: Seq<Seq<char>>)
    requires
        columns.len() > 0,
        forall|m: int| 0 <= m < columns.len() ==> spec_column_ok(#[trigger] columns[m]),
    ensures
        crate::txt_writer::spec_join_columns(columns).len() > 0,
        forall|m: int| 0 <= m < crate::txt_writer::spec_join_columns(columns).len()
            ==> crate::txt_writer::spec_join_columns(columns)[m] != '\n',
        spec_split(crate::txt_writer::spec_join_columns(columns), '|') == columns,
    decreases columns.len(),
{
    reveal_strlit("|");
    assert("|"@ =~= seq!['|']);
    let joined = crate::txt_writer::spec_join_columns(columns);
    if columns.len() == 1 {
        assert(joined == columns[0]);
        lemma_split_no_sep(columns[0], '|');
        assert(spec_split(joined, '|') =~= columns);
    } else {
        assert(spec_column_ok(columns.drop_first()[0]));
        assert(forall|m: int| 0 <= m < columns.drop_first().len()
            ==> spec_column_ok(#[trigger] columns.drop_first()[m]));
        lemma_join_columns_props(columns.drop_first());
        let rest = crate::txt_writer::spec_join_columns(columns.drop_first());
        assert(joined == columns[0] + "|"@ + rest);
        assert(joined =~= columns[0] + seq!['|'] + rest);
        lemma_split_peel(columns[0], rest, '|');
        assert(spec_split(joined, '|') == seq![columns[0]] + spec_split(rest, '|'));
        assert(seq![columns[0]] + columns.drop_first() =~= columns);
    }
}

/// Splitting the encoded option lines followed by anything else peels off
/// exactly the marked lines.
proof fn lemma_answers_split(labels: Seq<Seq<char>>, rest: Seq<char>)
    requires
        spec_labels_ok(labels),
    ensures
        spec_split(crate::txt_writer::spec_encode_answers(labels) + rest, '\n')
            == spec_marked_lines(labels) + spec_split(rest, '\n'),
    decreases labels.len(),
{
    reveal_strlit("\n");
    assert("\n"@ =~= seq!['\n']);
    if labels.len() == 0 {
        assert(crate::txt_writer::spec_encode_answers(labels) + rest =~= rest);
        assert(spec_marked_lines(labels) =~= Seq::<Seq<char>>::empty());
        assert(spec_marked_lines(labels) + spec_split(rest, '\n') =~= spec_split(rest, '\n'));
    } else {
        let l0 = labels[0];
        let line = crate::txt_writer::spec_answer_line(l0);
        assert(spec_label_ok(l0));
        lemma_answer_line_props(l0);
        let tail = crate::txt_writer::spec_encode_answers(labels.drop_first());
        assert(crate::txt_writer::spec_encode_answers(labels) == line + "\n"@ + tail);
        assert(crate::txt_writer::spec_encode_answers(labels) + rest =~= line + seq!['\n'] + (
        tail + rest));
        lemma_split_peel(line, tail + rest, '\n');
        assert(forall|m: int| 0 <= m < labels.drop_first().len()
            ==> spec_label_ok(#[trigger] labels.drop_first()[m]));
        lemma_answers_split(labels.drop_first(), rest);
        assert(spec_split(crate::txt_writer::spec_encode_answers(labels) + rest, '\n')
            == seq![line] + (spec_marked_lines(labels.drop_first()) + spec_split(rest, '\n')));
        assert(seq![line] + spec_marked_lines(labels.drop_first()) =~= spec_marked_lines(labels));
        assert(seq![line] + (spec_marked_lines(labels.drop_first()) + spec_split(rest, '\n'))
            =~= spec_marked_lines(labels) + spec_split(rest, '\n'));
    }
}

/// Splitting the encoded block of a representable question followed by
/// anything else peels off exactly its block lines.
#[verifier::rlimit(50)]
proof fn lemma_block_split(q: QuestionModel, rest: Seq<char>)
    requires
        spec_authored_representable(q),
    ensures
        spec_split(crate::txt_writer::spec_encode_question(q) + rest, '\n') == spec_block_lines(q)
            + spec_split(rest, '\n'),
{
    reveal_strlit("+");
    reveal_strlit("\n");
    reveal_strlit("*****");
    reveal_strlit("+\n\n\n");
    reveal_strlit("\n*****\n\n");
    reveal_strlit("+\n\n");
    reveal_strlit("+\n");
    let t = q.text;
    let nl = seq!['\n'];
    let e = Seq::<char>::empty();
    let s = crate::txt_writer::spec_encode_question(q) + rest;
    assert(forall|m: int| 0 <= m < (t + "+"@).len() ==> (t + "+"@)[m] != '\n');
    match q.answers {
        AnswersModel::FreeForm => {
            assert(s =~= (t + "+"@) + nl + (e + nl + (e + nl + rest)));
            lemma_split_peel(t + "+"@, e + nl + (e + nl + rest), '\n');
            lemma_split_peel(e, e + nl + rest, '\n');
            lemma_split_peel(e, rest, '\n');
            assert(spec_split(s, '\n') =~= spec_block_lines(q) + spec_split(rest, '\n'));
        },
        AnswersModel::RatingScale => {
            assert("*****"@ =~= seq!['*', '*', '*', '*', '*']);
            assert(s =~= t + nl + ("*****"@ + nl + (e + nl + rest)));
            lemma_split_peel(t, "*****"@ + nl + (e + nl + rest), '\n');
            lemma_split_peel("*****"@, e + nl + rest, '\n');
            lemma_split_peel(e, rest, '\n');
            assert(spec_split(s, '\n') =~= spec_block_lines(q) + spec_split(rest, '\n'));
        },
        AnswersModel::SelectOne(options) => {
            let enc = crate::txt_writer::spec_encode_answers(options);
            assert(s =~= t + nl + (enc + (e + nl + rest)));
            lemma_split_peel(t, enc + (e + nl + rest), '\n');
            lemma_answers_split(options, e + nl + rest);
            lemma_split_peel(e, rest, '\n');
            assert(spec_split(s, '\n') =~= spec_block_lines(q) + spec_split(rest, '\n'));
        },
        AnswersModel::SelectMany(options) => {
            let enc = crate::txt_writer::spec_encode_answers(options);
            assert(s =~= (t + "+"@) + nl + (e + nl + (enc + (e + nl + rest))));
            lemma_split_peel(t + "+"@, e + nl + (enc + (e + nl + rest)), '\n');
            lemma_split_peel(e, enc + (e + nl + rest), '\n');
            lemma_answers_split(options, e + nl + rest);
            lemma_split_peel(e, rest, '\n');
            assert(spec_split(s, '\n') =~= spec_block_lines(q) + spec_split(rest, '\n'));
        },
        AnswersModel::Matrix { rows, columns } => {
            let enc = crate::txt_writer::spec_encode_answers(rows);
            let joined = crate::txt_writer::spec_join_columns(columns);
            lemma_join_columns_props(columns);
            assert(s =~= (t + "+"@) + nl + (joined + nl + (enc + (e + nl + rest))));
            lemma_split_peel(t + "+"@, joined + nl + (enc + (e + nl + rest)), '\n');
            lemma_split_peel(joined, enc + (e + nl + rest), '\n');
            lemma_answers_split(rows, e + nl + rest);
            lemma_split_peel(e, rest, '\n');
            assert(spec_split(s, '\n') =~= spec_block_lines(q) + spec_split(rest, '\n'));
        },
        AnswersModel::Ranking(_) => {},
        AnswersModel::InputList(_) => {},
    }
}

/// Between `a` and the blank line at `b` every line is non-empty, so `b`
/// is the first blank at or after `a`.
proof fn lemma_first_blank_value(ls: Seq<Seq<char>>, a: int, b: int)
    requires
        0 <= a <= b < ls.len(),
        forall|m: int| a <= m < b ==> #[trigger] ls[m].len() > 0,
        ls[b].len() == 0,
    ensures
        first_blank_at(ls, a) == b,
    decreases b - a,
{
    if a < b {
        lemma_first_blank_value(ls, a + 1, b);
    }
}

/// Parsing at the start of a representable question's encoded block
/// yields that question and consumes exactly its block lines.
#[verifier::rlimit(80)]
proof fn lemma_parse_block_at(
    ls: Seq<Seq<char>>,
    i: int,
    q: int,
    qm: QuestionModel,
    suffix: Seq<Seq<char>>,
)
    requires
        spec_authored_representable(qm),
        0 <= i <= ls.len(),
        ls.skip(i) == spec_block_lines(qm) + suffix,
    ensures
        3 <= spec_block_lines(qm).len(),
        spec_parse_block(ls, i, q) == Ok::<_, FormatErrorModel>(
            (qm, spec_block_lines(qm).len() as int),
        ),
{
    reveal_strlit("+");
    reveal_strlit("*****");
    reveal_strlit(" [RANKING]");
    reveal_strlit(" [INPUT LIST] +");
    assert("+"@ =~= seq!['+']);
    let b = spec_block_lines(qm);
    let t = qm.text;
    let e = Seq::<char>::empty();
    assert(ls.skip(i).len() == ls.len() - i);
    assert forall|m: int| 0 <= m < b.len() implies ls[i + m] == #[trigger] b[m] by {
        assert(ls.skip(i)[m] == ls[i + m]);
        assert((b + suffix)[m] == b[m]);
    }
    match qm.answers {
        AnswersModel::FreeForm => {
            assert(b =~= seq![t + "+"@, e, e]);
            assert(b[0] == t + "+"@);
            assert(b[1] == e);
            assert(b[2] == e);
            assert(ls[i] == t + "+"@);
            assert(ls[i].len() == t.len() + 1);
            assert(ls[i][ls[i].len() - 1] == '+');
            assert(ls[i].drop_last() =~= t);
            assert(ls[i + 1].len() == 0);
            assert(ls[i + 2].len() == 0);
            assert(spec_parse_block(ls, i, q) == Ok::<_, FormatErrorModel>((qm, 3int)));
        },
        AnswersModel::RatingScale => {
            assert(b =~= seq![t, "*****"@, e]);
            assert(b[0] == t);
            assert(b[1] == "*****"@);
            assert(b[2] == e);
            assert(ls[i] == t);
            assert(ls[i + 1] == "*****"@);
            assert(!spec_ends_with(t, " [INPUT LIST] +"@)) by {
                if spec_ends_with(t, " [INPUT LIST] +"@) {
                    assert(t.subrange(t.len() - 15, t.len() as int)[14] == t[t.len() - 1]);
                    assert(t[t.len() - 1] == '+');
                }
            }
            assert(!spec_starts_with(ls[i + 1], " [RANKING]"@)) by {
                assert("*****"@.len() == 5);
                assert(" [RANKING]"@.len() == 10);
            }
            assert(ls[i + 2].len() == 0);
            assert(spec_parse_block(ls, i, q) == Ok::<_, FormatErrorModel>((qm, 3int)));
        },
        AnswersModel::SelectOne(options) => {
            let n = options.len() as int;
            let marked = spec_marked_lines(options);
            assert(b =~= seq![t] + marked + seq![e]);
            assert(b.len() == n + 2);
            assert(b[0] == t);
            assert(b[n + 1] == e);
            assert(ls[i] == t);
            assert(!spec_ends_with(t, " [INPUT LIST] +"@)) by {
                if spec_ends_with(t, " [INPUT LIST] +"@) {
                    assert(t.subrange(t.len() - 15, t.len() as int)[14] == t[t.len() - 1]);
                    assert(t[t.len() - 1] == '+');
                }
            }
            let line0 = crate::txt_writer::spec_answer_line(options[0]);
            assert(ls[i + 1] == b[1]);
            assert(b[1] == marked[0]);
            assert(marked[0] == line0);
            assert(spec_label_ok(options[0]));
            lemma_answer_line_props(options[0]);
            assert(!spec_starts_with(line0, " [RANKING]"@)) by {
                assert(" [RANKING]"@.len() == 10);
                if crate::txt_writer::is_other_label(options[0]) {
                    assert(line0.len() == 6);
                } else {
                    assert(line0 == options[0]);
                }
            }
            assert(line0 != "*****"@) by {
                assert("*****"@.len() == 5);
                if crate::txt_writer::is_other_label(options[0]) {
                    assert(line0.len() == 6);
                } else {
                    assert(line0 == options[0]);
                }
            }
            assert forall|m: int| i + 1 <= m < i + 1 + n implies #[trigger] ls[m].len() > 0 by {
                assert(ls[m] == b[m - i]);
                assert(b[m - i] == marked[m - i - 1]);
                assert(spec_label_ok(options[m - i - 1]));
                lemma_answer_line_props(options[m - i - 1]);
            }
            assert(ls[i + 1 + n] == b[n + 1]);
            assert(ls[i + 1 + n].len() == 0);
            lemma_first_blank_value(ls, i + 1, i + 1 + n);
            let j = first_blank_at(ls, i + 1);
            assert(j == i + 1 + n);
            assert forall|m: int| 0 <= m < n implies ls[i + 1 + m] == #[trigger] marked[m] by {
                assert(b[m + 1] == marked[m]);
            }
            assert(ls.subrange(i + 1, j) =~= marked);
            let stripped = ls.subrange(i + 1, j).map_values(|l: Seq<char>| spec_strip_marker(l));
            assert forall|m: int| 0 <= m < n implies stripped[m] == options[m] by {
                assert(spec_label_ok(options[m]));
                lemma_answer_line_props(options[m]);
                assert(marked[m] == crate::txt_writer::spec_answer_line(options[m]));
            }
            assert(stripped =~= options);
            assert(spec_parse_block(ls, i, q) == Ok::<_, FormatErrorModel>((qm, n + 2int)));
        },
        AnswersModel::SelectMany(options) => {
            let n = options.len() as int;
            let marked = spec_marked_lines(options);
            assert(b =~= seq![t + "+"@, e] + marked + seq![e]);
            assert(b.len() == n + 3);
            assert(b[0] == t + "+"@);
            assert(b[1] == e);
            assert(b[n + 2] == e);
            assert(ls[i] == t + "+"@);
            assert(ls[i].len() == t.len() + 1);
            assert(ls[i][ls[i].len() - 1] == '+');
            assert(ls[i].drop_last() =~= t);
            assert(ls[i + 1].len() == 0);
            assert(ls[i + 2] == b[2]);
            assert(b[2] == marked[0]);
            assert(spec_label_ok(options[0]));
            lemma_answer_line_props(options[0]);
            assert forall|m: int| i + 2 <= m < i + 2 + n implies #[trigger] ls[m].len() > 0 by {
                assert(ls[m] == b[m - i]);
                assert(b[m - i] == marked[m - i - 2]);
                assert(spec_label_ok(options[m - i - 2]));
                lemma_answer_line_props(options[m - i - 2]);
            }
            assert(ls[i + 2 + n] == b[n + 2]);
            assert(ls[i + 2 + n].len() == 0);
            lemma_first_blank_value(ls, i + 2, i + 2 + n);
            let j = first_blank_at(ls, i + 2);
            assert(j == i + 2 + n);
            assert forall|m: int| 0 <= m < n implies ls[i + 2 + m] == #[trigger] marked[m] by {
                assert(b[m + 2] == marked[m]);
            }
            assert(ls.subrange(i + 2, j) =~= marked);
            let stripped = ls.subrange(i + 2, j).map_values(|l: Seq<char>| spec_strip_marker(l));
            assert forall|m: int| 0 <= m < n implies stripped[m] == options[m] by {
                assert(spec_label_ok(options[m]));
                lemma_answer_line_props(options[m]);
                assert(marked[m] == crate::txt_writer::spec_answer_line(options[m]));
            }
            assert(stripped =~= options);
            assert(spec_parse_block(ls, i, q) == Ok::<_, FormatErrorModel>((qm, n + 3int)));
        },
        AnswersModel::Matrix { rows, columns } => {
            let n = rows.len() as int;
            let marked = spec_marked_lines(rows);
            let joined = crate::txt_writer::spec_join_columns(columns);
            assert(b =~= seq![t + "+"@, joined] + marked + seq![e]);
            assert(b.len() == n + 3);
            assert(b[0] == t + "+"@);
            assert(b[1] == joined);
            assert(b[n + 2] == e);
            assert(ls[i] == t + "+"@);
            assert(ls[i].len() == t.len() + 1);
            assert(ls[i][ls[i].len() - 1] == '+');
            assert(ls[i].drop_last() =~= t);
            lemma_join_columns_props(columns);
            assert(ls[i + 1] == joined);
            assert(ls[i + 1].len() > 0);
            assert(spec_split(ls[i + 1], '|') == columns);
            assert(ls[i + 2] == b[2]);
            assert(b[2] == marked[0]);
            assert(spec_label_ok(rows[0]));
            lemma_answer_line_props(rows[0]);
            assert forall|m: int| i + 2 <= m < i + 2 + n implies #[trigger] ls[m].len() > 0 by {
                assert(ls[m] == b[m - i]);
                assert(b[m - i] == marked[m - i - 2]);
                assert(spec_label_ok(rows[m - i - 2]));
                lemma_answer_line_props(rows[m - i - 2]);
            }
            assert(ls[i + 2 + n] == b[n + 2]);
            assert(ls[i + 2 + n].len() == 0);
            lemma_first_blank_value(ls, i + 2, i + 2 + n);
            let j = first_blank_at(ls, i + 2);
            assert(j == i + 2 + n);
            assert forall|m: int| 0 <= m < n implies ls[i + 2 + m] == #[trigger] marked[m] by {
                assert(b[m + 2] == marked[m]);
            }
            assert(ls.subrange(i + 2, j) =~= marked);
            let stripped = ls.subrange(i + 2, j).map_values(|l: Seq<char>| spec_strip_marker(l));
            assert forall|m: int| 0 <= m < n implies stripped[m] == rows[m] by {
                assert(spec_label_ok(rows[m]));
                lemma_answer_line_props(rows[m]);
                assert(marked[m] == crate::txt_writer::spec_answer_line(rows[m]));
            }
            assert(stripped =~= rows);
            assert(spec_parse_block(ls, i, q) == Ok::<_, FormatErrorModel>((qm, n + 3int)));
        },
        AnswersModel::Ranking(_) => {},
        AnswersModel::InputList(_) => {},
    }
}

/// Splitting the encoding of a representable question sequence yields the
/// blocks' lines followed by the one empty part the final newline opens.
proof fn lemma_questions_split(qs: Seq<QuestionModel>)
    requires
        forall|m: int| 0 <= m < qs.len() ==> spec_authored_representable(#[trigger] qs[m]),
    ensures
        spec_split(crate::txt_writer::spec_encode_questions(qs), '\n') == spec_all_block_lines(qs)
            + seq![Seq::<char>::empty()],
    decreases qs.len(),
{
    if qs.len() == 0 {
        assert(crate::txt_writer::spec_encode_questions(qs) == Seq::<char>::empty());
        assert(spec_all_block_lines(qs) + seq![Seq::<char>::empty()] =~= seq![
            Seq::<char>::empty(),
        ]);
    } else {
        let rest = crate::txt_writer::spec_encode_questions(qs.drop_first());
        assert(crate::txt_writer::spec_encode_questions(qs)
            == crate::txt_writer::spec_encode_question(qs[0]) + rest);
        lemma_block_split(qs[0], rest);
        assert(forall|m: int| 0 <= m < qs.drop_first().len() ==> spec_authored_representable(
            #[trigger] qs.drop_first()[m],
        ));
        lemma_questions_split(qs.drop_first());
        assert(spec_all_block_lines(qs) == spec_block_lines(qs[0]) + spec_all_block_lines(
            qs.drop_first(),
        ));
        assert(spec_block_lines(qs[0]) + (spec_all_block_lines(qs.drop_first()) + seq![
            Seq::<char>::empty(),
        ]) =~= spec_all_block_lines(qs) + seq![Seq::<char>::empty()]);
    }
}

/// Parsing from position `i` of lines that hold exactly the encoded
/// blocks of `qs` yields `qs`.
proof fn lemma_parse_blocks_at(qs: Seq<QuestionModel>, ls: Seq<Seq<char>>, i: int, q: int)
    requires
        forall|m: int| 0 <= m < qs.len() ==> spec_authored_representable(#[trigger] qs[m]),
        0 <= i <= ls.len(),
        ls.skip(i) == spec_all_block_lines(qs),
    ensures
        spec_parse_blocks(ls, i, q) == Ok::<_, FormatErrorModel>(qs),
    decreases qs.len(),
{
    assert(ls.skip(i).len() == ls.len() - i);
    if qs.len() == 0 {
        assert(ls.len() - i == 0);
        assert(qs =~= Seq::<QuestionModel>::empty());
    } else {
        let b = spec_block_lines(qs[0]);
        let suffix = spec_all_block_lines(qs.drop_first());
        assert(spec_all_block_lines(qs) == b + suffix);
        lemma_parse_block_at(ls, i, q, qs[0], suffix);
        assert(i + b.len() <= ls.len());
        assert forall|m: int| 0 <= m < ls.skip(i + b.len() as int).len() implies ls.skip(
            i + b.len() as int,
        )[m] == suffix[m] by {
            assert(ls.skip(i + b.len() as int)[m] == ls[i + b.len() + m]);
            assert(ls.skip(i)[b.len() + m] == ls[i + (b.len() + m)]);
            assert((b + suffix)[b.len() + m] == suffix[m]);
        }
        assert(ls.skip(i + b.len() as int) =~= suffix);
        assert(forall|m: int| 0 <= m < qs.drop_first().len() ==> spec_authored_representable(
            #[trigger] qs.drop_first()[m],
        ));
        lemma_parse_blocks_at(qs.drop_first(), ls, i + b.len() as int, q + 1);
        assert(spec_parse_blocks(ls, i, q) == Ok::<_, FormatErrorModel>(
            seq![qs[0]] + qs.drop_first(),
        ));
        assert(seq![qs[0]] + qs.drop_first() =~= qs);
    }
}

/// Round trip: the parser is the exact left inverse of the encoder on the
/// kinds the authored notation represents.  Encoding any sequence of
/// representable questions and parsing the result yields the sequence
/// back, unchanged.
pub proof fn lemma_parse_encode_round_trip(qs: Seq<QuestionModel>)
    requires
        forall|m: int| 0 <= m < qs.len() ==> spec_authored_representable(#[trigger] qs[m]),
    ensures
        spec_parse(crate::txt_writer::spec_encode_questions(qs)) == Ok::<_, FormatErrorModel>(qs),
{
    let text = crate::txt_writer::spec_encode_questions(qs);
    lemma_questions_split(qs);
    let ls = spec_split(text, '\n');
    assert(ls == spec_all_block_lines(qs) + seq![Seq::<char>::empty()]);
    assert(ls.len() >= 1);
    assert(ls.last() == Seq::<char>::empty());
    let core = ls.drop_last();
    assert(core =~= spec_all_block_lines(qs));
    assert(core.skip(0) =~= spec_all_block_lines(qs));
    lemma_parse_blocks_at(qs, core, 0, 1);
}

} // verus!
