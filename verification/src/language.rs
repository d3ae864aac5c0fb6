use vstd::prelude::*;
use crate::errors::GenericError;
use crate::ratio::Ratio;
use crate::text::{chars_of, lowercase_of, string_of, to_lowercase, trim_chars, trim_spec, trim_string};
use crate::metrics::{entries_wf, increment_count, CountMap};
use crate::table::{cell, cell_value, strings_view, CsvRecords};
use crate::text::{parse_usize, parse_usize_spec};
use crate::utils::{seeded_shuffle, seeded_vector_shuffle, u32_modulus};

verus! {

pub const SYSTEM_PROMPT: &'static str = "You are a helpful assistant who answers multiple-choice questions. For each question,\noutput your final answer in JSON format with the following structure: {\"choice\":\n\"The correct option\"}. ONLY output this format exactly. Do\nnot include any additional text or explanations outside the JSON structure.";

/// Counts and rates of a language evaluation. A rate is kept as the exact
/// fraction of two counts.
#[derive(Clone, Copy, Debug, PartialEq, Eq)]
pub struct LanguageEvaluationMetrics {
    pub overall_accuracy: Option<Ratio>,
    pub accuracy_on_valid_responses: Option<Ratio>,
    pub format_error_rate: Option<Ratio>,
    pub n: u32,
    pub error_count: u32,
    pub invalid_responses: u32,
    pub correct_responses: u32,
    pub incorrect_responses: u32,
}

/// The table with no answer counted and no rate computed.
pub open spec fn empty_language_metrics() -> LanguageEvaluationMetrics {
    LanguageEvaluationMetrics {
        overall_accuracy: None,
        accuracy_on_valid_responses: None,
        format_error_rate: None,
        n: 0,
        error_count: 0,
        invalid_responses: 0,
        correct_responses: 0,
        incorrect_responses: 0,
    }
}

/// All answers counted, call errors included.
pub open spec fn answers_spec(m: LanguageEvaluationMetrics) -> int {
    m.error_count + m.invalid_responses + m.incorrect_responses + m.correct_responses
}

/// `m` after its rates are computed: `n` is the number of answers; when some
/// answer was not a call error, the overall accuracy is the share of correct
/// answers among those and the format error rate the share of invalid answers
/// among them, and when some answer was valid the accuracy on valid answers
/// is the share of correct answers among the valid ones. Rates that are not
/// computed keep their former value.
pub open spec fn with_rates(m: LanguageEvaluationMetrics) -> LanguageEvaluationMetrics {
    let n = answers_spec(m);
    let answered = m.correct_responses + m.incorrect_responses + m.invalid_responses;
    let valid = m.correct_responses + m.incorrect_responses;
    if n > 0 && m.error_count < n {
        LanguageEvaluationMetrics {
            n: n as u32,
            overall_accuracy: Some(
                Ratio { numerator: m.correct_responses as u64, denominator: answered as u64 },
            ),
            format_error_rate: Some(
                Ratio { numerator: m.invalid_responses as u64, denominator: (n - m.error_count) as u64 },
            ),
            accuracy_on_valid_responses: if valid > 0 {
                Some(Ratio { numerator: m.correct_responses as u64, denominator: valid as u64 })
            } else {
                m.accuracy_on_valid_responses
            },
            ..m
        }
    } else {
        LanguageEvaluationMetrics { n: n as u32, ..m }
    }
}

impl Default for LanguageEvaluationMetrics {
    fn default() -> (res: Self)
        ensures
            res == empty_language_metrics(),
    {
        LanguageEvaluationMetrics::new()
    }
}

impl LanguageEvaluationMetrics {
    /// The table with no answer counted and no rate computed.
    pub fn new() -> (res: Self)
        ensures
            res == empty_language_metrics(),
    {
        LanguageEvaluationMetrics {
            overall_accuracy: None,
            accuracy_on_valid_responses: None,
            format_error_rate: None,
            n: 0,
            error_count: 0,
            invalid_responses: 0,
            incorrect_responses: 0,
            correct_responses: 0,
        }
    }

    /// Counts one failed call.
    pub fn add_error(&mut self)
        requires
            old(self).error_count < u32::MAX,
        ensures
            *final(self) == (LanguageEvaluationMetrics {
                error_count: (old(self).error_count + 1) as u32,
                ..*old(self)
            }),
    {
        self.error_count = self.error_count + 1;
    }

    /// Counts one answer that is not a valid choice.
    pub fn add_invalid(&mut self)
        requires
            old(self).invalid_responses < u32::MAX,
        ensures
            *final(self) == (LanguageEvaluationMetrics {
                invalid_responses: (old(self).invalid_responses + 1) as u32,
                ..*old(self)
            }),
    {
        self.invalid_responses = self.invalid_responses + 1;
    }

    /// Counts one wrong choice.
    pub fn add_incorrect(&mut self)
        requires
            old(self).incorrect_responses < u32::MAX,
        ensures
            *final(self) == (LanguageEvaluationMetrics {
                incorrect_responses: (old(self).incorrect_responses + 1) as u32,
                ..*old(self)
            }),
    {
        self.incorrect_responses = self.incorrect_responses + 1;
    }

    /// Counts one right choice.
    pub fn add_correct(&mut self)
        requires
            old(self).correct_responses < u32::MAX,
        ensures
            *final(self) == (LanguageEvaluationMetrics {
                correct_responses: (old(self).correct_responses + 1) as u32,
                ..*old(self)
            }),
    {
        self.correct_responses = self.correct_responses + 1;
    }

    /// Answers that were a valid choice, right or wrong.
    pub fn valid_responses(&self) -> (res: u32)
        requires
            self.correct_responses + self.incorrect_responses <= u32::MAX,
        ensures
            res == self.correct_responses + self.incorrect_responses,
    {
        self.correct_responses + self.incorrect_responses
    }

    /// Computes `n` and the rates from the counts.
    pub fn calculate_rates(&mut self)
        requires
            answers_spec(*old(self)) <= u32::MAX,
        ensures
            *final(self) == with_rates(*old(self)),
            final(self).n == old(self).error_count + old(self).invalid_responses + old(self).incorrect_responses
                + old(self).correct_responses,
            old(self).correct_responses + old(self).incorrect_responses > 0 ==> final(self).accuracy_on_valid_responses
                == Some(Ratio {
                    numerator: old(self).correct_responses as u64,
                    denominator: (old(self).correct_responses + old(self).incorrect_responses) as u64,
                }),
    {
        self.n = self.error_count + self.invalid_responses + self.incorrect_responses
            + self.correct_responses;
        if self.n > 0 && self.error_count < self.n {
            let answered = self.correct_responses + self.incorrect_responses
                + self.invalid_responses;
            self.overall_accuracy = Some(
                Ratio::new(self.correct_responses as u64, answered as u64),
            );
            self.format_error_rate = Some(
                Ratio::new(self.invalid_responses as u64, (self.n - self.error_count) as u64),
            );
            if self.valid_responses() > 0 {
                self.accuracy_on_valid_responses = Some(
                    Ratio::new(self.correct_responses as u64, self.valid_responses() as u64),
                );
            }
        }
    }
}

/// Law: computing the rates counts every answer in `n`, call errors included,
/// and leaves the counts as they were. When some answer was not a call error,
/// the overall accuracy is correct answers over all answers that were not call
/// errors, and the format error rate invalid answers over those same answers.
/// When some answer was a valid choice, the accuracy on valid responses is
/// correct answers over correct and incorrect answers: invalid answers and call
/// errors are left out of its denominator. With no answer but call errors,
/// no rate changes.
pub proof fn lemma_rates_of_counts(m: LanguageEvaluationMetrics)
    requires
        answers_spec(m) <= u32::MAX,
    ensures
        with_rates(m).n == m.error_count + m.invalid_responses + m.incorrect_responses + m.correct_responses,
        with_rates(m).error_count == m.error_count,
        with_rates(m).invalid_responses == m.invalid_responses,
        with_rates(m).incorrect_responses == m.incorrect_responses,
        with_rates(m).correct_responses == m.correct_responses,
        m.correct_responses + m.incorrect_responses + m.invalid_responses > 0 ==> with_rates(m).overall_accuracy
            == Some(Ratio {
                numerator: m.correct_responses as u64,
                denominator: (m.correct_responses + m.incorrect_responses + m.invalid_responses) as u64,
            }),
        m.correct_responses + m.incorrect_responses + m.invalid_responses > 0 ==> with_rates(m).format_error_rate
            == Some(Ratio {
                numerator: m.invalid_responses as u64,
                denominator: (m.correct_responses + m.incorrect_responses + m.invalid_responses) as u64,
            }),
        m.correct_responses + m.incorrect_responses > 0 ==> with_rates(m).accuracy_on_valid_responses
            == Some(Ratio {
                numerator: m.correct_responses as u64,
                denominator: (m.correct_responses + m.incorrect_responses) as u64,
            }),
        m.correct_responses + m.incorrect_responses + m.invalid_responses == 0 ==> {
            &&& with_rates(m).overall_accuracy == m.overall_accuracy
            &&& with_rates(m).format_error_rate == m.format_error_rate
            &&& with_rates(m).accuracy_on_valid_responses == m.accuracy_on_valid_responses
        },
{
}

/// One question asked in a language evaluation.
#[derive(Clone, Debug)]
pub struct LanguageEvaluationDataPoint {
    pub prompt: String,
    pub response: Option<String>,
    pub valid: bool,
    pub error: bool,
    pub correct_answer: String,
}

/// The language codes that can be evaluated.
pub open spec fn is_supported_language(code: Seq<char>) -> bool {
    ||| code == "ar"@
    ||| code == "bn"@
    ||| code == "de"@
    ||| code == "en"@
    ||| code == "es"@
    ||| code == "fa"@
    ||| code == "fr"@
    ||| code == "hi"@
    ||| code == "hr"@
    ||| code == "hu"@
    ||| code == "lt"@
    ||| code == "nl"@
    ||| code == "pt"@
    ||| code == "ru"@
    ||| code == "sr"@
    ||| code == "uk"@
}

/// Whether `code` names a language that can be evaluated.
pub fn is_supported_language_code(code: &String) -> (res: bool)
    ensures
        res == is_supported_language(code@),
{
    let supported: Vec<&str> = vec![
        "ar", "bn", "de", "en", "es", "fa", "fr", "hi", "hr", "hu", "lt", "nl", "pt", "ru", "sr",
        "uk",
    ];
    let mut i: usize = 0;
    while i < supported.len()
        invariant
            i <= supported@.len(),
            supported@.len() == 16,
            supported@ == seq![
                "ar",
                "bn",
                "de",
                "en",
                "es",
                "fa",
                "fr",
                "hi",
                "hr",
                "hu",
                "lt",
                "nl",
                "pt",
                "ru",
                "sr",
                "uk",
            ],
            forall|k: int| 0 <= k < i ==> code@ != (#[trigger] supported@[k])@,
        decreases supported@.len() - i,
    {
        if *code == supported[i].to_string() {
            return true;
        }
        i = i + 1;
    }
    false
}

/// Every language of the list can be evaluated.
pub open spec fn all_supported(languages: Seq<String>) -> bool {
    forall|k: int| 0 <= k < languages.len() ==> is_supported_language((#[trigger] languages[k])@)
}

/// Checks the languages asked for an evaluation: at least one, and each one
/// supported.
pub fn validate_languages(languages: &Vec<String>) -> (res: Result<(), GenericError>)
    ensures
        languages@.len() == 0 ==> (res matches Err(e) && e.code == GenericError::INVALID_ARGUMENT
            && e.message@ == "You should select at least one language."@),
        (languages@.len() > 0 && !all_supported(languages@)) ==> (res matches Err(e) && e.code
            == GenericError::INVALID_ARGUMENT && e.message@
            == "An invalid language was selected."@),
        res is Ok <==> (languages@.len() > 0 && all_supported(languages@)),
{
    if languages.len() == 0 {
        return Err(
            GenericError::new(GenericError::INVALID_ARGUMENT, "You should select at least one language."),
        );
    }
    let mut i: usize = 0;
    while i < languages.len()
        invariant
            i <= languages@.len(),
            forall|k: int| 0 <= k < i ==> is_supported_language((#[trigger] languages@[k])@),
        decreases languages@.len() - i,
    {
        if !is_supported_language_code(&languages[i]) {
            return Err(
                GenericError::new(GenericError::INVALID_ARGUMENT, "An invalid language was selected."),
            );
        }
        i = i + 1;
    }
    Ok(())
}

} // verus!

verus! {

/// The indices `0, 1, ..., n - 1`.
pub open spec fn index_range(n: nat) -> Seq<usize> {
    Seq::new(n, |i: int| i as usize)
}

/// The options in the given order, each followed by a line break.
pub open spec fn options_block(options: Seq<Seq<char>>, order: Seq<usize>) -> Seq<char>
    decreases order.len(),
{
    if order.len() == 0 {
        Seq::empty()
    } else {
        options_block(options, order.drop_last()) + options[order.last() as int] + "\n"@
    }
}

/// The prompt of a multiple-choice question: the system prompt, the question,
/// and the options in an order shuffled from `seed`, one per line.
pub open spec fn language_prompt_spec(question: Seq<char>, options: Seq<Seq<char>>, seed: u32) -> Seq<char> {
    SYSTEM_PROMPT@ + "\n\n"@ + question + "\n"@ + options_block(
        options,
        seeded_shuffle(index_range(options.len()), seed),
    )
}

/// Law: the shuffled option order lists every option index exactly once.
pub proof fn lemma_shuffled_indices(n: nat, seed: u32)
    ensures
        seeded_shuffle(index_range(n), seed).len() == n,
        seeded_shuffle(index_range(n), seed).to_multiset() =~= index_range(n).to_multiset(),
        forall|k: int| 0 <= k < n ==> #[trigger] seeded_shuffle(index_range(n), seed)[k] < n,
{
    let base = index_range(n);
    let order = seeded_shuffle(base, seed);
    crate::utils::lemma_seeded_shuffle_is_permutation(base, seed);
    assert forall|k: int| 0 <= k < n implies #[trigger] order[k] < n by {
        vstd::seq_lib::to_multiset_contains(order, order[k]);
        vstd::seq_lib::to_multiset_contains(base, order[k]);
        assert(order.contains(order[k]));
        assert(base.contains(order[k]));
    }
}

/// Builds the prompt of a multiple-choice question.
pub fn build_prompt(question: &String, options: &Vec<String>, seed: u32) -> (res: String)
    requires
        options@.len() <= u32::MAX,
    ensures
        res@ == language_prompt_spec(question@, options@.map_values(|s: String| s@), seed),
{
    let ghost opts = options@.map_values(|s: String| s@);
    let mut prompt = SYSTEM_PROMPT.to_string();
    prompt.append("\n\n");
    prompt.append(question.as_str());
    prompt.append("\n");
    let ghost head = prompt@;
    let mut indices: Vec<usize> = Vec::new();
    let mut i: usize = 0;
    while i < options.len()
        invariant
            i <= options@.len(),
            indices@ == index_range(i as nat),
        decreases options@.len() - i,
    {
        indices.push(i);
        i = i + 1;
        assert(indices@ =~= index_range(i as nat));
    }
    let order = seeded_vector_shuffle(indices, seed);
    proof {
        lemma_shuffled_indices(options@.len(), seed);
    }
    let mut k: usize = 0;
    while k < order.len()
        invariant
            order@ == seeded_shuffle(index_range(options@.len()), seed),
            order@.len() == options@.len(),
            forall|j: int| 0 <= j < order@.len() ==> #[trigger] order@[j] < options@.len(),
            opts == options@.map_values(|s: String| s@),
            k <= order@.len(),
            prompt@ == head + options_block(opts, order@.take(k as int)),
        decreases order@.len() - k,
    {
        let idx = order[k];
        prompt.append(options[idx].as_str());
        prompt.append("\n");
        proof {
            assert(order@.take(k + 1).drop_last() =~= order@.take(k as int));
            assert(opts[idx as int] == options@[idx as int]@);
        }
        k = k + 1;
        assert(prompt@ =~= head + options_block(opts, order@.take(k as int)));
    }
    assert(order@.take(k as int) =~= order@);
    prompt
}

/// How a model's choice compares with the question's answer.
#[derive(Clone, Copy, Debug, PartialEq, Eq, Structural)]
pub enum LanguageAnswerGrade {
    /// The choice is the right answer.
    Correct,
    /// The choice is another of the options.
    Incorrect,
    /// The choice is none of the options.
    Invalid,
}


/// The comparison form of a text: trimmed, then lower-cased.
pub open spec fn comparison_form(s: Seq<char>) -> Seq<char> {
    lowercase_of(trim_spec(s))
}

/// The grade of a choice: right when it matches the answer, wrong when it
/// matches one of the options, invalid otherwise (all compared trimmed and
/// lower-cased).
pub open spec fn grade_spec(choice: Seq<char>, answer: Seq<char>, options: Seq<String>) -> LanguageAnswerGrade {
    if comparison_form(choice) == comparison_form(answer) {
        LanguageAnswerGrade::Correct
    } else if exists|k: int|
        0 <= k < options.len() && comparison_form(choice) == comparison_form(
            (#[trigger] options[k])@,
        ) {
        LanguageAnswerGrade::Incorrect
    } else {
        LanguageAnswerGrade::Invalid
    }
}

/// The comparison form of a text.
fn comparison_text(s: &str) -> (res: String)
    ensures
        res@ == comparison_form(s@),
{
    let trimmed = trim_string(s);
    to_lowercase(trimmed.as_str())
}

/// Grades a model's choice against the answer and the options.
pub fn grade_language_answer(choice: &String, answer: &String, options: &Vec<String>) -> (res:
    LanguageAnswerGrade)
    ensures
        res == grade_spec(choice@, answer@, options@),
{
    let given = comparison_text(choice.as_str());
    let expected = comparison_text(answer.as_str());
    if given == expected {
        return LanguageAnswerGrade::Correct;
    }
    let mut i: usize = 0;
    while i < options.len()
        invariant
            i <= options@.len(),
            given@ == comparison_form(choice@),
            comparison_form(choice@) != comparison_form(answer@),
            forall|k: int| 0 <= k < i ==> comparison_form(choice@) != comparison_form((#[trigger] options@[k])@),
        decreases options@.len() - i,
    {
        let option = comparison_text(options[i].as_str());
        if given == option {
            assert(comparison_form(choice@) == comparison_form(options@[i as int]@));
            return LanguageAnswerGrade::Incorrect;
        }
        i = i + 1;
    }
    LanguageAnswerGrade::Invalid
}

/// What came back for one question.
#[derive(Clone, Debug)]
pub enum LanguageReply {
    /// The call to the model failed.
    CallFailed,
    /// The (cleaned) answer was not the expected JSON object.
    NotJson,
    /// The answer's `choice` field.
    Choice(String),
}

/// `m` once one reply is counted.
pub open spec fn language_metrics_after(
    m: LanguageEvaluationMetrics,
    reply: LanguageReply,
    answer: Seq<char>,
    options: Seq<String>,
) -> LanguageEvaluationMetrics {
    match reply {
        LanguageReply::CallFailed => LanguageEvaluationMetrics {
            error_count: (m.error_count + 1) as u32,
            ..m
        },
        LanguageReply::NotJson => LanguageEvaluationMetrics {
            invalid_responses: (m.invalid_responses + 1) as u32,
            ..m
        },
        LanguageReply::Choice(c) => match grade_spec(c@, answer, options) {
            LanguageAnswerGrade::Correct => LanguageEvaluationMetrics {
                correct_responses: (m.correct_responses + 1) as u32,
                ..m
            },
            LanguageAnswerGrade::Incorrect => LanguageEvaluationMetrics {
                incorrect_responses: (m.incorrect_responses + 1) as u32,
                ..m
            },
            LanguageAnswerGrade::Invalid => LanguageEvaluationMetrics {
                invalid_responses: (m.invalid_responses + 1) as u32,
                ..m
            },
        },
    }
}

/// No counter of the table is at its maximum.
pub open spec fn language_metrics_have_room(m: LanguageEvaluationMetrics) -> bool {
    &&& m.error_count < u32::MAX
    &&& m.invalid_responses < u32::MAX
    &&& m.correct_responses < u32::MAX
    &&& m.incorrect_responses < u32::MAX
}

/// Law: every reply is counted once, under exactly one of the four
/// counters (failed call, invalid, incorrect, correct), so the number of
/// answers `n` of a finished table is the number of replies recorded.
pub proof fn lemma_each_reply_counted_once(
    m: LanguageEvaluationMetrics,
    reply: LanguageReply,
    answer: Seq<char>,
    options: Seq<String>,
)
    requires
        language_metrics_have_room(m),
        answers_spec(m) < u32::MAX,
    ensures
        answers_spec(language_metrics_after(m, reply, answer, options)) == answers_spec(m) + 1,
        with_rates(language_metrics_after(m, reply, answer, options)).n == answers_spec(m) + 1,
{
}

/// Counts one reply in a table.
pub fn record_language_reply(
    m: &mut LanguageEvaluationMetrics,
    reply: &LanguageReply,
    answer: &String,
    options: &Vec<String>,
)
    requires
        language_metrics_have_room(*old(m)),
    ensures
        *final(m) == language_metrics_after(*old(m), *reply, answer@, options@),
{
    match reply {
        LanguageReply::CallFailed => m.add_error(),
        LanguageReply::NotJson => m.add_invalid(),
        LanguageReply::Choice(c) => match grade_language_answer(c, answer, options) {
            LanguageAnswerGrade::Correct => m.add_correct(),
            LanguageAnswerGrade::Incorrect => m.add_incorrect(),
            LanguageAnswerGrade::Invalid => m.add_invalid(),
        },
    }
}

/// The data point recorded for one question: the trimmed choice when there
/// is one, and an error mark when the call failed. (A data point is never
/// marked valid.)
pub fn language_data_point(prompt: String, correct_answer: String, reply: &LanguageReply) -> (res:
    LanguageEvaluationDataPoint)
    ensures
        res.prompt == prompt,
        res.correct_answer == correct_answer,
        !res.valid,
        res.error == (*reply is CallFailed),
        match *reply {
            LanguageReply::Choice(c) => res.response matches Some(r) && r@ == trim_spec(c@),
            _ => res.response is None,
        },
{
    match reply {
        LanguageReply::CallFailed => LanguageEvaluationDataPoint {
            prompt,
            response: None,
            valid: false,
            error: true,
            correct_answer,
        },
        LanguageReply::NotJson => LanguageEvaluationDataPoint {
            prompt,
            response: None,
            valid: false,
            error: false,
            correct_answer,
        },
        LanguageReply::Choice(c) => LanguageEvaluationDataPoint {
            prompt,
            response: Some(trim_string(c.as_str())),
            valid: false,
            error: false,
            correct_answer,
        },
    }
}

/// Whether `lang` is one of the languages of the evaluation.
pub open spec fn is_scheduled(scheduled: Seq<String>, lang: Seq<char>) -> bool {
    exists|k: int| 0 <= k < scheduled.len() && (#[trigger] scheduled[k])@ == lang
}

/// Whether `lang` is one of the languages of the evaluation.
fn language_is_scheduled(scheduled: &Vec<String>, lang: &String) -> (res: bool)
    ensures
        res == is_scheduled(scheduled@, lang@),
{
    let mut k: usize = 0;
    while k < scheduled.len()
        invariant
            k <= scheduled@.len(),
            forall|j: int| 0 <= j < k ==> (#[trigger] scheduled@[j])@ != lang@,
        decreases scheduled@.len() - k,
    {
        if scheduled[k] == *lang {
            return true;
        }
        k = k + 1;
    }
    false
}

/// Whether `c` is a square bracket.
pub open spec fn is_bracket(c: char) -> bool {
    c == '[' || c == ']'
}

/// `s` without its leading square brackets.
pub open spec fn trim_brackets_start(s: Seq<char>) -> Seq<char>
    decreases s.len(),
{
    if s.len() > 0 && is_bracket(s[0]) {
        trim_brackets_start(s.drop_first())
    } else {
        s
    }
}

/// `s` without its trailing square brackets.
pub open spec fn trim_brackets_end(s: Seq<char>) -> Seq<char>
    decreases s.len(),
{
    if s.len() > 0 && is_bracket(s.last()) {
        trim_brackets_end(s.drop_last())
    } else {
        s
    }
}

/// `s` without its leading and trailing square brackets.
pub open spec fn trim_brackets(s: Seq<char>) -> Seq<char> {
    trim_brackets_end(trim_brackets_start(s))
}

/// The pieces of `s` between single quotes (as `str::split('\'')` gives
/// them: one piece more than there are quotes).
pub open spec fn split_quotes(s: Seq<char>) -> Seq<Seq<char>>
    decreases s.len(),
{
    if s.len() == 0 {
        seq![Seq::<char>::empty()]
    } else {
        let p = split_quotes(s.drop_last());
        if s.last() == '\'' {
            p.push(Seq::<char>::empty())
        } else {
            p.update(p.len() - 1, p.last().push(s.last()))
        }
    }
}

/// The trimmed pieces that are not blank, in order.
pub open spec fn kept_options(pieces: Seq<Seq<char>>) -> Seq<Seq<char>>
    decreases pieces.len(),
{
    if pieces.len() == 0 {
        Seq::empty()
    } else {
        kept_options(pieces.drop_last()) + if trim_spec(pieces.last()).len() > 0 {
            seq![trim_spec(pieces.last())]
        } else {
            Seq::<Seq<char>>::empty()
        }
    }
}

/// The options of a question as the dataset writes them, such as
/// `['a' 'b' 'c']`: the text without its surrounding brackets is split at
/// the single quotes, and the pieces that are not blank are kept, trimmed.
pub open spec fn parse_options_spec(s: Seq<char>) -> Seq<Seq<char>> {
    kept_options(split_quotes(trim_brackets(s)))
}

proof fn lemma_split_quotes_nonempty(s: Seq<char>)
    ensures
        split_quotes(s).len() >= 1,
    decreases s.len(),
{
    if s.len() > 0 {
        lemma_split_quotes_nonempty(s.drop_last());
    }
}

proof fn lemma_trim_brackets_start_skip(s: Seq<char>, k: int)
    requires
        0 <= k <= s.len(),
        forall|i: int| 0 <= i < k ==> is_bracket(#[trigger] s[i]),
    ensures
        trim_brackets_start(s) == trim_brackets_start(s.skip(k)),
    decreases k,
{
    if k > 0 {
        assert(s.drop_first() =~= s.skip(1));
        lemma_trim_brackets_start_skip(s.drop_first(), k - 1);
        assert(s.drop_first().skip(k - 1) =~= s.skip(k));
    } else {
        assert(s.skip(0) =~= s);
    }
}

proof fn lemma_trim_brackets_end_take(s: Seq<char>, k: int)
    requires
        0 <= k <= s.len(),
        forall|i: int| k <= i < s.len() ==> is_bracket(#[trigger] s[i]),
    ensures
        trim_brackets_end(s) == trim_brackets_end(s.take(k)),
    decreases s.len() - k,
{
    if k < s.len() {
        lemma_trim_brackets_end_take(s.drop_last(), k);
        assert(s.drop_last().take(k) =~= s.take(k));
    } else {
        assert(s.take(k) =~= s);
    }
}

/// Appends the trimmed piece to `out` unless it is blank.
fn keep_option(out: &mut Vec<String>, piece: &Vec<char>)
    ensures
        out_view(final(out)@) == out_view(old(out)@) + if trim_spec(piece@).len() > 0 {
            seq![trim_spec(piece@)]
        } else {
            Seq::<Seq<char>>::empty()
        },
{
    let trimmed = trim_chars(piece);
    if trimmed.len() > 0 {
        let ghost before = out@;
        out.push(string_of(&trimmed));
        assert(out_view(out@) =~= out_view(before) + seq![trim_spec(piece@)]);
    } else {
        assert(out_view(out@) =~= out_view(out@) + Seq::<Seq<char>>::empty());
    }
}

/// The texts of a sequence of strings.
pub open spec fn out_view(v: Seq<String>) -> Seq<Seq<char>> {
    v.map_values(|x: String| x@)
}

/// Reads the options of a question as the dataset writes them.
pub fn parse_options(s: &str) -> (res: Vec<String>)
    ensures
        out_view(res@) == parse_options_spec(s@),
{
    let chars = chars_of(s);
    let n = chars.len();
    let mut a: usize = 0;
    while a < n && (chars[a] == '[' || chars[a] == ']')
        invariant
            chars@ == s@,
            n == chars@.len(),
            a <= n,
            forall|i: int| 0 <= i < a ==> is_bracket(#[trigger] chars@[i]),
        decreases n - a,
    {
        a = a + 1;
    }
    proof {
        lemma_trim_brackets_start_skip(s@, a as int);
    }
    let ghost head = s@.skip(a as int);
    assert(trim_brackets_start(head) == head);
    let mut b: usize = n;
    while b > a && (chars[b - 1] == '[' || chars[b - 1] == ']')
        invariant
            chars@ == s@,
            n == chars@.len(),
            a <= b <= n,
            forall|i: int| b <= i < n ==> is_bracket(#[trigger] chars@[i]),
        decreases b,
    {
        b = b - 1;
    }
    let ghost t = s@.subrange(a as int, b as int);
    proof {
        assert forall|i: int| (b - a) <= i < head.len() implies is_bracket(#[trigger] head[i]) by {
            assert(head[i] == chars@[a + i]);
        }
        lemma_trim_brackets_end_take(head, (b - a) as int);
        assert(head.take((b - a) as int) =~= t);
        if t.len() > 0 {
            assert(t.last() == chars@[b - 1]);
        }
        assert(trim_brackets_end(t) == t);
        assert(trim_brackets(s@) == t);
    }
    let mut out: Vec<String> = Vec::new();
    let mut current: Vec<char> = Vec::new();
    let mut i: usize = a;
    assert(t.take(0) =~= Seq::<char>::empty());
    while i < b
        invariant
            chars@ == s@,
            a <= i <= b <= n,
            n == chars@.len(),
            t == s@.subrange(a as int, b as int),
            split_quotes(t.take(i - a)).len() >= 1,
            out_view(out@) == kept_options(split_quotes(t.take(i - a)).drop_last()),
            current@ == split_quotes(t.take(i - a)).last(),
        decreases b - i,
    {
        let c = chars[i];
        let ghost prefix = t.take(i - a);
        let ghost p = split_quotes(prefix);
        assert(t.take(i - a + 1).drop_last() =~= prefix);
        assert(t.take(i - a + 1).last() == c);
        if c == '\'' {
            keep_option(&mut out, &current);
            current = Vec::new();
            proof {
                let q = split_quotes(t.take(i - a + 1));
                assert(q == p.push(Seq::<char>::empty()));
                assert(q.drop_last() =~= p);
                assert(p =~= p.drop_last().push(p.last()));
                assert(kept_options(p).len() >= 0);
            }
        } else {
            current.push(c);
            proof {
                let q = split_quotes(t.take(i - a + 1));
                assert(q == p.update(p.len() - 1, p.last().push(c)));
                assert(q.drop_last() =~= p.drop_last());
            }
        }
        i = i + 1;
        proof {
            lemma_split_quotes_nonempty(t.take(i - a));
        }
    }
    keep_option(&mut out, &current);
    proof {
        assert(t.take(i - a) =~= t);
        let p = split_quotes(t);
        assert(p =~= p.drop_last().push(p.last()));
    }
    out
}

/// A problem with the dataset met when looking for the next question.
#[derive(Clone, Debug)]
pub enum LanguageRowDefect {
    /// A record could not be read; its message.
    ReadError(String),
    /// The row has no `language` field.
    MissingLanguage,
    /// The row has no `question` field.
    MissingQuestion,
    /// The row's `answer` field is missing or is not an index.
    InvalidAnswer,
    /// The row has no `options` field.
    MissingOptions,
    /// The answer index is not the position of an option.
    AnswerNotAnOption,
    /// There are more options than a shuffle can order.
    TooManyOptions,
}

/// A question of the language evaluation, ready to be asked: its row, its
/// language, the question, its options, the text of the right option, and
/// the prompt.
#[derive(Clone, Debug)]
pub struct LanguageQuery {
    pub row: usize,
    pub language: String,
    pub question: String,
    pub options: Vec<String>,
    pub answer: String,
    pub prompt: String,
}

/// The row of the next question of an evaluation that has asked
/// `current_query` questions, scanning from record `r`: the first record
/// from position `current_query` on whose language is one of the evaluation's
/// (`Ok(None)` when there is none). A record that cannot be read on the way
/// gives `Err(Some(message))`, a row without language from position
/// `current_query` on gives `Err(None)`.
pub open spec fn query_row(
    headers: Seq<Seq<char>>,
    recs: Seq<Result<Seq<Seq<char>>, Seq<char>>>,
    scheduled: Seq<String>,
    current_query: int,
    r: int,
) -> Result<Option<int>, Option<Seq<char>>>
    decreases recs.len() - r,
{
    if r < 0 || r >= recs.len() {
        Ok(None)
    } else {
        match recs[r] {
            Err(e) => Err(Some(e)),
            Ok(row) => if r < current_query {
                query_row(headers, recs, scheduled, current_query, r + 1)
            } else {
                match cell(headers, row, "language"@) {
                    None => Err(None),
                    Some(lang) => if is_scheduled(scheduled, lang) {
                        Ok(Some(r))
                    } else {
                        query_row(headers, recs, scheduled, current_query, r + 1)
                    },
                }
            },
        }
    }
}

/// What keeps a question row from being asked, checked in order: the
/// question, the answer index, the options, the answer among the options,
/// the number of options.
pub open spec fn row_defect(headers: Seq<Seq<char>>, row: Seq<Seq<char>>) -> Option<LanguageRowDefect> {
    match cell(headers, row, "question"@) {
        None => Some(LanguageRowDefect::MissingQuestion),
        Some(_) => match cell(headers, row, "answer"@) {
            None => Some(LanguageRowDefect::InvalidAnswer),
            Some(a) => match parse_usize_spec(a) {
                None => Some(LanguageRowDefect::InvalidAnswer),
                Some(k) => match cell(headers, row, "options"@) {
                    None => Some(LanguageRowDefect::MissingOptions),
                    Some(o) => if k >= parse_options_spec(o).len() {
                        Some(LanguageRowDefect::AnswerNotAnOption)
                    } else if parse_options_spec(o).len() > u32::MAX {
                        Some(LanguageRowDefect::TooManyOptions)
                    } else {
                        None
                    },
                },
            },
        },
    }
}

/// The seed of a question's option order: `seed * current_query` in 32-bit
/// wrapping arithmetic.
pub open spec fn query_seed(seed: u32, current_query: usize) -> u32 {
    ((seed as nat * (current_query as nat % u32_modulus())) % u32_modulus()) as u32
}

/// Whether `q` is the question of `row`: its fields as the row gives them,
/// and its prompt built with the options shuffled from `seed`.
pub open spec fn query_of_row(headers: Seq<Seq<char>>, row: Seq<Seq<char>>, q: LanguageQuery, seed: u32) -> bool {
    &&& cell(headers, row, "language"@) == Some(q.language@)
    &&& cell(headers, row, "question"@) == Some(q.question@)
    &&& cell(headers, row, "options"@) matches Some(o)
    &&& out_view(q.options@) == parse_options_spec(o)
    &&& cell(headers, row, "answer"@) matches Some(a)
    &&& parse_usize_spec(a) matches Some(k)
    &&& k < q.options@.len()
    &&& q.answer@ == q.options@[k as int]@
    &&& q.prompt@ == language_prompt_spec(q.question@, out_view(q.options@), seed)
}

/// Finds and prepares the next question of an evaluation of the languages
/// `languages` that has asked `current_query` questions.
pub fn prepare_language_query(records: &CsvRecords, languages: &Vec<String>, current_query: usize, seed: u32) -> (res: Result<Option<LanguageQuery>, LanguageRowDefect>)
    requires
        records.wf(),
    ensures
        ({
            let scan = query_row(strings_view(records.headers@), records.records_view(), languages@, current_query as int, 0);
            match res {
                Ok(None) => scan == Ok::<Option<int>, Option<Seq<char>>>(None),
                Ok(Some(q)) => {
                    &&& scan == Ok::<Option<int>, Option<Seq<char>>>(Some(q.row as int))
                    &&& q.row < records.records@.len()
                    &&& records.records_view()[q.row as int] matches Ok(row)
                    &&& row_defect(strings_view(records.headers@), row) is None
                    &&& query_of_row(strings_view(records.headers@), row, q, query_seed(seed, current_query))
                },
                Err(LanguageRowDefect::ReadError(e)) => scan == Err::<Option<int>, Option<Seq<char>>>(Some(e@)),
                Err(LanguageRowDefect::MissingLanguage) => scan == Err::<Option<int>, Option<Seq<char>>>(None),
                Err(d) => {
                    &&& scan matches Ok(Some(r))
                    &&& 0 <= r < records.records@.len()
                    &&& records.records_view()[r] matches Ok(row)
                    &&& row_defect(strings_view(records.headers@), row) == Some(d)
                },
            }
        }),
{
    let ghost hv = strings_view(records.headers@);
    let ghost recs = records.records_view();
    let mut r: usize = 0;
    while r < records.records.len()
        invariant
            records.wf(),
            hv == strings_view(records.headers@),
            recs == records.records_view(),
            r <= recs.len(),
            query_row(hv, recs, languages@, current_query as int, 0) == query_row(hv, recs, languages@, current_query as int, r as int),
        decreases recs.len() - r,
    {
        match &records.records[r] {
            Err(e) => {
                return Err(LanguageRowDefect::ReadError(e.clone()));
            },
            Ok(row) => {
                assert(recs[r as int] == Ok::<Seq<Seq<char>>, Seq<char>>(strings_view(row@)));
                if r >= current_query {
                    let language = match cell_value(&records.headers, row, "language") {
                        None => {
                            return Err(LanguageRowDefect::MissingLanguage);
                        },
                        Some(l) => l,
                    };
                    if language_is_scheduled(languages, language) {
                        let question = match cell_value(&records.headers, row, "question") {
                            None => {
                                return Err(LanguageRowDefect::MissingQuestion);
                            },
                            Some(q) => q,
                        };
                        let answer_text = match cell_value(&records.headers, row, "answer") {
                            None => {
                                return Err(LanguageRowDefect::InvalidAnswer);
                            },
                            Some(a) => a,
                        };
                        let answer = match parse_usize(answer_text.as_str()) {
                            None => {
                                return Err(LanguageRowDefect::InvalidAnswer);
                            },
                            Some(k) => k,
                        };
                        let options_text = match cell_value(&records.headers, row, "options") {
                            None => {
                                return Err(LanguageRowDefect::MissingOptions);
                            },
                            Some(o) => o,
                        };
                        let options = parse_options(options_text.as_str());
                        assert(out_view(options@).len() == options@.len());
                        if answer >= options.len() {
                            return Err(LanguageRowDefect::AnswerNotAnOption);
                        }
                        if options.len() > 0xffff_ffff {
                            return Err(LanguageRowDefect::TooManyOptions);
                        }
                        let text_answer = options[answer].clone();
                        let factor: u32 = ((current_query as u64) % 0x1_0000_0000) as u32;
                        let query_seed_value = seed.wrapping_mul(factor);
                        assert(query_seed_value == query_seed(seed, current_query));
                        let prompt = build_prompt(question, &options, query_seed_value);
                        let q = LanguageQuery {
                            row: r,
                            language: language.clone(),
                            question: question.clone(),
                            options,
                            answer: text_answer,
                            prompt,
                        };
                        return Ok(Some(q));
                    }
                }
            },
        }
        r = r + 1;
    }
    Ok(None)
}

/// The number of readable records whose language is `lang`.
pub open spec fn language_count(headers: Seq<Seq<char>>, recs: Seq<Result<Seq<Seq<char>>, Seq<char>>>, lang: Seq<char>) -> nat
    decreases recs.len(),
{
    if recs.len() == 0 {
        0
    } else {
        language_count(headers, recs.drop_last(), lang) + if recs.last() matches Ok(row) && cell(headers, row, "language"@) == Some(lang) {
            1nat
        } else {
            0nat
        }
    }
}

/// The number of readable records that have a language.
pub open spec fn languages_total(headers: Seq<Seq<char>>, recs: Seq<Result<Seq<Seq<char>>, Seq<char>>>) -> nat
    decreases recs.len(),
{
    if recs.len() == 0 {
        0
    } else {
        languages_total(headers, recs.drop_last()) + if recs.last() matches Ok(row) && cell(headers, row, "language"@) is Some {
            1nat
        } else {
            0nat
        }
    }
}

/// The number of questions of the dataset, in all and for each language.
#[derive(Clone, Debug)]
pub struct LanguageEvaluationCounts {
    pub total_count: usize,
    pub per_language: CountMap,
}

/// Counts the questions of the dataset, in all and by language; records
/// that cannot be read and rows without a language are passed over.
pub fn get_language_evaluation_counts(records: &CsvRecords) -> (res: LanguageEvaluationCounts)
    requires
        records.wf(),
    ensures
        res.total_count == languages_total(strings_view(records.headers@), records.records_view()),
        entries_wf(res.per_language.entries@),
        forall|lang: Seq<char>| #[trigger] res.per_language.count_of(lang) == language_count(strings_view(records.headers@), records.records_view(), lang),
{
    let ghost hv = strings_view(records.headers@);
    let ghost recs = records.records_view();
    let mut entries: Vec<(String, u128)> = Vec::new();
    let mut total: usize = 0;
    let mut r: usize = 0;
    while r < records.records.len()
        invariant
            records.wf(),
            hv == strings_view(records.headers@),
            recs == records.records_view(),
            r <= recs.len(),
            total <= r,
            total == languages_total(hv, recs.take(r as int)),
            entries_wf(entries@),
            forall|lang: Seq<char>| #[trigger] crate::metrics::entry_count(entries@, lang) == language_count(hv, recs.take(r as int), lang),
            forall|lang: Seq<char>| #[trigger] language_count(hv, recs.take(r as int), lang) <= r,
        decreases recs.len() - r,
    {
        assert(recs.take(r + 1).drop_last() =~= recs.take(r as int));
        assert(recs.take(r + 1).last() == recs[r as int]);
        match &records.records[r] {
            Err(_) => {},
            Ok(row) => {
                assert(recs[r as int] == Ok::<Seq<Seq<char>>, Seq<char>>(strings_view(row@)));
                match cell_value(&records.headers, row, "language") {
                    None => {},
                    Some(lang) => {
                        increment_count(&mut entries, lang);
                        total = total + 1;
                    },
                }
            },
        }
        r = r + 1;
        assert forall|lang: Seq<char>| #[trigger] language_count(hv, recs.take(r as int), lang) <= r by {
            assert(language_count(hv, recs.take(r - 1), lang) <= r - 1);
        }
    }
    assert(recs.take(r as int) =~= recs);
    LanguageEvaluationCounts { total_count: total, per_language: CountMap { entries } }
}

/// Whether the table at position `k` is the first one of `language`.
pub open spec fn first_table_of(tables: Seq<(String, LanguageEvaluationMetrics)>, language: Seq<char>, k: int) -> bool {
    &&& 0 <= k < tables.len()
    &&& tables[k].0@ == language
    &&& forall|j: int| 0 <= j < k ==> (#[trigger] tables[j]).0@ != language
}

/// Counts the reply to a question of `language` in the overall table and in
/// the first table of that language. When the language has no table nothing
/// is counted and `false` is returned.
pub fn record_language_outcome(
    overall: &mut LanguageEvaluationMetrics,
    per_language: &mut Vec<(String, LanguageEvaluationMetrics)>,
    language: &String,
    reply: &LanguageReply,
    answer: &String,
    options: &Vec<String>,
) -> (found: bool)
    requires
        language_metrics_have_room(*old(overall)),
        forall|i: int| 0 <= i < old(per_language)@.len() ==> language_metrics_have_room(#[trigger] old(per_language)@[i].1),
    ensures
        found == (exists|k: int| 0 <= k < old(per_language)@.len() && (#[trigger] old(per_language)@[k]).0@ == language@),
        found ==> *final(overall) == language_metrics_after(*old(overall), *reply, answer@, options@),
        found ==> exists|k: int| first_table_of(old(per_language)@, language@, k) && final(per_language)@ == old(per_language)@.update(
            k,
            (old(per_language)@[k].0, language_metrics_after(old(per_language)@[k].1, *reply, answer@, options@)),
        ),
        !found ==> *final(overall) == *old(overall) && final(per_language)@ == old(per_language)@,
{
    let mut k: usize = 0;
    while k < per_language.len()
        invariant
            k <= per_language@.len(),
            per_language@ == old(per_language)@,
            *overall == *old(overall),
            language_metrics_have_room(*old(overall)),
            forall|i: int| 0 <= i < old(per_language)@.len() ==> language_metrics_have_room(#[trigger] old(per_language)@[i].1),
            forall|j: int| 0 <= j < k ==> (#[trigger] per_language@[j]).0@ != language@,
        decreases per_language@.len() - k,
    {
        if per_language[k].0 == *language {
            let name = per_language[k].0.clone();
            let mut m = per_language[k].1;
            record_language_reply(overall, reply, answer, options);
            record_language_reply(&mut m, reply, answer, options);
            per_language.set(k, (name, m));
            assert(first_table_of(old(per_language)@, language@, k as int));
            return true;
        }
        k = k + 1;
    }
    false
}

/// Why the number of questions of an evaluation could not be set.
#[derive(Clone, Debug)]
pub enum QueriesTargetError {
    /// The dataset has no question in this language.
    UnknownLanguage(String),
    /// The total does not fit in a `usize`.
    Overflow,
}

/// The number of questions of the dataset in the languages, each language
/// counted as often as it is listed.
pub open spec fn questions_in(counts: CountMap, languages: Seq<String>) -> nat
    decreases languages.len(),
{
    if languages.len() == 0 {
        0
    } else {
        questions_in(counts, languages.drop_last()) + counts.count_of(languages.last()@)
    }
}

/// The number of questions an evaluation asks: `max_queries`, or when it is
/// 0 all the questions of its languages. A language without questions in the
/// dataset (the first such) is an error, and so is a total that does not fit
/// in a `usize`.
pub fn language_queries_target(max_queries: usize, languages: &Vec<String>, counts: &LanguageEvaluationCounts) -> (res: Result<usize, QueriesTargetError>)
    requires
        entries_wf(counts.per_language.entries@),
    ensures
        max_queries != 0 ==> (res matches Ok(t) && t == max_queries),
        max_queries == 0 ==> match res {
            Ok(t) => (forall|i: int| 0 <= i < languages@.len() ==> #[trigger] counts.per_language.count_of(languages@[i]@) > 0)
                && t == questions_in(counts.per_language, languages@),
            Err(QueriesTargetError::UnknownLanguage(l)) => exists|i: int| {
                &&& 0 <= i < languages@.len()
                &&& l@ == languages@[i]@
                &&& #[trigger] counts.per_language.count_of(languages@[i]@) == 0
                &&& forall|j: int| 0 <= j < i ==> #[trigger] counts.per_language.count_of(languages@[j]@) > 0
            },
            Err(QueriesTargetError::Overflow) => (forall|i: int| 0 <= i < languages@.len() ==> #[trigger] counts.per_language.count_of(languages@[i]@) > 0)
                && questions_in(counts.per_language, languages@) > usize::MAX,
        },
{
    if max_queries != 0 {
        return Ok(max_queries);
    }
    let mut i: usize = 0;
    while i < languages.len()
        invariant
            max_queries == 0,
            entries_wf(counts.per_language.entries@),
            i <= languages@.len(),
            forall|j: int| 0 <= j < i ==> #[trigger] counts.per_language.count_of(languages@[j]@) > 0,
        decreases languages@.len() - i,
    {
        let c = crate::metrics::count_for(&counts.per_language, &languages[i]);
        if c == 0 {
            return Err(QueriesTargetError::UnknownLanguage(languages[i].clone()));
        }
        i = i + 1;
    }
    let mut sum: u128 = 0;
    let mut overflow = false;
    let mut k: usize = 0;
    while k < languages.len()
        invariant
            entries_wf(counts.per_language.entries@),
            k <= languages@.len(),
            overflow ==> questions_in(counts.per_language, languages@.take(k as int)) > usize::MAX,
            !overflow ==> sum == questions_in(counts.per_language, languages@.take(k as int)) && sum <= usize::MAX,
        decreases languages@.len() - k,
    {
        assert(languages@.take(k + 1).drop_last() =~= languages@.take(k as int));
        let c = crate::metrics::count_for(&counts.per_language, &languages[k]);
        if !overflow {
            if c > usize::MAX as u128 - sum {
                overflow = true;
            } else {
                sum = sum + c;
            }
        }
        k = k + 1;
    }
    assert(languages@.take(k as int) =~= languages@);
    if overflow {
        Err(QueriesTargetError::Overflow)
    } else {
        Ok(sum as usize)
    }
}

/// The per-language tables of a new evaluation: an empty one for each
/// language, in order.
pub fn new_language_tables(languages: &Vec<String>) -> (res: Vec<(String, LanguageEvaluationMetrics)>)
    ensures
        res@.len() == languages@.len(),
        forall|i: int| 0 <= i < res@.len() ==> (#[trigger] res@[i]).0@ == languages@[i]@ && res@[i].1 == empty_language_metrics(),
{
    let mut out: Vec<(String, LanguageEvaluationMetrics)> = Vec::new();
    let mut i: usize = 0;
    while i < languages.len()
        invariant
            i <= languages@.len(),
            out@.len() == i,
            forall|j: int| 0 <= j < i ==> (#[trigger] out@[j]).0@ == languages@[j]@ && out@[j].1 == empty_language_metrics(),
        decreases languages@.len() - i,
    {
        out.push((languages[i].clone(), LanguageEvaluationMetrics::new()));
        i = i + 1;
    }
    out
}

/// What one turn of a language evaluation job does.
#[derive(Clone, Copy, Debug, PartialEq, Eq, Structural)]
pub enum LanguageEvaluationStep {
    /// The model has no such evaluation: the job fails.
    MissingEvaluation,
    /// The evaluation is already finished or canceled: nothing is left to do.
    AlreadyDone,
    /// A stop was requested: the job stops and the evaluation is canceled.
    Stop,
    /// The inference API key is not configured: the turn fails.
    MissingApiKey,
    /// Every question was asked: the rates are computed and the job completes.
    Complete,
    /// The next question is asked.
    AskNext,
}

/// The turn of a language evaluation job, from the state of the evaluation
/// and of its job; the checks come in this order.
pub open spec fn language_step_spec(
    evaluation_found: bool,
    finished: bool,
    canceled: bool,
    stop_requested: bool,
    api_key_set: bool,
    completed: usize,
    target: usize,
) -> LanguageEvaluationStep {
    if !evaluation_found {
        LanguageEvaluationStep::MissingEvaluation
    } else if finished || canceled {
        LanguageEvaluationStep::AlreadyDone
    } else if stop_requested {
        LanguageEvaluationStep::Stop
    } else if !api_key_set {
        LanguageEvaluationStep::MissingApiKey
    } else if completed >= target {
        LanguageEvaluationStep::Complete
    } else {
        LanguageEvaluationStep::AskNext
    }
}

/// Decides the turn of a language evaluation job.
pub fn language_evaluation_step(
    evaluation_found: bool,
    finished: bool,
    canceled: bool,
    stop_requested: bool,
    api_key_set: bool,
    completed: usize,
    target: usize,
) -> (res: LanguageEvaluationStep)
    ensures
        res == language_step_spec(evaluation_found, finished, canceled, stop_requested, api_key_set, completed, target),
{
    if !evaluation_found {
        LanguageEvaluationStep::MissingEvaluation
    } else if finished || canceled {
        LanguageEvaluationStep::AlreadyDone
    } else if stop_requested {
        LanguageEvaluationStep::Stop
    } else if !api_key_set {
        LanguageEvaluationStep::MissingApiKey
    } else if completed >= target {
        LanguageEvaluationStep::Complete
    } else {
        LanguageEvaluationStep::AskNext
    }
}

/// Computes the rates of the overall table and of every per-language table
/// of a finished evaluation.
pub fn finish_language_tables(overall: &mut LanguageEvaluationMetrics, per_language: &mut Vec<(String, LanguageEvaluationMetrics)>)
    requires
        answers_spec(*old(overall)) <= u32::MAX,
        forall|i: int| 0 <= i < old(per_language)@.len() ==> answers_spec(#[trigger] old(per_language)@[i].1) <= u32::MAX,
    ensures
        *final(overall) == with_rates(*old(overall)),
        final(per_language)@.len() == old(per_language)@.len(),
        forall|i: int| 0 <= i < old(per_language)@.len() ==> (#[trigger] final(per_language)@[i]).0 == old(per_language)@[i].0
            && final(per_language)@[i].1 == with_rates(old(per_language)@[i].1),
{
    overall.calculate_rates();
    let mut k: usize = 0;
    while k < per_language.len()
        invariant
            k <= per_language@.len(),
            per_language@.len() == old(per_language)@.len(),
            forall|i: int| 0 <= i < old(per_language)@.len() ==> answers_spec(#[trigger] old(per_language)@[i].1) <= u32::MAX,
            forall|i: int| 0 <= i < k ==> (#[trigger] per_language@[i]).0 == old(per_language)@[i].0
                && per_language@[i].1 == with_rates(old(per_language)@[i].1),
            forall|i: int| k <= i < per_language@.len() ==> #[trigger] per_language@[i] == old(per_language)@[i],
        decreases per_language@.len() - k,
    {
        let name = per_language[k].0.clone();
        let mut m = per_language[k].1;
        m.calculate_rates();
        per_language.set(k, (name, m));
        k = k + 1;
    }
}

} // verus!
