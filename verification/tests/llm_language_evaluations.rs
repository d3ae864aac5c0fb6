use fai3_backend::errors::GenericError;
use fai3_backend::language::{
    build_prompt, finish_language_tables, get_language_evaluation_counts, grade_language_answer,
    language_data_point, language_evaluation_step, language_queries_target, new_language_tables,
    parse_options, prepare_language_query, record_language_outcome, validate_languages,
    LanguageAnswerGrade, LanguageEvaluationMetrics, LanguageEvaluationStep, LanguageReply,
    LanguageRowDefect, QueriesTargetError, SYSTEM_PROMPT,
};
use fai3_backend::ratio::Ratio;
use fai3_backend::table::read_csv_records;

#[test]
fn test_build_prompt() {
    // Test inputs
    let question = String::from("What is the capital of France?");
    let options = vec![
        String::from("A) Paris"),
        String::from("B) London"),
        String::from("C) Berlin"),
        String::from("D) Madrid"),
    ];
    let seed = 42;

    // Build the prompt
    let result = build_prompt(&question, &options, seed);

    // Verify the prompt contains all required elements
    assert!(result.contains(SYSTEM_PROMPT));
    assert!(result.contains("What is the capital of France?"));

    // Verify all options are present
    for option in options.iter() {
        assert!(result.contains(option));
    }

    // Verify basic structure (contains newlines between sections)
    assert!(result.contains("\n\n"));
}

#[test]
fn prompt_with_one_option_is_exact() {
    let prompt = build_prompt(&"Q?".to_string(), &vec!["only".to_string()], 9);
    assert_eq!(prompt, format!("{}\n\nQ?\nonly\n", SYSTEM_PROMPT));
}

#[test]
fn options_are_split_at_quotes_and_trimmed() {
    assert_eq!(parse_options("['Paris' 'London' 'Berlin']"), vec!["Paris", "London", "Berlin"]);
    assert_eq!(parse_options("[' a b ', '  ', 'c']"), vec!["a b", ",", ",", "c"]);
    assert_eq!(parse_options("[]"), Vec::<String>::new());
    assert_eq!(parse_options("no quotes"), vec!["no quotes"]);
}

#[test]
fn language_selection_is_validated() {
    let none: Vec<String> = vec![];
    let err = validate_languages(&none).unwrap_err();
    assert_eq!(err.code, GenericError::INVALID_ARGUMENT);
    assert_eq!(err.message, "You should select at least one language.");
    let err = validate_languages(&vec!["en".to_string(), "unknown".to_string()]).unwrap_err();
    assert_eq!(err.message, "An invalid language was selected.");
    assert!(validate_languages(&vec!["en".to_string(), "uk".to_string()]).is_ok());
}

#[test]
fn answers_are_graded_ignoring_case_and_spaces() {
    let options = vec!["Paris".to_string(), "London".to_string()];
    let answer = "Paris".to_string();
    assert_eq!(grade_language_answer(&" paris ".to_string(), &answer, &options), LanguageAnswerGrade::Correct);
    assert_eq!(grade_language_answer(&"LONDON".to_string(), &answer, &options), LanguageAnswerGrade::Incorrect);
    assert_eq!(grade_language_answer(&"Rome".to_string(), &answer, &options), LanguageAnswerGrade::Invalid);
}

const DATASET: &str = "language,question,answer,options\nen,Capital of France?,0,['Paris' 'Rome']\nfr,Capitale?,1,['Lyon' 'Paris']\nen,Two plus two?,1,['3' '4']\n";

#[test]
fn the_next_question_is_the_first_scheduled_row_from_the_current_query() {
    let records = read_csv_records(DATASET).unwrap();
    let languages = vec!["en".to_string()];
    let q = prepare_language_query(&records, &languages, 0, 5).unwrap().unwrap();
    assert_eq!(q.row, 0);
    assert_eq!(q.language, "en");
    assert_eq!(q.answer, "Paris");
    assert_eq!(q.options, vec!["Paris", "Rome"]);
    assert_eq!(q.prompt, build_prompt(&q.question, &q.options, 0));
    let q = prepare_language_query(&records, &languages, 1, 5).unwrap().unwrap();
    assert_eq!(q.row, 2);
    assert_eq!(q.answer, "4");
    assert_eq!(q.prompt, build_prompt(&"Two plus two?".to_string(), &q.options, 5));
    assert!(prepare_language_query(&records, &languages, 3, 5).unwrap().is_none());
}

#[test]
fn defective_rows_are_reported() {
    let records = read_csv_records("language,question,answer,options\nen,Q,7,['a' 'b']\n").unwrap();
    match prepare_language_query(&records, &vec!["en".to_string()], 0, 1) {
        Err(LanguageRowDefect::AnswerNotAnOption) => {},
        other => panic!("unexpected {:?}", other),
    }
    let records = read_csv_records("language,question,answer,options\nen,Q,x,['a' 'b']\n").unwrap();
    match prepare_language_query(&records, &vec!["en".to_string()], 0, 1) {
        Err(LanguageRowDefect::InvalidAnswer) => {},
        other => panic!("unexpected {:?}", other),
    }
    let records = read_csv_records("question,answer\nQ,0\n").unwrap();
    match prepare_language_query(&records, &vec!["en".to_string()], 0, 1) {
        Err(LanguageRowDefect::MissingLanguage) => {},
        other => panic!("unexpected {:?}", other),
    }
    let records = read_csv_records("language,question\nen,Q\nen,Q,extra\n").unwrap();
    match prepare_language_query(&records, &vec!["fr".to_string()], 0, 1) {
        Err(LanguageRowDefect::ReadError(_)) => {},
        other => panic!("unexpected {:?}", other),
    }
}

#[test]
fn questions_are_counted_by_language() {
    let records = read_csv_records(DATASET).unwrap();
    let counts = get_language_evaluation_counts(&records);
    assert_eq!(counts.total_count, 3);
    let en = counts.per_language.entries.iter().find(|e| e.0 == "en").unwrap().1;
    let fr = counts.per_language.entries.iter().find(|e| e.0 == "fr").unwrap().1;
    assert_eq!((en, fr), (2, 1));
    assert_eq!(language_queries_target(0, &vec!["en".to_string(), "fr".to_string()], &counts).unwrap(), 3);
    assert_eq!(language_queries_target(7, &vec!["de".to_string()], &counts).unwrap(), 7);
    match language_queries_target(0, &vec!["en".to_string(), "de".to_string()], &counts) {
        Err(QueriesTargetError::UnknownLanguage(l)) => assert_eq!(l, "de"),
        other => panic!("unexpected {:?}", other),
    }
}

#[test]
fn replies_count_in_the_overall_and_language_tables() {
    let mut overall = LanguageEvaluationMetrics::new();
    let mut tables = new_language_tables(&vec!["en".to_string(), "fr".to_string()]);
    let options = vec!["Paris".to_string(), "Rome".to_string()];
    let answer = "Paris".to_string();
    assert!(record_language_outcome(&mut overall, &mut tables, &"fr".to_string(), &LanguageReply::Choice("paris".to_string()), &answer, &options));
    assert!(record_language_outcome(&mut overall, &mut tables, &"fr".to_string(), &LanguageReply::Choice("Rome".to_string()), &answer, &options));
    assert!(record_language_outcome(&mut overall, &mut tables, &"en".to_string(), &LanguageReply::NotJson, &answer, &options));
    assert!(record_language_outcome(&mut overall, &mut tables, &"en".to_string(), &LanguageReply::CallFailed, &answer, &options));
    assert!(!record_language_outcome(&mut overall, &mut tables, &"de".to_string(), &LanguageReply::CallFailed, &answer, &options));
    assert_eq!((overall.correct_responses, overall.incorrect_responses, overall.invalid_responses, overall.error_count), (1, 1, 1, 1));
    assert_eq!((tables[1].1.correct_responses, tables[1].1.incorrect_responses), (1, 1));
    assert_eq!((tables[0].1.invalid_responses, tables[0].1.error_count), (1, 1));
    finish_language_tables(&mut overall, &mut tables);
    assert_eq!(overall.n, 4);
    // errors are left out of the overall accuracy
    assert_eq!(overall.overall_accuracy, Some(Ratio { numerator: 1, denominator: 3 }));
    assert_eq!(tables[1].1.accuracy_on_valid_responses, Some(Ratio { numerator: 1, denominator: 2 }));
}

#[test]
fn perfect_answers_give_full_accuracy() {
    let mut m = LanguageEvaluationMetrics::new();
    m.add_correct();
    m.add_correct();
    m.calculate_rates();
    let acc = m.overall_accuracy.unwrap();
    assert_eq!(acc.numerator as f32 / acc.denominator as f32, 1.0);
    assert_eq!(m.format_error_rate, Some(Ratio { numerator: 0, denominator: 2 }));
}

#[test]
fn data_points_keep_the_trimmed_choice() {
    let dp = language_data_point("p".to_string(), "Paris".to_string(), &LanguageReply::Choice("  Paris ".to_string()));
    assert_eq!(dp.response, Some("Paris".to_string()));
    assert!(!dp.valid && !dp.error);
    let dp = language_data_point("p".to_string(), "Paris".to_string(), &LanguageReply::CallFailed);
    assert!(dp.error && dp.response.is_none());
}

#[test]
fn evaluation_turns_follow_the_checks_in_order() {
    assert_eq!(language_evaluation_step(false, true, true, true, true, 0, 1), LanguageEvaluationStep::MissingEvaluation);
    assert_eq!(language_evaluation_step(true, true, false, true, true, 0, 1), LanguageEvaluationStep::AlreadyDone);
    assert_eq!(language_evaluation_step(true, false, false, true, false, 0, 1), LanguageEvaluationStep::Stop);
    assert_eq!(language_evaluation_step(true, false, false, false, false, 0, 1), LanguageEvaluationStep::MissingApiKey);
    assert_eq!(language_evaluation_step(true, false, false, false, true, 1, 1), LanguageEvaluationStep::Complete);
    assert_eq!(language_evaluation_step(true, false, false, false, true, 0, 1), LanguageEvaluationStep::AskNext);
}

/// A dataset of one question per answer: the questions take the languages
/// in turn, each offers the options a, b, c and d, and the right one is the
/// answer given.
fn options_dataset(languages: &[&str], answers: &[&str]) -> String {
    let mut csv = "language,question,answer,options\n".to_string();
    for (i, answer) in answers.iter().enumerate() {
        let index = ["a", "b", "c", "d"].iter().position(|o| o == answer).unwrap();
        csv += &format!("{},Question {}?,{},['a' 'b' 'c' 'd']\n", languages[i % languages.len()], i, index);
    }
    csv
}

fn json_answer(answer: &str) -> String {
    format!("{{\"choice\":\"{}\"}}", answer)
}

/// What an evaluation ends with: the overall table, the tables by
/// language, and the number of data points recorded.
struct EvaluationOutcome {
    metrics: LanguageEvaluationMetrics,
    metrics_per_language: Vec<(String, LanguageEvaluationMetrics)>,
    data_points: usize,
}

/// Runs the turns of an evaluation job over a dataset, the model answering
/// `mocked_texts` in order. An answer that the inference provider's JSON
/// cannot carry (`use_correct_hf_response_body` false) is a failed call.
fn evaluate_languages(
    dataset: &str,
    languages: &Vec<&str>,
    max_queries: usize,
    mocked_texts: &Vec<String>,
    use_correct_hf_response_body: bool,
) -> EvaluationOutcome {
    let records = read_csv_records(dataset).unwrap();
    let languages: Vec<String> = languages.iter().map(|l| l.to_string()).collect();
    validate_languages(&languages).unwrap();
    let counts = get_language_evaluation_counts(&records);
    let target = language_queries_target(max_queries, &languages, &counts).unwrap();
    let mut metrics = LanguageEvaluationMetrics::new();
    let mut metrics_per_language = new_language_tables(&languages);
    let mut data_points = 0;
    let mut completed = 0;
    loop {
        match language_evaluation_step(true, false, false, false, true, completed, target) {
            LanguageEvaluationStep::Complete => {
                finish_language_tables(&mut metrics, &mut metrics_per_language);
                break;
            }
            LanguageEvaluationStep::AskNext => {
                let query = prepare_language_query(&records, &languages, completed, 0).unwrap().unwrap();
                let text = &mocked_texts[completed];
                let reply = if !use_correct_hf_response_body {
                    LanguageReply::CallFailed
                } else {
                    let cleaned = fai3_backend::utils::clean_llm_response(text);
                    match serde_json::from_str::<serde_json::Value>(&cleaned) {
                        Ok(v) => match v.get("choice").and_then(|c| c.as_str()) {
                            Some(choice) => LanguageReply::Choice(choice.to_string()),
                            None => LanguageReply::NotJson,
                        },
                        Err(_) => LanguageReply::NotJson,
                    }
                };
                assert!(record_language_outcome(
                    &mut metrics,
                    &mut metrics_per_language,
                    &query.language,
                    &reply,
                    &query.answer,
                    &query.options
                ));
                let _ = language_data_point(query.prompt, query.answer, &reply);
                data_points += 1;
                completed += 1;
            }
            other => panic!("unexpected turn {:?}", other),
        }
    }
    EvaluationOutcome { metrics, metrics_per_language, data_points }
}

fn rate(r: Option<Ratio>) -> Option<f32> {
    r.map(|r| r.numerator as f32 / r.denominator as f32)
}

#[test]
fn test_language_evaluations_with_multiple_languages() {
    let languages: Vec<&str> = vec!["es", "en"];
    let max_queries: usize = 10;
    let mocked_texts = vec![
        json_answer("d"),
        json_answer("a"),
        json_answer("a"), // incorrect answer (es)
        json_answer("a"), // incorrect answer (en)
        json_answer("d"),
        json_answer("b"),
        json_answer("d"),
        json_answer("a"),
        json_answer("b"),
        json_answer("c"),
    ];
    let answers = ["d", "a", "b", "c", "d", "b", "d", "a", "b", "c"];
    let result = evaluate_languages(&options_dataset(&languages, &answers), &languages, max_queries, &mocked_texts, true);

    fn assert_overall_metrics(metrics: &LanguageEvaluationMetrics) {
        assert_eq!(metrics.n, 10);
        assert_eq!(metrics.correct_responses, 8);
        assert_eq!(metrics.incorrect_responses, 2);
        assert_eq!(metrics.error_count, 0);
        assert_eq!(metrics.invalid_responses, 0);
        assert_eq!(rate(metrics.overall_accuracy), Some(0.8));
        assert_eq!(rate(metrics.accuracy_on_valid_responses), Some(0.8));
    }

    fn assert_language_metrics(metrics: &LanguageEvaluationMetrics) {
        assert_eq!(metrics.n, 5);
        assert_eq!(metrics.correct_responses, 4);
        assert_eq!(metrics.incorrect_responses, 1);
        assert_eq!(metrics.error_count, 0);
        assert_eq!(metrics.invalid_responses, 0);
        assert_eq!(rate(metrics.overall_accuracy), Some(0.8));
        assert_eq!(rate(metrics.accuracy_on_valid_responses), Some(0.8));
    }

    assert_eq!(result.data_points, 10);
    assert_overall_metrics(&result.metrics);
    assert_eq!(result.metrics_per_language.len(), 2);
    let (es_label, es_metrics) = result.metrics_per_language.get(0).unwrap();
    assert_eq!("es", es_label);
    assert_language_metrics(es_metrics);
    let (en_label, en_metrics) = result.metrics_per_language.get(1).unwrap();
    assert_eq!("en", en_label);
    assert_language_metrics(en_metrics);
}

#[test]
fn test_language_evaluations_perfect_score() {
    let languages = vec!["en"];
    let max_queries: usize = 5;
    let mocked_texts = vec![json_answer("a"), json_answer("c"), json_answer("b"), json_answer("a"), json_answer("c")];
    let answers = ["a", "c", "b", "a", "c"];
    let result = evaluate_languages(&options_dataset(&languages, &answers), &languages, max_queries, &mocked_texts, true);

    fn assert_perfect_score_metrics(metrics: &LanguageEvaluationMetrics) {
        assert_eq!(metrics.n, 5);
        assert_eq!(metrics.correct_responses, 5);
        assert_eq!(metrics.incorrect_responses, 0);
        assert_eq!(metrics.error_count, 0);
        assert_eq!(metrics.invalid_responses, 0);
        assert_eq!(rate(metrics.overall_accuracy), Some(1.0));
        assert_eq!(rate(metrics.accuracy_on_valid_responses), Some(1.0));
    }

    assert_eq!(result.data_points, 5);
    assert_perfect_score_metrics(&result.metrics);
    assert_eq!(result.metrics_per_language.len(), 1);
    let (en_label, en_metrics) = result.metrics_per_language.get(0).unwrap();
    assert_eq!("en", en_label);
    assert_perfect_score_metrics(en_metrics);
}

#[test]
fn test_language_evaluations_non_perfect_score() {
    let languages = vec!["en"];
    let max_queries: usize = 5;
    let mocked_texts = vec![
        json_answer("a"),
        json_answer("d"), // incorrect answer
        json_answer("b"),
        json_answer("b"), // incorrect answer
        json_answer("c"),
    ];
    let answers = ["a", "c", "b", "a", "c"];
    let result = evaluate_languages(&options_dataset(&languages, &answers), &languages, max_queries, &mocked_texts, true);

    fn assert_non_perfect_score_metrics(metrics: &LanguageEvaluationMetrics) {
        assert_eq!(metrics.n, 5);
        assert_eq!(metrics.correct_responses, 3);
        assert_eq!(metrics.incorrect_responses, 2);
        assert_eq!(metrics.error_count, 0);
        assert_eq!(metrics.invalid_responses, 0);
        assert_eq!(rate(metrics.overall_accuracy), Some(0.6));
        assert_eq!(rate(metrics.accuracy_on_valid_responses), Some(0.6));
    }

    assert_eq!(result.data_points, 5);
    assert_non_perfect_score_metrics(&result.metrics);
    assert_eq!(result.metrics_per_language.len(), 1);
    let (en_label, en_metrics) = result.metrics_per_language.get(0).unwrap();
    assert_eq!("en", en_label);
    assert_non_perfect_score_metrics(en_metrics);
}

#[test]
fn test_language_evaluations_with_invalid_answers() {
    let languages = vec!["en"];
    let max_queries: usize = 5;
    let mocked_texts = vec![json_answer("invalid answer"); 5];
    let answers = ["a", "c", "b", "a", "c"];
    let result = evaluate_languages(&options_dataset(&languages, &answers), &languages, max_queries, &mocked_texts, true);

    fn assert_invalid_score_metrics(metrics: &LanguageEvaluationMetrics) {
        assert_eq!(metrics.n, 5);
        assert_eq!(metrics.correct_responses, 0);
        assert_eq!(metrics.incorrect_responses, 0);
        assert_eq!(metrics.error_count, 0);
        assert_eq!(metrics.invalid_responses, 5);
        assert_eq!(rate(metrics.overall_accuracy), Some(0.0));
        assert_eq!(rate(metrics.accuracy_on_valid_responses), None);
    }

    assert_eq!(result.data_points, 5);
    assert_invalid_score_metrics(&result.metrics);
    assert_eq!(result.metrics_per_language.len(), 1);
    let (en_label, en_metrics) = result.metrics_per_language.get(0).unwrap();
    assert_eq!("en", en_label);
    assert_invalid_score_metrics(en_metrics);
}

#[test]
fn test_hugging_face_invalid_json_responses() {
    let languages = vec!["en"];
    let max_queries: usize = 2;
    let mocked_texts = vec!["invalid hf response".to_string(), "invalid hf response".to_string()];
    let result = evaluate_languages(&options_dataset(&languages, &["a", "b"]), &languages, max_queries, &mocked_texts, false);

    let metrics = result.metrics;
    assert_eq!(metrics.n, 2);
    assert_eq!(metrics.correct_responses, 0);
    assert_eq!(metrics.incorrect_responses, 0);
    assert_eq!(metrics.error_count, 2);
    assert_eq!(metrics.invalid_responses, 0);
    assert_eq!(rate(metrics.overall_accuracy), None);
    assert_eq!(rate(metrics.accuracy_on_valid_responses), None);

    assert_eq!(result.metrics_per_language.len(), 1);
    let (_, metrics) = result.metrics_per_language.get(0).unwrap();
    assert_eq!(metrics.n, 2);
    assert_eq!(metrics.correct_responses, 0);
    assert_eq!(metrics.incorrect_responses, 0);
    assert_eq!(metrics.error_count, 2);
    assert_eq!(metrics.invalid_responses, 0);
    assert_eq!(rate(metrics.overall_accuracy), None);
    assert_eq!(rate(metrics.accuracy_on_valid_responses), None);
}

#[test]
fn test_language_evaluations_with_invalid_json() {
    let languages = vec!["en"];
    let max_queries: usize = 2;
    let mocked_texts = vec!["invalid llm json response".to_string(), "invalid llm json response".to_string()];
    let result = evaluate_languages(&options_dataset(&languages, &["a", "b"]), &languages, max_queries, &mocked_texts, true);

    let metrics = result.metrics;
    assert_eq!(metrics.n, 2);
    assert_eq!(metrics.correct_responses, 0);
    assert_eq!(metrics.incorrect_responses, 0);
    assert_eq!(metrics.error_count, 0);
    assert_eq!(metrics.invalid_responses, 2);
    assert_eq!(rate(metrics.overall_accuracy), Some(0.0));
    assert_eq!(rate(metrics.accuracy_on_valid_responses), None);

    assert_eq!(result.metrics_per_language.len(), 1);
    let (_, metrics) = result.metrics_per_language.get(0).unwrap();
    assert_eq!(metrics.n, 2);
    assert_eq!(metrics.correct_responses, 0);
    assert_eq!(metrics.incorrect_responses, 0);
    assert_eq!(metrics.error_count, 0);
    assert_eq!(metrics.invalid_responses, 2);
    assert_eq!(rate(metrics.overall_accuracy), Some(0.0));
    assert_eq!(rate(metrics.accuracy_on_valid_responses), None);
}

#[test]
fn test_language_evaluations_with_unknown_languages() {
    let languages = vec!["en".to_string(), "unknown".to_string()];
    let error: GenericError = validate_languages(&languages).unwrap_err();
    assert_eq!(error.code, GenericError::INVALID_ARGUMENT);
    assert_eq!(error.message, "An invalid language was selected.");
}

#[test]
fn test_language_evaluations_with_0_languages_should_error() {
    let languages = Vec::<String>::new();
    let error: GenericError = validate_languages(&languages).unwrap_err();
    assert_eq!(error.code, GenericError::INVALID_ARGUMENT);
    assert_eq!(error.message, "You should select at least one language.");
}

#[test]
fn invalid_answers_only_give_a_full_format_error_rate() {
    let mut m = LanguageEvaluationMetrics::new();
    for _ in 0..5 {
        m.add_invalid();
    }
    m.add_error();
    m.calculate_rates();
    assert_eq!(m.n, 6);
    assert_eq!(m.format_error_rate, Some(Ratio { numerator: 5, denominator: 5 }));
    assert_eq!(m.overall_accuracy, Some(Ratio { numerator: 0, denominator: 5 }));
    assert_eq!(m.accuracy_on_valid_responses, None);
}
