use fai3_backend::fairness::{
    counterfactual_point, counterfactual_row, CounterfactualCounts, build_fairness_prompt, classify_fairness_response, expected_result, fairness_dataset_for,
    format_example, format_row_attributes, personalized_prompt, pick_example_rows, pisa_dataset,
    predicted_positions, prepare_fairness_prompt, FairnessRun, PISA_PROMPT,
};
use fai3_backend::errors::{model_lookup_result, GenericError};
use fai3_backend::model::{last_computed_evaluation_id_for_dataset, EvaluationRef};
use fai3_backend::table::{parse_csv_table, read_csv_records};

const TRAIN: &str = "male,grade,readingScore\n1,10,H\n1,9,L\n0,11,H\n0,8,L\n";

#[test]
fn only_the_pisa_dataset_is_known() {
    let d = fairness_dataset_for("pisa").unwrap();
    assert_eq!(d.sensible_attribute, "male");
    assert_eq!(d.predict_attribute_values, ["L", "H"]);
    assert_eq!(fairness_dataset_for("compas").err(), Some("Unknown dataset passed.".to_string()));
}

#[test]
fn answers_read_as_one_of_the_two_values() {
    let values = ["L", "H"];
    assert_eq!(classify_fairness_response(" H\n", values), Ok(true));
    assert_eq!(classify_fairness_response("L", values), Ok(false));
    assert_eq!(classify_fairness_response(" maybe ", values), Err("Unknown response 'maybe'".to_string()));
}

#[test]
fn examples_list_sorted_attributes_then_the_score() {
    let table = parse_csv_table(TRAIN).unwrap();
    let example = format_example(&table.headers, &table.rows[0], "male");
    assert_eq!(example, "<Student Attributes>: grade: 10\n<Answer>: readingScore: H");
    let attrs = format_row_attributes(&table.headers, &table.rows[1], "readingScore");
    assert_eq!(attrs, "grade: 9, male: 1");
}

#[test]
fn each_example_comes_from_its_group() {
    let table = parse_csv_table(TRAIN).unwrap();
    let rows = pick_example_rows(&table, "male", ["0", "1"], ["L", "H"], 7).unwrap();
    assert_eq!(rows, vec![0, 1, 2, 3]);
    let small = parse_csv_table("male,readingScore\n1,H\n").unwrap();
    assert_eq!(
        pick_example_rows(&small, "male", ["0", "1"], ["L", "H"], 7).err(),
        Some("male with value 1 and low score not found".to_string())
    );
}

#[test]
fn the_prompt_holds_the_four_examples() {
    let table = parse_csv_table(TRAIN).unwrap();
    let prompt = build_fairness_prompt(&table, &pisa_dataset(), 3).unwrap();
    assert!(!prompt.contains("<EXAMPLE_"));
    for expected in [
        "<Student Attributes>: grade: 10\n<Answer>: readingScore: H",
        "<Student Attributes>: grade: 9\n<Answer>: readingScore: L",
        "<Student Attributes>: grade: 11\n<Answer>: readingScore: H",
        "<Student Attributes>: grade: 8\n<Answer>: readingScore: L",
    ] {
        assert!(prompt.contains(expected));
    }
    assert!(prompt.contains("<Student Attributes>: *?*"));
    let test = parse_csv_table("grade,male,readingScore\n10,1,L\n").unwrap();
    let full = personalized_prompt(&prompt, &test.headers, &test.rows[0], "readingScore");
    assert!(full.contains("<Student Attributes>: grade: 10, male: 1\n"));
    assert!(!full.contains("*?*"));
    assert_eq!(expected_result(&test.headers, &test.rows[0], "readingScore", ["L", "H"]), Some(false));
}

#[test]
fn training_tables_are_checked() {
    let d = pisa_dataset();
    assert_eq!(
        prepare_fairness_prompt("male,readingScore\n", &d, 1).err(),
        Some("Sensible attribute 'male' not found in CSV".to_string())
    );
    assert_eq!(
        prepare_fairness_prompt("male,grade\n1,2\n", &d, 1).err(),
        Some("Required column 'readingScore' not found in CSV".to_string())
    );
    assert!(prepare_fairness_prompt("male,readingScore\n1,H\n1\n", &d, 1).is_err());
    assert!(PISA_PROMPT.contains("*<EXAMPLE_3>*"));
}

#[test]
fn the_run_counts_answers_errors_and_stops_at_the_budget() {
    let mut run = FairnessRun::new();
    let values = ["L", "H"];
    let (p0, more) = run.record_reply("p0".to_string(), true, &Ok(" H ".to_string()), values, 3);
    assert!(more);
    assert_eq!((p0.data_point_id, p0.predicted, p0.valid, p0.error), (0, Some(true), true, false));
    assert_eq!(p0.response, Some("H".to_string()));
    let (p1, more) = run.record_reply("p1".to_string(), false, &Ok("what".to_string()), values, 3);
    assert!(more);
    assert_eq!((p1.data_point_id, p1.predicted, p1.valid, p1.error), (1, None, false, false));
    let (p2, more) = run.record_reply("p2".to_string(), false, &Err("http".to_string()), values, 3);
    assert!(!more);
    assert_eq!((p2.data_point_id, p2.predicted, p2.response.is_none(), p2.error), (2, None, true, true));
    assert_eq!((run.queries, run.wrong_responses, run.call_errors), (3, 1, 1));
    assert_eq!(predicted_positions(&vec![p0, p1, p2]), vec![0]);
}

#[test]
fn unreadable_records_are_kept_as_errors() {
    let records = read_csv_records("a,b\n1,2\n3\n4,5\n").unwrap();
    assert_eq!(records.records.len(), 3);
    assert!(records.records[0].is_ok() && records.records[1].is_err() && records.records[2].is_ok());
    assert!(parse_csv_table("a,b\n1,2\n3\n").is_err());
}

/// The error of an average over datasets: the first dataset without an
/// evaluation, in the resource category.
fn average_error(evaluations: &Vec<EvaluationRef>, datasets: &Vec<String>) -> Option<GenericError> {
    for dataset in datasets {
        if let Err(message) = last_computed_evaluation_id_for_dataset(evaluations, dataset) {
            return Some(GenericError::new(300, &message));
        }
    }
    None
}

#[test]
fn test_calculate_all_llm_metrics_with_non_existing_model() {
    let err = model_lookup_result::<u128>(None).unwrap_err();
    assert_eq!(format!("{}: {}", err.code, err.message), "301: Model not found");
}

#[test]
fn test_average_llm_metrics_should_error_when_dataset_was_not_calculated() {
    let evaluations = vec![EvaluationRef { model_evaluation_id: 1, dataset: "pisa".to_string() }];
    let datasets = vec!["pisa".to_string(), "compas".to_string()];
    let error = average_error(&evaluations, &datasets).expect("Result should be an error");
    assert_eq!(error.category, 300);
    assert_eq!(error.code, 300);
    assert_eq!(error.message, "No evaluations found for the dataset `compas`.");
}

#[test]
fn test_average_llm_metrics_with_unknown_dataset_should_return_error() {
    let datasets = vec!["unknown_dataset".to_string()];
    let error = average_error(&Vec::new(), &datasets).expect("Result should be an error");
    assert_eq!(error.category, 300);
    assert_eq!(error.code, 300);
    assert_eq!(error.message, "No evaluations found for the dataset `unknown_dataset`.");
}

/// Two test rows: a male student with a high score, then a female student
/// with a low one.
const TEST_ROWS: &str = "male,grade,readingScore\n1,10,H\n0,9,L\n";

/// The counterfactual outcome of a fairness run on the two test rows: the
/// model answers `returned` to the queries and `cf_returned` (or the same
/// answers) to their counterfactual variants. Gives the run, the counts and
/// the rates in all and by value of the sensitive attribute.
fn counterfactual_run(returned: Vec<&str>, cf_returned: Option<Vec<&str>>) -> (FairnessRun, CounterfactualCounts, f32, Vec<f32>) {
    let dataset = pisa_dataset();
    let test = read_csv_records(TEST_ROWS).unwrap();
    let mut run = FairnessRun::new();
    let mut counts = CounterfactualCounts::new();
    for (i, record) in test.records.iter().enumerate() {
        let row = record.as_ref().unwrap();
        let target = expected_result(&test.headers, row, dataset.predict_attribute, dataset.predict_attribute_values).unwrap();
        let group = expected_result(&test.headers, row, dataset.sensible_attribute, dataset.sensible_attribute_values);
        let prompt = personalized_prompt("<*?*>", &test.headers, row, dataset.predict_attribute);
        let reply: Result<String, String> = Ok(returned[i].to_string());
        let (point, _) = run.record_reply(prompt, target, &reply, dataset.predict_attribute_values, returned.len());
        let cf_row = counterfactual_row(&test.headers, row, dataset.sensible_attribute, dataset.sensible_attribute_values);
        let cf_prompt = personalized_prompt("<*?*>", &test.headers, &cf_row, dataset.predict_attribute);
        let cf_text = cf_returned.as_ref().map(|v| v[i]).unwrap_or(returned[i]);
        let cf_point = counterfactual_point(cf_prompt, target, &Ok(cf_text.to_string()), dataset.predict_attribute_values);
        counts.record(group, &point, &cf_point);
    }
    let rate = |changed: u32, total: u32| if total == 0 { 0.0 } else { changed as f32 / total as f32 };
    let by_value = (0..2).map(|i| rate(counts.changed_by_value[i], counts.total_by_value[i])).collect();
    (run, counts, rate(counts.changed, counts.total), by_value)
}

#[test]
fn counterfactual_rows_swap_the_sensitive_value() {
    let headers = vec!["male".to_string(), "grade".to_string()];
    let row = vec!["1".to_string(), "10".to_string()];
    assert_eq!(counterfactual_row(&headers, &row, "male", ["0", "1"]), vec!["0", "10"]);
    let row = vec!["x".to_string(), "10".to_string()];
    assert_eq!(counterfactual_row(&headers, &row, "male", ["0", "1"]), vec!["x", "10"]);
    let p = personalized_prompt("<*?*>", &headers, &vec!["0".to_string(), "10".to_string()], "readingScore");
    assert_eq!(p, "<grade: 10, male: 0>");
}

#[test]
fn test_llm_fairness_happy_path() {
    let (run, counts, overall, by_value) = counterfactual_run(vec!["H", "L"], None);
    assert_eq!(run.queries, 2);
    assert_eq!(run.wrong_responses, 0);
    assert_eq!(run.call_errors, 0);
    assert_eq!(overall, 0.0);
    assert_eq!(by_value, vec![0.0, 0.0]);
    assert_eq!(counts.total_by_value, [1, 1]);
}

#[test]
fn test_llm_counterfactual_fairness_worst_case() {
    let (run, _, overall, by_value) = counterfactual_run(vec!["H", "L"], Some(vec!["L", "H"]));
    assert_eq!(run.queries, 2);
    assert_eq!(run.wrong_responses, 0);
    assert_eq!(run.call_errors, 0);
    assert_eq!(overall, 1.0);
    assert_eq!(by_value, vec![1.0, 1.0]);
}

#[test]
fn test_llm_counterfactual_fairness_50_percent_change() {
    let (run, _, overall, by_value) = counterfactual_run(vec!["H", "L"], Some(vec!["L", "L"]));
    assert_eq!(run.queries, 2);
    assert_eq!(run.wrong_responses, 0);
    assert_eq!(run.call_errors, 0);
    assert_eq!(overall, 0.5);
    assert_eq!(by_value, vec![0.0, 1.0]);
}

#[test]
fn failed_calls_are_left_out_of_the_counterfactual_rates() {
    let values = ["L", "H"];
    let mut counts = CounterfactualCounts::new();
    let normal = counterfactual_point("p".to_string(), true, &Err("http".to_string()), values);
    let cf = counterfactual_point("q".to_string(), true, &Ok("H".to_string()), values);
    counts.record(Some(true), &normal, &cf);
    assert_eq!((counts.total, counts.changed), (0, 0));
    let unreadable = counterfactual_point("p".to_string(), true, &Ok("?".to_string()), values);
    let also = counterfactual_point("q".to_string(), true, &Ok("!".to_string()), values);
    counts.record(Some(false), &unreadable, &also);
    assert_eq!((counts.total, counts.changed, counts.total_by_value), (1, 0, [1, 0]));
    counts.record(Some(false), &unreadable, &cf);
    assert_eq!((counts.changed, counts.changed_by_value), (1, [1, 0]));
}
