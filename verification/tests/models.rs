use fai3_backend::model::{
    check_dataset_shape, data_point_position, feature_rows, get_last_model_evaluations,
    initial_details_history, is_owner, is_valid_model_name, last_computed_evaluation_id,
    last_computed_evaluation_id_for_dataset, privileged_map_from_labels, select_models,
    update_details_history, EvaluationRef, KeyValuePair, ModelDetails,
};

fn details(d: &str) -> ModelDetails {
    ModelDetails {
        description: d.to_string(),
        framework: "Rust ML".to_string(),
        objective: "Testing functionality".to_string(),
        url: "http://example.com/testmodel".to_string(),
    }
}

#[test]
fn blank_model_names_are_refused() {
    assert!(is_valid_model_name("Test Model"));
    assert!(!is_valid_model_name("   "));
    assert!(!is_valid_model_name(""));
}

#[test]
fn details_history_grows_with_versions_or_is_edited() {
    let mut history = initial_details_history(&"Test Model".to_string(), &details("Example model for testing"), 7);
    assert_eq!(history.len(), 1);
    assert_eq!((history[0].version, history[0].timestamp), (0, 7));
    let mut version: u128 = 0;
    update_details_history(&mut history, &mut version, &"Renamed".to_string(), &details("v2"), false, 8);
    assert_eq!(history.len(), 2);
    assert_eq!((history[1].version, version), (1, 1));
    assert_eq!(history[1].name, "Renamed");
    update_details_history(&mut history, &mut version, &"Fixed".to_string(), &details("v2b"), true, 9);
    assert_eq!(history.len(), 2);
    assert_eq!((history[1].version, version, history[1].timestamp), (1, 1, 9));
    assert_eq!(history[1].details.description, "v2b");
    assert_eq!(history[0].name, "Test Model");
}

#[test]
fn only_listed_owners_are_owners() {
    let owners = vec![vec![1u8, 2], vec![3u8]];
    assert!(is_owner(&owners, &vec![3]));
    assert!(!is_owner(&owners, &vec![1]));
}

#[test]
fn pairs_become_a_map_where_the_last_pair_wins() {
    let map = KeyValuePair::to_hashmap(vec![
        KeyValuePair { key: "gender".to_string(), value: 0 },
        KeyValuePair { key: "race".to_string(), value: 2 },
        KeyValuePair { key: "gender".to_string(), value: 5 },
    ]);
    assert_eq!(map.entries.len(), 2);
    assert_eq!(map.get(&"gender".to_string()), Some(5));
    assert_eq!(map.get(&"race".to_string()), Some(2));
    assert_eq!(map.get(&"age".to_string()), None);
    let labels = privileged_map_from_labels(&vec!["a".to_string(), "b".to_string()], &vec![4, 6, 8]);
    assert_eq!(labels.get(&"b".to_string()), Some(6));
}

#[test]
fn dataset_shapes_are_checked() {
    let features: Vec<Vec<f64>> = vec![vec![1.0, 2.0], vec![3.0, 4.0]];
    assert!(check_dataset_shape(&features, 2, 2).is_ok());
    assert_eq!(
        check_dataset_shape(&features, 2, 3).err(),
        Some("Error: Lengths of labels and predictions must be equal.".to_string())
    );
    assert_eq!(
        check_dataset_shape(&features, 3, 3).err(),
        Some("Error: All feature columns must have the same length as labels.".to_string())
    );
    assert_eq!(feature_rows(&features, 2), vec![vec![1.0, 3.0], vec![2.0, 4.0]]);
    assert_eq!(data_point_position(&vec![4, 9, 9], 9), Some(1));
    assert_eq!(data_point_position(&vec![4], 9), None);
}

#[test]
fn model_listing_filters_by_kind_and_limit() {
    let kinds = vec![true, false, true, true];
    assert_eq!(select_models(&kinds, &Some("llm".to_string()), 2), vec![0, 2]);
    assert_eq!(select_models(&kinds, &Some("classifier".to_string()), 10), vec![1]);
    assert_eq!(select_models(&kinds, &Some("other".to_string()), 3), vec![0, 1, 2]);
    assert_eq!(select_models(&kinds, &None, 0), Vec::<usize>::new());
}

fn evaluation(id: u128, dataset: &str) -> EvaluationRef {
    EvaluationRef { model_evaluation_id: id, dataset: dataset.to_string() }
}

#[test]
fn latest_evaluations_are_found_by_dataset() {
    let evals = vec![evaluation(3, "pisa"), evaluation(5, "compas"), evaluation(7, "pisa"), evaluation(7, "pisa")];
    assert_eq!(last_computed_evaluation_id(&vec![3, 9, 4]), 9);
    assert_eq!(last_computed_evaluation_id(&vec![]), 0);
    assert_eq!(last_computed_evaluation_id_for_dataset(&evals, &"pisa".to_string()), Ok(3));
    assert_eq!(
        last_computed_evaluation_id_for_dataset(&evals, &"compas_x".to_string()),
        Err("No evaluations found for the dataset `compas_x`.".to_string())
    );
    let mut found = get_last_model_evaluations(&evals, &vec!["compas".to_string(), "pisa".to_string()]).unwrap();
    found.sort();
    assert_eq!(found, vec![1, 2]);
    assert_eq!(
        get_last_model_evaluations(&evals, &vec!["pisa".to_string(), "unknown".to_string()]).err(),
        Some("Not all required datasets have been found".to_string())
    );
    assert_eq!(
        get_last_model_evaluations(&evals, &vec![]).err(),
        Some("Datasets length cannot be zero".to_string())
    );
}
