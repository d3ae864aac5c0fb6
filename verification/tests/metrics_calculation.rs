use fai3_backend::metrics::{
    accuracy, average_odds_groups, calculate_confusion_matrix, calculate_group_counts, calculate_overall_confusion_matrix,
    can_calculate_precision, can_calculate_recall, count_for, equal_opportunity_groups,
    llm_metrics_plan, parity_groups, precision, recall, ClassifiedPoint, GroupMembership,
    LlmMetricsPlan,
};
use fai3_backend::ratio::Ratio;

fn value(r: Ratio) -> f32 {
    r.numerator as f32 / r.denominator as f32
}

/// A data point of the `gender` variable; `privileged` stands for a feature
/// above the group threshold.
fn point(target: bool, predicted: bool, privileged: bool) -> ClassifiedPoint {
    ClassifiedPoint {
        target,
        predicted,
        groups: vec![GroupMembership { variable_name: "gender".to_string(), privileged }],
    }
}

fn mock_data_points_all_correct() -> Vec<ClassifiedPoint> {
    vec![point(true, true, false), point(false, false, true)]
}

fn mock_data_points_stat_parity_example() -> Vec<ClassifiedPoint> {
    vec![
        point(true, true, true),
        point(false, false, true),
        point(true, true, false),
        point(false, true, false),
    ]
}

fn mock_data_points_average_odds() -> Vec<ClassifiedPoint> {
    vec![
        point(true, true, true),
        point(true, false, true),
        point(false, true, true),
        point(false, false, true),
        point(true, true, false),
        point(true, false, false),
        point(false, true, false),
        point(false, false, false),
    ]
}

fn mock_data_points_eod() -> Vec<ClassifiedPoint> {
    vec![
        point(true, true, true),
        point(true, true, true),
        point(true, true, false),
        point(true, false, false),
    ]
}

fn mock_data_points_precision() -> Vec<ClassifiedPoint> {
    vec![
        point(true, true, false),
        point(true, true, false),
        point(false, true, false),
        point(false, true, false),
    ]
}

fn mock_data_points_recall() -> Vec<ClassifiedPoint> {
    vec![
        point(true, true, false),
        point(true, true, false),
        point(true, false, false),
        point(true, false, false),
    ]
}

/// Statistical parity difference of the first variable:
/// `P(pos | unprivileged) - P(pos | privileged)`.
fn spd(points: &Vec<ClassifiedPoint>) -> f32 {
    let g = &parity_groups(points)[0];
    g.unprivileged_positives as f32 / g.unprivileged_total as f32
        - g.privileged_positives as f32 / g.privileged_total as f32
}

#[test]
fn metrics_calculation_test_perfect_accuracy() {
    let data_points = mock_data_points_all_correct();
    let acc = value(accuracy(&data_points));
    assert!((acc - 1.0).abs() < 1e-6, "Accuracy should be 1.0 for a perfect classifier");
}

#[test]
fn metrics_calculation_test_statistical_parity_difference_basic() {
    let data_points = mock_data_points_stat_parity_example();
    let spd = spd(&data_points);
    assert!((spd - 0.5).abs() < 1e-6, "Statistical Parity Difference should be 0.5");
}

#[test]
fn metrics_calculation_test_disparate_impact_basic() {
    let data = mock_data_points_stat_parity_example();
    let g = &parity_groups(&data)[0];
    let di = (g.unprivileged_positives as f32 / g.unprivileged_total as f32)
        / (g.privileged_positives as f32 / g.privileged_total as f32);
    assert!((di - 2.0).abs() < 1e-6, "Disparate Impact should be 2.0");
}

#[test]
fn metrics_calculation_test_average_odds_difference_basic() {
    let data = mock_data_points_average_odds();
    let c = &average_odds_groups(&data)[0];
    let p_fpr = c.privileged_fp as f32 / (c.privileged_fp + c.privileged_tn) as f32;
    let p_tpr = c.privileged_tp as f32 / (c.privileged_tp + c.privileged_fn) as f32;
    let u_fpr = c.unprivileged_fp as f32 / (c.unprivileged_fp + c.unprivileged_tn) as f32;
    let u_tpr = c.unprivileged_tp as f32 / (c.unprivileged_tp + c.unprivileged_fn) as f32;
    let aod = ((u_fpr - p_fpr) + (u_tpr - p_tpr)) / 2.0;
    assert!((aod - 0.0).abs() < 1e-6, "Average Odds Difference should be 0.0");
}

#[test]
fn metrics_calculation_test_eod_basic() {
    let data = mock_data_points_eod();
    let o = &equal_opportunity_groups(&data)[0];
    let p_tpr = o.privileged_predicted_label as f32 / o.privileged_label as f32;
    let u_tpr = o.unprivileged_predicted_label as f32 / o.unprivileged_label as f32;
    let eod = u_tpr - p_tpr;
    assert!((eod + 0.5).abs() < 1e-6, "Equal Opportunity Difference should be -0.5");
}

#[test]
fn metrics_calculation_test_precision_basic() {
    let data = mock_data_points_precision();
    let prec = value(precision(&data));
    assert!((prec - 0.5).abs() < 1e-6, "Precision should be 0.5");
}

#[test]
fn metrics_calculation_test_recall_basic() {
    let data = mock_data_points_recall();
    let rec = value(recall(&data));
    assert!((rec - 0.5).abs() < 1e-6, "Recall should be 0.5");
}

#[test]
fn group_counts_split_by_privilege() {
    let data = mock_data_points_stat_parity_example();
    let (privileged, unprivileged, privileged_positive, unprivileged_positive) = calculate_group_counts(&data);
    let gender = "gender".to_string();
    assert_eq!(count_for(&privileged, &gender), 2);
    assert_eq!(count_for(&unprivileged, &gender), 2);
    assert_eq!(count_for(&privileged_positive, &gender), 1);
    assert_eq!(count_for(&unprivileged_positive, &gender), 2);
    assert_eq!(count_for(&privileged, &"race".to_string()), 0);
}

#[test]
fn overall_confusion_matrix_counts_every_point_once() {
    let data = mock_data_points_average_odds();
    assert_eq!(calculate_overall_confusion_matrix(&data), (2, 2, 2, 2));
    assert!(!can_calculate_precision(0, 0));
    assert!(can_calculate_recall(1, 0));
}

#[test]
fn one_sided_groups_give_only_overall_metrics() {
    let data = mock_data_points_precision();
    match llm_metrics_plan(&data) {
        LlmMetricsPlan::Partial { accuracy, precision, recall } => {
            assert_eq!(accuracy, Some(Ratio { numerator: 2, denominator: 4 }));
            assert_eq!(precision, Some(Ratio { numerator: 2, denominator: 4 }));
            assert_eq!(recall, Some(Ratio { numerator: 2, denominator: 2 }));
        },
        other => panic!("unexpected {:?}", other),
    }
    let negatives = vec![point(false, false, false)];
    match llm_metrics_plan(&negatives) {
        LlmMetricsPlan::Partial { accuracy, precision, recall } => {
            assert_eq!(accuracy, Some(Ratio { numerator: 1, denominator: 1 }));
            assert_eq!(precision, None);
            assert_eq!(recall, None);
        },
        other => panic!("unexpected {:?}", other),
    }
    match llm_metrics_plan(&vec![]) {
        LlmMetricsPlan::Partial { accuracy, precision, recall } => {
            assert!(accuracy.is_none() && precision.is_none() && recall.is_none());
        },
        other => panic!("unexpected {:?}", other),
    }
    assert!(matches!(llm_metrics_plan(&mock_data_points_stat_parity_example()), LlmMetricsPlan::AllMetrics));
}

#[test]
fn the_eight_confusion_counts_cover_every_point() {
    let data = mock_data_points_average_odds();
    let (ptp, pfp, ptn, pfn, utp, ufp, utn, ufn) = calculate_confusion_matrix(&data);
    let name = "gender".to_string();
    let counts: Vec<u128> = [&ptp, &pfp, &ptn, &pfn, &utp, &ufp, &utn, &ufn].iter().map(|m| count_for(m, &name)).collect();
    assert_eq!(counts, vec![1, 1, 1, 1, 1, 1, 1, 1]);
    assert_eq!(counts.iter().sum::<u128>(), data.len() as u128);
    assert_eq!(count_for(&ptp, &name) + count_for(&utp, &name), 2);
}
