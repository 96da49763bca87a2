use bayesite_core::artifact::{
    artifact_identity_entries, coordinate_order_value, report_count_value, ArtifactIdentity, PARAMETER_SUMMARY_SCALE,
    PRIOR_PREDICTIVE_DRAW_INDEX_BASE, REPLICATE_INDEX_BASE, SIMULATION_INDEX_BASE, V0_PROVISIONAL, WORKFLOW_FORMAT,
};
use bayesite_core::json::Value;

fn int_coord(entries: &[&[i64]]) -> Value {
    Value::Array(
        entries
            .iter()
            .map(|coord| Value::Array(coord.iter().map(|&index| Value::Int(index)).collect()))
            .collect(),
    )
}

#[test]
fn coordinate_order_is_zero_based_row_major() {
    assert_eq!(coordinate_order_value(&[]), int_coord(&[&[]]));
    assert_eq!(coordinate_order_value(&[3]), int_coord(&[&[0], &[1], &[2]]));
    assert_eq!(
        coordinate_order_value(&[2, 2]),
        int_coord(&[&[0, 0], &[0, 1], &[1, 0], &[1, 1]])
    );
    assert_eq!(coordinate_order_value(&[0]), Value::Array(Vec::new()));
}

#[test]
fn artifact_identity_entries_are_explicit_and_ordered() {
    assert_eq!(
        artifact_identity_entries(ArtifactIdentity::posterior_draws()),
        vec![
            (
                "artifact_kind".to_string(),
                Value::Str("posterior_draws".to_string())
            ),
            (
                "artifact_scope".to_string(),
                Value::Str("observed_data_conditioned_parameter_draws".to_string())
            ),
        ]
    );
    assert_eq!(
        artifact_identity_entries(ArtifactIdentity::prior_predictive_draws()),
        vec![
            (
                "artifact_kind".to_string(),
                Value::Str("prior_predictive_draws".to_string())
            ),
            (
                "artifact_scope".to_string(),
                Value::Str("declared_data_conditioned_site_draws".to_string())
            ),
        ]
    );
}

#[test]
fn prior_predictive_draw_index_base_names_its_ordering() {
    assert_eq!(
        PRIOR_PREDICTIVE_DRAW_INDEX_BASE,
        "zero_based_prior_predictive_draw_order"
    );
}

#[test]
fn workflow_report_labels_name_their_scales_and_indexes() {
    assert_eq!(WORKFLOW_FORMAT, V0_PROVISIONAL);
    assert_eq!(PARAMETER_SUMMARY_SCALE, "constrained_parameter_value");
    assert_eq!(REPLICATE_INDEX_BASE, "zero_based_replicate_order");
    assert_eq!(SIMULATION_INDEX_BASE, "zero_based_simulation_order");
}

#[test]
fn report_count_value_rejects_unreportable_counts() {
    assert_eq!(report_count_value(7, "test count").unwrap(), Value::Int(7));
    assert_eq!(
        report_count_value(i64::MAX as usize + 1, "test count")
            .unwrap_err()
            .message,
        "test count must be in 0..=9223372036854775807 because artifacts report counts as JSON integers"
    );
}
