use popgetter::parquet::{
    files_from_metrics, get_metrics_from_file_sql, get_metrics_sql, MetricRequest,
};

#[test]
fn test_get_metrics_from_file_sql() {
    let file_url = "https://popgetter.blob.core.windows.net/releases/v0.2/gb_nir/metrics/DZ21DT0001.parquet";
    let columns = vec!["1".to_string(), "2".to_string()];
    let actual_str = get_metrics_from_file_sql(file_url, &columns, None).unwrap();
    let expected_str_without_geo_ids = "SELECT \"GEO_ID\", \"1\", \"2\" FROM read_parquet('https://popgetter.blob.core.windows.net/releases/v0.2/gb_nir/metrics/DZ21DT0001.parquet')";
    assert_eq!(actual_str, expected_str_without_geo_ids);

    let geo_ids = vec!["N20000001".to_string(), "N20000002".to_string()];
    let actual_str = get_metrics_from_file_sql(file_url, &columns, Some(&geo_ids)).unwrap();
    let expected_str_with_geo_ids = "SELECT \"GEO_ID\", \"1\", \"2\" FROM read_parquet('https://popgetter.blob.core.windows.net/releases/v0.2/gb_nir/metrics/DZ21DT0001.parquet') WHERE \"GEO_ID\" IN ('N20000001', 'N20000002')";
    println!("{expected_str_with_geo_ids}");
    assert_eq!(actual_str, expected_str_with_geo_ids);
}

#[test]
fn test_get_metrics_sql() {
    let file_url1 = "https://popgetter.blob.core.windows.net/releases/v0.2/gb_nir/metrics/DZ21DT0001.parquet";
    let file_url2 = "https://popgetter.blob.core.windows.net/releases/v0.2/gb_nir/metrics/DZ21DT0002.parquet";
    let geo_ids = vec!["N20000001".to_string(), "N20000002".to_string()];
    let metric_requests = vec![
        MetricRequest {
            column: "1".to_string(),
            metric_file: file_url1.to_string(),
            geom_file: "".to_string(),
        },
        MetricRequest {
            column: "2".to_string(),
            metric_file: file_url1.to_string(),
            geom_file: "".to_string(),
        },
        MetricRequest {
            column: "3".to_string(),
            metric_file: file_url2.to_string(),
            geom_file: "".to_string(),
        },
        MetricRequest {
            column: "4".to_string(),
            metric_file: file_url2.to_string(),
            geom_file: "".to_string(),
        },
    ];

    let expected_single_file_query = r#"SELECT "GEO_ID", "1", "2" FROM read_parquet('https://popgetter.blob.core.windows.net/releases/v0.2/gb_nir/metrics/DZ21DT0001.parquet') WHERE "GEO_ID" IN ('N20000001', 'N20000002')"#;
    let first_two = vec![metric_requests[0].clone(), metric_requests[1].clone()];
    let actual_single_file_query = get_metrics_sql(&first_two, Some(&geo_ids)).unwrap();
    assert_eq!(actual_single_file_query, expected_single_file_query);

    let expected_multi_file_query = r#"SELECT q0.GEO_ID, q0."1", q0."2", q1."3", q1."4"
FROM (SELECT "GEO_ID", "1", "2" FROM read_parquet('https://popgetter.blob.core.windows.net/releases/v0.2/gb_nir/metrics/DZ21DT0001.parquet') WHERE "GEO_ID" IN ('N20000001', 'N20000002')) q0
JOIN (SELECT "GEO_ID", "3", "4" FROM read_parquet('https://popgetter.blob.core.windows.net/releases/v0.2/gb_nir/metrics/DZ21DT0002.parquet') WHERE "GEO_ID" IN ('N20000001', 'N20000002')) q1 USING (GEO_ID)"#;
    let actual_multi_file_query = get_metrics_sql(&metric_requests, Some(&geo_ids)).unwrap();
    assert_eq!(actual_multi_file_query, expected_multi_file_query);
}

#[test]
fn no_columns_is_an_error() {
    let columns: Vec<String> = Vec::new();
    assert!(get_metrics_from_file_sql("file.parquet", &columns, None).is_err());
}

#[test]
fn files_are_distinct_and_sorted() {
    let reqs = vec![
        MetricRequest {
            column: "a".to_string(),
            metric_file: "b.parquet".to_string(),
            geom_file: "".to_string(),
        },
        MetricRequest {
            column: "b".to_string(),
            metric_file: "a.parquet".to_string(),
            geom_file: "".to_string(),
        },
        MetricRequest {
            column: "c".to_string(),
            metric_file: "b.parquet".to_string(),
            geom_file: "".to_string(),
        },
    ];
    let files = files_from_metrics(&reqs);
    assert_eq!(files, vec!["a.parquet".to_string(), "b.parquet".to_string()]);
}

#[test]
fn multi_file_query_orders_files_ascending() {
    // Requests arrive with their files out of order; the generated query
    // numbers the files in ascending order, not arrival order.
    let reqs = vec![
        MetricRequest {
            column: "c2".to_string(),
            metric_file: "f2.parquet".to_string(),
            geom_file: "".to_string(),
        },
        MetricRequest {
            column: "c1".to_string(),
            metric_file: "f1.parquet".to_string(),
            geom_file: "".to_string(),
        },
    ];
    let sql = get_metrics_sql(&reqs, None).unwrap();
    let expected = "SELECT q0.GEO_ID, q0.\"c1\", q1.\"c2\"\nFROM (SELECT \"GEO_ID\", \"c1\" FROM read_parquet('f1.parquet')) q0\nJOIN (SELECT \"GEO_ID\", \"c2\" FROM read_parquet('f2.parquet')) q1 USING (GEO_ID)";
    assert_eq!(sql, expected);
}
