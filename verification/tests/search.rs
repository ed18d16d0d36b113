use popgetter::dates::Date;
use popgetter::error::PopgetterError;
use popgetter::metadata::{ExpandedMetadata, ExpandedRow};
use popgetter::search::{
    parse_year_range, CaseSensitivity, MatchType, MetricId, SearchConfig, SearchContext,
    SearchParams, SearchText, YearRange,
};

fn test_row(index: &str, name: &str, hxl: &str, desc: &str) -> ExpandedRow {
    ExpandedRow {
        metric_id: index.to_string(),
        metric_human_readable_name: name.to_string(),
        metric_description: desc.to_string(),
        metric_hxl_tag: hxl.to_string(),
        metric_source_metric_id: String::new(),
        metric_source_download_url: String::new(),
        metric_parquet_path: String::new(),
        metric_parquet_column_name: String::new(),
        source_data_release_name: String::new(),
        source_data_release_reference_period_start: Date::new(2015, 1, 1),
        source_data_release_reference_period_end: Date::new(2016, 12, 31),
        geometry_level: String::new(),
        geometry_filepath_stem: String::new(),
        data_publisher_name: String::new(),
        data_publisher_country_of_interest: String::new(),
        country_name_short_en: String::new(),
        country_name_official: String::new(),
        country_iso2: String::new(),
        country_iso3: String::new(),
        country_iso3166_2: String::new(),
    }
}

fn test_view() -> ExpandedMetadata {
    ExpandedMetadata(vec![
        test_row("0", "Apple", "Red", "Red"),
        test_row("1", "Apple", "Yellow", "Yellow"),
        test_row("2", "Pear", "Green", "Green"),
        test_row("3", "apple", "red", "red"),
        test_row("4", ".apple", "Green", "Green"),
        test_row("5", "lemon", "yellow", "yellow"),
    ])
}

fn test_search_params(
    value: &str,
    match_type: MatchType,
    case_sensitivity: CaseSensitivity,
) -> SearchParams {
    SearchParams {
        text: vec![SearchText {
            text: value.to_string(),
            context: vec![SearchContext::HumanReadableName],
            config: SearchConfig {
                match_type,
                case_sensitivity,
            },
        }],
        ..Default::default()
    }
}

fn test_from_args(
    value: &str,
    match_type: MatchType,
    case_sensitivity: CaseSensitivity,
    expected_ids: &[&str],
) {
    let view = test_view();
    let search_params = test_search_params(value, match_type, case_sensitivity);
    let results = search_params.search(&view).unwrap();
    let got: Vec<String> = results.0.iter().map(|r| r.metric_id.clone()).collect();
    let expected: Vec<String> = expected_ids.iter().map(|s| s.to_string()).collect();
    assert_eq!(got, expected);
}

#[test]
fn test_search_request() {
    // 1. Regex, case sensitive, on the human-readable-name column.
    test_from_args("^A", MatchType::Regex, CaseSensitivity::Sensitive, &["0", "1"]);
    // 2. Regex, case insensitive.
    test_from_args("^A", MatchType::Regex, CaseSensitivity::Insensitive, &["0", "1", "3"]);
    // 3. Exact, case sensitive.
    test_from_args("Apple", MatchType::Exact, CaseSensitivity::Sensitive, &["0", "1"]);
    // 4. Exact, case insensitive.
    test_from_args("Apple", MatchType::Exact, CaseSensitivity::Insensitive, &["0", "1", "3"]);
    // 5. Regex as containment, case sensitive.
    test_from_args("Apple", MatchType::Regex, CaseSensitivity::Sensitive, &["0", "1"]);
    // 6. Regex as containment, case insensitive.
    test_from_args("Apple", MatchType::Regex, CaseSensitivity::Insensitive, &["0", "1", "3", "4"]);
}

#[test]
fn test_parse_year_range() {
    assert_eq!(
        parse_year_range("2000").unwrap(),
        vec![YearRange::Between(2000, 2000)]
    );
    assert_eq!(
        parse_year_range("2000...").unwrap(),
        vec![YearRange::After(2000)]
    );
    assert_eq!(
        parse_year_range("...2000").unwrap(),
        vec![YearRange::Before(2000)]
    );
    assert_eq!(
        parse_year_range("2000...2001").unwrap(),
        vec![YearRange::Between(2000, 2001)]
    );
    assert_eq!(
        parse_year_range("2000...2001,2005...").unwrap(),
        vec![YearRange::Between(2000, 2001), YearRange::After(2005)]
    );
    assert_eq!(
        parse_year_range("...2001,2005,2009").unwrap(),
        vec![
            YearRange::Before(2001),
            YearRange::Between(2005, 2005),
            YearRange::Between(2009, 2009)
        ]
    );
}

#[test]
fn year_range_rejects_malformed_input() {
    assert!(parse_year_range("abc").is_err());
    assert!(parse_year_range("2001...2000").is_err());
    assert!(parse_year_range("2000...2001...2002").is_err());
    assert!(parse_year_range("...").is_err());
    assert!(parse_year_range("2000,abc").is_err());
    assert!(parse_year_range("99999").is_err());
}

#[test]
fn search_with_no_facets_returns_whole_view() {
    let view = test_view();
    let params = SearchParams::default();
    let results = params.search(&view).unwrap();
    assert_eq!(results.0.len(), 6);
    for (i, row) in results.0.iter().enumerate() {
        assert_eq!(row.metric_id, view.0[i].metric_id);
        assert_eq!(row.metric_human_readable_name, view.0[i].metric_human_readable_name);
    }
}

#[test]
fn metric_id_is_or_combined_with_other_facets() {
    // A query with one matching metric id and one non-matching text filter
    // must still return the id's row.
    let view = test_view();
    let mut params = test_search_params("no-such-name", MatchType::Exact, CaseSensitivity::Sensitive);
    params.metric_id = vec![MetricId {
        id: "3".to_string(),
        config: SearchConfig {
            match_type: MatchType::Startswith,
            case_sensitivity: CaseSensitivity::Insensitive,
        },
    }];
    let results = params.search(&view).unwrap();
    let got: Vec<&str> = results.0.iter().map(|r| r.metric_id.as_str()).collect();
    assert_eq!(got, vec!["3"]);
}

fn period_row(index: &str, start: Date, end: Date) -> ExpandedRow {
    let mut row = test_row(index, "", "", "");
    row.source_data_release_reference_period_start = start;
    row.source_data_release_reference_period_end = end;
    row
}

#[test]
fn year_range_between_matches_overlapping_periods_only() {
    // Periods fully inside, fully containing, and partially overlapping
    // [2014, 2016] must match; a disjoint one must not.
    let view = ExpandedMetadata(vec![
        period_row("inside", Date::new(2015, 1, 1), Date::new(2015, 12, 31)),
        period_row("containing", Date::new(2010, 1, 1), Date::new(2020, 12, 31)),
        period_row("partial", Date::new(2013, 6, 1), Date::new(2014, 6, 1)),
        period_row("disjoint", Date::new(2000, 1, 1), Date::new(2001, 12, 31)),
    ]);
    let params = SearchParams {
        year_range: Some(vec![YearRange::Between(2014, 2016)]),
        ..Default::default()
    };
    let results = params.search(&view).unwrap();
    let got: Vec<&str> = results.0.iter().map(|r| r.metric_id.as_str()).collect();
    assert_eq!(got, vec!["inside", "containing", "partial"]);
}

#[test]
fn invalid_regex_is_rejected_at_compile_time() {
    let view = test_view();
    let params = test_search_params("foo(bar", MatchType::Regex, CaseSensitivity::Sensitive);
    match params.search(&view) {
        Err(PopgetterError::InvalidSearchQuery(_)) => {}
        other => panic!("expected an invalid-search error, got {:?}", other.map(|r| r.0.len())),
    }
}

#[test]
fn contains_and_startswith_modes_match_literally() {
    test_from_args("ppl", MatchType::Contains, CaseSensitivity::Sensitive, &["0", "1", "3", "4"]);
    test_from_args("PPL", MatchType::Contains, CaseSensitivity::Insensitive, &["0", "1", "3", "4"]);
    test_from_args("App", MatchType::Startswith, CaseSensitivity::Sensitive, &["0", "1"]);
    test_from_args("app", MatchType::Startswith, CaseSensitivity::Insensitive, &["0", "1", "3"]);
    // A regex metacharacter in a literal mode is matched literally.
    test_from_args(".apple", MatchType::Exact, CaseSensitivity::Sensitive, &["4"]);
}

#[test]
fn country_facet_matches_any_country_column_case_insensitively() {
    let mut row_a = test_row("a", "", "", "");
    row_a.country_iso3 = "BEL".to_string();
    let mut row_b = test_row("b", "", "", "");
    row_b.country_name_official = "Kingdom of Belgium".to_string();
    let mut row_c = test_row("c", "", "", "");
    row_c.country_iso2 = "FR".to_string();
    let view = ExpandedMetadata(vec![row_a, row_b, row_c]);
    let params = SearchParams {
        country: Some(popgetter::search::Country {
            value: "bel".to_string(),
            config: SearchConfig {
                match_type: MatchType::Contains,
                case_sensitivity: CaseSensitivity::Sensitive,
            },
        }),
        ..Default::default()
    };
    let results = params.search(&view).unwrap();
    let got: Vec<&str> = results.0.iter().map(|r| r.metric_id.as_str()).collect();
    assert_eq!(got, vec!["a", "b"]);
}

#[test]
fn year_parsing_accepts_a_leading_plus_as_the_number_parser_does() {
    assert_eq!(
        parse_year_range("+2000").unwrap(),
        vec![YearRange::Between(2000, 2000)]
    );
}
