use popgetter::config::Config;
use popgetter::data_request_spec::{DataRequestSpec, GeometrySpec, MetricSpec};
use popgetter::dates::Date;
use popgetter::error::PopgetterError;
use popgetter::geo::BBox;
use popgetter::metadata::{
    merge_metadata, parse_country_list, CountryRow, DataPublisherRow, GeometryMetadataRow,
    Metadata, MetricRow, SourceDataReleaseRow,
};
use popgetter::search::{DownloadParams, SearchParams};
use popgetter::table::{inner_join, join_tables, rename_column, DataRow, DataTable};
use popgetter::transform::{CensusTransform, PopgetterTransform};
use popgetter::Popgetter;

fn metric_row(id: &str, release_id: &str, country: &str) -> MetricRow {
    MetricRow {
        id: id.to_string(),
        human_readable_name: format!("metric {id}"),
        source_metric_id: format!("source {id}"),
        description: format!("description {id}"),
        hxl_tag: format!("#tag+{id}"),
        parquet_path: format!("{country}/metrics/{id}.parquet"),
        parquet_column_name: format!("col_{id}"),
        parquet_margin_of_error_column: String::new(),
        parquet_margin_of_error_file: String::new(),
        potential_denominator_ids: String::new(),
        parent_metric_id: String::new(),
        source_data_release_id: release_id.to_string(),
        source_download_url: format!("https://example.org/{id}"),
        source_archive_file_path: String::new(),
        source_documentation_url: String::new(),
    }
}

fn release_row(id: &str, publisher_id: &str, geometry_id: &str) -> SourceDataReleaseRow {
    SourceDataReleaseRow {
        id: id.to_string(),
        name: format!("release {id}"),
        date_published: Date::new(2020, 3, 1),
        reference_period_start: Date::new(2019, 1, 1),
        reference_period_end: Date::new(2019, 12, 31),
        collection_period_start: Date::new(2019, 1, 1),
        collection_period_end: Date::new(2019, 12, 31),
        expect_next_update: Date::new(2025, 1, 1),
        url: "https://example.org/release".to_string(),
        description: String::new(),
        data_publisher_id: publisher_id.to_string(),
        geometry_metadata_id: geometry_id.to_string(),
    }
}

fn geometry_row(id: &str, level: &str, stem: &str) -> GeometryMetadataRow {
    GeometryMetadataRow {
        id: id.to_string(),
        filepath_stem: stem.to_string(),
        validity_period_start: Date::new(2019, 1, 1),
        validity_period_end: Date::new(2029, 12, 31),
        level: level.to_string(),
        hxl_tag: String::new(),
    }
}

fn publisher_row(id: &str, name: &str, countries: &[&str]) -> DataPublisherRow {
    DataPublisherRow {
        id: id.to_string(),
        name: name.to_string(),
        url: String::new(),
        description: String::new(),
        countries_of_interest: countries.iter().map(|c| c.to_string()).collect(),
    }
}

fn country_row(id: &str, short: &str, iso2: &str, iso3: &str) -> CountryRow {
    CountryRow {
        id: id.to_string(),
        name_short_en: short.to_string(),
        name_official: format!("Official {short}"),
        iso3: iso3.to_string(),
        iso2: iso2.to_string(),
        iso3166_2: iso2.to_string(),
    }
}

fn one_country_catalog(tag: &str, geom_stem: &str) -> Metadata {
    Metadata {
        metrics: vec![metric_row(&format!("m-{tag}"), &format!("r-{tag}"), tag)],
        geometries: vec![geometry_row(&format!("g-{tag}"), "tract", geom_stem)],
        source_data_releases: vec![release_row(
            &format!("r-{tag}"),
            &format!("p-{tag}"),
            &format!("g-{tag}"),
        )],
        data_publishers: vec![publisher_row(&format!("p-{tag}"), "Bureau", &[tag])],
        countries: vec![country_row(tag, tag, "XX", "XXX")],
    }
}

#[test]
fn load_all_unions_tables_in_country_list_order() {
    // Two countries, one row per relation each: the union has two rows per
    // relation, first country first.
    let parts = vec![one_country_catalog("bel", "bel_geoms"), one_country_catalog("usa", "usa_geoms")];
    let merged = merge_metadata(&parts);
    assert_eq!(merged.metrics.len(), 2);
    assert_eq!(merged.geometries.len(), 2);
    assert_eq!(merged.source_data_releases.len(), 2);
    assert_eq!(merged.data_publishers.len(), 2);
    assert_eq!(merged.countries.len(), 2);
    assert_eq!(merged.metrics[0].id, "m-bel");
    assert_eq!(merged.metrics[1].id, "m-usa");
    assert_eq!(merged.countries[0].id, "bel");
    assert_eq!(merged.countries[1].id, "usa");
}

#[test]
fn combined_view_joins_all_five_relations() {
    let parts = vec![one_country_catalog("bel", "bel_geoms"), one_country_catalog("usa", "usa_geoms")];
    let merged = merge_metadata(&parts);
    let expanded = merged.combined_metric_source_geometry();
    assert_eq!(expanded.0.len(), 2);
    let row = &expanded.0[0];
    assert_eq!(row.metric_id, "m-bel");
    assert_eq!(row.source_data_release_name, "release r-bel");
    assert_eq!(row.geometry_level, "tract");
    assert_eq!(row.geometry_filepath_stem, "bel_geoms");
    assert_eq!(row.data_publisher_name, "Bureau");
    assert_eq!(row.country_name_short_en, "bel");
    assert_eq!(expanded.0[1].metric_id, "m-usa");
}

#[test]
fn unmatched_metric_is_invisible_in_the_view() {
    // A metric whose release id matches nothing disappears, per inner-join
    // semantics; it is not an error.
    let mut catalog = one_country_catalog("bel", "bel_geoms");
    catalog.metrics.push(metric_row("m-orphan", "r-nowhere", "bel"));
    let expanded = catalog.combined_metric_source_geometry();
    assert_eq!(expanded.0.len(), 1);
    assert_eq!(expanded.0[0].metric_id, "m-bel");
}

#[test]
fn test_popgetter_cache() {
    // Writing the catalog to cache bytes and reading them back yields the
    // same catalog, for all five relations.
    let parts = vec![one_country_catalog("bel", "bel_geoms"), one_country_catalog("usa", "usa_geoms")];
    let merged = merge_metadata(&parts);
    let bytes = merged.to_cache_bytes();
    let restored = Metadata::from_cache_bytes(&bytes).unwrap();
    assert_eq!(restored.metrics.len(), merged.metrics.len());
    for (a, b) in restored.metrics.iter().zip(merged.metrics.iter()) {
        assert_eq!(a.id, b.id);
        assert_eq!(a.human_readable_name, b.human_readable_name);
        assert_eq!(a.parquet_path, b.parquet_path);
        assert_eq!(a.source_data_release_id, b.source_data_release_id);
    }
    assert_eq!(restored.geometries.len(), merged.geometries.len());
    for (a, b) in restored.geometries.iter().zip(merged.geometries.iter()) {
        assert_eq!(a.id, b.id);
        assert_eq!(a.filepath_stem, b.filepath_stem);
        assert_eq!(a.validity_period_start, b.validity_period_start);
    }
    assert_eq!(restored.source_data_releases.len(), merged.source_data_releases.len());
    for (a, b) in restored.source_data_releases.iter().zip(merged.source_data_releases.iter()) {
        assert_eq!(a.id, b.id);
        assert_eq!(a.reference_period_start, b.reference_period_start);
        assert_eq!(a.reference_period_end, b.reference_period_end);
    }
    assert_eq!(restored.data_publishers.len(), merged.data_publishers.len());
    for (a, b) in restored.data_publishers.iter().zip(merged.data_publishers.iter()) {
        assert_eq!(a.id, b.id);
        assert_eq!(a.countries_of_interest, b.countries_of_interest);
    }
    assert_eq!(restored.countries.len(), merged.countries.len());
    for (a, b) in restored.countries.iter().zip(merged.countries.iter()) {
        assert_eq!(a.id, b.id);
        assert_eq!(a.iso3, b.iso3);
    }
}

#[test]
fn corrupt_cache_bytes_are_rejected() {
    let catalog = one_country_catalog("bel", "bel_geoms");
    let mut bytes = catalog.to_cache_bytes();
    bytes.truncate(bytes.len() - 1);
    match Metadata::from_cache_bytes(&bytes) {
        Err(PopgetterError::CacheCorrupt) => {}
        other => panic!("expected a corrupt-cache error, got {:?}", other.is_ok()),
    }
}

fn table(cols: &[&str], rows: &[(&str, &[&str])]) -> DataTable {
    DataTable {
        col_names: cols.iter().map(|c| c.to_string()).collect(),
        rows: rows
            .iter()
            .map(|(k, vs)| DataRow {
                key: k.to_string(),
                values: vs.iter().map(|v| v.to_string()).collect(),
            })
            .collect(),
    }
}

#[test]
fn inner_join_matches_keys_and_concatenates_values() {
    let metrics = table(&["pop"], &[("a", &["10"]), ("b", &["20"]), ("c", &["30"])]);
    let geoms = table(&["geometry"], &[("b", &["POINT(1 1)"]), ("a", &["POINT(0 0)"])]);
    let joined = inner_join(&geoms, &metrics);
    assert_eq!(joined.col_names, vec!["geometry".to_string(), "pop".to_string()]);
    assert_eq!(joined.rows.len(), 2);
    assert_eq!(joined.rows[0].key, "b");
    assert_eq!(joined.rows[0].values, vec!["POINT(1 1)".to_string(), "20".to_string()]);
    assert_eq!(joined.rows[1].key, "a");
    assert_eq!(joined.rows[1].values, vec!["POINT(0 0)".to_string(), "10".to_string()]);
}

#[test]
fn join_with_disjoint_keys_is_empty_not_an_error() {
    // Geometry requested with zero overlapping keys: the joined table is
    // empty, and nothing fails.
    let metrics = table(&["pop"], &[("a", &["10"])]);
    let geoms = table(&["geometry"], &[("z", &["POINT(9 9)"])]);
    let joined = inner_join(&geoms, &metrics);
    assert_eq!(joined.rows.len(), 0);
    assert_eq!(joined.col_names.len(), 2);
}

#[test]
fn join_tables_folds_in_order() {
    let t1 = table(&["c1"], &[("a", &["1"]), ("b", &["2"])]);
    let t2 = table(&["c2"], &[("a", &["3"]), ("b", &["4"])]);
    let joined = join_tables(&vec![t1, t2]).unwrap();
    assert_eq!(joined.col_names, vec!["c1".to_string(), "c2".to_string()]);
    assert_eq!(joined.rows.len(), 2);
    assert_eq!(joined.rows[0].values, vec!["1".to_string(), "3".to_string()]);
    let empty: Vec<DataTable> = Vec::new();
    assert!(join_tables(&empty).is_err());
}

#[test]
fn census_transform_renames_one_column() {
    let t = table(&["old_name", "other"], &[("a", &["1", "2"])]);
    let transform = PopgetterTransform::Census(CensusTransform {
        rename_column: Some(("old_name".to_string(), "new_name".to_string())),
    });
    let out = transform.transform(t).unwrap();
    assert_eq!(out.col_names, vec!["new_name".to_string(), "other".to_string()]);
    let t2 = table(&["x"], &[]);
    assert!(rename_column(&t2, "missing", "y").is_err());
}

#[test]
fn download_plan_names_the_single_geometry_file() {
    let catalog = one_country_catalog("bel", "bel_geoms");
    let popgetter = Popgetter {
        metadata: catalog,
        config: Config {
            base_path: "https://example.org/v1".to_string(),
        },
    };
    let results = popgetter.search(&SearchParams::default()).unwrap();
    let plan = results
        .download_plan(&popgetter.config, &DownloadParams::default())
        .unwrap();
    assert_eq!(plan.metric_requests.len(), 1);
    assert_eq!(plan.metric_requests[0].column, "col_m-bel");
    assert_eq!(
        plan.metric_requests[0].metric_file,
        "https://example.org/v1/bel/metrics/m-bel.parquet"
    );
    assert_eq!(
        plan.geom_file.as_deref(),
        Some("https://example.org/v1/bel_geoms.fgb")
    );
    assert!(plan.bbox.is_none());

    let no_geoms = DownloadParams {
        include_geoms: false,
        region_spec: Vec::new(),
    };
    let plan2 = results.download_plan(&popgetter.config, &no_geoms).unwrap();
    assert!(plan2.geom_file.is_none());
}

#[test]
fn download_plan_rejects_empty_and_multi_geometry_row_sets() {
    let parts = vec![one_country_catalog("bel", "bel_geoms"), one_country_catalog("usa", "usa_geoms")];
    let merged = merge_metadata(&parts);
    let popgetter = Popgetter {
        metadata: merged,
        config: Config::default(),
    };
    let results = popgetter.search(&SearchParams::default()).unwrap();
    match results.download_plan(&popgetter.config, &DownloadParams::default()) {
        Err(PopgetterError::UnsupportedMultipleGeometries) => {}
        other => panic!("expected a multiple-geometries error, got {:?}", other.is_ok()),
    }
    let empty = popgetter::search::SearchResults(Vec::new());
    match empty.download_plan(&popgetter.config, &DownloadParams::default()) {
        Err(PopgetterError::NoMetricRequests) => {}
        other => panic!("expected a no-requests error, got {:?}", other.is_ok()),
    }
}

#[test]
fn download_sql_composes_search_and_generation() {
    let catalog = one_country_catalog("bel", "bel_geoms");
    let popgetter = Popgetter {
        metadata: catalog,
        config: Config {
            base_path: "https://example.org/v1".to_string(),
        },
    };
    let params = popgetter::search::Params {
        search: SearchParams::default(),
        download: DownloadParams::default(),
    };
    let sql = popgetter.download_metrics_sql(&params).unwrap();
    assert_eq!(
        sql,
        "SELECT \"GEO_ID\", \"col_m-bel\" FROM read_parquet('https://example.org/v1/bel/metrics/m-bel.parquet')"
    );
}

#[test]
fn bbox_should_parse_if_correct() {
    let bbox = BBox::parse("0.0,1.0,2.0,3.0");
    assert!(bbox.is_ok(), "A four coord bbox should parse");
    let bbox = bbox.unwrap();
    assert_eq!(bbox.xmin, "0.0");
    assert_eq!(bbox.ymax, "3.0");
}

#[test]
fn bbox_should_not_parse_if_incorrect() {
    let bbox = BBox::parse("0.0,1.0,2.0");
    assert!(
        bbox.is_err(),
        "A string with fewer than 4 coords should not parse"
    );
    let bbox = BBox::parse("0.0,1.0,2.0,3.0,4.0");
    assert!(
        bbox.is_err(),
        "A string with 5 or more coords should not parse"
    );
}

#[test]
fn country_list_splits_lines_and_strips_returns() {
    let names = parse_country_list("bel\r\nusa\ngb_nir\n");
    assert_eq!(
        names,
        vec!["bel".to_string(), "usa".to_string(), "gb_nir".to_string()]
    );
    let empty = parse_country_list("");
    assert_eq!(empty, Vec::<String>::new());
}

#[test]
fn data_request_spec_converts_to_params() {
    let spec = DataRequestSpec {
        geometry: Some(GeometrySpec {
            geometry_level: Some("tract".to_string()),
            include_geoms: false,
        }),
        region: Vec::new(),
        metrics: vec![
            MetricSpec::MetricText("population".to_string()),
            MetricSpec::MetricId(popgetter::search::MetricId {
                id: "abc".to_string(),
                config: popgetter::search::default_metric_id_search_config(),
            }),
        ],
        years: Some(vec!["2019".to_string()]),
    };
    let params = spec.to_params().unwrap();
    assert_eq!(params.search.text.len(), 1);
    assert_eq!(params.search.text[0].text, "population");
    assert_eq!(params.search.metric_id.len(), 1);
    assert_eq!(params.search.metric_id[0].id, "abc");
    assert_eq!(
        params.search.year_range,
        Some(vec![popgetter::search::YearRange::Between(2019, 2019)])
    );
    assert_eq!(
        params.search.geometry_level.as_ref().map(|g| g.value.clone()),
        Some("tract".to_string())
    );
    assert!(!params.download.include_geoms);

    let bad = DataRequestSpec {
        geometry: None,
        region: Vec::new(),
        metrics: Vec::new(),
        years: Some(vec!["not-a-year".to_string()]),
    };
    assert!(bad.to_params().is_err());
}

#[test]
fn download_plan_carries_the_bounding_box() {
    let catalog = one_country_catalog("bel", "bel_geoms");
    let popgetter = Popgetter {
        metadata: catalog,
        config: Config::default(),
    };
    let results = popgetter.search(&SearchParams::default()).unwrap();
    let bbox = BBox::parse("0.0, 1.0, 2.0, 3.0").unwrap();
    let params = DownloadParams {
        include_geoms: true,
        region_spec: vec![popgetter::data_request_spec::RegionSpec::BoundingBox(bbox)],
    };
    let plan = results.download_plan(&popgetter.config, &params).unwrap();
    let planned = plan.bbox.unwrap();
    assert_eq!(planned.xmin, "0.0");
    assert_eq!(planned.ymin, " 1.0");
    assert_eq!(planned.ymax, " 3.0");
}

#[test]
fn urls_are_joined_from_their_parts() {
    assert_eq!(
        popgetter::metadata::metadata_url("https://example.org/v1", "bel", "country_metadata.parquet"),
        "https://example.org/v1/bel/country_metadata.parquet"
    );
    assert_eq!(
        popgetter::cache::prepend("/tmp/cache", "metadata.cache"),
        "/tmp/cache/metadata.cache"
    );
}

#[test]
fn metric_id_kinds_name_their_columns() {
    let hxl = popgetter::metadata::MetricId::Hxl("#population".to_string());
    assert_eq!(hxl.to_col_name(), "metric_hxl_tag");
    assert_eq!(hxl.to_query_string(), "#population");
    let id = popgetter::metadata::MetricId::Id("abc".to_string());
    assert_eq!(id.to_col_name(), "metric_id");
    let name = popgetter::metadata::MetricId::CommonName("Children".to_string());
    assert_eq!(name.to_col_name(), "human_readable_name");
}
