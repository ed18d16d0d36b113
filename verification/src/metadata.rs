//! The metadata catalog: five relations of plain values, loaded per country
//! and unioned, and the denormalized view joining them.
//!
//! The caller (outside this crate) fetches and decodes the remote files and
//! hands the rows in; everything from there on — the union across countries
//! and the five-way join into the expanded view — is verified here.

use vstd::prelude::*;
use crate::dates::Date;
use crate::textmatch::eq_str;
use crate::strsplit::split_on;

verus! {

/// File name of the cached/remote metric relation.
pub const METRIC_METADATA: &'static str = "metric_metadata.parquet";

/// File name of the cached/remote geometry relation.
pub const GEOMETRY_METADATA: &'static str = "geometry_metadata.parquet";

/// File name of the cached/remote country relation.
pub const COUNTRY: &'static str = "country_metadata.parquet";

/// File name of the cached/remote source-data-release relation.
pub const SOURCE: &'static str = "source_data_releases.parquet";

/// File name of the cached/remote data-publisher relation.
pub const PUBLISHER: &'static str = "data_publishers.parquet";

/// One metric: what it measures and where its values live.
#[derive(Debug)]
pub struct MetricRow {
    pub id: String,
    pub human_readable_name: String,
    pub source_metric_id: String,
    pub description: String,
    pub hxl_tag: String,
    pub parquet_path: String,
    pub parquet_column_name: String,
    pub parquet_margin_of_error_column: String,
    pub parquet_margin_of_error_file: String,
    pub potential_denominator_ids: String,
    pub parent_metric_id: String,
    pub source_data_release_id: String,
    pub source_download_url: String,
    pub source_archive_file_path: String,
    pub source_documentation_url: String,
}

impl Clone for MetricRow {
    fn clone(&self) -> (r: Self)
        ensures
            r == *self,
    {
        MetricRow {
            id: self.id.clone(),
            human_readable_name: self.human_readable_name.clone(),
            source_metric_id: self.source_metric_id.clone(),
            description: self.description.clone(),
            hxl_tag: self.hxl_tag.clone(),
            parquet_path: self.parquet_path.clone(),
            parquet_column_name: self.parquet_column_name.clone(),
            parquet_margin_of_error_column: self.parquet_margin_of_error_column.clone(),
            parquet_margin_of_error_file: self.parquet_margin_of_error_file.clone(),
            potential_denominator_ids: self.potential_denominator_ids.clone(),
            parent_metric_id: self.parent_metric_id.clone(),
            source_data_release_id: self.source_data_release_id.clone(),
            source_download_url: self.source_download_url.clone(),
            source_archive_file_path: self.source_archive_file_path.clone(),
            source_documentation_url: self.source_documentation_url.clone(),
        }
    }
}

/// One source data release: the dates and links of one publication.
#[derive(Debug)]
pub struct SourceDataReleaseRow {
    pub id: String,
    pub name: String,
    pub date_published: Date,
    pub reference_period_start: Date,
    pub reference_period_end: Date,
    pub collection_period_start: Date,
    pub collection_period_end: Date,
    pub expect_next_update: Date,
    pub url: String,
    pub description: String,
    pub data_publisher_id: String,
    pub geometry_metadata_id: String,
}

impl Clone for SourceDataReleaseRow {
    fn clone(&self) -> (r: Self)
        ensures
            r == *self,
    {
        SourceDataReleaseRow {
            id: self.id.clone(),
            name: self.name.clone(),
            date_published: self.date_published,
            reference_period_start: self.reference_period_start,
            reference_period_end: self.reference_period_end,
            collection_period_start: self.collection_period_start,
            collection_period_end: self.collection_period_end,
            expect_next_update: self.expect_next_update,
            url: self.url.clone(),
            description: self.description.clone(),
            data_publisher_id: self.data_publisher_id.clone(),
            geometry_metadata_id: self.geometry_metadata_id.clone(),
        }
    }
}

/// One geometry file and its level.
#[derive(Debug)]
pub struct GeometryMetadataRow {
    pub id: String,
    pub filepath_stem: String,
    pub validity_period_start: Date,
    pub validity_period_end: Date,
    pub level: String,
    pub hxl_tag: String,
}

impl Clone for GeometryMetadataRow {
    fn clone(&self) -> (r: Self)
        ensures
            r == *self,
    {
        GeometryMetadataRow {
            id: self.id.clone(),
            filepath_stem: self.filepath_stem.clone(),
            validity_period_start: self.validity_period_start,
            validity_period_end: self.validity_period_end,
            level: self.level.clone(),
            hxl_tag: self.hxl_tag.clone(),
        }
    }
}

/// Clones a vector of strings element by element.
pub fn clone_string_vec(v: &Vec<String>) -> (r: Vec<String>)
    ensures
        r@ == v@,
{
    let mut out: Vec<String> = Vec::new();
    let mut i: usize = 0;
    while i < v.len()
        invariant
            i <= v@.len(),
            out@ =~= v@.take(i as int),
        decreases v@.len() - i,
    {
        out.push(v[i].clone());
        proof {
            assert(out@ =~= v@.take(i + 1));
        }
        i += 1;
    }
    proof {
        assert(v@.take(v@.len() as int) =~= v@);
    }
    out
}

/// One data publisher and the countries it publishes for.
#[derive(Debug)]
pub struct DataPublisherRow {
    pub id: String,
    pub name: String,
    pub url: String,
    pub description: String,
    pub countries_of_interest: Vec<String>,
}

impl Clone for DataPublisherRow {
    fn clone(&self) -> (r: Self)
        ensures
            r@ == self@,
            r.id == self.id,
            r.name == self.name,
            r.url == self.url,
            r.description == self.description,
            r.countries_of_interest@ == self.countries_of_interest@,
    {
        DataPublisherRow {
            id: self.id.clone(),
            name: self.name.clone(),
            url: self.url.clone(),
            description: self.description.clone(),
            countries_of_interest: clone_string_vec(&self.countries_of_interest),
        }
    }
}

/// One country with its names and codes.
#[derive(Debug)]
pub struct CountryRow {
    pub id: String,
    pub name_short_en: String,
    pub name_official: String,
    pub iso3: String,
    pub iso2: String,
    pub iso3166_2: String,
}

impl Clone for CountryRow {
    fn clone(&self) -> (r: Self)
        ensures
            r == *self,
    {
        CountryRow {
            id: self.id.clone(),
            name_short_en: self.name_short_en.clone(),
            name_official: self.name_official.clone(),
            iso3: self.iso3.clone(),
            iso2: self.iso2.clone(),
            iso3166_2: self.iso3166_2.clone(),
        }
    }
}


/// Spec-level image of a `MetricRow`: each string as its character sequence.
#[verifier::ext_equal]
pub struct MetricRowV {
    pub id: Seq<char>,
    pub human_readable_name: Seq<char>,
    pub source_metric_id: Seq<char>,
    pub description: Seq<char>,
    pub hxl_tag: Seq<char>,
    pub parquet_path: Seq<char>,
    pub parquet_column_name: Seq<char>,
    pub parquet_margin_of_error_column: Seq<char>,
    pub parquet_margin_of_error_file: Seq<char>,
    pub potential_denominator_ids: Seq<char>,
    pub parent_metric_id: Seq<char>,
    pub source_data_release_id: Seq<char>,
    pub source_download_url: Seq<char>,
    pub source_archive_file_path: Seq<char>,
    pub source_documentation_url: Seq<char>,
}

impl View for MetricRow {
    type V = MetricRowV;

    open spec fn view(&self) -> MetricRowV {
        MetricRowV {
            id: self.id@,
            human_readable_name: self.human_readable_name@,
            source_metric_id: self.source_metric_id@,
            description: self.description@,
            hxl_tag: self.hxl_tag@,
            parquet_path: self.parquet_path@,
            parquet_column_name: self.parquet_column_name@,
            parquet_margin_of_error_column: self.parquet_margin_of_error_column@,
            parquet_margin_of_error_file: self.parquet_margin_of_error_file@,
            potential_denominator_ids: self.potential_denominator_ids@,
            parent_metric_id: self.parent_metric_id@,
            source_data_release_id: self.source_data_release_id@,
            source_download_url: self.source_download_url@,
            source_archive_file_path: self.source_archive_file_path@,
            source_documentation_url: self.source_documentation_url@,
        }
    }
}

impl DeepView for MetricRow {
    type V = MetricRowV;

    open spec fn deep_view(&self) -> MetricRowV {
        self.view()
    }
}

/// Spec-level image of a `SourceDataReleaseRow`.
#[verifier::ext_equal]
pub struct SourceDataReleaseRowV {
    pub id: Seq<char>,
    pub name: Seq<char>,
    pub date_published: Date,
    pub reference_period_start: Date,
    pub reference_period_end: Date,
    pub collection_period_start: Date,
    pub collection_period_end: Date,
    pub expect_next_update: Date,
    pub url: Seq<char>,
    pub description: Seq<char>,
    pub data_publisher_id: Seq<char>,
    pub geometry_metadata_id: Seq<char>,
}

impl View for SourceDataReleaseRow {
    type V = SourceDataReleaseRowV;

    open spec fn view(&self) -> SourceDataReleaseRowV {
        SourceDataReleaseRowV {
            id: self.id@,
            name: self.name@,
            date_published: self.date_published,
            reference_period_start: self.reference_period_start,
            reference_period_end: self.reference_period_end,
            collection_period_start: self.collection_period_start,
            collection_period_end: self.collection_period_end,
            expect_next_update: self.expect_next_update,
            url: self.url@,
            description: self.description@,
            data_publisher_id: self.data_publisher_id@,
            geometry_metadata_id: self.geometry_metadata_id@,
        }
    }
}

impl DeepView for SourceDataReleaseRow {
    type V = SourceDataReleaseRowV;

    open spec fn deep_view(&self) -> SourceDataReleaseRowV {
        self.view()
    }
}

/// Spec-level image of a `GeometryMetadataRow`.
#[verifier::ext_equal]
pub struct GeometryMetadataRowV {
    pub id: Seq<char>,
    pub filepath_stem: Seq<char>,
    pub validity_period_start: Date,
    pub validity_period_end: Date,
    pub level: Seq<char>,
    pub hxl_tag: Seq<char>,
}

impl View for GeometryMetadataRow {
    type V = GeometryMetadataRowV;

    open spec fn view(&self) -> GeometryMetadataRowV {
        GeometryMetadataRowV {
            id: self.id@,
            filepath_stem: self.filepath_stem@,
            validity_period_start: self.validity_period_start,
            validity_period_end: self.validity_period_end,
            level: self.level@,
            hxl_tag: self.hxl_tag@,
        }
    }
}

impl DeepView for GeometryMetadataRow {
    type V = GeometryMetadataRowV;

    open spec fn deep_view(&self) -> GeometryMetadataRowV {
        self.view()
    }
}

/// Spec-level image of a `DataPublisherRow`.
#[verifier::ext_equal]
pub struct DataPublisherRowV {
    pub id: Seq<char>,
    pub name: Seq<char>,
    pub url: Seq<char>,
    pub description: Seq<char>,
    pub countries_of_interest: Seq<Seq<char>>,
}

impl View for DataPublisherRow {
    type V = DataPublisherRowV;

    open spec fn view(&self) -> DataPublisherRowV {
        DataPublisherRowV {
            id: self.id@,
            name: self.name@,
            url: self.url@,
            description: self.description@,
            countries_of_interest: self.countries_of_interest.deep_view(),
        }
    }
}

impl DeepView for DataPublisherRow {
    type V = DataPublisherRowV;

    open spec fn deep_view(&self) -> DataPublisherRowV {
        self.view()
    }
}

/// Spec-level image of a `CountryRow`.
#[verifier::ext_equal]
pub struct CountryRowV {
    pub id: Seq<char>,
    pub name_short_en: Seq<char>,
    pub name_official: Seq<char>,
    pub iso3: Seq<char>,
    pub iso2: Seq<char>,
    pub iso3166_2: Seq<char>,
}

impl View for CountryRow {
    type V = CountryRowV;

    open spec fn view(&self) -> CountryRowV {
        CountryRowV {
            id: self.id@,
            name_short_en: self.name_short_en@,
            name_official: self.name_official@,
            iso3: self.iso3@,
            iso2: self.iso2@,
            iso3166_2: self.iso3166_2@,
        }
    }
}

impl DeepView for CountryRow {
    type V = CountryRowV;

    open spec fn deep_view(&self) -> CountryRowV {
        self.view()
    }
}

/// The catalog: the five metadata relations, either for one country or
/// unioned over all countries. Immutable once constructed.
#[derive(Debug)]
pub struct Metadata {
    pub metrics: Vec<MetricRow>,
    pub geometries: Vec<GeometryMetadataRow>,
    pub source_data_releases: Vec<SourceDataReleaseRow>,
    pub data_publishers: Vec<DataPublisherRow>,
    pub countries: Vec<CountryRow>,
}

/// One row of the denormalized catalog view: a (metric, country) pair with
/// every joined attribute the search and materialization logic reads.
#[derive(Debug)]
pub struct ExpandedRow {
    pub metric_id: String,
    pub metric_human_readable_name: String,
    pub metric_description: String,
    pub metric_hxl_tag: String,
    pub metric_source_metric_id: String,
    pub metric_source_download_url: String,
    pub metric_parquet_path: String,
    pub metric_parquet_column_name: String,
    pub source_data_release_name: String,
    pub source_data_release_reference_period_start: Date,
    pub source_data_release_reference_period_end: Date,
    pub geometry_level: String,
    pub geometry_filepath_stem: String,
    pub data_publisher_name: String,
    pub data_publisher_country_of_interest: String,
    pub country_name_short_en: String,
    pub country_name_official: String,
    pub country_iso2: String,
    pub country_iso3: String,
    pub country_iso3166_2: String,
}

impl Clone for ExpandedRow {
    fn clone(&self) -> (r: Self)
        ensures
            r == *self,
    {
        ExpandedRow {
            metric_id: self.metric_id.clone(),
            metric_human_readable_name: self.metric_human_readable_name.clone(),
            metric_description: self.metric_description.clone(),
            metric_hxl_tag: self.metric_hxl_tag.clone(),
            metric_source_metric_id: self.metric_source_metric_id.clone(),
            metric_source_download_url: self.metric_source_download_url.clone(),
            metric_parquet_path: self.metric_parquet_path.clone(),
            metric_parquet_column_name: self.metric_parquet_column_name.clone(),
            source_data_release_name: self.source_data_release_name.clone(),
            source_data_release_reference_period_start: self.source_data_release_reference_period_start,
            source_data_release_reference_period_end: self.source_data_release_reference_period_end,
            geometry_level: self.geometry_level.clone(),
            geometry_filepath_stem: self.geometry_filepath_stem.clone(),
            data_publisher_name: self.data_publisher_name.clone(),
            data_publisher_country_of_interest: self.data_publisher_country_of_interest.clone(),
            country_name_short_en: self.country_name_short_en.clone(),
            country_name_official: self.country_name_official.clone(),
            country_iso2: self.country_iso2.clone(),
            country_iso3: self.country_iso3.clone(),
            country_iso3166_2: self.country_iso3166_2.clone(),
        }
    }
}

/// The expanded row a particular (metric, release, geometry, publisher,
/// country-of-interest, country) combination denormalizes to.
pub open spec fn spec_row_of(
    m: MetricRow,
    rel: SourceDataReleaseRow,
    g: GeometryMetadataRow,
    p: DataPublisherRow,
    code: String,
    c: CountryRow,
) -> ExpandedRow {
    ExpandedRow {
        metric_id: m.id,
        metric_human_readable_name: m.human_readable_name,
        metric_description: m.description,
        metric_hxl_tag: m.hxl_tag,
        metric_source_metric_id: m.source_metric_id,
        metric_source_download_url: m.source_download_url,
        metric_parquet_path: m.parquet_path,
        metric_parquet_column_name: m.parquet_column_name,
        source_data_release_name: rel.name,
        source_data_release_reference_period_start: rel.reference_period_start,
        source_data_release_reference_period_end: rel.reference_period_end,
        geometry_level: g.level,
        geometry_filepath_stem: g.filepath_stem,
        data_publisher_name: p.name,
        data_publisher_country_of_interest: code,
        country_name_short_en: c.name_short_en,
        country_name_official: c.name_official,
        country_iso2: c.iso2,
        country_iso3: c.iso3,
        country_iso3166_2: c.iso3166_2,
    }
}

/// The view rows produced for one country-of-interest code: one per country
/// row whose id equals the code, in country-table order.
pub open spec fn spec_code_rows(
    countries: Seq<CountryRow>,
    m: MetricRow,
    rel: SourceDataReleaseRow,
    g: GeometryMetadataRow,
    p: DataPublisherRow,
    code: String,
) -> Seq<ExpandedRow>
    decreases countries.len(),
{
    if countries.len() == 0 {
        Seq::empty()
    } else {
        spec_code_rows(countries.drop_last(), m, rel, g, p, code) + if countries.last().id@
            == code@ {
            seq![spec_row_of(m, rel, g, p, code, countries.last())]
        } else {
            Seq::empty()
        }
    }
}

/// The view rows produced for one publisher: its country-of-interest list
/// exploded in order, each code joined to the country table.
pub open spec fn spec_publisher_rows(
    codes: Seq<String>,
    countries: Seq<CountryRow>,
    m: MetricRow,
    rel: SourceDataReleaseRow,
    g: GeometryMetadataRow,
    p: DataPublisherRow,
) -> Seq<ExpandedRow>
    decreases codes.len(),
{
    if codes.len() == 0 {
        Seq::empty()
    } else {
        spec_publisher_rows(codes.drop_last(), countries, m, rel, g, p) + spec_code_rows(
            countries,
            m,
            rel,
            g,
            p,
            codes.last(),
        )
    }
}

/// The view rows produced for one (metric, release, geometry) triple: one
/// block per publisher row whose id the release names, in publisher-table
/// order.
pub open spec fn spec_geometry_rows(
    publishers: Seq<DataPublisherRow>,
    countries: Seq<CountryRow>,
    m: MetricRow,
    rel: SourceDataReleaseRow,
    g: GeometryMetadataRow,
) -> Seq<ExpandedRow>
    decreases publishers.len(),
{
    if publishers.len() == 0 {
        Seq::empty()
    } else {
        spec_geometry_rows(publishers.drop_last(), countries, m, rel, g) + if publishers.last().id@
            == rel.data_publisher_id@ {
            spec_publisher_rows(
                publishers.last().countries_of_interest@,
                countries,
                m,
                rel,
                g,
                publishers.last(),
            )
        } else {
            Seq::empty()
        }
    }
}

/// The view rows produced for one (metric, release) pair: one block per
/// geometry row whose id the release names, in geometry-table order.
pub open spec fn spec_release_rows(
    geometries: Seq<GeometryMetadataRow>,
    publishers: Seq<DataPublisherRow>,
    countries: Seq<CountryRow>,
    m: MetricRow,
    rel: SourceDataReleaseRow,
) -> Seq<ExpandedRow>
    decreases geometries.len(),
{
    if geometries.len() == 0 {
        Seq::empty()
    } else {
        spec_release_rows(geometries.drop_last(), publishers, countries, m, rel) + if geometries.last().id@
            == rel.geometry_metadata_id@ {
            spec_geometry_rows(publishers, countries, m, rel, geometries.last())
        } else {
            Seq::empty()
        }
    }
}

/// The view rows produced for one metric: one block per release row whose id
/// the metric names, in release-table order.
pub open spec fn spec_metric_rows(
    releases: Seq<SourceDataReleaseRow>,
    geometries: Seq<GeometryMetadataRow>,
    publishers: Seq<DataPublisherRow>,
    countries: Seq<CountryRow>,
    m: MetricRow,
) -> Seq<ExpandedRow>
    decreases releases.len(),
{
    if releases.len() == 0 {
        Seq::empty()
    } else {
        spec_metric_rows(releases.drop_last(), geometries, publishers, countries, m) + if releases.last().id@
            == m.source_data_release_id@ {
            spec_release_rows(geometries, publishers, countries, m, releases.last())
        } else {
            Seq::empty()
        }
    }
}

/// The whole denormalized view: metric by metric, inner-joined through
/// release, geometry and publisher, the publisher's country list exploded,
/// and joined to the country table. A metric with no matching release,
/// geometry, publisher or country contributes no rows.
pub open spec fn spec_expanded_rows(
    metrics: Seq<MetricRow>,
    releases: Seq<SourceDataReleaseRow>,
    geometries: Seq<GeometryMetadataRow>,
    publishers: Seq<DataPublisherRow>,
    countries: Seq<CountryRow>,
) -> Seq<ExpandedRow>
    decreases metrics.len(),
{
    if metrics.len() == 0 {
        Seq::empty()
    } else {
        spec_expanded_rows(metrics.drop_last(), releases, geometries, publishers, countries)
            + spec_metric_rows(releases, geometries, publishers, countries, metrics.last())
    }
}

/// The denormalized catalog view `Metadata` produces.
pub open spec fn spec_expanded(md: Metadata) -> Seq<ExpandedRow> {
    spec_expanded_rows(
        md.metrics@,
        md.source_data_releases@,
        md.geometries@,
        md.data_publishers@,
        md.countries@,
    )
}

/// The fully joined catalog view: one row per (metric, country) pair.
#[derive(Debug)]
pub struct ExpandedMetadata(pub Vec<ExpandedRow>);

fn push_code_rows(
    countries: &Vec<CountryRow>,
    m: &MetricRow,
    rel: &SourceDataReleaseRow,
    g: &GeometryMetadataRow,
    p: &DataPublisherRow,
    code: &String,
    out: &mut Vec<ExpandedRow>,
)
    ensures
        final (out)@ == old(out)@ + spec_code_rows(countries@, *m, *rel, *g, *p, *code),
{
    let mut i: usize = 0;
    while i < countries.len()
        invariant
            i <= countries@.len(),
            out@ == old(out)@ + spec_code_rows(countries@.take(i as int), *m, *rel, *g, *p, *code),
        decreases countries@.len() - i,
    {
        proof {
            assert(countries@.take(i + 1).drop_last() =~= countries@.take(i as int));
            assert(countries@.take(i + 1).last() == countries@[i as int]);
        }
        let c = &countries[i];
        if eq_str(c.id.as_str(), code.as_str()) {
            out.push(
                ExpandedRow {
                    metric_id: m.id.clone(),
                    metric_human_readable_name: m.human_readable_name.clone(),
                    metric_description: m.description.clone(),
                    metric_hxl_tag: m.hxl_tag.clone(),
                    metric_source_metric_id: m.source_metric_id.clone(),
                    metric_source_download_url: m.source_download_url.clone(),
                    metric_parquet_path: m.parquet_path.clone(),
                    metric_parquet_column_name: m.parquet_column_name.clone(),
                    source_data_release_name: rel.name.clone(),
                    source_data_release_reference_period_start: rel.reference_period_start,
                    source_data_release_reference_period_end: rel.reference_period_end,
                    geometry_level: g.level.clone(),
                    geometry_filepath_stem: g.filepath_stem.clone(),
                    data_publisher_name: p.name.clone(),
                    data_publisher_country_of_interest: code.clone(),
                    country_name_short_en: c.name_short_en.clone(),
                    country_name_official: c.name_official.clone(),
                    country_iso2: c.iso2.clone(),
                    country_iso3: c.iso3.clone(),
                    country_iso3166_2: c.iso3166_2.clone(),
                },
            );
            proof {
                assert(out@.last() == spec_row_of(*m, *rel, *g, *p, *code, countries@[i as int]));
                assert(out@ =~= old(out)@ + spec_code_rows(
                    countries@.take(i + 1),
                    *m,
                    *rel,
                    *g,
                    *p,
                    *code,
                ));
            }
        } else {
            proof {
                assert(out@ =~= old(out)@ + spec_code_rows(
                    countries@.take(i + 1),
                    *m,
                    *rel,
                    *g,
                    *p,
                    *code,
                ));
            }
        }
        i += 1;
    }
    proof {
        assert(countries@.take(countries@.len() as int) =~= countries@);
    }
}

fn push_publisher_rows(
    codes: &Vec<String>,
    countries: &Vec<CountryRow>,
    m: &MetricRow,
    rel: &SourceDataReleaseRow,
    g: &GeometryMetadataRow,
    p: &DataPublisherRow,
    out: &mut Vec<ExpandedRow>,
)
    ensures
        final (out)@ == old(out)@ + spec_publisher_rows(codes@, countries@, *m, *rel, *g, *p),
{
    let mut i: usize = 0;
    while i < codes.len()
        invariant
            i <= codes@.len(),
            out@ == old(out)@ + spec_publisher_rows(
                codes@.take(i as int),
                countries@,
                *m,
                *rel,
                *g,
                *p,
            ),
        decreases codes@.len() - i,
    {
        proof {
            assert(codes@.take(i + 1).drop_last() =~= codes@.take(i as int));
            assert(codes@.take(i + 1).last() == codes@[i as int]);
        }
        push_code_rows(countries, m, rel, g, p, &codes[i], out);
        i += 1;
    }
    proof {
        assert(codes@.take(codes@.len() as int) =~= codes@);
    }
}

fn push_geometry_rows(
    publishers: &Vec<DataPublisherRow>,
    countries: &Vec<CountryRow>,
    m: &MetricRow,
    rel: &SourceDataReleaseRow,
    g: &GeometryMetadataRow,
    out: &mut Vec<ExpandedRow>,
)
    ensures
        final (out)@ == old(out)@ + spec_geometry_rows(publishers@, countries@, *m, *rel, *g),
{
    let mut i: usize = 0;
    while i < publishers.len()
        invariant
            i <= publishers@.len(),
            out@ == old(out)@ + spec_geometry_rows(
                publishers@.take(i as int),
                countries@,
                *m,
                *rel,
                *g,
            ),
        decreases publishers@.len() - i,
    {
        proof {
            assert(publishers@.take(i + 1).drop_last() =~= publishers@.take(i as int));
            assert(publishers@.take(i + 1).last() == publishers@[i as int]);
        }
        let p = &publishers[i];
        if eq_str(p.id.as_str(), rel.data_publisher_id.as_str()) {
            push_publisher_rows(&p.countries_of_interest, countries, m, rel, g, p, out);
        }
        i += 1;
    }
    proof {
        assert(publishers@.take(publishers@.len() as int) =~= publishers@);
    }
}

fn push_release_rows(
    geometries: &Vec<GeometryMetadataRow>,
    publishers: &Vec<DataPublisherRow>,
    countries: &Vec<CountryRow>,
    m: &MetricRow,
    rel: &SourceDataReleaseRow,
    out: &mut Vec<ExpandedRow>,
)
    ensures
        final (out)@ == old(out)@ + spec_release_rows(geometries@, publishers@, countries@, *m, *rel),
{
    let mut i: usize = 0;
    while i < geometries.len()
        invariant
            i <= geometries@.len(),
            out@ == old(out)@ + spec_release_rows(
                geometries@.take(i as int),
                publishers@,
                countries@,
                *m,
                *rel,
            ),
        decreases geometries@.len() - i,
    {
        proof {
            assert(geometries@.take(i + 1).drop_last() =~= geometries@.take(i as int));
            assert(geometries@.take(i + 1).last() == geometries@[i as int]);
        }
        let g = &geometries[i];
        if eq_str(g.id.as_str(), rel.geometry_metadata_id.as_str()) {
            push_geometry_rows(publishers, countries, m, rel, g, out);
        }
        i += 1;
    }
    proof {
        assert(geometries@.take(geometries@.len() as int) =~= geometries@);
    }
}

fn push_metric_rows(
    releases: &Vec<SourceDataReleaseRow>,
    geometries: &Vec<GeometryMetadataRow>,
    publishers: &Vec<DataPublisherRow>,
    countries: &Vec<CountryRow>,
    m: &MetricRow,
    out: &mut Vec<ExpandedRow>,
)
    ensures
        final (out)@ == old(out)@ + spec_metric_rows(releases@, geometries@, publishers@, countries@, *m),
{
    let mut i: usize = 0;
    while i < releases.len()
        invariant
            i <= releases@.len(),
            out@ == old(out)@ + spec_metric_rows(
                releases@.take(i as int),
                geometries@,
                publishers@,
                countries@,
                *m,
            ),
        decreases releases@.len() - i,
    {
        proof {
            assert(releases@.take(i + 1).drop_last() =~= releases@.take(i as int));
            assert(releases@.take(i + 1).last() == releases@[i as int]);
        }
        let rel = &releases[i];
        if eq_str(rel.id.as_str(), m.source_data_release_id.as_str()) {
            push_release_rows(geometries, publishers, countries, m, rel, out);
        }
        i += 1;
    }
    proof {
        assert(releases@.take(releases@.len() as int) =~= releases@);
    }
}

impl Metadata {
    /// Produces the denormalized view joining the five relations: metric to
    /// release to geometry and publisher, the publisher's country list
    /// exploded into one row per country of interest, joined to the country
    /// table. Inner-join semantics throughout: combinations with no match
    /// contribute nothing.
    pub fn combined_metric_source_geometry(&self) -> (r: ExpandedMetadata)
        ensures
            r.0@ == spec_expanded(*self),
    {
        let mut out: Vec<ExpandedRow> = Vec::new();
        let mut i: usize = 0;
        while i < self.metrics.len()
            invariant
                i <= self.metrics@.len(),
                out@ == spec_expanded_rows(
                    self.metrics@.take(i as int),
                    self.source_data_releases@,
                    self.geometries@,
                    self.data_publishers@,
                    self.countries@,
                ),
            decreases self.metrics@.len() - i,
        {
            proof {
                assert(self.metrics@.take(i + 1).drop_last() =~= self.metrics@.take(i as int));
                assert(self.metrics@.take(i + 1).last() == self.metrics@[i as int]);
            }
            push_metric_rows(
                &self.source_data_releases,
                &self.geometries,
                &self.data_publishers,
                &self.countries,
                &self.metrics[i],
                &mut out,
            );
            i += 1;
        }
        proof {
            assert(self.metrics@.take(self.metrics@.len() as int) =~= self.metrics@);
        }
        ExpandedMetadata(out)
    }
}


/// The metric relation of a union of catalogs: each part's metrics in part
/// order.
pub open spec fn spec_merged_metrics(parts: Seq<Metadata>) -> Seq<MetricRowV>
    decreases parts.len(),
{
    if parts.len() == 0 {
        Seq::empty()
    } else {
        spec_merged_metrics(parts.drop_last()) + parts.last().metrics.deep_view()
    }
}

/// The geometry relation of a union of catalogs.
pub open spec fn spec_merged_geometries(parts: Seq<Metadata>) -> Seq<GeometryMetadataRowV>
    decreases parts.len(),
{
    if parts.len() == 0 {
        Seq::empty()
    } else {
        spec_merged_geometries(parts.drop_last()) + parts.last().geometries.deep_view()
    }
}

/// The source-data-release relation of a union of catalogs.
pub open spec fn spec_merged_releases(parts: Seq<Metadata>) -> Seq<SourceDataReleaseRowV>
    decreases parts.len(),
{
    if parts.len() == 0 {
        Seq::empty()
    } else {
        spec_merged_releases(parts.drop_last()) + parts.last().source_data_releases.deep_view()
    }
}

/// The data-publisher relation of a union of catalogs.
pub open spec fn spec_merged_publishers(parts: Seq<Metadata>) -> Seq<DataPublisherRowV>
    decreases parts.len(),
{
    if parts.len() == 0 {
        Seq::empty()
    } else {
        spec_merged_publishers(parts.drop_last()) + parts.last().data_publishers.deep_view()
    }
}

/// The country relation of a union of catalogs.
pub open spec fn spec_merged_countries(parts: Seq<Metadata>) -> Seq<CountryRowV>
    decreases parts.len(),
{
    if parts.len() == 0 {
        Seq::empty()
    } else {
        spec_merged_countries(parts.drop_last()) + parts.last().countries.deep_view()
    }
}

fn append_metric_rows(dst: &mut Vec<MetricRow>, src: &Vec<MetricRow>)
    ensures
        final (dst).deep_view() == old(dst).deep_view() + src.deep_view(),
{
    let mut i: usize = 0;
    while i < src.len()
        invariant
            i <= src@.len(),
            dst.deep_view() =~~= old(dst).deep_view() + src.deep_view().take(i as int),
        decreases src@.len() - i,
    {
        let ghost pre = dst.deep_view();
        dst.push(src[i].clone());
        proof {
            let lhs = dst.deep_view();
            let rhs = old(dst).deep_view() + src.deep_view().take(i + 1);
            assert(pre.len() == old(dst).deep_view().len() + i);
            assert(lhs.len() == rhs.len());
            assert forall|j: int| 0 <= j < lhs.len() implies lhs[j] == rhs[j] by {
                if j < pre.len() {
                    assert(lhs[j] == pre[j]);
                    assert(pre[j] == (old(dst).deep_view() + src.deep_view().take(i as int))[j]);
                } else {
                    assert(lhs[j] == src.deep_view()[i as int]);
                    assert(rhs[j] == src.deep_view().take(i + 1)[i as int]);
                }
            }
            assert(lhs =~= rhs);
        }
        i += 1;
    }
    proof {
        assert(src.deep_view().take(src@.len() as int) =~~= src.deep_view());
    }
}

fn append_geometry_rows(dst: &mut Vec<GeometryMetadataRow>, src: &Vec<GeometryMetadataRow>)
    ensures
        final (dst).deep_view() == old(dst).deep_view() + src.deep_view(),
{
    let mut i: usize = 0;
    while i < src.len()
        invariant
            i <= src@.len(),
            dst.deep_view() =~~= old(dst).deep_view() + src.deep_view().take(i as int),
        decreases src@.len() - i,
    {
        let ghost pre = dst.deep_view();
        dst.push(src[i].clone());
        proof {
            let lhs = dst.deep_view();
            let rhs = old(dst).deep_view() + src.deep_view().take(i + 1);
            assert(pre.len() == old(dst).deep_view().len() + i);
            assert(lhs.len() == rhs.len());
            assert forall|j: int| 0 <= j < lhs.len() implies lhs[j] == rhs[j] by {
                if j < pre.len() {
                    assert(lhs[j] == pre[j]);
                    assert(pre[j] == (old(dst).deep_view() + src.deep_view().take(i as int))[j]);
                } else {
                    assert(lhs[j] == src.deep_view()[i as int]);
                    assert(rhs[j] == src.deep_view().take(i + 1)[i as int]);
                }
            }
            assert(lhs =~= rhs);
        }
        i += 1;
    }
    proof {
        assert(src.deep_view().take(src@.len() as int) =~~= src.deep_view());
    }
}

fn append_release_rows(dst: &mut Vec<SourceDataReleaseRow>, src: &Vec<SourceDataReleaseRow>)
    ensures
        final (dst).deep_view() == old(dst).deep_view() + src.deep_view(),
{
    let mut i: usize = 0;
    while i < src.len()
        invariant
            i <= src@.len(),
            dst.deep_view() =~~= old(dst).deep_view() + src.deep_view().take(i as int),
        decreases src@.len() - i,
    {
        let ghost pre = dst.deep_view();
        dst.push(src[i].clone());
        proof {
            let lhs = dst.deep_view();
            let rhs = old(dst).deep_view() + src.deep_view().take(i + 1);
            assert(pre.len() == old(dst).deep_view().len() + i);
            assert(lhs.len() == rhs.len());
            assert forall|j: int| 0 <= j < lhs.len() implies lhs[j] == rhs[j] by {
                if j < pre.len() {
                    assert(lhs[j] == pre[j]);
                    assert(pre[j] == (old(dst).deep_view() + src.deep_view().take(i as int))[j]);
                } else {
                    assert(lhs[j] == src.deep_view()[i as int]);
                    assert(rhs[j] == src.deep_view().take(i + 1)[i as int]);
                }
            }
            assert(lhs =~= rhs);
        }
        i += 1;
    }
    proof {
        assert(src.deep_view().take(src@.len() as int) =~~= src.deep_view());
    }
}

fn append_publisher_rows(dst: &mut Vec<DataPublisherRow>, src: &Vec<DataPublisherRow>)
    ensures
        final (dst).deep_view() == old(dst).deep_view() + src.deep_view(),
{
    let mut i: usize = 0;
    while i < src.len()
        invariant
            i <= src@.len(),
            dst.deep_view() =~~= old(dst).deep_view() + src.deep_view().take(i as int),
        decreases src@.len() - i,
    {
        let ghost pre = dst.deep_view();
        dst.push(src[i].clone());
        proof {
            let lhs = dst.deep_view();
            let rhs = old(dst).deep_view() + src.deep_view().take(i + 1);
            assert(pre.len() == old(dst).deep_view().len() + i);
            assert(lhs.len() == rhs.len());
            assert forall|j: int| 0 <= j < lhs.len() implies lhs[j] == rhs[j] by {
                if j < pre.len() {
                    assert(lhs[j] == pre[j]);
                    assert(pre[j] == (old(dst).deep_view() + src.deep_view().take(i as int))[j]);
                } else {
                    assert(lhs[j] == src.deep_view()[i as int]);
                    assert(rhs[j] == src.deep_view().take(i + 1)[i as int]);
                }
            }
            assert(lhs =~= rhs);
        }
        i += 1;
    }
    proof {
        assert(src.deep_view().take(src@.len() as int) =~~= src.deep_view());
    }
}

fn append_country_rows(dst: &mut Vec<CountryRow>, src: &Vec<CountryRow>)
    ensures
        final (dst).deep_view() == old(dst).deep_view() + src.deep_view(),
{
    let mut i: usize = 0;
    while i < src.len()
        invariant
            i <= src@.len(),
            dst.deep_view() =~~= old(dst).deep_view() + src.deep_view().take(i as int),
        decreases src@.len() - i,
    {
        let ghost pre = dst.deep_view();
        dst.push(src[i].clone());
        proof {
            let lhs = dst.deep_view();
            let rhs = old(dst).deep_view() + src.deep_view().take(i + 1);
            assert(pre.len() == old(dst).deep_view().len() + i);
            assert(lhs.len() == rhs.len());
            assert forall|j: int| 0 <= j < lhs.len() implies lhs[j] == rhs[j] by {
                if j < pre.len() {
                    assert(lhs[j] == pre[j]);
                    assert(pre[j] == (old(dst).deep_view() + src.deep_view().take(i as int))[j]);
                } else {
                    assert(lhs[j] == src.deep_view()[i as int]);
                    assert(rhs[j] == src.deep_view().take(i + 1)[i as int]);
                }
            }
            assert(lhs =~= rhs);
        }
        i += 1;
    }
    proof {
        assert(src.deep_view().take(src@.len() as int) =~~= src.deep_view());
    }
}

/// Unions per-country catalogs into one: each of the five relations is the
/// concatenation of the parts' relations, in the order the parts are given
/// (the country-list order), not in completion order.
pub fn merge_metadata(parts: &Vec<Metadata>) -> (r: Metadata)
    ensures
        r.metrics.deep_view() == spec_merged_metrics(parts@),
        r.geometries.deep_view() == spec_merged_geometries(parts@),
        r.source_data_releases.deep_view() == spec_merged_releases(parts@),
        r.data_publishers.deep_view() == spec_merged_publishers(parts@),
        r.countries.deep_view() == spec_merged_countries(parts@),
{
    let mut metrics: Vec<MetricRow> = Vec::new();
    let mut geometries: Vec<GeometryMetadataRow> = Vec::new();
    let mut source_data_releases: Vec<SourceDataReleaseRow> = Vec::new();
    let mut data_publishers: Vec<DataPublisherRow> = Vec::new();
    let mut countries: Vec<CountryRow> = Vec::new();
    let mut i: usize = 0;
    proof {
        assert(metrics.deep_view() =~~= spec_merged_metrics(parts@.take(0)));
        assert(geometries.deep_view() =~~= spec_merged_geometries(parts@.take(0)));
        assert(source_data_releases.deep_view() =~~= spec_merged_releases(parts@.take(0)));
        assert(data_publishers.deep_view() =~~= spec_merged_publishers(parts@.take(0)));
        assert(countries.deep_view() =~~= spec_merged_countries(parts@.take(0)));
    }
    while i < parts.len()
        invariant
            i <= parts@.len(),
            metrics.deep_view() == spec_merged_metrics(parts@.take(i as int)),
            geometries.deep_view() == spec_merged_geometries(parts@.take(i as int)),
            source_data_releases.deep_view() == spec_merged_releases(parts@.take(i as int)),
            data_publishers.deep_view() == spec_merged_publishers(parts@.take(i as int)),
            countries.deep_view() == spec_merged_countries(parts@.take(i as int)),
        decreases parts@.len() - i,
    {
        proof {
            assert(parts@.take(i + 1).drop_last() =~= parts@.take(i as int));
            assert(parts@.take(i + 1).last() == parts@[i as int]);
        }
        let part = &parts[i];
        append_metric_rows(&mut metrics, &part.metrics);
        append_geometry_rows(&mut geometries, &part.geometries);
        append_release_rows(&mut source_data_releases, &part.source_data_releases);
        append_publisher_rows(&mut data_publishers, &part.data_publishers);
        append_country_rows(&mut countries, &part.countries);
        i += 1;
    }
    proof {
        assert(parts@.take(parts@.len() as int) =~= parts@);
    }
    Metadata { metrics, geometries, source_data_releases, data_publishers, countries }
}


/// A way of referring to a metric: by Humanitarian Exchange Language tag,
/// by internal id, or by human-readable name.
#[derive(Debug, Clone)]
pub enum MetricId {
    Hxl(String),
    Id(String),
    CommonName(String),
}

impl MetricId {
    /// The metadata column this kind of id is matched against.
    pub fn to_col_name(&self) -> (r: String)
        ensures
            self is Hxl ==> r@ == "metric_hxl_tag"@,
            self is Id ==> r@ == "metric_id"@,
            self is CommonName ==> r@ == "human_readable_name"@,
    {
        match self {
            MetricId::Hxl(_) => "metric_hxl_tag".to_owned(),
            MetricId::Id(_) => "metric_id".to_owned(),
            MetricId::CommonName(_) => "human_readable_name".to_owned(),
        }
    }

    /// The textual content of the id.
    pub fn to_query_string(&self) -> (r: &str)
        ensures
            r@ == self.spec_query_string(),
    {
        match self {
            MetricId::CommonName(s) => s.as_str(),
            MetricId::Id(s) => s.as_str(),
            MetricId::Hxl(s) => s.as_str(),
        }
    }

    /// The character sequence inside the id, whichever kind it is.
    pub open spec fn spec_query_string(&self) -> Seq<char> {
        match self {
            MetricId::CommonName(s) => s@,
            MetricId::Id(s) => s@,
            MetricId::Hxl(s) => s@,
        }
    }
}

/// A fully specified selection plan: explicit metric ids, a geometry level,
/// years, and advice about alternatives the caller should know of.
#[derive(Debug)]
pub struct FullSelectionPlan {
    pub explicit_metric_ids: Vec<MetricId>,
    pub geometry: String,
    pub year: Vec<String>,
    pub advice: String,
}

/// The file names of the five metadata relations under a country's
/// directory. The default names are the published ones; custom names can be
/// set for nonstandard layouts.
#[derive(Debug, Clone)]
pub struct CountryMetadataPaths {
    pub geometry: String,
    pub metrics: String,
    pub country: String,
    pub source_data: String,
    pub data_publishers: String,
}

impl Default for CountryMetadataPaths {
    /// The published file names.
    fn default() -> (r: Self)
        ensures
            r.geometry@ == "geometry_metadata.parquet"@,
            r.metrics@ == "metric_metadata.parquet"@,
            r.country@ == "country_metadata.parquet"@,
            r.source_data@ == "source_data_releases.parquet"@,
            r.data_publishers@ == "data_publishers.parquet"@,
    {
        CountryMetadataPaths {
            geometry: "geometry_metadata.parquet".to_owned(),
            metrics: "metric_metadata.parquet".to_owned(),
            country: "country_metadata.parquet".to_owned(),
            source_data: "source_data_releases.parquet".to_owned(),
            data_publishers: "data_publishers.parquet".to_owned(),
        }
    }
}

/// Names one country's metadata files and builds the URLs they are fetched
/// from. The fetching itself happens outside this crate; this type only
/// derives the locations.
#[derive(Debug, Clone)]
pub struct CountryMetadataLoader {
    pub country: String,
    pub paths: CountryMetadataPaths,
}

impl CountryMetadataLoader {
    /// A loader for one country, with the default file names.
    pub fn new(country: &str) -> (r: Self)
        ensures
            r.country@ == country@,
            r.paths.geometry@ == "geometry_metadata.parquet"@,
            r.paths.metrics@ == "metric_metadata.parquet"@,
            r.paths.country@ == "country_metadata.parquet"@,
            r.paths.source_data@ == "source_data_releases.parquet"@,
            r.paths.data_publishers@ == "data_publishers.parquet"@,
    {
        CountryMetadataLoader { country: country.to_owned(), paths: Default::default() }
    }

    /// The same loader with custom file names.
    pub fn with_paths(self, paths: CountryMetadataPaths) -> (r: Self)
        ensures
            r.country == self.country,
            r.paths == paths,
    {
        CountryMetadataLoader { country: self.country, paths }
    }
}

/// The URL one metadata file is fetched from: `{base}/{country}/{file}`.
pub open spec fn spec_metadata_url(base: Seq<char>, country: Seq<char>, file: Seq<char>) -> Seq<
    char,
> {
    base + "/"@ + country + "/"@ + file
}

/// Builds the URL of one metadata file under the configured base path.
pub fn metadata_url(base: &str, country: &str, file: &str) -> (r: String)
    ensures
        r@ == spec_metadata_url(base@, country@, file@),
{
    let mut out = base.to_owned();
    out.append("/");
    out.append(country);
    out.append("/");
    out.append(file);
    out
}

/// The lines of the country-list resource: segments between newlines, each
/// stripped of one trailing carriage return, and without a final empty
/// segment left by a trailing newline.
pub open spec fn spec_country_lines(text: Seq<char>) -> Seq<Seq<char>> {
    let segs = crate::strsplit::spec_split(text, "\n"@);
    let segs2 = if segs.len() > 0 && segs.last().len() == 0 {
        segs.drop_last()
    } else {
        segs
    };
    segs2.map_values(|seg: Seq<char>| if seg.len() > 0 && seg.last() == '\r' {
        seg.drop_last()
    } else {
        seg
    })
}

/// Splits the newline-delimited country-list resource into country names, as
/// `str::lines` does for newline- and CRLF-delimited text with at most one
/// final newline.
pub fn parse_country_list(text: &str) -> (r: Vec<String>)
    ensures
        r.deep_view() == spec_country_lines(text@),
{
    proof {
        reveal_strlit("\n");
    }
    let segs = split_on(text, "\n");
    let mut out: Vec<String> = Vec::new();
    let keep = if segs.len() > 0 && segs[segs.len() - 1].as_str().unicode_len() == 0 {
        segs.len() - 1
    } else {
        segs.len()
    };
    let ghost segs2 = if segs.deep_view().len() > 0 && segs.deep_view().last().len() == 0 {
        segs.deep_view().drop_last()
    } else {
        segs.deep_view()
    };
    proof {
        assert(segs.deep_view().len() == segs@.len());
        assert(forall|j: int|
            0 <= j < segs@.len() ==> (#[trigger] segs@[j])@ == segs.deep_view()[j]);
        assert(segs2 =~= segs.deep_view().take(keep as int));
    }
    let mut i: usize = 0;
    while i < keep
        invariant
            i <= keep <= segs@.len(),
            segs.deep_view().len() == segs@.len(),
            forall|j: int| 0 <= j < segs@.len() ==> (#[trigger] segs@[j])@ == segs.deep_view()[j],
            segs2 == segs.deep_view().take(keep as int),
            out.deep_view().len() == i,
            forall|j: int|
                0 <= j < i ==> out.deep_view()[j] == (if segs2[j].len() > 0 && segs2[j].last()
                    == '\r' {
                    segs2[j].drop_last()
                } else {
                    segs2[j]
                }),
        decreases keep - i,
    {
        let seg = &segs[i];
        let ghost pre = out.deep_view();
        let n = seg.as_str().unicode_len();
        if n > 0 && seg.as_str().get_char(n - 1) == '\r' {
            let trimmed = seg.as_str().substring_char(0, n - 1);
            proof {
                assert(trimmed@ =~= segs2[i as int].drop_last());
            }
            out.push(trimmed.to_owned());
            proof {
                assert(out.deep_view() =~= pre.push(segs2[i as int].drop_last()));
            }
        } else {
            out.push(seg.clone());
            proof {
                assert(out.deep_view() =~= pre.push(segs2[i as int]));
            }
        }
        i += 1;
    }
    proof {
        assert(out.deep_view() =~= spec_country_lines(text@));
    }
    out
}


/// Spec-level image of the whole catalog.
#[verifier::ext_equal]
pub struct MetadataV {
    pub metrics: Seq<MetricRowV>,
    pub geometries: Seq<GeometryMetadataRowV>,
    pub source_data_releases: Seq<SourceDataReleaseRowV>,
    pub data_publishers: Seq<DataPublisherRowV>,
    pub countries: Seq<CountryRowV>,
}

impl View for Metadata {
    type V = MetadataV;

    open spec fn view(&self) -> MetadataV {
        MetadataV {
            metrics: self.metrics.deep_view(),
            geometries: self.geometries.deep_view(),
            source_data_releases: self.source_data_releases.deep_view(),
            data_publishers: self.data_publishers.deep_view(),
            countries: self.countries.deep_view(),
        }
    }
}

} // verus!
