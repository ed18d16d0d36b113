//! Search facets and the predicate compiler over the joined catalog view.
//!
//! A `SearchParams` value carries zero or more facets. Facets other than
//! metric ids are AND-combined into one refinement predicate; metric-id
//! facets are OR-combined into an identity predicate; the final predicate is
//! `refinement OR identity` when both exist, else whichever exists, else
//! "match all".

use vstd::prelude::*;
use crate::data_request_spec::RegionSpec;
use crate::dates::{date_le, Date};
use crate::config::Config;
use crate::error::PopgetterError;
use crate::geo::BBox;
use crate::parquet::{MetricRequest, MetricRequestV};
use crate::metadata::{ExpandedMetadata, ExpandedRow};
use crate::strsplit::{digit_part, digits_value, is_u16_string, parse_u16, spec_split, split_on};
use crate::textmatch::{
    contains_str, eq_str, is_prefix_str, is_substring_of, lower_of, re_match, regex_ok,
    regex_search, starts_with_str, to_lowercase,
};

verus! {

/// How a textual facet value is matched against a catalog column.
#[derive(Debug, Clone, Copy, PartialEq, Eq, Structural)]
pub enum MatchType {
    Regex,
    Exact,
    Contains,
    Startswith,
}

/// Whether a textual match is case sensitive.
#[derive(Debug, Clone, Copy, PartialEq, Eq, Structural)]
pub enum CaseSensitivity {
    Insensitive,
    Sensitive,
}

/// Configuration for one textual facet: its match mode and case handling.
#[derive(Debug, Clone, Copy, PartialEq, Eq, Structural)]
pub struct SearchConfig {
    pub match_type: MatchType,
    pub case_sensitivity: CaseSensitivity,
}

impl Default for MatchType {
    fn default() -> (r: Self)
        ensures
            r == MatchType::Exact,
    {
        MatchType::Exact
    }
}

impl Default for CaseSensitivity {
    fn default() -> (r: Self)
        ensures
            r == CaseSensitivity::Insensitive,
    {
        CaseSensitivity::Insensitive
    }
}

/// The catalog columns a free-text search can target.
#[derive(Debug, Clone, Copy, PartialEq, Eq, Structural)]
pub enum SearchContext {
    Hxl,
    HumanReadableName,
    Description,
}

impl SearchContext {
    /// All three text-search targets.
    pub fn all() -> (r: Vec<SearchContext>)
        ensures
            r@ == seq![
                SearchContext::Hxl,
                SearchContext::HumanReadableName,
                SearchContext::Description,
            ],
    {
        let mut v: Vec<SearchContext> = Vec::new();
        v.push(SearchContext::Hxl);
        v.push(SearchContext::HumanReadableName);
        v.push(SearchContext::Description);
        proof {
            assert(v@ =~= seq![
                SearchContext::Hxl,
                SearchContext::HumanReadableName,
                SearchContext::Description,
            ]);
        }
        v
    }
}

/// A free-text search over one or more catalog text columns.
#[derive(Debug, Clone)]
pub struct SearchText {
    pub text: String,
    pub context: Vec<SearchContext>,
    pub config: SearchConfig,
}

impl Default for SearchText {
    /// Empty text over all contexts, matched exactly and case-insensitively.
    fn default() -> (r: Self)
        ensures
            r.text@ == Seq::<char>::empty(),
            r.context@ == seq![
                SearchContext::Hxl,
                SearchContext::HumanReadableName,
                SearchContext::Description,
            ],
            r.config == (SearchConfig {
                match_type: MatchType::Exact,
                case_sensitivity: CaseSensitivity::Insensitive,
            }),
    {
        SearchText {
            text: String::new(),
            context: SearchContext::all(),
            config: SearchConfig {
                match_type: MatchType::Exact,
                case_sensitivity: CaseSensitivity::Insensitive,
            },
        }
    }
}

/// A search over years, matched against a release's reference period.
#[derive(Debug, Clone, Copy, PartialEq, Eq, Structural)]
pub enum YearRange {
    Before(u16),
    After(u16),
    Between(u16, u16),
}

/// The value of a year-range segment: empty means "open end", digits mean a
/// year, anything else is rejected.
pub open spec fn spec_opt_year(s: Seq<char>) -> Option<Option<u16>> {
    if s.len() == 0 {
        Some(None)
    } else if is_u16_string(s) {
        Some(Some(digits_value(digit_part(s)) as u16))
    } else {
        None
    }
}

/// The year range a single range string denotes, if any:
/// `N` means `Between(N, N)`, `...N` means `Before(N)`, `N...` means
/// `After(N)`, and `M...N` with `M <= N` means `Between(M, N)`.
pub open spec fn spec_parse_year_range(s: Seq<char>) -> Option<YearRange> {
    let parts = spec_split(s, "..."@);
    if parts.len() == 1 {
        match spec_opt_year(parts[0]) {
            Some(Some(a)) => Some(YearRange::Between(a, a)),
            _ => None,
        }
    } else if parts.len() == 2 {
        match (spec_opt_year(parts[0]), spec_opt_year(parts[1])) {
            (Some(None), Some(Some(a))) => Some(YearRange::Before(a)),
            (Some(Some(a)), Some(None)) => Some(YearRange::After(a)),
            (Some(Some(a)), Some(Some(b))) => if a <= b {
                Some(YearRange::Between(a, b))
            } else {
                None
            },
            _ => None,
        }
    } else {
        None
    }
}

/// Parses one year-range segment into an open end (`None`) or a year.
fn opt_year(s: &str) -> (r: Option<Option<u16>>)
    ensures
        r == spec_opt_year(s@),
{
    if s.unicode_len() == 0 {
        Some(None)
    } else {
        match parse_u16(s) {
            Some(v) => Some(Some(v)),
            None => None,
        }
    }
}

impl YearRange {
    /// Parses one year-range string.
    pub fn parse(s: &str) -> (r: Result<YearRange, PopgetterError>)
        ensures
            r is Ok <==> spec_parse_year_range(s@) is Some,
            r is Ok ==> r.unwrap() == spec_parse_year_range(s@).unwrap(),
            r is Err ==> r.unwrap_err() is InvalidYearRange,
    {
        proof {
            reveal_strlit("...");
        }
        let parts = split_on(s, "...");
        proof {
            assert(parts@.len() == parts.deep_view().len());
            assert(forall|i: int|
                0 <= i < parts@.len() ==> (#[trigger] parts@[i])@ == parts.deep_view()[i]);
        }
        if parts.len() == 1 {
            match opt_year(parts[0].as_str()) {
                Some(Some(a)) => Ok(YearRange::Between(a, a)),
                _ => Err(PopgetterError::InvalidYearRange(s.to_owned())),
            }
        } else if parts.len() == 2 {
            let p0 = opt_year(parts[0].as_str());
            let p1 = opt_year(parts[1].as_str());
            match (p0, p1) {
                (Some(None), Some(Some(a))) => Ok(YearRange::Before(a)),
                (Some(Some(a)), Some(None)) => Ok(YearRange::After(a)),
                (Some(Some(a)), Some(Some(b))) => if a <= b {
                    Ok(YearRange::Between(a, b))
                } else {
                    Err(PopgetterError::InvalidYearRange(s.to_owned()))
                },
                _ => Err(PopgetterError::InvalidYearRange(s.to_owned())),
            }
        } else {
            Err(PopgetterError::InvalidYearRange(s.to_owned()))
        }
    }
}

/// The list of year ranges a comma-separated string denotes, if every
/// component parses.
pub open spec fn spec_parse_year_ranges(s: Seq<char>) -> Option<Seq<YearRange>> {
    let parts = spec_split(s, ","@);
    if forall|i: int| 0 <= i < parts.len() ==> (#[trigger] spec_parse_year_range(parts[i])) is Some {
        Some(Seq::new(parts.len(), |i: int| spec_parse_year_range(parts[i]).unwrap()))
    } else {
        None
    }
}

/// Parses a comma-separated list of year ranges; every component must parse.
pub fn parse_year_range(value: &str) -> (r: Result<Vec<YearRange>, PopgetterError>)
    ensures
        r is Ok <==> spec_parse_year_ranges(value@) is Some,
        r is Ok ==> r.unwrap()@ == spec_parse_year_ranges(value@).unwrap(),
        r is Err ==> r.unwrap_err() is InvalidYearRange,
{
    proof {
        reveal_strlit(",");
    }
    let parts = split_on(value, ",");
    proof {
        assert(parts@.len() == parts.deep_view().len());
        assert(forall|i: int|
            0 <= i < parts@.len() ==> (#[trigger] parts@[i])@ == parts.deep_view()[i]);
    }
    let ghost sparts = spec_split(value@, ","@);
    let mut out: Vec<YearRange> = Vec::new();
    let mut i: usize = 0;
    while i < parts.len()
        invariant
            i <= parts@.len(),
            parts@.len() == sparts.len(),
            forall|j: int| 0 <= j < parts@.len() ==> (#[trigger] parts@[j])@ == sparts[j],
            forall|j: int| 0 <= j < i ==> (#[trigger] spec_parse_year_range(sparts[j])) is Some,
            out@.len() == i,
            forall|j: int|
                0 <= j < i ==> out@[j] == spec_parse_year_range(sparts[j]).unwrap(),
        decreases parts@.len() - i,
    {
        match YearRange::parse(parts[i].as_str()) {
            Ok(yr) => {
                out.push(yr);
            },
            Err(e) => {
                return Err(e);
            },
        }
        i += 1;
    }
    proof {
        assert(out@ =~= Seq::new(sparts.len(), |i: int| spec_parse_year_range(sparts[i]).unwrap()));
    }
    Ok(out)
}

/// A search over metric identifiers; by default a case-insensitive prefix
/// match.
#[derive(Debug)]
pub struct MetricId {
    pub id: String,
    pub config: SearchConfig,
}

impl Clone for MetricId {
    fn clone(&self) -> (r: Self)
        ensures
            r == *self,
    {
        MetricId { id: self.id.clone(), config: self.config }
    }
}

/// The default configuration for metric-id facets: case-insensitive prefix
/// match.
pub fn default_metric_id_search_config() -> (r: SearchConfig)
    ensures
        r == (SearchConfig {
            match_type: MatchType::Startswith,
            case_sensitivity: CaseSensitivity::Insensitive,
        }),
{
    SearchConfig { match_type: MatchType::Startswith, case_sensitivity: CaseSensitivity::Insensitive }
}

/// A search over geometry levels.
#[derive(Debug, Clone)]
pub struct GeometryLevel {
    pub value: String,
    pub config: SearchConfig,
}

/// A search over source data release names.
#[derive(Debug, Clone)]
pub struct SourceDataRelease {
    pub value: String,
    pub config: SearchConfig,
}

/// A search over the source download url of a metric.
#[derive(Debug, Clone)]
pub struct SourceDownloadUrl {
    pub value: String,
    pub config: SearchConfig,
}

/// A search over data publisher names.
#[derive(Debug, Clone)]
pub struct DataPublisher {
    pub value: String,
    pub config: SearchConfig,
}

/// A search over country names and codes; always case-insensitive.
#[derive(Debug, Clone)]
pub struct Country {
    pub value: String,
    pub config: SearchConfig,
}

/// A search over source metric ids in the original census table.
#[derive(Debug, Clone)]
pub struct SourceMetricId {
    pub value: String,
    pub config: SearchConfig,
}


/// A catalog-view text column that a facet can be matched against.
#[derive(Debug, Clone, Copy, PartialEq, Eq, Structural)]
pub enum TextColumn {
    MetricId,
    MetricHxlTag,
    MetricHumanReadableName,
    MetricDescription,
    MetricSourceMetricId,
    MetricSourceDownloadUrl,
    SourceDataReleaseName,
    GeometryLevel,
    DataPublisherName,
    CountryNameShortEn,
    CountryNameOfficial,
    CountryIso2,
    CountryIso3,
    CountryIso31662,
    DataPublisherCountriesOfInterest,
}

/// The value a text column has in one catalog-view row.
pub open spec fn spec_column_value(row: ExpandedRow, c: TextColumn) -> Seq<char> {
    match c {
        TextColumn::MetricId => row.metric_id@,
        TextColumn::MetricHxlTag => row.metric_hxl_tag@,
        TextColumn::MetricHumanReadableName => row.metric_human_readable_name@,
        TextColumn::MetricDescription => row.metric_description@,
        TextColumn::MetricSourceMetricId => row.metric_source_metric_id@,
        TextColumn::MetricSourceDownloadUrl => row.metric_source_download_url@,
        TextColumn::SourceDataReleaseName => row.source_data_release_name@,
        TextColumn::GeometryLevel => row.geometry_level@,
        TextColumn::DataPublisherName => row.data_publisher_name@,
        TextColumn::CountryNameShortEn => row.country_name_short_en@,
        TextColumn::CountryNameOfficial => row.country_name_official@,
        TextColumn::CountryIso2 => row.country_iso2@,
        TextColumn::CountryIso3 => row.country_iso3@,
        TextColumn::CountryIso31662 => row.country_iso3166_2@,
        TextColumn::DataPublisherCountriesOfInterest => row.data_publisher_country_of_interest@,
    }
}

/// Reads a text column out of one catalog-view row.
fn column_value<'a>(row: &'a ExpandedRow, c: TextColumn) -> (r: &'a str)
    ensures
        r@ == spec_column_value(*row, c),
{
    match c {
        TextColumn::MetricId => row.metric_id.as_str(),
        TextColumn::MetricHxlTag => row.metric_hxl_tag.as_str(),
        TextColumn::MetricHumanReadableName => row.metric_human_readable_name.as_str(),
        TextColumn::MetricDescription => row.metric_description.as_str(),
        TextColumn::MetricSourceMetricId => row.metric_source_metric_id.as_str(),
        TextColumn::MetricSourceDownloadUrl => row.metric_source_download_url.as_str(),
        TextColumn::SourceDataReleaseName => row.source_data_release_name.as_str(),
        TextColumn::GeometryLevel => row.geometry_level.as_str(),
        TextColumn::DataPublisherName => row.data_publisher_name.as_str(),
        TextColumn::CountryNameShortEn => row.country_name_short_en.as_str(),
        TextColumn::CountryNameOfficial => row.country_name_official.as_str(),
        TextColumn::CountryIso2 => row.country_iso2.as_str(),
        TextColumn::CountryIso3 => row.country_iso3.as_str(),
        TextColumn::CountryIso31662 => row.country_iso3166_2.as_str(),
        TextColumn::DataPublisherCountriesOfInterest => row.data_publisher_country_of_interest.as_str(),
    }
}

/// The pattern actually handed to the regex engine: the facet value, with a
/// case-insensitivity flag prepended when case is to be ignored.
pub open spec fn spec_effective_pattern(cs: CaseSensitivity, value: Seq<char>) -> Seq<char> {
    if cs is Insensitive {
        "(?i)"@ + value
    } else {
        value
    }
}

/// Whether one textual test holds: exact, containment and prefix tests are
/// literal (lower-cased first when case-insensitive); regex tests follow the
/// regex engine.
pub open spec fn spec_text_match(
    mode: MatchType,
    cs: CaseSensitivity,
    value: Seq<char>,
    field: Seq<char>,
) -> bool {
    match mode {
        MatchType::Exact => match cs {
            CaseSensitivity::Sensitive => field == value,
            CaseSensitivity::Insensitive => lower_of(field) == lower_of(value),
        },
        MatchType::Contains => match cs {
            CaseSensitivity::Sensitive => is_substring_of(value, field),
            CaseSensitivity::Insensitive => is_substring_of(lower_of(value), lower_of(field)),
        },
        MatchType::Startswith => match cs {
            CaseSensitivity::Sensitive => is_prefix_str(value, field),
            CaseSensitivity::Insensitive => is_prefix_str(lower_of(value), lower_of(field)),
        },
        MatchType::Regex => re_match(spec_effective_pattern(cs, value), field),
    }
}

/// Whether a facet's configuration can be evaluated: a regex-mode facet
/// needs its effective pattern accepted by the regex engine.
pub open spec fn spec_config_ok(config: SearchConfig, value: Seq<char>) -> bool {
    config.match_type is Regex ==> regex_ok(
        spec_effective_pattern(config.case_sensitivity, value),
    )
}

/// Evaluates one textual test on one column value.
fn eval_text_match(mode: MatchType, cs: CaseSensitivity, value: &str, field: &str) -> (r: bool)
    requires
        spec_config_ok(SearchConfig { match_type: mode, case_sensitivity: cs }, value@),
    ensures
        r == spec_text_match(mode, cs, value@, field@),
{
    match mode {
        MatchType::Exact => match cs {
            CaseSensitivity::Sensitive => eq_str(field, value),
            CaseSensitivity::Insensitive => {
                let lf = to_lowercase(field);
                let lv = to_lowercase(value);
                eq_str(lf.as_str(), lv.as_str())
            },
        },
        MatchType::Contains => match cs {
            CaseSensitivity::Sensitive => contains_str(field, value),
            CaseSensitivity::Insensitive => {
                let lf = to_lowercase(field);
                let lv = to_lowercase(value);
                contains_str(lf.as_str(), lv.as_str())
            },
        },
        MatchType::Startswith => match cs {
            CaseSensitivity::Sensitive => starts_with_str(field, value),
            CaseSensitivity::Insensitive => {
                let lf = to_lowercase(field);
                let lv = to_lowercase(value);
                starts_with_str(lf.as_str(), lv.as_str())
            },
        },
        MatchType::Regex => {
            let pattern = effective_pattern(cs, value);
            match regex_search(pattern.as_str(), field) {
                Some(b) => b,
                None => {
                    assert(false);
                    false
                },
            }
        },
    }
}

/// Builds the pattern handed to the regex engine.
fn effective_pattern(cs: CaseSensitivity, value: &str) -> (r: String)
    ensures
        r@ == spec_effective_pattern(cs, value@),
{
    match cs {
        CaseSensitivity::Insensitive => {
            let mut p = "(?i)".to_owned();
            p.append(value);
            p
        },
        CaseSensitivity::Sensitive => value.to_owned(),
    }
}

/// Tests whether a facet's configuration can be evaluated (its regex, if it
/// is one, compiles).
fn check_config(config: &SearchConfig, value: &str) -> (r: bool)
    ensures
        r == spec_config_ok(*config, value@),
{
    match config.match_type {
        MatchType::Regex => {
            let pattern = effective_pattern(config.case_sensitivity, value);
            regex_search(pattern.as_str(), "").is_some()
        },
        _ => true,
    }
}

/// A compiled boolean predicate over catalog-view rows.
#[derive(Debug)]
pub enum Expr {
    /// A textual test of one column.
    Text { column: TextColumn, value: String, match_type: MatchType, case_sensitivity: CaseSensitivity },
    /// The release's reference period starts on or before a date.
    StartBefore { bound: Date },
    /// The release's reference period starts on or after a date.
    StartAfter { bound: Date },
    /// The release's reference period ends on or before a date.
    EndBefore { bound: Date },
    /// The release's reference period ends on or after a date.
    EndAfter { bound: Date },
    And(Box<Expr>, Box<Expr>),
    Or(Box<Expr>, Box<Expr>),
}

impl Expr {
    /// What the predicate says of one row.
    pub open spec fn holds_for(self, row: ExpandedRow) -> bool
        decreases self,
    {
        match self {
            Expr::Text { column, value, match_type, case_sensitivity } => spec_text_match(
                match_type,
                case_sensitivity,
                value@,
                spec_column_value(row, column),
            ),
            Expr::StartBefore { bound } => date_le(
                row.source_data_release_reference_period_start,
                bound,
            ),
            Expr::StartAfter { bound } => date_le(
                bound,
                row.source_data_release_reference_period_start,
            ),
            Expr::EndBefore { bound } => date_le(
                row.source_data_release_reference_period_end,
                bound,
            ),
            Expr::EndAfter { bound } => date_le(bound, row.source_data_release_reference_period_end),
            Expr::And(a, b) => a.holds_for(row) && b.holds_for(row),
            Expr::Or(a, b) => a.holds_for(row) || b.holds_for(row),
        }
    }

    /// Every regex leaf of the predicate compiles.
    pub open spec fn wf(self) -> bool
        decreases self,
    {
        match self {
            Expr::Text { column, value, match_type, case_sensitivity } => spec_config_ok(
                SearchConfig { match_type, case_sensitivity },
                value@,
            ),
            Expr::And(a, b) => a.wf() && b.wf(),
            Expr::Or(a, b) => a.wf() && b.wf(),
            _ => true,
        }
    }

    /// Evaluates the predicate on one row.
    pub fn eval(&self, row: &ExpandedRow) -> (r: bool)
        requires
            self.wf(),
        ensures
            r == self.holds_for(*row),
        decreases *self,
    {
        match self {
            Expr::Text { column, value, match_type, case_sensitivity } => eval_text_match(
                *match_type,
                *case_sensitivity,
                value.as_str(),
                column_value(row, *column),
            ),
            Expr::StartBefore { bound } => row.source_data_release_reference_period_start.le(bound),
            Expr::StartAfter { bound } => bound.le(&row.source_data_release_reference_period_start),
            Expr::EndBefore { bound } => row.source_data_release_reference_period_end.le(bound),
            Expr::EndAfter { bound } => bound.le(&row.source_data_release_reference_period_end),
            Expr::And(a, b) => a.eval(row) && b.eval(row),
            Expr::Or(a, b) => a.eval(row) || b.eval(row),
        }
    }
}

/// AND-combines a new predicate into an optional accumulator, as the
/// original fold over subexpressions does.
fn and_combine(acc: Option<Expr>, e: Expr) -> (r: Option<Expr>)
    ensures
        r is Some,
        forall|row: ExpandedRow|
            #[trigger] r.unwrap().holds_for(row) == (match acc {
                Some(a) => a.holds_for(row) && e.holds_for(row),
                None => e.holds_for(row),
            }),
        (acc matches Some(a) ==> a.wf()) && e.wf() ==> r.unwrap().wf(),
{
    match acc {
        Some(a) => Some(Expr::And(Box::new(a), Box::new(e))),
        None => Some(e),
    }
}

/// OR-combines a new predicate into an optional accumulator.
fn or_combine(acc: Option<Expr>, e: Expr) -> (r: Option<Expr>)
    ensures
        r is Some,
        forall|row: ExpandedRow|
            #[trigger] r.unwrap().holds_for(row) == (match acc {
                Some(a) => a.holds_for(row) || e.holds_for(row),
                None => e.holds_for(row),
            }),
        (acc matches Some(a) ==> a.wf()) && e.wf() ==> r.unwrap().wf(),
{
    match acc {
        Some(a) => Some(Expr::Or(Box::new(a), Box::new(e))),
        None => Some(e),
    }
}

/// The column a search context names.
pub open spec fn spec_context_column(ctx: SearchContext) -> TextColumn {
    match ctx {
        SearchContext::Hxl => TextColumn::MetricHxlTag,
        SearchContext::HumanReadableName => TextColumn::MetricHumanReadableName,
        SearchContext::Description => TextColumn::MetricDescription,
    }
}

/// Whether a free-text facet matches a row through one of its first `n`
/// contexts.
pub open spec fn spec_text_matches_upto(st: SearchText, row: ExpandedRow, n: int) -> bool
    decreases n,
{
    if n <= 0 {
        false
    } else {
        spec_text_matches_upto(st, row, n - 1) || spec_text_match(
            st.config.match_type,
            st.config.case_sensitivity,
            st.text@,
            spec_column_value(row, spec_context_column(st.context@[n - 1])),
        )
    }
}

/// Whether a free-text facet matches a row: its test holds in at least one
/// of its selected contexts.
pub open spec fn spec_text_matches(st: SearchText, row: ExpandedRow) -> bool {
    spec_text_matches_upto(st, row, st.context@.len() as int)
}

/// Compiles one free-text facet: one test per selected context, OR-combined.
fn text_to_expr(st: &SearchText) -> (r: Expr)
    requires
        st.context@.len() >= 1,
    ensures
        spec_config_ok(st.config, st.text@) ==> r.wf(),
        forall|row: ExpandedRow| #[trigger] r.holds_for(row) == spec_text_matches(*st, row),
{
    let mut acc: Option<Expr> = None;
    let mut i: usize = 0;
    while i < st.context.len()
        invariant
            i <= st.context@.len(),
            acc is None ==> i == 0,
            acc matches Some(a) ==> i >= 1 && (spec_config_ok(st.config, st.text@) ==> a.wf())
                && forall|row: ExpandedRow|
                #[trigger] a.holds_for(row) == spec_text_matches_upto(*st, row, i as int),
        decreases st.context@.len() - i,
    {
        let ctx = st.context[i];
        let column = match ctx {
            SearchContext::Hxl => TextColumn::MetricHxlTag,
            SearchContext::HumanReadableName => TextColumn::MetricHumanReadableName,
            SearchContext::Description => TextColumn::MetricDescription,
        };
        let leaf = Expr::Text {
            column,
            value: st.text.clone(),
            match_type: st.config.match_type,
            case_sensitivity: st.config.case_sensitivity,
        };
        let ghost old_acc = acc;
        let ghost gleaf = leaf;
        acc = or_combine(acc, leaf);
        proof {
            let a2 = acc.unwrap();
            assert(gleaf.wf() == spec_config_ok(st.config, st.text@));
            assert forall|row: ExpandedRow| #[trigger] a2.holds_for(row) == spec_text_matches_upto(
                *st,
                row,
                i + 1,
            ) by {
                assert(gleaf.holds_for(row) == spec_text_match(
                    st.config.match_type,
                    st.config.case_sensitivity,
                    st.text@,
                    spec_column_value(row, spec_context_column(st.context@[i as int])),
                ));
                if old_acc is None {
                    assert(!spec_text_matches_upto(*st, row, 0));
                }
            }
        }
        i += 1;
    }
    match acc {
        Some(a) => a,
        None => {
            assert(false);
            Expr::StartBefore { bound: Date { year: 0, month: 1, day: 1 } }
        },
    }
}


/// The first day of a year, at spec level.
pub open spec fn spec_jan1(y: u16) -> Date {
    Date { year: y as i32, month: 1u8, day: 1u8 }
}

/// The last day of a year, at spec level.
pub open spec fn spec_dec31(y: u16) -> Date {
    Date { year: y as i32, month: 12u8, day: 31u8 }
}

/// Whether a year-range facet matches a row's reference period, with closed
/// intervals: `Before(y)` asks the period to start by Dec 31 of `y`,
/// `After(y)` asks it to end on or after Jan 1 of `y`, and `Between(a, b)`
/// asks the period to overlap the interval from Jan 1 of `a` to Dec 31 of
/// `b` (stated, as compiled, as: the period straddles the interval's start,
/// or straddles its end, or lies fully inside it).
pub open spec fn spec_year_matches(yr: YearRange, row: ExpandedRow) -> bool {
    let start = row.source_data_release_reference_period_start;
    let end = row.source_data_release_reference_period_end;
    match yr {
        YearRange::Before(y) => date_le(start, spec_dec31(y)),
        YearRange::After(y) => date_le(spec_jan1(y), end),
        YearRange::Between(a, b) => {
            let lo = spec_jan1(a);
            let hi = spec_dec31(b);
            (date_le(start, lo) && date_le(lo, end)) || (date_le(start, hi) && date_le(hi, end))
                || (date_le(lo, start) && date_le(end, hi))
        },
    }
}

/// Whether one of the first `n` year ranges matches.
pub open spec fn spec_years_match_upto(yrs: Seq<YearRange>, row: ExpandedRow, n: int) -> bool
    decreases n,
{
    if n <= 0 {
        false
    } else {
        spec_years_match_upto(yrs, row, n - 1) || spec_year_matches(yrs[n - 1], row)
    }
}

/// Compiles one year range into date comparisons on the reference period.
fn year_to_expr(yr: YearRange) -> (r: Expr)
    ensures
        r.wf(),
        forall|row: ExpandedRow| #[trigger] r.holds_for(row) == spec_year_matches(yr, row),
{
    match yr {
        YearRange::Before(y) => Expr::StartBefore { bound: Date::dec31(y) },
        YearRange::After(y) => Expr::EndAfter { bound: Date::jan1(y) },
        YearRange::Between(a, b) => {
            let lo = Date::jan1(a);
            let hi = Date::dec31(b);
            let case1 = Expr::And(
                Box::new(Expr::StartBefore { bound: lo }),
                Box::new(Expr::EndAfter { bound: lo }),
            );
            let case2 = Expr::And(
                Box::new(Expr::StartBefore { bound: hi }),
                Box::new(Expr::EndAfter { bound: hi }),
            );
            let case3 = Expr::And(
                Box::new(Expr::StartAfter { bound: lo }),
                Box::new(Expr::EndBefore { bound: hi }),
            );
            let e = Expr::Or(Box::new(Expr::Or(Box::new(case1), Box::new(case2))), Box::new(case3));
            proof {
                reveal_with_fuel(Expr::wf, 4);
                assert(e.wf());
            }
            assert forall|row: ExpandedRow| #[trigger] e.holds_for(row) == spec_year_matches(
                yr,
                row,
            ) by {
                reveal_with_fuel(Expr::holds_for, 4);
            }
            e
        },
    }
}

/// Compiles a non-empty list of year ranges, OR-combined.
fn years_to_expr(yrs: &Vec<YearRange>) -> (r: Expr)
    requires
        yrs@.len() >= 1,
    ensures
        r.wf(),
        forall|row: ExpandedRow|
            #[trigger] r.holds_for(row) == spec_years_match_upto(yrs@, row, yrs@.len() as int),
{
    let mut acc: Option<Expr> = None;
    let mut i: usize = 0;
    while i < yrs.len()
        invariant
            i <= yrs@.len(),
            acc is None ==> i == 0,
            acc matches Some(a) ==> i >= 1 && a.wf() && forall|row: ExpandedRow|
                #[trigger] a.holds_for(row) == spec_years_match_upto(yrs@, row, i as int),
        decreases yrs@.len() - i,
    {
        let ghost old_acc = acc;
        let leaf = year_to_expr(yrs[i]);
        let ghost gleaf = leaf;
        acc = or_combine(acc, leaf);
        proof {
            let a2 = acc.unwrap();
            assert forall|row: ExpandedRow| #[trigger] a2.holds_for(row) == spec_years_match_upto(
                yrs@,
                row,
                i + 1,
            ) by {
                assert(gleaf.holds_for(row) == spec_year_matches(yrs@[i as int], row));
                if old_acc is None {
                    assert(!spec_years_match_upto(yrs@, row, 0));
                }
            }
        }
        i += 1;
    }
    match acc {
        Some(a) => a,
        None => {
            assert(false);
            Expr::StartBefore { bound: Date { year: 0, month: 1, day: 1 } }
        },
    }
}

/// Whether a country facet matches a row: the test holds, always
/// case-insensitively, on one of the six country-name columns.
pub open spec fn spec_country_matches(cf: Country, row: ExpandedRow) -> bool {
    let mt = cf.config.match_type;
    let v = cf.value@;
    ||| spec_text_match(mt, CaseSensitivity::Insensitive, v, row.country_name_short_en@)
    ||| spec_text_match(mt, CaseSensitivity::Insensitive, v, row.country_name_official@)
    ||| spec_text_match(mt, CaseSensitivity::Insensitive, v, row.country_iso2@)
    ||| spec_text_match(mt, CaseSensitivity::Insensitive, v, row.country_iso3@)
    ||| spec_text_match(mt, CaseSensitivity::Insensitive, v, row.country_iso3166_2@)
    ||| spec_text_match(
        mt,
        CaseSensitivity::Insensitive,
        v,
        row.data_publisher_country_of_interest@,
    )
}

/// Compiles a country facet: the six candidate columns OR-combined, each
/// case-insensitive whatever the facet's own case setting.
fn country_to_expr(cf: &Country) -> (r: Expr)
    ensures
        spec_config_ok(
            SearchConfig {
                match_type: cf.config.match_type,
                case_sensitivity: CaseSensitivity::Insensitive,
            },
            cf.value@,
        ) ==> r.wf(),
        forall|row: ExpandedRow| #[trigger] r.holds_for(row) == spec_country_matches(*cf, row),
{
    let mt = cf.config.match_type;
    let e1 = Expr::Text {
        column: TextColumn::CountryNameShortEn,
        value: cf.value.clone(),
        match_type: mt,
        case_sensitivity: CaseSensitivity::Insensitive,
    };
    let e2 = Expr::Text {
        column: TextColumn::CountryNameOfficial,
        value: cf.value.clone(),
        match_type: mt,
        case_sensitivity: CaseSensitivity::Insensitive,
    };
    let e3 = Expr::Text {
        column: TextColumn::CountryIso2,
        value: cf.value.clone(),
        match_type: mt,
        case_sensitivity: CaseSensitivity::Insensitive,
    };
    let e4 = Expr::Text {
        column: TextColumn::CountryIso3,
        value: cf.value.clone(),
        match_type: mt,
        case_sensitivity: CaseSensitivity::Insensitive,
    };
    let e5 = Expr::Text {
        column: TextColumn::CountryIso31662,
        value: cf.value.clone(),
        match_type: mt,
        case_sensitivity: CaseSensitivity::Insensitive,
    };
    let e6 = Expr::Text {
        column: TextColumn::DataPublisherCountriesOfInterest,
        value: cf.value.clone(),
        match_type: mt,
        case_sensitivity: CaseSensitivity::Insensitive,
    };
    let e = Expr::Or(
        Box::new(
            Expr::Or(
                Box::new(
                    Expr::Or(
                        Box::new(Expr::Or(Box::new(Expr::Or(Box::new(e1), Box::new(e2))), Box::new(e3))),
                        Box::new(e4),
                    ),
                ),
                Box::new(e5),
            ),
        ),
        Box::new(e6),
    );
    proof {
        reveal_with_fuel(Expr::wf, 7);
        if spec_config_ok(
            SearchConfig {
                match_type: cf.config.match_type,
                case_sensitivity: CaseSensitivity::Insensitive,
            },
            cf.value@,
        ) {
            assert(e.wf());
        }
    }
    assert forall|row: ExpandedRow| #[trigger] e.holds_for(row) == spec_country_matches(*cf, row) by {
        reveal_with_fuel(Expr::holds_for, 7);
    }
    e
}

/// Whether one metric-id facet matches a row's metric id.
pub open spec fn spec_metric_id_matches(mi: MetricId, row: ExpandedRow) -> bool {
    spec_text_match(mi.config.match_type, mi.config.case_sensitivity, mi.id@, row.metric_id@)
}

/// Whether one of the first `n` metric-id facets matches.
pub open spec fn spec_ids_match_upto(ids: Seq<MetricId>, row: ExpandedRow, n: int) -> bool
    decreases n,
{
    if n <= 0 {
        false
    } else {
        spec_ids_match_upto(ids, row, n - 1) || spec_metric_id_matches(ids[n - 1], row)
    }
}

/// Whether all of the first `n` free-text facets match.
pub open spec fn spec_texts_match_upto(texts: Seq<SearchText>, row: ExpandedRow, n: int) -> bool
    decreases n,
{
    if n <= 0 {
        true
    } else {
        spec_texts_match_upto(texts, row, n - 1) && spec_text_matches(texts[n - 1], row)
    }
}


/// All the parameters one can search the catalog with. Every facet is
/// optional. Facets other than `metric_id` are AND-combined; within one
/// facet, multiple values are OR-combined. The `metric_id` list is
/// OR-combined with the rest, so an explicitly named metric always
/// qualifies, whatever the other facets say.
#[derive(Debug, Clone)]
pub struct SearchParams {
    pub text: Vec<SearchText>,
    pub year_range: Option<Vec<YearRange>>,
    pub metric_id: Vec<MetricId>,
    pub geometry_level: Option<GeometryLevel>,
    pub source_data_release: Option<SourceDataRelease>,
    pub data_publisher: Option<DataPublisher>,
    pub source_download_url: Option<SourceDownloadUrl>,
    pub country: Option<Country>,
    pub source_metric_id: Option<SourceMetricId>,
    pub region_spec: Vec<RegionSpec>,
}

impl Default for SearchParams {
    /// No facets at all: a search that returns the whole catalog view.
    fn default() -> (r: Self)
        ensures
            r.text@.len() == 0,
            r.year_range is None,
            r.metric_id@.len() == 0,
            r.geometry_level is None,
            r.source_data_release is None,
            r.data_publisher is None,
            r.source_download_url is None,
            r.country is None,
            r.source_metric_id is None,
            r.region_spec@.len() == 0,
    {
        SearchParams {
            text: Vec::new(),
            year_range: None,
            metric_id: Vec::new(),
            geometry_level: None,
            source_data_release: None,
            data_publisher: None,
            source_download_url: None,
            country: None,
            source_metric_id: None,
            region_spec: Vec::new(),
        }
    }
}

/// Every free-text facet names at least one context to search in.
pub open spec fn spec_params_wf(p: SearchParams) -> bool {
    forall|i: int| 0 <= i < p.text@.len() ==> (#[trigger] p.text@[i]).context@.len() >= 1
}

/// Whether any facet other than a metric id is present. The year-range
/// facet counts only when its list is non-empty.
pub open spec fn spec_has_refinement(p: SearchParams) -> bool {
    ||| p.text@.len() > 0
    ||| (p.year_range matches Some(v) && v@.len() > 0)
    ||| p.geometry_level is Some
    ||| p.source_data_release is Some
    ||| p.data_publisher is Some
    ||| p.source_download_url is Some
    ||| p.country is Some
    ||| p.source_metric_id is Some
}

/// The year-range part of the refinement: vacuously true when absent or
/// empty, else one of the ranges must match.
pub open spec fn spec_years_part(p: SearchParams, row: ExpandedRow) -> bool {
    match p.year_range {
        Some(v) => v@.len() == 0 || spec_years_match_upto(v@, row, v@.len() as int),
        None => true,
    }
}

/// The geometry-level part of the refinement.
pub open spec fn spec_geometry_part(p: SearchParams, row: ExpandedRow) -> bool {
    match p.geometry_level {
        Some(g) => spec_text_match(
            g.config.match_type,
            g.config.case_sensitivity,
            g.value@,
            row.geometry_level@,
        ),
        None => true,
    }
}

/// The source-data-release part of the refinement.
pub open spec fn spec_release_part(p: SearchParams, row: ExpandedRow) -> bool {
    match p.source_data_release {
        Some(f) => spec_text_match(
            f.config.match_type,
            f.config.case_sensitivity,
            f.value@,
            row.source_data_release_name@,
        ),
        None => true,
    }
}

/// The data-publisher part of the refinement.
pub open spec fn spec_publisher_part(p: SearchParams, row: ExpandedRow) -> bool {
    match p.data_publisher {
        Some(f) => spec_text_match(
            f.config.match_type,
            f.config.case_sensitivity,
            f.value@,
            row.data_publisher_name@,
        ),
        None => true,
    }
}

/// The source-download-url part of the refinement.
pub open spec fn spec_url_part(p: SearchParams, row: ExpandedRow) -> bool {
    match p.source_download_url {
        Some(f) => spec_text_match(
            f.config.match_type,
            f.config.case_sensitivity,
            f.value@,
            row.metric_source_download_url@,
        ),
        None => true,
    }
}

/// The country part of the refinement.
pub open spec fn spec_country_part(p: SearchParams, row: ExpandedRow) -> bool {
    match p.country {
        Some(c) => spec_country_matches(c, row),
        None => true,
    }
}

/// The source-metric-id part of the refinement.
pub open spec fn spec_source_metric_part(p: SearchParams, row: ExpandedRow) -> bool {
    match p.source_metric_id {
        Some(f) => spec_text_match(
            f.config.match_type,
            f.config.case_sensitivity,
            f.value@,
            row.metric_source_metric_id@,
        ),
        None => true,
    }
}

/// Whether the AND of all non-metric-id facets holds of a row.
pub open spec fn spec_refinement_matches(p: SearchParams, row: ExpandedRow) -> bool {
    &&& spec_texts_match_upto(p.text@, row, p.text@.len() as int)
    &&& spec_years_part(p, row)
    &&& spec_geometry_part(p, row)
    &&& spec_release_part(p, row)
    &&& spec_publisher_part(p, row)
    &&& spec_url_part(p, row)
    &&& spec_country_part(p, row)
    &&& spec_source_metric_part(p, row)
}

/// What one search matches: everything when no facet is present; otherwise
/// a row matches when the refinement (all non-metric-id facets, ANDed)
/// holds, or some metric-id facet (ORed) holds.
pub open spec fn spec_search_matches(p: SearchParams, row: ExpandedRow) -> bool {
    let has_refinement = spec_has_refinement(p);
    let has_identity = p.metric_id@.len() > 0;
    if !has_refinement && !has_identity {
        true
    } else {
        (has_refinement && spec_refinement_matches(p, row)) || (has_identity
            && spec_ids_match_upto(p.metric_id@, row, p.metric_id@.len() as int))
    }
}

/// Every regex-mode facet of the search compiles. This is exactly the
/// condition under which the search can be evaluated; an invalid regex is
/// reported when the search is compiled, before any row is looked at.
pub open spec fn spec_params_regex_ok(p: SearchParams) -> bool {
    &&& forall|i: int|
        0 <= i < p.text@.len() ==> spec_config_ok(
            (#[trigger] p.text@[i]).config,
            p.text@[i].text@,
        )
    &&& forall|i: int|
        0 <= i < p.metric_id@.len() ==> spec_config_ok(
            (#[trigger] p.metric_id@[i]).config,
            p.metric_id@[i].id@,
        )
    &&& (p.geometry_level matches Some(g) ==> spec_config_ok(g.config, g.value@))
    &&& (p.source_data_release matches Some(f) ==> spec_config_ok(f.config, f.value@))
    &&& (p.data_publisher matches Some(f) ==> spec_config_ok(f.config, f.value@))
    &&& (p.source_download_url matches Some(f) ==> spec_config_ok(f.config, f.value@))
    &&& (p.country matches Some(c) ==> spec_config_ok(
        SearchConfig {
            match_type: c.config.match_type,
            case_sensitivity: CaseSensitivity::Insensitive,
        },
        c.value@,
    ))
    &&& (p.source_metric_id matches Some(f) ==> spec_config_ok(f.config, f.value@))
}

impl SearchParams {
    /// Checks that every regex-mode facet compiles.
    fn check_regexes(&self) -> (r: bool)
        ensures
            r == spec_params_regex_ok(*self),
    {
        let mut i: usize = 0;
        while i < self.text.len()
            invariant
                i <= self.text@.len(),
                forall|j: int|
                    0 <= j < i ==> spec_config_ok(
                        (#[trigger] self.text@[j]).config,
                        self.text@[j].text@,
                    ),
            decreases self.text@.len() - i,
        {
            if !check_config(&self.text[i].config, self.text[i].text.as_str()) {
                return false;
            }
            i += 1;
        }
        let mut i: usize = 0;
        while i < self.metric_id.len()
            invariant
                i <= self.metric_id@.len(),
                forall|j: int|
                    0 <= j < i ==> spec_config_ok(
                        (#[trigger] self.metric_id@[j]).config,
                        self.metric_id@[j].id@,
                    ),
            decreases self.metric_id@.len() - i,
        {
            if !check_config(&self.metric_id[i].config, self.metric_id[i].id.as_str()) {
                return false;
            }
            i += 1;
        }
        if let Some(g) = &self.geometry_level {
            if !check_config(&g.config, g.value.as_str()) {
                return false;
            }
        }
        if let Some(f) = &self.source_data_release {
            if !check_config(&f.config, f.value.as_str()) {
                return false;
            }
        }
        if let Some(f) = &self.data_publisher {
            if !check_config(&f.config, f.value.as_str()) {
                return false;
            }
        }
        if let Some(f) = &self.source_download_url {
            if !check_config(&f.config, f.value.as_str()) {
                return false;
            }
        }
        if let Some(c) = &self.country {
            let cfg = SearchConfig {
                match_type: c.config.match_type,
                case_sensitivity: CaseSensitivity::Insensitive,
            };
            if !check_config(&cfg, c.value.as_str()) {
                return false;
            }
        }
        if let Some(f) = &self.source_metric_id {
            if !check_config(&f.config, f.value.as_str()) {
                return false;
            }
        }
        true
    }

    /// Compiles the search into an optional predicate over catalog-view
    /// rows. `None` means no facet was given and every row matches. A facet
    /// whose regex does not compile is rejected here, before any row is
    /// looked at.
    pub fn to_expr(&self) -> (r: Result<Option<Expr>, PopgetterError>)
        requires
            spec_params_wf(*self),
        ensures
            r is Ok <==> spec_params_regex_ok(*self),
            r matches Ok(o) ==> (o is Some <==> (spec_has_refinement(*self) || self.metric_id@.len()
                > 0)),
            r matches Ok(Some(e)) ==> e.wf() && forall|row: ExpandedRow|
                #[trigger] e.holds_for(row) == spec_search_matches(*self, row),
            r matches Err(err) ==> err is InvalidSearchQuery,
    {
        if !self.check_regexes() {
            return Err(
                PopgetterError::InvalidSearchQuery(
                    "a regular-expression facet does not compile".to_owned(),
                ),
            );
        }
        // Refinement: AND over the non-metric-id facets, in a fixed order.
        let mut acc: Option<Expr> = None;
        let mut i: usize = 0;
        while i < self.text.len()
            invariant
                spec_params_wf(*self),
                spec_params_regex_ok(*self),
                i <= self.text@.len(),
                acc is None ==> i == 0,
                acc matches Some(a) ==> i >= 1 && a.wf() && forall|row: ExpandedRow|
                    #[trigger] a.holds_for(row) == spec_texts_match_upto(
                        self.text@,
                        row,
                        i as int,
                    ),
            decreases self.text@.len() - i,
        {
            let ghost old_acc = acc;
            let leaf = text_to_expr(&self.text[i]);
            let ghost gleaf = leaf;
            acc = and_combine(acc, leaf);
            proof {
                let a2 = acc.unwrap();
                assert forall|row: ExpandedRow| #[trigger] a2.holds_for(row)
                    == spec_texts_match_upto(self.text@, row, i + 1) by {
                    assert(gleaf.holds_for(row) == spec_text_matches(self.text@[i as int], row));
                    if old_acc is None {
                        assert(spec_texts_match_upto(self.text@, row, 0));
                    }
                }
            }
            i += 1;
        }
        if let Some(v) = &self.year_range {
            if v.len() > 0 {
                let ghost old_acc = acc;
                let years = years_to_expr(v);
                let ghost gyears = years;
                acc = and_combine(acc, years);
                proof {
                    let a2 = acc.unwrap();
                    assert forall|row: ExpandedRow| #[trigger] a2.holds_for(row) == (
                    spec_texts_match_upto(self.text@, row, self.text@.len() as int)
                        && spec_years_part(*self, row)) by {
                        if old_acc is None {
                            assert(spec_texts_match_upto(self.text@, row, 0));
                        }
                    }
                }
            }
        }
        proof {
            if acc is Some {
                assert(forall|row: ExpandedRow|
                    #[trigger] acc.unwrap().holds_for(row) == (spec_texts_match_upto(
                        self.text@,
                        row,
                        self.text@.len() as int,
                    ) && spec_years_part(*self, row)));
            }
        }
        let acc = self.add_single_facets(acc);
        // Identity: OR over the metric-id facets.
        let mut idacc: Option<Expr> = None;
        let mut i: usize = 0;
        while i < self.metric_id.len()
            invariant
                spec_params_regex_ok(*self),
                i <= self.metric_id@.len(),
                idacc is None ==> i == 0,
                idacc matches Some(a) ==> i >= 1 && a.wf() && forall|row: ExpandedRow|
                    #[trigger] a.holds_for(row) == spec_ids_match_upto(
                        self.metric_id@,
                        row,
                        i as int,
                    ),
            decreases self.metric_id@.len() - i,
        {
            let ghost old_acc = idacc;
            let mi = &self.metric_id[i];
            let leaf = Expr::Text {
                column: TextColumn::MetricId,
                value: mi.id.clone(),
                match_type: mi.config.match_type,
                case_sensitivity: mi.config.case_sensitivity,
            };
            let ghost gleaf = leaf;
            idacc = or_combine(idacc, leaf);
            proof {
                let a2 = idacc.unwrap();
                assert forall|row: ExpandedRow| #[trigger] a2.holds_for(row) == spec_ids_match_upto(
                    self.metric_id@,
                    row,
                    i + 1,
                ) by {
                    assert(gleaf.holds_for(row) == spec_metric_id_matches(
                        self.metric_id@[i as int],
                        row,
                    ));
                    if old_acc is None {
                        assert(!spec_ids_match_upto(self.metric_id@, row, 0));
                    }
                }
            }
            i += 1;
        }
        // Combine refinement and identity with OR.
        match (acc, idacc) {
            (None, None) => Ok(None),
            (Some(r1), None) => {
                let ghost g1 = r1;
                assert forall|row: ExpandedRow| #[trigger] g1.holds_for(row)
                    == spec_search_matches(*self, row) by {}
                Ok(Some(r1))
            },
            (None, Some(r2)) => {
                let ghost g2 = r2;
                assert forall|row: ExpandedRow| #[trigger] g2.holds_for(row)
                    == spec_search_matches(*self, row) by {}
                Ok(Some(r2))
            },
            (Some(r1), Some(r2)) => {
                let ghost g1 = r1;
                let ghost g2 = r2;
                let combined = Expr::Or(Box::new(r1), Box::new(r2));
                let ghost gc = combined;
                assert forall|row: ExpandedRow| #[trigger] gc.holds_for(row)
                    == spec_search_matches(*self, row) by {
                    assert(gc.holds_for(row) == (g1.holds_for(row) || g2.holds_for(row)));
                }
                Ok(Some(combined))
            },
        }
    }

    /// AND-combines the six optional single-valued facets into the
    /// accumulator, in a fixed order.
    fn add_single_facets(&self, acc: Option<Expr>) -> (r: Option<Expr>)
        requires
            spec_params_regex_ok(*self),
            acc is None ==> !(self.text@.len() > 0 || (self.year_range matches Some(v) && v@.len()
                > 0)),
            acc matches Some(a) ==> (self.text@.len() > 0 || (self.year_range matches Some(v)
                && v@.len() > 0)) && a.wf() && forall|row: ExpandedRow|
                #[trigger] a.holds_for(row) == (spec_texts_match_upto(
                    self.text@,
                    row,
                    self.text@.len() as int,
                ) && spec_years_part(*self, row)),
        ensures
            r is Some <==> spec_has_refinement(*self),
            r matches Some(a) ==> a.wf() && forall|row: ExpandedRow|
                #[trigger] a.holds_for(row) == spec_refinement_matches(*self, row),
    {
        let mut acc = acc;
        if let Some(g) = &self.geometry_level {
            let ghost old_acc = acc;
            let leaf = Expr::Text {
                column: TextColumn::GeometryLevel,
                value: g.value.clone(),
                match_type: g.config.match_type,
                case_sensitivity: g.config.case_sensitivity,
            };
            acc = and_combine(acc, leaf);
            proof {
                let a2 = acc.unwrap();
                assert forall|row: ExpandedRow| #[trigger] a2.holds_for(row) == (
                spec_texts_match_upto(self.text@, row, self.text@.len() as int) && spec_years_part(
                    *self,
                    row,
                ) && spec_geometry_part(*self, row)) by {
                    if old_acc is None {
                        assert(spec_texts_match_upto(self.text@, row, 0));
                    }
                }
            }
        }
        if let Some(f) = &self.source_data_release {
            let ghost old_acc = acc;
            let leaf = Expr::Text {
                column: TextColumn::SourceDataReleaseName,
                value: f.value.clone(),
                match_type: f.config.match_type,
                case_sensitivity: f.config.case_sensitivity,
            };
            acc = and_combine(acc, leaf);
            proof {
                let a2 = acc.unwrap();
                assert forall|row: ExpandedRow| #[trigger] a2.holds_for(row) == (
                spec_texts_match_upto(self.text@, row, self.text@.len() as int) && spec_years_part(
                    *self,
                    row,
                ) && spec_geometry_part(*self, row) && spec_release_part(*self, row)) by {
                    if old_acc is None {
                        assert(spec_texts_match_upto(self.text@, row, 0));
                    }
                }
            }
        }
        if let Some(f) = &self.data_publisher {
            let ghost old_acc = acc;
            let leaf = Expr::Text {
                column: TextColumn::DataPublisherName,
                value: f.value.clone(),
                match_type: f.config.match_type,
                case_sensitivity: f.config.case_sensitivity,
            };
            acc = and_combine(acc, leaf);
            proof {
                let a2 = acc.unwrap();
                assert forall|row: ExpandedRow| #[trigger] a2.holds_for(row) == (
                spec_texts_match_upto(self.text@, row, self.text@.len() as int) && spec_years_part(
                    *self,
                    row,
                ) && spec_geometry_part(*self, row) && spec_release_part(*self, row)
                    && spec_publisher_part(*self, row)) by {
                    if old_acc is None {
                        assert(spec_texts_match_upto(self.text@, row, 0));
                    }
                }
            }
        }
        if let Some(f) = &self.source_download_url {
            let ghost old_acc = acc;
            let leaf = Expr::Text {
                column: TextColumn::MetricSourceDownloadUrl,
                value: f.value.clone(),
                match_type: f.config.match_type,
                case_sensitivity: f.config.case_sensitivity,
            };
            acc = and_combine(acc, leaf);
            proof {
                let a2 = acc.unwrap();
                assert forall|row: ExpandedRow| #[trigger] a2.holds_for(row) == (
                spec_texts_match_upto(self.text@, row, self.text@.len() as int) && spec_years_part(
                    *self,
                    row,
                ) && spec_geometry_part(*self, row) && spec_release_part(*self, row)
                    && spec_publisher_part(*self, row) && spec_url_part(*self, row)) by {
                    if old_acc is None {
                        assert(spec_texts_match_upto(self.text@, row, 0));
                    }
                }
            }
        }
        if let Some(c) = &self.country {
            let ghost old_acc = acc;
            let leaf = country_to_expr(c);
            let ghost gleaf = leaf;
            acc = and_combine(acc, leaf);
            proof {
                let a2 = acc.unwrap();
                assert forall|row: ExpandedRow| #[trigger] a2.holds_for(row) == (
                spec_texts_match_upto(self.text@, row, self.text@.len() as int) && spec_years_part(
                    *self,
                    row,
                ) && spec_geometry_part(*self, row) && spec_release_part(*self, row)
                    && spec_publisher_part(*self, row) && spec_url_part(*self, row)
                    && spec_country_part(*self, row)) by {
                    assert(gleaf.holds_for(row) == spec_country_matches(*c, row));
                    if old_acc is None {
                        assert(spec_texts_match_upto(self.text@, row, 0));
                    }
                }
            }
        }
        if let Some(f) = &self.source_metric_id {
            let ghost old_acc = acc;
            let leaf = Expr::Text {
                column: TextColumn::MetricSourceMetricId,
                value: f.value.clone(),
                match_type: f.config.match_type,
                case_sensitivity: f.config.case_sensitivity,
            };
            acc = and_combine(acc, leaf);
            proof {
                let a2 = acc.unwrap();
                assert forall|row: ExpandedRow| #[trigger] a2.holds_for(row) == (
                spec_texts_match_upto(self.text@, row, self.text@.len() as int) && spec_years_part(
                    *self,
                    row,
                ) && spec_geometry_part(*self, row) && spec_release_part(*self, row)
                    && spec_publisher_part(*self, row) && spec_url_part(*self, row)
                    && spec_country_part(*self, row) && spec_source_metric_part(*self, row)) by {
                    if old_acc is None {
                        assert(spec_texts_match_upto(self.text@, row, 0));
                    }
                }
            }
        }
        acc
    }
}


/// The catalog-view rows a search matched, in view order.
#[derive(Debug, Clone)]
pub struct SearchResults(pub Vec<ExpandedRow>);

/// The subsequence of `rows` matched by the search, in order.
pub open spec fn spec_filtered(rows: Seq<ExpandedRow>, p: SearchParams) -> Seq<ExpandedRow>
    decreases rows.len(),
{
    if rows.len() == 0 {
        Seq::empty()
    } else {
        spec_filtered(rows.drop_last(), p) + if spec_search_matches(p, rows.last()) {
            seq![rows.last()]
        } else {
            Seq::empty()
        }
    }
}

/// A search with no facet at all keeps the whole view unchanged.
///
/// This is the identity property: when nothing is asked, everything is
/// returned, in order.
pub proof fn lemma_search_no_facets_is_identity(rows: Seq<ExpandedRow>, p: SearchParams)
    requires
        !spec_has_refinement(p),
        p.metric_id@.len() == 0,
    ensures
        spec_filtered(rows, p) == rows,
    decreases rows.len(),
{
    if rows.len() == 0 {
        assert(spec_filtered(rows, p) =~= rows);
    } else {
        lemma_search_no_facets_is_identity(rows.drop_last(), p);
        assert(spec_search_matches(p, rows.last()));
        assert(spec_filtered(rows, p) =~= rows);
    }
}

/// A metric-id facet is OR-combined with everything else: a row whose
/// metric id matches one of the requested ids is in the results, whatever
/// the other facets say of it.
pub proof fn lemma_metric_id_overrides(p: SearchParams, row: ExpandedRow, j: int)
    requires
        0 <= j < p.metric_id@.len(),
        spec_metric_id_matches(p.metric_id@[j], row),
    ensures
        spec_search_matches(p, row),
{
    lemma_ids_match_monotonic(p.metric_id@, row, j, p.metric_id@.len() as int);
}

/// If some id among the first `n` matches, the OR over the first `n` holds.
proof fn lemma_ids_match_monotonic(ids: Seq<MetricId>, row: ExpandedRow, j: int, n: int)
    requires
        0 <= j < n <= ids.len(),
        spec_metric_id_matches(ids[j], row),
    ensures
        spec_ids_match_upto(ids, row, n),
    decreases n,
{
    if j < n - 1 {
        lemma_ids_match_monotonic(ids, row, j, n - 1);
    }
}

/// A `Between(a, b)` year range (with `a <= b` and an ordered reference
/// period) matches exactly when the reference period overlaps the closed
/// interval from Jan 1 of `a` to Dec 31 of `b`: fully inside, fully
/// containing, or partially overlapping all match; disjoint does not.
pub proof fn lemma_between_matches_iff_overlap(a: u16, b: u16, row: ExpandedRow)
    requires
        a <= b,
        date_le(
            row.source_data_release_reference_period_start,
            row.source_data_release_reference_period_end,
        ),
    ensures
        spec_year_matches(YearRange::Between(a, b), row) <==> (date_le(
            row.source_data_release_reference_period_start,
            spec_dec31(b),
        ) && date_le(spec_jan1(a), row.source_data_release_reference_period_end)),
{
}

/// Clones a vector of catalog-view rows.
fn clone_rows(v: &Vec<ExpandedRow>) -> (r: Vec<ExpandedRow>)
    ensures
        r@ == v@,
{
    let mut out: Vec<ExpandedRow> = Vec::new();
    let mut i: usize = 0;
    while i < v.len()
        invariant
            i <= v@.len(),
            out@ =~= v@.take(i as int),
        decreases v@.len() - i,
    {
        out.push(v[i].clone());
        proof {
            assert(out@ =~= v@.take(i + 1));
        }
        i += 1;
    }
    proof {
        assert(v@.take(v@.len() as int) =~= v@);
    }
    out
}

impl SearchParams {
    /// Runs the search over the joined catalog view: compiles the facets
    /// into one predicate and keeps exactly the matching rows, in view
    /// order. Fails only when a regex-mode facet does not compile, and then
    /// before looking at any row.
    pub fn search(&self, expanded_metadata: &ExpandedMetadata) -> (r: Result<
        SearchResults,
        PopgetterError,
    >)
        requires
            spec_params_wf(*self),
        ensures
            r is Ok <==> spec_params_regex_ok(*self),
            r matches Ok(res) ==> res.0@ == spec_filtered(expanded_metadata.0@, *self),
            r matches Err(e) ==> e is InvalidSearchQuery,
    {
        let rows = &expanded_metadata.0;
        match self.to_expr() {
            Err(e) => Err(e),
            Ok(None) => {
                proof {
                    lemma_search_no_facets_is_identity(rows@, *self);
                }
                Ok(SearchResults(clone_rows(rows)))
            },
            Ok(Some(e)) => {
                let mut out: Vec<ExpandedRow> = Vec::new();
                let mut i: usize = 0;
                proof {
                    assert(out@ =~= spec_filtered(rows@.take(0), *self));
                }
                while i < rows.len()
                    invariant
                        i <= rows@.len(),
                        e.wf(),
                        forall|row: ExpandedRow| #[trigger] e.holds_for(row)
                            == spec_search_matches(*self, row),
                        out@ == spec_filtered(rows@.take(i as int), *self),
                    decreases rows@.len() - i,
                {
                    proof {
                        assert(rows@.take(i + 1).drop_last() =~= rows@.take(i as int));
                        assert(rows@.take(i + 1).last() == rows@[i as int]);
                    }
                    if e.eval(&rows[i]) {
                        out.push(rows[i].clone());
                        proof {
                            assert(out@ =~= spec_filtered(rows@.take(i + 1), *self));
                        }
                    } else {
                        proof {
                            assert(out@ =~= spec_filtered(rows@.take(i + 1), *self));
                        }
                    }
                    i += 1;
                }
                proof {
                    assert(rows@.take(rows@.len() as int) =~= rows@);
                }
                Ok(SearchResults(out))
            },
        }
    }
}

/// Parameters for downloading the data a search matched: whether to include
/// geometries, and at most one region to clip them to.
#[derive(Debug, Clone)]
pub struct DownloadParams {
    pub include_geoms: bool,
    pub region_spec: Vec<RegionSpec>,
}

impl Default for DownloadParams {
    /// Geometries included, no region restriction.
    fn default() -> (r: Self)
        ensures
            r.include_geoms,
            r.region_spec@.len() == 0,
    {
        DownloadParams { include_geoms: true, region_spec: Vec::new() }
    }
}

/// Search and download parameters together: everything a single data
/// request needs.
#[derive(Debug, Clone)]
pub struct Params {
    pub search: SearchParams,
    pub download: DownloadParams,
}


/// The request one catalog-view row projects to, under a base path.
pub open spec fn spec_request_of_row(row: ExpandedRow, base: Seq<char>) -> MetricRequestV {
    MetricRequestV {
        column: row.metric_parquet_column_name@,
        metric_file: spec_metric_file_url(base, row.metric_parquet_path@),
        geom_file: spec_geom_file_url(base, row.geometry_filepath_stem@),
    }
}

/// The requests a row set projects to, one per row in order.
pub open spec fn spec_requests_of(rows: Seq<ExpandedRow>, base: Seq<char>) -> Seq<MetricRequestV> {
    Seq::new(rows.len(), |i: int| spec_request_of_row(rows[i], base))
}

/// The URL a metric file is fetched from: `{base}/{path}`.
pub open spec fn spec_metric_file_url(base: Seq<char>, path: Seq<char>) -> Seq<char> {
    base + "/"@ + path
}

/// The URL a geometry file is fetched from: `{base}/{stem}.fgb`.
pub open spec fn spec_geom_file_url(base: Seq<char>, stem: Seq<char>) -> Seq<char> {
    base + "/"@ + stem + ".fgb"@
}

/// Everything one materialization call needs to fetch: the metric column
/// requests, the single geometry file when geometries are wanted, and the
/// bounding box when one was given.
#[derive(Debug)]
pub struct DownloadPlan {
    pub metric_requests: Vec<MetricRequest>,
    pub geom_file: Option<String>,
    pub bbox: Option<BBox>,
}

impl SearchResults {
    /// Projects each matched row to a metric request: its column name, and
    /// the metric and geometry files resolved under the configured base
    /// path.
    pub fn to_metric_requests(&self, config: &Config) -> (r: Vec<MetricRequest>)
        ensures
            r.deep_view() == spec_requests_of(self.0@, config.base_path@),
            r@.len() == self.0@.len(),
            forall|i: int|
                0 <= i < self.0@.len() ==> {
                    &&& (#[trigger] r@[i]).column@ == self.0@[i].metric_parquet_column_name@
                    &&& r@[i].metric_file@ == spec_metric_file_url(
                        config.base_path@,
                        self.0@[i].metric_parquet_path@,
                    )
                    &&& r@[i].geom_file@ == spec_geom_file_url(
                        config.base_path@,
                        self.0@[i].geometry_filepath_stem@,
                    )
                },
    {
        let rows = &self.0;
        let mut out: Vec<MetricRequest> = Vec::new();
        let mut i: usize = 0;
        while i < rows.len()
            invariant
                i <= rows@.len(),
                out@.len() == i,
                forall|j: int|
                    0 <= j < i ==> {
                        &&& (#[trigger] out@[j]).column@ == rows@[j].metric_parquet_column_name@
                        &&& out@[j].metric_file@ == spec_metric_file_url(
                            config.base_path@,
                            rows@[j].metric_parquet_path@,
                        )
                        &&& out@[j].geom_file@ == spec_geom_file_url(
                            config.base_path@,
                            rows@[j].geometry_filepath_stem@,
                        )
                    },
            decreases rows@.len() - i,
        {
            let row = &rows[i];
            let mut metric_file = config.base_path.clone();
            metric_file.append("/");
            metric_file.append(row.metric_parquet_path.as_str());
            let mut geom_file = config.base_path.clone();
            geom_file.append("/");
            geom_file.append(row.geometry_filepath_stem.as_str());
            geom_file.append(".fgb");
            out.push(
                MetricRequest {
                    column: row.metric_parquet_column_name.clone(),
                    metric_file,
                    geom_file,
                },
            );
            i += 1;
        }
        proof {
            assert forall|i: int| 0 <= i < rows@.len() implies out.deep_view()[i]
                == spec_requests_of(self.0@, config.base_path@)[i] by {
                assert(out.deep_view()[i] == out@[i]@);
            }
            assert(out.deep_view() =~~= spec_requests_of(self.0@, config.base_path@));
        }
        out
    }

    /// Turns matched rows into a concrete fetch plan. Fails when no row was
    /// matched, or when the rows span more than one distinct geometry file
    /// (one call serves exactly one). The geometry file is named in the
    /// plan only when geometries were asked for; the bounding box is the
    /// one of the request's single region, when that region is a box.
    pub fn download_plan(&self, config: &Config, params: &DownloadParams) -> (r: Result<
        DownloadPlan,
        PopgetterError,
    >)
        requires
            params.region_spec@.len() <= 1,
        ensures
            r is Ok <==> (self.0@.len() > 0 && (forall|i: int|
                0 <= i < self.0@.len() ==> (#[trigger] self.0@[i]).geometry_filepath_stem@
                    == self.0@[0].geometry_filepath_stem@)),
            r matches Ok(plan) ==> {
                &&& plan.metric_requests@.len() == self.0@.len()
                &&& (forall|i: int|
                    0 <= i < self.0@.len() ==> {
                        &&& (#[trigger] plan.metric_requests@[i]).column@
                            == self.0@[i].metric_parquet_column_name@
                        &&& plan.metric_requests@[i].metric_file@ == spec_metric_file_url(
                            config.base_path@,
                            self.0@[i].metric_parquet_path@,
                        )
                        &&& plan.metric_requests@[i].geom_file@ == spec_geom_file_url(
                            config.base_path@,
                            self.0@[i].geometry_filepath_stem@,
                        )
                    })
                &&& (params.include_geoms ==> (plan.geom_file matches Some(g) && g@
                    == spec_geom_file_url(
                    config.base_path@,
                    self.0@[0].geometry_filepath_stem@,
                )))
                &&& (!params.include_geoms ==> plan.geom_file is None)
                &&& (match plan.bbox {
                    Some(b) => params.region_spec@.len() == 1 && (params.region_spec@[0] matches
                        RegionSpec::BoundingBox(pb) && b == pb),
                    None => params.region_spec@.len() == 0 || !(params.region_spec@[0] matches
                        RegionSpec::BoundingBox(_)),
                })
            },
            r matches Err(e) ==> (self.0@.len() == 0 && e is NoMetricRequests) || (self.0@.len()
                > 0 && e is UnsupportedMultipleGeometries),
    {
        if self.0.len() == 0 {
            return Err(PopgetterError::NoMetricRequests);
        }
        // One distinct geometry file is supported per call: every matched
        // row must name the same geometry file stem.
        let first_stem = self.0[0].geometry_filepath_stem.as_str();
        let mut i: usize = 1;
        while i < self.0.len()
            invariant
                1 <= i <= self.0@.len(),
                self.0@.len() > 0,
                forall|j: int|
                    0 <= j < i ==> (#[trigger] self.0@[j]).geometry_filepath_stem@
                        == self.0@[0].geometry_filepath_stem@,
            decreases self.0@.len() - i,
        {
            if !crate::textmatch::eq_str(
                self.0[i].geometry_filepath_stem.as_str(),
                first_stem,
            ) {
                return Err(PopgetterError::UnsupportedMultipleGeometries);
            }
            i += 1;
        }
        let metric_requests = self.to_metric_requests(config);
        let geom_file: Option<String> = if params.include_geoms {
            let mut g = config.base_path.clone();
            g.append("/");
            g.append(first_stem);
            g.append(".fgb");
            Some(g)
        } else {
            None
        };
        let bbox: Option<BBox> = if params.region_spec.len() >= 1 {
            params.region_spec[0].bbox()
        } else {
            None
        };
        Ok(DownloadPlan { metric_requests, geom_file, bbox })
    }
}

} // verus!
