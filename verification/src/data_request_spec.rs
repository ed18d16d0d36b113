//! Declarative data requests: what to fetch, where, and for which years,
//! convertible into search and download parameters.

use vstd::prelude::*;
use crate::error::PopgetterError;
use crate::geo::BBox;
use crate::search::{
    spec_parse_year_range, DownloadParams, GeometryLevel, MetricId, Params, SearchConfig,
    SearchContext, SearchParams, SearchText, YearRange,
};

verus! {

/// A region to restrict geometries to. Only bounding boxes are implemented;
/// polygons and named areas are carried but not yet interpreted.
#[derive(Debug)]
pub enum RegionSpec {
    BoundingBox(BBox),
    Polygon(Polygon),
    NamedArea(String),
}

impl Clone for RegionSpec {
    fn clone(&self) -> (r: Self)
        ensures
            r == *self,
    {
        match self {
            RegionSpec::BoundingBox(b) => RegionSpec::BoundingBox(b.clone()),
            RegionSpec::Polygon(_) => RegionSpec::Polygon(Polygon),
            RegionSpec::NamedArea(s) => RegionSpec::NamedArea(s.clone()),
        }
    }
}

/// A polygon region; a placeholder with no coordinates yet.
#[derive(Debug, Clone, PartialEq, Eq, Structural)]
pub struct Polygon;

impl RegionSpec {
    /// The bounding box, when this region is one.
    pub fn bbox(&self) -> (r: Option<BBox>)
        ensures
            match self {
                RegionSpec::BoundingBox(b) => r matches Some(rb) && rb == b,
                _ => r is None,
            },
    {
        match self {
            RegionSpec::BoundingBox(b) => Some(b.clone()),
            _ => None,
        }
    }
}

/// Which geometry to use and whether to include geometries in the output.
#[derive(Debug, Clone)]
pub struct GeometrySpec {
    pub geometry_level: Option<String>,
    pub include_geoms: bool,
}

impl Default for GeometrySpec {
    /// Geometries included, level left for the catalog to resolve.
    fn default() -> (r: Self)
        ensures
            r.include_geoms,
            r.geometry_level is None,
    {
        GeometrySpec { include_geoms: true, geometry_level: None }
    }
}

/// One requested metric: an id, free text, or a named data product.
#[derive(Debug, Clone)]
pub enum MetricSpec {
    MetricId(crate::search::MetricId),
    MetricText(String),
    DataProduct(String),
}

/// A declarative request: geometry, regions, metrics and years.
#[derive(Debug, Clone)]
pub struct DataRequestSpec {
    pub geometry: Option<GeometrySpec>,
    pub region: Vec<RegionSpec>,
    pub metrics: Vec<MetricSpec>,
    pub years: Option<Vec<String>>,
}


/// Clones a list of regions.
fn clone_regions(v: &Vec<RegionSpec>) -> (r: Vec<RegionSpec>)
    ensures
        r@ == v@,
{
    let mut out: Vec<RegionSpec> = Vec::new();
    let mut i: usize = 0;
    while i < v.len()
        invariant
            i <= v@.len(),
            out@ =~= v@.take(i as int),
        decreases v@.len() - i,
    {
        out.push(v[i].clone());
        proof {
            assert(out@ =~= v@.take(i + 1));
        }
        i += 1;
    }
    proof {
        assert(v@.take(v@.len() as int) =~= v@);
    }
    out
}

/// The free-text values among the requested metrics, in order.
pub open spec fn spec_metric_texts(ms: Seq<MetricSpec>) -> Seq<Seq<char>>
    decreases ms.len(),
{
    if ms.len() == 0 {
        Seq::empty()
    } else {
        spec_metric_texts(ms.drop_last()) + (match ms.last() {
            MetricSpec::MetricText(t) => seq![t@],
            _ => Seq::empty(),
        })
    }
}

/// The metric-id facets among the requested metrics, in order, as
/// (id, configuration) pairs.
pub open spec fn spec_metric_ids(ms: Seq<MetricSpec>) -> Seq<(Seq<char>, SearchConfig)>
    decreases ms.len(),
{
    if ms.len() == 0 {
        Seq::empty()
    } else {
        spec_metric_ids(ms.drop_last()) + (match ms.last() {
            MetricSpec::MetricId(m) => seq![(m.id@, m.config)],
            _ => Seq::empty(),
        })
    }
}

/// Every year string of the request parses as a year range.
pub open spec fn spec_years_ok(years: Option<Vec<String>>) -> bool {
    match years {
        None => true,
        Some(ys) => forall|i: int|
            0 <= i < ys@.len() ==> (#[trigger] spec_parse_year_range(ys.deep_view()[i])) is Some,
    }
}

impl DataRequestSpec {
    /// Turns a declarative request into search and download parameters:
    /// free-text metrics become text facets over name, tag and description;
    /// id metrics become metric-id facets; year strings are parsed; the
    /// geometry block gives the level facet and whether geometries are
    /// included (yes when the block is absent). Fails exactly when some
    /// year string does not parse.
    pub fn to_params(&self) -> (r: Result<Params, PopgetterError>)
        ensures
            r is Ok <==> spec_years_ok(self.years),
            r matches Ok(p) ==> {
                &&& p.search.text@.len() == spec_metric_texts(self.metrics@).len()
                &&& (forall|i: int|
                    0 <= i < p.search.text@.len() ==> {
                        &&& (#[trigger] p.search.text@[i]).text@ == spec_metric_texts(
                            self.metrics@,
                        )[i]
                        &&& p.search.text@[i].context@ == seq![
                            SearchContext::HumanReadableName,
                            SearchContext::Hxl,
                            SearchContext::Description,
                        ]
                        &&& p.search.text@[i].config == (SearchConfig {
                            match_type: crate::search::MatchType::Exact,
                            case_sensitivity: crate::search::CaseSensitivity::Insensitive,
                        })
                    })
                &&& p.search.metric_id@.len() == spec_metric_ids(self.metrics@).len()
                &&& (forall|i: int|
                    0 <= i < p.search.metric_id@.len() ==> (#[trigger] p.search.metric_id@[i]).id@
                        == spec_metric_ids(self.metrics@)[i].0 && p.search.metric_id@[i].config
                        == spec_metric_ids(self.metrics@)[i].1)
                &&& (match self.years {
                    None => p.search.year_range is None,
                    Some(ys) => p.search.year_range matches Some(v) && v@.len() == ys@.len()
                        && (forall|i: int|
                        0 <= i < ys@.len() ==> #[trigger] v@[i] == spec_parse_year_range(
                            ys.deep_view()[i],
                        ).unwrap()),
                })
                &&& (match self.geometry {
                    None => p.search.geometry_level is None && p.download.include_geoms,
                    Some(g) => (match g.geometry_level {
                        None => p.search.geometry_level is None,
                        Some(lvl) => p.search.geometry_level matches Some(gl) && gl.value@ == lvl@
                            && gl.config == (SearchConfig {
                            match_type: crate::search::MatchType::Exact,
                            case_sensitivity: crate::search::CaseSensitivity::Insensitive,
                        }),
                    }) && p.download.include_geoms == g.include_geoms,
                })
                &&& p.search.source_data_release is None
                &&& p.search.data_publisher is None
                &&& p.search.source_download_url is None
                &&& p.search.country is None
                &&& p.search.source_metric_id is None
                &&& p.search.region_spec@ == self.region@
                &&& p.download.region_spec@ == self.region@
            },
            r matches Err(e) ==> e is InvalidYearRange,
    {
        // Free-text and id facets from the metric list.
        let mut text: Vec<SearchText> = Vec::new();
        let mut metric_id: Vec<MetricId> = Vec::new();
        let mut i: usize = 0;
        proof {
            assert(spec_metric_texts(self.metrics@.take(0)) =~= Seq::<Seq<char>>::empty());
            assert(spec_metric_ids(self.metrics@.take(0)) =~= Seq::<(Seq<char>, SearchConfig)>::empty());
        }
        while i < self.metrics.len()
            invariant
                i <= self.metrics@.len(),
                text@.len() == spec_metric_texts(self.metrics@.take(i as int)).len(),
                forall|j: int|
                    0 <= j < text@.len() ==> {
                        &&& (#[trigger] text@[j]).text@ == spec_metric_texts(
                            self.metrics@.take(i as int),
                        )[j]
                        &&& text@[j].context@ == seq![
                            SearchContext::HumanReadableName,
                            SearchContext::Hxl,
                            SearchContext::Description,
                        ]
                        &&& text@[j].config == (SearchConfig {
                            match_type: crate::search::MatchType::Exact,
                            case_sensitivity: crate::search::CaseSensitivity::Insensitive,
                        })
                    },
                metric_id@.len() == spec_metric_ids(self.metrics@.take(i as int)).len(),
                forall|j: int|
                    0 <= j < metric_id@.len() ==> (#[trigger] metric_id@[j]).id@ == spec_metric_ids(
                        self.metrics@.take(i as int),
                    )[j].0 && metric_id@[j].config == spec_metric_ids(
                        self.metrics@.take(i as int),
                    )[j].1,
            decreases self.metrics@.len() - i,
        {
            proof {
                assert(self.metrics@.take(i + 1).drop_last() =~= self.metrics@.take(i as int));
                assert(self.metrics@.take(i + 1).last() == self.metrics@[i as int]);
            }
            match &self.metrics[i] {
                MetricSpec::MetricText(t) => {
                    let mut context: Vec<SearchContext> = Vec::new();
                    context.push(SearchContext::HumanReadableName);
                    context.push(SearchContext::Hxl);
                    context.push(SearchContext::Description);
                    proof {
                        assert(context@ =~= seq![
                            SearchContext::HumanReadableName,
                            SearchContext::Hxl,
                            SearchContext::Description,
                        ]);
                    }
                    text.push(
                        SearchText {
                            text: t.clone(),
                            context,
                            config: SearchConfig {
                                match_type: crate::search::MatchType::Exact,
                                case_sensitivity: crate::search::CaseSensitivity::Insensitive,
                            },
                        },
                    );
                },
                MetricSpec::MetricId(m) => {
                    metric_id.push(m.clone());
                },
                MetricSpec::DataProduct(_) => {},
            }
            i += 1;
        }
        proof {
            assert(self.metrics@.take(self.metrics@.len() as int) =~= self.metrics@);
        }
        // Year ranges, each parsed; the first failure rejects the request.
        let year_range: Option<Vec<YearRange>> = match &self.years {
            None => None,
            Some(ys) => {
                let mut v: Vec<YearRange> = Vec::new();
                let mut i: usize = 0;
                while i < ys.len()
                    invariant
                        i <= ys@.len(),
                        ys.deep_view().len() == ys@.len(),
                        forall|j: int|
                            0 <= j < ys@.len() ==> (#[trigger] ys@[j])@ == ys.deep_view()[j],
                        v@.len() == i,
                        forall|j: int|
                            0 <= j < i ==> (#[trigger] spec_parse_year_range(
                                ys.deep_view()[j],
                            )) is Some && v@[j] == spec_parse_year_range(ys.deep_view()[j]).unwrap(),
                    decreases ys@.len() - i,
                {
                    match YearRange::parse(ys[i].as_str()) {
                        Ok(yr) => {
                            v.push(yr);
                        },
                        Err(e) => {
                            return Err(e);
                        },
                    }
                    i += 1;
                }
                Some(v)
            },
        };
        // Geometry block: level facet and inclusion flag.
        let (geometry_level, include_geoms): (Option<GeometryLevel>, bool) = match &self.geometry {
            None => (None, true),
            Some(g) => {
                let lvl = match &g.geometry_level {
                    None => None,
                    Some(l) => Some(
                        GeometryLevel {
                            value: l.clone(),
                            config: SearchConfig {
                                match_type: crate::search::MatchType::Exact,
                                case_sensitivity: crate::search::CaseSensitivity::Insensitive,
                            },
                        },
                    ),
                };
                (lvl, g.include_geoms)
            },
        };
        Ok(
            Params {
                search: SearchParams {
                    text,
                    year_range,
                    metric_id,
                    geometry_level,
                    source_data_release: None,
                    data_publisher: None,
                    source_download_url: None,
                    country: None,
                    source_metric_id: None,
                    region_spec: clone_regions(&self.region),
                },
                download: DownloadParams {
                    include_geoms,
                    region_spec: clone_regions(&self.region),
                },
            },
        )
    }
}

} // verus!
