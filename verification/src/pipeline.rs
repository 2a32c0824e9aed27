//! The orchestration rules of the pipeline: which URL each stage requests,
//! which candidate list is acceptable, how the scrape's absence becomes an
//! error, and where the resulting bytes go. Every remote call and file
//! write happens outside; these functions decide, and their contracts pin
//! the decisions down.

use crate::city::{decoded_label, format_city_label, City};
use crate::json::{city_views, parse_cities_spec};
use crate::selection::{select_index, selection_value};
use crate::errors::Error;
use crate::html::{locate_spec, locate_meteogram_url};
use vstd::prelude::*;
use vstd::string::StringExecFns;

verus! {

/// The base URL of the weather service.
pub open spec fn base_url() -> Seq<char> {
    "https://tempo.cptec.inpe.br/"@
}

/// The forecast page URL of a city: the base URL with the city's `custom`
/// path appended verbatim.
pub open spec fn forecast_url_spec(custom: Seq<char>) -> Seq<char> {
    base_url() + custom
}

/// Builds the forecast page URL for a selected city.
pub fn forecast_url(city: &City) -> (r: String)
    ensures
        r@ == forecast_url_spec(city@.custom),
{
    let base = String::from_str("https://tempo.cptec.inpe.br/");
    base.concat(city.custom.as_str())
}

/// Accepts a candidate list only when it holds at least one city: an empty
/// lookup result stops the pipeline before any selection or further fetch.
pub fn require_candidates(cities: &Vec<City>) -> (r: Result<(), Error>)
    ensures
        match r {
            Ok(_) => cities@.len() > 0,
            Err(e) => e == Error::NoResults && cities@.len() == 0,
        },
{
    if cities.len() == 0 {
        Err(Error::NoResults)
    } else {
        Ok(())
    }
}

/// The decoded display labels of the candidates, in order, for the prompt.
pub fn city_labels(cities: &Vec<City>) -> (r: Vec<String>)
    ensures
        r@.len() == cities@.len(),
        forall|i: int| 0 <= i < cities@.len() ==> #[trigger] r@[i]@ == decoded_label(
            cities@[i]@.label,
        ),
{
    let mut out: Vec<String> = Vec::new();
    let mut i: usize = 0;
    while i < cities.len()
        invariant
            i <= cities@.len(),
            out@.len() == i,
            forall|j: int| 0 <= j < i ==> #[trigger] out@[j]@ == decoded_label(cities@[j]@.label),
        decreases cities@.len() - i,
    {
        let label = format_city_label(&cities[i]);
        out.push(label);
        i = i + 1;
    }
    out
}

/// Turns a fetched forecast page into the meteogram URL to request next.
/// Absence of the image in the page becomes the not-found error here, and
/// only here.
pub fn meteogram_url_from_page(html: &str) -> (r: Result<String, Error>)
    ensures
        match r {
            Ok(u) => locate_spec(html@) == Some(u@),
            Err(e) => e == Error::MeteogramNotFound && locate_spec(html@) is None,
        },
{
    match locate_meteogram_url(html) {
        Some(u) => Ok(u),
        None => Err(Error::MeteogramNotFound),
    }
}

/// The fixed file name reused for the scratch copy shown in the viewer.
pub open spec fn temp_file_name() -> Seq<char> {
    "meteo.png"@
}

/// Where the fetched bytes must go.
pub enum OutputPlan {
    /// Write the bytes to the caller's path; launch nothing.
    SaveTo(String),
    /// Write the bytes to the named scratch file in the temp directory,
    /// then hand that path to the platform opener.
    ShowViaTemp(String),
}

/// Chooses the output disposition: a caller-supplied path means a plain
/// save; no path means the stable scratch file plus the viewer.
pub fn plan_output(path: Option<String>) -> (r: OutputPlan)
    ensures
        match path {
            Some(p) => r matches OutputPlan::SaveTo(q) && q@ == p@,
            None => r matches OutputPlan::ShowViaTemp(name) && name@ == temp_file_name(),
        },
{
    match path {
        Some(p) => OutputPlan::SaveTo(p),
        None => OutputPlan::ShowViaTemp(String::from_str("meteo.png")),
    }
}

/// Where the run stands: which event it is waiting for, or how it ended.
pub enum Stage {
    /// Waiting for the lookup response.
    Lookup,
    /// Waiting for the user's selection among these candidates.
    Selection { cities: Vec<City> },
    /// Waiting for the forecast page of the selected city.
    Page { city: City },
    /// Waiting for the image bytes.
    Asset,
    /// Waiting for the outcome of the write or the viewer launch.
    Output,
    /// Finished successfully.
    Done,
    /// Failed with this error; nothing further happens.
    Stopped { error: Error },
}

/// What the surrounding program must do next. Exactly one action follows
/// each event; a fetch is requested only while no stage has failed.
pub enum Action {
    /// Send the lookup request with this query as the `term` parameter.
    FetchLookup(String),
    /// Show these labels, indexed from zero, and read a selection token.
    Prompt(Vec<String>),
    /// Fetch this forecast page.
    FetchPage(String),
    /// Fetch the image at this URL.
    FetchAsset(String),
    /// Write these bytes to this path; open no viewer.
    WriteFile(String, Vec<u8>),
    /// Write these bytes to this file name under the temp directory, then
    /// hand that path to the platform opener.
    ShowTemp(String, Vec<u8>),
    /// Surface this error and exit non-zero.
    Report(Error),
    /// Exit zero.
    Finish,
}

/// The pipeline's orchestration: one strictly sequential run. Each event
/// handler consumes the machine and returns its successor with the one
/// action to perform next; every failure stops the run with its own kind.
pub struct Pipeline {
    pub query: String,
    pub save_path: Option<String>,
    pub stage: Stage,
}

impl Pipeline {
    /// Begins a run: the first action is the lookup request itself.
    pub fn start(query: String, save_path: Option<String>) -> (r: (Pipeline, Action))
        ensures
            r.0.query == query,
            r.0.save_path == save_path,
            r.0.stage is Lookup,
            r.1 matches Action::FetchLookup(q) && q@ == query@,
    {
        let q = query.clone();
        (Pipeline { query, save_path, stage: Stage::Lookup }, Action::FetchLookup(q))
    }

    /// Consumes the lookup response, `None` standing for a transport
    /// failure. A body that is no city array stops with the
    /// deserialization error; zero candidates stop with the no-results
    /// error before any further request; otherwise the decoded labels are
    /// put to the user.
    pub fn on_lookup(self, body: Option<&str>) -> (r: (Pipeline, Action))
        requires
            self.stage is Lookup,
        ensures
            r.0.query == self.query,
            r.0.save_path == self.save_path,
            match body {
                None => r.0.stage == (Stage::Stopped { error: Error::Network }) && r.1
                    == Action::Report(Error::Network),
                Some(b) => match parse_cities_spec(b@) {
                    None => r.0.stage == (Stage::Stopped { error: Error::Deserialization }) && r.1
                        == Action::Report(Error::Deserialization),
                    Some(cs) => if cs.len() == 0 {
                        r.0.stage == (Stage::Stopped { error: Error::NoResults }) && r.1
                            == Action::Report(Error::NoResults)
                    } else {
                        &&& r.0.stage matches Stage::Selection { cities } && city_views(cities@)
                            == cs
                        &&& r.1 matches Action::Prompt(labels) && labels@.len() == cs.len()
                            && (forall|i: int|
                            0 <= i < cs.len() ==> #[trigger] labels@[i]@ == decoded_label(
                                cs[i].label,
                            ))
                    },
                },
            },
    {
        let Pipeline { query, save_path, stage: _ } = self;
        match body {
            None => (
                Pipeline { query, save_path, stage: Stage::Stopped { error: Error::Network } },
                Action::Report(Error::Network),
            ),
            Some(b) => match crate::json::parse_cities(b) {
                Err(e) => (
                    Pipeline { query, save_path, stage: Stage::Stopped { error: e } },
                    Action::Report(e),
                ),
                Ok(cities) => match require_candidates(&cities) {
                    Err(e) => (
                        Pipeline { query, save_path, stage: Stage::Stopped { error: e } },
                        Action::Report(e),
                    ),
                    Ok(_) => {
                        let labels = city_labels(&cities);
                        (
                            Pipeline { query, save_path, stage: Stage::Selection { cities } },
                            Action::Prompt(labels),
                        )
                    },
                },
            },
        }
    }

    /// Consumes the selection token. A token that does not name a
    /// candidate stops with the invalid-selection error; otherwise the
    /// selected city's forecast page is requested.
    pub fn on_selection(self, token: &str) -> (r: (Pipeline, Action))
        requires
            self.stage matches Stage::Selection { .. },
        ensures
            r.0.query == self.query,
            r.0.save_path == self.save_path,
            ({
                let cities = self.stage->cities;
                match selection_value(token@) {
                    Some(v) => if 0 <= v < cities@.len() {
                        &&& r.0.stage matches Stage::Page { city } && city@ == cities@[v]@
                        &&& r.1 matches Action::FetchPage(url) && url@ == forecast_url_spec(
                            cities@[v]@.custom,
                        )
                    } else {
                        r.0.stage == (Stage::Stopped { error: Error::InvalidSelection }) && r.1
                            == Action::Report(Error::InvalidSelection)
                    },
                    None => r.0.stage == (Stage::Stopped { error: Error::InvalidSelection }) && r.1
                        == Action::Report(Error::InvalidSelection),
                }
            }),
    {
        let Pipeline { query, save_path, stage } = self;
        match stage {
            Stage::Selection { cities } => match select_index(token, cities.len()) {
                Err(e) => (
                    Pipeline { query, save_path, stage: Stage::Stopped { error: e } },
                    Action::Report(e),
                ),
                Ok(i) => {
                    let city = cities[i].clone();
                    let url = forecast_url(&city);
                    (
                        Pipeline { query, save_path, stage: Stage::Page { city } },
                        Action::FetchPage(url),
                    )
                },
            },
            _ => {
                proof {
                    assert(false);
                }
                (Pipeline { query, save_path, stage: Stage::Done }, Action::Finish)
            },
        }
    }

    /// Consumes the forecast page, `None` standing for a transport
    /// failure. A page without the meteogram stops with the not-found
    /// error; otherwise the image is requested.
    pub fn on_page(self, body: Option<&str>) -> (r: (Pipeline, Action))
        requires
            self.stage matches Stage::Page { .. },
        ensures
            r.0.query == self.query,
            r.0.save_path == self.save_path,
            match body {
                None => r.0.stage == (Stage::Stopped { error: Error::Network }) && r.1
                    == Action::Report(Error::Network),
                Some(h) => match locate_spec(h@) {
                    None => r.0.stage == (Stage::Stopped { error: Error::MeteogramNotFound })
                        && r.1 == Action::Report(Error::MeteogramNotFound),
                    Some(u) => r.0.stage is Asset && (r.1 matches Action::FetchAsset(url) && url@
                        == u),
                },
            },
    {
        let Pipeline { query, save_path, stage: _ } = self;
        match body {
            None => (
                Pipeline { query, save_path, stage: Stage::Stopped { error: Error::Network } },
                Action::Report(Error::Network),
            ),
            Some(h) => match meteogram_url_from_page(h) {
                Err(e) => (
                    Pipeline { query, save_path, stage: Stage::Stopped { error: e } },
                    Action::Report(e),
                ),
                Ok(url) => (
                    Pipeline { query, save_path, stage: Stage::Asset },
                    Action::FetchAsset(url),
                ),
            },
        }
    }

    /// Consumes the fetched image bytes, `None` standing for a transport
    /// failure. With an output path the bytes go to that path, exactly as
    /// fetched, and no viewer is involved; without one they go to the
    /// stable scratch file and the viewer is asked for.
    pub fn on_asset(self, bytes: Option<Vec<u8>>) -> (r: (Pipeline, Action))
        requires
            self.stage is Asset,
        ensures
            r.0.query == self.query,
            r.0.save_path == self.save_path,
            match bytes {
                None => r.0.stage == (Stage::Stopped { error: Error::Network }) && r.1
                    == Action::Report(Error::Network),
                Some(b) => {
                    &&& r.0.stage is Output
                    &&& match self.save_path {
                        Some(p) => r.1 matches Action::WriteFile(path, data) && path@ == p@
                            && data@ == b@,
                        None => r.1 matches Action::ShowTemp(name, data) && name@
                            == temp_file_name() && data@ == b@,
                    }
                },
            },
    {
        let Pipeline { query, save_path, stage: _ } = self;
        match bytes {
            None => (
                Pipeline { query, save_path, stage: Stage::Stopped { error: Error::Network } },
                Action::Report(Error::Network),
            ),
            Some(b) => {
                let kept: Option<String> = match &save_path {
                    Some(p) => Some(p.clone()),
                    None => None,
                };
                let action = match plan_output(kept) {
                    OutputPlan::SaveTo(path) => Action::WriteFile(path, b),
                    OutputPlan::ShowViaTemp(name) => Action::ShowTemp(name, b),
                };
                (Pipeline { query, save_path, stage: Stage::Output }, action)
            },
        }
    }

    /// Consumes the outcome of the write or launch: `None` is success,
    /// anything else stops with that error.
    pub fn on_output(self, failure: Option<Error>) -> (r: (Pipeline, Action))
        requires
            self.stage is Output,
        ensures
            r.0.query == self.query,
            r.0.save_path == self.save_path,
            match failure {
                None => r.0.stage is Done && r.1 == Action::Finish,
                Some(e) => r.0.stage == (Stage::Stopped { error: e }) && r.1 == Action::Report(e),
            },
    {
        let Pipeline { query, save_path, stage: _ } = self;
        match failure {
            None => (Pipeline { query, save_path, stage: Stage::Done }, Action::Finish),
            Some(e) => (
                Pipeline { query, save_path, stage: Stage::Stopped { error: e } },
                Action::Report(e),
            ),
        }
    }
}

} // verus!
