use meteogram::errors::Error;
use meteogram::json::parse_cities;
use meteogram::pipeline::{
    city_labels, forecast_url, meteogram_url_from_page, plan_output, require_candidates,
    Action, OutputPlan, Pipeline, Stage,
};
use meteogram::selection::select_index;

#[test]
fn forecast_url_appends_custom_verbatim() {
    let cities = parse_cities(r#"[{"id":"1","label":"l","value":"v","custom":"cidade/123"}]"#)
        .unwrap();
    assert_eq!(
        forecast_url(&cities[0]),
        "https://tempo.cptec.inpe.br/cidade/123"
    );
}

#[test]
fn labels_are_listed_in_order() {
    let cities = parse_cities(
        r#"[{"id":"1","label":"S%C3%A3o+Paulo","value":"v","custom":"a"},{"id":"2","label":"Rio","value":"v","custom":"b"}]"#,
    )
    .unwrap();
    let labels = city_labels(&cities);
    assert_eq!(labels, vec![String::from("São Paulo"), String::from("Rio")]);
}

#[test]
fn error_descriptions_are_distinct() {
    let kinds = [
        Error::Network,
        Error::Deserialization,
        Error::NoResults,
        Error::InvalidSelection,
        Error::MeteogramNotFound,
        Error::Io,
        Error::Launch,
    ];
    for a in 0..kinds.len() {
        for b in 0..kinds.len() {
            if a != b {
                assert_ne!(kinds[a].describe(), kinds[b].describe());
            }
        }
    }
}

#[test]
fn single_city_run_saves_to_the_given_path() {
    // lookup
    let body = r#"[{"id":"9","label":"Town","value":"t","custom":"cidade/123"}]"#;
    let cities = parse_cities(body).unwrap();
    assert_eq!(cities.len(), 1);
    assert!(require_candidates(&cities).is_ok());
    // selection
    let idx = select_index("0", cities.len()).unwrap();
    let city = &cities[idx];
    assert_eq!(city.custom, "cidade/123");
    // forecast page fetch would request exactly this URL
    assert_eq!(forecast_url(city), "https://tempo.cptec.inpe.br/cidade/123");
    // scrape of the fetched page
    let page = r#"<html><div id="meteograma"><img src="https://cdn.example/chart.png"></div></html>"#;
    let url = meteogram_url_from_page(page).unwrap();
    assert_eq!(url, "https://cdn.example/chart.png");
    // the fetched bytes go to the caller's path, and no viewer is involved
    let asset: Vec<u8> = vec![137, 80, 78, 71, 13, 10];
    let plan = plan_output(Some(String::from("/tmp/out.png")));
    match plan {
        OutputPlan::SaveTo(path) => {
            assert_eq!(path, "/tmp/out.png");
            assert_eq!(asset.len(), 6);
        }
        OutputPlan::ShowViaTemp(_) => panic!("a given output path must not open a viewer"),
    }
}

#[test]
fn empty_lookup_fails_before_any_further_stage() {
    let cities = parse_cities("[]").unwrap();
    // the pipeline stops here: no forecast URL is built and no page fetched
    let gate = require_candidates(&cities);
    assert!(matches!(gate, Err(Error::NoResults)));
}

#[test]
fn page_without_meteogram_is_the_not_found_error() {
    let page = "<html><body>nothing here</body></html>";
    assert!(matches!(
        meteogram_url_from_page(page),
        Err(Error::MeteogramNotFound)
    ));
}

#[test]
fn no_output_path_means_the_stable_scratch_file() {
    match plan_output(None) {
        OutputPlan::ShowViaTemp(name) => assert_eq!(name, "meteo.png"),
        OutputPlan::SaveTo(_) => panic!("without a path the viewer plan is expected"),
    }
}

#[test]
fn machine_runs_one_city_to_a_file() {
    let (pl, action) = Pipeline::start(
        String::from("Town"),
        Some(String::from("/tmp/out.png")),
    );
    let query = match action {
        Action::FetchLookup(q) => q,
        _ => panic!("the run must begin with the lookup request"),
    };
    assert_eq!(query, "Town");

    let body = r#"[{"id":"9","label":"Town","value":"t","custom":"cidade/123"}]"#;
    let (pl, action) = pl.on_lookup(Some(body));
    match action {
        Action::Prompt(labels) => assert_eq!(labels, vec![String::from("Town")]),
        _ => panic!("one candidate must lead to the prompt"),
    }

    let (pl, action) = pl.on_selection("0\n");
    match action {
        Action::FetchPage(url) => assert_eq!(url, "https://tempo.cptec.inpe.br/cidade/123"),
        _ => panic!("a valid selection must lead to the page fetch"),
    }

    let page = r#"<div id="meteograma"><img src="https://cdn.example/chart.png"></div>"#;
    let (pl, action) = pl.on_page(Some(page));
    match action {
        Action::FetchAsset(url) => assert_eq!(url, "https://cdn.example/chart.png"),
        _ => panic!("a located meteogram must lead to the asset fetch"),
    }

    let asset: Vec<u8> = vec![137, 80, 78, 71, 13, 10, 26, 10];
    let (pl, action) = pl.on_asset(Some(asset.clone()));
    match action {
        Action::WriteFile(path, data) => {
            assert_eq!(path, "/tmp/out.png");
            assert_eq!(data, asset);
        }
        Action::ShowTemp(_, _) => panic!("a given output path must not open a viewer"),
        _ => panic!("fetched bytes must lead to the write"),
    }

    let (pl, action) = pl.on_output(None);
    assert!(matches!(action, Action::Finish));
    assert!(matches!(pl.stage, Stage::Done));
}

#[test]
fn machine_stops_on_empty_lookup_before_any_fetch() {
    let (pl, _) = Pipeline::start(String::from("nowhere"), None);
    let (pl, action) = pl.on_lookup(Some("[]"));
    assert!(matches!(action, Action::Report(Error::NoResults)));
    assert!(matches!(
        pl.stage,
        Stage::Stopped { error: Error::NoResults }
    ));
}

#[test]
fn machine_reports_transport_failures_as_network_errors() {
    let (pl, _) = Pipeline::start(String::from("x"), None);
    let (_, action) = pl.on_lookup(None);
    assert!(matches!(action, Action::Report(Error::Network)));
}

#[test]
fn machine_uses_the_scratch_file_without_a_path() {
    let (pl, _) = Pipeline::start(String::from("Town"), None);
    let body = r#"[{"id":"9","label":"Town","value":"t","custom":"c"}]"#;
    let (pl, _) = pl.on_lookup(Some(body));
    let (pl, _) = pl.on_selection("0");
    let page = r#"<div id="meteograma"><img src="/i.png"></div>"#;
    let (pl, _) = pl.on_page(Some(page));
    let (_, action) = pl.on_asset(Some(vec![1, 2, 3]));
    match action {
        Action::ShowTemp(name, data) => {
            assert_eq!(name, "meteo.png");
            assert_eq!(data, vec![1, 2, 3]);
        }
        _ => panic!("without a path the scratch file and viewer are expected"),
    }
}

#[test]
fn machine_stops_on_invalid_selection() {
    let (pl, _) = Pipeline::start(String::from("Town"), None);
    let body = r#"[{"id":"9","label":"Town","value":"t","custom":"c"}]"#;
    let (pl, _) = pl.on_lookup(Some(body));
    let (_, action) = pl.on_selection("1");
    assert!(matches!(action, Action::Report(Error::InvalidSelection)));
}
