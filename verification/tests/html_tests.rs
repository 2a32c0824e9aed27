use meteogram::html::locate_meteogram_url;

#[test]
fn finds_src_of_image_inside_target_div() {
    let html = r#"<div id="meteograma"><span><img src="/x.png"></span></div>"#;
    assert_eq!(locate_meteogram_url(html), Some(String::from("/x.png")));
}

#[test]
fn absent_target_div_yields_none() {
    let html = r#"<html><body><div id="other"><img src="/x.png"></div></body></html>"#;
    assert_eq!(locate_meteogram_url(html), None);
}

#[test]
fn target_div_without_image_yields_none() {
    let html = r#"<div id="meteograma"></div>"#;
    assert_eq!(locate_meteogram_url(html), None);
}

#[test]
fn image_after_subtree_closes_is_not_taken() {
    let html = r#"<div id="meteograma"></div><img src="/x.png">"#;
    assert_eq!(locate_meteogram_url(html), None);
}

#[test]
fn nested_divs_stay_inside_the_subtree() {
    let html = r#"<div id="meteograma"><div><p></p></div><img src="/y.png"></div>"#;
    assert_eq!(locate_meteogram_url(html), Some(String::from("/y.png")));
}

#[test]
fn first_image_without_src_yields_none() {
    let html = r#"<div id="meteograma"><img alt="no source"><img src="/z.png"></div>"#;
    assert_eq!(locate_meteogram_url(html), None);
}

#[test]
fn full_page_with_surrounding_markup() {
    let html = "<html><head><title>t</title></head><body><!-- <div id=\"meteograma\"><img src=\"/commented.png\"></div> --><div class=\"wrap\"><div id=\"meteograma\"><span><img class=\"chart\" src=\"https://cdn.example/chart.png\" alt=\"m\"></span></div></div></body></html>";
    assert_eq!(
        locate_meteogram_url(html),
        Some(String::from("https://cdn.example/chart.png"))
    );
}

#[test]
fn tag_names_fold_case_and_values_do_not() {
    let html = r#"<DIV ID="meteograma"><IMG SRC="/up.png"></DIV>"#;
    assert_eq!(locate_meteogram_url(html), Some(String::from("/up.png")));
    let html = r#"<div id="Meteograma"><img src="/up.png"></div>"#;
    assert_eq!(locate_meteogram_url(html), None);
}

#[test]
fn single_quoted_and_unquoted_values_are_read() {
    let html = "<div id='meteograma'><img src=/a.png></div>";
    assert_eq!(locate_meteogram_url(html), Some(String::from("/a.png")));
}

#[test]
fn first_matching_div_decides() {
    let html = "<div id=\"meteograma\"><b></b></div><div id=\"meteograma\"><img src=\"/second.png\"></div>";
    assert_eq!(locate_meteogram_url(html), None);
}

#[test]
fn malformed_markup_yields_none_not_panic() {
    assert_eq!(locate_meteogram_url(""), None);
    assert_eq!(locate_meteogram_url("<"), None);
    assert_eq!(locate_meteogram_url("<div id=\"meteograma\""), None);
    assert_eq!(locate_meteogram_url("plain text, no markup"), None);
    assert_eq!(locate_meteogram_url("<div id=\"meteograma\"><img src=\"/x.png"), None);
}

#[test]
fn spaces_around_the_equals_sign_are_allowed() {
    let html = "<div id = \"meteograma\"><img src = \"/s.png\"></div>";
    assert_eq!(locate_meteogram_url(html), Some(String::from("/s.png")));
}

#[test]
fn unquoted_id_value_is_read() {
    let html = "<div id=meteograma><img src=\"/u.png\"></div>";
    assert_eq!(locate_meteogram_url(html), Some(String::from("/u.png")));
}

#[test]
fn other_attributes_do_not_disturb_the_match() {
    let html = "<div class=\"a b\" data-x='1' id=\"meteograma\" hidden><img alt src=\"/m.png\"></div>";
    assert_eq!(locate_meteogram_url(html), Some(String::from("/m.png")));
}
