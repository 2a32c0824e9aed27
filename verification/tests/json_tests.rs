use meteogram::errors::Error;
use meteogram::json::parse_cities;

#[test]
fn parses_two_cities_verbatim() {
    let body = r#"[{"id":"4450","label":"S%C3%A3o+Paulo","value":"sp","custom":"cidade/244"},
                   {"id":"17","label":"Rio","value":"rj","custom":"cidade/241"}]"#;
    let cities = parse_cities(body).unwrap();
    assert_eq!(cities.len(), 2);
    assert_eq!(cities[0].id, "4450");
    assert_eq!(cities[0].label, "S%C3%A3o+Paulo");
    assert_eq!(cities[0].value, "sp");
    assert_eq!(cities[0].custom, "cidade/244");
    assert_eq!(cities[1].id, "17");
    assert_eq!(cities[1].custom, "cidade/241");
}

#[test]
fn empty_array_is_zero_matches() {
    let cities = parse_cities("[]").unwrap();
    assert_eq!(cities.len(), 0);
    let cities = parse_cities("  [ ]  ").unwrap();
    assert_eq!(cities.len(), 0);
}

#[test]
fn keys_in_any_order() {
    let body = r#"[{"custom":"c","value":"v","label":"l","id":"i"}]"#;
    let cities = parse_cities(body).unwrap();
    assert_eq!(cities[0].id, "i");
    assert_eq!(cities[0].custom, "c");
}

#[test]
fn string_escapes_are_decoded() {
    let body = "[{\"id\":\"a\\u0041b\",\"label\":\"x\\ny\",\"value\":\"q\\\"q\",\"custom\":\"s\\/t\"}]";
    let cities = parse_cities(body).unwrap();
    assert_eq!(cities[0].id, "aAb");
    assert_eq!(cities[0].label, "x\ny");
    assert_eq!(cities[0].value, "q\"q");
    assert_eq!(cities[0].custom, "s/t");
}

#[test]
fn missing_field_is_rejected() {
    let body = r#"[{"id":"1","label":"l","value":"v"}]"#;
    assert!(matches!(parse_cities(body), Err(Error::Deserialization)));
}

#[test]
fn unknown_field_is_rejected() {
    let body = r#"[{"id":"1","label":"l","value":"v","custom":"c","extra":"x"}]"#;
    assert!(matches!(parse_cities(body), Err(Error::Deserialization)));
}

#[test]
fn repeated_field_is_rejected() {
    let body = r#"[{"id":"1","id":"2","label":"l","value":"v","custom":"c"}]"#;
    assert!(matches!(parse_cities(body), Err(Error::Deserialization)));
}

#[test]
fn non_string_field_is_rejected() {
    let body = r#"[{"id":1,"label":"l","value":"v","custom":"c"}]"#;
    assert!(matches!(parse_cities(body), Err(Error::Deserialization)));
}

#[test]
fn non_array_body_is_rejected() {
    assert!(matches!(parse_cities("{}"), Err(Error::Deserialization)));
    assert!(matches!(parse_cities("null"), Err(Error::Deserialization)));
    assert!(matches!(parse_cities(""), Err(Error::Deserialization)));
}

#[test]
fn trailing_text_is_rejected() {
    assert!(matches!(parse_cities("[] x"), Err(Error::Deserialization)));
    let body = r#"[{"id":"1","label":"l","value":"v","custom":"c"}] ,"#;
    assert!(matches!(parse_cities(body), Err(Error::Deserialization)));
}

#[test]
fn unterminated_string_is_rejected() {
    let body = r#"[{"id":"1,"label":"l","value":"v","custom":"c"}]"#;
    assert!(matches!(parse_cities(body), Err(Error::Deserialization)));
}

#[test]
fn whitespace_between_tokens_is_accepted() {
    let body = " [ { \"id\" : \"1\" ,\n\t\"label\" : \"l\" , \"value\" : \"v\" , \"custom\" : \"c\" } ] ";
    let cities = parse_cities(body).unwrap();
    assert_eq!(cities.len(), 1);
    assert_eq!(cities[0].label, "l");
}

#[test]
fn unicode_escape_outside_bmp_pairs_is_rejected() {
    // a lone surrogate escape is not a scalar value
    let body = "[{\"id\":\"\\ud83d\",\"label\":\"l\",\"value\":\"v\",\"custom\":\"c\"}]";
    assert!(matches!(parse_cities(body), Err(Error::Deserialization)));
}

#[test]
fn short_unicode_escape_is_rejected() {
    let body = "[{\"id\":\"\\u00\",\"label\":\"l\",\"value\":\"v\",\"custom\":\"c\"}]";
    assert!(matches!(parse_cities(body), Err(Error::Deserialization)));
}

#[test]
fn accented_unicode_escape_is_decoded() {
    let body = "[{\"id\":\"\\u00e9\",\"label\":\"l\",\"value\":\"v\",\"custom\":\"c\"}]";
    let cities = parse_cities(body).unwrap();
    assert_eq!(cities[0].id, "é");
}
