use meteogram::city::{format_city_label, City};

fn city_with_label(label: &str) -> City {
    City {
        id: String::from("1"),
        label: String::from(label),
        value: String::from("v"),
        custom: String::from("c"),
    }
}

#[test]
fn plain_ascii_label_unchanged() {
    let city = city_with_label("Curitiba");
    assert_eq!(format_city_label(&city), "Curitiba");
}

#[test]
fn decoding_is_idempotent_on_decoded_ascii() {
    let once = format_city_label(&city_with_label("Rio de Janeiro"));
    let twice = format_city_label(&city_with_label(&once));
    assert_eq!(once, "Rio de Janeiro");
    assert_eq!(twice, once);
}

#[test]
fn percent_sequences_become_spaces() {
    let city = city_with_label("Rio%20de%20Janeiro");
    assert_eq!(format_city_label(&city), "Rio de Janeiro");
}

#[test]
fn percent_decode_runs_before_plus_replacement() {
    let city = city_with_label("S%C3%A3o+Paulo");
    assert_eq!(format_city_label(&city), "São Paulo");
}

#[test]
fn plus_alone_becomes_space() {
    let city = city_with_label("Porto+Alegre");
    assert_eq!(format_city_label(&city), "Porto Alegre");
}

#[test]
fn invalid_percent_sequence_is_kept_literally() {
    let city = city_with_label("a%ZZb%2");
    assert_eq!(format_city_label(&city), "a%ZZb%2");
}

#[test]
fn invalid_utf8_byte_becomes_replacement_character() {
    let city = city_with_label("a%FFb");
    assert_eq!(format_city_label(&city), "a\u{FFFD}b");
}
