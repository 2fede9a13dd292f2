use pillar_candy::{InvalidFormat, LawErrorKind, LawID, ParseLawError};

#[test]
fn test_confirm_valid_law_id() {
    let expected = LawID { year: 1998, number: 899 };
    let result = LawID::new("1998:899");
    assert_eq!(expected, result.unwrap());
}

#[test]
fn parses_year_and_number() {
    let id = LawID::new("1998:899").unwrap();
    assert_eq!(id.year, 1998);
    assert_eq!(id.number, 899);
}

#[test]
fn url_of_known_statute() {
    let id = LawID::new("1998:899").unwrap();
    let url = id.to_url();
    assert!(url.contains("sfs-1998-899"));
    assert_eq!(url, "http://data.riksdagen.se/dokument/sfs-1998-899");
}

#[test]
fn url_of_single_digit_number() {
    let id = LawID::new("2010:1").unwrap();
    assert_eq!(id.to_url(), "http://data.riksdagen.se/dokument/sfs-2010-1");
}

#[test]
fn canonical_text_round_trips() {
    for text in ["1998:899", "2010:1", "1000:0", "9999:9999", "1962:700", "2018:1248"] {
        let id = LawID::new(text).unwrap();
        assert_eq!(id.to_id_string(), text);
    }
}

#[test]
fn year_keeps_four_digits_when_written_back() {
    let id = LawID::new("0001:0007").unwrap();
    assert_eq!(id.year, 1);
    assert_eq!(id.number, 7);
    assert_eq!(id.to_id_string(), "0001:7");
    assert_eq!(LawID::new(&id.to_id_string()).unwrap(), id);
    assert_eq!(id.to_url(), "http://data.riksdagen.se/dokument/sfs-0001-7");
}

#[test]
fn written_back_text_reads_as_the_same_identifier() {
    for text in ["0001:7", "0099:0", "0999:12", "1998:0899", "0000:0000", "2018:1248"] {
        let id = LawID::new(text).unwrap();
        let again = LawID::new(&id.to_id_string()).unwrap();
        assert_eq!(again, id);
    }
    assert_eq!(LawID::new("0099:0").unwrap().to_id_string(), "0099:0");
    assert_eq!(LawID::new("1998:0899").unwrap().to_id_string(), "1998:899");
}

#[test]
fn canonical_text_of_parts() {
    let id = LawID { year: 2024, number: 0 };
    assert_eq!(id.to_id_string(), "2024:0");
    let again = LawID::new(&id.to_id_string()).unwrap();
    assert_eq!(again, id);
}

#[test]
fn malformed_texts_are_refused() {
    let cases = [
        "",
        "1998899",
        "1998:899:1",
        "1998::899",
        ":1998899",
        "abcd:12",
        "1998:8a9",
        "199:899",
        "19988:99",
        "1998:",
        "1998:12345",
        " 1998:899",
        "1998:899 ",
        "1998:-1",
        "1998:+1",
        "1998;899",
        "١٩٩٨:899",
    ];
    for text in cases {
        let r = LawID::new(text);
        assert!(matches!(r, Err(LawErrorKind::IDFormatError)), "{text:?} was accepted");
    }
}

#[test]
fn id_format_error_message() {
    let e = LawID::new("1998-899").unwrap_err();
    assert_eq!(e.to_string(), "Valid LawID format is <year>:<number>.");
}

#[test]
fn error_messages() {
    assert_eq!(
        LawErrorKind::DataFormatError.to_string(),
        "Law does not contain valid information."
    );
    assert_eq!(LawErrorKind::ParserError.to_string(), "Placeholder");
}

#[test]
fn invalid_format_explanation() {
    assert_eq!(
        InvalidFormat.as_str(),
        "Invalid Format, search format should be <year>:<number>"
    );
}

#[test]
fn parse_law_error_messages() {
    assert_eq!(
        ParseLawError::InvalidFormat.to_string(),
        "Parsing error \"Invalid Format, search format should be <year>:<number>\""
    );
    let int_error = "x".parse::<u32>().unwrap_err();
    let expected = int_error.to_string();
    let e = ParseLawError::from(int_error.clone());
    assert_eq!(e, ParseLawError::NotAnInt(int_error));
    assert_eq!(e.to_string(), expected);
}
