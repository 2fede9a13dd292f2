use pillar_candy::law_data::{fits_parse_limits, MAX_TAG_OPENS};
use pillar_candy::{Law, LawData, LawErrorKind, LawID};

fn document(fields: &[(&str, &str)]) -> String {
    let mut body = String::from("<?xml version=\"1.0\" encoding=\"utf-8\"?>\n<dokumentstatus>\n<dokument>\n");
    for (tag, text) in fields {
        body.push_str(&format!("<{tag}>{text}</{tag}>\n"));
    }
    body.push_str("</dokument>\n<dokbilaga></dokbilaga>\n</dokumentstatus>\n");
    body
}

fn all_fields() -> Vec<(&'static str, &'static str)> {
    vec![
        ("rm", "1998"),
        ("nummer", "899"),
        ("titel", "Förordning (1998:899) om miljöfarlig verksamhet och hälsoskydd"),
        ("subtitel", "t.o.m. SFS 2023:123"),
        ("typ", "sfs"),
        ("subtyp", "sfst"),
        ("organ", "Klimat- och näringslivsdepartementet"),
        ("datum", "1998-06-04 00:00:00"),
        ("publicerad", "2023-03-22 04:32:05"),
    ]
}

#[test]
fn document_with_all_fields() {
    let body = document(&all_fields());
    let data = LawData::new(&body).unwrap();
    assert_eq!(data.year, "1998");
    assert_eq!(data.number, "899");
    assert_eq!(data.title, "Förordning (1998:899) om miljöfarlig verksamhet och hälsoskydd");
    assert_eq!(data.sub_title, "t.o.m. SFS 2023:123");
    assert_eq!(data.doc_type, "sfs");
    assert_eq!(data.sub_type, "sfst");
    assert_eq!(data.department, "Klimat- och näringslivsdepartementet");
    assert_eq!(data.date, "1998-06-04 00:00:00");
    assert_eq!(data.published, "2023-03-22 04:32:05");
}

#[test]
fn document_missing_one_field() {
    for missing in 0..9 {
        let mut fields = all_fields();
        fields.remove(missing);
        let body = document(&fields);
        let r = LawData::new(&body);
        assert!(matches!(r, Err(LawErrorKind::DataFormatError)));
    }
}

#[test]
fn fields_outside_the_document_element_are_not_read() {
    let body = format!("<dokumentstatus></dokumentstatus>{}", "<rm>1998</rm>");
    assert!(matches!(
        LawData::new(&body),
        Err(LawErrorKind::DataFormatError)
    ));
}

#[test]
fn empty_body_is_refused() {
    assert!(matches!(
        LawData::new(""),
        Err(LawErrorKind::DataFormatError)
    ));
}

#[test]
fn empty_field_is_kept() {
    let mut fields = all_fields();
    fields[3] = ("subtitel", "");
    let data = LawData::new(&document(&fields)).unwrap();
    assert_eq!(data.sub_title, "");
}

#[test]
fn record_from_texts() {
    let texts: Vec<Option<String>> = all_fields()
        .iter()
        .map(|(_, text)| Some(text.to_string()))
        .collect();
    let data = LawData::from_tag_texts(texts).unwrap();
    assert_eq!(data.year, "1998");
    assert_eq!(data.department, "Klimat- och näringslivsdepartementet");
    assert_eq!(data.published, "2023-03-22 04:32:05");
}

#[test]
fn record_from_texts_with_one_missing() {
    let mut texts: Vec<Option<String>> = all_fields()
        .iter()
        .map(|(_, text)| Some(text.to_string()))
        .collect();
    texts[8] = None;
    assert!(matches!(
        LawData::from_tag_texts(texts),
        Err(LawErrorKind::DataFormatError)
    ));
}

#[test]
fn record_from_wrong_number_of_texts() {
    let texts: Vec<Option<String>> = vec![Some(String::from("1998")); 8];
    assert!(matches!(
        LawData::from_tag_texts(texts),
        Err(LawErrorKind::DataFormatError)
    ));
    let texts: Vec<Option<String>> = vec![Some(String::from("1998")); 10];
    assert!(matches!(
        LawData::from_tag_texts(texts),
        Err(LawErrorKind::DataFormatError)
    ));
}

#[test]
fn law_from_document() {
    let id = LawID::new("1998:899").unwrap();
    let law = Law::from_document(id, &document(&all_fields())).unwrap();
    assert_eq!(law.id, id);
    assert_eq!(law.data.number, "899");
    assert!(law.refs.is_empty());
}

#[test]
fn law_from_incomplete_document() {
    let id = LawID::new("1998:899").unwrap();
    let mut fields = all_fields();
    fields.pop();
    assert!(matches!(
        Law::from_document(id, &document(&fields)),
        Err(LawErrorKind::DataFormatError)
    ));
}

fn pad_to_tag_opens(mut body: String, opens: usize) -> String {
    let have = body.matches('<').count();
    assert!(have <= opens);
    for _ in have..opens {
        body.push_str("<br>");
    }
    body
}

#[test]
fn document_at_the_tag_limit_is_read() {
    let body = pad_to_tag_opens(document(&all_fields()), MAX_TAG_OPENS);
    assert!(fits_parse_limits(&body));
    let data = LawData::new(&body).unwrap();
    assert_eq!(data.title, "Förordning (1998:899) om miljöfarlig verksamhet och hälsoskydd");
}

#[test]
fn document_over_the_tag_limit_is_refused() {
    let body = pad_to_tag_opens(document(&all_fields()), MAX_TAG_OPENS + 1);
    assert!(!fits_parse_limits(&body));
    assert!(matches!(LawData::new(&body), Err(LawErrorKind::ParserError)));
    let id = LawID::new("1998:899").unwrap();
    assert!(matches!(Law::from_document(id, &body), Err(LawErrorKind::ParserError)));
}

#[test]
fn deeply_nested_document_is_refused_without_parsing() {
    let mut body = String::from("<dokumentstatus><dokument>");
    for _ in 0..200_000 {
        body.push_str("<x>");
    }
    assert!(matches!(LawData::new(&body), Err(LawErrorKind::ParserError)));
}

#[test]
fn parse_limits_count_only_the_tag_byte() {
    assert!(fits_parse_limits(""));
    assert!(fits_parse_limits(&"å‹".repeat(10_000)));
    assert!(fits_parse_limits(&"<".repeat(MAX_TAG_OPENS)));
    assert!(!fits_parse_limits(&"<".repeat(MAX_TAG_OPENS + 1)));
    assert!(fits_parse_limits(&"&lt;".repeat(MAX_TAG_OPENS + 1)));
}
