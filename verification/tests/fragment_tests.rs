use cargo_changelog::error::FragmentError;
use cargo_changelog::fragment::{Fragment, FragmentData, HeaderSyntax};

fn sorted_header(mut h: Vec<(String, FragmentData)>) -> Vec<(String, FragmentData)> {
    h.sort_by(|a, b| a.0.cmp(&b.0));
    h
}

#[test]
fn toml_fragment_decodes() {
    let text = b"+++\nissue = 123\nflag = true\nname = \"x\"\n+++\n\nsome body text\n";
    let frag = Fragment::from_bytes(text).unwrap();
    let header = sorted_header(frag.header.clone());
    assert_eq!(
        header,
        vec![
            ("flag".to_string(), FragmentData::Bool(true)),
            ("issue".to_string(), FragmentData::Int(123)),
            ("name".to_string(), FragmentData::Str("x".to_string())),
        ]
    );
    assert_eq!(frag.body, "\nsome body text\n");
}

#[test]
fn yaml_fragment_decodes() {
    let text = b"---\nissue: 123\nflag: true\nname: x\n---\n\nsome body text\n";
    let frag = Fragment::from_bytes(text).unwrap();
    let header = sorted_header(frag.header.clone());
    assert_eq!(
        header,
        vec![
            ("flag".to_string(), FragmentData::Bool(true)),
            ("issue".to_string(), FragmentData::Int(123)),
            ("name".to_string(), FragmentData::Str("x".to_string())),
        ]
    );
    assert_eq!(frag.body, "\nsome body text\n");
}

#[test]
fn toml_and_yaml_headers_decode_identically() {
    let toml_text = b"+++\nissue = 123\nflag = true\nname = \"x\"\n+++\n\nbody\n";
    let yaml_text = b"---\nissue: 123\nflag: true\nname: x\n---\n\nbody\n";
    let t = Fragment::from_bytes(toml_text).unwrap();
    let y = Fragment::from_bytes(yaml_text).unwrap();
    assert_eq!(sorted_header(t.header), sorted_header(y.header));
    assert_eq!(t.body, y.body);
}

#[test]
fn missing_delimiter_fails_with_header_seperator_missing() {
    let text = b"issue = 123\njust some text\nwithout any delimiter\n";
    let r = Fragment::from_bytes(text);
    assert!(matches!(r, Err(FragmentError::HeaderSeperatorMissing)));
}

#[test]
fn empty_input_fails_with_header_seperator_missing() {
    let r = Fragment::from_bytes(b"");
    assert!(matches!(r, Err(FragmentError::HeaderSeperatorMissing)));
}

#[test]
fn conflicting_close_fails_with_expected_seperator() {
    let text = b"+++\nissue = 123\n---\nbody\n";
    match Fragment::from_bytes(text) {
        Err(FragmentError::ExpectedSeperator(found)) => assert_eq!(found, "---"),
        other => panic!("expected ExpectedSeperator, got {:?}", other),
    }
}

#[test]
fn unclosed_header_fails_with_expected_seperator() {
    let text = b"+++\nissue = 123\n";
    match Fragment::from_bytes(text) {
        Err(FragmentError::ExpectedSeperator(found)) => assert_eq!(found, ""),
        other => panic!("expected ExpectedSeperator, got {:?}", other),
    }
}

#[test]
fn broken_toml_header_fails_with_toml_error() {
    let text = b"+++\nthis is = = not toml\n+++\nbody\n";
    assert!(matches!(
        Fragment::from_bytes(text),
        Err(FragmentError::TomlDe(_))
    ));
}

#[test]
fn broken_yaml_header_fails_with_yaml_error() {
    let text = b"---\n{ : - :\n---\nbody\n";
    assert!(matches!(
        Fragment::from_bytes(text),
        Err(FragmentError::Yaml(_))
    ));
}

#[test]
fn invalid_utf8_body_fails_with_io_error() {
    let mut text: Vec<u8> = b"+++\nissue = 1\n+++\n".to_vec();
    text.push(0xff);
    text.push(0xfe);
    assert!(matches!(
        Fragment::from_bytes(&text),
        Err(FragmentError::Io(_))
    ));
}

#[test]
fn body_is_kept_verbatim() {
    let text = b"+++\na = 1\n+++\n\nline one\n  indented line\n\ntrailing\n";
    let frag = Fragment::from_bytes(text).unwrap();
    assert_eq!(frag.body, "\nline one\n  indented line\n\ntrailing\n");
}

#[test]
fn toml_round_trip_keeps_the_mapping() {
    let text = b"+++\nissue = 123\nflag = false\nname = \"hello world\"\n+++\nbody\n";
    let frag = Fragment::from_bytes(text).unwrap();
    let encoded = cargo_changelog::fragment::encode_header(HeaderSyntax::Toml, &frag.header)
        .unwrap();
    let decoded = cargo_changelog::fragment::decode_header(
        HeaderSyntax::Toml,
        &encoded.into_bytes(),
    )
    .unwrap();
    assert_eq!(sorted_header(frag.header), sorted_header(decoded));
}

#[test]
fn yaml_round_trip_keeps_the_mapping() {
    let text = b"---\nissue: 123\nflag: false\nname: hello world\nnothing: null\n---\nbody\n";
    let frag = Fragment::from_bytes(text).unwrap();
    let encoded = cargo_changelog::fragment::encode_header(HeaderSyntax::Yaml, &frag.header)
        .unwrap();
    let decoded = cargo_changelog::fragment::decode_header(
        HeaderSyntax::Yaml,
        &encoded.into_bytes(),
    )
    .unwrap();
    assert_eq!(sorted_header(frag.header), sorted_header(decoded));
}

#[test]
fn absent_value_cannot_be_encoded_as_toml() {
    let header = vec![("nothing".to_string(), FragmentData::Empty)];
    assert!(matches!(
        cargo_changelog::fragment::encode_header(HeaderSyntax::Toml, &header),
        Err(FragmentError::TomlSer(_))
    ));
}

#[test]
fn float_value_is_refused_in_toml_header() {
    let text = b"+++\nratio = 1.5\n+++\nbody\n";
    assert!(matches!(
        Fragment::from_bytes(text),
        Err(FragmentError::TomlDe(_))
    ));
}
