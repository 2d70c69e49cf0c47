use malai_client::url::{parse_url, UrlError};

#[test]
fn url_with_path() {
    assert_eq!(parse_url("kulfi://abc/some/path"), Ok(("abc", "some/path")));
}

#[test]
fn url_without_path() {
    assert_eq!(parse_url("kulfi://abc"), Ok(("abc", "")));
    assert_eq!(parse_url("kulfi://"), Ok(("", "")));
}

#[test]
fn url_with_trailing_slash() {
    assert_eq!(parse_url("kulfi://abc/"), Ok(("abc", "")));
}

#[test]
fn url_with_other_scheme_first() {
    assert_eq!(
        parse_url("http://kulfi://abc"),
        Err(UrlError::UnexpectedPrefix("http://".to_string()))
    );
}

#[test]
fn url_without_scheme() {
    assert_eq!(parse_url("https://example.com"), Err(UrlError::MissingScheme));
    assert_eq!(parse_url(""), Err(UrlError::MissingScheme));
}

#[test]
fn url_with_non_ascii_text() {
    assert_eq!(parse_url("é kulfi://x/ü"), Err(UrlError::UnexpectedPrefix("é ".to_string())));
    assert_eq!(parse_url("kulfi://ü/é"), Ok(("ü", "é")));
}
