use malai_client::supervisor::{Registry, StartStep};
use malai_client::url::UrlError;

#[test]
fn start_then_start_again_stops() {
    let mut r: Registry<u32> = Registry::new();
    let url = "kulfi://peer/index.html".to_string();
    match r.start(&url) {
        StartStep::Launch { id52, path } => {
            assert_eq!(id52, "peer");
            assert_eq!(path, "index.html");
        }
        _ => panic!("expected a launch"),
    }
    r.register(url.clone(), 7);
    assert!(r.status(&url));
    match r.start(&url) {
        StartStep::Stop(h) => assert_eq!(h, 7),
        _ => panic!("expected a stop"),
    }
    assert!(!r.status(&url));
}

#[test]
fn bad_url_is_reported() {
    let mut r: Registry<u32> = Registry::new();
    match r.start(&"peer".to_string()) {
        StartStep::BadUrl(e) => assert_eq!(e, UrlError::MissingScheme),
        _ => panic!("expected a bad url"),
    }
    match r.start(&"x-kulfi://peer".to_string()) {
        StartStep::BadUrl(e) => assert_eq!(e, UrlError::UnexpectedPrefix("x-".to_string())),
        _ => panic!("expected a bad url"),
    }
}

#[test]
fn stop_of_unknown_key_is_none() {
    let mut r: Registry<u32> = Registry::new();
    assert_eq!(r.stop(&"kulfi://a".to_string()), None);
    r.register("kulfi://a".to_string(), 1);
    r.register("kulfi://b".to_string(), 2);
    assert_eq!(r.stop(&"kulfi://b".to_string()), Some(2));
    assert!(r.status(&"kulfi://a".to_string()));
    assert!(!r.status(&"kulfi://b".to_string()));
}
