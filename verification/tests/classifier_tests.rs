use request_analytics::classifier::RequestClassifier;

#[test]
fn websocket_path_is_exempt() {
    let c = RequestClassifier::with_default_extensions();
    assert!(c.is_exempt("/_trunk/ws"));
}

#[test]
fn wasm_path_is_exempt() {
    let c = RequestClassifier::with_default_extensions();
    assert!(c.is_exempt("/app.wasm"));
}

#[test]
fn every_default_extension_is_exempt() {
    let c = RequestClassifier::with_default_extensions();
    assert!(c.is_exempt("/main.js"));
    assert!(c.is_exempt("/logo.png"));
    assert!(c.is_exempt("/photo.jpg"));
    assert!(c.is_exempt("/shader.vert"));
    assert!(c.is_exempt("/style.scss"));
    assert!(c.is_exempt("/shader.frag"));
    assert!(c.is_exempt("/style.css"));
}

#[test]
fn plain_api_path_is_eligible() {
    let c = RequestClassifier::with_default_extensions();
    assert!(!c.is_exempt("/api/data"));
    assert!(!c.is_exempt("/"));
    assert!(!c.is_exempt("/analytics"));
}

#[test]
fn extension_match_is_case_sensitive() {
    let c = RequestClassifier::with_default_extensions();
    assert!(!c.is_exempt("/app.WASM"));
    assert!(!c.is_exempt("/style.Css"));
}

#[test]
fn trailing_dot_gives_empty_extension() {
    let c = RequestClassifier::with_default_extensions();
    assert!(!c.is_exempt("/file."));
}

#[test]
fn dot_before_last_slash_is_no_extension() {
    let c = RequestClassifier::with_default_extensions();
    assert!(!c.is_exempt("/bundle.js/metadata"));
}

#[test]
fn extension_set_is_injectable() {
    let c = RequestClassifier { exempt_extensions: vec![String::from("txt")] };
    assert!(c.is_exempt("/notes.txt"));
    assert!(!c.is_exempt("/app.wasm"));
    assert!(c.is_exempt("/_trunk/ws"));
}

#[test]
fn nested_path_with_extension_is_exempt() {
    let c = RequestClassifier::with_default_extensions();
    assert!(c.is_exempt("/assets/img/logo.png"));
    assert!(!c.is_exempt("/assets/img/logo"));
}
