use request_analytics::classifier::RequestClassifier;
use request_analytics::geo::ClientAddress;
use request_analytics::middleware::Effect;
use request_analytics::middleware::RequestSession;
use request_analytics::span::SpanContext;

fn routable() -> ClientAddress {
    ClientAddress::V4 { a: 203, b: 0, c: 113, d: 5 }
}

fn loopback() -> ClientAddress {
    ClientAddress::V4 { a: 127, b: 0, c: 0, d: 1 }
}

#[test]
fn exempt_request_is_forwarded_unrecorded() {
    let c = RequestClassifier::with_default_extensions();
    let (_s, eff) = RequestSession::start(&c, String::from("/app.wasm"), routable());
    assert!(matches!(eff, Effect::Forward));
}

#[test]
fn loopback_request_records_dev_without_lookup() {
    let c = RequestClassifier::with_default_extensions();
    let (mut s, eff) = RequestSession::start(&c, String::from("/api/data"), loopback());
    match eff {
        Effect::Record { event } => {
            assert_eq!(event.country, "DEV");
            assert_eq!(event.path, "/api/data");
            assert_eq!(event.address, loopback());
        },
        _ => panic!("expected an immediate record effect"),
    }
    let eff = s.on_recorded(Ok(()));
    assert!(matches!(eff, Effect::Forward));
}

#[test]
fn routable_request_is_looked_up_then_recorded() {
    let c = RequestClassifier::with_default_extensions();
    let (mut s, eff) = RequestSession::start(&c, String::from("/api/data"), routable());
    match eff {
        Effect::Lookup { address } => assert_eq!(address, routable()),
        _ => panic!("expected a lookup effect"),
    }
    let mut span = SpanContext::new();
    let eff = s.on_lookup(Ok(String::from("FR")), &mut span);
    match eff {
        Effect::Record { event } => {
            assert_eq!(event.country, "FR");
            assert_eq!(event.path, "/api/data");
            assert_eq!(event.address, routable());
        },
        _ => panic!("expected a record effect"),
    }
    assert_eq!(span.attributes.len(), 1);
    assert_eq!(span.attributes[0].0, "country");
    assert_eq!(span.attributes[0].1, "FR");
    let eff = s.on_recorded(Ok(()));
    assert!(matches!(eff, Effect::Forward));
}

#[test]
fn failed_lookup_records_na_and_leaves_span_alone() {
    let c = RequestClassifier::with_default_extensions();
    let (mut s, _eff) = RequestSession::start(&c, String::from("/api/data"), routable());
    let mut span = SpanContext::new();
    let eff = s.on_lookup(Err(String::from("timeout")), &mut span);
    match eff {
        Effect::Record { event } => assert_eq!(event.country, "N/A"),
        _ => panic!("expected a record effect"),
    }
    assert_eq!(span.attributes.len(), 0);
    let eff = s.on_recorded(Ok(()));
    assert!(matches!(eff, Effect::Forward));
}

#[test]
fn sink_failure_is_swallowed_and_request_forwarded() {
    let c = RequestClassifier::with_default_extensions();
    let (mut s, _eff) = RequestSession::start(&c, String::from("/api/data"), loopback());
    let eff = s.on_recorded(Err(String::from("sink down")));
    assert!(matches!(eff, Effect::Forward));
}

#[test]
fn exactly_one_record_per_eligible_request() {
    let c = RequestClassifier::with_default_extensions();
    let mut span = SpanContext::new();
    let mut records: u32 = 0;
    let (mut s, eff) = RequestSession::start(&c, String::from("/api/data"), routable());
    if matches!(eff, Effect::Record { .. }) {
        records += 1;
    }
    let eff = s.on_lookup(Err(String::from("no route")), &mut span);
    if matches!(eff, Effect::Record { .. }) {
        records += 1;
    }
    let eff = s.on_recorded(Err(String::from("sink down")));
    if matches!(eff, Effect::Record { .. }) {
        records += 1;
    }
    assert!(matches!(eff, Effect::Forward));
    assert_eq!(records, 1);
}
