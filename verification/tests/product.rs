use java_service_steward::telemetry::{Event, EventKind};
use java_service_steward::{
    foreign_name_markers, product_banner, version_text, PRODUCT_DESCRIPTION, PRODUCT_NAME,
    PRODUCT_VERSION,
};

#[test]
fn product_identity_is_stable() {
    assert_eq!(PRODUCT_NAME, "Java Service Steward");
    assert_eq!(
        PRODUCT_DESCRIPTION,
        "Runs, controls, and monitors Java applications as Windows services."
    );
}

#[test]
fn version_text_names_no_third_party_product_or_version() {
    let text = version_text();
    assert_eq!(text.lines().count(), 3);
    assert!(text.starts_with(&product_banner()));
    for forbidden in foreign_name_markers().iter().chain(&["Copyright"]) {
        assert!(
            !text.contains(forbidden),
            "version text must not contain {forbidden}"
        );
    }
}

#[test]
fn the_banner_names_the_product_architecture_and_version() {
    let expected = format!("Java Service Steward 64-bit {PRODUCT_VERSION}");
    assert_eq!(product_banner(), expected);
    assert_eq!(
        version_text(),
        format!("{expected}\nRuns, controls, and monitors Java applications as Windows services.\nReads wrapper.conf-style configuration files.\n")
    );
}

#[test]
fn events_keep_their_kind() {
    let event = Event::new(EventKind::JvmStarted { id: 2, pid: 77 });
    assert_eq!(event.kind, EventKind::JvmStarted { id: 2, pid: 77 });
}
