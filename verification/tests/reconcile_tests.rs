use cbzmaker::reconcile::{reconcile_details, MetadataSource};

#[test]
fn existing_record_is_kept_byte_for_byte() {
    let original = b"{ \"title\": \"kept exactly\",\n\t\"odd\": [1, 2, 3] }".to_vec();
    let out = reconcile_details(MetadataSource::Found(original.clone()), "Foo").unwrap();
    assert_eq!(out, original);
}

#[test]
fn absent_record_synthesizes_from_the_title() {
    let out = reconcile_details(MetadataSource::Absent, "Foo").unwrap();
    let v: serde_json::Value = serde_json::from_slice(&out).unwrap();
    assert_eq!(v["title"].as_str(), Some("Foo"));
    assert_eq!(v["status"].as_str(), Some("0"));
    assert_eq!(v["genre"].as_array().unwrap().len(), 0);
}

#[test]
fn synthesis_is_idempotent() {
    let first = reconcile_details(MetadataSource::Absent, "Foo").unwrap();
    let second = reconcile_details(MetadataSource::Absent, "Foo").unwrap();
    assert_eq!(first, second);
}

#[test]
fn unreadable_record_fails_the_metadata_step() {
    assert!(reconcile_details(MetadataSource::Unreadable, "Foo").is_err());
}
