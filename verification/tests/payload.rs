use ytune::payload::{snapshot_from_payload, update_version};

#[test]
fn snapshot_reads_fields() {
    let p = r#"{"title":"Song","artist":"A • B","playing":true,"liked":false,"currentTime":12.7,"thumbnail":"https://t"}"#;
    let s = snapshot_from_payload(p, 12).unwrap();
    assert_eq!(s.title, "Song");
    assert_eq!(s.artist, "A • B");
    assert!(s.playing);
    assert!(!s.liked);
    assert_eq!(s.position, 12);
    assert_eq!(s.thumbnail, "https://t");
}

#[test]
fn snapshot_defaults() {
    let s = snapshot_from_payload(r#"{"title":5,"playing":"yes","liked":true}"#, 0).unwrap();
    assert_eq!(s.title, "");
    assert_eq!(s.artist, "");
    assert!(!s.playing);
    assert!(s.liked);
    assert_eq!(s.thumbnail, "");
    let s = snapshot_from_payload("[1,2]", 3).unwrap();
    assert_eq!(s.title, "");
    assert_eq!(s.position, 3);
}

#[test]
fn snapshot_needs_json() {
    assert!(snapshot_from_payload("not json", 0).is_none());
    assert!(snapshot_from_payload("", 0).is_none());
}

#[test]
fn update_versions() {
    assert_eq!(update_version(r#"{"version":"1.2.3"}"#), "1.2.3");
    assert_eq!(update_version(r#"{"version":2}"#), "");
    assert_eq!(update_version("{}"), "");
    assert_eq!(update_version("garbage"), "");
}
