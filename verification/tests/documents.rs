use opendal_demo::clock::{instant_text, stamped_path, FIRST_STAMP_SECS, LAST_STAMP_SECS};
use opendal_demo::json::{manifest_json, render_json};

#[test]
fn stamps_follow_chrono() {
    for secs in [
        0i64, 1725029869, 951782400, 253402300799, -62167219200, 1234567890, 4102444800,
        253402300800, -62167219201, -62135596800, -30000000000, -100000000000, 400000000000,
        -8334601228800, 8210266876799,
    ] {
        let expected = chrono::DateTime::from_timestamp(secs, 0).unwrap().format("%Y%m%d_%H%M%S").to_string();
        assert_eq!(
            stamped_path("copy-demo/backups/original_", secs, 0, ".txt").unwrap(),
            format!("copy-demo/backups/original_{}.txt", expected)
        );
    }
}

#[test]
fn stamp_example() {
    assert_eq!(stamped_path("complete/backup/backups/", 1725029869, 0, "/").unwrap(), "complete/backup/backups/20240830_145749/");
    assert_eq!(stamped_path("", 0, 0, "").unwrap(), "19700101_000000");
}

#[test]
fn rfc3339_follows_chrono() {
    for (secs, nanos) in [
        (0i64, 0u32), (1725029869, 123000000), (1725029869, 123456000), (1725029869, 123456789),
        (951782400, 5), (-62167219201, 999999999), (253402300800, 1000), (-8334601228800, 0),
        (8210266876799, 10000000),
    ] {
        let expected = chrono::DateTime::from_timestamp(secs, nanos).unwrap().to_rfc3339();
        assert_eq!(instant_text(secs, nanos).unwrap(), expected);
    }
    assert_eq!(instant_text(1725029869, 0).unwrap(), "2024-08-30T14:57:49+00:00");
}

#[test]
fn manifest_is_the_object() {
    let features: Vec<String> = ["upload", "download", "list", "delete"].iter().map(|s| s.to_string()).collect();
    let text = manifest_json("OpenDAL Demo", "1.0", &features, "2024-08-30T14:57:49+00:00");
    let value: serde_json::Value = serde_json::from_str(&text).unwrap();
    assert_eq!(value["name"], "OpenDAL Demo");
    assert_eq!(value["version"], "1.0");
    assert_eq!(value["timestamp"], "2024-08-30T14:57:49+00:00");
    assert_eq!(value["features"].as_array().unwrap().len(), 4);
    assert_eq!(value["features"][1], "download");
    assert_eq!(value.as_object().unwrap().len(), 4);
}

#[test]
fn downloaded_json_is_reprinted() {
    assert_eq!(render_json(br#"{"name":"test","value":123}"#).ok().unwrap(), r#"{"name":"test","value":123}"#);
    assert_eq!(render_json(b" [1, 2,\n 3 ] ").ok().unwrap(), "[1,2,3]");
    let err = render_json(b"{\"name\": ").err().unwrap();
    assert!(err.message.contains("line 1"));
    let expected = serde_json::from_slice::<serde_json::Value>(b"{\"name\": ").unwrap_err().to_string();
    assert_eq!(err.message, expected);
    assert!(render_json(b"").is_err());
}

#[test]
fn stamp_range_ends() {
    assert!(chrono::DateTime::from_timestamp(FIRST_STAMP_SECS, 0).is_some());
    assert!(chrono::DateTime::from_timestamp(FIRST_STAMP_SECS - 1, 0).is_none());
    assert!(chrono::DateTime::from_timestamp(LAST_STAMP_SECS, 999999999).is_some());
    assert!(chrono::DateTime::from_timestamp(LAST_STAMP_SECS + 1, 0).is_none());
    assert_eq!(stamped_path("", -62167219201, 0, "").unwrap(), "-00011231_235959");
    assert_eq!(stamped_path("", 253402300800, 0, "").unwrap(), "+100000101_000000");
}
