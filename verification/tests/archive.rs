use vessel_reports::archive::{entry_kind, resolve_archive_key, EntryKind};
use vessel_reports::event::object_location;
use vessel_reports::runtime_error::RuntimeError;

const CUSTOMER: &str = "00000000-0000-0000-0000-000000000000";
const VESSEL: &str = "00000000-0000-0000-0000-000000000001";

#[test]
fn archive_key_names_customer_and_vessel() {
    let key = format!("v1/SYNC/{CUSTOMER}/{VESSEL}/2024/export.zip");
    let (customer, vessel) = resolve_archive_key(&key).unwrap();
    assert_eq!(CUSTOMER, customer);
    assert_eq!(VESSEL, vessel);
}

#[test]
fn shortest_archive_key_is_accepted() {
    let key = format!("v1/SYNC/{CUSTOMER}/{VESSEL}/.zip");
    assert_eq!(86, key.len());
    assert!(resolve_archive_key(&key).is_some());
}

#[test]
fn identifiers_need_not_be_uuids_to_match() {
    let key = "v1/SYNC/------------------------------------/abcdefabcdefabcdefabcdefabcdefabcdef/x.zip";
    let (customer, vessel) = resolve_archive_key(key).unwrap();
    assert_eq!("------------------------------------", customer);
    assert_eq!("abcdefabcdefabcdefabcdefabcdefabcdef", vessel);
}

#[test]
fn other_keys_are_not_resolved() {
    let good = format!("v1/SYNC/{CUSTOMER}/{VESSEL}/export.zip");
    assert!(resolve_archive_key(&good).is_some());
    for key in [
        String::new(),
        "export.zip".to_string(),
        format!("v1/SYNC/{CUSTOMER}/{VESSEL}/export.zi"),
        format!("v1/SYNC/{CUSTOMER}/{VESSEL}/export.zip "),
        format!("v1/SYNC/{CUSTOMER}/{VESSEL}/export.ZIP"),
        format!("v1/SYNC/{CUSTOMER}/{VESSEL}/exportzip"),
        format!("v1/SYNC/{CUSTOMER}/{VESSEL}/a\nb.zip"),
        format!("v1/SYNC/{CUSTOMER}/{VESSEL}/export.zip\n"),
        format!("v1/SYNC/{CUSTOMER}/{VESSEL}"),
        format!("v1/SYNC/{CUSTOMER}/{VESSEL}.zip"),
        format!("v1/SYNC/{CUSTOMER}/{VESSEL}zip"),
        format!("v1/sync/{CUSTOMER}/{VESSEL}/export.zip"),
        format!("v2/SYNC/{CUSTOMER}/{VESSEL}/export.zip"),
        format!("/v1/SYNC/{CUSTOMER}/{VESSEL}/export.zip"),
        format!(" v1/SYNC/{CUSTOMER}/{VESSEL}/export.zip"),
        format!("v1/SYNC/{CUSTOMER}/{}/export.zip", VESSEL.to_uppercase().replace('0', "A")),
        format!("v1/SYNC/{CUSTOMER}/{}/export.zip", &VESSEL[1..]),
        format!("v1/SYNC/{CUSTOMER}0/{VESSEL}/export.zip"),
        format!("v1/SYNC/{}/{VESSEL}/export.zip", CUSTOMER.replace('-', "_")),
        format!("v1/SYNC/{}/{VESSEL}/export.zip", CUSTOMER.replace("00000000-", "g0000000-")),
        format!("v1/SYNC/{CUSTOMER}:{VESSEL}/export.zip"),
        format!("v1/SYNC/{CUSTOMER}/{VESSEL}\u{e9}/export.zip"),
    ] {
        assert!(resolve_archive_key(&key).is_none(), "{key:?}");
    }
}

#[test]
fn keys_are_resolved_as_the_pattern_says() {
    let pattern =
        lazy_regex::Regex::new("^v1/SYNC/([0-9a-f-]{36})/([0-9a-f-]{36})/.*\\.zip$").unwrap();
    let heads = ["v1/SYNC/", "v1/SYNC", "V1/SYNC/", "v1/SYNC//", ""];
    let segments = [
        CUSTOMER.to_string(),
        VESSEL.to_string(),
        "abcdef-abcdef-abcdef-abcdef-abcdef01".to_string(),
        "ABCDEF00-0000-0000-0000-000000000000".to_string(),
        "0000000-0000-0000-0000-000000000000".to_string(),
        "00000000-0000-0000-0000-0000000000000".to_string(),
        "0000000g-0000-0000-0000-000000000000".to_string(),
        "\u{e9}0000000-0000-0000-0000-00000000000".to_string(),
        "------------------------------------".to_string(),
    ];
    let tails = [
        "/a.zip", "/.zip", "/zip", ".zip", "/a.zip/", "/a/b/c.zip", "/a\n.zip", "/a.zip\n",
        "/\u{e9}.zip", "/a.zipp", "/a.zip.zip", "/a\r.zip", "/a.zi", "",
    ];
    let mut matched = 0;
    for head in heads {
        for first in &segments {
            for second in &segments {
                for tail in tails {
                    let key = format!("{head}{first}/{second}{tail}");
                    let expected = pattern.captures(&key).map(|found| {
                        (found[1].to_string(), found[2].to_string())
                    });
                    if expected.is_some() {
                        matched += 1;
                    }
                    assert_eq!(expected, resolve_archive_key(&key), "{key:?}");
                }
            }
        }
    }
    assert_eq!(96, matched);
}

#[test]
fn entries_are_told_apart_by_their_paths() {
    assert_eq!(EntryKind::Reports, entry_kind("data/reports.json"));
    assert_eq!(EntryKind::Directory, entry_kind("data/"));
    assert_eq!(EntryKind::Directory, entry_kind("/"));
    assert_eq!(EntryKind::Directory, entry_kind("data/reports.json/"));
    assert_eq!(EntryKind::Unknown, entry_kind(""));
    assert_eq!(EntryKind::Unknown, entry_kind("data/reports.jso"));
    assert_eq!(EntryKind::Unknown, entry_kind("Data/reports.json"));
    assert_eq!(EntryKind::Unknown, entry_kind("reports.json"));
    assert_eq!(EntryKind::Unknown, entry_kind("data/meta.json"));
    assert_eq!(EntryKind::Unknown, entry_kind("./data/reports.json"));
}

#[test]
fn location_takes_bucket_and_decoded_key() {
    let location =
        object_location(Some("bucket".to_string()), Some("v1/SYNC/a%20b%2Fc.zip".to_string()))
            .ok()
            .unwrap();
    assert_eq!("bucket", location.bucket_name);
    assert_eq!("v1/SYNC/a b/c.zip", location.object_key);
}

#[test]
fn location_keeps_a_plain_key_and_a_plus() {
    let location =
        object_location(Some("b".to_string()), Some("v1/SYNC/a+b.zip".to_string())).ok().unwrap();
    assert_eq!("v1/SYNC/a+b.zip", location.object_key);
    let short = object_location(Some("".to_string()), Some("100%".to_string())).ok().unwrap();
    assert_eq!("", short.bucket_name);
    assert_eq!("100%", short.object_key);
}

#[test]
fn location_decodes_utf8() {
    let location =
        object_location(Some("b".to_string()), Some("%C5%82%C3%B3d%C5%BA".to_string()))
            .ok()
            .unwrap();
    assert_eq!("\u{142}\u{f3}d\u{17a}", location.object_key);
}

#[test]
fn notification_without_bucket_or_key_is_malformed() {
    assert!(matches!(
        object_location(None, Some("key".to_string())),
        Err(RuntimeError::MalformedS3Event)
    ));
    assert!(matches!(
        object_location(Some("bucket".to_string()), None),
        Err(RuntimeError::MalformedS3Event)
    ));
    assert!(matches!(object_location(None, None), Err(RuntimeError::MalformedS3Event)));
}

#[test]
fn key_that_decodes_to_no_utf8_is_malformed() {
    assert!(matches!(
        object_location(Some("bucket".to_string()), Some("a%FFb".to_string())),
        Err(RuntimeError::MalformedS3Event)
    ));
    assert!(matches!(
        object_location(Some("bucket".to_string()), Some("%C5".to_string())),
        Err(RuntimeError::MalformedS3Event)
    ));
}
