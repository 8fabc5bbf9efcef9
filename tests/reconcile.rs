use kubizone_cloudflare::catalog::{LookupError, ZoneCatalog};
use kubizone_cloudflare::cloudflare::{create_record_body, record_url, records_url, update_record_body, zones_url};
use kubizone_cloudflare::domain::{Fqdn, NameError};
use kubizone_cloudflare::models::{
    owner_tag, ApiError, ApiResult, EnvelopeError, Message, Mode, Record, RecordId, Zone, ZoneId,
};
use kubizone_cloudflare::reconcile::{is_soa, plan_reconcile, DesiredEntry, Operation};

const OWNER: &str = "kz";

fn record(id: &str, name: &str, rtype: &str, rdata: &str, ttl: u32, comment: Option<&str>, tags: &[&str]) -> Record {
    Record::from_parts(
        id.to_string(),
        name,
        rtype.to_string(),
        rdata.to_string(),
        comment.map(|c| c.to_string()),
        tags.iter().map(|t| t.to_string()).collect(),
        ttl,
    )
    .unwrap()
}

fn entry(name: &str, rtype: &str, rdata: &str, ttl: u32) -> DesiredEntry {
    DesiredEntry {
        fqdn: Fqdn::parse(name).unwrap(),
        record_type: rtype.to_string(),
        rdata: rdata.to_string(),
        ttl,
    }
}

fn owned_a_record() -> Record {
    record("1", "a.example.com", "A", "1.2.3.4", 300, Some("managed-by:kz"), &[])
}

#[test]
fn parse() {
    let value: serde_json::Value = serde_json::from_str(
        r#"{
            "result": {
                "content": "127.0.0.1",
                "name": "kubi.zone",
                "ttl": 300,
                "type": "A",
                "id": "023e105f4ecef8ad9ca31a8372d0c353",
                "tags": []
            },
            "success": true,
            "errors": [],
            "messages": []
        }"#,
    )
    .unwrap();
    let result = &value["result"];
    let rec = Record::from_parts(
        result["id"].as_str().unwrap().to_string(),
        result["name"].as_str().unwrap(),
        result["type"].as_str().unwrap().to_string(),
        result["content"].as_str().unwrap().to_string(),
        result["comment"].as_str().map(|c| c.to_string()),
        result["tags"].as_array().unwrap().iter().map(|t| t.as_str().unwrap().to_string()).collect(),
        result["ttl"].as_u64().unwrap() as u32,
    )
    .unwrap();
    let envelope =
        ApiResult::from_envelope(value["success"].as_bool().unwrap(), Some(rec), vec![], vec![]).unwrap();
    let rec = envelope.into_result().unwrap();
    assert_eq!(rec.id.as_str(), "023e105f4ecef8ad9ca31a8372d0c353");
    assert_eq!(rec.fqdn.labels, vec!["kubi".to_string(), "zone".to_string()]);
    assert_eq!(rec.ttl, 300);
    assert_eq!(rec.rdata, "127.0.0.1");
}

#[test]
fn ttl_change_gives_one_update() {
    let actual = vec![owned_a_record()];
    let desired = vec![entry("a.example.com", "A", "1.2.3.4", 600)];
    for mode in [Mode::Upsert, Mode::Delete] {
        let ops = plan_reconcile(&actual, &desired, mode, OWNER);
        assert_eq!(ops, vec![Operation::Update { record: 0, entry: 0 }]);
    }
    let body = update_record_body(&desired[0]);
    assert_eq!(body.content, "1.2.3.4");
    assert_eq!(body.ttl, 600);
    let url = record_url(&ZoneId("zone".to_string()), &actual[0].id);
    assert_eq!(url, "https://api.cloudflare.com/client/v4/zones/zone/dns_records/1");
}

#[test]
fn orphan_kept_in_upsert_mode() {
    let actual = vec![owned_a_record()];
    assert!(plan_reconcile(&actual, &vec![], Mode::Upsert, OWNER).is_empty());
}

#[test]
fn orphan_deleted_in_delete_mode() {
    let actual = vec![owned_a_record()];
    let ops = plan_reconcile(&actual, &vec![], Mode::Delete, OWNER);
    assert_eq!(ops, vec![Operation::Delete { record: 0 }]);
    assert_eq!(actual[0].id.as_str(), "1");
}

#[test]
fn hand_managed_record_untouched() {
    let actual = vec![record("1", "a.example.com", "A", "1.2.3.4", 300, Some("hand-managed"), &[])];
    assert!(plan_reconcile(&actual, &vec![], Mode::Delete, OWNER).is_empty());
    let desired = vec![entry("a.example.com", "A", "1.2.3.4", 600)];
    assert!(plan_reconcile(&actual, &desired, Mode::Delete, OWNER).is_empty());
}

#[test]
fn missing_entry_created_with_owner_marker() {
    let actual = vec![owned_a_record()];
    let desired = vec![entry("a.example.com", "A", "1.2.3.4", 300), entry("b.example.com", "A", "5.6.7.8", 300)];
    let ops = plan_reconcile(&actual, &desired, Mode::Upsert, OWNER);
    assert_eq!(ops, vec![Operation::Create { entry: 1 }]);
    let zone = ZoneId("zone".to_string());
    let body = create_record_body(&zone, OWNER, &desired[1]);
    assert_eq!(body.comment, "managed-by:kz");
    assert_eq!(body.name, "b.example.com.");
    assert_eq!(body.content, "5.6.7.8");
    assert_eq!(body.record_type, "A");
    assert!(!body.proxied);
    assert!(body.tags.is_empty());
    assert_eq!(body.id, "");
    assert_eq!(body.zone_id, "zone");
}

#[test]
fn converged_zone_needs_no_calls() {
    let actual = vec![
        owned_a_record(),
        record("2", "b.example.com", "TXT", "hello", 60, None, &["managed-by:kz"]),
    ];
    let desired = vec![entry("b.example.com", "TXT", "hello", 60), entry("a.example.com", "A", "1.2.3.4", 300)];
    assert!(plan_reconcile(&actual, &desired, Mode::Delete, OWNER).is_empty());
    assert!(plan_reconcile(&actual, &desired, Mode::Upsert, OWNER).is_empty());
}

#[test]
fn duplicate_desired_identity_created_once() {
    let desired = vec![
        entry("b.example.com", "A", "5.6.7.8", 300),
        entry("b.example.com", "A", "5.6.7.8", 900),
    ];
    let ops = plan_reconcile(&vec![], &desired, Mode::Upsert, OWNER);
    assert_eq!(ops, vec![Operation::Create { entry: 1 }]);
}

#[test]
fn soa_entries_are_ignored() {
    let desired = vec![entry("example.com", "SOA", "ns. admin. 1 2 3 4 5", 300)];
    assert!(plan_reconcile(&vec![], &desired, Mode::Delete, OWNER).is_empty());
    assert!(is_soa(&"SOA".to_string()));
    assert!(!is_soa(&"A".to_string()));
}

#[test]
fn new_data_is_a_create_and_a_delete() {
    let actual = vec![owned_a_record()];
    let desired = vec![entry("a.example.com", "A", "9.9.9.9", 300)];
    let ops = plan_reconcile(&actual, &desired, Mode::Delete, OWNER);
    assert_eq!(ops, vec![Operation::Create { entry: 0 }, Operation::Delete { record: 0 }]);
}

#[test]
fn duplicate_actual_identity_last_wins() {
    let actual = vec![
        record("1", "a.example.com", "A", "1.2.3.4", 300, Some("managed-by:kz"), &[]),
        record("2", "a.example.com", "A", "1.2.3.4", 100, Some("managed-by:kz"), &[]),
    ];
    let desired = vec![entry("a.example.com", "A", "1.2.3.4", 300)];
    let ops = plan_reconcile(&actual, &desired, Mode::Delete, OWNER);
    assert_eq!(ops, vec![Operation::Update { record: 1, entry: 0 }]);
}

#[test]
fn ownership_by_tag_or_comment() {
    assert!(record("1", "a.b", "A", "x", 1, None, &["other", "managed-by:kz"]).is_managed_by(OWNER));
    assert!(record("1", "a.b", "A", "x", 1, Some("managed-by:kz"), &[]).is_managed_by(OWNER));
    assert!(!record("1", "a.b", "A", "x", 1, Some("managed-by:kzz"), &["managed-by:k"]).is_managed_by(OWNER));
    assert!(!record("1", "a.b", "A", "x", 1, None, &[]).is_managed_by(OWNER));
    assert_eq!(owner_tag("kubizone-cloudflare"), "managed-by:kubizone-cloudflare");
}

#[test]
fn envelope_into_result() {
    let ok: ApiResult<u32> = ApiResult::from_envelope(
        true,
        Some(7),
        vec![],
        vec![Message { code: 1, message: "note".to_string() }],
    )
    .unwrap();
    assert_eq!(ok.into_result().unwrap(), 7);
    let err: ApiResult<u32> = ApiResult::from_envelope(
        false,
        None,
        vec![
            ApiError { code: 1000, message: "first".to_string() },
            ApiError { code: 1001, message: "last".to_string() },
        ],
        vec![],
    )
    .unwrap();
    let e = err.into_result().unwrap_err();
    assert_eq!(e.code, 1001);
    assert_eq!(e.message, "last");
}

#[test]
fn malformed_envelopes_are_refused() {
    let missing = ApiResult::<u32>::from_envelope(true, None, vec![], vec![]);
    assert_eq!(missing.unwrap_err(), EnvelopeError::MissingResult);
    let no_errors = ApiResult::<u32>::from_envelope(false, Some(3), vec![], vec![]);
    assert_eq!(no_errors.unwrap_err(), EnvelopeError::MissingErrors);
}

#[test]
fn names_are_validated_and_normalised() {
    let f = Fqdn::parse("Kubi.Zone").unwrap();
    assert_eq!(f.labels, vec!["kubi".to_string(), "zone".to_string()]);
    assert_eq!(f.to_text(), "kubi.zone.");
    assert_eq!(Fqdn::parse("a..b").unwrap_err(), NameError::InvalidLabel);
    assert_eq!(Fqdn::parse("a.example.com.").unwrap_err(), NameError::InvalidLabel);
    assert_eq!(Fqdn::parse("bad label.com").unwrap_err(), NameError::InvalidLabel);
    assert!(Fqdn::parse("a.example.com").unwrap().same_as(&Fqdn::parse("A.EXAMPLE.com").unwrap()));
    assert!(!Fqdn::parse("a.example.com").unwrap().same_as(&Fqdn::parse("example.com").unwrap()));
    assert!(Record::from_parts("1".to_string(), "-x.com", "A".to_string(), "x".to_string(), None, vec![], 1).is_err());
}

#[test]
fn zone_lookup_is_exact() {
    let catalog = ZoneCatalog::new(vec![
        Zone::from_parts("z1".to_string(), "example.com").unwrap(),
        Zone::from_parts("z2".to_string(), "example.org").unwrap(),
    ]);
    let found = catalog.find_cloudflare_zone(&Fqdn::parse("example.org").unwrap()).unwrap();
    assert_eq!(found.id.as_str(), "z2");
    let sub = catalog.find_cloudflare_zone(&Fqdn::parse("a.example.com").unwrap());
    assert_eq!(sub.unwrap_err(), LookupError::ZoneNotFound);
    assert!(Zone::from_parts("z3".to_string(), "").is_err());
}

#[test]
fn provider_addresses() {
    let zone = ZoneId("abc".to_string());
    assert_eq!(zones_url(), "https://api.cloudflare.com/client/v4/zones");
    assert_eq!(records_url(&zone), "https://api.cloudflare.com/client/v4/zones/abc/dns_records");
    assert_eq!(
        record_url(&zone, &RecordId("r9".to_string())),
        "https://api.cloudflare.com/client/v4/zones/abc/dns_records/r9"
    );
}

#[test]
fn default_mode_is_upsert() {
    assert_eq!(Mode::default(), Mode::Upsert);
}
