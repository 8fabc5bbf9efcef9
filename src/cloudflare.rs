//! The provider's REST surface: where each call goes and what it sends.

use vstd::prelude::*;
use crate::domain::fqdn_text;
use crate::models::{owner_tag, owner_tag_spec, RecordId, ZoneId};
use crate::reconcile::DesiredEntry;

verus! {

pub open spec fn zones_url_spec() -> Seq<char> {
    "https://api.cloudflare.com/client/v4/zones"@
}

pub open spec fn records_url_spec(zone: Seq<char>) -> Seq<char> {
    zones_url_spec() + "/"@ + zone + "/dns_records"@
}

pub open spec fn record_url_spec(zone: Seq<char>, record: Seq<char>) -> Seq<char> {
    records_url_spec(zone) + "/"@ + record
}

/// The address that lists all zones.
pub fn zones_url() -> (r: String)
    ensures
        r@ == zones_url_spec(),
{
    String::from_str("https://api.cloudflare.com/client/v4/zones")
}

/// The address of a zone's records: listed by `GET`, created by `POST`.
pub fn records_url(zone_id: &ZoneId) -> (r: String)
    ensures
        r@ == records_url_spec(zone_id.0@),
{
    let mut url = zones_url();
    url.append("/");
    url.append(zone_id.0.as_str());
    url.append("/dns_records");
    url
}

/// The address of one record: changed by `PATCH`, removed by `DELETE`.
pub fn record_url(zone_id: &ZoneId, record_id: &RecordId) -> (r: String)
    ensures
        r@ == record_url_spec(zone_id.0@, record_id.0@),
{
    let mut url = records_url(zone_id);
    url.append("/");
    url.append(record_id.0.as_str());
    url
}

/// The body of a creation.
#[derive(Debug)]
pub struct CreateRecord {
    pub content: String,
    pub name: String,
    pub proxied: bool,
    pub record_type: String,
    pub comment: String,
    pub id: String,
    pub tags: Vec<String>,
    pub zone_id: String,
}

/// The body of an update: only the mutable fields, so that tags and comment,
/// and with them the ownership marker, stay as they are.
#[derive(Debug)]
pub struct UpdateRecord {
    pub content: String,
    pub ttl: u32,
}

/// The body that creates `entry` in the zone, stamped as owned by
/// `managed_by`; this is where ownership is established.
pub fn create_record_body(zone_id: &ZoneId, managed_by: &str, entry: &DesiredEntry) -> (r: CreateRecord)
    ensures
        r.content@ == entry.rdata@,
        r.name@ == fqdn_text(entry.fqdn@),
        !r.proxied,
        r.record_type@ == entry.record_type@,
        r.comment@ == owner_tag_spec(managed_by@),
        r.id@.len() == 0,
        r.tags@.len() == 0,
        r.zone_id@ == zone_id.0@,
{
    CreateRecord {
        content: entry.rdata.clone(),
        name: entry.fqdn.to_text(),
        proxied: false,
        record_type: entry.record_type.clone(),
        comment: owner_tag(managed_by),
        id: String::new(),
        tags: Vec::new(),
        zone_id: zone_id.0.clone(),
    }
}

/// The body that gives a record the data and time to live of `entry`.
pub fn update_record_body(entry: &DesiredEntry) -> (r: UpdateRecord)
    ensures
        r.content@ == entry.rdata@,
        r.ttl == entry.ttl,
{
    UpdateRecord { content: entry.rdata.clone(), ttl: entry.ttl }
}

} // verus!
