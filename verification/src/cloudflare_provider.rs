//! The Cloudflare backend: the requests of its API, what its answers mean,
//! and how its listings bring remote zones and records under tracking.

use crate::config::{
    lemma_zone_position, records_view, well_formed, zone_position, zones_view, Config,
    ConfigView, Domain, DomainView, Record, RecordType, RecordView,
};
use crate::dns_provider::{
    address_kind, first_match, import_into, is_place, lemma_merge_identified, merge_records,
    record_at, record_places, requests_view, tracks_id, zone_ids_of, zone_records, ApiRequest,
    ApiRequestView, DnsProvider, DomainDetails, DomainDetailsView, HttpMethod, RecordBody,
    RecordBodyView,
};
use crate::error::{clone_texts, texts_view, DnsError, DnsErrorView};
use crate::seq_util::{lemma_first_index_at, lemma_first_index_none};
use crate::text::{has_name_prefix, join, names_prefix, same_text};
use vstd::prelude::*;
use vstd::string::*;

verus! {

/// Root of the provider's API.
pub const CLOUDFLARE_API_URL: &'static str = "https://api.cloudflare.com/client/v4";

/// A zone as the provider lists it.
#[derive(Debug, PartialEq, Eq)]
pub struct Zone {
    pub id: String,
    pub name: String,
}

/// A listed zone as a mathematical value.
pub struct ZoneView {
    pub id: Seq<char>,
    pub name: Seq<char>,
}

impl View for Zone {
    type V = ZoneView;

    open spec fn view(&self) -> ZoneView {
        ZoneView { id: self.id@, name: self.name@ }
    }
}

/// The listed zones, each by its view.
pub open spec fn listed_zones_view(zones: Seq<Zone>) -> Seq<ZoneView> {
    zones.map_values(|z: Zone| z@)
}

/// Answer to a listing of zones.
#[derive(Debug, PartialEq, Eq)]
pub struct ZoneResponse {
    pub result: Option<Vec<Zone>>,
    pub success: bool,
    pub errors: Vec<String>,
    pub messages: Vec<String>,
}

/// A record as the provider reports it.
#[derive(Debug, PartialEq, Eq)]
pub struct DnsRecord {
    pub id: String,
    pub name: String,
    pub type_field: String,
    pub content: String,
    pub proxiable: bool,
    pub proxied: bool,
    pub ttl: i64,
    pub comment: String,
    pub tags: Vec<String>,
    pub created_on: String,
    pub modified_on: String,
}

/// A reported record as a mathematical value.
pub struct DnsRecordView {
    pub id: Seq<char>,
    pub name: Seq<char>,
    pub type_field: Seq<char>,
    pub content: Seq<char>,
    pub proxiable: bool,
    pub proxied: bool,
    pub ttl: i64,
    pub comment: Seq<char>,
    pub tags: Seq<Seq<char>>,
    pub created_on: Seq<char>,
    pub modified_on: Seq<char>,
}

impl View for DnsRecord {
    type V = DnsRecordView;

    open spec fn view(&self) -> DnsRecordView {
        DnsRecordView {
            id: self.id@,
            name: self.name@,
            type_field: self.type_field@,
            content: self.content@,
            proxiable: self.proxiable,
            proxied: self.proxied,
            ttl: self.ttl,
            comment: self.comment@,
            tags: texts_view(self.tags@),
            created_on: self.created_on@,
            modified_on: self.modified_on@,
        }
    }
}

/// The reported records, each by its view.
pub open spec fn reported_view(records: Seq<DnsRecord>) -> Seq<DnsRecordView> {
    records.map_values(|r: DnsRecord| r@)
}

/// Answer to a listing of records.
#[derive(Debug, PartialEq, Eq)]
pub struct DNSListResponse {
    pub result: Option<Vec<DnsRecord>>,
    pub success: bool,
    pub errors: Vec<String>,
    pub messages: Vec<String>,
}

/// Answer to a request that creates or fetches one record.
#[derive(Debug, PartialEq, Eq)]
pub struct DNSCreateResponse {
    pub result: Option<DnsRecord>,
    pub success: bool,
    pub errors: Vec<String>,
    pub messages: Vec<String>,
}

/// Answer to a request that changes or deletes one record.
#[derive(Debug, PartialEq, Eq)]
pub struct UpdateResponse {
    pub success: bool,
    pub errors: Vec<String>,
}

/// The details that a reported record gives.
pub open spec fn details_of(record: DnsRecordView) -> DomainDetailsView {
    DomainDetailsView {
        name: record.name,
        record_type: record.type_field,
        content: record.content,
        proxied: record.proxied,
        ttl: record.ttl as u32,
        modified_on: Some(record.modified_on),
    }
}

/// The failure that stands for an answer of status `status` that reported
/// `errors`.
pub open spec fn rejection(status: u16, errors: Seq<String>) -> DnsErrorView {
    DnsErrorView::Provider { status, errors: texts_view(errors) }
}

fn reject(status: u16, errors: &Vec<String>) -> (error: DnsError)
    ensures
        error@ == rejection(status, errors@),
{
    DnsError::Provider { status, errors: clone_texts(errors) }
}

fn is_http_success(status: u16) -> (yes: bool)
    ensures
        yes == http_success(status),
{
    200 <= status && status < 300
}

impl ZoneResponse {
    /// The answer came with a 2xx status, reports success and lists zones.
    pub open spec fn accepted(&self, status: u16) -> bool {
        http_success(status) && self.success && self.result is Some
    }

    /// The zones that the answer lists, or the failure that it reports.
    pub fn zones(&self, status: u16) -> (listed: Result<&Vec<Zone>, DnsError>)
        ensures
            match listed {
                Ok(zones) => self.accepted(status) && Some(*zones) == self.result,
                Err(e) => !self.accepted(status) && e@ == rejection(status, self.errors@),
            },
    {
        if is_http_success(status) && self.success {
            if let Some(zones) = &self.result {
                return Ok(zones);
            }
        }
        Err(reject(status, &self.errors))
    }
}

impl DNSListResponse {
    /// The answer came with a 2xx status, reports success and lists records.
    pub open spec fn accepted(&self, status: u16) -> bool {
        http_success(status) && self.success && self.result is Some
    }

    /// The records that the answer lists, or the failure that it reports.
    pub fn records(&self, status: u16) -> (listed: Result<&Vec<DnsRecord>, DnsError>)
        ensures
            match listed {
                Ok(records) => self.accepted(status) && Some(*records) == self.result,
                Err(e) => !self.accepted(status) && e@ == rejection(status, self.errors@),
            },
    {
        if is_http_success(status) && self.success {
            if let Some(records) = &self.result {
                return Ok(records);
            }
        }
        Err(reject(status, &self.errors))
    }
}

impl DNSCreateResponse {
    /// The answer came with a 2xx status, reports success and holds a record.
    pub open spec fn accepted(&self, status: u16) -> bool {
        http_success(status) && self.success && self.result is Some
    }

    /// The answer is accepted, and the record that it holds has an identity.
    pub open spec fn names_record(&self, status: u16) -> bool {
        self.accepted(status) && self.result->0@.id.len() > 0
    }

    /// The identity that the provider gave the record it created, or the
    /// failure that it reports. An answer without an identity is a failure.
    pub fn record_id(&self, status: u16) -> (id: Result<String, DnsError>)
        ensures
            match id {
                Ok(text) => self.names_record(status) && text@ == self.result->0@.id,
                Err(e) => !self.names_record(status) && e@ == rejection(status, self.errors@),
            },
    {
        if is_http_success(status) && self.success {
            if let Some(record) = &self.result {
                if !record.id.as_str().is_empty() {
                    return Ok(record.id.clone());
                }
            }
        }
        Err(reject(status, &self.errors))
    }

    /// The live state of the record that the answer holds, or the failure
    /// that it reports.
    pub fn details(&self, status: u16) -> (details: Result<DomainDetails, DnsError>)
        ensures
            match details {
                Ok(d) => self.accepted(status) && d@ == details_of(self.result->0@),
                Err(e) => !self.accepted(status) && e@ == rejection(status, self.errors@),
            },
    {
        if is_http_success(status) && self.success {
            if let Some(record) = &self.result {
                return Ok(
                    DomainDetails {
                        name: record.name.clone(),
                        record_type: record.type_field.clone(),
                        content: record.content.clone(),
                        proxied: record.proxied,
                        ttl: #[verifier::truncate]
                        (record.ttl as u32),
                        modified_on: Some(record.modified_on.clone()),
                    },
                );
            }
        }
        Err(reject(status, &self.errors))
    }
}

impl UpdateResponse {
    /// The answer came with a 2xx status and reports success.
    pub open spec fn accepted(&self, status: u16) -> bool {
        http_success(status) && self.success
    }

    /// Nothing where the provider did as it was asked, else the failure that
    /// it reports.
    pub fn outcome(&self, status: u16) -> (outcome: Result<(), DnsError>)
        ensures
            match outcome {
                Ok(_) => self.accepted(status),
                Err(e) => !self.accepted(status) && e@ == rejection(status, self.errors@),
            },
    {
        if is_http_success(status) && self.success {
            Ok(())
        } else {
            Err(reject(status, &self.errors))
        }
    }
}

/// The status is one of the 2xx family.
pub open spec fn http_success(status: u16) -> bool {
    200 <= status < 300
}

/// The value of the authorization header for `token`.
pub open spec fn bearer(token: Seq<char>) -> Seq<char> {
    "Bearer "@ + token
}

/// Where the zones are listed.
pub open spec fn zones_url() -> Seq<char> {
    CLOUDFLARE_API_URL@ + "/zones"@
}

/// Where the records of a zone are created.
pub open spec fn zone_records_url(zone_id: Seq<char>) -> Seq<char> {
    CLOUDFLARE_API_URL@ + "/zones/"@ + zone_id + "/dns_records"@
}

/// Where one record of a zone is read, changed and deleted.
pub open spec fn record_url(zone_id: Seq<char>, record_id: Seq<char>) -> Seq<char> {
    zone_records_url(zone_id) + "/"@ + record_id
}

/// Where the records of a zone that point at `ip` are listed.
pub open spec fn matching_records_url(zone_id: Seq<char>, ip: Seq<char>) -> Seq<char> {
    zone_records_url(zone_id) + "?content="@ + ip
}

/// What a request carries for `record` pointed at `ip`.
pub open spec fn record_body(
    record: RecordView,
    ip: Seq<char>,
    proxied: Option<bool>,
) -> RecordBodyView {
    RecordBodyView {
        record_type: record.record_type.name(),
        name: record.name,
        content: ip,
        proxied,
    }
}

/// The request that points `record` of zone `zone_id` at `ip`.
pub open spec fn update_request(
    token: Seq<char>,
    zone_id: Seq<char>,
    record: RecordView,
    ip: Seq<char>,
) -> ApiRequestView {
    ApiRequestView {
        method: HttpMethod::Patch,
        url: record_url(zone_id, record.id),
        authorization: bearer(token),
        body: Some(record_body(record, ip, None)),
    }
}

/// The request that creates `record` in zone `zone_id`, pointed at `ip` and
/// proxied.
pub open spec fn create_request(
    token: Seq<char>,
    zone_id: Seq<char>,
    record: RecordView,
    ip: Seq<char>,
) -> ApiRequestView {
    ApiRequestView {
        method: HttpMethod::Post,
        url: zone_records_url(zone_id),
        authorization: bearer(token),
        body: Some(record_body(record, ip, Some(true))),
    }
}

/// The request without a body that goes to `url` by `method`.
pub open spec fn plain_request(
    method: HttpMethod,
    token: Seq<char>,
    url: Seq<char>,
) -> ApiRequestView {
    ApiRequestView { method, url, authorization: bearer(token), body: None }
}

/// The zones after the listed zone `zone` was looked at: a zone that is held
/// takes the listed name, one that is not held is added, without records,
/// where that was approved.
pub open spec fn synced(
    zones: Seq<(Seq<char>, DomainView)>,
    zone: ZoneView,
    approved: bool,
) -> Seq<(Seq<char>, DomainView)> {
    let z = zone_position(zones, zone.id);
    if z >= 0 {
        zones.update(z, (zones[z].0, DomainView { records: zones[z].1.records, domain: zone.name }))
    } else if approved {
        zones.push((zone.id, DomainView { records: seq![], domain: zone.name }))
    } else {
        zones
    }
}

/// Looking at a listed zone leaves the records alone: every zone that was
/// held stays in its place, under its identity and with its records.
pub proof fn lemma_sync_keeps_records(
    zones: Seq<(Seq<char>, DomainView)>,
    zone: ZoneView,
    approved: bool,
)
    ensures
        synced(zones, zone, approved).len() >= zones.len(),
        forall|j: int|
            0 <= j < zones.len() ==> (#[trigger] synced(zones, zone, approved)[j]).0 == zones[j].0
                && synced(zones, zone, approved)[j].1.records == zones[j].1.records,
{
    lemma_zone_position(zones, zone.id);
}

/// The answer on the listed zone at position `k`: what `approved` holds
/// there, and no where it holds nothing.
pub open spec fn approval(approved: Seq<bool>, k: int) -> bool {
    0 <= k < approved.len() && approved[k]
}

/// The zones after the listed zones were looked at one after the other, with
/// `approval(approved, k)` for the answer on `listed[k]`.
pub open spec fn synced_all(
    zones: Seq<(Seq<char>, DomainView)>,
    listed: Seq<ZoneView>,
    approved: Seq<bool>,
) -> Seq<(Seq<char>, DomainView)>
    decreases listed.len(),
{
    if listed.len() == 0 {
        zones
    } else {
        synced(
            synced_all(zones, listed.drop_last(), approved),
            listed.last(),
            approval(approved, listed.len() - 1),
        )
    }
}

/// The Cloudflare backend over the tracked state it was made with.
#[derive(Debug, PartialEq, Eq)]
pub struct CloudflareProvider {
    config: Config,
}

impl View for CloudflareProvider {
    type V = ConfigView;

    closed spec fn view(&self) -> ConfigView {
        self.config@
    }
}

impl CloudflareProvider {
    /// The provider's tracked state is well formed.
    pub open spec fn wf(&self) -> bool {
        well_formed(self@.cloudflare_config.domains)
    }

    /// The backend over the tracked state `config`.
    pub fn new(config: Config) -> (provider: Self)
        ensures
            provider@ == config@,
    {
        CloudflareProvider { config }
    }

    /// The tracked state as the provider holds it.
    pub fn config(&self) -> (config: &Config)
        ensures
            config@ == self@,
    {
        &self.config
    }

    /// Whether the credential is still to be asked for.
    pub fn needs_token(&self) -> (missing: bool)
        ensures
            missing == (self@.cloudflare_config.api_token.len() == 0),
    {
        self.config.cloudflare_config.api_token.as_str().unicode_len() == 0
    }

    /// Takes `token` for the credential.
    pub fn set_token(&mut self, token: String)
        ensures
            final(self)@.cloudflare_config.api_token == token@,
            final(self)@.cloudflare_config.domains == old(self)@.cloudflare_config.domains,
            final(self)@.webhooks == old(self)@.webhooks,
    {
        self.config.cloudflare_config.api_token = token;
    }

    fn authorization(&self) -> (value: String)
        ensures
            value@ == bearer(self@.cloudflare_config.api_token),
    {
        join("Bearer ", self.config.cloudflare_config.api_token.as_str())
    }

    fn zone_records_address(zone_id: &str) -> (url: String)
        ensures
            url@ == zone_records_url(zone_id@),
    {
        let mut url = join(CLOUDFLARE_API_URL, "/zones/");
        url.append(zone_id);
        url.append("/dns_records");
        url
    }

    fn record_address(zone_id: &str, record_id: &str) -> (url: String)
        ensures
            url@ == record_url(zone_id@, record_id@),
    {
        let mut url = Self::zone_records_address(zone_id);
        url.append("/");
        url.append(record_id);
        url
    }

    fn body_of(record: &Record, ip: &str, proxied: Option<bool>) -> (body: RecordBody)
        ensures
            body@ == record_body(record@, ip@, proxied),
    {
        RecordBody {
            record_type: record.record_type.to_string(),
            name: record.name.clone(),
            content: ip.to_owned(),
            proxied,
        }
    }

    /// The request that lists the zones of the account.
    pub fn zones_request(&self) -> (request: ApiRequest)
        ensures
            request@ == plain_request(
                HttpMethod::Get,
                self@.cloudflare_config.api_token,
                zones_url(),
            ),
    {
        ApiRequest {
            method: HttpMethod::Get,
            url: join(CLOUDFLARE_API_URL, "/zones"),
            authorization: self.authorization(),
            body: None,
        }
    }

    /// The request that points `record` of zone `zone_id` at `ip`.
    pub fn update_ip(&self, ip: &str, record: &Record, zone_id: &str) -> (request: ApiRequest)
        ensures
            request@ == update_request(
                self@.cloudflare_config.api_token,
                zone_id@,
                record@,
                ip@,
            ),
    {
        ApiRequest {
            method: HttpMethod::Patch,
            url: Self::record_address(zone_id, record.id.as_str()),
            authorization: self.authorization(),
            body: Some(Self::body_of(record, ip, None)),
        }
    }

    /// The requests that list, for each zone, the records that point at `ip`.
    pub fn import_requests(&self, ip: &str) -> (requests: Vec<ApiRequest>)
        ensures
            requests_view(requests@) == self@.cloudflare_config.domains.map_values(
                |z: (Seq<char>, DomainView)|
                    plain_request(
                        HttpMethod::Get,
                        self@.cloudflare_config.api_token,
                        matching_records_url(z.0, ip@),
                    ),
            ),
    {
        let zones = &self.config.cloudflare_config.domains;
        let ghost token = self@.cloudflare_config.api_token;
        let mut requests: Vec<ApiRequest> = Vec::new();
        let mut z: usize = 0;
        while z < zones.len()
            invariant
                z <= zones.len(),
                zones == &self.config.cloudflare_config.domains,
                token == self@.cloudflare_config.api_token,
                requests@.len() == z,
                forall|k: int|
                    0 <= k < z ==> (#[trigger] requests@[k])@ == plain_request(
                        HttpMethod::Get,
                        token,
                        matching_records_url(zones@[k].0@, ip@),
                    ),
            decreases zones.len() - z,
        {
            let mut url = Self::zone_records_address(zones[z].0.as_str());
            url.append("?content=");
            url.append(ip);
            requests.push(
                ApiRequest {
                    method: HttpMethod::Get,
                    url,
                    authorization: self.authorization(),
                    body: None,
                },
            );
            z = z + 1;
        }
        proof {
            assert(requests_view(requests@) =~= self@.cloudflare_config.domains.map_values(
                |z: (Seq<char>, DomainView)|
                    plain_request(HttpMethod::Get, token, matching_records_url(z.0, ip@)),
            ));
        }
        requests
    }

    /// Position of the zone with identity `id`.
    pub fn find_zone(&self, id: &str) -> (found: Option<usize>)
        ensures
            match found {
                Some(z) => z == zone_position(self@.cloudflare_config.domains, id@),
                None => zone_position(self@.cloudflare_config.domains, id@) == -1,
            },
    {
        self.config.cloudflare_config.find_zone(id)
    }
}

/// The kind of record that `record` is taken in as, where it is an address
/// record that points at `ip`.
fn address_kind_of(record: &DnsRecord, ip: &str) -> (kind: Option<RecordType>)
    ensures
        kind == address_kind(record@, ip@),
{
    if !same_text(record.content.as_str(), ip) {
        None
    } else if same_text(record.type_field.as_str(), "A") {
        Some(RecordType::A)
    } else if same_text(record.type_field.as_str(), "AAAA") {
        Some(RecordType::AAA)
    } else {
        None
    }
}

/// Whether one of `records` has the provider identity `id`.
fn holds_id(records: &Vec<Record>, id: &str) -> (held: bool)
    ensures
        held == tracks_id(records_view(records@), id@),
{
    let mut k: usize = 0;
    while k < records.len()
        invariant
            k <= records.len(),
            forall|j: int| 0 <= j < k ==> (#[trigger] records_view(records@)[j]).id != id@,
        decreases records.len() - k,
    {
        if same_text(records[k].id.as_str(), id) {
            assert(records_view(records@)[k as int].id == id@);
            return true;
        }
        k = k + 1;
    }
    false
}

impl CloudflareProvider {
    /// Whether a zone is held under the identity `id`.
    pub fn holds_zone(&self, id: &str) -> (held: bool)
        ensures
            held == (zone_position(self@.cloudflare_config.domains, id@) >= 0),
    {
        proof {
            lemma_zone_position(self@.cloudflare_config.domains, id@);
        }
        self.find_zone(id).is_some()
    }

    /// Looks at the listed zones one after the other, as `sync_zone` does,
    /// with `approved[k]` for the answer on `listed[k]`, and no for a zone
    /// that `approved` holds no answer on.
    pub fn sync_zones(&mut self, listed: &Vec<Zone>, approved: &Vec<bool>)
        requires
            old(self).wf(),
        ensures
            final(self).wf(),
            final(self)@.cloudflare_config.domains == synced_all(
                old(self)@.cloudflare_config.domains,
                listed_zones_view(listed@),
                approved@,
            ),
            final(self)@.cloudflare_config.api_token == old(self)@.cloudflare_config.api_token,
            final(self)@.webhooks == old(self)@.webhooks,
    {
        let ghost held = self@.cloudflare_config.domains;
        let ghost zones = listed_zones_view(listed@);
        let mut k: usize = 0;
        while k < listed.len()
            invariant
                k <= listed.len(),
                zones == listed_zones_view(listed@),
                self.wf(),
                self@.cloudflare_config.domains == synced_all(
                    held,
                    zones.subrange(0, k as int),
                    approved@,
                ),
                self@.cloudflare_config.api_token == old(self)@.cloudflare_config.api_token,
                self@.webhooks == old(self)@.webhooks,
            decreases listed.len() - k,
        {
            proof {
                assert(zones.subrange(0, k + 1).drop_last() =~= zones.subrange(0, k as int));
            }
            let answer = k < approved.len() && approved[k];
            self.sync_zone(&listed[k], answer);
            k = k + 1;
        }
        proof {
            assert(zones.subrange(0, k as int) =~= zones);
        }
    }
}

impl DnsProvider for CloudflareProvider {
    open spec fn zones(&self) -> Seq<(Seq<char>, DomainView)> {
        self@.cloudflare_config.domains
    }

    open spec fn updates(&self, ip: Seq<char>) -> Seq<ApiRequestView> {
        zone_records(self@.cloudflare_config.domains).map_values(
            |p: (Seq<char>, RecordView)|
                update_request(self@.cloudflare_config.api_token, p.0, p.1, ip),
        )
    }

    proof fn updates_cover_records(&self, ip: Seq<char>) {
    }

    open spec fn creation(
        &self,
        record: RecordView,
        zone_id: Seq<char>,
        ip: Seq<char>,
    ) -> ApiRequestView {
        create_request(self@.cloudflare_config.api_token, zone_id, record, ip)
    }

    proof fn creation_carries_record(&self, record: RecordView, zone_id: Seq<char>, ip: Seq<char>) {
    }

    open spec fn removal(&self, record: RecordView, zone_id: Seq<char>) -> ApiRequestView {
        plain_request(
            HttpMethod::Delete,
            self@.cloudflare_config.api_token,
            record_url(zone_id, record.id),
        )
    }

    proof fn removal_has_no_body(&self, record: RecordView, zone_id: Seq<char>) {
    }

    open spec fn fetch(&self, at: int) -> ApiRequestView {
        let records = zone_records(self@.cloudflare_config.domains);
        plain_request(
            HttpMethod::Get,
            self@.cloudflare_config.api_token,
            record_url(records[at].0, records[at].1.id),
        )
    }

    proof fn fetch_has_no_body(&self, at: int) {
    }

    fn zone_ids(&self) -> (ids: Vec<String>) {
        let zones = &self.config.cloudflare_config.domains;
        let mut ids: Vec<String> = Vec::new();
        let mut k: usize = 0;
        while k < zones.len()
            invariant
                k <= zones.len(),
                zones == &self.config.cloudflare_config.domains,
                ids@.len() == k,
                forall|j: int| 0 <= j < k ==> (#[trigger] ids@[j])@ == zones@[j].0@,
            decreases zones.len() - k,
        {
            ids.push(zones[k].0.clone());
            k = k + 1;
        }
        assert(texts_view(ids@) =~= zone_ids_of(self.zones()));
        ids
    }

    /// The request that creates `record` in zone `zone_id`, pointed at `ip`
    /// and proxied.
    fn set_sub_domain(&self, record: &Record, zone_id: &str, ip: &str) -> (request: ApiRequest)
        ensures
            request@ == create_request(self@.cloudflare_config.api_token, zone_id@, record@, ip@),
    {
        ApiRequest {
            method: HttpMethod::Post,
            url: Self::zone_records_address(zone_id),
            authorization: self.authorization(),
            body: Some(Self::body_of(record, ip, Some(true))),
        }
    }

    /// The request that deletes `record` from zone `zone_id`.
    fn remove_sub_domain(&self, record: &Record, zone_id: &str) -> (request: ApiRequest)
        ensures
            request@ == plain_request(
                HttpMethod::Delete,
                self@.cloudflare_config.api_token,
                record_url(zone_id@, record@.id),
            ),
    {
        ApiRequest {
            method: HttpMethod::Delete,
            url: Self::record_address(zone_id, record.id.as_str()),
            authorization: self.authorization(),
            body: None,
        }
    }

    /// The requests that point every record at `ip`, zone by zone and record
    /// by record.
    fn change_ip(&self, ip: &str) -> (requests: Vec<ApiRequest>)
        ensures
            requests_view(requests@) == zone_records(self@.cloudflare_config.domains).map_values(
                |p: (Seq<char>, RecordView)|
                    update_request(self@.cloudflare_config.api_token, p.0, p.1, ip@),
            ),
    {
        let zones = &self.config.cloudflare_config.domains;
        let ghost records = zone_records(self@.cloudflare_config.domains);
        let ghost token = self@.cloudflare_config.api_token;
        let places = record_places(zones);
        let mut requests: Vec<ApiRequest> = Vec::new();
        let mut k: usize = 0;
        while k < places.len()
            invariant
                k <= places.len(),
                zones == &self.config.cloudflare_config.domains,
                records == zone_records(zones_view(zones@)),
                token == self@.cloudflare_config.api_token,
                places@.len() == records.len(),
                forall|j: int|
                    0 <= j < places@.len() ==> is_place(zones@, #[trigger] places@[j])
                        && record_at(zones@, places@[j]) == records[j],
                requests@.len() == k,
                forall|j: int|
                    0 <= j < k ==> (#[trigger] requests@[j])@ == update_request(
                        token,
                        records[j].0,
                        records[j].1,
                        ip@,
                    ),
            decreases places.len() - k,
        {
            let (z, r) = places[k];
            assert(is_place(zones@, places@[k as int]));
            let zone = &zones[z];
            let request = self.update_ip(ip, &zone.1.records[r], zone.0.as_str());
            requests.push(request);
            k = k + 1;
        }
        proof {
            assert(requests_view(requests@) =~= records.map_values(
                |p: (Seq<char>, RecordView)| update_request(token, p.0, p.1, ip@),
            ));
        }
        requests
    }

    /// Looks at one listed zone: a zone that is held takes the listed name; one
    /// that is not held is added, without records, where `approved` says so.
    /// Says whether the zone was added.
    fn sync_zone(&mut self, zone: &Zone, approved: bool) -> (added: bool)
        ensures
            final(self).wf(),
            final(self)@.cloudflare_config.domains == synced(
                old(self)@.cloudflare_config.domains,
                zone@,
                approved,
            ),
            final(self)@.cloudflare_config.api_token == old(self)@.cloudflare_config.api_token,
            final(self)@.webhooks == old(self)@.webhooks,
            added == (approved && zone_position(old(self)@.cloudflare_config.domains, zone@.id)
                < 0),
    {
        let ghost held = self@.cloudflare_config.domains;
        proof {
            lemma_zone_position(held, zone@.id);
        }
        match self.find_zone(zone.id.as_str()) {
            Some(z) => {
                self.config.cloudflare_config.domains[z].1.domain = zone.name.clone();
                assert(self@.cloudflare_config.domains =~= synced(held, zone@, approved));
                false
            },
            None => {
                if approved {
                    let fresh = Domain { records: Vec::new(), domain: zone.name.clone() };
                    assert(fresh@.records =~= Seq::<RecordView>::empty());
                    self.config.cloudflare_config.domains.push((zone.id.clone(), fresh));
                    assert(self@.cloudflare_config.domains =~= held.push(
                        (zone@.id, DomainView { records: seq![], domain: zone@.name }),
                    ));
                }
                approved
            },
        }
    }

    /// Takes the records that the provider reported for zone `zone_id` into
    /// tracking, as `merge_records` says, and says how many were added.
    fn import(&mut self, zone_id: &str, ip: &str, reported: &Vec<DnsRecord>) -> (outcome:
        Result<usize, DnsError>)
        ensures
            final(self).wf(),
            final(self)@.cloudflare_config.api_token == old(self)@.cloudflare_config.api_token,
            final(self)@.webhooks == old(self)@.webhooks,
            ({
                let held = old(self)@.cloudflare_config.domains;
                let z = zone_position(held, zone_id@);
                match outcome {
                    Ok(added) => {
                        &&& z >= 0
                        &&& final(self)@.cloudflare_config.domains == import_into(
                            held,
                            z,
                            reported_view(reported@),
                            ip@,
                        )
                        &&& added == final(self)@.cloudflare_config.domains[z].1.records.len()
                            - held[z].1.records.len()
                    },
                    Err(e) => {
                        &&& z < 0
                        &&& e@ == (DnsErrorView::ZoneNotFound { name: zone_id@ })
                        &&& final(self)@ == old(self)@
                    },
                }
            }),
    {
        let ghost held = self@.cloudflare_config.domains;
        let ghost listed = reported_view(reported@);
        proof {
            lemma_zone_position(held, zone_id@);
        }
        let z = match self.find_zone(zone_id) {
            Some(z) => z,
            None => {
                return Err(DnsError::ZoneNotFound { name: zone_id.to_owned() });
            },
        };
        let before = self.config.cloudflare_config.domains[z].1.records.len();
        proof {
            assert(listed.subrange(0, 0) =~= Seq::<DnsRecordView>::empty());
            assert(self@.cloudflare_config.domains =~= import_into(
                held,
                z as int,
                listed.subrange(0, 0),
                ip@,
            ));
        }
        let mut k: usize = 0;
        while k < reported.len()
            invariant
                k <= reported.len(),
                listed == reported_view(reported@),
                0 <= z < held.len(),
                before == held[z as int].1.records.len(),
                self@.cloudflare_config.domains == import_into(
                    held,
                    z as int,
                    listed.subrange(0, k as int),
                    ip@,
                ),
                self.config.cloudflare_config.domains@.len() == held.len(),
                self.config.cloudflare_config.domains@[z as int].1.records@.len() >= before,
                self@.cloudflare_config.api_token == old(self)@.cloudflare_config.api_token,
                self@.webhooks == old(self)@.webhooks,
            decreases reported.len() - k,
        {
            let record = &reported[k];
            let ghost so_far = self@.cloudflare_config.domains;
            proof {
                assert(listed.subrange(0, k + 1).drop_last() =~= listed.subrange(0, k as int));
                assert(listed.subrange(0, k + 1).last() == record@);
                assert(so_far[z as int].1.records == merge_records(
                    held[z as int].1.records,
                    listed.subrange(0, k as int),
                    ip@,
                ));
            }
            match address_kind_of(record, ip) {
                Some(kind) => {
                    let known = holds_id(
                        &self.config.cloudflare_config.domains[z].1.records,
                        record.id.as_str(),
                    );
                    assert(known == tracks_id(so_far[z as int].1.records, record@.id));
                    if !known && !record.id.as_str().is_empty() {
                        let fresh = Record {
                            id: record.id.clone(),
                            name: record.name.clone(),
                            record_type: kind,
                        };
                        self.config.cloudflare_config.domains[z].1.records.push(fresh);
                        assert(self@.cloudflare_config.domains[z as int].1.records
                            =~= so_far[z as int].1.records.push(
                            RecordView { id: record@.id, name: record@.name, record_type: kind },
                        ));
                        assert(merge_records(
                            held[z as int].1.records,
                            listed.subrange(0, k + 1),
                            ip@,
                        ) == so_far[z as int].1.records.push(
                            RecordView { id: record@.id, name: record@.name, record_type: kind },
                        ));
                        assert(self@.cloudflare_config.domains[z as int].0 == held[z as int].0);
                        assert(self@.cloudflare_config.domains[z as int].1.domain
                            == held[z as int].1.domain);
                        assert forall|j: int|
                            0 <= j < held.len() && j != z implies self@.cloudflare_config.domains[j]
                            == held[j] by {
                            assert(so_far[j] == held[j]);
                        }
                        assert(self@.cloudflare_config.domains =~= import_into(
                            held,
                            z as int,
                            listed.subrange(0, k + 1),
                            ip@,
                        ));
                    }
                },
                None => {},
            }
            k = k + 1;
        }
        proof {
            assert(listed.subrange(0, k as int) =~= listed);
            let zones = self@.cloudflare_config.domains;
            assert forall|r: int| 0 <= r < held[z as int].1.records.len() implies (
            #[trigger] held[z as int].1.records[r]).id.len() > 0 by {}
            lemma_merge_identified(held[z as int].1.records, listed, ip@);
            assert forall|a: int, r: int|
                0 <= a < zones.len() && 0 <= r < zones[a].1.records.len() implies (
            #[trigger] zones[a].1.records[r]).id.len() > 0 by {
                if a != z {
                    assert(zones[a] == held[a]);
                    assert(held[a].1.records[r].id.len() > 0);
                }
            }
            assert forall|i: int, j: int| 0 <= i < j < zones.len() implies (#[trigger] zones[i]).0
                != (#[trigger] zones[j]).0 by {
                assert(zones[i].0 == held[i].0);
                assert(zones[j].0 == held[j].0);
            }
        }
        let after = self.config.cloudflare_config.domains[z].1.records.len();
        Ok(after - before)
    }

    /// The request that fetches the live state of the first record, zone by
    /// zone, whose name is `prefix` or begins with `prefix` and a `.`.
    fn get_domain_details(&self, prefix: &str) -> (request: Result<ApiRequest, DnsError>)
        ensures
            ({
                let records = zone_records(self@.cloudflare_config.domains);
                let at = first_match(records, prefix@);
                if at >= 0 {
                    &&& request matches Ok(r)
                    &&& r@ == plain_request(
                        HttpMethod::Get,
                        self@.cloudflare_config.api_token,
                        record_url(records[at].0, records[at].1.id),
                    )
                } else {
                    &&& request matches Err(e)
                    &&& e@ == (DnsErrorView::NoMatch { prefix: prefix@ })
                }
            }),
    {
        let wanted = prefix.to_owned();
        let zones = &self.config.cloudflare_config.domains;
        let ghost records = zone_records(self@.cloudflare_config.domains);
        let ghost hit = |p: (Seq<char>, RecordView)| names_prefix(p.1.name, prefix@);
        let places = record_places(zones);
        let mut k: usize = 0;
        while k < places.len()
            invariant
                k <= places.len(),
                wanted@ == prefix@,
                zones == &self.config.cloudflare_config.domains,
                records == zone_records(zones_view(zones@)),
                records == zone_records(self@.cloudflare_config.domains),
                hit == |p: (Seq<char>, RecordView)| names_prefix(p.1.name, prefix@),
                places@.len() == records.len(),
                forall|j: int|
                    0 <= j < places@.len() ==> is_place(zones@, #[trigger] places@[j])
                        && record_at(zones@, places@[j]) == records[j],
                forall|j: int| 0 <= j < k ==> !hit(#[trigger] records[j]),
            decreases places.len() - k,
        {
            let (z, r) = places[k];
            assert(is_place(zones@, places@[k as int]));
            let zone = &zones[z];
            let record = &zone.1.records[r];
            if has_name_prefix(&record.name, &wanted) {
                proof {
                    lemma_first_index_at(records, hit, k as int);
                }
                return Ok(
                    ApiRequest {
                        method: HttpMethod::Get,
                        url: Self::record_address(zone.0.as_str(), record.id.as_str()),
                        authorization: self.authorization(),
                        body: None,
                    },
                );
            }
            k = k + 1;
        }
        proof {
            lemma_first_index_none(records, hit);
        }
        Err(DnsError::NoMatch { prefix: wanted })
    }
}

} // verus!
