//! The GoDaddy backend: the request that points a record of one domain at
//! one address.

use crate::config::{Record, RecordView};
use crate::text::join;
use vstd::prelude::*;
use vstd::string::*;

verus! {

/// Root of the provider's API for the records of a domain.
pub const GODADDY_DOMAINS_URL: &'static str = "https://api.godaddy.com/v1/domains/";

/// Seconds that a record set by this backend may be cached.
pub const GODADDY_TTL: u32 = 600;

/// One entry of the body of a request, as a mathematical value.
pub struct GoDaddyEntryView {
    pub data: Seq<char>,
    pub ttl: u32,
    pub record_type: Seq<char>,
}

/// One entry of the body of a request: the address, the time to live and the
/// kind of the record.
#[derive(Debug, PartialEq, Eq)]
pub struct GoDaddyEntry {
    pub data: String,
    pub ttl: u32,
    pub record_type: String,
}

impl View for GoDaddyEntry {
    type V = GoDaddyEntryView;

    open spec fn view(&self) -> GoDaddyEntryView {
        GoDaddyEntryView { data: self.data@, ttl: self.ttl, record_type: self.record_type@ }
    }
}

/// A request as a mathematical value.
pub struct GoDaddyRequestView {
    pub url: Seq<char>,
    pub authorization: Seq<char>,
    pub body: Seq<GoDaddyEntryView>,
}

/// A request to the provider: its body is put to `url` under the
/// authorization header `authorization`.
#[derive(Debug, PartialEq, Eq)]
pub struct GoDaddyRequest {
    pub url: String,
    pub authorization: String,
    pub body: Vec<GoDaddyEntry>,
}

impl View for GoDaddyRequest {
    type V = GoDaddyRequestView;

    open spec fn view(&self) -> GoDaddyRequestView {
        GoDaddyRequestView {
            url: self.url@,
            authorization: self.authorization@,
            body: self.body@.map_values(|e: GoDaddyEntry| e@),
        }
    }
}

/// The value of the authorization header for a key and its secret.
pub open spec fn sso_key(api_key: Seq<char>, secret: Seq<char>) -> Seq<char> {
    "sso-key "@ + api_key + ":"@ + secret
}

/// Where the records of one kind and name of `domain` are set.
pub open spec fn records_url(domain: Seq<char>, record: RecordView) -> Seq<char> {
    GODADDY_DOMAINS_URL@ + domain + "/records/"@ + record.record_type.name() + "/"@ + record.name
}

/// The GoDaddy backend as a mathematical value.
pub struct GoDaddyAPIView {
    pub api_key: Seq<char>,
    pub secret: Seq<char>,
    pub domain: Seq<char>,
    pub ip: Seq<char>,
    pub debug: bool,
}

/// The GoDaddy backend for one domain and one address.
#[derive(Debug, PartialEq, Eq)]
pub struct GoDaddyAPI {
    api_key: String,
    secret: String,
    domain: String,
    ip: String,
    debug: bool,
}

impl View for GoDaddyAPI {
    type V = GoDaddyAPIView;

    closed spec fn view(&self) -> GoDaddyAPIView {
        GoDaddyAPIView {
            api_key: self.api_key@,
            secret: self.secret@,
            domain: self.domain@,
            ip: self.ip@,
            debug: self.debug,
        }
    }
}

impl GoDaddyAPI {
    /// The backend for the records of `domain`, which it points at `ip`.
    pub fn new(api_key: String, secret: String, domain: String, ip: String, debug: bool) -> (api:
        GoDaddyAPI)
        ensures
            api@ == (GoDaddyAPIView {
                api_key: api_key@,
                secret: secret@,
                domain: domain@,
                ip: ip@,
                debug,
            }),
    {
        GoDaddyAPI { api_key, secret, domain, ip, debug }
    }

    /// Whether the answers of the provider are to be shown.
    pub fn debug(&self) -> (debug: bool)
        ensures
            debug == self@.debug,
    {
        self.debug
    }

    /// The request that puts `body` to `url` under the key and its secret.
    pub fn send_request(
        url: String,
        body: Vec<GoDaddyEntry>,
        api_key: &String,
        secret: &String,
    ) -> (request: GoDaddyRequest)
        ensures
            request.url == url,
            request.body == body,
            request.authorization@ == sso_key(api_key@, secret@),
    {
        let mut authorization = join("sso-key ", api_key.as_str());
        authorization.append(":");
        authorization.append(secret.as_str());
        GoDaddyRequest { url, authorization, body }
    }

    /// The request that points `record` of the domain at the address of the
    /// backend, to be cached for `GODADDY_TTL` seconds.
    pub fn set_sub_domain(&self, record: &Record) -> (request: GoDaddyRequest)
        ensures
            request@ == (GoDaddyRequestView {
                url: records_url(self@.domain, record@),
                authorization: sso_key(self@.api_key, self@.secret),
                body: seq![
                    GoDaddyEntryView {
                        data: self@.ip,
                        ttl: GODADDY_TTL,
                        record_type: record@.record_type.name(),
                    },
                ],
            }),
    {
        let mut url = join(GODADDY_DOMAINS_URL, self.domain.as_str());
        url.append("/records/");
        url.append(record.record_type.to_string().as_str());
        url.append("/");
        url.append(record.name.as_str());
        let mut body: Vec<GoDaddyEntry> = Vec::new();
        body.push(
            GoDaddyEntry {
                data: self.ip.clone(),
                ttl: GODADDY_TTL,
                record_type: record.record_type.to_string(),
            },
        );
        let request = Self::send_request(url, body, &self.api_key, &self.secret);
        assert(request@.body =~= seq![
            GoDaddyEntryView {
                data: self@.ip,
                ttl: GODADDY_TTL,
                record_type: record@.record_type.name(),
            },
        ]);
        request
    }
}

} // verus!
