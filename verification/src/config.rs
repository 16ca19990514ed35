//! The tracked state: zones, their records, the provider credential and the
//! webhook subscriptions, together with the holder that keeps the state of one
//! session next to the path it is stored at.

use crate::error::{DnsError, DnsErrorView};
use crate::paths::{in_home, CONFIG_FILE};
use crate::seq_util::{first_index, lemma_first_index, lemma_first_index_at, lemma_first_index_none};
use crate::text::same_text;
use crate::webhook_notifier::{webhooks_view, WebhookNotifierType, WebhookView};
use std::path::PathBuf;
use vstd::prelude::*;

verus! {

/// Kind of address record.
#[derive(Copy, Debug, PartialEq, Eq, Structural)]
pub enum RecordType {
    /// IPv4 address record.
    A,
    /// IPv6 address record.
    AAA,
}

impl Clone for RecordType {
    fn clone(&self) -> (copy: Self)
        ensures
            copy == *self,
    {
        *self
    }
}

impl RecordType {
    /// The name of the record kind as DNS providers write it.
    pub open spec fn name(self) -> Seq<char> {
        match self {
            RecordType::A => "A"@,
            RecordType::AAA => "AAAA"@,
        }
    }

    /// The name of the record kind as DNS providers write it.
    pub fn to_string(&self) -> (text: String)
        ensures
            text@ == self.name(),
    {
        match self {
            RecordType::A => "A".to_owned(),
            RecordType::AAA => "AAAA".to_owned(),
        }
    }
}

/// A tracked record as a mathematical value.
pub struct RecordView {
    pub id: Seq<char>,
    pub name: Seq<char>,
    pub record_type: RecordType,
}

/// A DNS address record that is kept pointed at this host.
#[derive(Debug, PartialEq, Eq)]
pub struct Record {
    /// Identity that the provider assigned; empty until the provider has
    /// acknowledged the record.
    pub id: String,
    /// Fully qualified name of the record.
    pub name: String,
    pub record_type: RecordType,
}

impl View for Record {
    type V = RecordView;

    open spec fn view(&self) -> RecordView {
        RecordView { id: self.id@, name: self.name@, record_type: self.record_type }
    }
}

impl Clone for Record {
    fn clone(&self) -> (copy: Self)
        ensures
            copy@ == self@,
    {
        Record { id: self.id.clone(), name: self.name.clone(), record_type: self.record_type }
    }
}

/// The records of a list, each by its view.
pub open spec fn records_view(records: Seq<Record>) -> Seq<RecordView> {
    records.map_values(|r: Record| r@)
}

/// The record has the name `name`, character for character.
pub open spec fn has_name(record: RecordView, name: Seq<char>) -> bool {
    record.name == name
}

/// Position of the first of `records` whose name is exactly `name`, or `-1`.
pub open spec fn record_position(records: Seq<RecordView>, name: Seq<char>) -> int {
    first_index(records, |r: RecordView| has_name(r, name))
}

/// `record_position` is `-1` where no record has the name `name`, else the
/// position of the first record that has it.
pub proof fn lemma_record_position(records: Seq<RecordView>, name: Seq<char>)
    ensures
        -1 <= record_position(records, name) < records.len(),
        record_position(records, name) >= 0 ==> records[record_position(records, name)].name
            == name,
        forall|k: int|
            0 <= k < records.len() && (record_position(records, name) < 0 || k < record_position(
                records,
                name,
            )) ==> (#[trigger] records[k]).name != name,
{
    lemma_first_index(records, |r: RecordView| has_name(r, name));
}

/// A zone as a mathematical value.
pub struct DomainView {
    pub records: Seq<RecordView>,
    pub domain: Seq<char>,
}

/// A zone of the provider: its domain name and the records tracked in it, in
/// the order in which they were added.
#[derive(Debug, PartialEq, Eq)]
pub struct Domain {
    pub records: Vec<Record>,
    pub domain: String,
}

impl View for Domain {
    type V = DomainView;

    open spec fn view(&self) -> DomainView {
        DomainView { records: records_view(self.records@), domain: self.domain@ }
    }
}

impl Domain {
    /// Position of the first record whose name is exactly `name`.
    pub fn find_record(&self, name: &str) -> (found: Option<usize>)
        ensures
            match found {
                Some(i) => i == record_position(self@.records, name@) && i < self.records@.len(),
                None => record_position(self@.records, name@) == -1,
            },
    {
        let ghost records = self@.records;
        let ghost is_it = |r: RecordView| has_name(r, name@);
        let mut k: usize = 0;
        while k < self.records.len()
            invariant
                k <= self.records.len(),
                records == self@.records,
                is_it == |r: RecordView| has_name(r, name@),
                forall|j: int| 0 <= j < k ==> !is_it(#[trigger] records[j]),
            decreases self.records.len() - k,
        {
            if same_text(self.records[k].name.as_str(), name) {
                proof {
                    lemma_first_index_at(records, is_it, k as int);
                }
                return Some(k);
            }
            k = k + 1;
        }
        proof {
            lemma_first_index_none(records, is_it);
        }
        None
    }
}

impl Clone for Domain {
    fn clone(&self) -> (copy: Self)
        ensures
            copy@ == self@,
    {
        let records = self.records.clone();
        assert(records_view(records@) =~= records_view(self.records@));
        Domain { records, domain: self.domain.clone() }
    }
}

/// The zones of a list, each as the pair of its provider identity and its view.
pub open spec fn zones_view(zones: Seq<(String, Domain)>) -> Seq<(Seq<char>, DomainView)> {
    zones.map_values(|z: (String, Domain)| (z.0@, z.1@))
}

/// No provider identity occurs twice among the zones.
pub open spec fn distinct_zone_ids(zones: Seq<(Seq<char>, DomainView)>) -> bool {
    forall|i: int, j: int|
        0 <= i < j < zones.len() ==> (#[trigger] zones[i]).0 != (#[trigger] zones[j]).0
}

/// Every record of every zone has an identity.
pub open spec fn identified(zones: Seq<(Seq<char>, DomainView)>) -> bool {
    forall|z: int, r: int|
        0 <= z < zones.len() && 0 <= r < zones[z].1.records.len() ==> (
        #[trigger] zones[z].1.records[r]).id.len() > 0
}

/// The zones are what a tracked state may hold: no identity stands for two
/// zones, and no record is without an identity.
pub open spec fn well_formed(zones: Seq<(Seq<char>, DomainView)>) -> bool {
    distinct_zone_ids(zones) && identified(zones)
}

/// The zone is held under the identity `id`.
pub open spec fn has_id(zone: (Seq<char>, DomainView), id: Seq<char>) -> bool {
    zone.0 == id
}

/// Position of the zone with identity `id`, or `-1`.
pub open spec fn zone_position(zones: Seq<(Seq<char>, DomainView)>, id: Seq<char>) -> int {
    first_index(zones, |z: (Seq<char>, DomainView)| has_id(z, id))
}

/// `zone_position` is `-1` where no zone has the identity `id`, else the
/// position of the first zone that has it.
pub proof fn lemma_zone_position(zones: Seq<(Seq<char>, DomainView)>, id: Seq<char>)
    ensures
        -1 <= zone_position(zones, id) < zones.len(),
        zone_position(zones, id) >= 0 ==> zones[zone_position(zones, id)].0 == id,
        forall|k: int|
            0 <= k < zones.len() && (zone_position(zones, id) < 0 || k < zone_position(zones, id))
                ==> (#[trigger] zones[k]).0 != id,
{
    lemma_first_index(zones, |z: (Seq<char>, DomainView)| has_id(z, id));
}

/// The zone is that of the domain `name`.
pub open spec fn has_domain(zone: (Seq<char>, DomainView), name: Seq<char>) -> bool {
    zone.1.domain == name
}

/// Position of the first zone whose domain is `name`, or `-1`.
pub open spec fn zone_named(zones: Seq<(Seq<char>, DomainView)>, name: Seq<char>) -> int {
    first_index(zones, |z: (Seq<char>, DomainView)| has_domain(z, name))
}

/// `zone_named` is `-1` where no zone is that of the domain `name`, else the
/// position of the first zone that is.
pub proof fn lemma_zone_named(zones: Seq<(Seq<char>, DomainView)>, name: Seq<char>)
    ensures
        -1 <= zone_named(zones, name) < zones.len(),
        zone_named(zones, name) >= 0 ==> zones[zone_named(zones, name)].1.domain == name,
        forall|k: int|
            0 <= k < zones.len() && (zone_named(zones, name) < 0 || k < zone_named(zones, name))
                ==> (#[trigger] zones[k]).1.domain != name,
{
    lemma_first_index(zones, |z: (Seq<char>, DomainView)| has_domain(z, name));
}

/// The provider section of the tracked state as a mathematical value.
pub struct CloudflareConfigView {
    pub api_token: Seq<char>,
    pub domains: Seq<(Seq<char>, DomainView)>,
}

/// Credential and tracked zones of the provider. The zones are kept in the
/// order in which they were added, each under its provider identity.
#[derive(Debug, PartialEq, Eq)]
pub struct CloudflareConfig {
    pub api_token: String,
    pub domains: Vec<(String, Domain)>,
}

impl View for CloudflareConfig {
    type V = CloudflareConfigView;

    open spec fn view(&self) -> CloudflareConfigView {
        CloudflareConfigView { api_token: self.api_token@, domains: zones_view(self.domains@) }
    }
}

impl CloudflareConfig {
    /// Every zone is held under an identity of its own, and every record has
    /// an identity.
    pub open spec fn wf(&self) -> bool {
        well_formed(self@.domains)
    }
}

impl CloudflareConfig {
    /// Whether every record of every zone has an identity.
    pub fn has_identified_records(&self) -> (all: bool)
        ensures
            all == identified(self@.domains),
    {
        let ghost held = self@.domains;
        let mut z: usize = 0;
        while z < self.domains.len()
            invariant
                z <= self.domains.len(),
                held == self@.domains,
                forall|a: int, r: int|
                    0 <= a < z && 0 <= r < held[a].1.records.len() ==> (
                    #[trigger] held[a].1.records[r]).id.len() > 0,
            decreases self.domains.len() - z,
        {
            let records = &self.domains[z].1.records;
            let mut r: usize = 0;
            while r < records.len()
                invariant
                    z < self.domains.len(),
                    r <= records.len(),
                    held == self@.domains,
                    records == &self.domains[z as int].1.records,
                    forall|b: int|
                        0 <= b < r ==> (#[trigger] held[z as int].1.records[b]).id.len() > 0,
                decreases records.len() - r,
            {
                if records[r].id.as_str().is_empty() {
                    assert(held[z as int].1.records[r as int].id.len() == 0);
                    return false;
                }
                r = r + 1;
            }
            z = z + 1;
        }
        true
    }

    /// Whether every zone is held under an identity of its own.
    pub fn has_distinct_zones(&self) -> (distinct: bool)
        ensures
            distinct == distinct_zone_ids(self@.domains),
    {
        let ghost held = self@.domains;
        let mut i: usize = 0;
        while i < self.domains.len()
            invariant
                i <= self.domains.len(),
                held == self@.domains,
                forall|a: int, b: int|
                    0 <= a < b < i ==> (#[trigger] held[a]).0 != (#[trigger] held[b]).0,
            decreases self.domains.len() - i,
        {
            let mut j: usize = 0;
            while j < i
                invariant
                    j <= i < self.domains.len(),
                    held == self@.domains,
                    forall|a: int| 0 <= a < j ==> (#[trigger] held[a]).0 != held[i as int].0,
                decreases i - j,
            {
                if same_text(self.domains[j].0.as_str(), self.domains[i].0.as_str()) {
                    assert(held[j as int].0 == held[i as int].0);
                    return false;
                }
                j = j + 1;
            }
            i = i + 1;
        }
        true
    }

    /// Position of the zone with identity `id`.
    pub fn find_zone(&self, id: &str) -> (found: Option<usize>)
        ensures
            match found {
                Some(z) => z == zone_position(self@.domains, id@) && z < self.domains@.len(),
                None => zone_position(self@.domains, id@) == -1,
            },
    {
        let ghost held = self@.domains;
        let ghost is_it = |z: (Seq<char>, DomainView)| has_id(z, id@);
        let mut k: usize = 0;
        while k < self.domains.len()
            invariant
                k <= self.domains.len(),
                held == self@.domains,
                is_it == |z: (Seq<char>, DomainView)| has_id(z, id@),
                forall|j: int| 0 <= j < k ==> !is_it(#[trigger] held[j]),
            decreases self.domains.len() - k,
        {
            if same_text(self.domains[k].0.as_str(), id) {
                proof {
                    lemma_first_index_at(held, is_it, k as int);
                }
                return Some(k);
            }
            k = k + 1;
        }
        proof {
            lemma_first_index_none(held, is_it);
        }
        None
    }

    /// Position of the first zone whose domain is `name`.
    pub fn find_zone_named(&self, name: &str) -> (found: Option<usize>)
        ensures
            match found {
                Some(z) => z == zone_named(self@.domains, name@) && z < self.domains@.len(),
                None => zone_named(self@.domains, name@) == -1,
            },
    {
        let ghost held = self@.domains;
        let ghost is_it = |z: (Seq<char>, DomainView)| has_domain(z, name@);
        let mut k: usize = 0;
        while k < self.domains.len()
            invariant
                k <= self.domains.len(),
                held == self@.domains,
                is_it == |z: (Seq<char>, DomainView)| has_domain(z, name@),
                forall|j: int| 0 <= j < k ==> !is_it(#[trigger] held[j]),
            decreases self.domains.len() - k,
        {
            if same_text(self.domains[k].1.domain.as_str(), name) {
                proof {
                    lemma_first_index_at(held, is_it, k as int);
                }
                return Some(k);
            }
            k = k + 1;
        }
        proof {
            lemma_first_index_none(held, is_it);
        }
        None
    }
}

impl Clone for CloudflareConfig {
    fn clone(&self) -> (copy: Self)
        ensures
            copy@ == self@,
    {
        let mut domains: Vec<(String, Domain)> = Vec::new();
        let mut i: usize = 0;
        while i < self.domains.len()
            invariant
                i <= self.domains.len(),
                domains@.len() == i,
                forall|k: int|
                    0 <= k < i ==> (#[trigger] domains@[k]).0@ == self.domains@[k].0@
                        && domains@[k].1@ == self.domains@[k].1@,
            decreases self.domains.len() - i,
        {
            let id = self.domains[i].0.clone();
            let domain = self.domains[i].1.clone();
            domains.push((id, domain));
            i = i + 1;
        }
        assert(zones_view(domains@) =~= zones_view(self.domains@));
        CloudflareConfig { api_token: self.api_token.clone(), domains }
    }
}

/// The tracked state as a mathematical value.
pub struct ConfigView {
    pub cloudflare_config: CloudflareConfigView,
    pub webhooks: Seq<WebhookView>,
}

/// The tracked state: what is stored between runs, replaced as a whole.
#[derive(Debug, PartialEq, Eq)]
pub struct Config {
    pub cloudflare_config: CloudflareConfig,
    pub webhooks: Vec<WebhookNotifierType>,
}

impl View for Config {
    type V = ConfigView;

    open spec fn view(&self) -> ConfigView {
        ConfigView {
            cloudflare_config: self.cloudflare_config@,
            webhooks: webhooks_view(self.webhooks@),
        }
    }
}

impl Clone for Config {
    fn clone(&self) -> (copy: Self)
        ensures
            copy@ == self@,
    {
        let webhooks = self.webhooks.clone();
        assert(webhooks_view(webhooks@) =~= webhooks_view(self.webhooks@));
        Config { cloudflare_config: self.cloudflare_config.clone(), webhooks }
    }
}

impl Config {
    /// Every zone is held under an identity of its own, and every record has
    /// an identity.
    pub open spec fn wf(&self) -> bool {
        self.cloudflare_config.wf()
    }

    /// Whether every zone is held under an identity of its own, and every
    /// record has an identity.
    pub fn is_well_formed(&self) -> (sound: bool)
        ensures
            sound == self.wf(),
    {
        self.cloudflare_config.has_distinct_zones()
            && self.cloudflare_config.has_identified_records()
    }

    /// Subscribes one more webhook, after those already there.
    pub fn add_webhook(&mut self, webhook: WebhookNotifierType)
        ensures
            final(self)@.webhooks == old(self)@.webhooks.push(webhook@),
            final(self)@.cloudflare_config == old(self)@.cloudflare_config,
    {
        self.webhooks.push(webhook);
        assert(webhooks_view(self.webhooks@) =~= webhooks_view(old(self).webhooks@).push(
            webhook@,
        ));
    }

    /// The state of a fresh installation: no credential, no zone, no webhook.
    pub fn get_default_config() -> (config: Config)
        ensures
            config@.cloudflare_config.api_token.len() == 0,
            config@.cloudflare_config.domains.len() == 0,
            config@.webhooks.len() == 0,
            config.wf(),
    {
        Config {
            cloudflare_config: CloudflareConfig { api_token: String::new(), domains: Vec::new() },
            webhooks: Vec::new(),
        }
    }
}

impl Config {
    /// The tracked state that a new installation begins with. None is made
    /// where one is stored already.
    pub fn init(already_stored: bool) -> (made: Result<Config, DnsError>)
        ensures
            match made {
                Ok(config) => {
                    &&& !already_stored
                    &&& config@.cloudflare_config.api_token.len() == 0
                    &&& config@.cloudflare_config.domains.len() == 0
                    &&& config@.webhooks.len() == 0
                    &&& config.wf()
                },
                Err(e) => already_stored && e@ == DnsErrorView::ConfigExists,
            },
    {
        if already_stored {
            Err(DnsError::ConfigExists)
        } else {
            Ok(Config::get_default_config())
        }
    }

    /// Takes what was found where the tracked state is stored: the state
    /// itself where one was found, no two of its zones have one identity, and
    /// none of its records is without an identity.
    pub fn get_config(stored: Option<Config>) -> (found: Result<Config, DnsError>)
        ensures
            match found {
                Ok(config) => stored == Some(config) && config.wf(),
                Err(e) => match stored {
                    None => e@ == DnsErrorView::ConfigMissing,
                    Some(config) => !config.wf() && e@ == DnsErrorView::ConfigCorrupt,
                },
            },
    {
        match stored {
            None => Err(DnsError::ConfigMissing),
            Some(config) => {
                if config.is_well_formed() {
                    Ok(config)
                } else {
                    Err(DnsError::ConfigCorrupt)
                }
            },
        }
    }

    /// Where the tracked state is stored unless another path is given: in the
    /// home directory of the user, where one is known.
    pub fn get_default_config_path() -> (path: Option<PathBuf>) {
        in_home(CONFIG_FILE)
    }

    /// Where the tracked state is stored: at `custom_path` where one is
    /// given, else at the default path, where there is one.
    pub fn get_config_path(custom_path: Option<PathBuf>) -> (path: Option<PathBuf>)
        ensures
            custom_path is Some ==> path == custom_path,
    {
        match custom_path {
            Some(path) => Some(path),
            None => Config::get_default_config_path(),
        }
    }
}

/// The tracked state of one session, next to the path it is stored at. Both
/// are missing until `init` has given them.
pub struct ConfigSingleton {
    config: Option<Config>,
    path: Option<PathBuf>,
}

impl ConfigSingleton {
    /// The tracked state that is held, if any.
    pub closed spec fn held(&self) -> Option<ConfigView> {
        match self.config {
            Some(config) => Some(config@),
            None => None,
        }
    }

    /// The path that the tracked state is stored at, if it is known.
    pub closed spec fn stored_at(&self) -> Option<PathBuf> {
        self.path
    }

    /// A holder that holds nothing yet.
    pub fn new() -> (holder: ConfigSingleton)
        ensures
            holder.held() is None,
            holder.stored_at() is None,
    {
        ConfigSingleton { config: None, path: None }
    }

    /// Takes in the tracked state `config` that was read from `path`.
    pub fn init(&mut self, path: PathBuf, config: Config)
        ensures
            final(self).held() == Some(config@),
            final(self).stored_at() == Some(path),
    {
        self.config = Some(config);
        self.path = Some(path);
    }

    /// A copy of the tracked state that is held.
    pub fn get(&self) -> (config: Config)
        requires
            self.held() is Some,
        ensures
            Some(config@) == self.held(),
    {
        match &self.config {
            Some(config) => config.clone(),
            None => vstd::pervasive::unreached(),
        }
    }

    /// Holds `config` from now on and says where it is to be stored.
    pub fn save(&mut self, config: Config) -> (path: &PathBuf)
        requires
            old(self).stored_at() is Some,
        ensures
            final(self).held() == Some(config@),
            final(self).stored_at() == old(self).stored_at(),
            Some(*path) == old(self).stored_at(),
    {
        self.config = Some(config);
        match &self.path {
            Some(path) => path,
            None => vstd::pervasive::unreached(),
        }
    }
}

} // verus!
