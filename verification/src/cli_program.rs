//! The operations of the tool over the tracked state and a DNS backend: the
//! check cycle, and the registration, removal, listing, import and inspection
//! of records. Nothing here sends or stores anything: each operation says
//! what is to be sent and stored, and takes in what came back.

use crate::check_cycle::{
    after_fetch, errors_view, failures, idle, next, outcomes_view, CheckAction, CheckCycle,
    CheckEvent, Phase, Session,
};
use crate::cloudflare_provider::{
    rejection, reported_view, synced, DNSCreateResponse, DnsRecord, UpdateResponse, Zone,
};
use crate::config::{
    distinct_zone_ids, lemma_record_position, lemma_zone_named, lemma_zone_position,
    record_position, well_formed, zone_named, zone_position, zones_view, Config, ConfigView,
    DomainView, Record, RecordType, RecordView,
};
use crate::dns_provider::{
    carries, first_match, imported_all, imported_upto, is_place, lemma_zone_records_prefix,
    lemma_zone_records_step, listing_for, listings_view, record_at, record_places,
    requests_view, zone_ids_of, zone_records, ApiRequest, ApiRequestView, DnsProvider,
    HttpMethod,
};
use crate::error::{texts_view, DnsError, DnsErrorView};
use crate::ip_handler::{answer_view, get_current_ip, well_formed_answer};
use crate::text::{parent_zone, parent_zone_name};
use crate::webhook_notifier::{calls_view, notifications, notify_all, WebhookCall, WebhookCallView};
use vstd::prelude::*;
use vstd::string::*;

verus! {

/// The line that lists `record`: its name and its kind.
pub open spec fn listing_line(record: RecordView) -> Seq<char> {
    record.name + " - "@ + record.record_type.name()
}

/// The lines that list the records of `zones`, zone by zone.
pub open spec fn listing(zones: Seq<(Seq<char>, DomainView)>) -> Seq<Seq<char>> {
    zone_records(zones).map_values(|p: (Seq<char>, RecordView)| listing_line(p.1))
}

/// Position of the zone that `name` is registered in and removed from: the
/// first zone whose domain is made of the two trailing labels of `name`, or
/// `-1` where there is none.
pub open spec fn owning_zone(zones: Seq<(Seq<char>, DomainView)>, name: Seq<char>) -> int {
    match parent_zone(name) {
        Some(parent) => zone_named(zones, parent),
        None => -1,
    }
}

/// The zones with `record` added at the end of zone `z`.
pub open spec fn with_record(
    zones: Seq<(Seq<char>, DomainView)>,
    z: int,
    record: RecordView,
) -> Seq<(Seq<char>, DomainView)> {
    zones.update(
        z,
        (
            zones[z].0,
            DomainView { records: zones[z].1.records.push(record), domain: zones[z].1.domain },
        ),
    )
}

/// `records` without the record at position `i`: the last record takes its
/// place.
pub open spec fn swap_removed(records: Seq<RecordView>, i: int) -> Seq<RecordView> {
    records.update(i, records.last()).drop_last()
}

/// The zones without the record at position `i` of zone `z`.
pub open spec fn without_record(
    zones: Seq<(Seq<char>, DomainView)>,
    z: int,
    i: int,
) -> Seq<(Seq<char>, DomainView)> {
    zones.update(
        z,
        (
            zones[z].0,
            DomainView {
                records: swap_removed(zones[z].1.records, i),
                domain: zones[z].1.domain,
            },
        ),
    )
}

/// Where ids are distinct, a zone is found under its own identity.
pub proof fn lemma_zone_found_by_id(zones: Seq<(Seq<char>, DomainView)>, z: int)
    requires
        distinct_zone_ids(zones),
        0 <= z < zones.len(),
    ensures
        zone_position(zones, zones[z].0) == z,
{
    lemma_zone_position(zones, zones[z].0);
}

/// Record `r` of zone `z` is among the records of all zones.
pub proof fn lemma_record_is_listed(zones: Seq<(Seq<char>, DomainView)>, z: int, r: int)
    requires
        0 <= z < zones.len(),
        0 <= r < zones[z].1.records.len(),
    ensures
        zone_records(zones).contains((zones[z].0, zones[z].1.records[r])),
        listing(zones).contains(listing_line(zones[z].1.records[r])),
{
    let before = zone_records(zones.subrange(0, z));
    let own = zones[z].1.records.map_values(|r: RecordView| (zones[z].0, r));
    lemma_zone_records_step(zones, z);
    lemma_zone_records_prefix(zones, z + 1);
    let at = before.len() + r;
    assert((before + own)[at] == own[r]);
    assert(zone_records(zones)[at] == (zones[z].0, zones[z].1.records[r]));
    assert(listing(zones)[at] == listing_line(zones[z].1.records[r]));
}

/// A registered record is listed: where `name` lies in a zone of the
/// session, so that its registration is decided, and the provider gave the
/// record the identity `id`, the registration adds to that zone a record of
/// kind A with that name, and the listing of the session then holds the line
/// of that record.
pub proof fn lemma_registered_is_listed(
    zones: Seq<(Seq<char>, DomainView)>,
    name: Seq<char>,
    id: Seq<char>,
)
    requires
        distinct_zone_ids(zones),
        owning_zone(zones, name) >= 0,
    ensures
        ({
            let z = owning_zone(zones, name);
            let record = RecordView { id, name, record_type: RecordType::A };
            let after = with_record(zones, zone_position(zones, zones[z].0), record);
            &&& 0 <= z < zones.len()
            &&& zone_position(zones, zones[z].0) == z
            &&& zone_records(after).contains((zones[z].0, record))
            &&& listing(after).contains(name + " - "@ + "A"@)
        }),
{
    let parent = parent_zone(name)->0;
    lemma_zone_named(zones, parent);
    let z = owning_zone(zones, name);
    lemma_zone_found_by_id(zones, z);
    let record = RecordView { id, name, record_type: RecordType::A };
    let after = with_record(zones, z, record);
    let last = zones[z].1.records.len() as int;
    assert(after[z].1.records[last] == record);
    lemma_record_is_listed(after, z, last);
}

/// A removal takes out the one record of the given name and no other: where
/// the zone `z` holds a record of exactly the name `name`, the zone has one
/// record less after the removal, the record that left has that name, every
/// record of another name is still in the zone, and every other zone is as
/// it was.
pub proof fn lemma_removal_is_exact(zones: Seq<(Seq<char>, DomainView)>, z: int, name: Seq<char>)
    requires
        0 <= z < zones.len(),
        record_position(zones[z].1.records, name) >= 0,
    ensures
        ({
            let records = zones[z].1.records;
            let i = record_position(records, name);
            let after = without_record(zones, z, i);
            &&& 0 <= i < records.len()
            &&& records[i].name == name
            &&& after.len() == zones.len()
            &&& after[z].1.records.len() == records.len() - 1
            &&& forall|k: int|
                0 <= k < records.len() && (#[trigger] records[k]).name != name
                    ==> after[z].1.records.contains(records[k])
            &&& forall|j: int| 0 <= j < zones.len() && j != z ==> #[trigger] after[j] == zones[j]
        }),
{
    let records = zones[z].1.records;
    lemma_record_position(records, name);
    let i = record_position(records, name);
    let left = swap_removed(records, i);
    assert forall|k: int|
        0 <= k < records.len() && (#[trigger] records[k]).name != name implies left.contains(
        records[k],
    ) by {
        if k == records.len() - 1 {
            assert(left[i] == records[k]);
        } else {
            assert(left[k] == records[k]);
        }
    }
}

/// What a registration or a removal was decided to be, as a mathematical
/// value.
pub struct RecordChangeView {
    pub zone_id: Seq<char>,
    pub record: RecordView,
    pub dry_run: bool,
}

/// A registration or a removal that was decided: the zone, the record, and
/// whether it is only to be reported.
#[derive(Debug, PartialEq, Eq)]
pub struct RecordChange {
    pub zone_id: String,
    pub record: Record,
    pub dry_run: bool,
}

impl View for RecordChange {
    type V = RecordChangeView;

    open spec fn view(&self) -> RecordChangeView {
        RecordChangeView { zone_id: self.zone_id@, record: self.record@, dry_run: self.dry_run }
    }
}

/// One session of the tool: its mode, the tracked state and the backend.
pub struct CLIProgram<T> where T: DnsProvider {
    debug: bool,
    dry_run: bool,
    config: Config,
    api: T,
}

impl<T> CLIProgram<T> where T: DnsProvider {
    /// Whether the session reports what it would do and does nothing.
    pub closed spec fn is_dry_run(&self) -> bool {
        self.dry_run
    }

    /// Whether the session explains what it does.
    pub closed spec fn is_debug(&self) -> bool {
        self.debug
    }

    /// The tracked state of the session.
    pub closed spec fn state(&self) -> ConfigView {
        self.config@
    }

    /// The backend of the session.
    pub closed spec fn provider(&self) -> T {
        self.api
    }

    /// The tracked state of the session is well formed.
    pub open spec fn wf(&self) -> bool {
        well_formed(self.state().cloudflare_config.domains)
    }

    /// A session over `config` and the backend `api`.
    pub fn new(api: T, debug: bool, dry_run: bool, config: Config) -> (program: CLIProgram<T>)
        ensures
            program.provider() == api,
            program.is_debug() == debug,
            program.is_dry_run() == dry_run,
            program.state() == config@,
    {
        CLIProgram { debug, dry_run, config, api }
    }

    /// The tracked state of the session.
    pub fn config(&self) -> (config: &Config)
        ensures
            config@ == self.state(),
    {
        &self.config
    }

    /// The backend of the session.
    pub fn api(&self) -> (api: &T)
        ensures
            *api == self.provider(),
    {
        &self.api
    }

    /// Whether the session reports what it would do and does nothing.
    pub fn dry_run(&self) -> (dry_run: bool)
        ensures
            dry_run == self.is_dry_run(),
    {
        self.dry_run
    }

    /// Whether the session explains what it does.
    pub fn debug(&self) -> (debug: bool)
        ensures
            debug == self.is_debug(),
    {
        self.debug
    }

    /// The requests that point every record of the backend at `new_ip`; none
    /// in a dry run.
    pub fn update_records(&self, new_ip: &str) -> (requests: Vec<ApiRequest>)
        ensures
            requests_view(requests@) == if self.is_dry_run() {
                Seq::<ApiRequestView>::empty()
            } else {
                self.provider().updates(new_ip@)
            },
    {
        if self.dry_run {
            let requests: Vec<ApiRequest> = Vec::new();
            assert(requests_view(requests@) =~= Seq::<ApiRequestView>::empty());
            requests
        } else {
            self.api.change_ip(new_ip)
        }
    }
}

impl<T> CLIProgram<T> where T: DnsProvider {
    /// One line for each record of the session, zone by zone: the name of the
    /// record and its kind.
    pub fn ls(&self) -> (lines: Vec<String>)
        ensures
            texts_view(lines@) == listing(self.state().cloudflare_config.domains),
    {
        let zones = &self.config.cloudflare_config.domains;
        let ghost records = zone_records(self.state().cloudflare_config.domains);
        let places = record_places(zones);
        let mut lines: Vec<String> = Vec::new();
        let mut k: usize = 0;
        while k < places.len()
            invariant
                k <= places.len(),
                zones == &self.config.cloudflare_config.domains,
                records == zone_records(zones_view(zones@)),
                places@.len() == records.len(),
                forall|j: int|
                    0 <= j < places@.len() ==> is_place(zones@, #[trigger] places@[j])
                        && record_at(zones@, places@[j]) == records[j],
                lines@.len() == k,
                forall|j: int| 0 <= j < k ==> (#[trigger] lines@[j])@ == listing_line(records[j].1),
            decreases places.len() - k,
        {
            let (z, r) = places[k];
            assert(is_place(zones@, places@[k as int]));
            let record = &zones[z].1.records[r];
            let mut line = record.name.clone();
            line.append(" - ");
            line.append(record.record_type.to_string().as_str());
            lines.push(line);
            k = k + 1;
        }
        proof {
            assert(texts_view(lines@) =~= listing(self.state().cloudflare_config.domains));
        }
        lines
    }

    /// Looks at one zone that the provider listed, as the backend does, and
    /// says whether the zone was added. In a dry run nothing changes.
    pub fn sync_zone(&mut self, zone: &Zone, approved: bool) -> (added: bool)
        requires
            well_formed(old(self).provider().zones()),
        ensures
            final(self).is_dry_run() == old(self).is_dry_run(),
            final(self).is_debug() == old(self).is_debug(),
            final(self).state() == old(self).state(),
            well_formed(final(self).provider().zones()),
            old(self).is_dry_run() ==> !added && final(self).provider() == old(self).provider(),
            !old(self).is_dry_run() ==> {
                &&& final(self).provider().zones() == synced(
                    old(self).provider().zones(),
                    zone@,
                    approved,
                )
                &&& added == (approved && zone_position(old(self).provider().zones(), zone@.id)
                    < 0)
            },
    {
        if self.dry_run {
            return false;
        }
        self.api.sync_zone(zone, approved)
    }

    /// Takes into the backend's tracking what the provider listed for each
    /// zone: `listings[k]` holds the records that it reported for the zone at
    /// position `k`, or nothing where it reported none. Says for each zone
    /// how many records were added. In a dry run nothing is taken in.
    pub fn import(&mut self, ip: &str, listings: &Vec<Option<Vec<DnsRecord>>>) -> (added: Vec<
        usize,
    >)
        requires
            well_formed(old(self).provider().zones()),
        ensures
            final(self).is_dry_run() == old(self).is_dry_run(),
            final(self).is_debug() == old(self).is_debug(),
            final(self).state() == old(self).state(),
            well_formed(final(self).provider().zones()),
            old(self).is_dry_run() ==> {
                &&& added@.len() == 0
                &&& final(self).provider() == old(self).provider()
            },
            !old(self).is_dry_run() ==> ({
                let before = old(self).provider().zones();
                let after = final(self).provider().zones();
                &&& after == imported_all(before, listings_view(listings@), ip@)
                &&& added@.len() == before.len()
                &&& forall|k: int|
                    0 <= k < added@.len() ==> #[trigger] added@[k] == after[k].1.records.len()
                        - before[k].1.records.len()
            }),
    {
        let mut added: Vec<usize> = Vec::new();
        if self.dry_run {
            return added;
        }
        let ghost held = self.provider().zones();
        let ghost listed = listings_view(listings@);
        let ids = self.api.zone_ids();
        assert(ids@.len() == held.len()) by {
            assert(texts_view(ids@).len() == ids@.len());
            assert(zone_ids_of(held).len() == held.len());
        }
        assert(self.provider().zones() =~= imported_upto(held, listed, ip@, 0));
        let mut k: usize = 0;
        while k < ids.len()
            invariant
                k <= ids.len(),
                ids@.len() == held.len(),
                texts_view(ids@) == zone_ids_of(held),
                listed == listings_view(listings@),
                well_formed(held),
                well_formed(self.provider().zones()),
                self.provider().zones() == imported_upto(held, listed, ip@, k as int),
                self.is_dry_run() == old(self).is_dry_run(),
                self.is_debug() == old(self).is_debug(),
                self.state() == old(self).state(),
                added@.len() == k,
                forall|j: int|
                    0 <= j < k ==> #[trigger] added@[j] == imported_all(
                        held,
                        listed,
                        ip@,
                    )[j].1.records.len() - held[j].1.records.len(),
            decreases ids.len() - k,
        {
            let ghost so_far = self.provider().zones();
            proof {
                assert(texts_view(ids@)[k as int] == held[k as int].0);
                assert(so_far[k as int] == held[k as int]);
                assert forall|i: int, j: int| 0 <= i < j < so_far.len() implies (
                #[trigger] so_far[i]).0 != (#[trigger] so_far[j]).0 by {}
                lemma_zone_found_by_id(so_far, k as int);
            }
            let count = if k < listings.len() {
                match &listings[k] {
                    Some(reported) => {
                        assert(listing_for(listed, k as int) == Some(reported_view(reported@)));
                        match self.api.import(ids[k].as_str(), ip, reported) {
                            Ok(count) => count,
                            Err(_) => 0,
                        }
                    },
                    None => {
                        assert(listing_for(listed, k as int) is None);
                        0
                    },
                }
            } else {
                0
            };
            proof {
                assert(self.provider().zones() =~= imported_upto(held, listed, ip@, k + 1));
            }
            added.push(count);
            k = k + 1;
        }
        added
    }

    /// The request that fetches the live state of the first record of the
    /// backend whose name is `prefix` or begins with `prefix` and a `.`.
    pub fn inspect_domain(&self, prefix: &str) -> (request: Result<ApiRequest, DnsError>)
        ensures
            request is Ok <==> first_match(
                zone_records(self.provider().zones()),
                prefix@,
            ) >= 0,
            request matches Ok(r) ==> r@ == self.provider().fetch(
                first_match(zone_records(self.provider().zones()), prefix@),
            ),
            request matches Ok(r) ==> r@.method == HttpMethod::Get && r@.body is None,
            request matches Err(e) ==> e@ == (DnsErrorView::NoMatch { prefix: prefix@ }),
    {
        self.api.get_domain_details(prefix)
    }
}

impl<T> CLIProgram<T> where T: DnsProvider {
    /// Decides the registration of the record `domain`: a record of kind A,
    /// not yet known to the provider, in the zone that owns the name. Fails
    /// where the session holds no such zone.
    pub fn register_sub_domain(&self, domain: String) -> (decision: Result<RecordChange, DnsError>)
        ensures
            ({
                let zones = self.state().cloudflare_config.domains;
                let z = owning_zone(zones, domain@);
                match decision {
                    Ok(change) => {
                        &&& 0 <= z < zones.len()
                        &&& change@ == (RecordChangeView {
                            zone_id: zones[z].0,
                            record: RecordView {
                                id: Seq::<char>::empty(),
                                name: domain@,
                                record_type: RecordType::A,
                            },
                            dry_run: self.is_dry_run(),
                        })
                    },
                    Err(e) => z < 0 && e@ == (DnsErrorView::ZoneNotFound { name: domain@ }),
                }
            }),
    {
        let parent = match parent_zone_name(domain.as_str()) {
            Some(parent) => parent,
            None => {
                return Err(DnsError::ZoneNotFound { name: domain });
            },
        };
        proof {
            lemma_zone_named(self.state().cloudflare_config.domains, parent@);
        }
        match self.config.cloudflare_config.find_zone_named(parent.as_str()) {
            None => Err(DnsError::ZoneNotFound { name: domain }),
            Some(z) => Ok(
                RecordChange {
                    zone_id: self.config.cloudflare_config.domains[z].0.clone(),
                    record: Record { id: String::new(), name: domain, record_type: RecordType::A },
                    dry_run: self.dry_run,
                },
            ),
        }
    }

    /// The request that creates the registered record at the provider, in
    /// the zone that was decided and pointed at the current address, for
    /// which `answer` is what the lookup service answered just now, if it
    /// answered. A dry run sends nothing and needs no answer; any other run
    /// fails where the answer is no well-formed address.
    pub fn registration_request(&self, change: &RecordChange, answer: Option<String>) -> (request:
        Result<Option<ApiRequest>, DnsError>)
        ensures
            match request {
                Ok(None) => self.is_dry_run(),
                Ok(Some(r)) => {
                    &&& !self.is_dry_run()
                    &&& well_formed_answer(answer_view(answer))
                    &&& r@ == self.provider().creation(
                        change@.record,
                        change@.zone_id,
                        answer_view(answer)->0,
                    )
                    &&& r@.method == HttpMethod::Post
                    &&& carries(r@, change@.record, answer_view(answer)->0)
                },
                Err(e) => {
                    &&& !self.is_dry_run()
                    &&& !well_formed_answer(answer_view(answer))
                    &&& e@ == DnsErrorView::Lookup
                },
            },
    {
        if self.dry_run {
            return Ok(None);
        }
        match get_current_ip(answer) {
            Ok(ip) => Ok(
                Some(self.api.set_sub_domain(&change.record, change.zone_id.as_str(), ip.as_str())),
            ),
            Err(error) => Err(error),
        }
    }

    /// The request that deletes the removed record at the provider, in the
    /// zone that was decided. A dry run sends nothing.
    pub fn removal_request(&self, change: &RecordChange) -> (request: Option<ApiRequest>)
        ensures
            request is None <==> self.is_dry_run(),
            request matches Some(r) ==> r@ == self.provider().removal(
                change@.record,
                change@.zone_id,
            ),
            request matches Some(r) ==> r@.method == HttpMethod::Delete && r@.body is None,
    {
        if self.dry_run {
            None
        } else {
            Some(self.api.remove_sub_domain(&change.record, change.zone_id.as_str()))
        }
    }

    /// Takes in what the provider answered to the creation of the registered
    /// record, with the status `status`: where it created the record, the
    /// record is added at the end of its zone, under the identity that the
    /// provider gave it; where it did not, nothing changes and the failure is
    /// reported. In a dry run nothing changes.
    pub fn complete_registration(
        &mut self,
        change: &RecordChange,
        status: u16,
        reply: &DNSCreateResponse,
    ) -> (outcome: Result<(), DnsError>)
        requires
            old(self).wf(),
        ensures
            final(self).wf(),
            final(self).is_dry_run() == old(self).is_dry_run(),
            final(self).is_debug() == old(self).is_debug(),
            final(self).provider() == old(self).provider(),
            final(self).state().webhooks == old(self).state().webhooks,
            final(self).state().cloudflare_config.api_token == old(
                self,
            ).state().cloudflare_config.api_token,
            ({
                let zones = old(self).state().cloudflare_config.domains;
                let after = final(self).state().cloudflare_config.domains;
                let z = zone_position(zones, change@.zone_id);
                if old(self).is_dry_run() {
                    outcome is Ok && after == zones
                } else if !reply.names_record(status) {
                    &&& outcome matches Err(e)
                    &&& e@ == rejection(status, reply.errors@)
                    &&& after == zones
                } else {
                    match outcome {
                        Ok(_) => {
                            &&& 0 <= z < zones.len()
                            &&& after == with_record(
                                zones,
                                z,
                                RecordView {
                                    id: reply.result->0@.id,
                                    name: change@.record.name,
                                    record_type: change@.record.record_type,
                                },
                            )
                        },
                        Err(e) => {
                            &&& z < 0
                            &&& after == zones
                            &&& e@ == (DnsErrorView::ZoneNotFound { name: change@.record.name })
                        },
                    }
                }
            }),
    {
        if self.dry_run {
            return Ok(());
        }
        let id = match reply.record_id(status) {
            Ok(id) => id,
            Err(error) => {
                return Err(error);
            },
        };
        let ghost zones = self.state().cloudflare_config.domains;
        proof {
            lemma_zone_position(zones, change@.zone_id);
        }
        match self.config.cloudflare_config.find_zone(change.zone_id.as_str()) {
            None => Err(DnsError::ZoneNotFound { name: change.record.name.clone() }),
            Some(z) => {
                let record = Record {
                    id,
                    name: change.record.name.clone(),
                    record_type: change.record.record_type,
                };
                self.config.cloudflare_config.domains[z].1.records.push(record);
                let ghost after = self.state().cloudflare_config.domains;
                assert(after[z as int].1.records =~= zones[z as int].1.records.push(record@));
                assert(after =~= with_record(zones, z as int, record@));
                assert forall|a: int, r: int|
                    0 <= a < after.len() && 0 <= r < after[a].1.records.len() implies (
                #[trigger] after[a].1.records[r]).id.len() > 0 by {
                    if a != z {
                        assert(after[a] == zones[a]);
                        assert(zones[a].1.records[r].id.len() > 0);
                    } else if r < zones[a].1.records.len() {
                        assert(zones[a].1.records[r].id.len() > 0);
                    }
                }
                Ok(())
            },
        }
    }
}

impl<T> CLIProgram<T> where T: DnsProvider {
    /// Decides the removal of the record `domain`: the first record of
    /// exactly that name in the zone that owns the name. Fails where the
    /// session holds no such zone, or the zone no such record.
    pub fn remove_sub_domain(&self, domain: String) -> (decision: Result<RecordChange, DnsError>)
        ensures
            ({
                let zones = self.state().cloudflare_config.domains;
                let z = owning_zone(zones, domain@);
                match decision {
                    Ok(change) => {
                        let i = record_position(zones[z].1.records, domain@);
                        &&& 0 <= z < zones.len()
                        &&& 0 <= i < zones[z].1.records.len()
                        &&& change@ == (RecordChangeView {
                            zone_id: zones[z].0,
                            record: zones[z].1.records[i],
                            dry_run: self.is_dry_run(),
                        })
                        &&& change@.record.name == domain@
                    },
                    Err(e) => if z < 0 {
                        e@ == (DnsErrorView::ZoneNotFound { name: domain@ })
                    } else {
                        &&& record_position(zones[z].1.records, domain@) < 0
                        &&& e@ == (DnsErrorView::RecordNotFound { name: domain@ })
                    },
                }
            }),
    {
        let parent = match parent_zone_name(domain.as_str()) {
            Some(parent) => parent,
            None => {
                return Err(DnsError::ZoneNotFound { name: domain });
            },
        };
        proof {
            lemma_zone_named(self.state().cloudflare_config.domains, parent@);
        }
        let z = match self.config.cloudflare_config.find_zone_named(parent.as_str()) {
            Some(z) => z,
            None => {
                return Err(DnsError::ZoneNotFound { name: domain });
            },
        };
        let zone = &self.config.cloudflare_config.domains[z];
        proof {
            lemma_record_position(zone.1@.records, domain@);
        }
        match zone.1.find_record(domain.as_str()) {
            None => Err(DnsError::RecordNotFound { name: domain }),
            Some(i) => Ok(
                RecordChange {
                    zone_id: zone.0.clone(),
                    record: zone.1.records[i].clone(),
                    dry_run: self.dry_run,
                },
            ),
        }
    }

    /// Takes in what the provider answered to the deletion of the removed
    /// record, with the status `status`: where it deleted the record, the
    /// first record of that name leaves its zone, and the last record of the
    /// zone takes its place; where it did not, nothing changes and the
    /// failure is reported. In a dry run nothing changes.
    pub fn complete_removal(
        &mut self,
        change: &RecordChange,
        status: u16,
        reply: &UpdateResponse,
    ) -> (outcome: Result<(), DnsError>)
        requires
            old(self).wf(),
        ensures
            final(self).wf(),
            final(self).is_dry_run() == old(self).is_dry_run(),
            final(self).is_debug() == old(self).is_debug(),
            final(self).provider() == old(self).provider(),
            final(self).state().webhooks == old(self).state().webhooks,
            final(self).state().cloudflare_config.api_token == old(
                self,
            ).state().cloudflare_config.api_token,
            ({
                let zones = old(self).state().cloudflare_config.domains;
                let after = final(self).state().cloudflare_config.domains;
                let z = zone_position(zones, change@.zone_id);
                if old(self).is_dry_run() {
                    outcome is Ok && after == zones
                } else if !reply.accepted(status) {
                    &&& outcome matches Err(e)
                    &&& e@ == rejection(status, reply.errors@)
                    &&& after == zones
                } else {
                    match outcome {
                        Ok(_) => {
                            let i = record_position(zones[z].1.records, change@.record.name);
                            &&& 0 <= z < zones.len()
                            &&& 0 <= i < zones[z].1.records.len()
                            &&& after == without_record(zones, z, i)
                        },
                        Err(e) => {
                            &&& after == zones
                            &&& if z < 0 {
                                e@ == (DnsErrorView::ZoneNotFound { name: change@.record.name })
                            } else {
                                &&& record_position(zones[z].1.records, change@.record.name) < 0
                                &&& e@ == (DnsErrorView::RecordNotFound {
                                    name: change@.record.name,
                                })
                            }
                        },
                    }
                }
            }),
    {
        if self.dry_run {
            return Ok(());
        }
        match reply.outcome(status) {
            Ok(_) => {},
            Err(error) => {
                return Err(error);
            },
        }
        let ghost zones = self.state().cloudflare_config.domains;
        proof {
            lemma_zone_position(zones, change@.zone_id);
        }
        let z = match self.config.cloudflare_config.find_zone(change.zone_id.as_str()) {
            Some(z) => z,
            None => {
                return Err(DnsError::ZoneNotFound { name: change.record.name.clone() });
            },
        };
        proof {
            lemma_record_position(zones[z as int].1.records, change@.record.name);
        }
        let found = self.config.cloudflare_config.domains[z].1.find_record(
            change.record.name.as_str(),
        );
        match found {
            None => Err(DnsError::RecordNotFound { name: change.record.name.clone() }),
            Some(i) => {
                self.config.cloudflare_config.domains[z].1.records.swap_remove(i);
                let ghost after = self.state().cloudflare_config.domains;
                assert(after[z as int].1.records =~= swap_removed(
                    zones[z as int].1.records,
                    i as int,
                ));
                assert(after =~= without_record(zones, z as int, i as int));
                assert forall|a: int, r: int|
                    0 <= a < after.len() && 0 <= r < after[a].1.records.len() implies (
                #[trigger] after[a].1.records[r]).id.len() > 0 by {
                    if a != z {
                        assert(after[a] == zones[a]);
                        assert(zones[a].1.records[r].id.len() > 0);
                    } else if r == i {
                        assert(zones[a].1.records[zones[a].1.records.len() - 1].id.len() > 0);
                    } else {
                        assert(zones[a].1.records[r].id.len() > 0);
                    }
                }
                Ok(())
            },
        }
    }
}

impl<T> CLIProgram<T> where T: DnsProvider {
    /// What the session is to a check cycle.
    pub open spec fn session(&self) -> Session {
        Session {
            dry_run: self.is_dry_run(),
            notifications: |from: Seq<char>, to: Seq<char>|
                notifications(self.state().webhooks, from, to),
            updates: |ip: Seq<char>| self.provider().updates(ip),
        }
    }

    /// What a cycle of the session posts and sends: one notification for
    /// each webhook, and one update for each record of the backend, which
    /// carries that record, pointed at `ip`.
    pub proof fn lemma_session_covers(&self, from: Seq<char>, ip: Seq<char>)
        ensures
            (self.session().notifications)(from, ip).len() == self.state().webhooks.len(),
            (self.session().updates)(ip).len() == zone_records(self.provider().zones()).len(),
            forall|k: int|
                0 <= k < (self.session().updates)(ip).len() ==> carries(
                    #[trigger] (self.session().updates)(ip)[k],
                    zone_records(self.provider().zones())[k].1,
                    ip,
                ),
    {
        self.provider().updates_cover_records(ip);
    }

    /// A check cycle that is still to be begun. It is begun, and moved on,
    /// by `advance`.
    pub fn check_for_new_ip(&self, force: bool) -> (cycle: CheckCycle)
        ensures
            cycle@ == idle(force),
    {
        CheckCycle {
            phase: Phase::Idle,
            force,
            old_ip: String::new(),
            new_ip: String::new(),
            pending: 0,
        }
    }

    /// One step of a check cycle: takes in what happened and says where the
    /// cycle stands now and what it asks for.
    pub fn advance(&self, cycle: CheckCycle, event: CheckEvent) -> (step: (CheckCycle, CheckAction))
        ensures
            (step.0@, step.1@) == next(self.session(), cycle@, event@),
    {
        let CheckCycle { phase, force, old_ip, new_ip, pending } = cycle;
        let done = CheckCycle { phase: Phase::Done, force, old_ip, new_ip, pending };
        match phase {
            Phase::Idle => match event {
                CheckEvent::Proceed => (
                    CheckCycle { phase: Phase::Fetching, ..done },
                    CheckAction::Fetch,
                ),
                _ => (done, CheckAction::Nothing),
            },
            Phase::Fetching => match event {
                CheckEvent::Fetched { last_ip, answer } => match get_current_ip(answer) {
                    Ok(current_ip) => self.after_fetch(force, last_ip, current_ip),
                    Err(error) => {
                        let mut errors: Vec<DnsError> = Vec::new();
                        errors.push(error);
                        assert(errors_view(errors@) =~= seq![DnsErrorView::Lookup]);
                        (done, CheckAction::Fail { errors })
                    },
                },
                _ => (done, CheckAction::Nothing),
            },
            Phase::Changed => {
                if self.dry_run {
                    return (done, CheckAction::Nothing);
                }
                let calls = notify_all(&self.config.webhooks, &done.old_ip, &done.new_ip);
                (CheckCycle { phase: Phase::Notifying, ..done }, CheckAction::Notify { calls })
            },
            Phase::Notifying => {
                if self.dry_run {
                    return (done, CheckAction::Nothing);
                }
                let requests = self.api.change_ip(done.new_ip.as_str());
                assert(requests_view(requests@).len() == requests@.len());
                (
                    CheckCycle { phase: Phase::Applying, pending: requests.len(), ..done },
                    CheckAction::Apply { requests },
                )
            },
            Phase::Applying => match event {
                CheckEvent::Applied { outcomes } => {
                    if self.dry_run {
                        return (done, CheckAction::Nothing);
                    }
                    let errors = failures(&outcomes);
                    assert(outcomes_view(outcomes@).len() == outcomes@.len());
                    if outcomes.len() == pending && errors.len() == 0 {
                        let ip = done.new_ip.clone();
                        (
                            CheckCycle { phase: Phase::Persisting, ..done },
                            CheckAction::Persist { ip },
                        )
                    } else {
                        (done, CheckAction::Fail { errors })
                    }
                },
                _ => (done, CheckAction::Nothing),
            },
            _ => (done, CheckAction::Nothing),
        }
    }

    /// The step of a cycle that has read the addresses.
    fn after_fetch(&self, force: bool, last_ip: Option<String>, current_ip: String) -> (step: (
        CheckCycle,
        CheckAction,
    ))
        ensures
            (step.0@, step.1@) == after_fetch(
                self.session(),
                force,
                answer_view(last_ip),
                current_ip@,
            ),
    {
        match last_ip {
            None => {
                if self.dry_run {
                    let notifications: Vec<WebhookCall> = Vec::new();
                    let updates: Vec<ApiRequest> = Vec::new();
                    assert(calls_view(notifications@) =~= Seq::<WebhookCallView>::empty());
                    assert(requests_view(updates@) =~= Seq::<ApiRequestView>::empty());
                    let ip = current_ip.clone();
                    (
                        CheckCycle {
                            phase: Phase::DryRunShortCircuit,
                            force,
                            old_ip: String::new(),
                            new_ip: current_ip,
                            pending: 0,
                        },
                        CheckAction::Describe { notifications, updates, ip },
                    )
                } else {
                    let ip = current_ip.clone();
                    (
                        CheckCycle {
                            phase: Phase::Persisting,
                            force,
                            old_ip: String::new(),
                            new_ip: current_ip,
                            pending: 0,
                        },
                        CheckAction::Persist { ip },
                    )
                }
            },
            Some(old_ip) => {
                if old_ip == current_ip && !force {
                    (
                        CheckCycle {
                            phase: Phase::Unchanged,
                            force,
                            old_ip,
                            new_ip: current_ip,
                            pending: 0,
                        },
                        CheckAction::Nothing,
                    )
                } else if self.dry_run {
                    let notifications = notify_all(&self.config.webhooks, &old_ip, &current_ip);
                    let updates = self.api.change_ip(current_ip.as_str());
                    let ip = current_ip.clone();
                    (
                        CheckCycle {
                            phase: Phase::DryRunShortCircuit,
                            force,
                            old_ip,
                            new_ip: current_ip,
                            pending: 0,
                        },
                        CheckAction::Describe { notifications, updates, ip },
                    )
                } else {
                    (
                        CheckCycle {
                            phase: Phase::Changed,
                            force,
                            old_ip,
                            new_ip: current_ip,
                            pending: 0,
                        },
                        CheckAction::Nothing,
                    )
                }
            },
        }
    }
}

} // verus!
