//! What every DNS backend offers: for each operation the request to send,
//! and what the answers do to the tracked state.

use crate::cloudflare_provider::{reported_view, synced, DnsRecord, DnsRecordView, Zone};
use crate::config::{
    well_formed, zone_position, zones_view, Domain, DomainView, Record, RecordType, RecordView,
};
use crate::error::{texts_view, DnsError, DnsErrorView};
use crate::seq_util::first_index;
use crate::text::names_prefix;
use vstd::prelude::*;

verus! {

/// The method of a request.
#[derive(Clone, Copy, Debug, PartialEq, Eq, Structural)]
pub enum HttpMethod {
    Get,
    Post,
    Put,
    Patch,
    Delete,
}

/// The record that a request carries, as a mathematical value.
pub struct RecordBodyView {
    pub record_type: Seq<char>,
    pub name: Seq<char>,
    pub content: Seq<char>,
    pub proxied: Option<bool>,
}

/// The record that a request carries: its kind, its name, the address it is
/// to point at and, where the request sets it, whether the provider proxies it.
#[derive(Debug, PartialEq, Eq)]
pub struct RecordBody {
    pub record_type: String,
    pub name: String,
    pub content: String,
    pub proxied: Option<bool>,
}

impl View for RecordBody {
    type V = RecordBodyView;

    open spec fn view(&self) -> RecordBodyView {
        RecordBodyView {
            record_type: self.record_type@,
            name: self.name@,
            content: self.content@,
            proxied: self.proxied,
        }
    }
}

/// A request as a mathematical value.
pub struct ApiRequestView {
    pub method: HttpMethod,
    pub url: Seq<char>,
    pub authorization: Seq<char>,
    pub body: Option<RecordBodyView>,
}

/// A request to a provider: everything that is needed to send it.
#[derive(Debug, PartialEq, Eq)]
pub struct ApiRequest {
    pub method: HttpMethod,
    pub url: String,
    /// Value of the authorization header.
    pub authorization: String,
    pub body: Option<RecordBody>,
}

impl View for ApiRequest {
    type V = ApiRequestView;

    open spec fn view(&self) -> ApiRequestView {
        ApiRequestView {
            method: self.method,
            url: self.url@,
            authorization: self.authorization@,
            body: match self.body {
                Some(body) => Some(body@),
                None => None,
            },
        }
    }
}

/// The requests of a list, each by its view.
pub open spec fn requests_view(requests: Seq<ApiRequest>) -> Seq<ApiRequestView> {
    requests.map_values(|r: ApiRequest| r@)
}

/// The request carries `record`, pointed at `ip`.
pub open spec fn carries(request: ApiRequestView, record: RecordView, ip: Seq<char>) -> bool {
    &&& request.body matches Some(body)
    &&& body.record_type == record.record_type.name()
    &&& body.name == record.name
    &&& body.content == ip
}

/// Every record with the identity of its zone, zone by zone, in order.
pub open spec fn zone_records(zones: Seq<(Seq<char>, DomainView)>) -> Seq<
    (Seq<char>, RecordView),
>
    decreases zones.len(),
{
    if zones.len() == 0 {
        seq![]
    } else {
        let zone = zones.last();
        zone_records(zones.drop_last()) + zone.1.records.map_values(
            |r: RecordView| (zone.0, r),
        )
    }
}

/// The records of the first `n + 1` zones are those of the first `n` zones
/// followed by those of zone `n`.
pub proof fn lemma_zone_records_step(zones: Seq<(Seq<char>, DomainView)>, n: int)
    requires
        0 <= n < zones.len(),
    ensures
        zone_records(zones.subrange(0, n + 1)) == zone_records(zones.subrange(0, n))
            + zones[n].1.records.map_values(|r: RecordView| (zones[n].0, r)),
{
    let upto = zones.subrange(0, n + 1);
    assert(upto.drop_last() =~= zones.subrange(0, n));
    assert(upto.last() == zones[n]);
}

/// The records of the first `n` zones stand at the front of the records of
/// all zones.
pub proof fn lemma_zone_records_prefix(zones: Seq<(Seq<char>, DomainView)>, n: int)
    requires
        0 <= n <= zones.len(),
    ensures
        zone_records(zones.subrange(0, n)).is_prefix_of(zone_records(zones)),
    decreases zones.len() - n,
{
    if n == zones.len() {
        assert(zones.subrange(0, n) =~= zones);
    } else {
        lemma_zone_records_step(zones, n);
        lemma_zone_records_prefix(zones, n + 1);
    }
}

/// The place is that of a record of `zones`: the position of a zone, and a
/// position among the records of that zone.
pub open spec fn is_place(zones: Seq<(String, Domain)>, place: (usize, usize)) -> bool {
    place.0 < zones.len() && place.1 < zones[place.0 as int].1.records@.len()
}

/// The record at `place`, with the identity of its zone.
pub open spec fn record_at(zones: Seq<(String, Domain)>, place: (usize, usize)) -> (
    Seq<char>,
    RecordView,
) {
    (zones[place.0 as int].0@, zones[place.0 as int].1.records@[place.1 as int]@)
}

/// The places of the records of `zones`, zone by zone and record by record:
/// one for each entry of `zone_records`, in its order.
pub fn record_places(zones: &Vec<(String, Domain)>) -> (places: Vec<(usize, usize)>)
    ensures
        places@.len() == zone_records(zones_view(zones@)).len(),
        forall|k: int|
            0 <= k < places@.len() ==> is_place(zones@, #[trigger] places@[k]) && record_at(
                zones@,
                places@[k],
            ) == zone_records(zones_view(zones@))[k],
{
    let ghost held = zones_view(zones@);
    let mut places: Vec<(usize, usize)> = Vec::new();
    let mut z: usize = 0;
    while z < zones.len()
        invariant
            z <= zones.len(),
            held == zones_view(zones@),
            places@.len() == zone_records(held.subrange(0, z as int)).len(),
            forall|k: int|
                0 <= k < places@.len() ==> is_place(zones@, #[trigger] places@[k]) && record_at(
                    zones@,
                    places@[k],
                ) == zone_records(held.subrange(0, z as int))[k],
        decreases zones.len() - z,
    {
        let ghost before = zone_records(held.subrange(0, z as int));
        let ghost own = held[z as int].1.records.map_values(
            |r: RecordView| (held[z as int].0, r),
        );
        proof {
            lemma_zone_records_step(held, z as int);
        }
        let count = zones[z].1.records.len();
        let mut r: usize = 0;
        while r < count
            invariant
                z < zones.len(),
                r <= count,
                count == zones@[z as int].1.records@.len(),
                held == zones_view(zones@),
                own == held[z as int].1.records.map_values(
                    |r: RecordView| (held[z as int].0, r),
                ),
                places@.len() == before.len() + r,
                forall|k: int|
                    0 <= k < places@.len() ==> is_place(zones@, #[trigger] places@[k])
                        && record_at(zones@, places@[k]) == (before + own)[k],
            decreases count - r,
        {
            assert((before + own)[before.len() + r] == own[r as int]);
            assert(own[r as int] == record_at(zones@, (z, r)));
            places.push((z, r));
            r = r + 1;
        }
        z = z + 1;
    }
    proof {
        assert(held.subrange(0, z as int) =~= held);
    }
    places
}

/// Position among `records` of the first whose name is `prefix` or begins
/// with `prefix` and a `.`, or `-1`.
pub open spec fn first_match(records: Seq<(Seq<char>, RecordView)>, prefix: Seq<char>) -> int {
    first_index(records, |p: (Seq<char>, RecordView)| names_prefix(p.1.name, prefix))
}

/// The kind of tracked record that a reported record gives: that of an
/// address record whose content is `ip`, and none for any other record.
pub open spec fn address_kind(record: DnsRecordView, ip: Seq<char>) -> Option<RecordType> {
    if record.content != ip {
        None
    } else if record.type_field == "A"@ {
        Some(RecordType::A)
    } else if record.type_field == "AAAA"@ {
        Some(RecordType::AAA)
    } else {
        None
    }
}

/// Some record among `records` has the provider identity `id`.
pub open spec fn tracks_id(records: Seq<RecordView>, id: Seq<char>) -> bool {
    exists|k: int| 0 <= k < records.len() && (#[trigger] records[k]).id == id
}

/// A reported record is taken in beside `records`: it is an address record
/// that points at `ip`, it has an identity, and none of `records` has that
/// identity.
pub open spec fn takes_in(records: Seq<RecordView>, next: DnsRecordView, ip: Seq<char>) -> bool {
    address_kind(next, ip) is Some && next.id.len() > 0 && !tracks_id(records, next.id)
}

/// The records of a zone after the reported records were taken in, one after
/// the other: an address record that points at `ip` and has an identity is
/// added at the end unless a record of its identity is there already.
pub open spec fn merge_records(
    records: Seq<RecordView>,
    reported: Seq<DnsRecordView>,
    ip: Seq<char>,
) -> Seq<RecordView>
    decreases reported.len(),
{
    if reported.len() == 0 {
        records
    } else {
        let before = merge_records(records, reported.drop_last(), ip);
        let next = reported.last();
        if takes_in(before, next, ip) {
            before.push(
                RecordView {
                    id: next.id,
                    name: next.name,
                    record_type: address_kind(next, ip)->0,
                },
            )
        } else {
            before
        }
    }
}

/// Taking records in only adds at the end: what was there stays where it
/// was, and an identity that was held is still held.
pub proof fn lemma_merge_extends(
    records: Seq<RecordView>,
    reported: Seq<DnsRecordView>,
    ip: Seq<char>,
)
    ensures
        records.is_prefix_of(merge_records(records, reported, ip)),
        forall|id: Seq<char>|
            tracks_id(records, id) ==> tracks_id(merge_records(records, reported, ip), id),
    decreases reported.len(),
{
    let merged = merge_records(records, reported, ip);
    if reported.len() > 0 {
        let before = merge_records(records, reported.drop_last(), ip);
        lemma_merge_extends(records, reported.drop_last(), ip);
        assert(before.is_prefix_of(merged));
    }
    assert forall|id: Seq<char>| tracks_id(records, id) implies tracks_id(merged, id) by {
        let k = choose|k: int| 0 <= k < records.len() && (#[trigger] records[k]).id == id;
        assert(merged[k] == records[k]);
    }
}

/// After records were taken in, every reported address record that points
/// at `ip` and has an identity is held by its identity.
pub proof fn lemma_merge_holds_reported(
    records: Seq<RecordView>,
    reported: Seq<DnsRecordView>,
    ip: Seq<char>,
)
    ensures
        forall|k: int|
            0 <= k < reported.len() && address_kind(#[trigger] reported[k], ip) is Some
                && reported[k].id.len() > 0 ==> tracks_id(
                merge_records(records, reported, ip),
                reported[k].id,
            ),
    decreases reported.len(),
{
    let merged = merge_records(records, reported, ip);
    if reported.len() > 0 {
        let head = reported.drop_last();
        let before = merge_records(records, head, ip);
        let next = reported.last();
        lemma_merge_holds_reported(records, head, ip);
        assert(before.is_prefix_of(merged));
        assert forall|k: int|
            0 <= k < reported.len() && address_kind(#[trigger] reported[k], ip) is Some
                && reported[k].id.len() > 0 implies tracks_id(merged, reported[k].id) by {
            if k < head.len() {
                assert(head[k] == reported[k]);
                let at = choose|j: int|
                    0 <= j < before.len() && (#[trigger] before[j]).id == reported[k].id;
                assert(merged[at] == before[at]);
            } else if tracks_id(before, next.id) {
                let at = choose|j: int|
                    0 <= j < before.len() && (#[trigger] before[j]).id == next.id;
                assert(merged[at] == before[at]);
            } else {
                assert(merged[before.len() as int].id == next.id);
            }
        }
    }
}

/// Where every reported address record that points at `ip` and has an
/// identity is held already, taking the reported records in changes nothing.
pub proof fn lemma_merge_of_held(
    records: Seq<RecordView>,
    reported: Seq<DnsRecordView>,
    ip: Seq<char>,
)
    requires
        forall|k: int|
            0 <= k < reported.len() && address_kind(#[trigger] reported[k], ip) is Some
                && reported[k].id.len() > 0 ==> tracks_id(records, reported[k].id),
    ensures
        merge_records(records, reported, ip) == records,
    decreases reported.len(),
{
    if reported.len() > 0 {
        let head = reported.drop_last();
        assert forall|k: int|
            0 <= k < head.len() && address_kind(#[trigger] head[k], ip) is Some && head[k].id.len()
                > 0 implies tracks_id(records, head[k].id) by {
            assert(head[k] == reported[k]);
        }
        lemma_merge_of_held(records, head, ip);
        assert(reported.last() == reported[reported.len() - 1]);
    }
}

/// Taking records in brings no record without an identity: where every one
/// of `records` has an identity, so has every record after the reported
/// records were taken in.
pub proof fn lemma_merge_identified(
    records: Seq<RecordView>,
    reported: Seq<DnsRecordView>,
    ip: Seq<char>,
)
    requires
        forall|k: int| 0 <= k < records.len() ==> (#[trigger] records[k]).id.len() > 0,
    ensures
        forall|k: int|
            0 <= k < merge_records(records, reported, ip).len() ==> (#[trigger] merge_records(
                records,
                reported,
                ip,
            )[k]).id.len() > 0,
    decreases reported.len(),
{
    if reported.len() > 0 {
        lemma_merge_identified(records, reported.drop_last(), ip);
    }
}

/// An import that is run again adds nothing: where the provider reports the
/// same records as before, the records of the zone after the second import
/// are those after the first.
pub proof fn lemma_import_twice(
    records: Seq<RecordView>,
    reported: Seq<DnsRecordView>,
    ip: Seq<char>,
)
    ensures
        merge_records(merge_records(records, reported, ip), reported, ip) == merge_records(
            records,
            reported,
            ip,
        ),
{
    lemma_merge_holds_reported(records, reported, ip);
    lemma_merge_of_held(merge_records(records, reported, ip), reported, ip);
}

/// An import that is run again leaves every zone as the first import left
/// it, and so the number of records of every zone.
pub proof fn lemma_import_into_twice(
    zones: Seq<(Seq<char>, DomainView)>,
    z: int,
    reported: Seq<DnsRecordView>,
    ip: Seq<char>,
)
    requires
        0 <= z < zones.len(),
    ensures
        import_into(import_into(zones, z, reported, ip), z, reported, ip) == import_into(
            zones,
            z,
            reported,
            ip,
        ),
        forall|j: int|
            0 <= j < zones.len() ==> (#[trigger] import_into(
                import_into(zones, z, reported, ip),
                z,
                reported,
                ip,
            )[j]).1.records.len() == import_into(zones, z, reported, ip)[j].1.records.len(),
{
    lemma_import_twice(zones[z].1.records, reported, ip);
    assert(import_into(import_into(zones, z, reported, ip), z, reported, ip) =~= import_into(
        zones,
        z,
        reported,
        ip,
    ));
}

/// The zones after zone `z` took in the reported records.
pub open spec fn import_into(
    zones: Seq<(Seq<char>, DomainView)>,
    z: int,
    reported: Seq<DnsRecordView>,
    ip: Seq<char>,
) -> Seq<(Seq<char>, DomainView)> {
    zones.update(
        z,
        (
            zones[z].0,
            DomainView {
                records: merge_records(zones[z].1.records, reported, ip),
                domain: zones[z].1.domain,
            },
        ),
    )
}

/// The zone after it took in what was listed for it, if anything was.
pub open spec fn imported_zone(
    zone: (Seq<char>, DomainView),
    listing: Option<Seq<DnsRecordView>>,
    ip: Seq<char>,
) -> (Seq<char>, DomainView) {
    match listing {
        Some(reported) => (
            zone.0,
            DomainView {
                records: merge_records(zone.1.records, reported, ip),
                domain: zone.1.domain,
            },
        ),
        None => zone,
    }
}

/// What was listed for the zone at position `k`: `listings[k]`, and nothing
/// where `listings` does not reach that far.
pub open spec fn listing_for(listings: Seq<Option<Seq<DnsRecordView>>>, k: int) -> Option<
    Seq<DnsRecordView>,
> {
    if 0 <= k < listings.len() {
        listings[k]
    } else {
        None
    }
}

/// The zones after the first `n` of them took in what was listed for them.
pub open spec fn imported_upto(
    zones: Seq<(Seq<char>, DomainView)>,
    listings: Seq<Option<Seq<DnsRecordView>>>,
    ip: Seq<char>,
    n: int,
) -> Seq<(Seq<char>, DomainView)> {
    Seq::new(
        zones.len(),
        |k: int|
            if k < n {
                imported_zone(zones[k], listing_for(listings, k), ip)
            } else {
                zones[k]
            },
    )
}

/// The zones after each took in what was listed for it.
pub open spec fn imported_all(
    zones: Seq<(Seq<char>, DomainView)>,
    listings: Seq<Option<Seq<DnsRecordView>>>,
    ip: Seq<char>,
) -> Seq<(Seq<char>, DomainView)> {
    imported_upto(zones, listings, ip, zones.len() as int)
}

/// The listings of a list, each by the views of its records.
pub open spec fn listings_view(listings: Seq<Option<Vec<DnsRecord>>>) -> Seq<
    Option<Seq<DnsRecordView>>,
> {
    listings.map_values(
        |l: Option<Vec<DnsRecord>>|
            match l {
                Some(records) => Some(reported_view(records@)),
                None => None,
            },
    )
}

/// The identities of the zones, in order.
pub open spec fn zone_ids_of(zones: Seq<(Seq<char>, DomainView)>) -> Seq<Seq<char>> {
    zones.map_values(|z: (Seq<char>, DomainView)| z.0)
}

/// A whole import that is run again adds nothing: where the provider lists
/// the same records as before, every zone is after the second import as the
/// first import left it, and so is the number of its records.
pub proof fn lemma_import_all_twice(
    zones: Seq<(Seq<char>, DomainView)>,
    listings: Seq<Option<Seq<DnsRecordView>>>,
    ip: Seq<char>,
)
    ensures
        imported_all(imported_all(zones, listings, ip), listings, ip) == imported_all(
            zones,
            listings,
            ip,
        ),
        forall|k: int|
            0 <= k < zones.len() ==> (#[trigger] imported_all(
                imported_all(zones, listings, ip),
                listings,
                ip,
            )[k]).1.records.len() == imported_all(zones, listings, ip)[k].1.records.len(),
{
    let once = imported_all(zones, listings, ip);
    let twice = imported_all(once, listings, ip);
    assert forall|k: int| 0 <= k < zones.len() implies twice[k] == once[k] by {
        match listing_for(listings, k) {
            Some(reported) => {
                lemma_import_twice(zones[k].1.records, reported, ip);
            },
            None => {},
        }
    }
    assert(twice =~= once);
}

/// What every DNS backend offers. A backend holds the zones and records it
/// tracks; for each operation it says which request is to be sent, and it
/// takes in what a listing reported.
pub trait DnsProvider {
    /// The zones and records that the backend keeps, in order.
    spec fn zones(&self) -> Seq<(Seq<char>, DomainView)>;

    /// The identities of the zones that the backend keeps, in order.
    fn zone_ids(&self) -> (ids: Vec<String>)
        ensures
            texts_view(ids@) == zone_ids_of(self.zones()),
    ;

    /// The request that creates `record` in zone `zone_id`, pointed at `ip`.
    spec fn creation(
        &self,
        record: RecordView,
        zone_id: Seq<char>,
        ip: Seq<char>,
    ) -> ApiRequestView;

    /// A creation is posted and carries the record, pointed at `ip`.
    proof fn creation_carries_record(&self, record: RecordView, zone_id: Seq<char>, ip: Seq<char>)
        ensures
            self.creation(record, zone_id, ip).method == HttpMethod::Post,
            carries(self.creation(record, zone_id, ip), record, ip),
    ;

    /// The request that creates `record` in zone `zone_id`, pointed at `ip`.
    fn set_sub_domain(&self, record: &Record, zone_id: &str, ip: &str) -> (request: ApiRequest)
        ensures
            request@ == self.creation(record@, zone_id@, ip@),
            request@.method == HttpMethod::Post,
            carries(request@, record@, ip@),
    ;

    /// The request that deletes `record` from zone `zone_id`.
    spec fn removal(&self, record: RecordView, zone_id: Seq<char>) -> ApiRequestView;

    /// A removal is a deletion without a body.
    proof fn removal_has_no_body(&self, record: RecordView, zone_id: Seq<char>)
        ensures
            self.removal(record, zone_id).method == HttpMethod::Delete,
            self.removal(record, zone_id).body is None,
    ;

    /// The request that deletes `record` from zone `zone_id`.
    fn remove_sub_domain(&self, record: &Record, zone_id: &str) -> (request: ApiRequest)
        ensures
            request@ == self.removal(record@, zone_id@),
            request@.method == HttpMethod::Delete,
            request@.body is None,
    ;

    /// The requests that point every record at `ip`.
    spec fn updates(&self, ip: Seq<char>) -> Seq<ApiRequestView>;

    /// There is one update for each record, in the order of `zone_records`,
    /// and it carries that record, pointed at `ip`.
    proof fn updates_cover_records(&self, ip: Seq<char>)
        ensures
            self.updates(ip).len() == zone_records(self.zones()).len(),
            forall|k: int|
                0 <= k < self.updates(ip).len() ==> (#[trigger] self.updates(ip)[k]).method
                    == HttpMethod::Patch && carries(
                    self.updates(ip)[k],
                    zone_records(self.zones())[k].1,
                    ip,
                ),
    ;

    /// The requests that point every record at `ip`: one for each record.
    fn change_ip(&self, ip: &str) -> (requests: Vec<ApiRequest>)
        ensures
            requests_view(requests@) == self.updates(ip@),
    ;

    /// Looks at one zone that the provider listed: a zone that is held takes
    /// the listed name; one that is not held is added, without records,
    /// where `approved` says so. Says whether the zone was added.
    fn sync_zone(&mut self, zone: &Zone, approved: bool) -> (added: bool)
        requires
            well_formed(old(self).zones()),
        ensures
            well_formed(final(self).zones()),
            final(self).zones() == synced(old(self).zones(), zone@, approved),
            added == (approved && zone_position(old(self).zones(), zone@.id) < 0),
    ;

    /// Takes the records that the provider reported for zone `zone_id` into
    /// tracking and says how many were added. A zone that is not tracked is
    /// refused and nothing changes.
    fn import(&mut self, zone_id: &str, ip: &str, reported: &Vec<DnsRecord>) -> (outcome: Result<
        usize,
        DnsError,
    >)
        requires
            well_formed(old(self).zones()),
        ensures
            well_formed(final(self).zones()),
            zone_position(old(self).zones(), zone_id@) < 0 ==> {
                &&& outcome matches Err(e)
                &&& e@ == (DnsErrorView::ZoneNotFound { name: zone_id@ })
                &&& final(self).zones() == old(self).zones()
            },
            zone_position(old(self).zones(), zone_id@) >= 0 ==> {
                let z = zone_position(old(self).zones(), zone_id@);
                &&& outcome matches Ok(added)
                &&& final(self).zones() == import_into(
                    old(self).zones(),
                    z,
                    reported_view(reported@),
                    ip@,
                )
                &&& added == final(self).zones()[z].1.records.len() - old(
                    self,
                ).zones()[z].1.records.len()
            },
    ;

    /// The request that fetches the live state of the record at position
    /// `at` of `zone_records`.
    spec fn fetch(&self, at: int) -> ApiRequestView;

    /// A fetch is a reading without a body.
    proof fn fetch_has_no_body(&self, at: int)
        ensures
            self.fetch(at).method == HttpMethod::Get,
            self.fetch(at).body is None,
    ;

    /// The request that fetches the live state of the first tracked record
    /// whose name is `prefix` or begins with `prefix` and a `.`.
    fn get_domain_details(&self, prefix: &str) -> (request: Result<ApiRequest, DnsError>)
        ensures
            request is Ok <==> first_match(zone_records(self.zones()), prefix@) >= 0,
            request matches Ok(r) ==> r@ == self.fetch(
                first_match(zone_records(self.zones()), prefix@),
            ),
            request matches Ok(r) ==> r@.method == HttpMethod::Get && r@.body is None,
            request matches Err(e) ==> e@ == (DnsErrorView::NoMatch { prefix: prefix@ }),
    ;
}

/// The live state of one record at the provider.
#[derive(Debug, PartialEq, Eq)]
pub struct DomainDetails {
    pub name: String,
    pub record_type: String,
    pub content: String,
    pub proxied: bool,
    pub ttl: u32,
    pub modified_on: Option<String>,
}

/// The live state of one record as a mathematical value.
pub struct DomainDetailsView {
    pub name: Seq<char>,
    pub record_type: Seq<char>,
    pub content: Seq<char>,
    pub proxied: bool,
    pub ttl: u32,
    pub modified_on: Option<Seq<char>>,
}

impl View for DomainDetails {
    type V = DomainDetailsView;

    open spec fn view(&self) -> DomainDetailsView {
        DomainDetailsView {
            name: self.name@,
            record_type: self.record_type@,
            content: self.content@,
            proxied: self.proxied,
            ttl: self.ttl,
            modified_on: match self.modified_on {
                Some(at) => Some(at@),
                None => None,
            },
        }
    }
}

} // verus!
