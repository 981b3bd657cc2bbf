//! A resource-record set: the records of one name and type, their
//! signatures, and the serial of their last change, kept by the replacement
//! rules of RFC 2136.

use vstd::prelude::*;
use crate::rr::{
    algorithm_number, Algorithm, DNSClass, Name, RData, RDataView, Record, RecordType, RecordView,
    SupportedAlgorithms,
};

verus! {

/// The view of a record set.
pub struct RecordSetView {
    pub name: Seq<char>,
    pub record_type: RecordType,
    pub dns_class: DNSClass,
    pub ttl: u32,
    pub records: Seq<RecordView>,
    pub rrsigs: Seq<RecordView>,
    pub serial: u32,
}

/// The views of a sequence of records.
pub open spec fn views(s: Seq<Record>) -> Seq<RecordView> {
    s.map_values(|r: Record| r@)
}

/// The views of a sequence of borrowed records.
pub open spec fn ref_views(s: Seq<&Record>) -> Seq<RecordView> {
    s.map_values(|r: &Record| r@)
}

/// Every record carries the set's name and type, no two records carry the
/// same payload, and a start-of-authority or alias set holds one record at most.
pub open spec fn set_wf(s: RecordSetView) -> bool {
    &&& forall|i: int|
        0 <= i < s.records.len() ==> (#[trigger] s.records[i]).name == s.name && s.records[i].rr_type
            == s.record_type
    &&& forall|i: int, j: int|
        0 <= i < j < s.records.len() ==> (#[trigger] s.records[i]).rdata != (#[trigger] s.records[j]).rdata
    &&& (s.record_type == RecordType::SOA || s.record_type == RecordType::CNAME) ==> s.records.len() <= 1
}

/// A record may go into, or be removed from, a set by the set's own name and type.
pub open spec fn fits(s: RecordSetView, r: RecordView) -> bool {
    r.name == s.name && r.rr_type == s.record_type
}

/// The zone serial of a start-of-authority payload.
pub open spec fn soa_serial(d: RDataView) -> u32 {
    match d {
        RDataView::SOA(soa) => soa.serial,
        _ => 0,
    }
}

/// Whether some record of `rs` carries the payload `d`.
pub open spec fn has_rdata(rs: Seq<RecordView>, d: RDataView) -> bool {
    exists|i: int| 0 <= i < rs.len() && rs[i].rdata == d
}

/// The position of a record of `rs` that carries the payload `d`.
pub open spec fn rdata_index(rs: Seq<RecordView>, d: RDataView) -> int {
    choose|i: int| 0 <= i < rs.len() && rs[i].rdata == d
}

/// The start-of-authority rule turns `r` down: it carries no start-of-authority
/// payload, or its zone serial is not above the stored one.
pub open spec fn soa_refused(s: RecordSetView, r: RecordView) -> bool {
    &&& s.record_type == RecordType::SOA
    &&& !(r.rdata is SOA) || (s.records.len() > 0 && s.records[0].rdata is SOA && soa_serial(r.rdata)
        <= soa_serial(s.records[0].rdata))
}

/// The records that an insert is measured against: none for the single-valued
/// types, whose record is always replaced.
pub open spec fn insert_base(s: RecordSetView) -> Seq<RecordView> {
    if s.record_type == RecordType::SOA || s.record_type == RecordType::CNAME {
        Seq::empty()
    } else {
        s.records
    }
}

/// `rs` with `r` in place of the record of the same payload, or with `r` appended.
pub open spec fn with_record(rs: Seq<RecordView>, r: RecordView) -> Seq<RecordView> {
    if has_rdata(rs, r.rdata) {
        rs.update(rdata_index(rs, r.rdata), r)
    } else {
        rs.push(r)
    }
}

/// Whether `insert` leaves the set alone: the start-of-authority rule refuses
/// `r`, or an identical record is stored.
pub open spec fn insert_refused(s: RecordSetView, r: RecordView) -> bool {
    soa_refused(s, r) || insert_base(s).contains(r)
}

/// The set after `r` was accepted at `serial`: the records updated, the ttl
/// taken from `r`, the signatures dropped.
pub open spec fn after_insert(s: RecordSetView, r: RecordView, serial: u32) -> RecordSetView {
    RecordSetView {
        records: with_record(insert_base(s), r),
        ttl: r.ttl,
        rrsigs: Seq::empty(),
        serial,
        ..s
    }
}

/// Whether `remove` leaves the set alone: the last record of a name-server
/// set, any record of a start-of-authority set, or a payload that is not stored.
pub open spec fn remove_refused(s: RecordSetView, r: RecordView) -> bool {
    ||| s.record_type == RecordType::NS && s.records.len() <= 1
    ||| s.record_type == RecordType::SOA
    ||| !has_rdata(s.records, r.rdata)
}

/// The set after the record with the payload of `r` was removed at `serial`.
pub open spec fn after_remove(s: RecordSetView, r: RecordView, serial: u32) -> RecordSetView {
    RecordSetView {
        records: s.records.remove(rdata_index(s.records, r.rdata)),
        rrsigs: Seq::empty(),
        serial,
        ..s
    }
}

/// The algorithm of a signature record, if it carries a signature.
pub open spec fn sig_algorithm(r: RecordView) -> Option<Algorithm> {
    match r.rdata {
        RDataView::SIG(sig) => Some(sig.algorithm),
        _ => None,
    }
}

/// The `k`-th signature is made with an algorithm in `sa`.
pub open spec fn offered(sigs: Seq<RecordView>, sa: SupportedAlgorithms, k: int) -> bool {
    &&& sig_algorithm(sigs[k]) is Some
    &&& sa.contains(sig_algorithm(sigs[k])->Some_0)
}

/// The number of the algorithm of the `k`-th signature.
pub open spec fn sig_number(sigs: Seq<RecordView>, k: int) -> u8 {
    algorithm_number(sig_algorithm(sigs[k])->Some_0)
}

/// The `j`-th signature is the last of those in `sa` with the largest algorithm number.
pub open spec fn strongest(sigs: Seq<RecordView>, sa: SupportedAlgorithms, j: int) -> bool {
    &&& 0 <= j < sigs.len()
    &&& offered(sigs, sa, j)
    &&& forall|k: int| 0 <= k < sigs.len() && offered(sigs, sa, k) ==> sig_number(sigs, k) <= sig_number(sigs, j)
    &&& forall|k: int| j < k < sigs.len() && offered(sigs, sa, k) ==> sig_number(sigs, k) < sig_number(sigs, j)
}

/// Set of resource records associated to a name and type.
#[derive(Debug)]
pub struct RecordSet {
    name: Name,
    record_type: RecordType,
    dns_class: DNSClass,
    ttl: u32,
    records: Vec<Record>,
    rrsigs: Vec<Record>,
    serial: u32,
}

impl View for RecordSet {
    type V = RecordSetView;

    closed spec fn view(&self) -> RecordSetView {
        RecordSetView {
            name: self.name@,
            record_type: self.record_type,
            dns_class: self.dns_class,
            ttl: self.ttl,
            records: views(self.records@),
            rrsigs: views(self.rrsigs@),
            serial: self.serial,
        }
    }
}

impl RecordSet {
    /// The set's invariant holds.
    pub open spec fn wf(&self) -> bool {
        set_wf(self@)
    }

    /// Creates an empty set of class IN and ttl 0, at `serial`.
    pub fn new(name: &Name, record_type: RecordType, serial: u32) -> (r: Self)
        ensures
            r.wf(),
            r@ == (RecordSetView {
                name: name@,
                record_type,
                dns_class: DNSClass::IN,
                ttl: 0,
                records: Seq::empty(),
                rrsigs: Seq::empty(),
                serial,
            }),
    {
        let r = RecordSet {
            name: name.clone(),
            record_type,
            dns_class: DNSClass::IN,
            ttl: 0,
            records: Vec::new(),
            rrsigs: Vec::new(),
            serial,
        };
        assert(views(r.records@) =~= Seq::empty());
        assert(views(r.rrsigs@) =~= Seq::empty());
        r
    }

    /// Creates an empty set of class IN with the given ttl, at serial 0.
    pub fn with_ttl(name: Name, record_type: RecordType, ttl: u32) -> (r: Self)
        ensures
            r.wf(),
            r@ == (RecordSetView {
                name: name@,
                record_type,
                dns_class: DNSClass::IN,
                ttl,
                records: Seq::empty(),
                rrsigs: Seq::empty(),
                serial: 0,
            }),
    {
        let r = RecordSet {
            name,
            record_type,
            dns_class: DNSClass::IN,
            ttl,
            records: Vec::new(),
            rrsigs: Vec::new(),
            serial: 0,
        };
        assert(views(r.records@) =~= Seq::empty());
        assert(views(r.rrsigs@) =~= Seq::empty());
        r
    }

    /// Creates a set that holds `record`, with its name, type, class and ttl, at serial 0.
    pub fn from(record: Record) -> (r: Self)
        ensures
            r.wf(),
            r@ == (RecordSetView {
                name: record@.name,
                record_type: record@.rr_type,
                dns_class: record@.dns_class,
                ttl: record@.ttl,
                records: seq![record@],
                rrsigs: Seq::empty(),
                serial: 0,
            }),
    {
        let name = record.name().clone();
        let record_type = record.rr_type();
        let dns_class = record.dns_class();
        let ttl = record.ttl();
        let ghost rv = record@;
        let r = RecordSet {
            name,
            record_type,
            dns_class,
            ttl,
            records: vec![record],
            rrsigs: Vec::new(),
            serial: 0,
        };
        assert(views(r.records@) =~= seq![rv]);
        assert(views(r.rrsigs@) =~= Seq::empty());
        r
    }

    /// The name of the set.
    pub fn name(&self) -> (r: &Name)
        ensures
            r@ == self@.name,
    {
        &self.name
    }

    /// The record type of the set.
    pub fn record_type(&self) -> (r: RecordType)
        ensures
            r == self@.record_type,
    {
        self.record_type
    }

    /// The class of the set.
    pub fn dns_class(&self) -> (r: DNSClass)
        ensures
            r == self@.dns_class,
    {
        self.dns_class
    }

    /// The time to live of the set, in seconds.
    pub fn ttl(&self) -> (r: u32)
        ensures
            r == self@.ttl,
    {
        self.ttl
    }

    /// Whether the set holds no record.
    pub fn is_empty(&self) -> (r: bool)
        ensures
            r == (self@.records.len() == 0),
    {
        self.records.is_empty()
    }

    /// The serial at which the set last changed.
    pub fn serial(&self) -> (r: u32)
        ensures
            r == self@.serial,
    {
        self.serial
    }

    /// The signatures of the set.
    pub fn rrsigs(&self) -> (r: &[Record])
        ensures
            views(r@) == self@.rrsigs,
    {
        self.rrsigs.as_slice()
    }

    /// Adds a signature over the set.
    pub fn insert_rrsig(&mut self, rrsig: Record)
        requires
            old(self).wf(),
        ensures
            final(self).wf(),
            final(self)@ == (RecordSetView { rrsigs: old(self)@.rrsigs.push(rrsig@), ..old(self)@ }),
    {
        self.rrsigs.push(rrsig);
        assert(views(self.rrsigs@) =~= views(old(self).rrsigs@).push(rrsig@));
    }

    /// Drops all signatures of the set.
    pub fn clear_rrsigs(&mut self)
        requires
            old(self).wf(),
        ensures
            final(self).wf(),
            final(self)@ == (RecordSetView { rrsigs: Seq::empty(), ..old(self)@ }),
    {
        self.rrsigs.clear();
        assert(views(self.rrsigs@) =~= Seq::empty());
    }

    /// Marks a change at `serial`: the signatures no longer hold.
    fn updated(&mut self, serial: u32)
        ensures
            final(self)@ == (RecordSetView { rrsigs: Seq::empty(), serial, ..old(self)@ }),
    {
        self.serial = serial;
        self.rrsigs.clear();
        assert(views(self.rrsigs@) =~= Seq::empty());
    }

    /// Inserts `record` at `serial`, by the rules of RFC 2136 section 1.1.5:
    /// a start-of-authority record replaces the stored one only with a larger
    /// zone serial, an alias record always replaces the stored one, a record
    /// identical to a stored one changes nothing, and a record with the payload
    /// of a stored one takes its place. Returns whether the set changed; if it
    /// did, the set's ttl is the record's, the signatures are gone and the
    /// serial is `serial`.
    pub fn insert(&mut self, record: Record, serial: u32) -> (r: bool)
        requires
            old(self).wf(),
            fits(old(self)@, record@),
        ensures
            final(self).wf(),
            r == !insert_refused(old(self)@, record@),
            final(self)@ == if r {
                after_insert(old(self)@, record@, serial)
            } else {
                old(self)@
            },
    {
        let ghost s = self@;
        let ghost rv = record@;
        match self.record_type {
            RecordType::SOA => {
                let new_serial = match record.rdata() {
                    RData::SOA(soa) => soa.serial(),
                    _ => return false,
                };
                if self.records.len() > 0 {
                    if let RData::SOA(existing) = self.records[0].rdata() {
                        if new_serial <= existing.serial() {
                            return false;
                        }
                    }
                }
                self.records.clear();
            },
            RecordType::CNAME => {
                self.records.clear();
            },
            _ => {},
        }
        assert(views(self.records@) =~= insert_base(s));
        assert(!soa_refused(s, rv));
        let mut i: usize = 0;
        while i < self.records.len()
            invariant
                s == old(self)@,
                rv == record@,
                set_wf(s),
                fits(s, rv),
                !soa_refused(s, rv),
                views(self.records@) == insert_base(s),
                self@ == (RecordSetView { records: insert_base(s), ..s }),
                0 <= i <= self.records@.len(),
                forall|j: int| 0 <= j < i ==> (#[trigger] self.records@[j])@.rdata != rv.rdata,
            decreases self.records@.len() - i,
        {
            if self.records[i].rdata() == record.rdata() {
                let ghost base = insert_base(s);
                assert(base[i as int].rdata == rv.rdata);
                if self.records[i] == record {
                    assert(base[i as int] == rv);
                    assert(base.contains(rv));
                    assert(self@ =~= s);
                    return false;
                }
                proof {
                    assert(has_rdata(base, rv.rdata));
                    let k = rdata_index(base, rv.rdata);
                    if k != i {
                        if k < i {
                            assert(base[k].rdata != base[i as int].rdata);
                        } else {
                            assert(base[i as int].rdata != base[k].rdata);
                        }
                    }
                    assert(!base.contains(rv)) by {
                        if base.contains(rv) {
                            let m = choose|m: int| 0 <= m < base.len() && base[m] == rv;
                            if m < i {
                                assert(base[m].rdata != base[i as int].rdata);
                            } else if m > i {
                                assert(base[i as int].rdata != base[m].rdata);
                            }
                        }
                    }
                }
                self.ttl = record.ttl();
                self.records.set(i, record);
                self.updated(serial);
                assert(views(self.records@) =~= base.update(i as int, rv));
                proof {
                    let n = views(self.records@);
                    assert forall|a: int, b: int| 0 <= a < b < n.len() implies (#[trigger] n[a]).rdata != (
                    #[trigger] n[b]).rdata by {
                        assert(base[a].rdata != base[b].rdata);
                    }
                }
                return true;
            }
            i = i + 1;
        }
        let ghost base = insert_base(s);
        assert(!has_rdata(base, rv.rdata));
        assert(!base.contains(rv)) by {
            if base.contains(rv) {
                let m = choose|m: int| 0 <= m < base.len() && base[m] == rv;
                assert(base[m].rdata == rv.rdata);
            }
        }
        self.ttl = record.ttl();
        self.updated(serial);
        self.records.push(record);
        assert(views(self.records@) =~= base.push(rv));
        true
    }

    /// Removes the record with the payload of `record` at `serial`. The last
    /// name-server record and any start-of-authority record are never removed.
    /// Returns whether a record was removed; if one was, the signatures are
    /// gone and the serial is `serial`.
    pub fn remove(&mut self, record: &Record, serial: u32) -> (r: bool)
        requires
            old(self).wf(),
            record@.name == old(self)@.name,
            record@.rr_type == old(self)@.record_type || record@.rr_type == RecordType::ANY,
        ensures
            final(self).wf(),
            r == !remove_refused(old(self)@, record@),
            final(self)@ == if r {
                after_remove(old(self)@, record@, serial)
            } else {
                old(self)@
            },
    {
        let ghost s = self@;
        let ghost rv = record@;
        match self.record_type {
            RecordType::NS => {
                if self.records.len() <= 1 {
                    return false;
                }
            },
            RecordType::SOA => {
                return false;
            },
            _ => {},
        }
        let mut i: usize = 0;
        while i < self.records.len()
            invariant
                s == old(self)@,
                rv == record@,
                set_wf(s),
                self@ == s,
                !(s.record_type == RecordType::NS && s.records.len() <= 1),
                s.record_type != RecordType::SOA,
                0 <= i <= self.records@.len(),
                forall|j: int| 0 <= j < i ==> (#[trigger] self.records@[j])@.rdata != rv.rdata,
            decreases self.records@.len() - i,
        {
            if self.records[i].rdata() == record.rdata() {
                proof {
                    assert(s.records[i as int].rdata == rv.rdata);
                    assert(has_rdata(s.records, rv.rdata));
                    let k = rdata_index(s.records, rv.rdata);
                    if k < i {
                        assert(s.records[k].rdata != s.records[i as int].rdata);
                    } else if k > i {
                        assert(s.records[i as int].rdata != s.records[k].rdata);
                    }
                }
                self.records.remove(i);
                self.updated(serial);
                assert(views(self.records@) =~= s.records.remove(i as int));
                proof {
                    let n = views(self.records@);
                    assert forall|a: int, b: int| 0 <= a < b < n.len() implies (#[trigger] n[a]).rdata != (
                    #[trigger] n[b]).rdata by {
                        if a < i && b < i {
                            assert(s.records[a].rdata != s.records[b].rdata);
                        } else if a < i {
                            assert(s.records[a].rdata != s.records[b + 1].rdata);
                        } else {
                            assert(s.records[a + 1].rdata != s.records[b + 1].rdata);
                        }
                    }
                    assert forall|a: int| 0 <= a < n.len() implies (#[trigger] n[a]).name == s.name
                        && n[a].rr_type == s.record_type by {
                        if a >= i {
                            assert(n[a] == s.records[a + 1]);
                        }
                    }
                }
                return true;
            }
            i = i + 1;
        }
        assert(!has_rdata(s.records, rv.rdata));
        false
    }

    /// Sets the class of the set and of every record in it.
    pub fn set_dns_class(&mut self, dns_class: DNSClass)
        requires
            old(self).wf(),
        ensures
            final(self).wf(),
            final(self)@ == (RecordSetView {
                dns_class,
                records: old(self)@.records.map_values(|r: RecordView| RecordView { dns_class, ..r }),
                ..old(self)@
            }),
    {
        self.dns_class = dns_class;
        let ghost s = old(self)@;
        let ghost target = s.records.map_values(|r: RecordView| RecordView { dns_class, ..r });
        let mut i: usize = 0;
        while i < self.records.len()
            invariant
                s == old(self)@,
                set_wf(s),
                target == s.records.map_values(|r: RecordView| RecordView { dns_class, ..r }),
                self@ == (RecordSetView { dns_class, records: self@.records, ..s }),
                self@.records.len() == s.records.len(),
                0 <= i <= self@.records.len(),
                forall|j: int| 0 <= j < i ==> self@.records[j] == target[j],
                forall|j: int| i <= j < self@.records.len() ==> self@.records[j] == s.records[j],
            decreases self@.records.len() - i,
        {
            let mut r = self.records[i].clone();
            r.set_dns_class(dns_class);
            self.records.set(i, r);
            i = i + 1;
        }
        assert(self@.records =~= target);
        proof {
            let n = self@.records;
            assert forall|a: int, b: int| 0 <= a < b < n.len() implies (#[trigger] n[a]).rdata != (
            #[trigger] n[b]).rdata by {
                assert(s.records[a].rdata != s.records[b].rdata);
            }
        }
    }

    /// Sets the ttl of the set and of every record in it.
    pub fn set_ttl(&mut self, ttl: u32)
        requires
            old(self).wf(),
        ensures
            final(self).wf(),
            final(self)@ == (RecordSetView {
                ttl,
                records: old(self)@.records.map_values(|r: RecordView| RecordView { ttl, ..r }),
                ..old(self)@
            }),
    {
        self.ttl = ttl;
        let ghost s = old(self)@;
        let ghost target = s.records.map_values(|r: RecordView| RecordView { ttl, ..r });
        let mut i: usize = 0;
        while i < self.records.len()
            invariant
                s == old(self)@,
                set_wf(s),
                target == s.records.map_values(|r: RecordView| RecordView { ttl, ..r }),
                self@ == (RecordSetView { ttl, records: self@.records, ..s }),
                self@.records.len() == s.records.len(),
                0 <= i <= self@.records.len(),
                forall|j: int| 0 <= j < i ==> self@.records[j] == target[j],
                forall|j: int| i <= j < self@.records.len() ==> self@.records[j] == s.records[j],
            decreases self@.records.len() - i,
        {
            let mut r = self.records[i].clone();
            r.set_ttl(ttl);
            self.records.set(i, r);
            i = i + 1;
        }
        assert(self@.records =~= target);
        proof {
            let n = self@.records;
            assert forall|a: int, b: int| 0 <= a < b < n.len() implies (#[trigger] n[a]).rdata != (
            #[trigger] n[b]).rdata by {
                assert(s.records[a].rdata != s.records[b].rdata);
            }
        }
    }

    /// All records of the set, without signatures.
    pub fn records_without_rrsigs(&self) -> (r: Vec<&Record>)
        ensures
            ref_views(r@) == self@.records,
    {
        let mut out: Vec<&Record> = Vec::new();
        let mut i: usize = 0;
        while i < self.records.len()
            invariant
                0 <= i <= self.records@.len(),
                out@.len() == i,
                ref_views(out@) == views(self.records@).subrange(0, i as int),
            decreases self.records@.len() - i,
        {
            let rec = &self.records[i];
            assert(rec@ == views(self.records@)[i as int]);
            let ghost prev = out@;
            out.push(rec);
            assert(out@ == prev.push(rec));
            i = i + 1;
            assert(ref_views(out@) =~= views(self.records@).subrange(0, i as int));
        }
        assert(views(self.records@).subrange(0, i as int) =~= self@.records);
        out
    }

    /// All records of the set, then signatures. With no supported algorithm
    /// given, every signature follows (RFC 6975 does not apply); otherwise only
    /// the last of the signatures with the largest supported algorithm number.
    pub fn records_with_rrsigs(&self, supported_algorithms: SupportedAlgorithms) -> (r: Vec<&Record>)
        ensures
            (forall|a: Algorithm| !supported_algorithms.contains(a)) ==> ref_views(r@) == self@.records
                + self@.rrsigs,
            !(forall|a: Algorithm| !supported_algorithms.contains(a)) ==> {
                ||| exists|j: int|
                    strongest(self@.rrsigs, supported_algorithms, j) && ref_views(r@) == self@.records.push(
                        self@.rrsigs[j],
                    )
                ||| (forall|k: int|
                    0 <= k < self@.rrsigs.len() ==> !offered(self@.rrsigs, supported_algorithms, k))
                    && ref_views(r@) == self@.records
            },
    {
        let mut out = self.records_without_rrsigs();
        let ghost sigs = self@.rrsigs;
        if supported_algorithms.is_empty() {
            let ghost base = ref_views(out@);
            assert(out@.len() == base.len());
            let mut k: usize = 0;
            while k < self.rrsigs.len()
                invariant
                    sigs == views(self.rrsigs@),
                    0 <= k <= self.rrsigs@.len(),
                    ref_views(out@) == base + sigs.subrange(0, k as int),
                    out@.len() == base.len() + k,
                decreases self.rrsigs@.len() - k,
            {
                let sig = &self.rrsigs[k];
                assert(sig@ == sigs[k as int]);
                let ghost prev = out@;
                out.push(sig);
                assert(out@ == prev.push(sig));
                assert(ref_views(out@) =~= ref_views(prev).push(sig@));
                assert(sigs.subrange(0, k + 1) =~= sigs.subrange(0, k as int).push(sigs[k as int]));
                k = k + 1;
                assert(ref_views(out@) =~= base + sigs.subrange(0, k as int));
            }
            assert(sigs.subrange(0, k as int) =~= sigs);
            return out;
        }
        let mut best: Option<usize> = None;
        let mut best_number: u8 = 0;
        let mut k: usize = 0;
        while k < self.rrsigs.len()
            invariant
                sigs == views(self.rrsigs@),
                0 <= k <= self.rrsigs@.len(),
                best is None ==> forall|m: int| 0 <= m < k ==> !offered(sigs, supported_algorithms, m),
                best is Some ==> {
                    let j = best->Some_0 as int;
                    &&& 0 <= j < k
                    &&& offered(sigs, supported_algorithms, j)
                    &&& best_number == sig_number(sigs, j)
                    &&& forall|m: int|
                        0 <= m < k && offered(sigs, supported_algorithms, m) ==> sig_number(sigs, m)
                            <= sig_number(sigs, j)
                    &&& forall|m: int|
                        j < m < k && offered(sigs, supported_algorithms, m) ==> sig_number(sigs, m)
                            < sig_number(sigs, j)
                },
            decreases self.rrsigs@.len() - k,
        {
            if let RData::SIG(sig) = self.rrsigs[k].rdata() {
                let alg = sig.algorithm();
                if supported_algorithms.has(alg) {
                    let n = alg.to_u8();
                    if best.is_none() || n >= best_number {
                        best = Some(k);
                        best_number = n;
                    }
                }
            }
            k = k + 1;
        }
        match best {
            Some(j) => {
                let ghost before = ref_views(out@);
                out.push(&self.rrsigs[j]);
                assert(ref_views(out@) =~= before.push(sigs[j as int]));
                assert(strongest(sigs, supported_algorithms, j as int));
            },
            None => {},
        }
        out
    }

    /// The records of the set, with signatures chosen as in
    /// `records_with_rrsigs` when `and_rrsigs` holds.
    pub fn records(&self, and_rrsigs: bool, supported_algorithms: SupportedAlgorithms) -> (r: Vec<&Record>)
        ensures
            !and_rrsigs ==> ref_views(r@) == self@.records,
            and_rrsigs && (forall|a: Algorithm| !supported_algorithms.contains(a)) ==> ref_views(r@)
                == self@.records + self@.rrsigs,
            and_rrsigs && !(forall|a: Algorithm| !supported_algorithms.contains(a)) ==> {
                ||| exists|j: int|
                    strongest(self@.rrsigs, supported_algorithms, j) && ref_views(r@) == self@.records.push(
                        self@.rrsigs[j],
                    )
                ||| (forall|k: int|
                    0 <= k < self@.rrsigs.len() ==> !offered(self@.rrsigs, supported_algorithms, k))
                    && ref_views(r@) == self@.records
            },
    {
        if and_rrsigs {
            self.records_with_rrsigs(supported_algorithms)
        } else {
            self.records_without_rrsigs()
        }
    }

    /// The records and then the signatures of the set, in storage order.
    pub fn into_records(self) -> (r: Vec<Record>)
        ensures
            views(r@) == self@.records + self@.rrsigs,
    {
        let mut records = self.records;
        let mut rrsigs = self.rrsigs;
        let ghost a = records@;
        let ghost b = rrsigs@;
        records.append(&mut rrsigs);
        assert(views(records@) =~= views(a) + views(b));
        records
    }

    /// The record that `new_record` makes of `rdata`: the set's name and type,
    /// class IN, the set's ttl.
    pub open spec fn record_of(&self, rdata: RDataView) -> RecordView {
        RecordView {
            name: self@.name,
            rr_type: self@.record_type,
            dns_class: DNSClass::IN,
            ttl: self@.ttl,
            rdata,
        }
    }

    /// Makes a record of `rdata` with the set's name, type and ttl, inserts
    /// it at serial 0, and returns the stored record with that payload. A
    /// start-of-authority payload must be one that the set keeps: of a larger
    /// zone serial than the stored one, or the stored payload itself.
    pub fn new_record(&mut self, rdata: &RData) -> (r: &Record)
        requires
            old(self).wf(),
            crate::rr::rdata_type(rdata@) == old(self)@.record_type,
            !soa_refused(old(self)@, old(self).record_of(rdata@)) || has_rdata(old(self)@.records, rdata@),
        ensures
            final(self).wf(),
            final(self)@ == if insert_refused(old(self)@, old(self).record_of(rdata@)) {
                old(self)@
            } else {
                after_insert(old(self)@, old(self).record_of(rdata@), 0)
            },
            r@.rdata == rdata@,
            final(self)@.records.contains(r@),
            !insert_refused(old(self)@, old(self).record_of(rdata@)) ==> r@ == old(self).record_of(rdata@),
    {
        let ghost s = self@;
        let ghost rv = self.record_of(rdata@);
        let record = Record::new(self.name.clone(), self.record_type, DNSClass::IN, self.ttl, rdata.clone());
        assert(record@ == rv);
        self.insert(record, 0);
        let ghost p: int = 0;
        proof {
            if insert_refused(s, rv) {
                if !soa_refused(s, rv) {
                    let base = insert_base(s);
                    let m = choose|m: int| 0 <= m < base.len() && base[m] == rv;
                    assert(self@.records[m].rdata == rdata@);
                }
            } else {
                let base = insert_base(s);
                if has_rdata(base, rv.rdata) {
                    p = rdata_index(base, rv.rdata);
                } else {
                    p = base.len() as int;
                }
                assert(self@.records[p] == rv);
            }
        }
        assert(has_rdata(self@.records, rdata@));
        let ghost after = self@;
        let n = self.records.len();
        let mut i: usize = 0;
        while !(self.records[i].rdata() == rdata)
            invariant
                self@ == after,
                n == self.records@.len(),
                0 <= i < self.records@.len(),
                exists|k: int| i <= k < self@.records.len() && self@.records[k].rdata == rdata@,
            decreases self.records@.len() - i,
        {
            i = i + 1;
        }
        assert(self@.records[i as int] == self.records@[i as int]@);
        proof {
            if !insert_refused(s, rv) {
                if p < i {
                    assert(after.records[p].rdata != after.records[i as int].rdata);
                } else if p > i {
                    assert(after.records[i as int].rdata != after.records[p].rdata);
                }
            }
        }
        &self.records[i]
    }

    /// An iterator over the records of the set, in storage order.
    pub fn iter(&self) -> (r: std::slice::Iter<'_, Record>)
        ensures
            views(vstd::std_specs::slice::into_iter_elts(r)) == self@.records,
    {
        self.records.iter()
    }
}

/// A start-of-authority record goes into an empty set, and replaces the
/// stored one exactly when its zone serial is larger than the stored one's;
/// once accepted it is the only record.
pub proof fn lemma_soa_serial_monotonic(s: RecordSetView, r: RecordView, serial: u32)
    requires
        set_wf(s),
        fits(s, r),
        s.record_type == RecordType::SOA,
        r.rdata is SOA,
        s.records.len() == 0 || s.records[0].rdata is SOA,
    ensures
        insert_refused(s, r) <==> (s.records.len() == 1 && soa_serial(r.rdata) <= soa_serial(
            s.records[0].rdata,
        )),
        !insert_refused(s, r) ==> after_insert(s, r, serial).records == seq![r],
{
    assert(!insert_base(s).contains(r));
    assert(!has_rdata(insert_base(s), r.rdata));
    assert(with_record(insert_base(s), r) =~= seq![r]);
}

/// An alias record always replaces the stored one, whatever its target.
pub proof fn lemma_cname_replaced(s: RecordSetView, r: RecordView, serial: u32)
    requires
        set_wf(s),
        fits(s, r),
        s.record_type == RecordType::CNAME,
    ensures
        !insert_refused(s, r),
        after_insert(s, r, serial).records == seq![r],
{
    assert(!insert_base(s).contains(r));
    assert(!has_rdata(insert_base(s), r.rdata));
    assert(with_record(insert_base(s), r) =~= seq![r]);
}

/// Once an insert of a record is accepted, the set holds it exactly once and
/// inserting it again is refused (sets of aliases excepted, whose record is
/// always replaced).
pub proof fn lemma_insert_idempotent(s: RecordSetView, r: RecordView, serial: u32)
    requires
        set_wf(s),
        fits(s, r),
        s.record_type != RecordType::CNAME,
        !insert_refused(s, r),
    ensures
        insert_refused(after_insert(s, r, serial), r),
        after_insert(s, r, serial).records.contains(r),
        forall|i: int, j: int|
            0 <= i < after_insert(s, r, serial).records.len() && 0 <= j < after_insert(
                s,
                r,
                serial,
            ).records.len() && after_insert(s, r, serial).records[i] == r && after_insert(
                s,
                r,
                serial,
            ).records[j] == r ==> i == j,
{
    let base = insert_base(s);
    let n = after_insert(s, r, serial).records;
    if has_rdata(base, r.rdata) {
        let k = rdata_index(base, r.rdata);
        assert(n[k] == r);
        assert forall|i: int| 0 <= i < n.len() && i != k implies n[i].rdata != r.rdata by {
            if i < k {
                assert(base[i].rdata != base[k].rdata);
            } else {
                assert(base[k].rdata != base[i].rdata);
            }
        }
    } else {
        assert(n[base.len() as int] == r);
        assert forall|i: int| 0 <= i < n.len() && i != base.len() implies n[i].rdata != r.rdata by {
            assert(base[i].rdata != r.rdata);
        }
    }
    assert(n.contains(r));
    if s.record_type == RecordType::SOA {
        assert(n =~= seq![r]);
    }
}

/// With two name-server records, removing one succeeds and removing the other
/// then fails; once the first is back, the other can be removed.
pub proof fn lemma_ns_floor(s: RecordSetView, r1: RecordView, r2: RecordView, serial: u32)
    requires
        set_wf(s),
        s.record_type == RecordType::NS,
        fits(s, r1),
        fits(s, r2),
        s.records.len() == 2,
        has_rdata(s.records, r1.rdata),
        has_rdata(s.records, r2.rdata),
        r1.rdata != r2.rdata,
    ensures
        !remove_refused(s, r1),
        after_remove(s, r1, serial).records.len() == 1,
        remove_refused(after_remove(s, r1, serial), r2),
        !insert_refused(after_remove(s, r1, serial), r1),
        !remove_refused(after_insert(after_remove(s, r1, serial), r1, serial), r2),
{
    let s2 = after_remove(s, r1, serial);
    let k1 = rdata_index(s.records, r1.rdata);
    let k2 = rdata_index(s.records, r2.rdata);
    assert(k1 != k2);
    let other = 1 - k1;
    assert(other == k2);
    assert(s2.records =~= seq![s.records[k2]]);
    assert(!has_rdata(s2.records, r1.rdata));
    assert(!s2.records.contains(r1));
    let s3 = after_insert(s2, r1, serial);
    assert(s3.records =~= seq![s.records[k2], r1]);
    assert(s3.records[0].rdata == r2.rdata);
}

/// A start-of-authority set never gives up a record, whatever is asked for.
pub proof fn lemma_soa_irremovable(s: RecordSetView, r: RecordView, serial: u32)
    requires
        s.record_type == RecordType::SOA,
    ensures
        remove_refused(s, r),
{
}

/// Every accepted insert or remove drops all signatures and moves the serial
/// to the one given.
pub proof fn lemma_change_drops_signatures(s: RecordSetView, r: RecordView, serial: u32)
    ensures
        !insert_refused(s, r) ==> after_insert(s, r, serial).rrsigs.len() == 0
            && after_insert(s, r, serial).serial == serial,
        !remove_refused(s, r) ==> after_remove(s, r, serial).rrsigs.len() == 0
            && after_remove(s, r, serial).serial == serial,
{
}

/// Types that can be turned into a record set.
pub trait IntoRecordSet: Sized {
    /// The set that the conversion gives.
    spec fn record_set_of(&self) -> RecordSetView;

    /// Performs the conversion.
    fn into_record_set(self) -> (r: RecordSet)
        ensures
            r@ == self.record_set_of(),
    ;
}

impl IntoRecordSet for RecordSet {
    open spec fn record_set_of(&self) -> RecordSetView {
        self@
    }

    fn into_record_set(self) -> (r: RecordSet) {
        self
    }
}

impl IntoRecordSet for Record {
    /// The set that holds just this record, as `RecordSet::from` makes it.
    open spec fn record_set_of(&self) -> RecordSetView {
        RecordSetView {
            name: self@.name,
            record_type: self@.rr_type,
            dns_class: self@.dns_class,
            ttl: self@.ttl,
            records: seq![self@],
            rrsigs: Seq::empty(),
            serial: 0,
        }
    }

    fn into_record_set(self) -> (r: RecordSet) {
        RecordSet::from(self)
    }
}

} // verus!
