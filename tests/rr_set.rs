use trust_dns_proto::rr::{Algorithm, DNSClass, Name, RData, Record, RecordType, SupportedAlgorithms, SIG, SOA};
use trust_dns_proto::rr_set::{IntoRecordSet, RecordSet};

fn a_record(name: &Name, ttl: u32, d: u8) -> Record {
    Record::new(name.clone(), RecordType::A, DNSClass::IN, ttl, RData::A(93, 184, 216, d))
}

fn soa_record(name: &Name, mname: &str, rname: &str, serial: u32) -> Record {
    Record::new(
        name.clone(),
        RecordType::SOA,
        DNSClass::IN,
        3600,
        RData::SOA(SOA::new(
            Name::from_text(mname),
            Name::from_text(rname),
            serial,
            7200,
            3600,
            1209600,
            3600,
        )),
    )
}

fn ns_record(name: &Name, target: &str) -> Record {
    Record::new(name.clone(), RecordType::NS, DNSClass::IN, 86400, RData::NS(Name::from_text(target)))
}

fn rrsig(name: &Name, algorithm: Algorithm) -> Record {
    Record::new(
        name.clone(),
        RecordType::RRSIG,
        DNSClass::IN,
        3600,
        RData::SIG(SIG::new(RecordType::A, algorithm, 0, 0, 0, 0, 0, Name::root(), vec![])),
    )
}

fn sig_algorithm(r: &Record) -> Option<Algorithm> {
    match r.rdata() {
        RData::SIG(sig) => Some(sig.algorithm()),
        _ => None,
    }
}

#[test]
fn test_insert() {
    let name = Name::from_text("www.example.com.");
    let record_type = RecordType::A;
    let mut rr_set = RecordSet::new(&name, record_type, 0);

    let insert = a_record(&name, 86400, 24);

    assert!(rr_set.insert(insert.clone(), 0));
    assert_eq!(rr_set.records_without_rrsigs().len(), 1);
    assert!(rr_set.records_without_rrsigs().contains(&&insert));

    // dups ignored
    assert!(!rr_set.insert(insert.clone(), 0));
    assert_eq!(rr_set.records_without_rrsigs().len(), 1);
    assert!(rr_set.records_without_rrsigs().contains(&&insert));

    // add one
    let insert1 = a_record(&name, 86400, 25);
    assert!(rr_set.insert(insert1.clone(), 0));
    assert_eq!(rr_set.records_without_rrsigs().len(), 2);
    assert!(rr_set.records_without_rrsigs().contains(&&insert));
    assert!(rr_set.records_without_rrsigs().contains(&&insert1));
}

#[test]
fn test_insert_soa() {
    let name = Name::from_text("example.com.");
    let record_type = RecordType::SOA;
    let mut rr_set = RecordSet::new(&name, record_type, 0);

    let insert = soa_record(&name, "sns.dns.icann.org.", "noc.dns.icann.org.", 2015082403);
    let same_serial = soa_record(&name, "sns.dns.icann.net.", "noc.dns.icann.net.", 2015082403);
    let new_serial = soa_record(&name, "sns.dns.icann.net.", "noc.dns.icann.net.", 2015082404);

    assert!(rr_set.insert(insert.clone(), 0));
    assert!(rr_set.records_without_rrsigs().contains(&&insert));
    // same serial number
    assert!(!rr_set.insert(same_serial.clone(), 0));
    assert!(rr_set.records_without_rrsigs().contains(&&insert));
    assert!(!rr_set.records_without_rrsigs().contains(&&same_serial));

    assert!(rr_set.insert(new_serial.clone(), 0));
    assert!(!rr_set.insert(same_serial.clone(), 0));
    assert!(!rr_set.insert(insert.clone(), 0));

    assert!(rr_set.records_without_rrsigs().contains(&&new_serial));
    assert!(!rr_set.records_without_rrsigs().contains(&&insert));
    assert!(!rr_set.records_without_rrsigs().contains(&&same_serial));
}

#[test]
fn test_insert_cname() {
    let name = Name::from_text("web.example.com.");
    let cname = Name::from_text("www.example.com.");
    let new_cname = Name::from_text("w2.example.com.");

    let record_type = RecordType::CNAME;
    let mut rr_set = RecordSet::new(&name, record_type, 0);

    let insert = Record::new(name.clone(), RecordType::CNAME, DNSClass::IN, 3600, RData::CNAME(cname.clone()));
    let new_record =
        Record::new(name.clone(), RecordType::CNAME, DNSClass::IN, 3600, RData::CNAME(new_cname.clone()));

    assert!(rr_set.insert(insert.clone(), 0));
    assert!(rr_set.records_without_rrsigs().contains(&&insert));

    // update the record
    assert!(rr_set.insert(new_record.clone(), 0));
    assert!(!rr_set.records_without_rrsigs().contains(&&insert));
    assert!(rr_set.records_without_rrsigs().contains(&&new_record));
}

#[test]
fn test_remove() {
    let name = Name::from_text("www.example.com.");
    let record_type = RecordType::A;
    let mut rr_set = RecordSet::new(&name, record_type, 0);

    let insert = a_record(&name, 86400, 24);
    let insert1 = a_record(&name, 86400, 25);

    assert!(rr_set.insert(insert.clone(), 0));
    assert!(rr_set.insert(insert1.clone(), 0));

    assert!(rr_set.remove(&insert, 0));
    assert!(!rr_set.remove(&insert, 0));
    assert!(rr_set.remove(&insert1, 0));
    assert!(!rr_set.remove(&insert1, 0));
}

#[test]
fn test_remove_soa() {
    let name = Name::from_text("www.example.com.");
    let record_type = RecordType::SOA;
    let mut rr_set = RecordSet::new(&name, record_type, 0);

    let insert = soa_record(&name, "sns.dns.icann.org.", "noc.dns.icann.org.", 2015082403);

    assert!(rr_set.insert(insert.clone(), 0));
    assert!(!rr_set.remove(&insert, 0));
    assert!(rr_set.records_without_rrsigs().contains(&&insert));
}

#[test]
fn test_remove_ns() {
    let name = Name::from_text("example.com.");
    let record_type = RecordType::NS;
    let mut rr_set = RecordSet::new(&name, record_type, 0);

    let ns1 = ns_record(&name, "a.iana-servers.net.");
    let ns2 = ns_record(&name, "b.iana-servers.net.");

    assert!(rr_set.insert(ns1.clone(), 0));
    assert!(rr_set.insert(ns2.clone(), 0));

    // ok to remove one, but not two...
    assert!(rr_set.remove(&ns1, 0));
    assert!(!rr_set.remove(&ns2, 0));

    // check that we can swap which ones are removed
    assert!(rr_set.insert(ns1.clone(), 0));

    assert!(rr_set.remove(&ns2, 0));
    assert!(!rr_set.remove(&ns1, 0));
}

#[test]
fn test_get_filter() {
    let name = Name::root();
    let rrsig_rsa = rrsig(&name, Algorithm::RSASHA256);
    let rrsig_ecp256 = rrsig(&name, Algorithm::ECDSAP256SHA256);
    let rrsig_ecp384 = rrsig(&name, Algorithm::ECDSAP384SHA384);
    let rrsig_ed25519 = rrsig(&name, Algorithm::ED25519);

    let a = Record::new(name.clone(), RecordType::A, DNSClass::IN, 3600, RData::A(93, 184, 216, 24));

    let mut rrset = a.into_record_set();
    rrset.insert_rrsig(rrsig_rsa);
    rrset.insert_rrsig(rrsig_ecp256);
    rrset.insert_rrsig(rrsig_ecp384);
    rrset.insert_rrsig(rrsig_ed25519);

    assert!(rrset
        .records_with_rrsigs(SupportedAlgorithms::all())
        .iter()
        .any(|r| sig_algorithm(r) == Some(Algorithm::ED25519)));

    let mut supported_algorithms = SupportedAlgorithms::new();
    supported_algorithms.set(Algorithm::ECDSAP384SHA384);
    assert!(rrset
        .records_with_rrsigs(supported_algorithms)
        .iter()
        .any(|r| sig_algorithm(r) == Some(Algorithm::ECDSAP384SHA384)));

    let mut supported_algorithms = SupportedAlgorithms::new();
    supported_algorithms.set(Algorithm::ED25519);
    assert!(rrset
        .records_with_rrsigs(supported_algorithms)
        .iter()
        .any(|r| sig_algorithm(r) == Some(Algorithm::ED25519)));
}

#[test]
fn filter_selects_exactly_one_signature() {
    let name = Name::root();
    let a = Record::new(name.clone(), RecordType::A, DNSClass::IN, 3600, RData::A(93, 184, 216, 24));
    let mut rrset = RecordSet::from(a.clone());
    for alg in [Algorithm::RSASHA256, Algorithm::ECDSAP256SHA256, Algorithm::ECDSAP384SHA384, Algorithm::ED25519] {
        rrset.insert_rrsig(rrsig(&name, alg));
    }

    let all = rrset.records_with_rrsigs(SupportedAlgorithms::new());
    assert_eq!(all.len(), 5);
    assert!(all[0] == &a);
    assert_eq!(sig_algorithm(all[1]), Some(Algorithm::RSASHA256));
    assert_eq!(sig_algorithm(all[4]), Some(Algorithm::ED25519));

    let mut only384 = SupportedAlgorithms::new();
    only384.set(Algorithm::ECDSAP384SHA384);
    let got = rrset.records_with_rrsigs(only384);
    assert_eq!(got.len(), 2);
    assert!(got[0] == &a);
    assert_eq!(sig_algorithm(got[1]), Some(Algorithm::ECDSAP384SHA384));

    let mut only_ed = SupportedAlgorithms::new();
    only_ed.set(Algorithm::ED25519);
    let got = rrset.records_with_rrsigs(only_ed);
    assert_eq!(got.len(), 2);
    assert_eq!(sig_algorithm(got[1]), Some(Algorithm::ED25519));

    // the strongest supported algorithm wins
    let got = rrset.records_with_rrsigs(SupportedAlgorithms::all());
    assert_eq!(got.len(), 2);
    assert_eq!(sig_algorithm(got[1]), Some(Algorithm::ED25519));

    let mut two = SupportedAlgorithms::new();
    two.set(Algorithm::RSASHA256);
    two.set(Algorithm::ECDSAP256SHA256);
    let got = rrset.records_with_rrsigs(two);
    assert_eq!(got.len(), 2);
    assert_eq!(sig_algorithm(got[1]), Some(Algorithm::ECDSAP256SHA256));

    // no signature of a supported algorithm: records only
    let mut none = SupportedAlgorithms::new();
    none.set(Algorithm::RSASHA512);
    let got = rrset.records_with_rrsigs(none);
    assert_eq!(got.len(), 1);
    assert!(got[0] == &a);

    assert_eq!(rrset.records(false, SupportedAlgorithms::new()).len(), 1);
    assert_eq!(rrset.records(true, SupportedAlgorithms::new()).len(), 5);
}

#[test]
fn mutation_clears_signatures_and_sets_serial() {
    let name = Name::from_text("www.example.com.");
    let mut rrset = RecordSet::new(&name, RecordType::A, 1);
    assert_eq!(rrset.serial(), 1);
    assert!(rrset.insert(a_record(&name, 300, 1), 2));
    assert_eq!(rrset.serial(), 2);

    rrset.insert_rrsig(rrsig(&name, Algorithm::ED25519));
    assert_eq!(rrset.rrsigs().len(), 1);
    assert!(rrset.insert(a_record(&name, 300, 2), 3));
    assert!(rrset.rrsigs().is_empty());
    assert_eq!(rrset.serial(), 3);

    rrset.insert_rrsig(rrsig(&name, Algorithm::ED25519));
    assert!(rrset.remove(&a_record(&name, 300, 1), 4));
    assert!(rrset.rrsigs().is_empty());
    assert_eq!(rrset.serial(), 4);

    // a refused change keeps both
    rrset.insert_rrsig(rrsig(&name, Algorithm::ED25519));
    assert!(!rrset.insert(a_record(&name, 300, 2), 5));
    assert!(!rrset.remove(&a_record(&name, 300, 9), 6));
    assert_eq!(rrset.rrsigs().len(), 1);
    assert_eq!(rrset.serial(), 4);

    rrset.clear_rrsigs();
    assert!(rrset.rrsigs().is_empty());
}

#[test]
fn same_payload_other_ttl_replaces_in_place() {
    let name = Name::from_text("www.example.com.");
    let mut rrset = RecordSet::new(&name, RecordType::A, 0);
    assert!(rrset.insert(a_record(&name, 300, 1), 0));
    assert!(rrset.insert(a_record(&name, 300, 2), 0));
    assert!(rrset.insert(a_record(&name, 600, 1), 7));
    let records = rrset.records_without_rrsigs();
    assert_eq!(records.len(), 2);
    assert!(records[0] == &a_record(&name, 600, 1));
    assert!(records[1] == &a_record(&name, 300, 2));
    assert_eq!(rrset.ttl(), 600);
    assert_eq!(rrset.serial(), 7);
}

#[test]
fn soa_of_wrong_payload_is_refused() {
    let name = Name::from_text("example.com.");
    let mut rrset = RecordSet::new(&name, RecordType::SOA, 0);
    let bad = Record::new(name.clone(), RecordType::SOA, DNSClass::IN, 3600, RData::A(1, 2, 3, 4));
    assert!(!rrset.insert(bad, 0));
    assert!(rrset.is_empty());
}

#[test]
fn set_ttl_and_class_rewrite_every_record() {
    let name = Name::from_text("www.example.com.");
    let mut rrset = RecordSet::with_ttl(name.clone(), RecordType::A, 60);
    assert_eq!(rrset.ttl(), 60);
    assert_eq!(rrset.serial(), 0);
    assert!(rrset.insert(a_record(&name, 300, 1), 0));
    assert!(rrset.insert(a_record(&name, 300, 2), 0));
    rrset.set_ttl(42);
    rrset.set_dns_class(DNSClass::CH);
    assert_eq!(rrset.ttl(), 42);
    assert_eq!(rrset.dns_class(), DNSClass::CH);
    for r in rrset.iter() {
        assert_eq!(r.ttl(), 42);
        assert_eq!(r.dns_class(), DNSClass::CH);
    }
    assert_eq!(rrset.name().as_str(), "www.example.com.");
    assert_eq!(rrset.record_type(), RecordType::A);
}

#[test]
fn new_record_uses_set_fields() {
    let name = Name::from_text("www.example.com.");
    let mut rrset = RecordSet::with_ttl(name.clone(), RecordType::A, 120);
    let stored = rrset.new_record(&RData::A(10, 0, 0, 1)).clone();
    assert!(stored.rdata() == &RData::A(10, 0, 0, 1));
    assert_eq!(stored.ttl(), 120);
    assert_eq!(stored.dns_class(), DNSClass::IN);
    assert_eq!(rrset.records_without_rrsigs().len(), 1);
    assert_eq!(rrset.serial(), 0);
}

#[test]
fn into_records_yields_records_then_signatures() {
    let name = Name::root();
    let a = Record::new(name.clone(), RecordType::A, DNSClass::IN, 3600, RData::A(93, 184, 216, 24));
    let mut rrset = a.clone().into_record_set();
    rrset.insert_rrsig(rrsig(&name, Algorithm::RSASHA256));
    let all = rrset.into_records();
    assert_eq!(all.len(), 2);
    assert!(all[0] == a);
    assert_eq!(sig_algorithm(&all[1]), Some(Algorithm::RSASHA256));
}

#[test]
fn remove_by_any_type_keeps_the_floor() {
    let name = Name::from_text("example.com.");
    let mut rrset = RecordSet::new(&name, RecordType::NS, 0);
    let ns1 = ns_record(&name, "a.iana-servers.net.");
    let ns2 = ns_record(&name, "b.iana-servers.net.");
    assert!(rrset.insert(ns1.clone(), 0));
    assert!(rrset.insert(ns2.clone(), 0));
    let any1 = Record::new(name.clone(), RecordType::ANY, DNSClass::IN, 0, RData::NS(Name::from_text("a.iana-servers.net.")));
    let any2 = Record::new(name.clone(), RecordType::ANY, DNSClass::IN, 0, RData::NS(Name::from_text("b.iana-servers.net.")));
    assert!(rrset.remove(&any1, 3));
    assert_eq!(rrset.serial(), 3);
    assert!(!rrset.remove(&any2, 4));
    assert_eq!(rrset.records_without_rrsigs().len(), 1);
    assert_eq!(rrset.serial(), 3);

    let soa_name = Name::from_text("example.com.");
    let mut soa_set = RecordSet::new(&soa_name, RecordType::SOA, 0);
    let soa = soa_record(&soa_name, "sns.dns.icann.org.", "noc.dns.icann.org.", 2015082403);
    assert!(soa_set.insert(soa.clone(), 0));
    let any_soa = Record::new(soa_name.clone(), RecordType::ANY, DNSClass::IN, 3600, soa.rdata().clone());
    assert!(!soa_set.remove(&any_soa, 1));
    assert!(soa_set.records_without_rrsigs().contains(&&soa));
}

#[test]
fn new_record_is_stored() {
    let name = Name::from_text("www.example.com.");
    let mut rrset = RecordSet::with_ttl(name.clone(), RecordType::A, 120);
    let stored = rrset.new_record(&RData::A(10, 0, 0, 2)).clone();
    assert!(stored == Record::new(name.clone(), RecordType::A, DNSClass::IN, 120, RData::A(10, 0, 0, 2)));
    assert!(rrset.records_without_rrsigs().contains(&&stored));
}
