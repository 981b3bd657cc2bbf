//! The resource-record values that a record set holds, with their
//! mathematical views: names as text, byte strings as sequences.

use vstd::prelude::*;

verus! {

/// A domain name, held in its presentation form (`www.example.com.`).
#[derive(Debug)]
pub struct Name {
    text: String,
}

impl View for Name {
    type V = Seq<char>;

    closed spec fn view(&self) -> Seq<char> {
        self.text@
    }
}

impl Name {
    /// A name with the text `text`.
    pub fn from_text(text: &str) -> (r: Name)
        ensures
            r@ == text@,
    {
        Name { text: text.to_owned() }
    }

    /// The root name, `.`.
    pub fn root() -> (r: Name)
        ensures
            r@ == seq!['.'],
    {
        proof {
            reveal_strlit(".");
        }
        Name::from_text(".")
    }

    /// The text of the name.
    pub fn as_str(&self) -> (r: &str)
        ensures
            r@ == self@,
    {
        self.text.as_str()
    }
}

impl Clone for Name {
    fn clone(&self) -> (r: Self)
        ensures
            r@ == self@,
    {
        Name { text: self.text.clone() }
    }
}

impl PartialEq for Name {
    fn eq(&self, o: &Name) -> (r: bool) {
        self.text == o.text
    }
}

impl vstd::std_specs::cmp::PartialEqSpecImpl for Name {
    open spec fn obeys_eq_spec() -> bool {
        true
    }

    open spec fn eq_spec(&self, o: &Name) -> bool {
        self@ == o@
    }
}

/// The type of a resource record.
#[derive(Clone, Copy, Debug, PartialEq, Eq, Structural)]
pub enum RecordType {
    A,
    AAAA,
    ANY,
    CNAME,
    MX,
    NS,
    PTR,
    SOA,
    SRV,
    TXT,
    RRSIG,
    DNSKEY,
    Unknown(u16),
}

/// The class of a resource record.
#[derive(Clone, Copy, Debug, PartialEq, Eq, Structural)]
pub enum DNSClass {
    IN,
    CH,
    HS,
    NONE,
    ANY,
}

/// A DNSSEC signing algorithm.
#[derive(Clone, Copy, Debug, PartialEq, Eq, Structural)]
pub enum Algorithm {
    RSASHA1,
    RSASHA1NSEC3SHA1,
    RSASHA256,
    RSASHA512,
    ECDSAP256SHA256,
    ECDSAP384SHA384,
    ED25519,
}

/// The IANA number of an algorithm; a larger number is a stronger choice.
pub open spec fn algorithm_number(a: Algorithm) -> u8 {
    match a {
        Algorithm::RSASHA1 => 5,
        Algorithm::RSASHA1NSEC3SHA1 => 7,
        Algorithm::RSASHA256 => 8,
        Algorithm::RSASHA512 => 10,
        Algorithm::ECDSAP256SHA256 => 13,
        Algorithm::ECDSAP384SHA384 => 14,
        Algorithm::ED25519 => 15,
    }
}

/// The bit that stands for an algorithm in a `SupportedAlgorithms`.
pub open spec fn algorithm_bit(a: Algorithm) -> u8 {
    match a {
        Algorithm::RSASHA1 => 0,
        Algorithm::RSASHA1NSEC3SHA1 => 1,
        Algorithm::RSASHA256 => 2,
        Algorithm::RSASHA512 => 3,
        Algorithm::ECDSAP256SHA256 => 4,
        Algorithm::ECDSAP384SHA384 => 5,
        Algorithm::ED25519 => 6,
    }
}

impl Algorithm {
    /// The IANA number of the algorithm.
    pub fn to_u8(self) -> (r: u8)
        ensures
            r == algorithm_number(self),
    {
        match self {
            Algorithm::RSASHA1 => 5,
            Algorithm::RSASHA1NSEC3SHA1 => 7,
            Algorithm::RSASHA256 => 8,
            Algorithm::RSASHA512 => 10,
            Algorithm::ECDSAP256SHA256 => 13,
            Algorithm::ECDSAP384SHA384 => 14,
            Algorithm::ED25519 => 15,
        }
    }

    fn bit(self) -> (r: u8)
        ensures
            r == algorithm_bit(self),
            r < 7,
    {
        match self {
            Algorithm::RSASHA1 => 0,
            Algorithm::RSASHA1NSEC3SHA1 => 1,
            Algorithm::RSASHA256 => 2,
            Algorithm::RSASHA512 => 3,
            Algorithm::ECDSAP256SHA256 => 4,
            Algorithm::ECDSAP384SHA384 => 5,
            Algorithm::ED25519 => 6,
        }
    }
}

/// The set of algorithms a client declares it supports.
#[derive(Clone, Copy, Debug)]
pub struct SupportedAlgorithms {
    bit_map: u8,
}

impl SupportedAlgorithms {
    /// Whether `a` is in the set.
    pub closed spec fn contains(&self, a: Algorithm) -> bool {
        (self.bit_map >> algorithm_bit(a)) & 1 == 1
    }

    /// The empty set.
    pub fn new() -> (r: SupportedAlgorithms)
        ensures
            forall|a: Algorithm| !r.contains(a),
    {
        let r = SupportedAlgorithms { bit_map: 0 };
        assert forall|a: Algorithm| !r.contains(a) by {
            let b = algorithm_bit(a);
            assert((0u8 >> b) & 1 != 1) by (bit_vector);
        }
        r
    }

    /// The set of all algorithms.
    pub fn all() -> (r: SupportedAlgorithms)
        ensures
            forall|a: Algorithm| r.contains(a),
    {
        let r = SupportedAlgorithms { bit_map: 0x7F };
        assert forall|a: Algorithm| r.contains(a) by {
            let b = algorithm_bit(a);
            assert(b < 7 ==> (0x7Fu8 >> b) & 1 == 1) by (bit_vector);
        }
        r
    }

    /// Adds `a` to the set.
    pub fn set(&mut self, a: Algorithm)
        ensures
            forall|b: Algorithm| final(self).contains(b) == (old(self).contains(b) || b == a),
    {
        let bit = a.bit();
        let m = self.bit_map;
        let n = m | (1u8 << bit);
        self.bit_map = n;
        assert forall|b: Algorithm| self.contains(b) == (old(self).contains(b) || b == a) by {
            let c = algorithm_bit(b);
            assert(c < 7 && bit < 7 ==> (((n >> c) & 1 == 1) == (((m >> c) & 1 == 1) || c == bit))) by (bit_vector)
                requires
                    n == m | (1u8 << bit),
            ;
        }
    }

    /// Whether `a` is in the set.
    pub fn has(&self, a: Algorithm) -> (r: bool)
        ensures
            r == self.contains(a),
    {
        (self.bit_map >> a.bit()) & 1 == 1
    }

    /// Whether the set is empty.
    pub fn is_empty(&self) -> (r: bool)
        ensures
            r == (forall|a: Algorithm| !self.contains(a)),
    {
        let any = self.has(Algorithm::RSASHA1) || self.has(Algorithm::RSASHA1NSEC3SHA1)
            || self.has(Algorithm::RSASHA256) || self.has(Algorithm::RSASHA512)
            || self.has(Algorithm::ECDSAP256SHA256) || self.has(Algorithm::ECDSAP384SHA384)
            || self.has(Algorithm::ED25519);
        assert(any == (self.contains(Algorithm::RSASHA1) || self.contains(Algorithm::RSASHA1NSEC3SHA1)
            || self.contains(Algorithm::RSASHA256) || self.contains(Algorithm::RSASHA512)
            || self.contains(Algorithm::ECDSAP256SHA256) || self.contains(Algorithm::ECDSAP384SHA384)
            || self.contains(Algorithm::ED25519)));
        assert(!any ==> forall|a: Algorithm| !self.contains(a)) by {
            if !any {
                assert forall|a: Algorithm| !self.contains(a) by {
                    match a {
                        Algorithm::RSASHA1 => {},
                        Algorithm::RSASHA1NSEC3SHA1 => {},
                        Algorithm::RSASHA256 => {},
                        Algorithm::RSASHA512 => {},
                        Algorithm::ECDSAP256SHA256 => {},
                        Algorithm::ECDSAP384SHA384 => {},
                        Algorithm::ED25519 => {},
                    }
                }
            }
        }
        !any
    }
}

/// The view of a start-of-authority payload.
pub struct SOAView {
    pub mname: Seq<char>,
    pub rname: Seq<char>,
    pub serial: u32,
    pub refresh: i32,
    pub retry: i32,
    pub expire: i32,
    pub minimum: u32,
}

/// The view of a signature payload.
pub struct SIGView {
    pub type_covered: RecordType,
    pub algorithm: Algorithm,
    pub num_labels: u8,
    pub original_ttl: u32,
    pub sig_expiration: u32,
    pub sig_inception: u32,
    pub key_tag: u16,
    pub signer_name: Seq<char>,
    pub sig: Seq<u8>,
}

/// The view of a record payload.
pub enum RDataView {
    A(u8, u8, u8, u8),
    CNAME(Seq<char>),
    NS(Seq<char>),
    PTR(Seq<char>),
    SOA(SOAView),
    SIG(SIGView),
}

/// The view of a resource record.
pub struct RecordView {
    pub name: Seq<char>,
    pub rr_type: RecordType,
    pub dns_class: DNSClass,
    pub ttl: u32,
    pub rdata: RDataView,
}

/// The record type that a payload implies.
pub open spec fn rdata_type(d: RDataView) -> RecordType {
    match d {
        RDataView::A(..) => RecordType::A,
        RDataView::CNAME(_) => RecordType::CNAME,
        RDataView::NS(_) => RecordType::NS,
        RDataView::PTR(_) => RecordType::PTR,
        RDataView::SOA(_) => RecordType::SOA,
        RDataView::SIG(_) => RecordType::RRSIG,
    }
}

/// Compares two byte strings.
fn bytes_eq(a: &Vec<u8>, b: &Vec<u8>) -> (r: bool)
    ensures
        r == (a@ == b@),
{
    if a.len() != b.len() {
        return false;
    }
    let mut i: usize = 0;
    while i < a.len()
        invariant
            a@.len() == b@.len(),
            0 <= i <= a@.len(),
            forall|j: int| 0 <= j < i ==> a@[j] == b@[j],
        decreases a@.len() - i,
    {
        if a[i] != b[i] {
            return false;
        }
        i = i + 1;
    }
    assert(a@ =~= b@);
    true
}

/// A start-of-authority payload.
#[derive(Debug)]
pub struct SOA {
    mname: Name,
    rname: Name,
    serial: u32,
    refresh: i32,
    retry: i32,
    expire: i32,
    minimum: u32,
}

impl View for SOA {
    type V = SOAView;

    closed spec fn view(&self) -> SOAView {
        SOAView {
            mname: self.mname@,
            rname: self.rname@,
            serial: self.serial,
            refresh: self.refresh,
            retry: self.retry,
            expire: self.expire,
            minimum: self.minimum,
        }
    }
}

impl SOA {
    /// A start-of-authority payload from its fields.
    pub fn new(mname: Name, rname: Name, serial: u32, refresh: i32, retry: i32, expire: i32, minimum: u32) -> (r: SOA)
        ensures
            r@ == (SOAView { mname: mname@, rname: rname@, serial, refresh, retry, expire, minimum }),
    {
        SOA { mname, rname, serial, refresh, retry, expire, minimum }
    }

    /// The zone's serial number.
    pub fn serial(&self) -> (r: u32)
        ensures
            r == self@.serial,
    {
        self.serial
    }
}

impl Clone for SOA {
    fn clone(&self) -> (r: Self)
        ensures
            r@ == self@,
    {
        SOA {
            mname: self.mname.clone(),
            rname: self.rname.clone(),
            serial: self.serial,
            refresh: self.refresh,
            retry: self.retry,
            expire: self.expire,
            minimum: self.minimum,
        }
    }
}

impl PartialEq for SOA {
    fn eq(&self, o: &SOA) -> (r: bool) {
        self.mname == o.mname && self.rname == o.rname && self.serial == o.serial
            && self.refresh == o.refresh && self.retry == o.retry && self.expire == o.expire
            && self.minimum == o.minimum
    }
}

impl vstd::std_specs::cmp::PartialEqSpecImpl for SOA {
    open spec fn obeys_eq_spec() -> bool {
        true
    }

    open spec fn eq_spec(&self, o: &SOA) -> bool {
        self@ == o@
    }
}

/// A signature payload.
#[derive(Debug)]
pub struct SIG {
    type_covered: RecordType,
    algorithm: Algorithm,
    num_labels: u8,
    original_ttl: u32,
    sig_expiration: u32,
    sig_inception: u32,
    key_tag: u16,
    signer_name: Name,
    sig: Vec<u8>,
}

impl View for SIG {
    type V = SIGView;

    closed spec fn view(&self) -> SIGView {
        SIGView {
            type_covered: self.type_covered,
            algorithm: self.algorithm,
            num_labels: self.num_labels,
            original_ttl: self.original_ttl,
            sig_expiration: self.sig_expiration,
            sig_inception: self.sig_inception,
            key_tag: self.key_tag,
            signer_name: self.signer_name@,
            sig: self.sig@,
        }
    }
}

impl SIG {
    /// A signature payload from its fields.
    pub fn new(
        type_covered: RecordType,
        algorithm: Algorithm,
        num_labels: u8,
        original_ttl: u32,
        sig_expiration: u32,
        sig_inception: u32,
        key_tag: u16,
        signer_name: Name,
        sig: Vec<u8>,
    ) -> (r: SIG)
        ensures
            r@ == (SIGView {
                type_covered,
                algorithm,
                num_labels,
                original_ttl,
                sig_expiration,
                sig_inception,
                key_tag,
                signer_name: signer_name@,
                sig: sig@,
            }),
    {
        SIG {
            type_covered,
            algorithm,
            num_labels,
            original_ttl,
            sig_expiration,
            sig_inception,
            key_tag,
            signer_name,
            sig,
        }
    }

    /// The algorithm of the signature.
    pub fn algorithm(&self) -> (r: Algorithm)
        ensures
            r == self@.algorithm,
    {
        self.algorithm
    }
}

impl Clone for SIG {
    fn clone(&self) -> (r: Self)
        ensures
            r@ == self@,
    {
        SIG {
            type_covered: self.type_covered,
            algorithm: self.algorithm,
            num_labels: self.num_labels,
            original_ttl: self.original_ttl,
            sig_expiration: self.sig_expiration,
            sig_inception: self.sig_inception,
            key_tag: self.key_tag,
            signer_name: self.signer_name.clone(),
            sig: vstd::slice::slice_to_vec(self.sig.as_slice()),
        }
    }
}

impl PartialEq for SIG {
    fn eq(&self, o: &SIG) -> (r: bool) {
        self.type_covered == o.type_covered && self.algorithm == o.algorithm
            && self.num_labels == o.num_labels && self.original_ttl == o.original_ttl
            && self.sig_expiration == o.sig_expiration && self.sig_inception == o.sig_inception
            && self.key_tag == o.key_tag && self.signer_name == o.signer_name
            && bytes_eq(&self.sig, &o.sig)
    }
}

impl vstd::std_specs::cmp::PartialEqSpecImpl for SIG {
    open spec fn obeys_eq_spec() -> bool {
        true
    }

    open spec fn eq_spec(&self, o: &SIG) -> bool {
        self@ == o@
    }
}

/// The payload of a resource record.
#[derive(Debug)]
pub enum RData {
    A(u8, u8, u8, u8),
    CNAME(Name),
    NS(Name),
    PTR(Name),
    SOA(SOA),
    SIG(SIG),
}

impl View for RData {
    type V = RDataView;

    open spec fn view(&self) -> RDataView {
        match self {
            RData::A(a, b, c, d) => RDataView::A(*a, *b, *c, *d),
            RData::CNAME(n) => RDataView::CNAME(n@),
            RData::NS(n) => RDataView::NS(n@),
            RData::PTR(n) => RDataView::PTR(n@),
            RData::SOA(s) => RDataView::SOA(s@),
            RData::SIG(s) => RDataView::SIG(s@),
        }
    }
}

impl RData {
    /// The record type that the payload implies.
    pub fn to_record_type(&self) -> (r: RecordType)
        ensures
            r == rdata_type(self@),
    {
        match self {
            RData::A(..) => RecordType::A,
            RData::CNAME(_) => RecordType::CNAME,
            RData::NS(_) => RecordType::NS,
            RData::PTR(_) => RecordType::PTR,
            RData::SOA(_) => RecordType::SOA,
            RData::SIG(_) => RecordType::RRSIG,
        }
    }
}

impl Clone for RData {
    fn clone(&self) -> (r: Self)
        ensures
            r@ == self@,
    {
        match self {
            RData::A(a, b, c, d) => RData::A(*a, *b, *c, *d),
            RData::CNAME(n) => RData::CNAME(n.clone()),
            RData::NS(n) => RData::NS(n.clone()),
            RData::PTR(n) => RData::PTR(n.clone()),
            RData::SOA(s) => RData::SOA(s.clone()),
            RData::SIG(s) => RData::SIG(s.clone()),
        }
    }
}

impl PartialEq for RData {
    fn eq(&self, o: &RData) -> (r: bool) {
        match (self, o) {
            (RData::A(a, b, c, d), RData::A(e, f, g, h)) => *a == *e && *b == *f && *c == *g && *d == *h,
            (RData::CNAME(x), RData::CNAME(y)) => *x == *y,
            (RData::NS(x), RData::NS(y)) => *x == *y,
            (RData::PTR(x), RData::PTR(y)) => *x == *y,
            (RData::SOA(x), RData::SOA(y)) => *x == *y,
            (RData::SIG(x), RData::SIG(y)) => *x == *y,
            _ => false,
        }
    }
}

impl vstd::std_specs::cmp::PartialEqSpecImpl for RData {
    open spec fn obeys_eq_spec() -> bool {
        true
    }

    open spec fn eq_spec(&self, o: &RData) -> bool {
        self@ == o@
    }
}

/// A resource record: owner name, type, class, time to live and payload.
#[derive(Debug)]
pub struct Record {
    name: Name,
    rr_type: RecordType,
    dns_class: DNSClass,
    ttl: u32,
    rdata: RData,
}

impl View for Record {
    type V = RecordView;

    closed spec fn view(&self) -> RecordView {
        RecordView {
            name: self.name@,
            rr_type: self.rr_type,
            dns_class: self.dns_class,
            ttl: self.ttl,
            rdata: self.rdata@,
        }
    }
}

impl Record {
    /// A record from its fields.
    pub fn new(name: Name, rr_type: RecordType, dns_class: DNSClass, ttl: u32, rdata: RData) -> (r: Record)
        ensures
            r@ == (RecordView { name: name@, rr_type, dns_class, ttl, rdata: rdata@ }),
    {
        Record { name, rr_type, dns_class, ttl, rdata }
    }

    /// The owner name.
    pub fn name(&self) -> (r: &Name)
        ensures
            r@ == self@.name,
    {
        &self.name
    }

    /// The record type.
    pub fn rr_type(&self) -> (r: RecordType)
        ensures
            r == self@.rr_type,
    {
        self.rr_type
    }

    /// The class.
    pub fn dns_class(&self) -> (r: DNSClass)
        ensures
            r == self@.dns_class,
    {
        self.dns_class
    }

    /// The time to live, in seconds.
    pub fn ttl(&self) -> (r: u32)
        ensures
            r == self@.ttl,
    {
        self.ttl
    }

    /// The payload.
    pub fn rdata(&self) -> (r: &RData)
        ensures
            r@ == self@.rdata,
    {
        &self.rdata
    }

    /// Sets the time to live.
    pub fn set_ttl(&mut self, ttl: u32)
        ensures
            final(self)@ == (RecordView { ttl, ..old(self)@ }),
    {
        self.ttl = ttl;
    }

    /// Sets the class.
    pub fn set_dns_class(&mut self, dns_class: DNSClass)
        ensures
            final(self)@ == (RecordView { dns_class, ..old(self)@ }),
    {
        self.dns_class = dns_class;
    }
}

impl Clone for Record {
    fn clone(&self) -> (r: Self)
        ensures
            r@ == self@,
    {
        Record {
            name: self.name.clone(),
            rr_type: self.rr_type,
            dns_class: self.dns_class,
            ttl: self.ttl,
            rdata: self.rdata.clone(),
        }
    }
}

impl PartialEq for Record {
    fn eq(&self, o: &Record) -> (r: bool) {
        self.name == o.name && self.rr_type == o.rr_type && self.dns_class == o.dns_class
            && self.ttl == o.ttl && self.rdata == o.rdata
    }
}

impl vstd::std_specs::cmp::PartialEqSpecImpl for Record {
    open spec fn obeys_eq_spec() -> bool {
        true
    }

    open spec fn eq_spec(&self, o: &Record) -> bool {
        self@ == o@
    }
}

} // verus!
