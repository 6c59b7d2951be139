//! The certificates, the private key and the server name of a connection over TLS.

use rustls_pemfile::Item;
use vstd::prelude::*;
use crate::datanode::url_of;
use crate::error::{HdfsError, IoErrorKind};
use crate::text::{decimal, lemma_decimal_digits};

verus! {

/// The error of an input or output operation.
#[verifier::external_type_specification]
#[verifier::external_body]
pub struct ExIoError(std::io::Error);

/// The error of `rustls` for a name that is neither a DNS name nor an IP address.
#[verifier::external_type_specification]
#[verifier::external_body]
pub struct ExInvalidDnsNameError(rustls::pki_types::InvalidDnsNameError);

/// A section of a PEM file: the DER bytes of a certificate or of a private key that is not
/// encrypted, or something else.
pub enum PemItem {
    Certificate(Vec<u8>),
    Pkcs1Key(Vec<u8>),
    Pkcs8Key(Vec<u8>),
    Sec1Key(Vec<u8>),
    Other,
}

/// What a section of a PEM file says.
pub enum PemItemView {
    Certificate(Seq<u8>),
    Pkcs1Key(Seq<u8>),
    Pkcs8Key(Seq<u8>),
    Sec1Key(Seq<u8>),
    Other,
}

impl View for PemItem {
    type V = PemItemView;

    open spec fn view(&self) -> PemItemView {
        match self {
            PemItem::Certificate(der) => PemItemView::Certificate(der@),
            PemItem::Pkcs1Key(der) => PemItemView::Pkcs1Key(der@),
            PemItem::Pkcs8Key(der) => PemItemView::Pkcs8Key(der@),
            PemItem::Sec1Key(der) => PemItemView::Sec1Key(der@),
            PemItem::Other => PemItemView::Other,
        }
    }
}

/// What reading the next section of a PEM file comes to.
pub enum PemRead {
    /// A section, and the bytes after it.
    Item(PemItemView, Seq<u8>),
    /// No section is left.
    End,
    /// A section starts wrong, has no end, is too large or is not base 64.
    Malformed,
}

/// What `rustls_pemfile::read_one` reads from the front of a PEM file.
pub uninterp spec fn pem_item(pem: Seq<u8>) -> PemRead;

/// Calls `rustls_pemfile::read_one` on the bytes. It takes lines off the front of them up to the
/// end of a section that it knows, and fails where a section is malformed. What it reads is only
/// named; a section takes at least one byte.
#[verifier::external_body]
fn read_one<'a>(pem: &'a [u8]) -> (r: Result<Option<(PemItem, &'a [u8])>, std::io::Error>)
    ensures
        match pem_item(pem@) {
            PemRead::Item(item, rest) => r matches Ok(Some((x, b))) && x@ == item && b@ == rest
                && rest.len() < pem@.len(),
            PemRead::End => r matches Ok(None),
            PemRead::Malformed => r is Err,
        },
{
    let mut rest = pem;
    let item = match rustls_pemfile::read_one(&mut rest)? {
        None => return Ok(None),
        Some(Item::X509Certificate(der)) => PemItem::Certificate(der.to_vec()),
        Some(Item::Pkcs1Key(der)) => PemItem::Pkcs1Key(der.secret_pkcs1_der().to_vec()),
        Some(Item::Pkcs8Key(der)) => PemItem::Pkcs8Key(der.secret_pkcs8_der().to_vec()),
        Some(Item::Sec1Key(der)) => PemItem::Sec1Key(der.secret_sec1_der().to_vec()),
        Some(_) => PemItem::Other,
    };
    Ok(Some((item, rest)))
}

// Certificates

/// The certificates of a PEM file, in order. `None` where a section is malformed.
pub open spec fn certificates(pem: Seq<u8>) -> Option<Seq<Seq<u8>>>
    decreases pem.len(),
{
    match pem_item(pem) {
        PemRead::Item(item, rest) => if rest.len() < pem.len() {
            match (item, certificates(rest)) {
                (PemItemView::Certificate(der), Some(more)) => Some(seq![der] + more),
                (_, more) => more,
            }
        } else {
            None
        },
        PemRead::End => Some(Seq::empty()),
        PemRead::Malformed => None,
    }
}

/// The bytes of each certificate.
pub open spec fn all_bytes(ders: Seq<Vec<u8>>) -> Seq<Seq<u8>> {
    ders.map_values(|der: Vec<u8>| der@)
}

/// The certificate that a section of a PEM file is, if it is one.
pub fn certificate(item: PemItem) -> (r: Option<Vec<u8>>)
    ensures
        match item@ {
            PemItemView::Certificate(der) => r matches Some(x) && x@ == der,
            _ => r is None,
        },
{
    match item {
        PemItem::Certificate(der) => Some(der),
        _ => None,
    }
}

/// The certificates of a PEM file, in order.
pub fn load_certs(pem: &[u8]) -> (r: Result<Vec<Vec<u8>>, HdfsError>)
    ensures
        match certificates(pem@) {
            Some(ders) => r matches Ok(v) && all_bytes(v@) == ders,
            None => r matches Err(HdfsError::IOError(IoErrorKind::Other)),
        },
{
    let mut ders: Vec<Vec<u8>> = Vec::new();
    let mut left = pem;
    assert(certificates(pem@) matches Some(all) ==> all_bytes(ders@) + all =~= all);
    loop
        invariant
            match certificates(left@) {
                Some(more) => certificates(pem@) == Some(all_bytes(ders@) + more),
                None => certificates(pem@) is None,
            },
        decreases left@.len(),
    {
        match read_one(left) {
            Err(_) => {
                return Err(HdfsError::IOError(IoErrorKind::Other));
            },
            Ok(None) => {
                assert(all_bytes(ders@) + Seq::<Seq<u8>>::empty() =~= all_bytes(ders@));
                return Ok(ders);
            },
            Ok(Some((item, rest))) => {
                if let Some(der) = certificate(item) {
                    let ghost before = ders@;
                    ders.push(der);
                    assert(certificates(rest@) matches Some(more) ==> all_bytes(before) + (seq![
                        der@,
                    ] + more) =~= all_bytes(ders@) + more);
                }
                left = rest;
            },
        }
    }
}

// Private keys

/// The DER bytes of a private key, in one of three formats.
pub enum PrivateKey {
    Pkcs1(Vec<u8>),
    Pkcs8(Vec<u8>),
    Sec1(Vec<u8>),
}

/// What a private key says.
pub enum PrivateKeyView {
    Pkcs1(Seq<u8>),
    Pkcs8(Seq<u8>),
    Sec1(Seq<u8>),
}

impl View for PrivateKey {
    type V = PrivateKeyView;

    open spec fn view(&self) -> PrivateKeyView {
        match self {
            PrivateKey::Pkcs1(der) => PrivateKeyView::Pkcs1(der@),
            PrivateKey::Pkcs8(der) => PrivateKeyView::Pkcs8(der@),
            PrivateKey::Sec1(der) => PrivateKeyView::Sec1(der@),
        }
    }
}

/// Why a PEM file gives no private key.
#[derive(Clone, Copy, Debug, PartialEq, Eq, Structural)]
pub enum PrivateKeyError {
    /// A section before any private key is malformed.
    Malformed,
    /// There is no private key, or only one that is encrypted.
    Missing,
}

/// The private key that a section of a PEM file is, if it is one.
pub open spec fn key_of(item: PemItemView) -> Option<PrivateKeyView> {
    match item {
        PemItemView::Pkcs1Key(der) => Some(PrivateKeyView::Pkcs1(der)),
        PemItemView::Pkcs8Key(der) => Some(PrivateKeyView::Pkcs8(der)),
        PemItemView::Sec1Key(der) => Some(PrivateKeyView::Sec1(der)),
        _ => None,
    }
}

/// The first private key of a PEM file.
pub open spec fn first_key(pem: Seq<u8>) -> Result<PrivateKeyView, PrivateKeyError>
    decreases pem.len(),
{
    match pem_item(pem) {
        PemRead::Item(item, rest) => match key_of(item) {
            Some(key) => Ok(key),
            None => if rest.len() < pem.len() {
                first_key(rest)
            } else {
                Err(PrivateKeyError::Malformed)
            },
        },
        PemRead::End => Err(PrivateKeyError::Missing),
        PemRead::Malformed => Err(PrivateKeyError::Malformed),
    }
}

/// The private key that a section of a PEM file is, if it is one.
pub fn private_key(item: PemItem) -> (r: Option<PrivateKey>)
    ensures
        match key_of(item@) {
            Some(key) => r matches Some(x) && x@ == key,
            None => r is None,
        },
{
    match item {
        PemItem::Pkcs1Key(der) => Some(PrivateKey::Pkcs1(der)),
        PemItem::Pkcs8Key(der) => Some(PrivateKey::Pkcs8(der)),
        PemItem::Sec1Key(der) => Some(PrivateKey::Sec1(der)),
        PemItem::Certificate(_) => None,
        PemItem::Other => None,
    }
}

/// The first private key of a PEM file. What comes after it is not looked at.
pub fn load_private_key(pem: &[u8]) -> (r: Result<PrivateKey, PrivateKeyError>)
    ensures
        match first_key(pem@) {
            Ok(key) => r matches Ok(x) && x@ == key,
            Err(e) => r matches Err(x) && x == e,
        },
{
    let mut left = pem;
    loop
        invariant
            first_key(left@) == first_key(pem@),
        decreases left@.len(),
    {
        match read_one(left) {
            Err(_) => {
                return Err(PrivateKeyError::Malformed);
            },
            Ok(None) => {
                return Err(PrivateKeyError::Missing);
            },
            Ok(Some((item, rest))) => {
                if let Some(key) = private_key(item) {
                    return Ok(key);
                }
                left = rest;
            },
        }
    }
}

// Server names

/// The position of the last colon of `s`, or -1.
pub open spec fn last_colon(s: Seq<char>) -> int
    decreases s.len(),
{
    if s.len() == 0 {
        -1
    } else if s.last() == ':' {
        s.len() - 1
    } else {
        last_colon(s.drop_last())
    }
}

/// `s` without the brackets around it, if there are any.
pub open spec fn without_brackets(s: Seq<char>) -> Seq<char> {
    if s.len() >= 2 && s[0] == '[' && s.last() == ']' {
        s.subrange(1, s.len() - 1)
    } else {
        s
    }
}

/// The host of an address: what comes before the last colon, after which the port stands, or all
/// of the address where there is none. An IP address with colons of its own may stand in brackets.
pub open spec fn host_of(addr: Seq<char>) -> Seq<char> {
    without_brackets(
        if last_colon(addr) >= 0 {
            addr.take(last_colon(addr))
        } else {
            addr
        },
    )
}

/// The host of an address, without the port.
pub fn host(addr: &str) -> (r: String)
    ensures
        r@ == host_of(addr@),
{
    let len: usize = addr.unicode_len();
    let mut end: usize = len;
    proof {
        assert(addr@.take(len as int) =~= addr@);
    }
    while end > 0 && addr.get_char(end - 1) != ':'
        invariant
            end <= len,
            len == addr@.len(),
            last_colon(addr@) == last_colon(addr@.take(end as int)),
        decreases end,
    {
        assert(addr@.take(end as int).drop_last() =~= addr@.take(end - 1));
        end -= 1;
    }
    if end == 0 {
        end = len;
    } else {
        end -= 1;
    }
    let part = addr.substring_char(0, end);
    proof {
        assert(addr@.subrange(0, end as int) =~= addr@.take(end as int));
    }
    if end >= 2 && part.get_char(0) == '[' && part.get_char(end - 1) == ']' {
        part.substring_char(1, end - 1).to_owned()
    } else {
        part.to_owned()
    }
}

/// The name of the server that `rustls` reads from a host, if it is a name or an IP address.
pub uninterp spec fn server_name_of(host: Seq<char>) -> Option<Seq<char>>;

/// Calls `rustls::pki_types::ServerName::try_from`, which fails where the string is neither a
/// DNS name nor an IP address, and `ServerName::to_str`. What it reads is only named.
#[verifier::external_body]
fn parse_server_name(host: &str) -> (r: Result<String, rustls::pki_types::InvalidDnsNameError>)
    ensures
        match server_name_of(host@) {
            Some(name) => r matches Ok(x) && x@ == name,
            None => r is Err,
        },
{
    let name = rustls::pki_types::ServerName::try_from(host)?;
    Ok(name.to_str().into_owned())
}

/// The name of the server at an address: that of its host.
pub fn server_name(addr: &str) -> (r: Result<String, HdfsError>)
    ensures
        match server_name_of(host_of(addr@)) {
            Some(name) => r matches Ok(x) && x@ == name,
            None => r matches Err(HdfsError::TLSDNSInvalidError),
        },
{
    let host = host(addr);
    match parse_server_name(host.as_str()) {
        Ok(name) => Ok(name),
        Err(_) => Err(HdfsError::TLSDNSInvalidError),
    }
}

/// The name of the server to ask for over TLS, once it is known whether the certificates and the
/// key of the client were accepted.
pub fn tls_server_name(client_auth_accepted: bool, addr: &str) -> (r: Result<String, HdfsError>)
    ensures
        !client_auth_accepted ==> r matches Err(HdfsError::TLSClientConfigError),
        client_auth_accepted ==> match server_name_of(host_of(addr@)) {
            Some(name) => r matches Ok(x) && x@ == name,
            None => r matches Err(HdfsError::TLSDNSInvalidError),
        },
{
    if !client_auth_accepted {
        return Err(HdfsError::TLSClientConfigError);
    }
    server_name(addr)
}

// Laws

/// A PEM file whose certificates can be read, whatever else it holds, is not malformed where it
/// is read for a private key.
pub proof fn law_private_key_reads_no_more_than_certificates(pem: Seq<u8>)
    requires
        certificates(pem) is Some,
    ensures
        first_key(pem) matches Err(e) ==> e == PrivateKeyError::Missing,
    decreases pem.len(),
{
    if let PemRead::Item(_, rest) = pem_item(pem) {
        law_private_key_reads_no_more_than_certificates(rest);
    }
}

/// The host of an address is what the address was made of: as it is, or in brackets.
pub proof fn law_host_of_an_address(host: Seq<char>, port: u32)
    ensures
        without_brackets(host) == host ==> host_of(url_of(host, port)) == host,
        host_of(url_of(seq!['['] + host + seq![']'], port)) == host,
{
    reveal_strlit(":");
    lemma_decimal_digits(port as nat);
    let bracketed = seq!['['] + host + seq![']'];
    lemma_colon_before(host, decimal(port as nat));
    lemma_colon_before(bracketed, decimal(port as nat));
    assert(":"@ =~= seq![':']);
    assert(url_of(host, port).take(host.len() as int) =~= host);
    assert(url_of(bracketed, port).take(bracketed.len() as int) =~= bracketed);
    assert(without_brackets(bracketed) =~= host);
}

/// The sections of a PEM file, up to the end or to the first that is malformed, and whether none
/// is.
pub open spec fn sections(pem: Seq<u8>) -> (Seq<PemItemView>, bool)
    decreases pem.len(),
{
    match pem_item(pem) {
        PemRead::Item(item, rest) => if rest.len() < pem.len() {
            (seq![item] + sections(rest).0, sections(rest).1)
        } else {
            (seq![item], false)
        },
        PemRead::End => (Seq::empty(), true),
        PemRead::Malformed => (Seq::empty(), false),
    }
}

/// The certificates of a PEM file are all the sections that are one, with their bytes and in
/// order, where no section is malformed; else there are none.
pub proof fn law_certificates_are_sections(pem: Seq<u8>)
    ensures
        certificates(pem) is Some <==> sections(pem).1,
        certificates(pem) matches Some(ders) ==> ders.map_values(
            |der: Seq<u8>| PemItemView::Certificate(der),
        ) == sections(pem).0.filter(|item: PemItemView| item is Certificate),
    decreases pem.len(),
{
    let is_one = |item: PemItemView| item is Certificate;
    let make = |der: Seq<u8>| PemItemView::Certificate(der);
    reveal(Seq::filter);
    match pem_item(pem) {
        PemRead::Item(item, rest) => {
            if rest.len() < pem.len() {
                law_certificates_are_sections(rest);
                let more = sections(rest).0;
                Seq::filter_distributes_over_add(seq![item], more, is_one);
                assert(seq![item].drop_last() =~= Seq::empty());
                assert(Seq::<PemItemView>::empty().filter(is_one) =~= Seq::empty());
                if let Some(ders) = certificates(rest) {
                    if let PemItemView::Certificate(der) = item {
                        assert((seq![der] + ders).map_values(make) =~= seq![item]
                            + ders.map_values(make));
                        assert(seq![item].filter(is_one) =~= seq![item]);
                    } else {
                        assert(seq![item].filter(is_one) =~= Seq::empty());
                        assert(Seq::<PemItemView>::empty() + more.filter(is_one) =~= more.filter(
                            is_one,
                        ));
                    }
                }
            }
        },
        _ => {
            assert(Seq::<Seq<u8>>::empty().map_values(make) =~= Seq::<PemItemView>::empty().filter(
                is_one,
            ));
        },
    }
}

/// A private key is a section of one of three formats, with its bytes.
pub proof fn law_private_keys_are_sections(item: PemItemView, der: Seq<u8>)
    ensures
        key_of(item) == Some(PrivateKeyView::Pkcs1(der)) <==> item == PemItemView::Pkcs1Key(der),
        key_of(item) == Some(PrivateKeyView::Pkcs8(der)) <==> item == PemItemView::Pkcs8Key(der),
        key_of(item) == Some(PrivateKeyView::Sec1(der)) <==> item == PemItemView::Sec1Key(der),
        item is Certificate || item is Other ==> key_of(item) is None,
{
}

/// The private key of a PEM file is that of the first section that is one. There is none where no
/// section is one; that is an error of the file where one is malformed.
pub proof fn law_the_first_private_key_is_taken(pem: Seq<u8>)
    ensures
        match first_key(pem) {
            Ok(key) => exists|i: int|
                #![trigger sections(pem).0[i]]
                {
                    &&& 0 <= i < sections(pem).0.len()
                    &&& key_of(sections(pem).0[i]) == Some(key)
                    &&& forall|j: int| 0 <= j < i ==> key_of(#[trigger] sections(pem).0[j]) is None
                },
            Err(e) => {
                &&& e == PrivateKeyError::Missing <==> sections(pem).1
                &&& forall|j: int|
                    0 <= j < sections(pem).0.len() ==> key_of(#[trigger] sections(pem).0[j]) is None
            },
        },
    decreases pem.len(),
{
    let all = sections(pem).0;
    if let PemRead::Item(item, rest) = pem_item(pem) {
        assert(all[0] == item);
        if rest.len() < pem.len() && key_of(item) is None {
            law_the_first_private_key_is_taken(rest);
            let more = sections(rest).0;
            assert(forall|j: int| 0 < j < all.len() ==> all[j] == more[j - 1]);
            if let Ok(key) = first_key(rest) {
                let i = choose|i: int|
                    #![trigger more[i]]
                    {
                        &&& 0 <= i < more.len()
                        &&& key_of(more[i]) == Some(key)
                        &&& forall|j: int| 0 <= j < i ==> key_of(#[trigger] more[j]) is None
                    };
                assert(all[i + 1] == more[i]);
            }
        }
    }
}

/// The host of an address is what comes before the last colon, or all of it where there is none,
/// without brackets around it.
pub proof fn law_host_is_before_the_last_colon(
    before: Seq<char>,
    after: Seq<char>,
    inner: Seq<char>,
)
    requires
        forall|i: int| 0 <= i < after.len() ==> after[i] != ':',
    ensures
        host_of(before + seq![':'] + after) == without_brackets(before),
        host_of(after) == without_brackets(after),
        without_brackets(seq!['['] + inner + seq![']']) == inner,
        before.len() == 0 || before[0] != '[' || before.last() != ']' ==> without_brackets(before)
            == before,
{
    lemma_colon_before(before, after);
    lemma_no_colon(after);
    assert((before + seq![':'] + after).take(before.len() as int) =~= before);
    assert(without_brackets(seq!['['] + inner + seq![']']) =~= inner);
}

proof fn lemma_colon_before(before: Seq<char>, after: Seq<char>)
    requires
        forall|i: int| 0 <= i < after.len() ==> after[i] != ':',
    ensures
        last_colon(before + seq![':'] + after) == before.len(),
    decreases after.len(),
{
    let s = before + seq![':'] + after;
    if after.len() > 0 {
        lemma_colon_before(before, after.drop_last());
        assert(s.drop_last() =~= before + seq![':'] + after.drop_last());
        assert(s.last() == after[after.len() - 1]);
    } else {
        assert(s.last() == ':');
    }
}

proof fn lemma_no_colon(s: Seq<char>)
    requires
        forall|i: int| 0 <= i < s.len() ==> s[i] != ':',
    ensures
        last_colon(s) == -1,
    decreases s.len(),
{
    if s.len() > 0 {
        lemma_no_colon(s.drop_last());
    }
}

/// What a section and a private key say is what they hold, and so do many certificates.
pub proof fn law_sections_say_what_they_hold(der: Vec<u8>, ders: Seq<Vec<u8>>, i: int)
    requires
        0 <= i < ders.len(),
    ensures
        PemItem::Certificate(der)@ == PemItemView::Certificate(der@),
        PemItem::Pkcs1Key(der)@ == PemItemView::Pkcs1Key(der@),
        PemItem::Pkcs8Key(der)@ == PemItemView::Pkcs8Key(der@),
        PemItem::Sec1Key(der)@ == PemItemView::Sec1Key(der@),
        PrivateKey::Pkcs1(der)@ == PrivateKeyView::Pkcs1(der@),
        PrivateKey::Pkcs8(der)@ == PrivateKeyView::Pkcs8(der@),
        PrivateKey::Sec1(der)@ == PrivateKeyView::Sec1(der@),
        all_bytes(ders).len() == ders.len(),
        all_bytes(ders)[i] == ders[i]@,
{
}

} // verus!
