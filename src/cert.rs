//! The certificate store: for each hostname that terminates TLS, the
//! certificate and private key presented to clients that name it by SNI.

use vstd::prelude::*;
use pingora_openssl::error::ErrorStack;
use pingora_openssl::pkey::{PKey, Private, Public};
use pingora_openssl::x509::X509;
use crate::route::{App, TlsConfig};
use crate::table::{HostTable, host_map, keys_unique, lemma_host_map_dom, lemma_host_map_last_wins};

verus! {

/// openssl's parsed certificate, held opaque in a `CertKey`.
#[verifier::external_type_specification]
#[verifier::external_body]
pub struct ExX509(X509);

/// openssl's key type, held opaque in a `CertKey`.
#[verifier::external_type_specification]
#[verifier::external_body]
#[verifier::reject_recursive_types(T)]
pub struct ExPKey<T>(PKey<T>);

/// openssl's marker for a key with its private half.
#[verifier::external_type_specification]
#[verifier::external_body]
pub struct ExPrivate(Private);

/// openssl's parse error, mapped to a `LoadError` where it occurs.
#[verifier::external_type_specification]
#[verifier::external_body]
pub struct ExErrorStack(ErrorStack);

/// openssl's marker for a key with only its public half.
#[verifier::external_type_specification]
#[verifier::external_body]
pub struct ExPublic(Public);

/// The longest PEM text that openssl reads: its memory buffers take a C
/// `int` length.
pub const MAX_PEM_LEN: usize = 2147483647;

/// Relies on openssl's `X509::from_pem`: reads a PEM-encoded certificate.
/// It asserts that the text's length fits in a C `int`.
#[verifier::external_body]
fn parse_certificate(pem: &[u8]) -> (r: Result<X509, ErrorStack>)
    requires
        pem@.len() <= MAX_PEM_LEN,
{
    X509::from_pem(pem)
}

/// Relies on openssl's `PKey::private_key_from_pem`: reads a PEM-encoded
/// private key. It asserts that the text's length fits in a C `int`.
#[verifier::external_body]
fn parse_private_key(pem: &[u8]) -> (r: Result<PKey<Private>, ErrorStack>)
    requires
        pem@.len() <= MAX_PEM_LEN,
{
    PKey::private_key_from_pem(pem)
}

/// Relies on openssl's `X509Ref::public_key`: the certificate's public key.
#[verifier::external_body]
fn cert_public_key(cert: &X509) -> (r: Result<PKey<Public>, ErrorStack>) {
    cert.public_key()
}

/// Relies on openssl's `PKeyRef::public_eq`: whether two keys have the same
/// public component.
#[verifier::external_body]
fn same_public_key(public: &PKey<Public>, key: &PKey<Private>) -> (r: bool) {
    public.public_eq(key)
}

/// A parsed certificate with its private key.
pub struct CertKey {
    pub cert: X509,
    pub key: PKey<Private>,
}

/// What is wrong with a hostname's TLS material.
#[derive(Clone, Copy, Debug, PartialEq, Eq, Structural)]
pub enum PemPart {
    /// The certificate file does not parse.
    Certificate,
    /// The private key file does not parse.
    PrivateKey,
    /// The private key is not the one of the certificate's public key.
    KeyMismatch,
}

/// A hostname's TLS material that cannot be used: the hostname, the
/// offending file's path, and what is wrong with it.
#[derive(Clone, Debug)]
pub struct LoadError {
    pub hostname: String,
    pub path: String,
    pub part: PemPart,
}

/// A hostname's TLS paths with the contents read from them.
pub struct PemFiles {
    pub hostname: String,
    pub tls: TlsConfig,
    pub cert_pem: Vec<u8>,
    pub key_pem: Vec<u8>,
}

/// The file that a fault of kind `part` lies in: the certificate's for an
/// unparsable certificate, the key's otherwise.
pub open spec fn part_path(f: PemFiles, part: PemPart) -> String {
    match part {
        PemPart::Certificate => f.tls.cert_path,
        _ => f.tls.key_path,
    }
}

/// The error that reports a fault of kind `part` in `f`.
pub open spec fn load_error(f: PemFiles, part: PemPart) -> LoadError {
    LoadError { hostname: f.hostname, path: part_path(f, part), part: part }
}

/// `e` reports a fault in `f`, naming its hostname and the faulty file.
pub open spec fn blames(e: LoadError, f: PemFiles) -> bool {
    e == load_error(f, e.part)
}

/// Builds the error that reports a fault of kind `part` in `files`.
fn make_error(files: &PemFiles, part: PemPart) -> (r: LoadError)
    ensures
        r == load_error(*files, part),
{
    let path = match part {
        PemPart::Certificate => files.tls.cert_path.clone(),
        _ => files.tls.key_path.clone(),
    };
    LoadError { hostname: files.hostname.clone(), path, part }
}

/// The pair that parsing `files` gave, or the error for the first of its
/// two files that did not parse.
pub fn parsed_pair(
    files: &PemFiles,
    cert: Result<X509, ErrorStack>,
    key: Result<PKey<Private>, ErrorStack>,
) -> (r: Result<CertKey, LoadError>)
    ensures
        match (cert, key) {
            (Ok(c), Ok(k)) => r matches Ok(p) && p.cert == c && p.key == k,
            (Err(_), _) => r == Err::<CertKey, LoadError>(load_error(*files, PemPart::Certificate)),
            (Ok(_), Err(_)) => r == Err::<CertKey, LoadError>(
                load_error(*files, PemPart::PrivateKey),
            ),
        },
{
    match (cert, key) {
        (Ok(cert), Ok(key)) => Ok(CertKey { cert, key }),
        (Err(_), _) => Err(make_error(files, PemPart::Certificate)),
        (Ok(_), Err(_)) => Err(make_error(files, PemPart::PrivateKey)),
    }
}

/// The hostname's entry for the store where its key belongs to its
/// certificate (`fits`), else the mismatch error.
pub fn matched_pair(files: &PemFiles, pair: CertKey, fits: bool) -> (r: Result<
    (String, CertKey),
    LoadError,
>)
    ensures
        fits ==> (r matches Ok(p) && p.0 == files.hostname && p.1 == pair),
        !fits ==> r == Err::<(String, CertKey), LoadError>(
            load_error(*files, PemPart::KeyMismatch),
        ),
{
    if fits {
        Ok((files.hostname.clone(), pair))
    } else {
        Err(make_error(files, PemPart::KeyMismatch))
    }
}

/// Parses the certificate and private key of one hostname and checks that
/// the key belongs to the certificate. A file longer than `MAX_PEM_LEN`
/// does not parse.
pub fn load_cert_key(files: &PemFiles) -> (r: Result<(String, CertKey), LoadError>)
    ensures
        files.cert_pem@.len() > MAX_PEM_LEN ==> r == Err::<(String, CertKey), LoadError>(
            load_error(*files, PemPart::Certificate),
        ),
        files.cert_pem@.len() <= MAX_PEM_LEN && files.key_pem@.len() > MAX_PEM_LEN ==> r
            == Err::<(String, CertKey), LoadError>(load_error(*files, PemPart::PrivateKey)),
        match r {
            Ok(p) => p.0 == files.hostname,
            Err(e) => blames(e, *files),
        },
{
    if files.cert_pem.len() > MAX_PEM_LEN {
        return Err(make_error(files, PemPart::Certificate));
    }
    if files.key_pem.len() > MAX_PEM_LEN {
        return Err(make_error(files, PemPart::PrivateKey));
    }
    let cert = parse_certificate(files.cert_pem.as_slice());
    let key = parse_private_key(files.key_pem.as_slice());
    let pair = match parsed_pair(files, cert, key) {
        Ok(p) => p,
        Err(e) => {
            return Err(e);
        },
    };
    let fits = match cert_public_key(&pair.cert) {
        Ok(public) => same_public_key(&public, &pair.key),
        Err(_) => false,
    };
    matched_pair(files, pair, fits)
}

/// The hostnames and TLS paths of the entries that terminate TLS, in list
/// order.
pub open spec fn tls_entries(apps: Seq<App>) -> Seq<(String, TlsConfig)>
    decreases apps.len(),
{
    if apps.len() == 0 {
        Seq::empty()
    } else {
        let before = tls_entries(apps.drop_last());
        match apps.last().tls {
            Some(t) => before.push((apps.last().hostname, t)),
            None => before,
        }
    }
}

/// Maps each hostname to the certificate material presented for it; `C` is
/// that material, a `CertKey` in the listener.
pub struct DynamicCert<C> {
    registry: HostTable<C>,
}

impl<C> View for DynamicCert<C> {
    type V = Map<Seq<char>, C>;

    closed spec fn view(&self) -> Map<Seq<char>, C> {
        self.registry@
    }
}

impl<C> DynamicCert<C> {
    /// The entries whose certificates the store is built from: those with
    /// TLS, each as its hostname and paths.
    pub fn tls_sources(apps: &Vec<App>) -> (r: Vec<(String, TlsConfig)>)
        ensures
            r@ == tls_entries(apps@),
    {
        let mut out: Vec<(String, TlsConfig)> = Vec::new();
        let mut i: usize = 0;
        assert(apps@.take(0) =~= Seq::<App>::empty());
        while i < apps.len()
            invariant
                i <= apps@.len(),
                out@ == tls_entries(apps@.take(i as int)),
            decreases apps@.len() - i,
        {
            assert(apps@.take(i + 1).drop_last() =~= apps@.take(i as int));
            let app = &apps[i];
            match &app.tls {
                Some(t) => {
                    out.push((app.hostname.clone(), t.copied()));
                },
                None => {},
            }
            i = i + 1;
        }
        assert(apps@.take(apps@.len() as int) =~= apps@);
        out
    }

    /// The store of these (hostname, material) pairs; of two pairs with one
    /// hostname, the later one is kept.
    pub fn new(pairs: Vec<(String, C)>) -> (r: Self)
        ensures
            r@ == host_map(pairs@),
    {
        DynamicCert { registry: HostTable::from_pairs(pairs) }
    }

    /// The material to install in a handshake whose client sent `sni`:
    /// nothing where it sent no name, or a name the store does not hold.
    pub fn select(&self, sni: Option<&str>) -> (r: Option<&C>)
        ensures
            match sni {
                None => r is None,
                Some(h) => match r {
                    Some(c) => self@.contains_key(h@) && *c == self@[h@],
                    None => !self@.contains_key(h@),
                },
            },
    {
        match sni {
            Some(h) => self.registry.get(h),
            None => None,
        }
    }
}

impl DynamicCert<CertKey> {
    /// Loads every hostname's certificate and key and builds the store, or
    /// reports the first hostname whose material cannot be used; no store is
    /// built then, not even one without that hostname.
    pub fn from_pem_files(files: &Vec<PemFiles>) -> (r: Result<Self, LoadError>)
        ensures
            files@.len() == 0 ==> r is Ok,
            match r {
                Ok(s) => {
                    &&& exists|ps: Seq<(String, CertKey)>|
                        #![trigger host_map(ps)]
                        ps.len() == files@.len() && (forall|i: int|
                            0 <= i < ps.len() ==> (#[trigger] ps[i]).0 == files@[i].hostname)
                            && s@ == host_map(ps)
                    &&& forall|h: Seq<char>|
                        s@.contains_key(h) <==> exists|i: int|
                            0 <= i < files@.len() && (#[trigger] files@[i]).hostname@ == h
                },
                Err(e) => exists|i: int| 0 <= i < files@.len() && blames(e, #[trigger] files@[i]),
            },
    {
        let mut pairs: Vec<(String, CertKey)> = Vec::new();
        let mut i: usize = 0;
        while i < files.len()
            invariant
                i <= files@.len(),
                pairs@.len() == i,
                forall|j: int| 0 <= j < i ==> (#[trigger] pairs@[j]).0 == files@[j].hostname,
            decreases files@.len() - i,
        {
            match load_cert_key(&files[i]) {
                Ok(p) => {
                    pairs.push(p);
                },
                Err(e) => {
                    assert(blames(e, files@[i as int]));
                    return Err(e);
                },
            }
            i = i + 1;
        }
        let ghost ps = pairs@;
        let store = DynamicCert::new(pairs);
        assert forall|h: Seq<char>|
            store@.contains_key(h) <==> exists|i: int|
                0 <= i < files@.len() && (#[trigger] files@[i]).hostname@ == h by {
            lemma_host_map_dom(ps, h);
            if store@.contains_key(h) {
                let k = choose|k: int| 0 <= k < ps.len() && ps[k].0@ == h;
                assert(files@[k].hostname@ == h);
            }
            if exists|i: int| 0 <= i < files@.len() && (#[trigger] files@[i]).hostname@ == h {
                let k = choose|k: int| 0 <= k < files@.len() && (#[trigger] files@[k]).hostname@ == h;
                assert(ps[k].0@ == h);
            }
        }
        assert(ps.len() == files@.len() && (forall|i: int|
            0 <= i < ps.len() ==> (#[trigger] ps[i]).0 == files@[i].hostname) && store@ == host_map(ps));
        Ok(store)
    }
}

/// A hostname that no later pair names selects exactly its own pair's
/// material.
pub proof fn lemma_sni_selects_own_material<C>(pairs: Seq<(String, C)>, i: int)
    requires
        0 <= i < pairs.len(),
        forall|j: int| i < j < pairs.len() ==> pairs[j].0@ != pairs[i].0@,
    ensures
        host_map(pairs).contains_key(pairs[i].0@),
        host_map(pairs)[pairs[i].0@] == pairs[i].1,
{
    lemma_host_map_last_wins(pairs, i);
}

/// One hostname, looked up in two lists that hold the same pairs.
proof fn lemma_same_pairs_same_value<C>(a: Seq<(String, C)>, b: Seq<(String, C)>, h: Seq<char>)
    requires
        keys_unique(a),
        keys_unique(b),
        forall|x: (String, C)| a.contains(x) ==> b.contains(x),
        host_map(a).contains_key(h),
    ensures
        host_map(b).contains_key(h),
        host_map(b)[h] == host_map(a)[h],
{
    lemma_host_map_dom(a, h);
    let i = choose|i: int| 0 <= i < a.len() && a[i].0@ == h;
    assert(a.contains(a[i]));
    assert(b.contains(a[i]));
    let j = choose|j: int| 0 <= j < b.len() && b[j] == a[i];
    lemma_host_map_last_wins(a, i);
    lemma_host_map_last_wins(b, j);
}

/// Stores built from the same pairs, in any order, select alike: with
/// distinct hostnames, the store depends only on which pairs are given.
pub proof fn lemma_store_order_independent<C>(a: Seq<(String, C)>, b: Seq<(String, C)>)
    requires
        keys_unique(a),
        keys_unique(b),
        forall|x: (String, C)| a.contains(x) <==> b.contains(x),
    ensures
        host_map(a) == host_map(b),
{
    assert forall|h: Seq<char>| #[trigger] host_map(a).contains_key(h) == host_map(b).contains_key(h)
        by {
        if host_map(a).contains_key(h) {
            lemma_same_pairs_same_value(a, b, h);
        }
        if host_map(b).contains_key(h) {
            lemma_same_pairs_same_value(b, a, h);
        }
    }
    assert forall|h: Seq<char>| #[trigger] host_map(a).contains_key(h) implies host_map(a)[h]
        == host_map(b)[h] by {
        lemma_same_pairs_same_value(a, b, h);
    }
    assert(host_map(a) =~= host_map(b));
}

} // verus!
