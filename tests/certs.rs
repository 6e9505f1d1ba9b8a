use trexd::addr::Ipv4;
use trexd::cert::{load_cert_key, DynamicCert, PemFiles, PemPart};
use pingora_openssl::hash::MessageDigest;
use pingora_openssl::pkey::{PKey, Private};
use pingora_openssl::x509::{X509Builder, X509NameBuilder, X509};
use trexd::route::{App, TlsConfig};

const CERT_A: &str = "-----BEGIN CERTIFICATE-----
MIIBfjCCASOgAwIBAgIUQfEiHMNCGQbdoH3sWdxVnR0JYHEwCgYIKoZIzj0EAwIw
FDESMBAGA1UEAwwJYS5leGFtcGxlMB4XDTI2MTAxOTA5MzIxNFoXDTM2MTAxNjA5
MzIxNFowFDESMBAGA1UEAwwJYS5leGFtcGxlMFkwEwYHKoZIzj0CAQYIKoZIzj0D
AQcDQgAEz/FfRGcwuvlB0ejza+SiYYPyQRVuYhIthtH7nilC2Wkx3/m1PVeKdDE4
bI+f6idewqHvtutMWSGES/RyF5Wf4KNTMFEwHQYDVR0OBBYEFPHiLigpZrOd7ABV
W553guqbOegaMB8GA1UdIwQYMBaAFPHiLigpZrOd7ABVW553guqbOegaMA8GA1Ud
EwEB/wQFMAMBAf8wCgYIKoZIzj0EAwIDSQAwRgIhAPscwc+AsGu8OcyHEkkny5BO
IwRXY8MUoQy/8dcvnBYtAiEA9TZwaRSdwHI98xnbTYg/rvXVu6sWU1oIz1An8rSS
tBc=
-----END CERTIFICATE-----
";

fn scenario_apps() -> Vec<App> {
    vec![
        App {
            addr: Ipv4(10, 0, 0, 1),
            port: 8080,
            hostname: "a.example".to_string(),
            tls: Some(TlsConfig { cert_path: "cert_a".to_string(), key_path: "key_a".to_string() }),
        },
        App { addr: Ipv4(10, 0, 0, 2), port: 9090, hostname: "b.example".to_string(), tls: None },
    ]
}

/// A store whose material is the pair of paths each hostname was configured with.
fn path_store(apps: &Vec<App>) -> DynamicCert<(String, String)> {
    let pairs = DynamicCert::<(String, String)>::tls_sources(apps)
        .into_iter()
        .map(|(h, t)| (h, (t.cert_path, t.key_path)))
        .collect();
    DynamicCert::new(pairs)
}

#[test]
fn tls_sources_keep_only_tls_entries() {
    let src = DynamicCert::<()>::tls_sources(&scenario_apps());
    assert_eq!(src.len(), 1);
    assert_eq!(src[0].0, "a.example");
    assert_eq!(src[0].1.cert_path, "cert_a");
    assert_eq!(src[0].1.key_path, "key_a");
}

#[test]
fn sni_selects_the_entry_material() {
    let store = path_store(&scenario_apps());
    assert_eq!(store.select(Some("a.example")), Some(&("cert_a".to_string(), "key_a".to_string())));
    assert_eq!(store.select(Some("b.example")), None);
    assert_eq!(store.select(Some("c.example")), None);
}

#[test]
fn absent_sni_selects_nothing() {
    let store = path_store(&scenario_apps());
    assert_eq!(store.select(None), None);
}

#[test]
fn store_is_order_independent_and_repeatable() {
    let pairs = vec![
        ("a.example".to_string(), 1u32),
        ("b.example".to_string(), 2u32),
        ("c.example".to_string(), 3u32),
    ];
    let mut reversed = pairs.clone();
    reversed.reverse();
    let first = DynamicCert::new(pairs.clone());
    let again = DynamicCert::new(pairs);
    let other = DynamicCert::new(reversed);
    for h in ["a.example", "b.example", "c.example", "d.example"] {
        assert_eq!(first.select(Some(h)), again.select(Some(h)));
        assert_eq!(first.select(Some(h)), other.select(Some(h)));
    }
    assert_eq!(first.select(Some("b.example")), Some(&2));
}

#[test]
fn later_duplicate_material_wins() {
    let store = DynamicCert::new(vec![
        ("a.example".to_string(), 1u32),
        ("b.example".to_string(), 2u32),
        ("a.example".to_string(), 3u32),
    ]);
    assert_eq!(store.select(Some("a.example")), Some(&3));
    assert_eq!(store.select(Some("b.example")), Some(&2));
}

fn files(cert: &[u8], key: &[u8]) -> PemFiles {
    PemFiles {
        hostname: "a.example".to_string(),
        tls: TlsConfig { cert_path: "/etc/a/cert.pem".to_string(), key_path: "/etc/a/key.pem".to_string() },
        cert_pem: cert.to_vec(),
        key_pem: key.to_vec(),
    }
}

#[test]
fn unparsable_certificate_is_reported() {
    let e = load_cert_key(&files(b"not a certificate", b"")).err().unwrap();
    assert_eq!(e.hostname, "a.example");
    assert_eq!(e.path, "/etc/a/cert.pem");
    assert_eq!(e.part, PemPart::Certificate);
}

#[test]
fn unparsable_key_is_reported() {
    let e = load_cert_key(&files(CERT_A.as_bytes(), b"not a key")).err().unwrap();
    assert_eq!(e.path, "/etc/a/key.pem");
    assert_eq!(e.part, PemPart::PrivateKey);
}

#[test]
fn store_from_bad_files_fails_whole() {
    let r = DynamicCert::from_pem_files(&vec![files(b"", b"")]);
    let e = r.err().unwrap();
    assert_eq!(e.hostname, "a.example");
    assert_eq!(e.part, PemPart::Certificate);
}

#[test]
fn store_from_no_files_is_empty() {
    let store = DynamicCert::from_pem_files(&Vec::new()).ok().unwrap();
    assert!(store.select(Some("a.example")).is_none());
}

fn fresh_key() -> PKey<Private> {
    PKey::generate_ed25519().unwrap()
}

/// A self-signed certificate for `key`, in PEM, with the validity period
/// and serial number of `CERT_A`.
fn cert_pem_for(key: &PKey<Private>) -> Vec<u8> {
    let template = X509::from_pem(CERT_A.as_bytes()).unwrap();
    let mut name = X509NameBuilder::new().unwrap();
    name.append_entry_by_text("CN", "a.example").unwrap();
    let name = name.build();
    let mut b = X509Builder::new().unwrap();
    b.set_version(2).unwrap();
    b.set_subject_name(&name).unwrap();
    b.set_issuer_name(&name).unwrap();
    b.set_serial_number(template.serial_number()).unwrap();
    b.set_not_before(template.not_before()).unwrap();
    b.set_not_after(template.not_after()).unwrap();
    b.set_pubkey(key).unwrap();
    b.sign(key, MessageDigest::null()).unwrap();
    b.build().to_pem().unwrap()
}

#[test]
fn matching_pair_loads() {
    let key = fresh_key();
    let cert = cert_pem_for(&key);
    let key_pem = key.private_key_to_pem_pkcs8().unwrap();
    let (host, ck) = load_cert_key(&files(&cert, &key_pem)).ok().unwrap();
    assert_eq!(host, "a.example");
    assert!(ck.key.public_eq(&key));
    let store = DynamicCert::from_pem_files(&vec![files(&cert, &key_pem)]).ok().unwrap();
    assert!(store.select(Some("a.example")).is_some());
    assert!(store.select(Some("b.example")).is_none());
    assert!(store.select(None).is_none());
}

#[test]
fn key_of_another_certificate_is_a_mismatch() {
    let cert = cert_pem_for(&fresh_key());
    let other = fresh_key().private_key_to_pem_pkcs8().unwrap();
    let e = load_cert_key(&files(&cert, &other)).err().unwrap();
    assert_eq!(e.hostname, "a.example");
    assert_eq!(e.path, "/etc/a/key.pem");
    assert_eq!(e.part, PemPart::KeyMismatch);
    assert!(DynamicCert::from_pem_files(&vec![files(&cert, &other)]).is_err());
}

#[test]
fn one_bad_entry_leaves_no_store() {
    let key = fresh_key();
    let good = files(&cert_pem_for(&key), &key.private_key_to_pem_pkcs8().unwrap());
    let mut bad = files(b"", b"");
    bad.hostname = "b.example".to_string();
    bad.tls.cert_path = "/etc/b/missing.pem".to_string();
    let e = DynamicCert::from_pem_files(&vec![good, bad]).err().unwrap();
    assert_eq!(e.hostname, "b.example");
    assert_eq!(e.path, "/etc/b/missing.pem");
    assert_eq!(e.part, PemPart::Certificate);
}
