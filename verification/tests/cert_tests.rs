use openssl::asn1::Asn1Time;
use openssl::bn::BigNum;
use openssl::bn::MsbOption;
use openssl::hash::MessageDigest;
use openssl::pkey::PKey;
use openssl::rsa::Rsa;
use openssl::x509::X509;
use openssl::x509::X509NameBuilder;
use privaxy::cert::Authority;
use privaxy::cert::CertCache;
use privaxy::cert::GetOutcome;
use privaxy::cert::SignedWithCaCert;
use privaxy::cert::is_ipv4_host;
use privaxy::cert::leaf_params;
use privaxy::cert::SanKind;
use privaxy::cert::CN_TOO_LONG;

fn self_signed() -> (rustls::ServerConfig, Vec<u8>) {
    let rsa = Rsa::generate(2048).unwrap();
    let key = PKey::from_rsa(rsa).unwrap();
    let mut name = X509NameBuilder::new().unwrap();
    name.append_entry_by_text("CN", "cache test").unwrap();
    let name = name.build();
    let mut builder = X509::builder().unwrap();
    builder.set_version(2).unwrap();
    let serial = {
        let mut bn = BigNum::new().unwrap();
        bn.rand(64, MsbOption::MAYBE_ZERO, false).unwrap();
        bn.to_asn1_integer().unwrap()
    };
    builder.set_serial_number(&serial).unwrap();
    builder.set_subject_name(&name).unwrap();
    builder.set_issuer_name(&name).unwrap();
    builder.set_pubkey(&key).unwrap();
    builder.set_not_before(&Asn1Time::days_from_now(0).unwrap()).unwrap();
    builder.set_not_after(&Asn1Time::days_from_now(1).unwrap()).unwrap();
    builder.sign(&key, MessageDigest::sha256()).unwrap();
    let cert = builder.build();
    let cert_der = cert.to_der().unwrap();
    let key_der = key.private_key_to_der().unwrap();
    let config = rustls::ServerConfig::builder()
        .with_safe_defaults()
        .with_no_client_auth()
        .with_single_cert(
            vec![rustls::Certificate(cert_der.clone())],
            rustls::PrivateKey(key_der),
        )
        .unwrap();
    (config, cert_der)
}

fn leaf_for(host: &str, leaf_der: Vec<u8>, config: rustls::ServerConfig) -> SignedWithCaCert {
    SignedWithCaCert {
        authority: Authority { host: host.to_string(), port: Some(443) },
        leaf_der,
        ca_der: Vec::new(),
        server_configuration: config,
    }
}

#[test]
fn ipv4_literals_are_recognised() {
    assert!(is_ipv4_host("192.168.0.1"));
    assert!(is_ipv4_host("0.0.0.0"));
    assert!(is_ipv4_host("255.255.255.255"));
    assert!(!is_ipv4_host("256.0.0.1"));
    assert!(!is_ipv4_host("01.2.3.4"));
    assert!(!is_ipv4_host("1.2.3"));
    assert!(!is_ipv4_host("1.2.3.4.5"));
    assert!(!is_ipv4_host("a.b.c.d"));
    assert!(!is_ipv4_host("example.com"));
    assert!(!is_ipv4_host("1..2.3"));
    assert!(!is_ipv4_host(""));
    assert!(!is_ipv4_host("[2001:db8::1]"));
}

#[test]
fn leaf_params_choose_san_by_host_kind() {
    let dns = leaf_params(&Authority { host: "example.com".to_string(), port: Some(443) });
    assert_eq!(dns.san, SanKind::Dns);
    assert_eq!(dns.common_name, "example.com");
    let ip = leaf_params(&Authority { host: "192.168.0.1".to_string(), port: Some(443) });
    assert_eq!(ip.san, SanKind::Ip);
    assert_eq!(ip.common_name, "192.168.0.1");
    assert_eq!(ip.serial_bits, 159);
    assert_eq!(ip.not_before_backdate_secs, 60);
    assert_eq!(ip.validity_days, 365);
}

#[test]
fn overlong_host_gets_the_sentinel_common_name() {
    let long_host = format!("{}.example.com", "a".repeat(70));
    let params = leaf_params(&Authority { host: long_host.clone(), port: Some(443) });
    assert_eq!(params.common_name, CN_TOO_LONG);
    assert_eq!(params.common_name, "privaxy_cn_too_long.local");
    // exactly 64 bytes still passes through
    let host64 = "a".repeat(64);
    let params64 = leaf_params(&Authority { host: host64.clone(), port: None });
    assert_eq!(params64.common_name, host64);
    let host65 = "a".repeat(65);
    let params65 = leaf_params(&Authority { host: host65, port: None });
    assert_eq!(params65.common_name, CN_TOO_LONG);
}

#[test]
fn certificate_cache_single_flight() {
    let (config, cert_der) = self_signed();
    let mut cache = CertCache::new();
    let authority = Authority { host: "blocked.test".to_string(), port: Some(443) };

    // the first miss registers a leader
    match cache.get_step(&authority) {
        GetOutcome::Lead => {}
        _ => panic!("the first lookup must lead"),
    }
    // every further lookup before completion waits; no second generation
    for _ in 0..99 {
        match cache.get_step(&authority.duplicate()) {
            GetOutcome::Wait => {}
            _ => panic!("lookups during generation must wait"),
        }
    }
    assert_eq!(cache.get_metrics(), (0, 100));

    cache.complete(authority.duplicate(), leaf_for("blocked.test", cert_der.clone(), config));

    // after completion every lookup hits the one leaf, bytes identical
    for _ in 0..100 {
        match cache.get_step(&authority.duplicate()) {
            GetOutcome::Hit(leaf) => {
                assert_eq!(leaf.leaf_der, cert_der);
                assert_eq!(leaf.authority.host, "blocked.test");
            }
            _ => panic!("lookups after completion must hit"),
        }
    }
    let (hits, misses) = cache.get_metrics();
    assert_eq!(hits, 100);
    assert_eq!(misses, 100);
    assert_eq!(cache.cache.len(), 1);
    assert!(cache.pending.is_empty());
}

#[test]
fn equal_authorities_share_one_leaf() {
    let (config, cert_der) = self_signed();
    let mut cache = CertCache::new();
    let a1 = Authority { host: "example.com".to_string(), port: Some(443) };
    let a2 = Authority { host: "example.com".to_string(), port: Some(443) };
    match cache.get_step(&a1) {
        GetOutcome::Lead => {}
        _ => panic!("first lookup must lead"),
    }
    cache.complete(a1, leaf_for("example.com", cert_der.clone(), config));
    let first = match cache.get_step(&a2) {
        GetOutcome::Hit(leaf) => leaf.leaf_der,
        _ => panic!("must hit"),
    };
    let second = match cache.get_step(&a2) {
        GetOutcome::Hit(leaf) => leaf.leaf_der,
        _ => panic!("must hit"),
    };
    assert_eq!(first, second);
    assert_eq!(first, cert_der);
}

#[test]
fn different_ports_are_different_authorities() {
    let (config, cert_der) = self_signed();
    let mut cache = CertCache::new();
    let a443 = Authority { host: "example.com".to_string(), port: Some(443) };
    let a8443 = Authority { host: "example.com".to_string(), port: Some(8443) };
    match cache.get_step(&a443) {
        GetOutcome::Lead => {}
        _ => panic!("must lead"),
    }
    cache.complete(a443, leaf_for("example.com", cert_der, config));
    match cache.get_step(&a8443) {
        GetOutcome::Lead => {}
        _ => panic!("a different port is a fresh authority"),
    }
}
