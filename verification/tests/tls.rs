use moq_pure::tls::args::Args;
use moq_pure::tls::certs::{chain_of_certs, key_of_found, read_chain, read_key, ServeCerts};
use moq_pure::tls::digest::{digest_text, fingerprint};
use moq_pure::tls::error::LoadError;
use moq_pure::tls::load::{LoadAction, LoadEvent, LoadPlan, Loading, Stage, TlsVersion};
use moq_pure::tls::pem::{KeyFormat, PrivateKey};
use moq_pure::tls::provider::ProviderStep;
use moq_pure::tls::roots::{add_platform_roots, add_root_file, first_root, has_root};
use rustls::RootCertStore;
use std::path::PathBuf;

const ROOT_X2: &str = "\
-----BEGIN CERTIFICATE-----
MIICGzCCAaGgAwIBAgIQQdKd0XLq7qeAwSxs6S+HUjAKBggqhkjOPQQDAzBPMQsw
CQYDVQQGEwJVUzEpMCcGA1UEChMgSW50ZXJuZXQgU2VjdXJpdHkgUmVzZWFyY2gg
R3JvdXAxFTATBgNVBAMTDElTUkcgUm9vdCBYMjAeFw0yMDA5MDQwMDAwMDBaFw00
MDA5MTcxNjAwMDBaME8xCzAJBgNVBAYTAlVTMSkwJwYDVQQKEyBJbnRlcm5ldCBT
ZWN1cml0eSBSZXNlYXJjaCBHcm91cDEVMBMGA1UEAxMMSVNSRyBSb290IFgyMHYw
EAYHKoZIzj0CAQYFK4EEACIDYgAEzZvVn4CDCuwJSvMWSj5cz3es3mcFDR0HttwW
+1qLFNvicWDEukWVEYmO6gbf9yoWHKS5xcUy4APgHoIYOIvXRdgKam7mAHf7AlF9
ItgKbppbd9/w+kHsOdx1ymgHDB/qo0IwQDAOBgNVHQ8BAf8EBAMCAQYwDwYDVR0T
AQH/BAUwAwEB/zAdBgNVHQ4EFgQUfEKWrt5LSDv6kviejM9ti6lyN5UwCgYIKoZI
zj0EAwMDaAAwZQIwe3lORlCEwkSHRhtFcP9Ymd70/aTSVaYgLXTWNLxBo1BfASdW
tL4ndQavEi51mI38AjEAi/V3bNTIZargCyzuFJ0nN6T5U6VR5CmD1/iQMVtCnwr1
/q4AaOeMSQ+2b1tbFfLn
-----END CERTIFICATE-----
";

const ROOT_CA3: &str = "\
-----BEGIN CERTIFICATE-----
MIIBtjCCAVugAwIBAgITBmyf1XSXNmY/Owua2eiedgPySjAKBggqhkjOPQQDAjA5
MQswCQYDVQQGEwJVUzEPMA0GA1UEChMGQW1hem9uMRkwFwYDVQQDExBBbWF6b24g
Um9vdCBDQSAzMB4XDTE1MDUyNjAwMDAwMFoXDTQwMDUyNjAwMDAwMFowOTELMAkG
A1UEBhMCVVMxDzANBgNVBAoTBkFtYXpvbjEZMBcGA1UEAxMQQW1hem9uIFJvb3Qg
Q0EgMzBZMBMGByqGSM49AgEGCCqGSM49AwEHA0IABCmXp8ZBf8ANm+gBG1bG8lKl
ui2yEujSLtf6ycXYqm0fc4E7O5hrOXwzpcVOho6AF2hiRVd9RFgdszflZwjrZt6j
QjBAMA8GA1UdEwEB/wQFMAMBAf8wDgYDVR0PAQH/BAQDAgGGMB0GA1UdDgQWBBSr
ttvXBp43rDCGB5Fwx5zEGbF4wDAKBggqhkjOPQQDAgNJADBGAiEA4IWSoxe3jfkr
BqWTrBqYaGFy+uGh0PsceGCmQ5nFuMQCIQCcAu/xlJyzlvnrxir4tiz+OpAUFteM
YyRIHN8wfdVoOw==
-----END CERTIFICATE-----
";

const ROOT_X2_SHA256: &str = "69729b8e15a86efc177a57afb7171dfc64add28c2fca8cf1507e34453ccb1470";
const ROOT_CA3_SHA256: &str = "18ce6cfe7bf14e60b2e347b8dfe868cb31d02ebb3ada271569f50343b46db3a4";

/// A section of a PEM file with the content 1, 2, 3, 4.
fn section(name: &str) -> String {
    format!("-----BEGIN {name}-----\nAQIDBA==\n-----END {name}-----\n")
}

/// A section of a PEM file that is not base64.
fn broken(name: &str) -> String {
    format!("-----BEGIN {name}-----\n!!!!\n-----END {name}-----\n")
}

fn file<K>(text: &str) -> LoadEvent<K> {
    LoadEvent::File { bytes: text.as_bytes().to_vec() }
}

fn args(pairs: usize, roots: usize) -> Args {
    let mut args = Args::default();
    for n in 0..pairs {
        args.cert.push(PathBuf::from(format!("cert{n}.pem")));
        args.key.push(PathBuf::from(format!("key{n}.pem")));
    }
    for n in 0..roots {
        args.root.push(PathBuf::from(format!("root{n}.pem")));
    }
    args
}

/// Where a load of `args` stands after `events`.
fn after(args: &Args, events: Vec<LoadEvent<u32>>) -> Result<(Loading<u32>, LoadAction), LoadError> {
    let mut state = args.load()?;
    for event in events {
        assert!(state.0.fits(&event));
        state = state.0.step(args, event)?;
    }
    Ok(state)
}

fn error(args: &Args, events: Vec<LoadEvent<u32>>) -> LoadError {
    match after(args, events) {
        Ok(_) => panic!("the load fails"),
        Err(error) => error,
    }
}

fn plan(args: &Args, events: Vec<LoadEvent<u32>>) -> (Loading<u32>, LoadPlan) {
    match after(args, events) {
        Ok((loading, LoadAction::Build { plan })) => (loading, plan),
        _ => panic!("everything is loaded"),
    }
}

fn pair(cert: &str, signer: u32) -> Vec<LoadEvent<u32>> {
    vec![file(cert), file(&section("PRIVATE KEY")), LoadEvent::Signer { key: signer }]
}

#[test]
fn pure_fingerprint_is_sha256_hex() {
    let mut args = Args::default();
    args.cert.push(PathBuf::from("tests/certs/cert.pem"));
    args.key.push(PathBuf::from("tests/certs/key.pem"));
    let mut events = pair(ROOT_CA3, 1);
    events.push(LoadEvent::PlatformRoots { certs: Vec::new() });
    let (_, cfg) = plan(&args, events);
    let fp = &cfg.fingerprints[0];
    assert_eq!(fp.len(), 64, "sha256 hex is 64 chars");
    assert!(fp.chars().all(|c| c.is_ascii_hexdigit()));
}

#[test]
fn digests_in_hexadecimal() {
    assert_eq!(digest_text(&[]), "");
    assert_eq!(digest_text(&[0x00, 0x0f, 0xa5, 0xff]), "000fa5ff");
    let empty = "e3b0c44298fc1c149afbf4c8996fb92427ae41e4649b934ca495991b7852b855";
    assert_eq!(fingerprint(b""), empty);
    let abc = "ba7816bf8f01cfea414140de5dae2223b00361a396177a9cb410ff61f20015ad";
    assert_eq!(fingerprint(b"abc"), abc);
}

#[test]
fn hexadecimal_tells_bytes_apart() {
    for a in 0u8..=255 {
        for b in [0u8, 1, 16, 254, 255] {
            assert_eq!(digest_text(&[a]) == digest_text(&[b]), a == b);
        }
    }
}

#[test]
fn chains_are_read_whole() {
    let both = format!("comment\n{ROOT_CA3}{}{ROOT_X2}", section("PRIVATE KEY"));
    let chain = read_chain(both.as_bytes()).ok().unwrap();
    assert_eq!(chain.len(), 2);
    assert_eq!(fingerprint(&chain[0]), ROOT_CA3_SHA256);
    assert_eq!(fingerprint(&chain[1]), ROOT_X2_SHA256);
    let chain = read_chain(section("CERTIFICATE").as_bytes()).ok().unwrap();
    assert_eq!(chain, [[1u8, 2, 3, 4]]);
}

#[test]
fn chains_that_cannot_be_read() {
    assert!(matches!(read_chain(b""), Err(LoadError::NoCertificate)));
    let key = section("PRIVATE KEY");
    assert!(matches!(read_chain(key.as_bytes()), Err(LoadError::NoCertificate)));
    let half = format!("{ROOT_CA3}{}", broken("CERTIFICATE"));
    assert!(matches!(read_chain(half.as_bytes()), Err(LoadError::ReadCerts(_))));
    let certs = vec![
        Ok(vec![1]),
        Err("first".to_string()),
        Ok(vec![2]),
        Err("second".to_string()),
    ];
    match chain_of_certs(&certs) {
        Err(LoadError::ReadCerts(cause)) => assert_eq!(cause, "first"),
        _ => panic!("a section cannot be read"),
    }
    let certs = vec![Ok(vec![1]), Ok(vec![2])];
    assert_eq!(chain_of_certs(&certs).ok().unwrap(), [[1u8], [2]]);
}

#[test]
fn keys_come_in_three_formats() {
    let cases = [
        ("PRIVATE KEY", KeyFormat::Pkcs8),
        ("RSA PRIVATE KEY", KeyFormat::Pkcs1),
        ("EC PRIVATE KEY", KeyFormat::Sec1),
    ];
    for (name, format) in cases {
        let key = read_key(section(name).as_bytes()).ok().unwrap();
        assert_eq!(key.format, format);
        assert_eq!(key.der, [1, 2, 3, 4]);
    }
    let behind = format!("{ROOT_CA3}{}{}", section("EC PRIVATE KEY"), section("PRIVATE KEY"));
    assert_eq!(read_key(behind.as_bytes()).ok().unwrap().format, KeyFormat::Sec1);
}

#[test]
fn keys_that_cannot_be_read() {
    assert!(matches!(read_key(ROOT_CA3.as_bytes()), Err(LoadError::MissingKey)));
    let key = format!("{}{}", broken("PRIVATE KEY"), section("PRIVATE KEY"));
    assert!(matches!(read_key(key.as_bytes()), Err(LoadError::ParseKey(_))));
    match key_of_found(Err("cause".to_string())) {
        Err(LoadError::ParseKey(cause)) => assert_eq!(cause, "cause"),
        _ => panic!("the key cannot be read"),
    }
    assert!(matches!(key_of_found(Ok(None)), Err(LoadError::MissingKey)));
    let key = PrivateKey { format: KeyFormat::Sec1, der: vec![5] };
    assert_eq!(key_of_found(Ok(Some(key))).ok().unwrap().der, [5]);
}

#[test]
fn the_first_root_of_a_file_counts() {
    let mut roots = RootCertStore::empty();
    let both = format!("{ROOT_CA3}{ROOT_X2}");
    assert!(add_root_file(&mut roots, both.as_bytes()).is_ok());
    assert_eq!(roots.len(), 1);
    assert!(add_root_file(&mut roots, ROOT_X2.as_bytes()).is_ok());
    assert_eq!(roots.len(), 2);
    let half = format!("{ROOT_CA3}{}", broken("CERTIFICATE"));
    assert!(add_root_file(&mut roots, half.as_bytes()).is_ok());
    assert_eq!(roots.len(), 3);
    assert_eq!(roots.roots[0].subject, roots.roots[2].subject);
    assert_ne!(roots.roots[0].subject, roots.roots[1].subject);
}

#[test]
fn a_root_file_is_known_by_its_start() {
    let half = format!("comment\n{ROOT_CA3}{}", broken("CERTIFICATE"));
    let end = half.find("-----END").unwrap();
    assert!(!has_root(b""));
    assert!(!has_root(half[..end].as_bytes()));
    assert!(has_root(half[..end + 26].as_bytes()));
    assert!(has_root(half.as_bytes()));
    assert!(!has_root(format!("{}{ROOT_CA3}", broken("CERTIFICATE")).as_bytes()));
}

#[test]
fn root_files_without_a_root() {
    let mut roots = RootCertStore::empty();
    assert!(matches!(add_root_file(&mut roots, b"text"), Err(LoadError::NoRoots)));
    let bad = format!("{}{ROOT_CA3}", broken("CERTIFICATE"));
    assert!(matches!(add_root_file(&mut roots, bad.as_bytes()), Err(LoadError::ReadRoot(_))));
    let junk = section("CERTIFICATE");
    assert!(matches!(add_root_file(&mut roots, junk.as_bytes()), Err(LoadError::AddRoot(_))));
    assert!(roots.is_empty());
    assert!(matches!(first_root(Vec::new()), Err(LoadError::NoRoots)));
    match first_root(vec![Err("cause".to_string()), Ok(vec![1])]) {
        Err(LoadError::ReadRoot(cause)) => assert_eq!(cause, "cause"),
        _ => panic!("the first section cannot be read"),
    }
    assert_eq!(first_root(vec![Ok(vec![1]), Err("cause".to_string())]).ok().unwrap(), [1]);
}

#[test]
fn unreadable_roots_of_the_platform_are_passed_over() {
    let x2 = read_chain(ROOT_X2.as_bytes()).ok().unwrap().remove(0);
    let ca3 = read_chain(ROOT_CA3.as_bytes()).ok().unwrap().remove(0);
    let mut roots = RootCertStore::empty();
    add_platform_roots(&mut roots, &vec![vec![1, 2, 3], x2, Vec::new(), ca3]);
    assert_eq!(roots.len(), 2);
}

#[test]
fn certificates_are_kept_in_order() {
    let mut serve: ServeCerts<u32> = ServeCerts::default();
    assert!(serve.resolve().is_none());
    assert!(serve.fingerprints().is_empty());
    serve.load(vec![b"abc".to_vec(), b"issuer".to_vec()], 1);
    serve.load(vec![b"".to_vec()], 2);
    let shown = serve.resolve().unwrap();
    assert_eq!((shown.key, shown.cert.len()), (2, 1));
    let texts = serve.fingerprints();
    assert_eq!(texts.len(), 2);
    assert_eq!(texts[0], fingerprint(b"abc"));
    assert_eq!(texts[1], fingerprint(b""));
}

#[test]
fn nothing_is_loaded_by_default() {
    let args = Args::default();
    assert!(matches!(after(&args, vec![]), Ok((_, LoadAction::FindPlatformRoots))));
    let certs = read_chain(ROOT_X2.as_bytes()).ok().unwrap();
    let (loading, plan) = plan(&args, vec![LoadEvent::PlatformRoots { certs }]);
    assert!(!plan.disable_verify);
    assert!(!plan.server);
    assert!(plan.fingerprints.is_empty());
    assert_eq!(loading.roots.len(), 1);
    assert!(matches!(loading.stage, Stage::Done));
}

#[test]
fn pairs_come_before_roots() {
    let mut args = args(2, 2);
    args.disable_verify = true;
    let mut events: Vec<LoadEvent<u32>> = Vec::new();
    assert!(matches!(after(&args, vec![]), Ok((_, LoadAction::ReadCert { pair: 0 }))));
    let first = vec![file(ROOT_CA3)];
    assert!(matches!(after(&args, first), Ok((_, LoadAction::ReadKey { pair: 0 }))));
    let second = vec![file(ROOT_CA3), file(&section("EC PRIVATE KEY"))];
    match after(&args, second) {
        Ok((_, LoadAction::LoadKey { key })) => {
            assert_eq!(key.format, KeyFormat::Sec1);
            assert_eq!(key.der, [1, 2, 3, 4]);
        }
        _ => panic!("the key is loaded next"),
    }
    assert!(matches!(after(&args, pair(ROOT_CA3, 7)), Ok((_, LoadAction::ReadCert { pair: 1 }))));
    events.extend(pair(ROOT_CA3, 7));
    events.extend(pair(&format!("{ROOT_X2}{ROOT_CA3}"), 8));
    events.push(file(ROOT_X2));
    events.push(file(ROOT_CA3));
    let (loading, plan) = plan(&args, events);
    assert_eq!(plan.versions, [TlsVersion::Tls13]);
    assert!(plan.disable_verify);
    assert!(plan.server);
    assert_eq!(plan.fingerprints, [ROOT_CA3_SHA256, ROOT_X2_SHA256]);
    let config = plan.config('c', Some('s'));
    assert_eq!((config.client, config.server), ('c', Some('s')));
    assert_eq!(config.fingerprints, [ROOT_CA3_SHA256, ROOT_X2_SHA256]);
    assert_eq!(loading.roots.len(), 2);
    let shown = loading.serve.resolve().unwrap();
    assert_eq!((shown.key, shown.cert.len()), (8, 2));
    let x2 = &loading.serve.list[1].cert[0];
    let mut only_x2 = RootCertStore::empty();
    add_platform_roots(&mut only_x2, &vec![x2.clone()]);
    assert_eq!(loading.roots.roots[0].subject, only_x2.roots[0].subject);
}

#[test]
fn pairs_without_root_files_ask_the_platform() {
    let found = after(&args(1, 0), pair(ROOT_CA3, 1));
    assert!(matches!(found, Ok((_, LoadAction::FindPlatformRoots))));
    let found = after(&args(1, 1), pair(ROOT_CA3, 1));
    assert!(matches!(found, Ok((_, LoadAction::ReadRoot { root: 0 }))));
    let found = after(&args(0, 2), vec![file(ROOT_X2)]);
    assert!(matches!(found, Ok((_, LoadAction::ReadRoot { root: 1 }))));
}

#[test]
fn loads_that_fail() {
    let mut uneven = args(1, 0);
    uneven.cert.push(PathBuf::from("more.pem"));
    let counts = error(&uneven, vec![]);
    assert_eq!(counts.message(), "--tls-cert and --tls-key counts differ");
    assert_eq!(counts.cause(), None);

    let cause = || "why".to_string();
    let key = || file::<u32>(&section("PRIVATE KEY"));
    let cases: Vec<(Args, Vec<LoadEvent<u32>>, &str, Option<&str>)> = vec![
        (
            args(1, 0),
            vec![LoadEvent::OpenFailed { cause: cause() }],
            "failed to open cert file",
            Some("why"),
        ),
        (
            args(1, 0),
            vec![LoadEvent::ReadFailed { cause: cause() }],
            "failed to read certs",
            Some("why"),
        ),
        (args(1, 0), vec![file("")], "could not find certificate", None),
        (
            args(1, 0),
            vec![file(ROOT_X2), LoadEvent::OpenFailed { cause: cause() }],
            "failed to open key file",
            Some("why"),
        ),
        (
            args(1, 0),
            vec![file(ROOT_X2), LoadEvent::ReadFailed { cause: cause() }],
            "why",
            None,
        ),
        (args(1, 0), vec![file(ROOT_X2), file("")], "missing private key", None),
        (
            args(1, 0),
            vec![file(ROOT_X2), key(), LoadEvent::SignerFailed { cause: cause() }],
            "failed to load private key with pure provider",
            Some("why"),
        ),
        (
            args(0, 0),
            vec![LoadEvent::PlatformRootsFailed { cause: cause() }],
            "could not load platform certs",
            Some("why"),
        ),
        (
            args(0, 1),
            vec![LoadEvent::OpenFailed { cause: cause() }],
            "failed to open root cert file",
            Some("why"),
        ),
        (
            args(0, 1),
            vec![LoadEvent::ReadFailed { cause: cause() }],
            "failed to read root cert",
            Some("why"),
        ),
        (args(0, 1), vec![file("")], "no roots found", None),
    ];
    for (args, events, message, cause) in cases {
        let error = error(&args, events);
        assert_eq!(error.message(), message);
        assert_eq!(error.cause().as_deref(), cause);
    }
    let junk = error(&args(0, 1), vec![file(&section("CERTIFICATE"))]);
    assert!(matches!(junk, LoadError::AddRoot(_)));
    assert_eq!(junk.message(), "failed to add root cert");
    assert!(junk.cause().is_some());
    let broken_key = error(&args(1, 0), vec![file(ROOT_X2), file(&broken("PRIVATE KEY"))]);
    assert!(matches!(broken_key, LoadError::ParseKey(_)));
    assert_eq!(broken_key.cause(), None);
    assert!(!broken_key.message().is_empty());
}

#[test]
fn loads_wait_for_what_they_asked_for() {
    let args = args(1, 0);
    let (loading, _) = after(&args, vec![]).ok().unwrap();
    assert!(loading.fits(&file(ROOT_X2)));
    assert!(loading.fits(&LoadEvent::OpenFailed { cause: String::new() }));
    assert!(!loading.fits(&LoadEvent::Signer { key: 1 }));
    assert!(!loading.fits(&LoadEvent::PlatformRoots { certs: Vec::new() }));
    let mut events = pair(ROOT_X2, 1);
    let (loading, _) = after(&args, pair(ROOT_X2, 1)).ok().unwrap();
    assert!(loading.fits(&LoadEvent::PlatformRootsFailed { cause: String::new() }));
    assert!(!loading.fits(&file(ROOT_X2)));
    events.push(LoadEvent::PlatformRoots { certs: Vec::new() });
    let (loading, _) = plan(&args, events);
    assert!(!loading.fits(&file(ROOT_X2)));
}

#[test]
fn a_provider_stays() {
    assert!(matches!(ProviderStep::start(Some(1)), ProviderStep::Take { provider: 1 }));
    assert!(matches!(ProviderStep::<u8>::start(None), ProviderStep::Install));
    assert!(matches!(ProviderStep::<u8>::installed(Ok(())), ProviderStep::TakeInstalled));
    assert!(matches!(ProviderStep::installed(Err(2)), ProviderStep::TakeInstalled));
}
