use adq_pingora::ssl::{certificate_candidates, configure_ssl, MultiCertManager};

#[test]
fn empty_manager_selects_nothing() {
    let m = MultiCertManager::new();
    assert!(!m.has_default());
    assert!(m.select(None).is_none());
    assert!(m.select(Some("example.com")).is_none());
}

#[test]
fn select_by_server_name_or_default() {
    let mut m = MultiCertManager::new();
    m.add_certificate("a.example", "/a.pem", "/a.key");
    m.add_certificate("b.example", "/b.pem", "/b.key");
    // without a default, only the named domains have a certificate
    assert!(m.select(None).is_none());
    assert!(m.select(Some("c.example")).is_none());
    assert_eq!(m.select(Some("a.example")).unwrap().cert_path, "/a.pem");
    m.set_default_certificate("/d.pem", "/d.key");
    assert!(m.has_default());
    let a = m.select(Some("a.example")).unwrap();
    assert_eq!((a.cert_path.as_str(), a.key_path.as_str()), ("/a.pem", "/a.key"));
    let b = m.select(Some("b.example")).unwrap();
    assert_eq!((b.cert_path.as_str(), b.key_path.as_str()), ("/b.pem", "/b.key"));
    let d = m.select(Some("c.example")).unwrap();
    assert_eq!((d.cert_path.as_str(), d.key_path.as_str()), ("/d.pem", "/d.key"));
    let d = m.select(None).unwrap();
    assert_eq!((d.cert_path.as_str(), d.key_path.as_str()), ("/d.pem", "/d.key"));
    // no wildcard or suffix matching
    assert_eq!(m.select(Some("x.a.example")).unwrap().cert_path, "/d.pem");
    assert_eq!(m.select(Some("A.EXAMPLE")).unwrap().cert_path, "/d.pem");
    assert_eq!(m.select(Some("")).unwrap().cert_path, "/d.pem");
}

#[test]
fn add_certificate_replaces() {
    let mut m = MultiCertManager::new();
    m.add_certificate("a.example", "/old.pem", "/old.key");
    m.add_certificate("a.example", "/new.pem", "/new.key");
    let a = m.select(Some("a.example")).unwrap();
    assert_eq!((a.cert_path.as_str(), a.key_path.as_str()), ("/new.pem", "/new.key"));
}

#[test]
fn candidates_are_the_two_domains() {
    let c = certificate_candidates();
    assert_eq!(c.len(), 2);
    assert_eq!(c[0].domain, "auth.ad-quest.ru");
    assert_eq!(c[0].cert_path, "/etc/letsencrypt/live/auth.ad-quest.ru/fullchain.pem");
    assert_eq!(c[0].key_path, "/etc/letsencrypt/live/auth.ad-quest.ru/privkey.pem");
    assert_eq!(c[1].domain, "api.ad-quest.ru");
    assert_eq!(c[1].cert_path, "/etc/letsencrypt/live/api.ad-quest.ru/fullchain.pem");
    assert_eq!(c[1].key_path, "/etc/letsencrypt/live/api.ad-quest.ru/privkey.pem");
}

#[test]
fn configure_ssl_takes_present_candidates() {
    let c = certificate_candidates();
    let none = configure_ssl(&c, &vec![false, false]);
    assert!(!none.has_default());
    assert!(none.select(Some("auth.ad-quest.ru")).is_none());

    let second = configure_ssl(&c, &vec![false, true]);
    assert!(second.has_default());
    assert_eq!(
        second.select(None).unwrap().cert_path,
        "/etc/letsencrypt/live/api.ad-quest.ru/fullchain.pem"
    );
    assert_eq!(
        second.select(Some("auth.ad-quest.ru")).unwrap().cert_path,
        "/etc/letsencrypt/live/api.ad-quest.ru/fullchain.pem"
    );

    let both = configure_ssl(&c, &vec![true, true]);
    assert_eq!(
        both.select(None).unwrap().key_path,
        "/etc/letsencrypt/live/auth.ad-quest.ru/privkey.pem"
    );
    assert_eq!(
        both.select(Some("api.ad-quest.ru")).unwrap().key_path,
        "/etc/letsencrypt/live/api.ad-quest.ru/privkey.pem"
    );
}
