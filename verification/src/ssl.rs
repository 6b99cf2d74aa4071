//! Certificate selection by server name for TLS termination.
//!
//! Each domain may have a certificate of its own. A handshake that names
//! no server, or one without a certificate, gets the default certificate.

use vstd::prelude::*;
use vstd::hash_map::StringHashMap;
use crate::text::to_string;

verus! {

/// The files that hold a certificate chain and its private key.
#[derive(Debug, Clone)]
pub struct CertPair {
    pub cert_path: String,
    pub key_path: String,
}

/// A certificate that the gateway looks for at start.
#[derive(Debug, Clone)]
pub struct CertCandidate {
    pub domain: String,
    pub cert_path: String,
    pub key_path: String,
}

pub struct CertPairModel {
    pub cert_path: Seq<char>,
    pub key_path: Seq<char>,
}

impl View for CertPair {
    type V = CertPairModel;

    open spec fn view(&self) -> CertPairModel {
        CertPairModel { cert_path: self.cert_path@, key_path: self.key_path@ }
    }
}

/// The certificates of the gateway, by domain, and the default one.
pub struct MultiCertManager {
    certificates: StringHashMap<CertPair>,
    default_pair: Option<CertPair>,
}

/// The certificate for a handshake: that of the server it names, if it
/// names one that has a certificate; else the default.
pub open spec fn selection(
    certificates: Map<Seq<char>, CertPairModel>,
    default_pair: Option<CertPairModel>,
    server_name: Option<Seq<char>>,
) -> Option<CertPairModel> {
    match server_name {
        Some(name) => if certificates.contains_key(name) {
            Some(certificates[name])
        } else {
            default_pair
        },
        None => default_pair,
    }
}

/// The certificates after the first `n` candidates were looked at: those that are present.
pub open spec fn present_certificates(
    candidates: Seq<CertCandidate>,
    present: Seq<bool>,
    n: int,
) -> Map<Seq<char>, CertPairModel>
    decreases n,
{
    if n <= 0 || n > candidates.len() || n > present.len() {
        Map::empty()
    } else {
        let before = present_certificates(candidates, present, n - 1);
        if present[n - 1] {
            before.insert(
                candidates[n - 1].domain@,
                CertPairModel {
                    cert_path: candidates[n - 1].cert_path@,
                    key_path: candidates[n - 1].key_path@,
                },
            )
        } else {
            before
        }
    }
}

/// The default after the first `n` candidates were looked at: the first that is present.
pub open spec fn first_present(candidates: Seq<CertCandidate>, present: Seq<bool>, n: int) -> Option<
    CertPairModel,
>
    decreases n,
{
    if n <= 0 || n > candidates.len() || n > present.len() {
        None
    } else {
        match first_present(candidates, present, n - 1) {
            Some(p) => Some(p),
            None => if present[n - 1] {
                Some(
                    CertPairModel {
                        cert_path: candidates[n - 1].cert_path@,
                        key_path: candidates[n - 1].key_path@,
                    },
                )
            } else {
                None
            },
        }
    }
}

impl MultiCertManager {
    /// The certificate of each domain that has one.
    pub closed spec fn certificates(&self) -> Map<Seq<char>, CertPairModel> {
        Map::new(
            |d: Seq<char>| self.certificates@.contains_key(d),
            |d: Seq<char>| self.certificates@[d]@,
        )
    }

    /// The default certificate, if one is set.
    pub closed spec fn default_certificate(&self) -> Option<CertPairModel> {
        match self.default_pair {
            Some(p) => Some(p@),
            None => None,
        }
    }

    /// A manager without any certificate.
    pub fn new() -> (m: MultiCertManager)
        ensures
            m.certificates() == Map::<Seq<char>, CertPairModel>::empty(),
            m.default_certificate() is None,
    {
        let m = MultiCertManager { certificates: StringHashMap::new(), default_pair: None };
        assert(m.certificates() =~= Map::<Seq<char>, CertPairModel>::empty());
        m
    }

    /// Gives the domain a certificate, in the place of the one it had.
    pub fn add_certificate(&mut self, domain: &str, cert_path: &str, key_path: &str)
        ensures
            final(self).certificates() == old(self).certificates().insert(
                domain@,
                CertPairModel { cert_path: cert_path@, key_path: key_path@ },
            ),
            final(self).default_certificate() == old(self).default_certificate(),
    {
        let pair = CertPair { cert_path: to_string(cert_path), key_path: to_string(key_path) };
        self.certificates.insert(to_string(domain), pair);
        assert(final(self).certificates() =~= old(self).certificates().insert(
            domain@,
            CertPairModel { cert_path: cert_path@, key_path: key_path@ },
        ));
    }

    /// Sets the certificate for handshakes that no domain's certificate answers.
    pub fn set_default_certificate(&mut self, cert_path: &str, key_path: &str)
        ensures
            final(self).certificates() == old(self).certificates(),
            final(self).default_certificate() == Some(
                CertPairModel { cert_path: cert_path@, key_path: key_path@ },
            ),
    {
        self.default_pair = Some(
            CertPair { cert_path: to_string(cert_path), key_path: to_string(key_path) },
        );
    }

    /// Whether a default certificate is set: without one the gateway serves no TLS.
    pub fn has_default(&self) -> (b: bool)
        ensures
            b == self.default_certificate().is_some(),
    {
        self.default_pair.is_some()
    }

    /// The certificate for a handshake that names `server_name`, or none.
    pub fn select(&self, server_name: Option<&str>) -> (r: Option<&CertPair>)
        ensures
            match r {
                Some(p) => selection(
                    self.certificates(),
                    self.default_certificate(),
                    server_name.deep_view(),
                ) == Some(p@),
                None => selection(
                    self.certificates(),
                    self.default_certificate(),
                    server_name.deep_view(),
                ) is None,
            },
    {
        match server_name {
            Some(name) => match self.certificates.get(name) {
                Some(p) => {
                    return Some(p);
                },
                None => {},
            },
            None => {},
        }
        match &self.default_pair {
            Some(p) => Some(p),
            None => None,
        }
    }
}

/// The certificates that the gateway looks for at start.
pub fn certificate_candidates() -> (c: Vec<CertCandidate>)
    ensures
        c.len() == 2,
        c[0].domain@ == "auth.ad-quest.ru"@,
        c[0].cert_path@ == "/etc/letsencrypt/live/auth.ad-quest.ru/fullchain.pem"@,
        c[0].key_path@ == "/etc/letsencrypt/live/auth.ad-quest.ru/privkey.pem"@,
        c[1].domain@ == "api.ad-quest.ru"@,
        c[1].cert_path@ == "/etc/letsencrypt/live/api.ad-quest.ru/fullchain.pem"@,
        c[1].key_path@ == "/etc/letsencrypt/live/api.ad-quest.ru/privkey.pem"@,
{
    let mut c: Vec<CertCandidate> = Vec::new();
    c.push(
        CertCandidate {
            domain: to_string("auth.ad-quest.ru"),
            cert_path: to_string("/etc/letsencrypt/live/auth.ad-quest.ru/fullchain.pem"),
            key_path: to_string("/etc/letsencrypt/live/auth.ad-quest.ru/privkey.pem"),
        },
    );
    c.push(
        CertCandidate {
            domain: to_string("api.ad-quest.ru"),
            cert_path: to_string("/etc/letsencrypt/live/api.ad-quest.ru/fullchain.pem"),
            key_path: to_string("/etc/letsencrypt/live/api.ad-quest.ru/privkey.pem"),
        },
    );
    c
}

/// Builds the certificate manager from the candidates whose files are
/// present: `present[k]` says whether both files of candidate `k` exist.
/// The first candidate that is present becomes the default.
pub fn configure_ssl(candidates: &Vec<CertCandidate>, present: &Vec<bool>) -> (m: MultiCertManager)
    requires
        candidates.len() == present.len(),
    ensures
        m.certificates() == present_certificates(candidates@, present@, candidates.len() as int),
        m.default_certificate() == first_present(candidates@, present@, candidates.len() as int),
{
    let mut m = MultiCertManager::new();
    let mut k: usize = 0;
    while k < candidates.len()
        invariant
            0 <= k <= candidates.len() == present.len(),
            m.certificates() == present_certificates(candidates@, present@, k as int),
            m.default_certificate() == first_present(candidates@, present@, k as int),
        decreases candidates.len() - k,
    {
        if present[k] {
            let c = &candidates[k];
            m.add_certificate(c.domain.as_str(), c.cert_path.as_str(), c.key_path.as_str());
            if !m.has_default() {
                m.set_default_certificate(c.cert_path.as_str(), c.key_path.as_str());
            }
        }
        k += 1;
    }
    m
}

} // verus!
