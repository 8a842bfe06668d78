//! Leaf certificates already issued, by host.

use crate::text;
use vstd::prelude::*;

verus! {

/// A leaf certificate and its private key, in PEM form.
#[derive(Debug, Clone)]
pub struct CachedCertificate {
    pub cert_pem: String,
    pub key_pem: String,
}

impl CachedCertificate {
    /// A copy of the certificate.
    pub fn copy(&self) -> (r: Self)
        ensures
            r@ == self@,
    {
        CachedCertificate { cert_pem: self.cert_pem.clone(), key_pem: self.key_pem.clone() }
    }
}

impl View for CachedCertificate {
    type V = (Seq<char>, Seq<char>);

    open spec fn view(&self) -> (Seq<char>, Seq<char>) {
        (self.cert_pem@, self.key_pem@)
    }
}

/// The certificates issued so far, by host name; a host appears at most once. It is
/// a plain value, not cloned: users that share it hold one behind a single lock, so
/// every insert is seen by every later read.
#[derive(Debug)]
pub struct CertificateCache {
    entries: Vec<(String, CachedCertificate)>,
}

/// No host occurs twice.
pub open spec fn keys_unique(e: Seq<(String, CachedCertificate)>) -> bool {
    forall|i: int, j: int| 0 <= i < j < e.len() ==> (#[trigger] e[i]).0@ != (#[trigger] e[j]).0@
}

/// The cached certificates by host.
pub open spec fn as_map(e: Seq<(String, CachedCertificate)>) -> Map<Seq<char>, (Seq<char>, Seq<char>)>
    decreases e.len(),
{
    if e.len() == 0 {
        Map::empty()
    } else {
        as_map(e.drop_last()).insert(e.last().0@, e.last().1@)
    }
}

proof fn lemma_as_map(e: Seq<(String, CachedCertificate)>, k: Seq<char>)
    requires
        keys_unique(e),
    ensures
        as_map(e).contains_key(k) <==> exists|i: int| 0 <= i < e.len() && (#[trigger] e[i]).0@ == k,
        forall|i: int| 0 <= i < e.len() && (#[trigger] e[i]).0@ == k ==> as_map(e)[k] == e[i].1@,
    decreases e.len(),
{
    if e.len() > 0 {
        let d = e.drop_last();
        assert(keys_unique(d));
        lemma_as_map(d, k);
        if as_map(d).contains_key(k) {
            let i = choose|i: int| 0 <= i < d.len() && (#[trigger] d[i]).0@ == k;
            assert(e[i] == d[i]);
        }
        assert forall|i: int| 0 <= i < e.len() && (#[trigger] e[i]).0@ == k implies as_map(e)[k] == e[i].1@ by {
            if i < e.len() - 1 {
                assert(e[i] == d[i]);
                assert(e.last().0@ != k);
            }
        }
        if exists|i: int| 0 <= i < e.len() && (#[trigger] e[i]).0@ == k {
            let i = choose|i: int| 0 <= i < e.len() && (#[trigger] e[i]).0@ == k;
            if i < e.len() - 1 {
                assert(d[i] == e[i]);
            }
        }
    }
}

impl View for CertificateCache {
    type V = Map<Seq<char>, (Seq<char>, Seq<char>)>;

    closed spec fn view(&self) -> Map<Seq<char>, (Seq<char>, Seq<char>)> {
        as_map(self.entries@)
    }
}

impl CertificateCache {
    /// The cache's invariant.
    pub closed spec fn wf(&self) -> bool {
        keys_unique(self.entries@)
    }

    /// An empty cache.
    pub fn new() -> (r: Self)
        ensures
            r.wf(),
            r@ == Map::<Seq<char>, (Seq<char>, Seq<char>)>::empty(),
    {
        CertificateCache { entries: Vec::new() }
    }

    fn find(&self, host: &str) -> (r: Option<usize>)
        requires
            self.wf(),
        ensures
            match r {
                Some(i) => i < self.entries@.len() && self.entries@[i as int].0@ == host@,
                None => forall|i: int| 0 <= i < self.entries@.len() ==> (#[trigger] self.entries@[i]).0@ != host@,
            },
    {
        let mut i: usize = 0;
        while i < self.entries.len()
            invariant
                0 <= i <= self.entries@.len(),
                forall|j: int| 0 <= j < i ==> (#[trigger] self.entries@[j]).0@ != host@,
            decreases self.entries.len() - i,
        {
            if text::str_eq(self.entries[i].0.as_str(), host) {
                return Some(i);
            }
            i = i + 1;
        }
        None
    }

    /// The certificate issued for a host, if any.
    pub fn get(&self, host: &str) -> (r: Option<CachedCertificate>)
        requires
            self.wf(),
        ensures
            match r {
                Some(c) => self@.contains_key(host@) && self@[host@] == c@,
                None => !self@.contains_key(host@),
            },
    {
        proof {
            lemma_as_map(self.entries@, host@);
        }
        match self.find(host) {
            Some(i) => Some(self.entries[i].1.copy()),
            None => None,
        }
    }

    /// Records the certificate for a host, replacing an earlier one.
    pub fn insert(&mut self, host: String, certificate: CachedCertificate)
        requires
            old(self).wf(),
        ensures
            final(self).wf(),
            final(self)@ == old(self)@.insert(host@, certificate@),
    {
        let ghost old_entries = self.entries@;
        match self.find(host.as_str()) {
            Some(i) => {
                let ghost k = host@;
                self.entries.set(i, (host, certificate));
                proof {
                    assert(keys_unique(self.entries@)) by {
                        assert forall|a: int, b: int| 0 <= a < b < self.entries@.len() implies (#[trigger] self.entries@[a]).0@ != (#[trigger] self.entries@[b]).0@ by {
                            if a != i as int && b != i as int {
                                assert(self.entries@[a] == old_entries[a]);
                                assert(self.entries@[b] == old_entries[b]);
                            } else if a == i as int {
                                assert(self.entries@[b] == old_entries[b]);
                            } else {
                                assert(self.entries@[a] == old_entries[a]);
                            }
                        }
                    }
                    assert forall|kk: Seq<char>| #![auto] as_map(self.entries@).contains_key(kk) == old(self)@.insert(k, certificate@).contains_key(kk) by {
                        lemma_as_map(self.entries@, kk);
                        lemma_as_map(old_entries, kk);
                        if exists|j: int| 0 <= j < old_entries.len() && (#[trigger] old_entries[j]).0@ == kk {
                            let j = choose|j: int| 0 <= j < old_entries.len() && (#[trigger] old_entries[j]).0@ == kk;
                            if j != i as int {
                                assert(self.entries@[j] == old_entries[j]);
                            } else {
                                assert(self.entries@[j].0@ == kk);
                            }
                        }
                        if exists|j: int| 0 <= j < self.entries@.len() && (#[trigger] self.entries@[j]).0@ == kk {
                            let j = choose|j: int| 0 <= j < self.entries@.len() && (#[trigger] self.entries@[j]).0@ == kk;
                            if j != i as int {
                                assert(self.entries@[j] == old_entries[j]);
                            }
                        }
                    }
                    assert forall|kk: Seq<char>| #![auto] as_map(self.entries@).contains_key(kk) implies as_map(self.entries@)[kk] == old(self)@.insert(k, certificate@)[kk] by {
                        lemma_as_map(self.entries@, kk);
                        lemma_as_map(old_entries, kk);
                        let j = choose|j: int| 0 <= j < self.entries@.len() && (#[trigger] self.entries@[j]).0@ == kk;
                        if j != i as int {
                            assert(self.entries@[j] == old_entries[j]);
                        }
                    }
                    assert(as_map(self.entries@) =~= old(self)@.insert(k, certificate@));
                }
            },
            None => {
                self.entries.push((host, certificate));
                proof {
                    assert(self.entries@.drop_last() =~= old_entries);
                    assert(keys_unique(self.entries@)) by {
                        assert forall|a: int, b: int| 0 <= a < b < self.entries@.len() implies (#[trigger] self.entries@[a]).0@ != (#[trigger] self.entries@[b]).0@ by {
                            assert(self.entries@[a] == old_entries[a]);
                            if b < old_entries.len() {
                                assert(self.entries@[b] == old_entries[b]);
                            }
                        }
                    }
                }
            },
        }
    }
}

/// What is read back for a host is what was last written for it.
pub proof fn lemma_cache_read_after_write(
    m: Map<Seq<char>, (Seq<char>, Seq<char>)>,
    host: Seq<char>,
    other: Seq<char>,
    cert: (Seq<char>, Seq<char>),
)
    ensures
        m.insert(host, cert).contains_key(host),
        m.insert(host, cert)[host] == cert,
        other != host ==> m.insert(host, cert).contains_key(other) == m.contains_key(other),
        other != host && m.contains_key(other) ==> m.insert(host, cert)[other] == m[other],
{
}

} // verus!
