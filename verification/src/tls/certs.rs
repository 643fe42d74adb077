//! The certificates that a server shows and the keys that belong to them.

use vstd::prelude::*;

use crate::tls::digest::{fingerprint, fingerprint_text, hex_text, is_fingerprint, sha256};
use crate::tls::error::LoadError;
use crate::tls::pem::{
    key_view, pem_cert_view, pem_certs, pem_certs_view, pem_private_key, read_certs,
    read_private_key, KeyFormat, PemCert, PrivateKey,
};
use crate::tls::roots::ders;

verus! {

/// A chain of certificates in DER, the server's own first, and what signs with its key.
pub struct CertifiedKey<K> {
    pub cert: Vec<Vec<u8>>,
    pub key: K,
}

/// The certificates of a server, in the order in which they were loaded.
///
/// `K` signs with a private key.
pub struct ServeCerts<K> {
    pub list: Vec<CertifiedKey<K>>,
}

/// All certificates of a file, or the message of the first section that cannot be read.
pub open spec fn collected(certs: Seq<Result<Seq<u8>, Seq<char>>>) -> Result<
    Seq<Seq<u8>>,
    Seq<char>,
>
    decreases certs.len(),
{
    if certs.len() == 0 {
        Ok(Seq::empty())
    } else {
        match (collected(certs.drop_last()), certs.last()) {
            (Err(message), _) => Err(message),
            (Ok(_), Err(message)) => Err(message),
            (Ok(chain), Ok(der)) => Ok(chain.push(der)),
        }
    }
}

/// Whether `chain` is what comes out of a certificate file in which `certs` are found.
pub open spec fn is_chain_of(
    certs: Seq<Result<Seq<u8>, Seq<char>>>,
    chain: Result<Vec<Vec<u8>>, LoadError>,
) -> bool {
    match collected(certs) {
        Err(message) => chain matches Err(LoadError::ReadCerts(cause)) && cause@ == message,
        Ok(found) => if found.len() == 0 {
            chain == Err::<Vec<Vec<u8>>, LoadError>(LoadError::NoCertificate)
        } else {
            chain matches Ok(list) && ders(list@) == found
        },
    }
}

/// The chain of a certificate file in which `certs` are found: all of them, at least one.
pub fn chain_of_certs(certs: &Vec<PemCert>) -> (chain: Result<Vec<Vec<u8>>, LoadError>)
    ensures
        is_chain_of(pem_certs_view(certs@), chain),
        certs@.len() == 0 ==> chain == Err::<Vec<Vec<u8>>, LoadError>(LoadError::NoCertificate),
        certs@.len() > 0 && (forall|i: int| 0 <= i < certs@.len() ==> #[trigger] certs@[i] is Ok)
            ==> {
            &&& chain is Ok
            &&& chain->Ok_0@.len() == certs@.len()
            &&& forall|i: int|
                0 <= i < certs@.len() ==> #[trigger] chain->Ok_0@[i]@ == certs@[i]->Ok_0@
        },
        forall|i: int|
            0 <= i < certs@.len() && #[trigger] certs@[i] is Err && (forall|j: int|
                0 <= j < i ==> #[trigger] certs@[j] is Ok) ==> {
                &&& chain matches Err(LoadError::ReadCerts(cause))
                &&& cause@ == certs@[i]->Err_0@
            },
{
    let chain = collect_chain(certs);
    proof {
        let found = pem_certs_view(certs@);
        law_chain_is_what_was_found(found, chain);
        assert(found.len() == certs@.len());
        assert forall|i: int| 0 <= i < certs@.len() implies #[trigger] found[i] == pem_cert_view(
            certs@[i],
        ) by {}
        if certs@.len() > 0 && (forall|i: int| 0 <= i < certs@.len() ==> #[trigger] certs@[i] is Ok) {
            assert forall|i: int| 0 <= i < found.len() implies #[trigger] found[i] is Ok by {
                assert(certs@[i] is Ok);
            }
            assert forall|i: int| 0 <= i < certs@.len() implies #[trigger] chain->Ok_0@[i]@
                == certs@[i]->Ok_0@ by {
                assert(found[i] == pem_cert_view(certs@[i]));
            }
        }
        assert forall|i: int|
            0 <= i < certs@.len() && #[trigger] certs@[i] is Err && (forall|j: int|
                0 <= j < i ==> #[trigger] certs@[j] is Ok) implies chain matches Err(
            LoadError::ReadCerts(cause),
        ) && cause@ == certs@[i]->Err_0@ by {
            assert(found[i] is Err);
            assert forall|j: int| 0 <= j < i implies #[trigger] found[j] is Ok by {
                assert(certs@[j] is Ok);
            }
        }
    }
    chain
}

fn collect_chain(certs: &Vec<PemCert>) -> (chain: Result<Vec<Vec<u8>>, LoadError>)
    ensures
        is_chain_of(pem_certs_view(certs@), chain),
{
    let ghost found = pem_certs_view(certs@);
    let mut chain: Vec<Vec<u8>> = Vec::new();
    assert(ders(chain@) == Seq::<Seq<u8>>::empty());
    for i in 0..certs.len()
        invariant
            found == pem_certs_view(certs@),
            collected(found.take(i as int)) == Ok::<Seq<Seq<u8>>, Seq<char>>(ders(chain@)),
    {
        proof {
            assert(found.take(i + 1).drop_last() == found.take(i as int));
            assert(found.take(i + 1).last() == pem_cert_view(certs@[i as int]));
        }
        match &certs[i] {
            Ok(der) => {
                let ghost before = chain@;
                chain.push(der.clone());
                assert(chain@.last()@ == der@);
                assert(ders(chain@) == ders(before).push(der@));
            },
            Err(message) => {
                proof {
                    lemma_first_error_stays(found, i + 1);
                }
                return Err(LoadError::ReadCerts(message.clone()));
            },
        }
    }
    assert(found.take(found.len() as int) == found);
    assert(ders(chain@).len() == chain@.len());
    if chain.len() == 0 {
        return Err(LoadError::NoCertificate);
    }
    Ok(chain)
}

/// An error among the first `n` certificates is the error of all of them.
proof fn lemma_first_error_stays(certs: Seq<Result<Seq<u8>, Seq<char>>>, n: int)
    requires
        0 <= n <= certs.len(),
        collected(certs.take(n)) is Err,
    ensures
        collected(certs) == collected(certs.take(n)),
    decreases certs.len(),
{
    if n < certs.len() {
        assert(certs.drop_last().take(n) == certs.take(n));
        lemma_first_error_stays(certs.drop_last(), n);
    } else {
        assert(certs.take(n) == certs);
    }
}

/// Reads the chain of a certificate file, whose bytes are `pem`.
pub fn read_chain(pem: &[u8]) -> (chain: Result<Vec<Vec<u8>>, LoadError>)
    ensures
        is_chain_of(pem_certs(pem@), chain),
        pem_certs(pem@).len() == 0 ==> chain == Err::<Vec<Vec<u8>>, LoadError>(
            LoadError::NoCertificate,
        ),
        pem_certs(pem@).len() > 0 && (forall|i: int|
            0 <= i < pem_certs(pem@).len() ==> #[trigger] pem_certs(pem@)[i] is Ok) ==> {
            &&& chain is Ok
            &&& chain->Ok_0@.len() == pem_certs(pem@).len()
            &&& forall|i: int|
                0 <= i < pem_certs(pem@).len() ==> #[trigger] chain->Ok_0@[i]@ == pem_certs(
                    pem@,
                )[i]->Ok_0
        },
        forall|i: int|
            0 <= i < pem_certs(pem@).len() && #[trigger] pem_certs(pem@)[i] is Err && (forall|
                j: int,
            |
                0 <= j < i ==> #[trigger] pem_certs(pem@)[j] is Ok) ==> {
                &&& chain matches Err(LoadError::ReadCerts(cause))
                &&& cause@ == pem_certs(pem@)[i]->Err_0
            },
{
    let chain = chain_of_certs(&read_certs(pem));
    proof {
        law_chain_is_what_was_found(pem_certs(pem@), chain);
    }
    chain
}

/// Whether `key` is what comes out of a key file in which `found` was found.
pub open spec fn is_key_of(
    found: Result<Option<(KeyFormat, Seq<u8>)>, Seq<char>>,
    key: Result<PrivateKey, LoadError>,
) -> bool {
    match found {
        Ok(Some((format, der))) => key matches Ok(k) && k.format == format && k.der@ == der,
        Ok(None) => key == Err::<PrivateKey, LoadError>(LoadError::MissingKey),
        Err(message) => key matches Err(LoadError::ParseKey(cause)) && cause@ == message,
    }
}

/// The private key of a key file in which `found` was found.
pub fn key_of_found(found: Result<Option<PrivateKey>, String>) -> (key: Result<
    PrivateKey,
    LoadError,
>)
    ensures
        is_key_of(key_view(found), key),
        match found {
            Ok(Some(read)) => key == Ok::<PrivateKey, LoadError>(read),
            Ok(None) => key == Err::<PrivateKey, LoadError>(LoadError::MissingKey),
            Err(message) => key == Err::<PrivateKey, LoadError>(LoadError::ParseKey(message)),
        },
{
    match found {
        Ok(Some(key)) => Ok(key),
        Ok(None) => Err(LoadError::MissingKey),
        Err(message) => Err(LoadError::ParseKey(message)),
    }
}

/// Reads the private key of a key file, whose bytes are `pem`.
pub fn read_key(pem: &[u8]) -> (key: Result<PrivateKey, LoadError>)
    ensures
        is_key_of(pem_private_key(pem@), key),
        match pem_private_key(pem@) {
            Ok(Some((format, der))) => key matches Ok(k) && k.format == format && k.der@ == der,
            Ok(None) => key == Err::<PrivateKey, LoadError>(LoadError::MissingKey),
            Err(message) => key matches Err(LoadError::ParseKey(cause)) && cause@ == message,
        },
{
    key_of_found(read_private_key(pem))
}

impl<K> ServeCerts<K> {
    /// Whether every chain has a certificate.
    pub open spec fn valid(self) -> bool {
        forall|i: int| 0 <= i < self.list@.len() ==> #[trigger] self.list@[i].cert@.len() > 0
    }

    /// The fingerprint of the server's own certificate in each chain.
    pub open spec fn fingerprint_texts(self) -> Seq<Seq<char>> {
        self.list@.map_values(|ck: CertifiedKey<K>| fingerprint_text(ck.cert@[0]@))
    }

    /// Takes up a chain of certificates with its key.
    pub fn load(&mut self, chain: Vec<Vec<u8>>, key: K)
        requires
            old(self).valid(),
            chain@.len() > 0,
        ensures
            final(self).valid(),
            final(self).list@ == old(self).list@.push(CertifiedKey { cert: chain, key }),
    {
        self.list.push(CertifiedKey { cert: chain, key });
    }

    /// The fingerprint of the server's own certificate in each chain, in the order in which
    /// the chains were loaded.
    pub fn fingerprints(&self) -> (texts: Vec<String>)
        requires
            self.valid(),
        ensures
            texts@.map_values(|text: String| text@) == self.fingerprint_texts(),
            texts@.len() == self.list@.len(),
            forall|i: int|
                0 <= i < texts@.len() ==> (#[trigger] texts@[i])@ == hex_text(
                    sha256(self.list@[i].cert@[0]@),
                ),
            forall|i: int| 0 <= i < texts@.len() ==> is_fingerprint((#[trigger] texts@[i])@),
    {
        let mut texts: Vec<String> = Vec::new();
        for i in 0..self.list.len()
            invariant
                self.valid(),
                texts@.len() == i,
                forall|j: int|
                    0 <= j < i ==> (#[trigger] texts@[j])@ == fingerprint_text(
                        self.list@[j].cert@[0]@,
                    ),
                forall|j: int|
                    0 <= j < i ==> (#[trigger] texts@[j])@ == hex_text(
                        sha256(self.list@[j].cert@[0]@),
                    ),
                forall|j: int| 0 <= j < i ==> is_fingerprint((#[trigger] texts@[j])@),
        {
            texts.push(fingerprint(self.list[i].cert[0].as_slice()));
        }
        assert(texts@.map_values(|text: String| text@) == self.fingerprint_texts());
        texts
    }

    /// The certificate that a client is shown: the one that was loaded last, whatever name
    /// the client asks for.
    pub fn resolve(&self) -> (shown: Option<&CertifiedKey<K>>)
        ensures
            match shown {
                Some(ck) => self.list@.len() > 0 && *ck == self.list@.last(),
                None => self.list@.len() == 0,
            },
    {
        self.list.last()
    }
}

impl<K> Default for ServeCerts<K> {
    /// A server without certificates.
    fn default() -> (certs: Self)
        ensures
            certs.list@.len() == 0,
            certs.valid(),
    {
        Self { list: Vec::new() }
    }
}

proof fn lemma_all_are_collected(certs: Seq<Result<Seq<u8>, Seq<char>>>)
    requires
        forall|i: int| 0 <= i < certs.len() ==> #[trigger] certs[i] is Ok,
    ensures
        collected(certs) is Ok,
        collected(certs)->Ok_0.len() == certs.len(),
        forall|i: int|
            0 <= i < certs.len() ==> #[trigger] collected(certs)->Ok_0[i] == certs[i]->Ok_0,
    decreases certs.len(),
{
    if certs.len() > 0 {
        assert forall|i: int| 0 <= i < certs.drop_last().len() implies #[trigger] certs.drop_last()[i]
            is Ok by {
            assert(certs[i] is Ok);
        }
        lemma_all_are_collected(certs.drop_last());
        assert(certs.last() is Ok);
        assert forall|i: int| 0 <= i < certs.len() implies #[trigger] collected(certs)->Ok_0[i]
            == certs[i]->Ok_0 by {
            if i < certs.len() - 1 {
                assert(collected(certs.drop_last())->Ok_0[i] == certs.drop_last()[i]->Ok_0);
            }
        }
    }
}

/// The chain of a certificate file has every certificate that was found in the file, in the same
/// order. Where a section cannot be read there is no chain, and the error is that of the first
/// such section.
pub proof fn law_chain_is_what_was_found(
    certs: Seq<Result<Seq<u8>, Seq<char>>>,
    chain: Result<Vec<Vec<u8>>, LoadError>,
)
    requires
        is_chain_of(certs, chain),
    ensures
        certs.len() == 0 ==> chain == Err::<Vec<Vec<u8>>, LoadError>(LoadError::NoCertificate),
        certs.len() > 0 && (forall|i: int| 0 <= i < certs.len() ==> #[trigger] certs[i] is Ok) ==> {
            &&& chain is Ok
            &&& chain->Ok_0@.len() == certs.len()
            &&& forall|i: int|
                0 <= i < certs.len() ==> #[trigger] chain->Ok_0@[i]@ == certs[i]->Ok_0
        },
        forall|i: int|
            0 <= i < certs.len() && #[trigger] certs[i] is Err && (forall|j: int|
                0 <= j < i ==> #[trigger] certs[j] is Ok) ==> {
                &&& chain matches Err(LoadError::ReadCerts(cause))
                &&& cause@ == certs[i]->Err_0
            },
        chain is Ok ==> forall|i: int| 0 <= i < certs.len() ==> #[trigger] certs[i] is Ok,
{
    if forall|i: int| 0 <= i < certs.len() ==> #[trigger] certs[i] is Ok {
        lemma_all_are_collected(certs);
        if certs.len() > 0 {
            let list = chain->Ok_0@;
            assert(ders(list).len() == list.len());
            assert forall|i: int| 0 <= i < certs.len() implies #[trigger] chain->Ok_0@[i]@
                == certs[i]->Ok_0 by {
                assert(ders(list)[i] == list[i]@);
                assert(collected(certs)->Ok_0[i] == certs[i]->Ok_0);
            }
        }
    } else {
        let first = lemma_some_first_error(certs);
        lemma_first_error_is_reported(certs, first);
    }
    assert forall|i: int|
        0 <= i < certs.len() && #[trigger] certs[i] is Err && (forall|j: int|
            0 <= j < i ==> #[trigger] certs[j] is Ok) implies chain matches Err(
        LoadError::ReadCerts(cause),
    ) && cause@ == certs[i]->Err_0 by {
        lemma_first_error_is_reported(certs, i);
    }
}

proof fn lemma_some_first_error(certs: Seq<Result<Seq<u8>, Seq<char>>>) -> (first: int)
    requires
        !(forall|i: int| 0 <= i < certs.len() ==> #[trigger] certs[i] is Ok),
    ensures
        0 <= first < certs.len(),
        certs[first] is Err,
        forall|j: int| 0 <= j < first ==> #[trigger] certs[j] is Ok,
    decreases certs.len(),
{
    let before = certs.drop_last();
    if forall|i: int| 0 <= i < before.len() ==> #[trigger] before[i] is Ok {
        assert forall|j: int| 0 <= j < certs.len() - 1 implies #[trigger] certs[j] is Ok by {
            assert(before[j] is Ok);
        }
        certs.len() - 1
    } else {
        let first = lemma_some_first_error(before);
        assert forall|j: int| 0 <= j < first implies #[trigger] certs[j] is Ok by {
            assert(before[j] is Ok);
        }
        first
    }
}

proof fn lemma_first_error_is_reported(certs: Seq<Result<Seq<u8>, Seq<char>>>, first: int)
    requires
        0 <= first < certs.len(),
        certs[first] is Err,
        forall|j: int| 0 <= j < first ==> #[trigger] certs[j] is Ok,
    ensures
        collected(certs) == Err::<Seq<Seq<u8>>, Seq<char>>(certs[first]->Err_0),
{
    let part = certs.take(first + 1);
    assert(part.drop_last() == certs.take(first));
    assert forall|j: int| 0 <= j < first implies #[trigger] certs.take(first)[j] is Ok by {
        assert(certs[j] is Ok);
    }
    lemma_all_are_collected(certs.take(first));
    assert(part.last() == certs[first]);
    lemma_first_error_stays(certs, first + 1);
}

/// The fingerprints of a server are those of its own certificates, one for each chain and each
/// of the whole of the first certificate.
pub proof fn law_fingerprints_are_of_the_first_certificates<K>(serve: ServeCerts<K>)
    ensures
        serve.fingerprint_texts().len() == serve.list@.len(),
        forall|i: int|
            0 <= i < serve.list@.len() ==> #[trigger] serve.fingerprint_texts()[i] == hex_text(
                sha256(serve.list@[i].cert@[0]@),
            ),
{
}

} // verus!
