//! The roots that a peer's certificate may lead to.

use rustls::pki_types::CertificateDer;
use rustls::RootCertStore;
use vstd::prelude::*;

use crate::tls::error::LoadError;
use crate::tls::pem::{pem_cert_view, pem_certs, pem_certs_view, read_certs, PemCert};

verus! {

/// What a root is kept as: its subject, its public key and the constraints on the names
/// below it, all in DER.
pub type Anchor = (Seq<u8>, Seq<u8>, Option<Seq<u8>>);

#[verifier::external_type_specification]
#[verifier::external_body]
pub struct ExRootCertStore(RootCertStore);

/// The roots that a `RootCertStore` holds, in the order in which they were added.
pub uninterp spec fn root_anchors(roots: RootCertStore) -> Seq<Anchor>;

/// What `RootCertStore::add` makes of a certificate in DER: a root, or the message of what
/// is wrong with the certificate.
pub uninterp spec fn trust_anchor(der: Seq<u8>) -> Result<Anchor, Seq<char>>;

/// `RootCertStore::empty` makes a store that holds no roots.
pub assume_specification[ RootCertStore::empty ]() -> (roots: RootCertStore)
    ensures
        root_anchors(roots) == Seq::<Anchor>::empty(),
;

/// `RootCertStore::add` reads a certificate and adds what it reads at the end of the store.
/// Where it cannot read the certificate it leaves the store alone and returns an error.
#[verifier::external_body]
fn add_root(roots: &mut RootCertStore, der: &[u8]) -> (added: Result<(), String>)
    ensures
        match trust_anchor(der@) {
            Ok(anchor) => {
                &&& added is Ok
                &&& root_anchors(*final(roots)) == root_anchors(*old(roots)).push(anchor)
            },
            Err(message) => {
                &&& added matches Err(text)
                &&& text@ == message
                &&& root_anchors(*final(roots)) == root_anchors(*old(roots))
            },
        },
{
    match roots.add(CertificateDer::from(der)) {
        Ok(()) => Ok(()),
        Err(error) => Err(error.to_string()),
    }
}

/// The roots among certificates in DER: those that can be read, in their order.
pub open spec fn readable_anchors(ders: Seq<Seq<u8>>) -> Seq<Anchor>
    decreases ders.len(),
{
    if ders.len() == 0 {
        Seq::empty()
    } else {
        let before = readable_anchors(ders.drop_last());
        match trust_anchor(ders.last()) {
            Ok(anchor) => before.push(anchor),
            Err(_) => before,
        }
    }
}

/// The contents of a list of certificates in DER.
pub open spec fn ders(certs: Seq<Vec<u8>>) -> Seq<Seq<u8>> {
    certs.map_values(|der: Vec<u8>| der@)
}

/// Adds the roots of the platform. Those that cannot be read are passed over.
pub fn add_platform_roots(roots: &mut RootCertStore, certs: &Vec<Vec<u8>>)
    ensures
        root_anchors(*final(roots)) == root_anchors(*old(roots)) + readable_anchors(ders(certs@)),
        forall|list: Seq<Seq<u8>>|
            list.len() == certs@.len() && (forall|i: int|
                0 <= i < list.len() ==> #[trigger] list[i] == certs@[i]@) ==> root_anchors(
                *final(roots),
            ) == root_anchors(*old(roots)) + #[trigger] readable_anchors(list),
{
    let ghost before = root_anchors(*roots);
    for i in 0..certs.len()
        invariant
            root_anchors(*roots) == before + readable_anchors(ders(certs@).take(i as int)),
    {
        let _ = add_root(roots, certs[i].as_slice());
        assert(ders(certs@).take(i + 1).drop_last() == ders(certs@).take(i as int));
        assert(ders(certs@).take(i + 1).last() == certs@[i as int]@);
    }
    assert(ders(certs@).take(certs@.len() as int) == ders(certs@));
    assert forall|list: Seq<Seq<u8>>|
        list.len() == certs@.len() && (forall|i: int|
            0 <= i < list.len() ==> #[trigger] list[i] == certs@[i]@) implies root_anchors(*roots)
        == before + #[trigger] readable_anchors(list) by {
        assert(list == ders(certs@));
    }
}

/// The root of a root file: the first certificate that is found in it. Anything behind the
/// first is ignored.
pub fn first_root(certs: Vec<PemCert>) -> (root: Result<Vec<u8>, LoadError>)
    ensures
        if certs@.len() == 0 {
            root == Err::<Vec<u8>, LoadError>(LoadError::NoRoots)
        } else {
            match pem_cert_view(certs@[0]) {
                Ok(der) => root matches Ok(found) && found@ == der,
                Err(message) => root matches Err(LoadError::ReadRoot(cause)) && cause@ == message,
            }
        },
        certs@.len() > 0 ==> match certs@[0] {
            Ok(der) => root == Ok::<Vec<u8>, LoadError>(der),
            Err(message) => root == Err::<Vec<u8>, LoadError>(LoadError::ReadRoot(message)),
        },
{
    let mut certs = certs;
    if certs.len() == 0 {
        return Err(LoadError::NoRoots);
    }
    match certs.remove(0) {
        Ok(der) => Ok(der),
        Err(message) => Err(LoadError::ReadRoot(message)),
    }
}

/// Whether the root of a root file is found in its bytes up to here, so that nothing behind
/// them matters.
pub fn has_root(pem: &[u8]) -> (has: bool)
    ensures
        has == (pem_certs(pem@).len() > 0 && pem_certs(pem@)[0] is Ok),
{
    let certs: Vec<PemCert> = read_certs(pem);
    assert(pem_certs_view(certs@).len() == certs@.len());
    assert(certs@.len() > 0 ==> pem_certs_view(certs@)[0] == pem_cert_view(certs@[0]));
    certs.len() > 0 && certs[0].is_ok()
}

/// What becomes of the roots where a root is taken out of a root file.
pub open spec fn root_file_added(
    certs: Seq<Result<Seq<u8>, Seq<char>>>,
    before: Seq<Anchor>,
    after: Seq<Anchor>,
    added: Result<(), LoadError>,
) -> bool {
    if certs.len() == 0 {
        added == Err::<(), LoadError>(LoadError::NoRoots) && after == before
    } else {
        match certs[0] {
            Err(message) => {
                &&& added matches Err(LoadError::ReadRoot(cause))
                &&& cause@ == message
                &&& after == before
            },
            Ok(der) => match trust_anchor(der) {
                Ok(anchor) => added is Ok && after == before.push(anchor),
                Err(message) => {
                    &&& added matches Err(LoadError::AddRoot(cause))
                    &&& cause@ == message
                    &&& after == before
                },
            },
        }
    }
}

/// Adds the root of a root file, whose bytes are `pem`.
pub fn add_root_file(roots: &mut RootCertStore, pem: &[u8]) -> (added: Result<(), LoadError>)
    ensures
        root_file_added(
            pem_certs(pem@),
            root_anchors(*old(roots)),
            root_anchors(*final(roots)),
            added,
        ),
        added is Ok <==> pem_certs(pem@).len() > 0 && pem_certs(pem@)[0] is Ok && trust_anchor(
            pem_certs(pem@)[0]->Ok_0,
        ) is Ok,
        added is Ok ==> root_anchors(*final(roots)) == root_anchors(*old(roots)).push(
            trust_anchor(pem_certs(pem@)[0]->Ok_0)->Ok_0,
        ),
        added is Err ==> root_anchors(*final(roots)) == root_anchors(*old(roots)),
{
    let certs: Vec<PemCert> = read_certs(pem);
    assert(pem_certs_view(certs@).len() == certs@.len());
    assert(certs@.len() > 0 ==> pem_certs_view(certs@)[0] == pem_cert_view(certs@[0]));
    match first_root(certs) {
        Ok(der) => match add_root(roots, der.as_slice()) {
            Ok(()) => Ok(()),
            Err(message) => Err(LoadError::AddRoot(message)),
        },
        Err(error) => Err(error),
    }
}

/// Roots are taken from certificates one by one: a certificate that can be read gives its root, one
/// that cannot gives none, and the roots of two lists behind one another are those of the first
/// followed by those of the second.
pub proof fn law_roots_are_taken_one_by_one(a: Seq<Seq<u8>>, b: Seq<Seq<u8>>, der: Seq<u8>)
    ensures
        readable_anchors(Seq::empty()) == Seq::<Anchor>::empty(),
        trust_anchor(der) matches Ok(anchor) ==> readable_anchors(seq![der]) == seq![anchor],
        trust_anchor(der) is Err ==> readable_anchors(seq![der]) == Seq::<Anchor>::empty(),
        readable_anchors(a + b) == readable_anchors(a) + readable_anchors(b),
    decreases b.len(),
{
    assert(seq![der].drop_last() == Seq::<Seq<u8>>::empty());
    assert(seq![der].last() == der);
    reveal_with_fuel(readable_anchors, 2);
    if b.len() == 0 {
        assert(a + b == a);
        assert(readable_anchors(a) + readable_anchors(b) == readable_anchors(a));
    } else {
        law_roots_are_taken_one_by_one(a, b.drop_last(), der);
        assert((a + b).drop_last() == a + b.drop_last());
        assert((a + b).last() == b.last());
        assert(readable_anchors(a + b) == readable_anchors(a) + readable_anchors(b));
    }
}

/// A root file adds one root at the end of the roots: that of the first certificate in the file.
/// Where there is none, or it cannot be read or trusted, the roots stay and the error says which.
pub proof fn law_a_root_file_adds_its_first_certificate(
    certs: Seq<Result<Seq<u8>, Seq<char>>>,
    before: Seq<Anchor>,
    after: Seq<Anchor>,
    added: Result<(), LoadError>,
)
    requires
        root_file_added(certs, before, after, added),
    ensures
        certs.len() == 0 ==> added == Err::<(), LoadError>(LoadError::NoRoots),
        certs.len() > 0 && certs[0] is Err ==> {
            &&& added matches Err(LoadError::ReadRoot(cause))
            &&& cause@ == certs[0]->Err_0
        },
        certs.len() > 0 && certs[0] is Ok && trust_anchor(certs[0]->Ok_0) is Err ==> {
            &&& added matches Err(LoadError::AddRoot(cause))
            &&& cause@ == trust_anchor(certs[0]->Ok_0)->Err_0
        },
        certs.len() > 0 && certs[0] is Ok && trust_anchor(certs[0]->Ok_0) is Ok ==> added is Ok
            && after == before.push(trust_anchor(certs[0]->Ok_0)->Ok_0),
        added is Err ==> after == before,
{
}

} // verus!
