//! Loading certificates, keys and roots, one file after another.

use rustls::RootCertStore;
use vstd::prelude::*;

use crate::tls::args::Args;
use crate::tls::certs::{
    collected, is_chain_of, is_key_of, law_chain_is_what_was_found,
    law_fingerprints_are_of_the_first_certificates, read_chain, read_key, CertifiedKey, ServeCerts,
};
use crate::tls::config::Config;
use crate::tls::digest::{fingerprint_text, hex_text, is_fingerprint, is_hex_digit, sha256};
use crate::tls::error::LoadError;
use crate::tls::pem::{pem_certs, pem_private_key, PrivateKey};
use crate::tls::roots::{
    add_platform_roots, add_root_file, ders, readable_anchors, root_anchors, root_file_added,
    trust_anchor, Anchor,
};

verus! {

/// What a load is waiting for.
pub enum Stage {
    /// The certificate file of a pair.
    Chain { pair: usize },
    /// The key file of a pair, whose certificates are `chain`.
    Key { pair: usize, chain: Vec<Vec<u8>> },
    /// What signs with the key of a pair, whose certificates are `chain`.
    Signer { pair: usize, chain: Vec<Vec<u8>> },
    /// The roots of the platform.
    PlatformRoots,
    /// A root file.
    Root { root: usize },
    /// Nothing: everything is loaded.
    Done,
}

/// What to do next.
pub enum LoadAction {
    /// Read the certificate file of a pair.
    ReadCert { pair: usize },
    /// Read the key file of a pair.
    ReadKey { pair: usize },
    /// Make what signs with a private key.
    LoadKey { key: PrivateKey },
    /// Find the roots of the platform.
    FindPlatformRoots,
    /// Read a root file.
    ReadRoot { root: usize },
    /// Build the configurations out of what was loaded.
    Build { plan: LoadPlan },
}

/// A version of TLS.
#[derive(Clone, Copy, PartialEq, Eq, Structural, Debug)]
pub enum TlsVersion {
    Tls13,
}

/// How to build the configurations out of what was loaded.
pub struct LoadPlan {
    /// The versions of TLS that the client and the server offer.
    pub versions: Vec<TlsVersion>,
    /// Whether the client takes any certificate.
    pub disable_verify: bool,
    /// Whether there is a configuration for a server.
    pub server: bool,
    /// The fingerprint of each certificate of the server.
    pub fingerprints: Vec<String>,
}

impl LoadPlan {
    /// What TLS is set up with, once the configurations are built.
    pub fn config<C, S>(self, client: C, server: Option<S>) -> (config: Config<C, S>)
        requires
            self.server == (server is Some),
        ensures
            config.client == client,
            config.server == server,
            config.fingerprints == self.fingerprints,
    {
        Config { client, server, fingerprints: self.fingerprints }
    }
}

/// What came of an action.
pub enum LoadEvent<K> {
    /// The bytes of a file.
    File { bytes: Vec<u8> },
    /// A file could not be opened.
    OpenFailed { cause: String },
    /// A file was opened and could not be read.
    ReadFailed { cause: String },
    /// What signs with a private key.
    Signer { key: K },
    /// There is nothing that signs with the private key.
    SignerFailed { cause: String },
    /// The roots of the platform, in DER.
    PlatformRoots { certs: Vec<Vec<u8>> },
    /// The roots of the platform could not be found.
    PlatformRootsFailed { cause: String },
}

/// A load in progress: what it waits for and what it has loaded.
pub struct Loading<K> {
    pub stage: Stage,
    pub serve: ServeCerts<K>,
    pub roots: RootCertStore,
}

impl<K> Loading<K> {
    /// Whether what is loaded fits what the load waits for.
    pub open spec fn valid(self, args: Args) -> bool {
        &&& args.cert@.len() == args.key@.len()
        &&& self.serve.valid()
        &&& match self.stage {
            Stage::Chain { pair } => {
                &&& pair < args.cert@.len()
                &&& self.serve.list@.len() == pair
            },
            Stage::Key { pair, chain } => {
                &&& pair < args.cert@.len()
                &&& self.serve.list@.len() == pair
                &&& chain@.len() > 0
            },
            Stage::Signer { pair, chain } => {
                &&& pair < args.cert@.len()
                &&& self.serve.list@.len() == pair
                &&& chain@.len() > 0
            },
            Stage::PlatformRoots => {
                &&& self.serve.list@.len() == args.cert@.len()
                &&& args.root@.len() == 0
            },
            Stage::Root { root } => {
                &&& self.serve.list@.len() == args.cert@.len()
                &&& root < args.root@.len()
            },
            Stage::Done => self.serve.list@.len() == args.cert@.len(),
        }
    }

    /// Whether `event` is among what the load waits for.
    pub open spec fn awaits(self, event: LoadEvent<K>) -> bool {
        match self.stage {
            Stage::Chain { .. } | Stage::Key { .. } | Stage::Root { .. } => event is File
                || event is OpenFailed || event is ReadFailed,
            Stage::Signer { .. } => event is Signer || event is SignerFailed,
            Stage::PlatformRoots => event is PlatformRoots || event is PlatformRootsFailed,
            Stage::Done => false,
        }
    }

    /// A bound on the events that are still to come.
    pub open spec fn remaining(self, args: Args) -> int {
        let roots = if args.root@.len() == 0 {
            1
        } else {
            args.root@.len() as int
        };
        match self.stage {
            Stage::Chain { pair } => 3 * (args.cert@.len() - pair) + roots,
            Stage::Key { pair, .. } => 3 * (args.cert@.len() - pair) - 1 + roots,
            Stage::Signer { pair, .. } => 3 * (args.cert@.len() - pair) - 2 + roots,
            Stage::PlatformRoots => 1,
            Stage::Root { root } => args.root@.len() - root,
            Stage::Done => 0,
        }
    }

    /// Whether `self` and `action` are how a load goes on once the first `pairs` pairs are
    /// loaded: with the next pair, or behind the last with the roots, which are those of the
    /// platform where no root file is named.
    pub open spec fn at_pair(self, args: Args, pairs: int, action: LoadAction) -> bool {
        if pairs < args.cert@.len() {
            &&& self.stage matches Stage::Chain { pair } && pair == pairs
            &&& action matches LoadAction::ReadCert { pair } && pair == pairs
        } else if args.root@.len() == 0 {
            self.stage is PlatformRoots && action is FindPlatformRoots
        } else {
            self.at_root(args, 0, action)
        }
    }

    /// Whether `self` and `action` are how a load goes on once the first `roots` root files
    /// are read: with the next root file, or behind the last with building.
    pub open spec fn at_root(self, args: Args, roots: int, action: LoadAction) -> bool {
        if roots < args.root@.len() {
            &&& self.stage matches Stage::Root { root } && root == roots
            &&& action matches LoadAction::ReadRoot { root } && root == roots
        } else {
            self.at_end(args, action)
        }
    }

    /// Whether `self` and `action` are how a load ends: TLS 1.3 alone is offered, there is a
    /// server where there are keys, and a fingerprint for each of its certificates.
    pub open spec fn at_end(self, args: Args, action: LoadAction) -> bool {
        &&& self.stage is Done
        &&& action matches LoadAction::Build { plan }
        &&& plan.versions@ == seq![TlsVersion::Tls13]
        &&& plan.disable_verify == args.disable_verify
        &&& plan.server == (args.key@.len() > 0)
        &&& plan.fingerprints@.map_values(|text: String| text@) == self.serve.fingerprint_texts()
        &&& forall|i: int|
            0 <= i < plan.fingerprints@.len() ==> is_fingerprint((#[trigger] plan.fingerprints@[i])@)
    }

    /// Whether `next` is how this load goes on after `event`, or the error that it ends with.
    pub open spec fn goes_on(
        self,
        args: Args,
        event: LoadEvent<K>,
        next: Result<(Self, LoadAction), LoadError>,
    ) -> bool {
        match (self.stage, event) {
            (Stage::Chain { pair }, LoadEvent::File { bytes }) => match next {
                Ok((after, action)) => {
                    &&& after.stage matches Stage::Key { pair: p, chain }
                    &&& p == pair
                    &&& is_chain_of(pem_certs(bytes@), Ok(chain))
                    &&& action matches LoadAction::ReadKey { pair: q }
                    &&& q == pair
                    &&& after.serve == self.serve
                    &&& after.roots == self.roots
                },
                Err(error) => is_chain_of(pem_certs(bytes@), Err(error)),
            },
            (Stage::Chain { .. }, LoadEvent::OpenFailed { cause }) => next == Err::<
                (Self, LoadAction),
                LoadError,
            >(LoadError::OpenCert(cause)),
            (Stage::Chain { .. }, LoadEvent::ReadFailed { cause }) => next == Err::<
                (Self, LoadAction),
                LoadError,
            >(LoadError::ReadCerts(cause)),
            (Stage::Key { pair, chain }, LoadEvent::File { bytes }) => match next {
                Ok((after, action)) => {
                    &&& after.stage == (Stage::Signer { pair, chain })
                    &&& action matches LoadAction::LoadKey { key }
                    &&& is_key_of(pem_private_key(bytes@), Ok(key))
                    &&& after.serve == self.serve
                    &&& after.roots == self.roots
                },
                Err(error) => is_key_of(pem_private_key(bytes@), Err(error)),
            },
            (Stage::Key { .. }, LoadEvent::OpenFailed { cause }) => next == Err::<
                (Self, LoadAction),
                LoadError,
            >(LoadError::OpenKey(cause)),
            (Stage::Key { .. }, LoadEvent::ReadFailed { cause }) => next == Err::<
                (Self, LoadAction),
                LoadError,
            >(LoadError::ReadKey(cause)),
            (Stage::Signer { pair, chain }, LoadEvent::Signer { key }) => {
                &&& next matches Ok((after, action))
                &&& after.serve.list@ == self.serve.list@.push(CertifiedKey { cert: chain, key })
                &&& after.roots == self.roots
                &&& after.at_pair(args, pair + 1, action)
            },
            (Stage::Signer { .. }, LoadEvent::SignerFailed { cause }) => next == Err::<
                (Self, LoadAction),
                LoadError,
            >(LoadError::LoadKey(cause)),
            (Stage::PlatformRoots, LoadEvent::PlatformRoots { certs }) => {
                &&& next matches Ok((after, action))
                &&& after.serve == self.serve
                &&& root_anchors(after.roots) == root_anchors(self.roots) + readable_anchors(
                    ders(certs@),
                )
                &&& after.at_end(args, action)
            },
            (Stage::PlatformRoots, LoadEvent::PlatformRootsFailed { cause }) => next == Err::<
                (Self, LoadAction),
                LoadError,
            >(LoadError::PlatformCerts(cause)),
            (Stage::Root { root }, LoadEvent::File { bytes }) => match next {
                Ok((after, action)) => {
                    &&& root_file_added(
                        pem_certs(bytes@),
                        root_anchors(self.roots),
                        root_anchors(after.roots),
                        Ok(()),
                    )
                    &&& after.serve == self.serve
                    &&& after.at_root(args, root + 1, action)
                },
                Err(error) => root_file_added(
                    pem_certs(bytes@),
                    root_anchors(self.roots),
                    root_anchors(self.roots),
                    Err(error),
                ),
            },
            (Stage::Root { .. }, LoadEvent::OpenFailed { cause }) => next == Err::<
                (Self, LoadAction),
                LoadError,
            >(LoadError::OpenRoot(cause)),
            (Stage::Root { .. }, LoadEvent::ReadFailed { cause }) => next == Err::<
                (Self, LoadAction),
                LoadError,
            >(LoadError::ReadRoot(cause)),
            _ => true,
        }
    }

    /// Goes on with what came of the last action.
    pub fn step(self, args: &Args, event: LoadEvent<K>) -> (next: Result<
        (Self, LoadAction),
        LoadError,
    >)
        requires
            self.valid(*args),
            self.awaits(event),
        ensures
            self.goes_on(*args, event, next),
            next matches Ok((after, _)) ==> after.valid(*args) && 0 <= after.remaining(*args)
                < self.remaining(*args),
    {
        let Loading { stage, serve, roots } = self;
        match (stage, event) {
            (Stage::Chain { pair }, LoadEvent::File { bytes }) => {
                let chain = read_chain(bytes.as_slice())?;
                let stage = Stage::Key { pair, chain };
                Ok((Self { stage, serve, roots }, LoadAction::ReadKey { pair }))
            },
            (Stage::Chain { .. }, LoadEvent::OpenFailed { cause }) => Err(
                LoadError::OpenCert(cause),
            ),
            (Stage::Chain { .. }, LoadEvent::ReadFailed { cause }) => Err(
                LoadError::ReadCerts(cause),
            ),
            (Stage::Key { pair, chain }, LoadEvent::File { bytes }) => {
                let key = read_key(bytes.as_slice())?;
                let stage = Stage::Signer { pair, chain };
                Ok((Self { stage, serve, roots }, LoadAction::LoadKey { key }))
            },
            (Stage::Key { .. }, LoadEvent::OpenFailed { cause }) => Err(LoadError::OpenKey(cause)),
            (Stage::Key { .. }, LoadEvent::ReadFailed { cause }) => Err(LoadError::ReadKey(cause)),
            (Stage::Signer { pair, chain }, LoadEvent::Signer { key }) => {
                let mut serve = serve;
                serve.load(chain, key);
                assert(pair < args.cert.len());
                Ok(Self::go_on_at_pair(args, pair + 1, serve, roots))
            },
            (Stage::Signer { .. }, LoadEvent::SignerFailed { cause }) => Err(
                LoadError::LoadKey(cause),
            ),
            (Stage::PlatformRoots, LoadEvent::PlatformRoots { certs }) => {
                let mut roots = roots;
                add_platform_roots(&mut roots, &certs);
                Ok(Self::go_on_at_root(args, 0, serve, roots))
            },
            (Stage::PlatformRoots, LoadEvent::PlatformRootsFailed { cause }) => Err(
                LoadError::PlatformCerts(cause),
            ),
            (Stage::Root { root }, LoadEvent::File { bytes }) => {
                let mut roots = roots;
                add_root_file(&mut roots, bytes.as_slice())?;
                assert(root < args.root.len());
                Ok(Self::go_on_at_root(args, root + 1, serve, roots))
            },
            (Stage::Root { .. }, LoadEvent::OpenFailed { cause }) => Err(
                LoadError::OpenRoot(cause),
            ),
            (Stage::Root { .. }, LoadEvent::ReadFailed { cause }) => Err(
                LoadError::ReadRoot(cause),
            ),
            _ => vstd::pervasive::unreached(),
        }
    }

    fn go_on_at_pair(args: &Args, pairs: usize, serve: ServeCerts<K>, roots: RootCertStore) -> (next: (
        Self,
        LoadAction,
    ))
        requires
            args.cert@.len() == args.key@.len(),
            serve.valid(),
            pairs == serve.list@.len() <= args.cert@.len(),
        ensures
            next.0.valid(*args),
            next.0.serve == serve,
            next.0.roots == roots,
            next.0.at_pair(*args, pairs as int, next.1),
    {
        if pairs < args.cert.len() {
            let stage = Stage::Chain { pair: pairs };
            return (Self { stage, serve, roots }, LoadAction::ReadCert { pair: pairs });
        }
        if args.root.len() == 0 {
            let stage = Stage::PlatformRoots;
            return (Self { stage, serve, roots }, LoadAction::FindPlatformRoots);
        }
        Self::go_on_at_root(args, 0, serve, roots)
    }

    fn go_on_at_root(args: &Args, read: usize, serve: ServeCerts<K>, roots: RootCertStore) -> (next: (
        Self,
        LoadAction,
    ))
        requires
            args.cert@.len() == args.key@.len(),
            serve.valid(),
            serve.list@.len() == args.cert@.len(),
        ensures
            next.0.valid(*args),
            next.0.serve == serve,
            next.0.roots == roots,
            next.0.at_root(*args, read as int, next.1),
    {
        if read < args.root.len() {
            let stage = Stage::Root { root: read };
            return (Self { stage, serve, roots }, LoadAction::ReadRoot { root: read });
        }
        let versions: Vec<TlsVersion> = vec![TlsVersion::Tls13];
        assert(versions@ == seq![TlsVersion::Tls13]);
        let plan = LoadPlan {
            versions,
            disable_verify: args.disable_verify,
            server: args.key.len() > 0,
            fingerprints: serve.fingerprints(),
        };
        (Self { stage: Stage::Done, serve, roots }, LoadAction::Build { plan })
    }

    /// Whether `event` is among what the load waits for.
    pub fn fits(&self, event: &LoadEvent<K>) -> (fits: bool)
        ensures
            fits == self.awaits(*event),
    {
        match &self.stage {
            Stage::Chain { .. } | Stage::Key { .. } | Stage::Root { .. } => match event {
                LoadEvent::File { .. }
                | LoadEvent::OpenFailed { .. }
                | LoadEvent::ReadFailed { .. } => true,
                _ => false,
            },
            Stage::Signer { .. } => match event {
                LoadEvent::Signer { .. } | LoadEvent::SignerFailed { .. } => true,
                _ => false,
            },
            Stage::PlatformRoots => match event {
                LoadEvent::PlatformRoots { .. } | LoadEvent::PlatformRootsFailed { .. } => true,
                _ => false,
            },
            Stage::Done => false,
        }
    }
}

impl Args {
    /// Starts to load. Nothing is loaded where certificates and keys do not come in pairs.
    ///
    /// `K` signs with a private key.
    pub fn load<K>(&self) -> (started: Result<(Loading<K>, LoadAction), LoadError>)
        ensures
            if self.cert@.len() == self.key@.len() {
                &&& started matches Ok((loading, action))
                &&& loading.valid(*self)
                &&& loading.serve.list@.len() == 0
                &&& root_anchors(loading.roots) == Seq::<Anchor>::empty()
                &&& loading.at_pair(*self, 0, action)
            } else {
                started == Err::<(Loading<K>, LoadAction), LoadError>(LoadError::CountsDiffer)
            },
    {
        if self.cert.len() != self.key.len() {
            return Err(LoadError::CountsDiffer);
        }
        Ok(Loading::go_on_at_pair(self, 0, ServeCerts::default(), RootCertStore::empty()))
    }
}

/// Whether a load goes on from one state to the next, with an event that it waits for.
#[verifier::opaque]
pub open spec fn is_step<K>(
    args: Args,
    before: Loading<K>,
    event: LoadEvent<K>,
    after: Loading<K>,
    action: LoadAction,
) -> bool {
    before.awaits(event) && before.goes_on(args, event, Ok((after, action)))
}

/// A load from its start: `states[k]` and `actions[k]` are where it stands after the first
/// `k` events.
pub open spec fn is_load<K>(
    args: Args,
    states: Seq<Loading<K>>,
    actions: Seq<LoadAction>,
    events: Seq<LoadEvent<K>>,
) -> bool {
    &&& args.cert@.len() == args.key@.len()
    &&& states.len() == events.len() + 1
    &&& actions.len() == events.len() + 1
    &&& states[0].serve.list@.len() == 0
    &&& root_anchors(states[0].roots) == Seq::<Anchor>::empty()
    &&& states[0].at_pair(args, 0, actions[0])
    &&& forall|k: int|
        0 <= k < events.len() ==> is_step(
            args,
            #[trigger] states[k],
            events[k],
            states[k + 1],
            actions[k + 1],
        )
}

/// Whatever happens, a load stays in order, keeps the certificates that it has, and comes
/// closer to its end.
pub proof fn law_step_keeps_what_is_loaded<K>(
    args: Args,
    before: Loading<K>,
    event: LoadEvent<K>,
    after: Loading<K>,
    action: LoadAction,
)
    requires
        before.valid(args),
        is_step(args, before, event, after, action),
    ensures
        after.valid(args),
        0 <= after.remaining(args) < before.remaining(args),
        before.serve.list@.is_prefix_of(after.serve.list@),
        root_anchors(before.roots).is_prefix_of(root_anchors(after.roots)),
{
    reveal(is_step);
    match (before.stage, event) {
        (Stage::Chain { pair }, LoadEvent::File { bytes }) => {
            let chain = after.stage->Key_chain;
            assert(ders(chain@).len() == chain@.len());
        },
        _ => {},
    }
}

/// A load is in order after each of its events, and its certificates only grow.
proof fn lemma_load_in_order<K>(
    args: Args,
    states: Seq<Loading<K>>,
    actions: Seq<LoadAction>,
    events: Seq<LoadEvent<K>>,
    j: int,
    k: int,
)
    requires
        is_load(args, states, actions, events),
        0 <= j <= k < states.len(),
    ensures
        states[k].valid(args),
        states[j].serve.list@.is_prefix_of(states[k].serve.list@),
    decreases k,
{
    if k > 0 {
        lemma_load_in_order(args, states, actions, events, if j < k {
            j
        } else {
            k - 1
        }, k - 1);
        law_step_keeps_what_is_loaded(
            args,
            states[k - 1],
            events[k - 1],
            states[k],
            actions[k],
        );
    } else {
        let first = states[0];
        assert(first.valid(args));
    }
}

/// A load ends: it cannot go on for more events than three for each pair, one for each root
/// file, and one for the roots of the platform where there is no root file.
pub proof fn law_load_ends<K>(
    args: Args,
    states: Seq<Loading<K>>,
    actions: Seq<LoadAction>,
    events: Seq<LoadEvent<K>>,
)
    requires
        is_load(args, states, actions, events),
    ensures
        events.len() <= 3 * args.cert@.len() + args.root@.len() + 1,
{
    lemma_remaining_shrinks(args, states, actions, events, events.len() as int);
}

proof fn lemma_remaining_shrinks<K>(
    args: Args,
    states: Seq<Loading<K>>,
    actions: Seq<LoadAction>,
    events: Seq<LoadEvent<K>>,
    k: int,
)
    requires
        is_load(args, states, actions, events),
        0 <= k < states.len(),
    ensures
        0 <= states[k].remaining(args) <= 3 * args.cert@.len() + args.root@.len() + 1 - k,
    decreases k,
{
    if k > 0 {
        lemma_remaining_shrinks(args, states, actions, events, k - 1);
        lemma_load_in_order(args, states, actions, events, 0, k - 1);
        law_step_keeps_what_is_loaded(
            args,
            states[k - 1],
            events[k - 1],
            states[k],
            actions[k],
        );
    }
}

/// When everything is loaded, the server has one chain of certificates for each pair, that
/// of a pair's chain is what the pair's certificate file held, and the fingerprint of a pair
/// is that of the first certificate in the file.
pub proof fn law_certificates_come_from_their_files<K>(
    args: Args,
    states: Seq<Loading<K>>,
    actions: Seq<LoadAction>,
    events: Seq<LoadEvent<K>>,
    k: int,
)
    requires
        is_load(args, states, actions, events),
        states.last().stage is Done,
        0 <= k < events.len(),
        states[k].stage is Chain,
    ensures
        ({
            let pair = states[k].stage->Chain_pair as int;
            let chain = collected(pem_certs(events[k]->File_bytes@))->Ok_0;
            let last = states.last();
            &&& events[k] is File
            &&& last.serve.list@.len() == args.cert@.len()
            &&& 0 <= pair < args.cert@.len()
            &&& ders(last.serve.list@[pair].cert@) == chain
            &&& last.serve.fingerprint_texts()[pair] == fingerprint_text(chain[0])
        }),
{
    let last = events.len() as int;
    lemma_load_in_order(args, states, actions, events, k, k);
    lemma_load_in_order(args, states, actions, events, k, last);
    let s0 = states[k];
    let pair = s0.stage->Chain_pair as int;
    let chain = lemma_chain_is_read(args, s0, events[k], states[k + 1], actions[k + 1]);
    let s1 = states[k + 1];
    lemma_key_is_read(args, s1, events[k + 1], states[k + 2], actions[k + 2]);
    let s2 = states[k + 2];
    lemma_pair_is_taken_up(args, s2, events[k + 2], states[k + 3], actions[k + 3]);
    lemma_load_in_order(args, states, actions, events, k + 3, last);
    let s3 = states[k + 3];
    assert(states[last].serve.list@[pair] == s3.serve.list@[pair]);
    assert(ders(chain@)[0] == chain@[0]@);
}

proof fn lemma_chain_is_read<K>(
    args: Args,
    before: Loading<K>,
    event: LoadEvent<K>,
    after: Loading<K>,
    action: LoadAction,
) -> (chain: Vec<Vec<u8>>)
    requires
        before.valid(args),
        before.stage is Chain,
        is_step(args, before, event, after, action),
    ensures
        event is File,
        after.stage == (Stage::Key { pair: before.stage->Chain_pair, chain }),
        after.serve == before.serve,
        ders(chain@) == collected(pem_certs(event->File_bytes@))->Ok_0,
        chain@.len() > 0,
{
    reveal(is_step);
    let chain = after.stage->Key_chain;
    assert(ders(chain@).len() == chain@.len());
    chain
}

proof fn lemma_key_is_read<K>(
    args: Args,
    before: Loading<K>,
    event: LoadEvent<K>,
    after: Loading<K>,
    action: LoadAction,
)
    requires
        before.stage is Key,
        is_step(args, before, event, after, action),
    ensures
        after.stage == (Stage::Signer {
            pair: before.stage->Key_pair,
            chain: before.stage->Key_chain,
        }),
        after.serve == before.serve,
{
    reveal(is_step);
}

proof fn lemma_pair_is_taken_up<K>(
    args: Args,
    before: Loading<K>,
    event: LoadEvent<K>,
    after: Loading<K>,
    action: LoadAction,
)
    requires
        before.stage is Signer,
        is_step(args, before, event, after, action),
    ensures
        after.serve.list@.len() == before.serve.list@.len() + 1,
        after.serve.list@.last().cert == before.stage->Signer_chain,
{
    reveal(is_step);
}

/// Whether a load has taken up pair `pair`, or is at it.
spec fn reached_pair<K>(state: Loading<K>, pair: int) -> bool {
    ||| pair < state.serve.list@.len()
    ||| match state.stage {
        Stage::Chain { pair: p } => p == pair,
        Stage::Key { pair: p, .. } => p == pair,
        Stage::Signer { pair: p, .. } => p == pair,
        _ => false,
    }
}

proof fn lemma_step_reaches_pair<K>(
    args: Args,
    before: Loading<K>,
    event: LoadEvent<K>,
    after: Loading<K>,
    action: LoadAction,
    pair: int,
)
    requires
        before.valid(args),
        is_step(args, before, event, after, action),
        reached_pair(after, pair),
        !(after.stage matches Stage::Chain { pair: p } && p == pair),
    ensures
        reached_pair(before, pair),
{
    reveal(is_step);
}

proof fn lemma_pair_was_started<K>(
    args: Args,
    states: Seq<Loading<K>>,
    actions: Seq<LoadAction>,
    events: Seq<LoadEvent<K>>,
    k: int,
    pair: int,
) -> (j: int)
    requires
        is_load(args, states, actions, events),
        0 <= k < states.len(),
        0 <= pair,
        reached_pair(states[k], pair),
    ensures
        0 <= j <= k,
        states[j].stage matches Stage::Chain { pair: p } && p == pair,
    decreases k,
{
    let state = states[k];
    if state.stage is Chain && state.stage->Chain_pair == pair {
        k
    } else {
        assert(k > 0);
        let before = states[k - 1];
        lemma_load_in_order(args, states, actions, events, k - 1, k - 1);
        lemma_step_reaches_pair(args, before, events[k - 1], state, actions[k], pair);
        lemma_pair_was_started(args, states, actions, events, k - 1, pair)
    }
}

/// A load that has ended has read the files of every pair: there is a state in which it waited
/// for the certificate file of the pair, and what came then is what the server shows for the
/// pair.
pub proof fn law_every_pair_is_read<K>(
    args: Args,
    states: Seq<Loading<K>>,
    actions: Seq<LoadAction>,
    events: Seq<LoadEvent<K>>,
    pair: int,
) -> (k: int)
    requires
        is_load(args, states, actions, events),
        states.last().stage is Done,
        0 <= pair < args.cert@.len(),
    ensures
        0 <= k < events.len(),
        states[k].stage matches Stage::Chain { pair: p } && p == pair,
        ({
            let chain = collected(pem_certs(events[k]->File_bytes@))->Ok_0;
            let last = states.last();
            &&& events[k] is File
            &&& ders(last.serve.list@[pair].cert@) == chain
            &&& last.serve.fingerprint_texts()[pair] == fingerprint_text(chain[0])
        }),
        pem_certs(events[k]->File_bytes@).len() > 0,
        states.last().serve.list@[pair].cert@.len() == pem_certs(events[k]->File_bytes@).len(),
        forall|i: int|
            0 <= i < pem_certs(events[k]->File_bytes@).len() ==> #[trigger] pem_certs(
                events[k]->File_bytes@,
            )[i] is Ok,
        forall|i: int|
            0 <= i < pem_certs(events[k]->File_bytes@).len()
                ==> #[trigger] states.last().serve.list@[pair].cert@[i]@ == pem_certs(
                events[k]->File_bytes@,
            )[i]->Ok_0,
        k + 2 < events.len(),
        actions[k] == (LoadAction::ReadCert { pair: pair as usize }),
        actions[k + 1] == (LoadAction::ReadKey { pair: pair as usize }),
        events[k + 1] is File,
        pem_private_key(events[k + 1]->File_bytes@) matches Ok(Some((format, der)))
            && actions[k + 2]->LoadKey_key.format == format && actions[k + 2]->LoadKey_key.der@
            == der,
        actions[k + 2] is LoadKey,
        events[k + 2] is Signer,
        states.last().serve.list@[pair].key == events[k + 2]->Signer_key,
{
    let last = events.len() as int;
    lemma_load_in_order(args, states, actions, events, last, last);
    let k = lemma_pair_was_started(args, states, actions, events, last, pair);
    law_certificates_come_from_their_files(args, states, actions, events, k);
    lemma_load_in_order(args, states, actions, events, k, k);
    let s0 = states[k];
    let chain = lemma_chain_is_read(args, s0, events[k], states[k + 1], actions[k + 1]);
    lemma_chain_is_found(args, s0, events[k], states[k + 1], actions[k + 1], chain);
    let s1 = states[k + 1];
    lemma_key_is_read(args, s1, events[k + 1], states[k + 2], actions[k + 2]);
    lemma_key_is_found(args, s1, events[k + 1], states[k + 2], actions[k + 2]);
    let s2 = states[k + 2];
    lemma_pair_is_taken_up(args, s2, events[k + 2], states[k + 3], actions[k + 3]);
    lemma_signer_is_taken_up(args, s2, events[k + 2], states[k + 3], actions[k + 3]);
    lemma_load_in_order(args, states, actions, events, k + 3, last);
    lemma_chain_was_asked_for(args, states, actions, events, k);
    let s3 = states[k + 3];
    assert(s3.serve.list@[pair].cert == chain);
    assert(states[last].serve.list@[pair] == s3.serve.list@[pair]);
    let certs = pem_certs(events[k]->File_bytes@);
    let shown = states.last().serve.list@[pair].cert@;
    assert(shown == chain@);
    assert forall|i: int| 0 <= i < certs.len() implies #[trigger] certs[i] is Ok by {
        assert(chain@[i]@ == certs[i]->Ok_0);
    }
    k
}

proof fn lemma_chain_is_found<K>(
    args: Args,
    before: Loading<K>,
    event: LoadEvent<K>,
    after: Loading<K>,
    action: LoadAction,
    chain: Vec<Vec<u8>>,
)
    requires
        before.stage is Chain,
        is_step(args, before, event, after, action),
        after.stage == (Stage::Key { pair: before.stage->Chain_pair, chain }),
    ensures
        action == (LoadAction::ReadKey { pair: before.stage->Chain_pair }),
        ({
            let certs = pem_certs(event->File_bytes@);
            &&& chain@.len() == certs.len() > 0
            &&& forall|i: int|
                0 <= i < certs.len() ==> certs[i] is Ok && #[trigger] chain@[i]@ == certs[i]->Ok_0
        }),
{
    reveal(is_step);
    let certs = pem_certs(event->File_bytes@);
    law_chain_is_what_was_found(certs, Ok(chain));
    assert forall|i: int| 0 <= i < certs.len() implies certs[i] is Ok && #[trigger] chain@[i]@
        == certs[i]->Ok_0 by {
        assert(certs[i] is Ok);
    }
}

proof fn lemma_key_is_found<K>(
    args: Args,
    before: Loading<K>,
    event: LoadEvent<K>,
    after: Loading<K>,
    action: LoadAction,
)
    requires
        before.stage is Key,
        is_step(args, before, event, after, action),
    ensures
        event is File,
        action is LoadKey,
        pem_private_key(event->File_bytes@) matches Ok(Some((format, der)))
            && action->LoadKey_key.format == format && action->LoadKey_key.der@ == der,
{
    reveal(is_step);
}

proof fn lemma_signer_is_taken_up<K>(
    args: Args,
    before: Loading<K>,
    event: LoadEvent<K>,
    after: Loading<K>,
    action: LoadAction,
)
    requires
        before.stage is Signer,
        is_step(args, before, event, after, action),
    ensures
        event is Signer,
        after.serve.list@.last().key == event->Signer_key,
{
    reveal(is_step);
}

proof fn lemma_chain_was_asked_for<K>(
    args: Args,
    states: Seq<Loading<K>>,
    actions: Seq<LoadAction>,
    events: Seq<LoadEvent<K>>,
    k: int,
)
    requires
        is_load(args, states, actions, events),
        0 <= k < states.len(),
        states[k].stage is Chain,
    ensures
        actions[k] == (LoadAction::ReadCert { pair: states[k].stage->Chain_pair }),
{
    if k > 0 {
        let before = states[k - 1];
        lemma_load_in_order(args, states, actions, events, k - 1, k - 1);
        assert(is_step(args, before, events[k - 1], states[k], actions[k]));
        reveal(is_step);
    }
}

/// Whether a load has one root for each root file that it has read.
spec fn roots_counted<K>(args: Args, state: Loading<K>) -> bool {
    match state.stage {
        Stage::Root { root } => root_anchors(state.roots).len() == root,
        Stage::Done => args.root@.len() > 0 ==> root_anchors(state.roots).len() == args.root@.len(),
        _ => root_anchors(state.roots).len() == 0,
    }
}

proof fn lemma_step_counts_roots<K>(
    args: Args,
    before: Loading<K>,
    event: LoadEvent<K>,
    after: Loading<K>,
    action: LoadAction,
)
    requires
        before.valid(args),
        roots_counted(args, before),
        is_step(args, before, event, after, action),
    ensures
        roots_counted(args, after),
{
    reveal(is_step);
}

proof fn lemma_load_counts_roots<K>(
    args: Args,
    states: Seq<Loading<K>>,
    actions: Seq<LoadAction>,
    events: Seq<LoadEvent<K>>,
    j: int,
    k: int,
)
    requires
        is_load(args, states, actions, events),
        0 <= j <= k < states.len(),
    ensures
        roots_counted(args, states[k]),
        root_anchors(states[j].roots).is_prefix_of(root_anchors(states[k].roots)),
    decreases k,
{
    if k > 0 {
        lemma_load_counts_roots(args, states, actions, events, if j < k {
            j
        } else {
            k - 1
        }, k - 1);
        lemma_load_in_order(args, states, actions, events, k - 1, k - 1);
        lemma_step_counts_roots(args, states[k - 1], events[k - 1], states[k], actions[k]);
        law_step_keeps_what_is_loaded(
            args,
            states[k - 1],
            events[k - 1],
            states[k],
            actions[k],
        );
    } else {
        let first = states[0];
        assert(roots_counted(args, first));
    }
}

proof fn lemma_root_is_read<K>(
    args: Args,
    before: Loading<K>,
    event: LoadEvent<K>,
    after: Loading<K>,
    action: LoadAction,
)
    requires
        before.stage is Root,
        is_step(args, before, event, after, action),
    ensures
        event is File,
        root_file_added(
            pem_certs(event->File_bytes@),
            root_anchors(before.roots),
            root_anchors(after.roots),
            Ok(()),
        ),
{
    reveal(is_step);
}

/// A load ends with a server exactly where there are keys, and with a fingerprint for each pair.
/// So a load of at least one pair has what the helper for browsers needs.
pub proof fn law_a_pair_makes_a_server<K>(args: Args, loading: Loading<K>, action: LoadAction)
    requires
        loading.valid(args),
        loading.at_end(args, action),
    ensures
        action->plan.server <==> args.key@.len() > 0,
        action->plan.fingerprints@.len() == args.key@.len(),
{
    law_the_plan_of_a_load(args, loading, action);
}

/// A load ends with a plan: both sides offer TLS 1.3 alone, certificates are verified unless that
/// is disabled, and the fingerprints are the digests of the server's own certificates, in the
/// order of the pairs, as 64 hexadecimal digits each.
pub proof fn law_the_plan_of_a_load<K>(args: Args, loading: Loading<K>, action: LoadAction)
    requires
        loading.at_end(args, action),
    ensures
        loading.stage is Done,
        action is Build,
        action->plan.versions@.len() == 1,
        action->plan.versions@[0] == TlsVersion::Tls13,
        action->plan.disable_verify == args.disable_verify,
        action->plan.server == (args.key@.len() > 0),
        action->plan.fingerprints@.len() == loading.serve.list@.len(),
        forall|i: int|
            0 <= i < loading.serve.list@.len() ==> (#[trigger] action->plan.fingerprints@[i])@
                == hex_text(sha256(loading.serve.list@[i].cert@[0]@)),
        forall|i: int|
            0 <= i < loading.serve.list@.len() ==> (#[trigger] action->plan.fingerprints@[i])@.len()
                == 64,
        forall|i: int, j: int|
            0 <= i < loading.serve.list@.len() && 0 <= j < 64 ==> is_hex_digit(
                #[trigger] action->plan.fingerprints@[i]@[j],
            ),
{
    law_fingerprints_are_of_the_first_certificates(loading.serve);
    let texts = action->plan.fingerprints@.map_values(|text: String| text@);
    assert(texts.len() == loading.serve.list@.len());
    assert forall|i: int| 0 <= i < loading.serve.list@.len() implies (
    #[trigger] action->plan.fingerprints@[i])@ == hex_text(
        sha256(loading.serve.list@[i].cert@[0]@),
    ) by {
        assert(texts[i] == action->plan.fingerprints@[i]@);
        assert(loading.serve.fingerprint_texts()[i] == hex_text(
            sha256(loading.serve.list@[i].cert@[0]@),
        ));
    }
}

/// A load goes through the pairs in order. Behind the last come the root files, or the roots of
/// the platform where no root file is named.
pub proof fn law_pairs_come_first<K>(
    args: Args,
    loading: Loading<K>,
    pairs: int,
    action: LoadAction,
)
    requires
        loading.at_pair(args, pairs, action),
    ensures
        pairs < args.cert@.len() ==> {
            &&& loading.stage matches Stage::Chain { pair } && pair == pairs
            &&& action matches LoadAction::ReadCert { pair } && pair == pairs
        },
        pairs >= args.cert@.len() && args.root@.len() == 0 ==> loading.stage is PlatformRoots
            && action is FindPlatformRoots,
        pairs >= args.cert@.len() && args.root@.len() > 0 ==> {
            &&& loading.stage matches Stage::Root { root } && root == 0
            &&& action matches LoadAction::ReadRoot { root } && root == 0
        },
{
}

/// A load goes through the root files in order, and ends behind the last.
pub proof fn law_roots_come_next<K>(args: Args, loading: Loading<K>, roots: int, action: LoadAction)
    requires
        loading.at_root(args, roots, action),
    ensures
        roots < args.root@.len() ==> {
            &&& loading.stage matches Stage::Root { root } && root == roots
            &&& action matches LoadAction::ReadRoot { root } && root == roots
        },
        roots >= args.root@.len() ==> loading.stage is Done && action is Build,
{
}

/// What becomes of a load on each event: what was loaded is taken up and the load goes on behind
/// it, and what could not be opened, read, found or loaded ends it with the error that says so.
pub proof fn law_step_outcome<K>(
    args: Args,
    before: Loading<K>,
    event: LoadEvent<K>,
    next: Result<(Loading<K>, LoadAction), LoadError>,
)
    requires
        before.goes_on(args, event, next),
    ensures
        event is OpenFailed ==> {
            &&& before.stage is Chain ==> next == Err::<(Loading<K>, LoadAction), LoadError>(
                LoadError::OpenCert(event->OpenFailed_cause),
            )
            &&& before.stage is Key ==> next == Err::<(Loading<K>, LoadAction), LoadError>(
                LoadError::OpenKey(event->OpenFailed_cause),
            )
            &&& before.stage is Root ==> next == Err::<(Loading<K>, LoadAction), LoadError>(
                LoadError::OpenRoot(event->OpenFailed_cause),
            )
        },
        event is ReadFailed ==> {
            &&& before.stage is Chain ==> next == Err::<(Loading<K>, LoadAction), LoadError>(
                LoadError::ReadCerts(event->ReadFailed_cause),
            )
            &&& before.stage is Key ==> next == Err::<(Loading<K>, LoadAction), LoadError>(
                LoadError::ReadKey(event->ReadFailed_cause),
            )
            &&& before.stage is Root ==> next == Err::<(Loading<K>, LoadAction), LoadError>(
                LoadError::ReadRoot(event->ReadFailed_cause),
            )
        },
        before.stage is Signer && event is SignerFailed ==> next == Err::<
            (Loading<K>, LoadAction),
            LoadError,
        >(LoadError::LoadKey(event->SignerFailed_cause)),
        before.stage is PlatformRoots && event is PlatformRootsFailed ==> next == Err::<
            (Loading<K>, LoadAction),
            LoadError,
        >(LoadError::PlatformCerts(event->PlatformRootsFailed_cause)),
        before.stage is Chain && event is File ==> {
            let certs = pem_certs(event->File_bytes@);
            &&& certs.len() == 0 ==> next == Err::<(Loading<K>, LoadAction), LoadError>(
                LoadError::NoCertificate,
            )
            &&& certs.len() > 0 && (forall|i: int|
                0 <= i < certs.len() ==> #[trigger] certs[i] is Ok) ==> {
                &&& next matches Ok((after, action))
                &&& after.stage matches Stage::Key { pair, chain }
                &&& pair == before.stage->Chain_pair
                &&& chain@.len() == certs.len()
                &&& forall|i: int|
                    0 <= i < certs.len() ==> #[trigger] chain@[i]@ == certs[i]->Ok_0
                &&& action == (LoadAction::ReadKey { pair })
                &&& after.serve == before.serve
                &&& after.roots == before.roots
            }
            &&& forall|i: int|
                0 <= i < certs.len() && #[trigger] certs[i] is Err && (forall|j: int|
                    0 <= j < i ==> #[trigger] certs[j] is Ok) ==> {
                    &&& next matches Err(LoadError::ReadCerts(cause))
                    &&& cause@ == certs[i]->Err_0
                }
        },
        before.stage is Key && event is File ==> match pem_private_key(event->File_bytes@) {
            Ok(Some((format, der))) => {
                &&& next matches Ok((after, action))
                &&& after.stage == (Stage::Signer {
                    pair: before.stage->Key_pair,
                    chain: before.stage->Key_chain,
                })
                &&& action matches LoadAction::LoadKey { key }
                &&& key.format == format
                &&& key.der@ == der
                &&& after.serve == before.serve
                &&& after.roots == before.roots
            },
            Ok(None) => next == Err::<(Loading<K>, LoadAction), LoadError>(LoadError::MissingKey),
            Err(message) => next matches Err(LoadError::ParseKey(cause)) && cause@ == message,
        },
        before.stage is Signer && event is Signer ==> {
            &&& next matches Ok((after, action))
            &&& after.serve.list@ == before.serve.list@.push(
                CertifiedKey { cert: before.stage->Signer_chain, key: event->Signer_key },
            )
            &&& after.roots == before.roots
            &&& after.at_pair(args, before.stage->Signer_pair + 1, action)
        },
        before.stage is PlatformRoots && event is PlatformRoots ==> {
            &&& next matches Ok((after, action))
            &&& after.serve == before.serve
            &&& after.at_end(args, action)
            &&& forall|list: Seq<Seq<u8>>|
                list.len() == event->PlatformRoots_certs@.len() && (forall|i: int|
                    0 <= i < list.len() ==> #[trigger] list[i] == event->PlatformRoots_certs@[i]@)
                    ==> root_anchors(after.roots) == root_anchors(before.roots)
                    + #[trigger] readable_anchors(list)
        },
        before.stage is Root && event is File ==> {
            let certs = pem_certs(event->File_bytes@);
            &&& certs.len() == 0 ==> next == Err::<(Loading<K>, LoadAction), LoadError>(
                LoadError::NoRoots,
            )
            &&& certs.len() > 0 && certs[0] is Err ==> {
                &&& next matches Err(LoadError::ReadRoot(cause))
                &&& cause@ == certs[0]->Err_0
            }
            &&& certs.len() > 0 && certs[0] is Ok && trust_anchor(certs[0]->Ok_0) is Err ==> {
                &&& next matches Err(LoadError::AddRoot(cause))
                &&& cause@ == trust_anchor(certs[0]->Ok_0)->Err_0
            }
            &&& certs.len() > 0 && certs[0] is Ok && trust_anchor(certs[0]->Ok_0) is Ok ==> {
                &&& next matches Ok((after, action))
                &&& root_anchors(after.roots) == root_anchors(before.roots).push(
                    trust_anchor(certs[0]->Ok_0)->Ok_0,
                )
                &&& after.serve == before.serve
                &&& after.at_root(args, before.stage->Root_root + 1, action)
            }
        },
{
    match (before.stage, event) {
        (Stage::Chain { .. }, LoadEvent::File { bytes }) => {
            let chain = match next {
                Ok((after, _)) => Ok(after.stage->Key_chain),
                Err(error) => Err(error),
            };
            law_chain_is_what_was_found(pem_certs(bytes@), chain);
        },
        (Stage::PlatformRoots, LoadEvent::PlatformRoots { certs }) => {
            let after = next->Ok_0.0;
            assert forall|list: Seq<Seq<u8>>|
                list.len() == certs@.len() && (forall|i: int|
                    0 <= i < list.len() ==> #[trigger] list[i] == certs@[i]@) implies root_anchors(
                after.roots,
            ) == root_anchors(before.roots) + #[trigger] readable_anchors(list) by {
                assert(list == ders(certs@));
            }
        },
        _ => {},
    }
}

/// When everything is loaded and root files were named, there is one root for each of them:
/// that of a root file is the first certificate that was found in it.
pub proof fn law_roots_come_from_their_files<K>(
    args: Args,
    states: Seq<Loading<K>>,
    actions: Seq<LoadAction>,
    events: Seq<LoadEvent<K>>,
    k: int,
)
    requires
        is_load(args, states, actions, events),
        states.last().stage is Done,
        0 <= k < events.len(),
        states[k].stage is Root,
    ensures
        ({
            let root = states[k].stage->Root_root as int;
            let certs = pem_certs(events[k]->File_bytes@);
            let anchors = root_anchors(states.last().roots);
            &&& events[k] is File
            &&& anchors.len() == args.root@.len()
            &&& 0 <= root < args.root@.len()
            &&& certs.len() > 0
            &&& certs[0] is Ok
            &&& trust_anchor(certs[0]->Ok_0) == Ok::<Anchor, Seq<char>>(anchors[root])
        }),
{
    let last = events.len() as int;
    lemma_load_in_order(args, states, actions, events, k, k);
    lemma_load_counts_roots(args, states, actions, events, k, k);
    lemma_load_counts_roots(args, states, actions, events, k + 1, last);
    let before = states[k];
    let after = states[k + 1];
    lemma_root_is_read(args, before, events[k], after, actions[k + 1]);
    let root = before.stage->Root_root as int;
    assert(root_anchors(after.roots).len() == root + 1);
    assert(root_anchors(states[last].roots)[root] == root_anchors(after.roots)[root]);
}

/// Whether a load has read root file `root`, or is at it.
spec fn reached_root<K>(args: Args, state: Loading<K>, root: int) -> bool {
    match state.stage {
        Stage::Root { root: r } => root <= r,
        Stage::Done => root < args.root@.len(),
        _ => false,
    }
}

proof fn lemma_step_reaches_root<K>(
    args: Args,
    before: Loading<K>,
    event: LoadEvent<K>,
    after: Loading<K>,
    action: LoadAction,
    root: int,
)
    requires
        before.valid(args),
        is_step(args, before, event, after, action),
        0 <= root,
        reached_root(args, after, root),
        !(after.stage matches Stage::Root { root: r } && r == root),
    ensures
        reached_root(args, before, root),
{
    reveal(is_step);
}

proof fn lemma_root_was_started<K>(
    args: Args,
    states: Seq<Loading<K>>,
    actions: Seq<LoadAction>,
    events: Seq<LoadEvent<K>>,
    k: int,
    root: int,
) -> (j: int)
    requires
        is_load(args, states, actions, events),
        0 <= k < states.len(),
        0 <= root,
        reached_root(args, states[k], root),
    ensures
        0 <= j <= k,
        states[j].stage matches Stage::Root { root: r } && r == root,
    decreases k,
{
    let state = states[k];
    if state.stage is Root && state.stage->Root_root == root {
        k
    } else {
        assert(k > 0);
        let before = states[k - 1];
        lemma_load_in_order(args, states, actions, events, k - 1, k - 1);
        lemma_step_reaches_root(args, before, events[k - 1], state, actions[k], root);
        lemma_root_was_started(args, states, actions, events, k - 1, root)
    }
}

/// A load that has ended has read every root file: there is a state in which it waited for the
/// file, and the first certificate that was found in what came then is the root of the file.
pub proof fn law_every_root_file_is_read<K>(
    args: Args,
    states: Seq<Loading<K>>,
    actions: Seq<LoadAction>,
    events: Seq<LoadEvent<K>>,
    root: int,
) -> (k: int)
    requires
        is_load(args, states, actions, events),
        states.last().stage is Done,
        0 <= root < args.root@.len(),
    ensures
        0 <= k < events.len(),
        states[k].stage matches Stage::Root { root: r } && r == root,
        ({
            let certs = pem_certs(events[k]->File_bytes@);
            let anchors = root_anchors(states.last().roots);
            &&& events[k] is File
            &&& anchors.len() == args.root@.len()
            &&& certs.len() > 0
            &&& certs[0] is Ok
            &&& trust_anchor(certs[0]->Ok_0) == Ok::<Anchor, Seq<char>>(anchors[root])
        }),
{
    let last = events.len() as int;
    let k = lemma_root_was_started(args, states, actions, events, last, root);
    law_roots_come_from_their_files(args, states, actions, events, k);
    k
}

/// A load without root files ends with the roots of the platform: those that can be read among
/// what was found there, and no others.
pub proof fn law_roots_come_from_the_platform<K>(
    args: Args,
    states: Seq<Loading<K>>,
    actions: Seq<LoadAction>,
    events: Seq<LoadEvent<K>>,
    list: Seq<Seq<u8>>,
)
    requires
        is_load(args, states, actions, events),
        states.last().stage is Done,
        args.root@.len() == 0,
        events.last() is PlatformRoots ==> {
            &&& list.len() == events.last()->PlatformRoots_certs@.len()
            &&& forall|i: int|
                0 <= i < list.len() ==> #[trigger] list[i]
                    == events.last()->PlatformRoots_certs@[i]@
        },
    ensures
        events.len() > 0,
        events.last() is PlatformRoots,
        states[events.len() - 1].stage is PlatformRoots,
        root_anchors(states.last().roots) == readable_anchors(list),
{
    let last = events.len() as int;
    assert(events.len() > 0);
    let before = states[last - 1];
    lemma_load_in_order(args, states, actions, events, last - 1, last - 1);
    lemma_load_counts_roots(args, states, actions, events, last - 1, last - 1);
    lemma_platform_ends(args, before, events[last - 1], states[last], actions[last]);
    let certs = events.last()->PlatformRoots_certs@;
    assert(list == ders(certs));
    assert(root_anchors(before.roots) + readable_anchors(list) == readable_anchors(list));
}

proof fn lemma_platform_ends<K>(
    args: Args,
    before: Loading<K>,
    event: LoadEvent<K>,
    after: Loading<K>,
    action: LoadAction,
)
    requires
        before.valid(args),
        is_step(args, before, event, after, action),
        args.root@.len() == 0,
        after.stage is Done,
    ensures
        before.stage is PlatformRoots,
        event is PlatformRoots,
        root_anchors(after.roots) == root_anchors(before.roots) + readable_anchors(
            ders(event->PlatformRoots_certs@),
        ),
{
    reveal(is_step);
}

/// A load that asked for a file waits for the file or for what kept it from being read. One that
/// asked for what signs, or for the roots of the platform, waits for these or for why there are
/// none. One that has ended waits for nothing.
pub proof fn law_what_a_load_waits_for<K>(loading: Loading<K>, event: LoadEvent<K>)
    ensures
        loading.stage is Chain || loading.stage is Key || loading.stage is Root ==> (
        loading.awaits(event) <==> event is File || event is OpenFailed || event is ReadFailed),
        loading.stage is Signer ==> (loading.awaits(event) <==> event is Signer
            || event is SignerFailed),
        loading.stage is PlatformRoots ==> (loading.awaits(event) <==> event is PlatformRoots
            || event is PlatformRootsFailed),
        loading.stage is Done ==> !loading.awaits(event),
{
}

} // verus!
