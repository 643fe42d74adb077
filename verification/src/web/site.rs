//! What the helper serves.

use std::path::PathBuf;
use vstd::prelude::*;

use crate::tls::config::Config;

verus! {

/// What the helper is set up with. `A` is an address.
pub struct WebConfig<A, C, S> {
    pub bind: A,
    pub tls: Config<C, S>,
    pub qlog_dir: Option<PathBuf>,
    pub mlog_dir: Option<PathBuf>,
}

/// What the helper answers requests with.
pub struct WebState {
    pub fingerprint: String,
    pub qlog_dir: Option<PathBuf>,
    pub mlog_dir: Option<PathBuf>,
}

/// What a request asks for.
#[derive(Clone, Copy, PartialEq, Eq, Structural, Debug)]
pub enum Route {
    /// The fingerprint of the certificate.
    Fingerprint,
    /// The qlog file of a connection.
    Qlog,
    /// The mlog file of a connection.
    Mlog,
}

impl Route {
    /// The pattern of the paths that ask for this.
    pub open spec fn pattern(self) -> Seq<char> {
        match self {
            Route::Fingerprint => "/fingerprint"@,
            Route::Qlog => "/qlog/:cid"@,
            Route::Mlog => "/mlog/:cid"@,
        }
    }

    /// The pattern of the paths that ask for this.
    pub fn path(&self) -> (path: &'static str)
        ensures
            path@ == self.pattern(),
    {
        match self {
            Route::Fingerprint => "/fingerprint",
            Route::Qlog => "/qlog/:cid",
            Route::Mlog => "/mlog/:cid",
        }
    }
}

/// HTTP(S) helper that serves `/fingerprint` (and optional qlog/mlog) for browsers.
pub struct Web<A, S> {
    /// What is served, in the order in which it is set up.
    pub routes: Vec<Route>,
    /// What requests are answered with.
    pub state: WebState,
    /// Where to listen.
    pub bind: A,
    /// The TLS configuration of the server.
    pub tls: S,
    /// The protocols that the server offers over TLS, the preferred one first.
    pub alpn_protocols: Vec<Vec<u8>>,
    /// What pages of other origins may do.
    pub cors: Cors,
}

/// A method of HTTP.
#[derive(Clone, Copy, PartialEq, Eq, Structural, Debug)]
pub enum Method {
    Get,
}

/// What pages of other origins may do.
pub struct Cors {
    /// Whether a page of any origin may do it.
    pub any_origin: bool,
    /// The methods that may be used.
    pub methods: Vec<Method>,
}

/// `h2`, the name of HTTP/2.
pub open spec fn alpn_h2() -> Seq<u8> {
    seq![0x68u8, 0x32u8]
}

/// `http/1.1`, the name of HTTP/1.1.
pub open spec fn alpn_http11() -> Seq<u8> {
    seq![0x68u8, 0x74u8, 0x74u8, 0x70u8, 0x2fu8, 0x31u8, 0x2eu8, 0x31u8]
}

/// What is served: the fingerprint always, the logs of a kind where their directory is set.
pub open spec fn routes_of(qlog: bool, mlog: bool) -> Seq<Route> {
    let fingerprint = seq![Route::Fingerprint];
    let with_qlog = if qlog {
        fingerprint.push(Route::Qlog)
    } else {
        fingerprint
    };
    if mlog {
        with_qlog.push(Route::Mlog)
    } else {
        with_qlog
    }
}

impl<A, S> Web<A, S> {
    /// Sets the helper up. It needs a certificate and the configuration of a server.
    pub fn new<C>(config: WebConfig<A, C, S>) -> (web: Self)
        requires
            config.tls.fingerprints@.len() > 0,
            config.tls.server is Some,
        ensures
            web.routes@ == routes_of(config.qlog_dir is Some, config.mlog_dir is Some),
            web.state.fingerprint@ == config.tls.fingerprints@[0]@,
            web.state.qlog_dir == config.qlog_dir,
            web.state.mlog_dir == config.mlog_dir,
            web.bind == config.bind,
            Some(web.tls) == config.tls.server,
            web.alpn_protocols@.len() == 2,
            web.alpn_protocols@[0]@ == alpn_h2(),
            web.alpn_protocols@[1]@ == alpn_http11(),
            web.cors.any_origin,
            web.cors.methods@ == seq![Method::Get],
    {
        let fingerprint: String = config.tls.fingerprints[0].clone();
        let tls: S = match config.tls.server {
            Some(tls) => tls,
            None => vstd::pervasive::unreached(),
        };
        let h2: Vec<u8> = vec![0x68u8, 0x32u8];
        let http11: Vec<u8> = vec![
            0x68u8,
            0x74u8,
            0x74u8,
            0x70u8,
            0x2fu8,
            0x31u8,
            0x2eu8,
            0x31u8,
        ];
        assert(h2@ == alpn_h2());
        assert(http11@ == alpn_http11());
        let alpn_protocols: Vec<Vec<u8>> = vec![h2, http11];
        let state = WebState { fingerprint, qlog_dir: config.qlog_dir, mlog_dir: config.mlog_dir };
        let mut routes: Vec<Route> = Vec::new();
        routes.push(Route::Fingerprint);
        if state.qlog_dir.is_some() {
            routes.push(Route::Qlog);
        }
        if state.mlog_dir.is_some() {
            routes.push(Route::Mlog);
        }
        assert(routes@ == routes_of(state.qlog_dir is Some, state.mlog_dir is Some));
        let cors = Cors { any_origin: true, methods: vec![Method::Get] };
        Self { routes, state, bind: config.bind, tls, alpn_protocols, cors }
    }
}

/// The answer to a request for the fingerprint.
pub fn serve_fingerprint(state: &WebState) -> (body: String)
    ensures
        body@ == state.fingerprint@,
{
    state.fingerprint.clone()
}

/// The fingerprint is served in any case, and logs of a kind are served exactly where there is a
/// directory for them.
pub proof fn law_what_is_served(qlog: bool, mlog: bool)
    ensures
        routes_of(qlog, mlog)[0] == Route::Fingerprint,
        routes_of(qlog, mlog).contains(Route::Qlog) <==> qlog,
        routes_of(qlog, mlog).contains(Route::Mlog) <==> mlog,
        routes_of(qlog, mlog).no_duplicates(),
{
    let routes = routes_of(qlog, mlog);
    if qlog {
        assert(routes[1] == Route::Qlog);
    }
    if mlog {
        assert(routes.last() == Route::Mlog);
    }
}

} // verus!
