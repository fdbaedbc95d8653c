//! Serving the public: what has to be in place before the edge listens on an address that
//! others can reach.
use vstd::prelude::*;

use crate::certificate::{certificate_verdict, validate_tls_certificate_name, FileReading};
use crate::cli::{nothing_given, Bind, EdgeCliConfig};
use crate::config::{
    asked_for, bad_address, blame_address, given_number, given_string, given_text, given_u64,
    left_open, listed, numbers_are_asked_for_in_order, read_list, texts_are_asked_for_in_order,
    AddressReading, BindKind,
};
use crate::env::{
    env_bool, optional_path, optional_path_env, optional_string_env, optional_text, says_nothing,
    spelled, truth_or, EnvVar, Environment, Var,
};
use crate::error::{agrees, blame, blames, faulted, EdgeError, Fault};
use crate::fairness::{fresh_limiter, GlobalInFlightLimiter, IdentityFairnessLimiter};
use crate::fs_validate::{tls_verdict, validate_tls_file, Stat};
use crate::limits::DEFAULT_PUBLIC_MAX_IN_FLIGHT_PER_IDENTITY;
use crate::os_path::{copy_path, lossy, opt_path, OsPath};
use crate::text::{
    chars_of, decimal, decimal_text, first, is_digits, lemma_first_range, lower_char,
    numbers_are_read_back, opt_view, owned, parse_whole, pieces_of_joined_texts, quote, quoted,
    same, split, split_at_char, unsigned, views, whole,
};

verus! {

/// How the edge listens.
#[derive(Debug, PartialEq, Eq)]
pub enum ListenerMode {
    Plain,
    Tls { cert_path: OsPath, key_path: OsPath, h2: bool },
}

/// How the edge listens, as values.
pub ghost enum Listening {
    Plain,
    Tls { cert_path: Seq<u8>, key_path: Seq<u8>, h2: bool },
}

impl View for ListenerMode {
    type V = Listening;

    open spec fn view(&self) -> Listening {
        match self {
            ListenerMode::Plain => Listening::Plain,
            ListenerMode::Tls { cert_path, key_path, h2 } => Listening::Tls {
                cert_path: cert_path@,
                key_path: key_path@,
                h2: *h2,
            },
        }
    }
}

impl ListenerMode {
    pub open spec fn scheme(self) -> Seq<char> {
        if self is Tls { "https"@ } else { "http"@ }
    }

    pub fn url_scheme(&self) -> (r: &'static str)
        ensures
            r@ == self.scheme(),
    {
        match self {
            ListenerMode::Plain => "http",
            ListenerMode::Tls { cert_path: _, key_path: _, h2: _ } => "https",
        }
    }

    pub fn is_tls(&self) -> (r: bool)
        ensures
            r == self is Tls,
    {
        match self {
            ListenerMode::Plain => false,
            ListenerMode::Tls { cert_path: _, key_path: _, h2: _ } => true,
        }
    }
}

/// How far the edge is open to the public.
#[derive(Clone, Copy, Debug, PartialEq, Eq, Structural)]
pub enum PublicMode {
    Alpha,
    SmokeBeta,
}

impl PublicMode {
    pub open spec fn named(raw: Seq<char>) -> Option<PublicMode> {
        if raw == "alpha"@ {
            Some(PublicMode::Alpha)
        } else if raw == "smoke-beta"@ || raw == "beta"@ {
            Some(PublicMode::SmokeBeta)
        } else {
            None
        }
    }

    pub fn parse(raw: &str) -> (r: Option<PublicMode>)
        ensures
            r == PublicMode::named(raw@),
    {
        if same(raw, "alpha") {
            Some(PublicMode::Alpha)
        } else if same(raw, "smoke-beta") || same(raw, "beta") {
            Some(PublicMode::SmokeBeta)
        } else {
            None
        }
    }

    pub open spec fn text(self) -> Seq<char> {
        match self {
            PublicMode::Alpha => "alpha"@,
            PublicMode::SmokeBeta => "smoke-beta"@,
        }
    }

    pub fn as_str(self) -> (r: &'static str)
        ensures
            r@ == self.text(),
    {
        match self {
            PublicMode::Alpha => "alpha",
            PublicMode::SmokeBeta => "smoke-beta",
        }
    }

    pub fn requires_admin_health(self) -> (r: bool)
        ensures
            r == self is SmokeBeta,
    {
        self == PublicMode::SmokeBeta
    }
}

/// Whether TLS is asked for: by the kind of address, by either file, or, where the
/// command line is silent on all of them, by the environment.
pub open spec fn tls_requested(cli: EdgeCliConfig, kind: BindKind, env: Environment) -> Result<
    bool,
    Fault,
> {
    if kind is Https || cli.tls_cert is Some || cli.tls_key is Some {
        Ok(true)
    } else if cli.http_bind is None && cli.https_bind is None {
        truth_or(env.var("OXO_EDGE_TLS"@), "OXO_EDGE_TLS"@, false)
    } else {
        Ok(false)
    }
}

/// A path from the command line or the environment.
pub open spec fn given_path(cli: Option<OsPath>, env: Environment, name: Seq<char>) -> Option<
    Seq<u8>,
> {
    match opt_path(cli) {
        Some(p) => Some(p),
        None => optional_path(env.var(name)),
    }
}

fn read_given_path(cli: &Option<OsPath>, env: &Environment, name: &str) -> (r: Option<OsPath>)
    ensures
        opt_path(r) == given_path(*cli, *env, name@),
{
    match copy_path(cli) {
        Some(p) => Some(p),
        None => optional_path_env(env, name),
    }
}

/// The paths of the certificate and the private key, as far as they are given.
pub fn tls_paths(cli: &EdgeCliConfig, env: &Environment) -> (r: (Option<OsPath>, Option<OsPath>))
    ensures
        opt_path(r.0) == given_path(cli.tls_cert, *env, "OXO_EDGE_TLS_CERT"@),
        opt_path(r.1) == given_path(cli.tls_key, *env, "OXO_EDGE_TLS_KEY"@),
{
    (
        read_given_path(&cli.tls_cert, env, "OXO_EDGE_TLS_CERT"),
        read_given_path(&cli.tls_key, env, "OXO_EDGE_TLS_KEY"),
    )
}

/// How the edge listens; `tls_built` says whether TLS is built in, and `cert` and `key`
/// are what looks at the two files gave.
pub open spec fn listener_of(
    cli: EdgeCliConfig,
    kind: BindKind,
    env: Environment,
    tls_built: bool,
    cert: Stat,
    key: Stat,
) -> Result<Listening, Fault> {
    match tls_requested(cli, kind, env) {
        Err(f) => Err(f),
        Ok(false) => Ok(Listening::Plain),
        Ok(true) => if !tls_built {
            faulted(
                "OXO_EDGE_TLS"@,
                "TLS requested but oxo-pingora-edge was built without the tls-rustls feature"@,
            )
        } else {
            match given_path(cli.tls_cert, env, "OXO_EDGE_TLS_CERT"@) {
                None => faulted("OXO_EDGE_TLS_CERT"@, "TLS requires a certificate path"@),
                Some(cert_path) => match given_path(cli.tls_key, env, "OXO_EDGE_TLS_KEY"@) {
                    None => faulted("OXO_EDGE_TLS_KEY"@, "TLS requires a private key path"@),
                    Some(key_path) => match tls_verdict(
                        "certificate"@,
                        false,
                        lossy(cert_path),
                        cert,
                    ) {
                        Err(f) => Err(f),
                        Ok(_) => match tls_verdict("private key"@, true, lossy(key_path), key) {
                            Err(f) => Err(f),
                            Ok(_) => {
                                let h2 = match cli.tls_h2 {
                                    Some(b) => Ok(b),
                                    None => truth_or(
                                        env.var("OXO_EDGE_TLS_H2"@),
                                        "OXO_EDGE_TLS_H2"@,
                                        true,
                                    ),
                                };
                                match h2 {
                                    Err(f) => Err(f),
                                    Ok(h2) => Ok(Listening::Tls { cert_path, key_path, h2 }),
                                }
                            },
                        },
                    },
                },
            }
        },
    }
}

pub fn read_listener_mode(
    cli: &EdgeCliConfig,
    bind_kind: BindKind,
    env: &Environment,
    tls_built: bool,
    cert: &Stat,
    key: &Stat,
) -> (r: Result<ListenerMode, EdgeError>)
    ensures
        match (r, listener_of(*cli, bind_kind, *env, tls_built, *cert, *key)) {
            (Ok(a), Ok(b)) => a@ == b,
            (Err(e), Err(f)) => e@ == f,
            _ => false,
        },
{
    let asked: bool = if bind_kind == BindKind::Https || cli.tls_cert.is_some()
        || cli.tls_key.is_some() {
        true
    } else if cli.http_bind.is_none() && cli.https_bind.is_none() {
        match env_bool(env, "OXO_EDGE_TLS", false) {
            Err(e) => return Err(e),
            Ok(b) => b,
        }
    } else {
        false
    };
    if !asked {
        return Ok(ListenerMode::Plain);
    }
    if !tls_built {
        return Err(
            blame(
                "OXO_EDGE_TLS",
                "TLS requested but oxo-pingora-edge was built without the tls-rustls feature",
            ),
        );
    }
    let (cert_path, key_path) = tls_paths(cli, env);
    let cert_path: OsPath = match cert_path {
        None => return Err(blame("OXO_EDGE_TLS_CERT", "TLS requires a certificate path")),
        Some(p) => p,
    };
    let key_path: OsPath = match key_path {
        None => return Err(blame("OXO_EDGE_TLS_KEY", "TLS requires a private key path")),
        Some(p) => p,
    };
    match validate_tls_file("certificate", cert_path.shown().as_str(), false, cert) {
        Err(e) => return Err(e),
        Ok(()) => {},
    }
    match validate_tls_file("private key", key_path.shown().as_str(), true, key) {
        Err(e) => return Err(e),
        Ok(()) => {},
    }
    let h2: bool = match cli.tls_h2 {
        Some(b) => b,
        None => match env_bool(env, "OXO_EDGE_TLS_H2", true) {
            Err(e) => return Err(e),
            Ok(b) => b,
        },
    };
    Ok(ListenerMode::Tls { cert_path, key_path, h2 })
}

/// Whether a text is given at all.
pub open spec fn is_given(cli: bool, env: Environment, name: Seq<char>) -> Result<bool, Fault> {
    if cli {
        Ok(true)
    } else {
        match optional_text(env.var(name), name) {
            Err(f) => Err(f),
            Ok(s) => Ok(s is Some),
        }
    }
}

fn read_is_given(cli: bool, env: &Environment, name: &'static str) -> (r: Result<bool, EdgeError>)
    ensures
        agrees(r, is_given(cli, *env, name@)),
{
    if cli {
        return Ok(true);
    }
    match optional_string_env(env, name) {
        Err(e) => Err(e),
        Ok(s) => Ok(s.is_some()),
    }
}

/// An address that only this machine can reach is not public, and settings that would
/// have no effect there are refused.
pub open spec fn private_gate(cli: EdgeCliConfig, env: Environment) -> Result<
    Option<PublicMode>,
    Fault,
> {
    match is_given(cli.public_mode is Some, env, "OXO_EDGE_PUBLIC_MODE"@) {
        Err(f) => Err(f),
        Ok(mode_set) => match is_given(
            cli.public_identity is Some,
            env,
            "OXO_EDGE_PUBLIC_IDENTITY"@,
        ) {
            Err(f) => Err(f),
            Ok(identity_set) => match is_given(
                cli.trusted_proxy_cidrs@.len() > 0,
                env,
                "OXO_EDGE_TRUSTED_PROXY_CIDRS"@,
            ) {
                Err(f) => Err(f),
                Ok(cidrs_set) => if mode_set || identity_set || cidrs_set {
                    faulted(
                        "OXO_EDGE_PUBLIC_MODE"@,
                        "public-mode, public-identity, and trusted-proxy-cidr are only honored on a non-loopback bind; refusing to start with any of them set on a loopback bind because they would be silently ignored"@,
                    )
                } else {
                    let consent = if cli.acme_allow_production_directory {
                        Ok(true)
                    } else {
                        truth_or(
                            env.var("OXO_EDGE_ACME_ALLOW_PRODUCTION_DIRECTORY"@),
                            "OXO_EDGE_ACME_ALLOW_PRODUCTION_DIRECTORY"@,
                            false,
                        )
                    };
                    match consent {
                        Err(f) => Err(f),
                        Ok(true) => faulted(
                            "OXO_EDGE_ACME_ALLOW_PRODUCTION_DIRECTORY"@,
                            "the production ACME consent flag is only honored for public issuance; refusing to start with it set on a loopback bind"@,
                        ),
                        Ok(false) => Ok(None),
                    }
                },
            },
        },
    }
}

/// On an address that others can reach, a public mode needs a body cap, TLS and a name.
pub open spec fn open_gate(
    cli: EdgeCliConfig,
    env: Environment,
    tls: bool,
    max_body_explicit: bool,
    server_name_explicit: bool,
) -> Result<Option<PublicMode>, Fault> {
    match given_text(
        opt_view(cli.public_mode),
        "OXO_EDGE_PUBLIC_MODE"@,
        env,
        "OXO_EDGE_PUBLIC_MODE"@,
    ) {
        Err(f) => Err(f),
        Ok((None, name)) => Ok(None),
        Ok((Some(raw), name)) => match PublicMode::named(raw) {
            None => faulted(
                "OXO_EDGE_PUBLIC_MODE"@,
                "expected alpha or smoke-beta for non-loopback Pingora bind"@,
            ),
            Some(mode) => if !max_body_explicit {
                faulted(
                    "OXO_EDGE_MAX_BODY"@,
                    "public mode requires an explicit request body cap"@,
                )
            } else if !tls {
                faulted("OXO_EDGE_TLS"@, "public mode requires TLS"@)
            } else if !server_name_explicit {
                faulted(
                    "OXO_EDGE_SERVER_NAME"@,
                    "public mode requires an explicit server name"@,
                )
            } else {
                Ok(Some(mode))
            },
        },
    }
}

/// The public mode.
pub open spec fn public_mode_of(
    bind: Bind,
    tls: bool,
    cli: EdgeCliConfig,
    env: Environment,
    max_body_explicit: bool,
    server_name_explicit: bool,
) -> Result<Option<PublicMode>, Fault> {
    if bind.private() {
        private_gate(cli, env)
    } else {
        open_gate(cli, env, tls, max_body_explicit, server_name_explicit)
    }
}

fn pass_private_gate(cli: &EdgeCliConfig, env: &Environment) -> (r: Result<
    Option<PublicMode>,
    EdgeError,
>)
    ensures
        agrees(r, private_gate(*cli, *env)),
{
    let mode_set: bool = match read_is_given(
        cli.public_mode.is_some(),
        env,
        "OXO_EDGE_PUBLIC_MODE",
    ) {
        Err(e) => return Err(e),
        Ok(b) => b,
    };
    let identity_set: bool = match read_is_given(
        cli.public_identity.is_some(),
        env,
        "OXO_EDGE_PUBLIC_IDENTITY",
    ) {
        Err(e) => return Err(e),
        Ok(b) => b,
    };
    let cidrs_set: bool = match read_is_given(
        cli.trusted_proxy_cidrs.len() > 0,
        env,
        "OXO_EDGE_TRUSTED_PROXY_CIDRS",
    ) {
        Err(e) => return Err(e),
        Ok(b) => b,
    };
    if mode_set || identity_set || cidrs_set {
        return Err(
            blame(
                "OXO_EDGE_PUBLIC_MODE",
                "public-mode, public-identity, and trusted-proxy-cidr are only honored on a non-loopback bind; refusing to start with any of them set on a loopback bind because they would be silently ignored",
            ),
        );
    }
    let consent: bool = if cli.acme_allow_production_directory {
        true
    } else {
        match env_bool(env, "OXO_EDGE_ACME_ALLOW_PRODUCTION_DIRECTORY", false) {
            Err(e) => return Err(e),
            Ok(b) => b,
        }
    };
    if consent {
        return Err(
            blame(
                "OXO_EDGE_ACME_ALLOW_PRODUCTION_DIRECTORY",
                "the production ACME consent flag is only honored for public issuance; refusing to start with it set on a loopback bind",
            ),
        );
    }
    Ok(None)
}

pub fn read_public_mode_gate(
    bind: Bind,
    listener: &ListenerMode,
    cli: &EdgeCliConfig,
    env: &Environment,
    max_body_explicit: bool,
    server_name_explicit: bool,
) -> (r: Result<Option<PublicMode>, EdgeError>)
    ensures
        agrees(
            r,
            public_mode_of(
                bind,
                listener is Tls,
                *cli,
                *env,
                max_body_explicit,
                server_name_explicit,
            ),
        ),
{
    if bind.is_loopback() {
        return pass_private_gate(cli, env);
    }
    let raw = match given_string(
        &cli.public_mode,
        "OXO_EDGE_PUBLIC_MODE",
        env,
        "OXO_EDGE_PUBLIC_MODE",
    ) {
        Err(e) => return Err(e),
        Ok((None, _)) => return Ok(None),
        Ok((Some(raw), _)) => raw,
    };
    let mode: PublicMode = match PublicMode::parse(raw.as_str()) {
        None => return Err(
            blame(
                "OXO_EDGE_PUBLIC_MODE",
                "expected alpha or smoke-beta for non-loopback Pingora bind",
            ),
        ),
        Some(mode) => mode,
    };
    if !max_body_explicit {
        return Err(
            blame("OXO_EDGE_MAX_BODY", "public mode requires an explicit request body cap"),
        );
    }
    if !listener.is_tls() {
        return Err(blame("OXO_EDGE_TLS", "public mode requires TLS"));
    }
    if !server_name_explicit {
        return Err(
            blame("OXO_EDGE_SERVER_NAME", "public mode requires an explicit server name"),
        );
    }
    Ok(Some(mode))
}

/// A public mode is only ever in force with TLS, a body cap and a server name that the
/// operator gave, on an address that others can reach.
pub proof fn public_mode_is_earned(
    bind: Bind,
    tls: bool,
    cli: EdgeCliConfig,
    env: Environment,
    max_body_explicit: bool,
    server_name_explicit: bool,
)
    requires
        public_mode_of(bind, tls, cli, env, max_body_explicit, server_name_explicit) matches Ok(
            Some(_),
        ),
    ensures
        !bind.private() && tls && max_body_explicit && server_name_explicit,
{
}

/// Who a client is taken to be.
#[derive(Debug, PartialEq, Eq)]
pub enum PublicIdentity {
    /// The address that connects.
    DirectPublic,
    /// What a proxy in one of these networks says.
    TrustedProxy { cidrs: Vec<String> },
}

/// Who a client is taken to be, as values.
pub ghost enum Identity {
    DirectPublic,
    TrustedProxy { cidrs: Seq<Seq<char>> },
}

impl View for PublicIdentity {
    type V = Identity;

    open spec fn view(&self) -> Identity {
        match self {
            PublicIdentity::DirectPublic => Identity::DirectPublic,
            PublicIdentity::TrustedProxy { cidrs } => Identity::TrustedProxy {
                cidrs: views(cidrs@),
            },
        }
    }
}

/// The networks of trusted proxies.
pub open spec fn cidrs_of(cli: EdgeCliConfig, env: Environment) -> Result<Seq<Seq<char>>, Fault> {
    if cli.trusted_proxy_cidrs@.len() > 0 {
        Ok(views(cli.trusted_proxy_cidrs@))
    } else {
        match optional_text(
            env.var("OXO_EDGE_TRUSTED_PROXY_CIDRS"@),
            "OXO_EDGE_TRUSTED_PROXY_CIDRS"@,
        ) {
            Err(f) => Err(f),
            Ok(None) => Ok(Seq::empty()),
            Ok(Some(raw)) => Ok(listed(split_at_char(raw, ','))),
        }
    }
}

/// A copy of a list of texts.
pub(crate) fn copy_texts(v: &Vec<String>) -> (r: Vec<String>)
    ensures
        views(r@) == views(v@),
{
    let mut out: Vec<String> = Vec::new();
    let mut i: usize = 0;
    while i < v.len()
        invariant
            i <= v@.len(),
            views(out@) =~= views(v@).take(i as int),
        decreases v@.len() - i,
    {
        let ghost done = out@;
        out.push(owned(v[i].as_str()));
        assert(views(out@) =~= views(done).push(v@[i as int]@));
        i += 1;
    }
    assert(views(v@).take(i as int) =~= views(v@));
    out
}

pub fn read_trusted_proxy_cidrs(cli: &EdgeCliConfig, env: &Environment) -> (r: Result<
    Vec<String>,
    EdgeError,
>)
    ensures
        match (r, cidrs_of(*cli, *env)) {
            (Ok(a), Ok(b)) => views(a@) == b,
            (Err(e), Err(f)) => e@ == f,
            _ => false,
        },
{
    if cli.trusted_proxy_cidrs.len() > 0 {
        return Ok(copy_texts(&cli.trusted_proxy_cidrs));
    }
    match optional_string_env(env, "OXO_EDGE_TRUSTED_PROXY_CIDRS") {
        Err(e) => Err(e),
        Ok(None) => {
            let none: Vec<String> = Vec::new();
            assert(views(none@) =~= Seq::<Seq<char>>::empty());
            Ok(none)
        },
        Ok(Some(raw)) => Ok(read_list(raw.as_str(), ',')),
    }
}

/// Who a client is taken to be; `cidr_fault` says what is wrong with the networks, if
/// anything is.
pub open spec fn identity_of(
    public_mode: Option<PublicMode>,
    cli: EdgeCliConfig,
    env: Environment,
    cidr_fault: Option<Seq<char>>,
) -> Result<Identity, Fault> {
    let name = "OXO_EDGE_PUBLIC_IDENTITY"@;
    if public_mode is None {
        Ok(Identity::DirectPublic)
    } else {
        match given_text(opt_view(cli.public_identity), name, env, name) {
            Err(f) => Err(f),
            Ok((None, _)) => faulted(
                name,
                "public mode requires direct-public or trusted-proxy identity policy"@,
            ),
            Ok((Some(raw), _)) => if raw == "direct-public"@ {
                Ok(Identity::DirectPublic)
            } else if raw == "trusted-proxy"@ {
                match cidrs_of(cli, env) {
                    Err(f) => Err(f),
                    Ok(cidrs) => match cidr_fault {
                        Some(message) => faulted("OXO_EDGE_TRUSTED_PROXY_CIDRS"@, message),
                        None => Ok(Identity::TrustedProxy { cidrs }),
                    },
                }
            } else {
                faulted(name, "expected direct-public or trusted-proxy, got "@ + quoted(raw))
            },
        }
    }
}

pub fn read_public_identity_policy(
    public_mode: Option<PublicMode>,
    cli: &EdgeCliConfig,
    env: &Environment,
    cidr_fault: &Option<String>,
) -> (r: Result<PublicIdentity, EdgeError>)
    ensures
        match (r, identity_of(public_mode, *cli, *env, opt_view(*cidr_fault))) {
            (Ok(a), Ok(b)) => a@ == b,
            (Err(e), Err(f)) => e@ == f,
            _ => false,
        },
{
    if public_mode.is_none() {
        return Ok(PublicIdentity::DirectPublic);
    }
    let raw = match given_string(
        &cli.public_identity,
        "OXO_EDGE_PUBLIC_IDENTITY",
        env,
        "OXO_EDGE_PUBLIC_IDENTITY",
    ) {
        Err(e) => return Err(e),
        Ok((None, _)) => return Err(
            blame(
                "OXO_EDGE_PUBLIC_IDENTITY",
                "public mode requires direct-public or trusted-proxy identity policy",
            ),
        ),
        Ok((Some(raw), _)) => raw,
    };
    if same(raw.as_str(), "direct-public") {
        return Ok(PublicIdentity::DirectPublic);
    }
    if same(raw.as_str(), "trusted-proxy") {
        return match read_trusted_proxy_cidrs(cli, env) {
            Err(e) => Err(e),
            Ok(cidrs) => match cidr_fault {
                Some(message) => Err(blame("OXO_EDGE_TRUSTED_PROXY_CIDRS", message.as_str())),
                None => Ok(PublicIdentity::TrustedProxy { cidrs }),
            },
        };
    }
    let mut message: String = owned("expected direct-public or trusted-proxy, got ");
    message.append(quote(raw.as_str()).as_str());
    Err(EdgeError::ConfigEnv { name: "OXO_EDGE_PUBLIC_IDENTITY", message })
}

/// The cap on requests in flight per client.
pub open spec fn per_identity_of(
    public_mode: Option<PublicMode>,
    cli: EdgeCliConfig,
    env: Environment,
) -> Result<Option<u64>, Fault> {
    match given_number(
        cli.max_in_flight_per_identity,
        "--max-in-flight-per-identity"@,
        env,
        "OXO_EDGE_MAX_IN_FLIGHT_PER_IDENTITY"@,
    ) {
        Err(f) => Err(f),
        Ok((Some(n), name)) => if n == 0 {
            faulted(name, "max in-flight per identity must be greater than zero"@)
        } else {
            Ok(Some(n))
        },
        Ok((None, name)) => Ok(
            if public_mode is Some {
                Some(DEFAULT_PUBLIC_MAX_IN_FLIGHT_PER_IDENTITY)
            } else {
                None
            },
        ),
    }
}

pub fn read_identity_fairness(
    public_mode: Option<PublicMode>,
    cli: &EdgeCliConfig,
    env: &Environment,
) -> (r: Result<IdentityFairnessLimiter, EdgeError>)
    ensures
        match (r, per_identity_of(public_mode, *cli, *env)) {
            (Ok(l), Ok(max)) => l.is_fresh(max),
            (Err(e), Err(f)) => e@ == f,
            _ => false,
        },
{
    match given_u64(
        cli.max_in_flight_per_identity,
        "--max-in-flight-per-identity",
        env,
        "OXO_EDGE_MAX_IN_FLIGHT_PER_IDENTITY",
    ) {
        Err(e) => Err(e),
        Ok((Some(n), name)) => if n == 0 {
            Err(blame(name, "max in-flight per identity must be greater than zero"))
        } else {
            Ok(IdentityFairnessLimiter::new(Some(n)))
        },
        Ok((None, _)) => Ok(
            IdentityFairnessLimiter::new(
                if public_mode.is_some() {
                    Some(DEFAULT_PUBLIC_MAX_IN_FLIGHT_PER_IDENTITY)
                } else {
                    None
                },
            ),
        ),
    }
}

/// The cap on requests in flight.
pub open spec fn global_of(
    public_mode: Option<PublicMode>,
    cli: EdgeCliConfig,
    env: Environment,
) -> Result<Option<u64>, Fault> {
    match given_number(
        cli.max_in_flight_requests,
        "--max-in-flight-requests"@,
        env,
        "OXO_EDGE_MAX_IN_FLIGHT_REQUESTS"@,
    ) {
        Err(f) => Err(f),
        Ok((Some(n), name)) => if n == 0 {
            faulted(name, "global max in-flight requests must be greater than zero"@)
        } else {
            Ok(Some(n))
        },
        Ok((None, name)) => if public_mode == Some(PublicMode::SmokeBeta) {
            faulted(
                "OXO_EDGE_MAX_IN_FLIGHT_REQUESTS"@,
                "smoke-beta public mode requires an explicit global request cap"@,
            )
        } else {
            Ok(None)
        },
    }
}

/// The warning that one client can take up the whole global cap, where it can.
pub open spec fn monopoly_warning(global: Option<u64>, per_identity: Option<u64>) -> Option<
    Seq<char>,
> {
    match (global, per_identity) {
        (Some(g), Some(p)) if p >= g => Some(
            "oxo_edge_config_warning OXO_EDGE_MAX_IN_FLIGHT_REQUESTS="@ + decimal(g as nat)
                + " can be monopolized by one identity because max_in_flight_per_identity="@
                + decimal(p as nat) + " is not lower"@,
        ),
        _ => None,
    }
}

/// The cap on requests in flight, with the warning that belongs to it.
pub fn read_global_in_flight(
    public_mode: Option<PublicMode>,
    cli: &EdgeCliConfig,
    env: &Environment,
    per_identity: Option<u64>,
) -> (r: Result<(GlobalInFlightLimiter, Option<String>), EdgeError>)
    ensures
        match (r, global_of(public_mode, *cli, *env)) {
            (Ok((l, warning)), Ok(max)) => l@ == fresh_limiter(max) && opt_view(warning)
                == monopoly_warning(max, per_identity),
            (Err(e), Err(f)) => e@ == f,
            _ => false,
        },
{
    let max: Option<u64> = match given_u64(
        cli.max_in_flight_requests,
        "--max-in-flight-requests",
        env,
        "OXO_EDGE_MAX_IN_FLIGHT_REQUESTS",
    ) {
        Err(e) => return Err(e),
        Ok((Some(n), name)) => {
            if n == 0 {
                return Err(
                    blame(name, "global max in-flight requests must be greater than zero"),
                );
            }
            Some(n)
        },
        Ok((None, _)) => {
            if public_mode == Some(PublicMode::SmokeBeta) {
                return Err(
                    blame(
                        "OXO_EDGE_MAX_IN_FLIGHT_REQUESTS",
                        "smoke-beta public mode requires an explicit global request cap",
                    ),
                );
            }
            None
        },
    };
    let mut warning: Option<String> = None;
    if let (Some(g), Some(p)) = (max, per_identity) {
        if p >= g {
            let mut w: String = owned("oxo_edge_config_warning OXO_EDGE_MAX_IN_FLIGHT_REQUESTS=");
            w.append(decimal_text(g).as_str());
            w.append(" can be monopolized by one identity because max_in_flight_per_identity=");
            w.append(decimal_text(p).as_str());
            w.append(" is not lower");
            warning = Some(w);
        }
    }
    Ok((GlobalInFlightLimiter::new(max), warning))
}

/// `s` without the dots at its end.
pub open spec fn undotted(s: Seq<char>) -> Seq<char>
    decreases s.len(),
{
    if s.len() > 0 && s.last() == '.' {
        undotted(s.drop_last())
    } else {
        s
    }
}

/// A letter, a digit or a hyphen.
pub open spec fn is_label_char(c: char) -> bool {
    ('a' <= c && c <= 'z') || ('A' <= c && c <= 'Z') || ('0' <= c && c <= '9') || c == '-'
}

/// One part of a DNS name.
pub open spec fn is_label(s: Seq<char>) -> bool {
    &&& 1 <= s.len() <= 63
    &&& s[0] != '-'
    &&& s.last() != '-'
    &&& forall|i: int| 0 <= i < s.len() ==> is_label_char(#[trigger] s[i])
}

/// Four decimal numbers of at most 255: an IPv4 literal, whatever its labels look like.
pub open spec fn is_ipv4(labels: Seq<Seq<char>>) -> bool {
    labels.len() == 4 && forall|i: int| 0 <= i < 4 ==> whole(#[trigger] labels[i], 255) is Some
}

/// A DNS name of at least two labels, with or without the dot at its end: so no
/// wildcard, no port, no IP literal, and ASCII only.
pub open spec fn is_fqdn(s: Seq<char>) -> bool {
    let name = undotted(s);
    let labels = split_at_char(name, '.');
    &&& name.len() <= 253
    &&& labels.len() >= 2
    &&& forall|i: int| 0 <= i < labels.len() ==> is_label(#[trigger] labels[i])
    &&& !is_ipv4(labels)
}

proof fn lemma_undotted_at(s: Seq<char>, n: int)
    requires
        0 <= n <= s.len(),
        forall|j: int| n <= j < s.len() ==> s[j] == '.',
        n > 0 ==> s[n - 1] != '.',
    ensures
        undotted(s) == s.take(n),
    decreases s.len(),
{
    if n < s.len() {
        lemma_undotted_at(s.drop_last(), n);
        assert(s.drop_last().take(n) =~= s.take(n));
    } else {
        assert(s.take(n) =~= s);
    }
}

fn check_label(s: &str) -> (r: bool)
    ensures
        r == is_label(s@),
{
    let cs = chars_of(s);
    let n: usize = cs.len();
    if n < 1 || n > 63 || cs[0] == '-' || cs[n - 1] == '-' {
        return false;
    }
    let mut i: usize = 0;
    while i < n
        invariant
            i <= n,
            n == cs@.len(),
            cs@ == s@,
            forall|j: int| 0 <= j < i ==> is_label_char(#[trigger] cs@[j]),
        decreases n - i,
    {
        let c: char = cs[i];
        if !(('a' <= c && c <= 'z') || ('A' <= c && c <= 'Z') || ('0' <= c && c <= '9') || c
            == '-') {
            assert(!is_label_char(s@[i as int]));
            return false;
        }
        i += 1;
    }
    true
}

fn check_ipv4(labels: &Vec<String>) -> (r: bool)
    ensures
        r == is_ipv4(views(labels@)),
{
    let ghost ls = views(labels@);
    if labels.len() != 4 {
        return false;
    }
    let mut i: usize = 0;
    while i < 4
        invariant
            i <= 4,
            labels@.len() == 4,
            ls == views(labels@),
            forall|j: int| 0 <= j < i ==> whole(#[trigger] ls[j], 255) is Some,
        decreases 4 - i,
    {
        assert(ls[i as int] == labels@[i as int]@);
        if parse_whole(labels[i].as_str(), 255).is_none() {
            return false;
        }
        i += 1;
    }
    true
}

/// Whether `value` is a DNS name such as a public edge must have.
pub fn is_single_ascii_fqdn(value: &str) -> (r: bool)
    ensures
        r == is_fqdn(value@),
{
    let cs = chars_of(value);
    let mut n: usize = cs.len();
    while n > 0 && cs[n - 1] == '.'
        invariant
            n <= cs@.len(),
            cs@ == value@,
            forall|j: int| n <= j < cs@.len() ==> cs@[j] == '.',
        decreases n,
    {
        n -= 1;
    }
    proof {
        lemma_undotted_at(value@, n as int);
        assert(value@.subrange(0, n as int) =~= value@.take(n as int));
    }
    if n > 253 {
        return false;
    }
    let labels = split(value.substring_char(0, n), '.');
    let ghost ls = split_at_char(undotted(value@), '.');
    assert(ls == views(labels@));
    assert(ls.len() == labels@.len());
    if labels.len() < 2 {
        return false;
    }
    let mut i: usize = 0;
    while i < labels.len()
        invariant
            i <= labels@.len(),
            ls == views(labels@),
            ls == split_at_char(undotted(value@), '.'),
            forall|j: int| 0 <= j < i ==> is_label(#[trigger] ls[j]),
        decreases labels@.len() - i,
    {
        assert(ls[i as int] == labels@[i as int]@);
        if !check_label(labels[i].as_str()) {
            return false;
        }
        i += 1;
    }
    !check_ipv4(&labels)
}

/// In a public mode the server has a proper name, and its certificate vouches for it;
/// `file` is what reading the certificate gave.
pub open spec fn tls_identity_verdict(
    public_mode: Option<PublicMode>,
    listener: Listening,
    server_name: Seq<char>,
    file: FileReading,
) -> Result<(), Fault> {
    if public_mode is None {
        Ok(())
    } else if !is_fqdn(server_name) {
        faulted(
            "OXO_EDGE_SERVER_NAME"@,
            "public mode requires a single ASCII DNS FQDN without wildcard, port, or IP literal"@,
        )
    } else {
        match listener {
            Listening::Plain => Ok(()),
            Listening::Tls { cert_path, key_path, h2 } => certificate_verdict(
                lossy(cert_path),
                server_name,
                file,
            ),
        }
    }
}

pub fn validate_public_tls_identity(
    public_mode: Option<PublicMode>,
    listener: &ListenerMode,
    server_name: &str,
    file: &FileReading,
) -> (r: Result<(), EdgeError>)
    ensures
        agrees(r, tls_identity_verdict(public_mode, listener@, server_name@, *file)),
{
    if public_mode.is_none() {
        return Ok(());
    }
    if !is_single_ascii_fqdn(server_name) {
        return Err(
            blame(
                "OXO_EDGE_SERVER_NAME",
                "public mode requires a single ASCII DNS FQDN without wildcard, port, or IP literal",
            ),
        );
    }
    match listener {
        ListenerMode::Plain => Ok(()),
        ListenerMode::Tls { cert_path, key_path: _, h2: _ } => validate_tls_certificate_name(
            cert_path.shown().as_str(),
            server_name,
            file,
        ),
    }
}

/// The address of the admin endpoint, which must be private; `reading` is what the text
/// of `OXO_EDGE_ADMIN_BIND` reads as.
pub open spec fn admin_bind_of(
    public_mode: Option<PublicMode>,
    cli: EdgeCliConfig,
    env: Environment,
    reading: AddressReading,
) -> Result<Option<Bind>, Fault> {
    let name = "OXO_EDGE_ADMIN_BIND"@;
    let bind = match cli.admin_bind {
        Some(b) => Ok(Some(b)),
        None => match env.var(name) {
            Var::Text { value } => match reading {
                Err(fault) => Err(bad_address(name, fault@)),
                Ok(b) => Ok(Some(b)),
            },
            Var::Unset => if public_mode == Some(PublicMode::SmokeBeta) {
                faulted(name, "public smoke beta requires private admin health bind"@)
            } else {
                Ok(None)
            },
            Var::Raw { bytes, fault } => faulted(name, fault),
        },
    };
    match bind {
        Ok(Some(b)) if !b.private() => faulted(
            name,
            "private admin health bind must be loopback"@,
        ),
        other => other,
    }
}

pub fn read_admin_bind(
    public_mode: Option<PublicMode>,
    cli: &EdgeCliConfig,
    env: &Environment,
    reading: &AddressReading,
) -> (r: Result<Option<Bind>, EdgeError>)
    ensures
        agrees(r, admin_bind_of(public_mode, *cli, *env, *reading)),
{
    let bind: Bind = match cli.admin_bind {
        Some(b) => b,
        None => match env.get("OXO_EDGE_ADMIN_BIND") {
            EnvVar::Text { value: _ } => match reading {
                Err(fault) => return Err(blame_address("OXO_EDGE_ADMIN_BIND", fault.as_str())),
                Ok(b) => *b,
            },
            EnvVar::Unset => {
                if let Some(mode) = public_mode {
                    if mode.requires_admin_health() {
                        return Err(
                            blame(
                                "OXO_EDGE_ADMIN_BIND",
                                "public smoke beta requires private admin health bind",
                            ),
                        );
                    }
                }
                return Ok(None);
            },
            EnvVar::Raw { bytes: _, fault } => return Err(
                EdgeError::ConfigEnv { name: "OXO_EDGE_ADMIN_BIND", message: fault },
            ),
        },
    };
    if !bind.is_loopback() {
        return Err(blame("OXO_EDGE_ADMIN_BIND", "private admin health bind must be loopback"));
    }
    Ok(Some(bind))
}

/// TLS is on if the address, the certificate or the key on the command line asks for it,
/// and if the environment does where the command line names no address. A listener that
/// does without is plain; one with TLS has both files, and speaks HTTP/2 unless it was
/// told not to.
pub proof fn tls_is_on_if_anything_asks_for_it(
    cli: EdgeCliConfig,
    kind: BindKind,
    env: Environment,
    tls_built: bool,
    cert: Stat,
    key: Stat,
)
    ensures
        ({
            let asked = kind is Https || cli.tls_cert is Some || cli.tls_key is Some;
            let v = env.var("OXO_EDGE_TLS"@);
            let silent = cli.http_bind is None && cli.https_bind is None;
            let r = listener_of(cli, kind, env, tls_built, cert, key);
            let on = asked || (silent && v is Text && spelled(v->value) == Some(true));
            &&& on ==> tls_requested(cli, kind, env) == Ok::<bool, Fault>(true)
            &&& !asked && (!silent || v is Unset || (v is Text && spelled(v->value) == Some(false)))
                ==> tls_requested(cli, kind, env) == Ok::<bool, Fault>(false) && r == Ok::<
                Listening,
                Fault,
            >(Listening::Plain)
            &&& on ==> r != Ok::<Listening, Fault>(Listening::Plain)
            &&& on && !tls_built ==> (r matches Err(f) && blames(f, "OXO_EDGE_TLS"@))
            &&& r matches Ok(Listening::Tls { cert_path, key_path, h2 }) ==> {
                &&& tls_built
                &&& given_path(cli.tls_cert, env, "OXO_EDGE_TLS_CERT"@) == Some(cert_path)
                &&& given_path(cli.tls_key, env, "OXO_EDGE_TLS_KEY"@) == Some(key_path)
                &&& tls_verdict("certificate"@, false, lossy(cert_path), cert) is Ok
                &&& tls_verdict("private key"@, true, lossy(key_path), key) is Ok
                &&& cli.tls_h2 matches Some(b) ==> h2 == b
                &&& cli.tls_h2 is None && env.var("OXO_EDGE_TLS_H2"@) is Unset ==> h2
                &&& cli.tls_h2 is None && env.var("OXO_EDGE_TLS_H2"@) is Text ==> Some(h2)
                    == spelled(env.var("OXO_EDGE_TLS_H2"@)->value)
            }
            &&& on && tls_built && (given_path(cli.tls_cert, env, "OXO_EDGE_TLS_CERT"@) is None
                || given_path(cli.tls_key, env, "OXO_EDGE_TLS_KEY"@) is None) ==> r is Err
        }),
{
}

/// A path is the one on the command line, else the one in the environment.
pub proof fn paths_are_asked_for_in_order(cli: Option<OsPath>, env: Environment, name: Seq<char>)
    ensures
        cli matches Some(p) ==> given_path(cli, env, name) == Some(p@),
        cli is None ==> given_path(cli, env, name) == optional_path(env.var(name)),
{
}

/// On an address that others can reach, the mode that was asked for is granted exactly if
/// the body cap, TLS and the name were given; without a mode the edge stays as it is. On
/// this machine there is no mode, and none of the public settings may be there.
pub proof fn public_mode_is_granted(
    bind: Bind,
    tls: bool,
    cli: EdgeCliConfig,
    env: Environment,
    max_body_explicit: bool,
    server_name_explicit: bool,
    mode: PublicMode,
)
    ensures
        ({
            let r = public_mode_of(bind, tls, cli, env, max_body_explicit, server_name_explicit);
            let name = "OXO_EDGE_PUBLIC_MODE"@;
            let asked = opt_view(cli.public_mode) == Some(mode.text()) || (opt_view(
                cli.public_mode,
            ) == Some("beta"@) && mode is SmokeBeta);
            let earned = max_body_explicit && tls && server_name_explicit;
            &&& !bind.private() && asked ==> (if earned {
                r == Ok::<Option<PublicMode>, Fault>(Some(mode))
            } else {
                r is Err
            })
            &&& !bind.private() && cli.public_mode is None && says_nothing(env.var(name)) ==> r
                == Ok::<Option<PublicMode>, Fault>(None)
            &&& !bind.private() && cli.public_mode is Some && r is Ok ==> r->Ok_0 is Some && (
            cli.public_mode->0@ == r->Ok_0->0.text() || cli.public_mode->0@ == "beta"@)
            &&& bind.private() && r is Ok ==> r->Ok_0 is None && cli.public_mode is None
                && cli.public_identity is None && cli.trusted_proxy_cidrs@.len() == 0
                && !cli.acme_allow_production_directory
            &&& bind.private() && (cli.public_mode is Some || cli.public_identity is Some
                || cli.trusted_proxy_cidrs@.len() > 0 || cli.acme_allow_production_directory) ==> r
                is Err
            &&& bind.private() && nothing_given(cli) && says_nothing(env.var(name)) && says_nothing(
                env.var("OXO_EDGE_PUBLIC_IDENTITY"@),
            ) && says_nothing(env.var("OXO_EDGE_TRUSTED_PROXY_CIDRS"@)) && env.var(
                "OXO_EDGE_ACME_ALLOW_PRODUCTION_DIRECTORY"@,
            ) is Unset ==> r == Ok::<Option<PublicMode>, Fault>(None)
        }),
{
    reveal_strlit("alpha");
    reveal_strlit("beta");
    reveal_strlit("smoke-beta");
    assert("alpha"@.len() == 5 && "beta"@.len() == 4 && "smoke-beta"@.len() == 10);
    texts_are_asked_for_in_order(
        opt_view(cli.public_mode),
        "OXO_EDGE_PUBLIC_MODE"@,
        env,
        "OXO_EDGE_PUBLIC_MODE"@,
    );
    texts_are_asked_for_in_order(None, ""@, env, "OXO_EDGE_PUBLIC_MODE"@);
    texts_are_asked_for_in_order(None, ""@, env, "OXO_EDGE_PUBLIC_IDENTITY"@);
    texts_are_asked_for_in_order(None, ""@, env, "OXO_EDGE_TRUSTED_PROXY_CIDRS"@);
}

/// A client is taken to be the address that connects, unless the operator of a public edge
/// trusts a proxy; then the networks are the ones that were given, whole and in order, and
/// nothing may be wrong with them. A public edge has to be told which of the two it is.
pub proof fn identity_is_what_was_asked_for(
    mode: PublicMode,
    cli: EdgeCliConfig,
    env: Environment,
    cidr_fault: Option<Seq<char>>,
)
    ensures
        identity_of(None, cli, env, cidr_fault) == Ok::<Identity, Fault>(Identity::DirectPublic),
        opt_view(cli.public_identity) == Some("direct-public"@) ==> identity_of(
            Some(mode),
            cli,
            env,
            cidr_fault,
        ) == Ok::<Identity, Fault>(Identity::DirectPublic),
        opt_view(cli.public_identity) == Some("trusted-proxy"@) && cli.trusted_proxy_cidrs@.len()
            > 0 ==> (match cidr_fault {
            None => identity_of(Some(mode), cli, env, cidr_fault) == Ok::<Identity, Fault>(
                Identity::TrustedProxy { cidrs: views(cli.trusted_proxy_cidrs@) },
            ),
            Some(_) => identity_of(Some(mode), cli, env, cidr_fault) is Err,
        }),
        cli.public_identity is None && says_nothing(env.var("OXO_EDGE_PUBLIC_IDENTITY"@))
            ==> identity_of(Some(mode), cli, env, cidr_fault) is Err,
        cli.trusted_proxy_cidrs@.len() == 0 && says_nothing(
            env.var("OXO_EDGE_TRUSTED_PROXY_CIDRS"@),
        ) ==> cidrs_of(cli, env) == Ok::<Seq<Seq<char>>, Fault>(Seq::empty()),
{
    reveal_strlit("direct-public");
    reveal_strlit("trusted-proxy");
    assert("direct-public"@[0] == 'd' && "trusted-proxy"@[0] == 't');
    texts_are_asked_for_in_order(
        opt_view(cli.public_identity),
        "OXO_EDGE_PUBLIC_IDENTITY"@,
        env,
        "OXO_EDGE_PUBLIC_IDENTITY"@,
    );
    texts_are_asked_for_in_order(None, ""@, env, "OXO_EDGE_TRUSTED_PROXY_CIDRS"@);
}

/// The caps on requests in flight are what was asked for. Left open, a client of a public
/// edge has sixty-four, nobody else is capped, and a smoke beta does not start.
pub proof fn in_flight_caps_are_what_was_asked_for(
    mode: Option<PublicMode>,
    cli: EdgeCliConfig,
    env: Environment,
    n: u64,
    g: u64,
    p: u64,
)
    ensures
        ({
            let name = "OXO_EDGE_MAX_IN_FLIGHT_PER_IDENTITY"@;
            let r = per_identity_of(mode, cli, env);
            &&& asked_for(cli.max_in_flight_per_identity, env, name, n) ==> (if n > 0 {
                r == Ok::<Option<u64>, Fault>(Some(n))
            } else {
                r is Err
            })
            &&& left_open(cli.max_in_flight_per_identity, env, name) ==> r == Ok::<
                Option<u64>,
                Fault,
            >(
                if mode is Some {
                    Some(64u64)
                } else {
                    None
                },
            )
        }),
        ({
            let name = "OXO_EDGE_MAX_IN_FLIGHT_REQUESTS"@;
            let r = global_of(mode, cli, env);
            &&& asked_for(cli.max_in_flight_requests, env, name, n) ==> (if n > 0 {
                r == Ok::<Option<u64>, Fault>(Some(n))
            } else {
                r is Err
            })
            &&& left_open(cli.max_in_flight_requests, env, name) ==> (if mode == Some(
                PublicMode::SmokeBeta,
            ) {
                r is Err
            } else {
                r == Ok::<Option<u64>, Fault>(None)
            })
        }),
        monopoly_warning(Some(g), Some(p)) is Some <==> p >= g,
        monopoly_warning(None, Some(p)) is None,
        monopoly_warning(Some(g), None) is None,
{
    numbers_are_asked_for_in_order(
        cli.max_in_flight_per_identity,
        "--max-in-flight-per-identity"@,
        env,
        "OXO_EDGE_MAX_IN_FLIGHT_PER_IDENTITY"@,
        1,
        n,
    );
    numbers_are_asked_for_in_order(
        cli.max_in_flight_requests,
        "--max-in-flight-requests"@,
        env,
        "OXO_EDGE_MAX_IN_FLIGHT_REQUESTS"@,
        1,
        n,
    );
}

/// The admin endpoint is reached from this machine or not at all, at the address on the
/// command line, else at the one in the environment; only a smoke beta must have it.
pub proof fn the_admin_endpoint_is_private(
    mode: Option<PublicMode>,
    cli: EdgeCliConfig,
    env: Environment,
    reading: AddressReading,
)
    ensures
        ({
            let r = admin_bind_of(mode, cli, env, reading);
            let v = env.var("OXO_EDGE_ADMIN_BIND"@);
            &&& r matches Ok(Some(b)) ==> b.private() && (if cli.admin_bind is Some {
                cli.admin_bind == Some(b)
            } else {
                reading == Ok::<Bind, String>(b)
            })
            &&& cli.admin_bind matches Some(b) ==> (r is Ok <==> b.private())
            &&& cli.admin_bind is None && v is Unset ==> (r is Err <==> mode == Some(
                PublicMode::SmokeBeta,
            ))
            &&& cli.admin_bind is None && v is Unset && r is Ok ==> r->Ok_0 is None
            &&& cli.admin_bind is None && v is Text && reading is Ok ==> (r is Ok
                <==> reading->Ok_0.private())
            &&& r matches Ok(None) ==> cli.admin_bind is None && v is Unset
        }),
{
}

/// The dot at the end of a name does not count.
pub proof fn the_last_dot_does_not_count(s: Seq<char>)
    ensures
        is_fqdn(s.push('.')) == is_fqdn(s),
{
    assert(s.push('.').drop_last() =~= s);
}

/// A proper name is made of letters, digits, hyphens and the dots between its labels, of
/// which there are at least two: there is no wildcard, no port and no blank in it, and no
/// label is longer than sixty-three or begins or ends with a hyphen.
pub proof fn proper_names_hold_labels_only(s: Seq<char>, i: int)
    requires
        is_fqdn(s),
        0 <= i < s.len(),
    ensures
        s[i] == '.' || s[i] == '-' || ('0' <= s[i] && s[i] <= '9') || ('a' <= lower_char(s[i])
            && lower_char(s[i]) <= 'z'),
        s.contains('.'),
        undotted(s).len() <= 253,
{
    lemma_undotted_keeps(s);
    let name = undotted(s);
    lemma_pieces_cover(name, '.');
    if i < name.len() {
        assert(s[i] == name[i]);
        if name[i] != '.' {
            let k = choose|k: int|
                0 <= k < split_at_char(name, '.').len() && (#[trigger] split_at_char(
                    name,
                    '.',
                )[k]).contains(name[i]);
            let label = split_at_char(name, '.')[k];
            let j = choose|j: int| 0 <= j < label.len() && label[j] == name[i];
            assert(is_label(label));
            assert(is_label_char(label[j]));
        }
    } else {
        assert(s[i] == '.');
    }
    if !name.contains('.') {
        pieces_of_joined_texts(name, name, '.');
        assert(split_at_char(name, '.').len() == 1);
    } else {
        let j = choose|j: int| 0 <= j < name.len() && name[j] == '.';
        assert(s[j] == '.');
    }
}

proof fn lemma_undotted_keeps(s: Seq<char>)
    ensures
        undotted(s).len() <= s.len(),
        undotted(s) == s.take(undotted(s).len() as int),
        forall|j: int| undotted(s).len() <= j < s.len() ==> #[trigger] s[j] == '.',
    decreases s.len(),
{
    if s.len() > 0 && s.last() == '.' {
        let t = s.drop_last();
        lemma_undotted_keeps(t);
        assert(undotted(s) =~= s.take(undotted(s).len() as int));
        assert forall|j: int| undotted(s).len() <= j < s.len() implies #[trigger] s[j] == '.' by {
            if j < t.len() {
                assert(t[j] == s[j]);
            }
        }
    } else {
        assert(s.take(s.len() as int) =~= s);
    }
}

proof fn lemma_pieces_cover(s: Seq<char>, c: char)
    ensures
        forall|i: int|
            0 <= i < s.len() && #[trigger] s[i] != c ==> exists|k: int|
                0 <= k < split_at_char(s, c).len() && (#[trigger] split_at_char(s, c)[k]).contains(
                    s[i],
                ),
    decreases s.len(),
{
    let f = first(s, c);
    lemma_first_range(s, c);
    if f < s.len() {
        let rest = s.skip(f + 1);
        lemma_pieces_cover(rest, c);
        assert forall|i: int| 0 <= i < s.len() && #[trigger] s[i] != c implies exists|k: int|
            0 <= k < split_at_char(s, c).len() && (#[trigger] split_at_char(s, c)[k]).contains(
                s[i],
            ) by {
            if i < f {
                assert(split_at_char(s, c)[0] == s.take(f));
                assert(s.take(f)[i] == s[i]);
            } else {
                assert(rest[i - f - 1] == s[i]);
                let k = choose|k: int|
                    0 <= k < split_at_char(rest, c).len() && (#[trigger] split_at_char(
                        rest,
                        c,
                    )[k]).contains(rest[i - f - 1]);
                assert(split_at_char(s, c)[k + 1] == split_at_char(rest, c)[k]);
            }
        }
    } else {
        assert forall|i: int| 0 <= i < s.len() && #[trigger] s[i] != c implies exists|k: int|
            0 <= k < split_at_char(s, c).len() && (#[trigger] split_at_char(s, c)[k]).contains(
                s[i],
            ) by {
            assert(split_at_char(s, c)[0] == s);
        }
    }
}

/// A label before a proper name makes a longer one; two labels make one unless they are
/// numbers alone; one label makes none; and no four numbers do.
pub proof fn proper_names_grow_by_labels(label: Seq<char>, s: Seq<char>, n: Seq<nat>)
    requires
        is_label(label),
        s.len() > 0,
        s.last() != '.',
    ensures
        is_fqdn(s) && label.len() + 1 + s.len() <= 253 && !is_digits(label) ==> is_fqdn(
            label + seq!['.'] + s,
        ),
        is_label(s) && label.len() + 1 + s.len() <= 253 ==> is_fqdn(label + seq!['.'] + s),
        !is_fqdn(label),
        n.len() == 4 && n[0] <= 255 && n[1] <= 255 && n[2] <= 255 && n[3] <= 255 ==> !is_fqdn(
            decimal(n[0]) + seq!['.'] + (decimal(n[1]) + seq!['.'] + (decimal(n[2]) + seq!['.']
                + decimal(n[3]))),
        ),
{
    let long = label + seq!['.'] + s;
    assert(undotted(s) == s);
    assert(long.last() == s.last());
    assert(undotted(long) == long);
    assert forall|j: int| 0 <= j < label.len() implies label[j] != '.' by {
        assert(is_label_char(label[j]));
    }
    pieces_of_joined_texts(label, s, '.');
    let ls = split_at_char(s, '.');
    let all = split_at_char(long, '.');
    assert(all == seq![label] + ls);
    assert(undotted(label) == label) by {
        assert(label.last() == label[label.len() - 1]);
    }
    if is_fqdn(s) && label.len() + 1 + s.len() <= 253 && !is_digits(label) {
        assert forall|i: int| 0 <= i < all.len() implies is_label(#[trigger] all[i]) by {
            if i > 0 {
                assert(all[i] == ls[i - 1]);
            }
        }
        assert(whole(all[0], 255) is None) by {
            assert(all[0] == label);
            assert(is_label_char(label[0]));
            assert(unsigned(label) == label);
        }
    }
    if is_label(s) {
        assert forall|j: int| 0 <= j < s.len() implies s[j] != '.' by {
            assert(is_label_char(s[j]));
        }
        pieces_of_joined_texts(s, s, '.');
        assert(all.len() == 2);
        assert(all[0] == label && all[1] == s);
    }
    if n.len() == 4 && n[0] <= 255 && n[1] <= 255 && n[2] <= 255 && n[3] <= 255 {
        let d0 = decimal(n[0]);
        let d1 = decimal(n[1]);
        let d2 = decimal(n[2]);
        let d3 = decimal(n[3]);
        numbers_are_read_back(n[0], 255);
        numbers_are_read_back(n[1], 255);
        numbers_are_read_back(n[2], 255);
        numbers_are_read_back(n[3], 255);
        lemma_no_dot(d0);
        lemma_no_dot(d1);
        lemma_no_dot(d2);
        lemma_no_dot(d3);
        let t2 = d2 + seq!['.'] + d3;
        let t1 = d1 + seq!['.'] + t2;
        let t0 = d0 + seq!['.'] + t1;
        pieces_of_joined_texts(d2, d3, '.');
        pieces_of_joined_texts(d3, d3, '.');
        pieces_of_joined_texts(d1, t2, '.');
        pieces_of_joined_texts(d0, t1, '.');
        assert(t0.last() == d3.last());
        assert(d3.last() != '.') by {
            assert('0' <= d3[d3.len() - 1]);
        }
        assert(undotted(t0) == t0);
        let labels = split_at_char(t0, '.');
        assert(labels =~= seq![d0, d1, d2, d3]);
        assert(is_ipv4(labels));
    }
}

proof fn lemma_no_dot(d: Seq<char>)
    requires
        is_digits(d),
    ensures
        !d.contains('.'),
{
    if d.contains('.') {
        let j = choose|j: int| 0 <= j < d.len() && d[j] == '.';
        assert('0' <= d[j]);
    }
}

/// A label has one to sixty-three letters, digits and hyphens, and a hyphen neither first
/// nor last.
pub proof fn labels_are_bounded(s: Seq<char>)
    ensures
        is_label(s) <==> {
            &&& s.len() > 0
            &&& s.len() < 64
            &&& s.first() != '-'
            &&& s.last() != '-'
            &&& forall|i: int|
                0 <= i < s.len() ==> {
                    ||| #[trigger] s[i] == '-'
                    ||| '0' <= s[i] && s[i] <= '9'
                    ||| 'a' <= lower_char(s[i]) && lower_char(s[i]) <= 'z'
                }
        },
{
    assert forall|c: char| #[trigger] is_label_char(c) <==> {
        ||| c == '-'
        ||| '0' <= c && c <= '9'
        ||| 'a' <= lower_char(c) && lower_char(c) <= 'z'
    } by {}
    if is_label(s) {
        assert forall|i: int| 0 <= i < s.len() implies {
            ||| #[trigger] s[i] == '-'
            ||| '0' <= s[i] && s[i] <= '9'
            ||| 'a' <= lower_char(s[i]) && lower_char(s[i]) <= 'z'
        } by {
            assert(is_label_char(s[i]));
        }
    }
}

/// Where there is a public mode, the name of the server is a proper one and TLS means that
/// the certificate vouches for it; without one neither is looked at.
pub proof fn public_servers_have_proper_names(
    mode: Option<PublicMode>,
    listener: Listening,
    name: Seq<char>,
    file: FileReading,
)
    ensures
        mode is None ==> tls_identity_verdict(mode, listener, name, file) is Ok,
        mode is Some && tls_identity_verdict(mode, listener, name, file) is Ok ==> is_fqdn(name),
        mode is Some && is_fqdn(name) && listener is Plain ==> tls_identity_verdict(
            mode,
            listener,
            name,
            file,
        ) is Ok,
        mode is Some && is_fqdn(name) && listener is Tls ==> (tls_identity_verdict(
            mode,
            listener,
            name,
            file,
        ) is Ok <==> certificate_verdict(lossy(listener->cert_path), name, file) is Ok),
{
}

} // verus!
