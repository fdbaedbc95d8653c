//! Serving a Rails application: one flag that sets the posture and derives the static
//! mounts from the application's directory.
use vstd::prelude::*;
use vstd::utf8::encode_utf8;

use crate::cli::EdgeCliConfig;
use crate::config::{listed, read_list};
use crate::env::{is_blank, optional_path, optional_path_env, EnvVar, Environment, Var};
use crate::error::{blames, faulted, EdgeError, Fault};
use crate::os_path::{copy_path, joined, lossy, opt_path, OsPath};
use crate::text::{decimal, decimal_text, opt_view, owned, split_at_char, trim, trimmed, views};
use crate::worker_response::TextPair;

verus! {

/// The root of the application: the command line comes first, and an empty variable
/// counts as not there.
pub fn resolve_serve_rails(cli_value: Option<OsPath>, env: &Environment) -> (r: Option<OsPath>)
    ensures
        opt_path(r) == (match cli_value {
            Some(p) => Some(p@),
            None => optional_path(env.var("OXO_EDGE_SERVE_RAILS"@)),
        }),
{
    match cli_value {
        Some(p) => Some(p),
        None => optional_path_env(env, "OXO_EDGE_SERVE_RAILS"),
    }
}

/// What looks at the application's directories gave, with symbolic links followed.
#[derive(Clone, Copy, Debug, PartialEq, Eq, Structural)]
pub struct RailsLayout {
    pub root_is_dir: bool,
    pub public_exists: bool,
    pub public_is_dir: bool,
    pub assets_is_dir: bool,
}

/// What the flag comes to. No `static_dir` means that no files are served; without
/// `static_assets` there is no strict mount for assets.
#[derive(Debug, PartialEq, Eq)]
pub struct ServeRailsPlan {
    pub root: OsPath,
    pub static_dir: Option<OsPath>,
    pub static_assets: bool,
    pub static_overridden: bool,
}

/// What the flag comes to, as values.
pub ghost struct RailsPlan {
    pub root: Seq<u8>,
    pub static_dir: Option<Seq<u8>>,
    pub static_assets: bool,
    pub static_overridden: bool,
}

impl View for ServeRailsPlan {
    type V = RailsPlan;

    open spec fn view(&self) -> RailsPlan {
        RailsPlan {
            root: self.root@,
            static_dir: opt_path(self.static_dir),
            static_assets: self.static_assets,
            static_overridden: self.static_overridden,
        }
    }
}

impl RailsPlan {
    /// The directory that is served, for a report.
    pub open spec fn descriptor(self) -> Seq<char> {
        match self.static_dir {
            Some(dir) => lossy(dir),
            None => "off"@,
        }
    }
}

impl ServeRailsPlan {
    pub fn static_descriptor(&self) -> (r: String)
        ensures
            r@ == self@.descriptor(),
    {
        match &self.static_dir {
            Some(dir) => dir.shown(),
            None => owned("off"),
        }
    }
}

/// The posture that the readiness report tells of.
#[derive(Debug, PartialEq, Eq)]
pub struct ServeRailsPosture {
    pub active: bool,
    pub static_descriptor: String,
}

impl Default for ServeRailsPosture {
    fn default() -> (p: ServeRailsPosture)
        ensures
            !p.active,
            p.static_descriptor@ == "off"@,
    {
        ServeRailsPosture { active: false, static_descriptor: owned("off") }
    }
}

/// The public directory of an application.
pub open spec fn public_of(root: Seq<u8>) -> Seq<u8> {
    joined(root, encode_utf8("public"@))
}

/// The assets inside a public directory.
pub open spec fn assets_of(public: Seq<u8>) -> Seq<u8> {
    joined(public, encode_utf8("assets"@))
}

/// The plan and its warning, if there is one. The root is looked at whatever else is
/// given; what is derived degrades with a warning, and only a broken layout is refused.
pub open spec fn rails_plan_of(
    root: Seq<u8>,
    explicit: Option<Seq<u8>>,
    layout: RailsLayout,
) -> Result<(RailsPlan, Option<Seq<char>>), Fault> {
    let public = public_of(root);
    if !layout.root_is_dir {
        faulted(
            "--serve-rails"@,
            "app root "@ + lossy(root)
                + " is missing or not a directory; point --serve-rails at the Rails application root (the directory that contains public/)"@,
        )
    } else if explicit is Some {
        Ok(
            (
                RailsPlan {
                    root,
                    static_dir: explicit,
                    static_assets: true,
                    static_overridden: true,
                },
                None,
            ),
        )
    } else if !layout.public_exists {
        Ok(
            (
                RailsPlan { root, static_dir: None, static_assets: false, static_overridden: false },
                Some(
                    "oxo_edge_config_warning no static asset directory at "@ + lossy(public)
                        + "; static serving off (--serve-rails); restart the edge after creating it"@,
                ),
            ),
        )
    } else if !layout.public_is_dir {
        faulted(
            "--serve-rails"@,
            lossy(public)
                + " exists but is not a directory; --serve-rails derives the static docroot from <root>/public"@,
        )
    } else {
        Ok(
            (
                RailsPlan {
                    root,
                    static_dir: Some(public),
                    static_assets: layout.assets_is_dir,
                    static_overridden: false,
                },
                if layout.assets_is_dir {
                    None
                } else {
                    Some(
                        "oxo_edge_config_warning no "@ + lossy(assets_of(public))
                            + " directory; serving "@ + lossy(public)
                            + " without the immutable /assets mount (run assets:precompile and restart to enable it)"@,
                    )
                },
            ),
        )
    }
}

pub fn plan_serve_rails(
    root: OsPath,
    explicit_static_dir: &Option<OsPath>,
    layout: RailsLayout,
) -> (r: Result<(ServeRailsPlan, Option<String>), EdgeError>)
    ensures
        match (r, rails_plan_of(root@, opt_path(*explicit_static_dir), layout)) {
            (Ok((a, x)), Ok((b, y))) => a@ == b && opt_view(x) == y,
            (Err(e), Err(f)) => e@ == f,
            _ => false,
        },
{
    if !layout.root_is_dir {
        let mut message: String = owned("app root ");
        message.append(root.shown().as_str());
        message.append(
            " is missing or not a directory; point --serve-rails at the Rails application root (the directory that contains public/)",
        );
        return Err(EdgeError::ConfigEnv { name: "--serve-rails", message });
    }
    if explicit_static_dir.is_some() {
        let static_dir = copy_path(explicit_static_dir);
        return Ok(
            (
                ServeRailsPlan { root, static_dir, static_assets: true, static_overridden: true },
                None,
            ),
        );
    }
    let public = root.join("public");
    if !layout.public_exists {
        let mut warning: String = owned("oxo_edge_config_warning no static asset directory at ");
        warning.append(public.shown().as_str());
        warning.append(
            "; static serving off (--serve-rails); restart the edge after creating it",
        );
        return Ok(
            (
                ServeRailsPlan {
                    root,
                    static_dir: None,
                    static_assets: false,
                    static_overridden: false,
                },
                Some(warning),
            ),
        );
    }
    if !layout.public_is_dir {
        let mut message: String = public.shown();
        message.append(
            " exists but is not a directory; --serve-rails derives the static docroot from <root>/public",
        );
        return Err(EdgeError::ConfigEnv { name: "--serve-rails", message });
    }
    let mut warning: Option<String> = None;
    if !layout.assets_is_dir {
        let mut w: String = owned("oxo_edge_config_warning no ");
        w.append(public.join("assets").shown().as_str());
        w.append(" directory; serving ");
        w.append(public.shown().as_str());
        w.append(
            " without the immutable /assets mount (run assets:precompile and restart to enable it)",
        );
        warning = Some(w);
    }
    Ok(
        (
            ServeRailsPlan {
                root,
                static_dir: Some(public),
                static_assets: layout.assets_is_dir,
                static_overridden: false,
            },
            warning,
        ),
    )
}

/// The static directory that the operator named.
pub open spec fn rails_preset_of(cli: EdgeCliConfig, env: Environment) -> Result<
    Option<Seq<u8>>,
    Fault,
> {
    let name = "OXO_EDGE_STATIC_RAILS_PRESET"@;
    match cli.static_rails_preset {
        Some(p) => Ok(Some(p@)),
        None => match env.var(name) {
            Var::Text { value } => Ok(
                if trimmed(value).len() == 0 {
                    None
                } else {
                    Some(encode_utf8(trimmed(value)))
                },
            ),
            Var::Unset => Ok(None),
            Var::Raw { bytes, fault } => faulted(name, fault),
        },
    }
}

pub fn read_static_rails_preset(cli: &EdgeCliConfig, env: &Environment) -> (r: Result<
    Option<OsPath>,
    EdgeError,
>)
    ensures
        match (r, rails_preset_of(*cli, *env)) {
            (Ok(a), Ok(b)) => opt_path(a) == b,
            (Err(e), Err(f)) => e@ == f,
            _ => false,
        },
{
    match &cli.static_rails_preset {
        Some(p) => Ok(Some(p.copy())),
        None => match env.get("OXO_EDGE_STATIC_RAILS_PRESET") {
            EnvVar::Text { value } => if is_blank(value.as_str()) {
                Ok(None)
            } else {
                Ok(Some(OsPath::from_text(trim(value.as_str()))))
            },
            EnvVar::Unset => Ok(None),
            EnvVar::Raw { bytes: _, fault } => Err(
                EdgeError::ConfigEnv { name: "OXO_EDGE_STATIC_RAILS_PRESET", message: fault },
            ),
        },
    }
}

/// A mount to be parsed, with the setting to blame when it cannot be.
pub struct MountText {
    pub spec: String,
    pub source: &'static str,
}

/// The texts of mounts, each with its source.
pub open spec fn mount_views(v: Seq<MountText>) -> Seq<TextPair> {
    v.map_values(|m: MountText| (m.spec@, m.source@))
}

/// Texts that all come from one setting.
pub open spec fn all_from(texts: Seq<Seq<char>>, source: Seq<char>) -> Seq<TextPair> {
    texts.map_values(|t: Seq<char>| (t, source))
}

/// The mounts that the operator spelled out.
pub open spec fn written_mounts(cli: EdgeCliConfig, env: Environment) -> Result<
    Seq<TextPair>,
    Fault,
> {
    let name = "OXO_EDGE_STATIC_MOUNTS"@;
    if cli.static_mounts@.len() > 0 {
        Ok(all_from(views(cli.static_mounts@), name))
    } else {
        match env.var(name) {
            Var::Text { value } => Ok(all_from(listed(split_at_char(value, ';')), name)),
            Var::Unset => Ok(Seq::empty()),
            Var::Raw { bytes, fault } => faulted(name, fault),
        }
    }
}

/// The directory to derive mounts from, whether it has assets, and who is to blame: the
/// directory that the operator named, else that of the plan.
pub open spec fn mount_base(preset: Option<Seq<u8>>, plan: Option<RailsPlan>) -> Option<
    (Seq<u8>, bool, Seq<char>),
> {
    match (preset, plan) {
        (Some(dir), _) => Some((dir, true, "--static-rails-preset"@)),
        (None, Some(plan)) => match plan.static_dir {
            Some(dir) if !plan.static_overridden => Some(
                (dir, plan.static_assets, "--serve-rails"@),
            ),
            _ => None,
        },
        (None, None) => None,
    }
}

/// The mounts that are derived: assets, which are fingerprinted, strictly and for good;
/// then everything, falling through to the application.
pub open spec fn derived_mounts(base: Option<(Seq<u8>, bool, Seq<char>)>) -> Seq<TextPair> {
    match base {
        None => Seq::empty(),
        Some((dir, assets, source)) => (if assets {
            seq![
                (
                    "/assets="@ + lossy(dir)
                        + "/assets,cache-control=public%2Cmax-age=31536000%2Cimmutable"@,
                    source,
                ),
            ]
        } else {
            Seq::empty()
        }) + seq![("/="@ + lossy(dir) + ",fallthrough"@, source)],
    }
}

/// All mounts, in order.
pub open spec fn mounts_of(
    cli: EdgeCliConfig,
    env: Environment,
    preset: Option<Seq<u8>>,
    plan: Option<RailsPlan>,
) -> Result<Seq<TextPair>, Fault> {
    match written_mounts(cli, env) {
        Err(f) => Err(f),
        Ok(written) => Ok(written + derived_mounts(mount_base(preset, plan))),
    }
}

/// The values of an optional plan.
pub open spec fn opt_plan(p: Option<ServeRailsPlan>) -> Option<RailsPlan> {
    match p {
        Some(p) => Some(p@),
        None => None,
    }
}

fn from_texts(texts: &Vec<String>) -> (r: Vec<MountText>)
    ensures
        mount_views(r@) == all_from(views(texts@), "OXO_EDGE_STATIC_MOUNTS"@),
{
    let ghost all = all_from(views(texts@), "OXO_EDGE_STATIC_MOUNTS"@);
    let mut out: Vec<MountText> = Vec::new();
    let mut i: usize = 0;
    while i < texts.len()
        invariant
            i <= texts@.len(),
            all == all_from(views(texts@), "OXO_EDGE_STATIC_MOUNTS"@),
            mount_views(out@) =~= all.take(i as int),
        decreases texts@.len() - i,
    {
        let ghost done = out@;
        out.push(MountText { spec: owned(texts[i].as_str()), source: "OXO_EDGE_STATIC_MOUNTS" });
        assert(mount_views(out@) =~= mount_views(done).push(
            (texts@[i as int]@, "OXO_EDGE_STATIC_MOUNTS"@),
        ));
        assert(all[i as int] == (texts@[i as int]@, "OXO_EDGE_STATIC_MOUNTS"@));
        i += 1;
    }
    assert(all.take(i as int) =~= all);
    out
}

fn read_written_mounts(cli: &EdgeCliConfig, env: &Environment) -> (r: Result<
    Vec<MountText>,
    EdgeError,
>)
    ensures
        match (r, written_mounts(*cli, *env)) {
            (Ok(a), Ok(b)) => mount_views(a@) == b,
            (Err(e), Err(f)) => e@ == f,
            _ => false,
        },
{
    if cli.static_mounts.len() > 0 {
        return Ok(from_texts(&cli.static_mounts));
    }
    match env.get("OXO_EDGE_STATIC_MOUNTS") {
        EnvVar::Text { value } => Ok(from_texts(&read_list(value.as_str(), ';'))),
        EnvVar::Unset => {
            let none: Vec<MountText> = Vec::new();
            assert(mount_views(none@) =~= Seq::<TextPair>::empty());
            Ok(none)
        },
        EnvVar::Raw { bytes: _, fault } => Err(
            EdgeError::ConfigEnv { name: "OXO_EDGE_STATIC_MOUNTS", message: fault },
        ),
    }
}

fn push_derived(out: &mut Vec<MountText>, dir: &OsPath, assets: bool, source: &'static str)
    ensures
        mount_views(final(out)@) == mount_views(old(out)@) + derived_mounts(
            Some((dir@, assets, source@)),
        ),
{
    let ghost before = out@;
    if assets {
        let mut spec: String = owned("/assets=");
        spec.append(dir.shown().as_str());
        spec.append("/assets,cache-control=public%2Cmax-age=31536000%2Cimmutable");
        out.push(MountText { spec, source });
    }
    let mut spec: String = owned("/=");
    spec.append(dir.shown().as_str());
    spec.append(",fallthrough");
    out.push(MountText { spec, source });
    assert(mount_views(out@) =~= mount_views(before) + derived_mounts(
        Some((dir@, assets, source@)),
    ));
}

/// The mounts to be parsed: those that the operator spelled out, then those derived.
pub fn read_static_mounts(
    cli: &EdgeCliConfig,
    env: &Environment,
    rails_preset: &Option<OsPath>,
    serve_rails: &Option<ServeRailsPlan>,
) -> (r: Result<Vec<MountText>, EdgeError>)
    ensures
        match (r, mounts_of(*cli, *env, opt_path(*rails_preset), opt_plan(*serve_rails))) {
            (Ok(a), Ok(b)) => mount_views(a@) == b,
            (Err(e), Err(f)) => e@ == f,
            _ => false,
        },
{
    let mut out: Vec<MountText> = match read_written_mounts(cli, env) {
        Err(e) => return Err(e),
        Ok(v) => v,
    };
    assert(mount_views(out@) + Seq::<TextPair>::empty() =~= mount_views(out@));
    if let Some(dir) = rails_preset {
        push_derived(&mut out, dir, true, "--static-rails-preset");
    } else if let Some(plan) = serve_rails {
        if let Some(dir) = &plan.static_dir {
            if !plan.static_overridden {
                push_derived(&mut out, dir, plan.static_assets, "--serve-rails");
            }
        }
    }
    Ok(out)
}

/// A plan that serves files derives a mount for everything, which falls through; nothing
/// is derived from a plan that serves none.
pub proof fn plans_derive_a_fallthrough_root(plan: RailsPlan)
    ensures
        plan.static_dir matches Some(dir) ==> (!plan.static_overridden ==> derived_mounts(
            mount_base(None, Some(plan)),
        ).last() == ("/="@ + lossy(dir) + ",fallthrough"@, "--serve-rails"@)),
        plan.static_dir is None || plan.static_overridden ==> derived_mounts(
            mount_base(None, Some(plan)),
        ).len() == 0,
{
}

/// The texts of mounts with bars between them.
pub open spec fn mount_row(mounts: Seq<TextPair>) -> Seq<char>
    decreases mounts.len(),
{
    if mounts.len() == 0 {
        Seq::empty()
    } else if mounts.len() == 1 {
        mounts[0].0
    } else {
        mount_row(mounts.drop_last()) + " | "@ + mounts.last().0
    }
}

/// The line of the boot report that shows the mounts.
pub open spec fn mounts_line(mounts: Seq<TextPair>) -> Seq<char> {
    if mounts.len() == 0 {
        "oxo_edge_config_notice static-mounts: (none)"@
    } else {
        "oxo_edge_config_notice static-mounts: "@ + decimal(mounts.len()) + " mount(s): "@
            + mount_row(mounts)
    }
}

pub fn mounts_notice(mounts: &Vec<MountText>) -> (r: String)
    ensures
        r@ == mounts_line(mount_views(mounts@)),
{
    let ghost ms = mount_views(mounts@);
    if mounts.len() == 0 {
        return owned("oxo_edge_config_notice static-mounts: (none)");
    }
    let mut row: String = String::new();
    let mut i: usize = 0;
    assert(ms.take(0) =~= Seq::<TextPair>::empty());
    assert(row@ =~= Seq::<char>::empty());
    while i < mounts.len()
        invariant
            i <= mounts@.len(),
            ms == mount_views(mounts@),
            row@ == mount_row(ms.take(i as int)),
        decreases mounts@.len() - i,
    {
        let ghost done = row@;
        assert(ms.take(i + 1).drop_last() =~= ms.take(i as int));
        assert(ms[i as int].0 == mounts@[i as int].spec@);
        if i > 0 {
            row.append(" | ");
        }
        row.append(mounts[i].spec.as_str());
        proof {
            if i == 0 {
                assert(done + ms[0].0 =~= ms[0].0);
            }
        }
        i += 1;
    }
    assert(ms.take(i as int) =~= ms);
    let mut line: String = owned("oxo_edge_config_notice static-mounts: ");
    line.append(decimal_text(mounts.len() as u64).as_str());
    line.append(" mount(s): ");
    line.append(row.as_str());
    line
}

/// A plan follows the layout of the application. It is refused if the root is no
/// directory, or if files would have to come from a public directory that is something
/// else; a directory that the operator named is taken as it is; otherwise files come from
/// the public directory where there is one, with assets where there are some, and a
/// warning is given for whatever is missing.
pub proof fn plans_follow_the_layout(root: Seq<u8>, explicit: Option<Seq<u8>>, layout: RailsLayout)
    ensures
        ({
            let r = rails_plan_of(root, explicit, layout);
            let derived = explicit is None;
            &&& r is Err <==> !layout.root_is_dir || (derived && layout.public_exists
                && !layout.public_is_dir)
            &&& r matches Err(f) ==> blames(f, "--serve-rails"@)
            &&& r matches Ok((plan, warning)) ==> {
                &&& plan.root == root
                &&& plan.static_overridden == !derived
                &&& !derived ==> plan.static_dir == explicit && plan.static_assets && warning is None
                &&& derived ==> (plan.static_dir is Some <==> layout.public_exists)
                &&& derived && plan.static_dir is Some ==> plan.static_dir->0 == joined(
                    root,
                    encode_utf8("public"@),
                )
                &&& derived ==> (plan.static_assets <==> layout.public_exists
                    && layout.assets_is_dir)
                &&& derived ==> (warning is Some <==> !plan.static_assets)
            }
        }),
{
}

/// The row of mounts is put together of the rows of its parts.
pub proof fn mount_rows_join(a: Seq<TextPair>, b: Seq<TextPair>)
    requires
        a.len() > 0,
        b.len() > 0,
    ensures
        mount_row(a + b) == mount_row(a) + " | "@ + mount_row(b),
        a.len() == 1 ==> mount_row(a) == a[0].0,
    decreases b.len(),
{
    if b.len() == 1 {
        assert((a + b).drop_last() =~= a);
        assert((a + b).last() == b[0]);
    } else {
        assert((a + b).drop_last() =~= a + b.drop_last());
        mount_rows_join(a, b.drop_last());
        assert(mount_row(a + b) =~= mount_row(a) + " | "@ + mount_row(b));
    }
}

/// What the operator wrote comes first and is not touched by what is derived; a directory
/// that the operator named goes before that of the plan; and a directory with assets is
/// mounted twice, strictly at the assets before everything else.
pub proof fn written_mounts_come_first(
    cli: EdgeCliConfig,
    env: Environment,
    preset: Option<Seq<u8>>,
    plan: Option<RailsPlan>,
)
    requires
        written_mounts(cli, env) is Ok,
    ensures
        ({
            let all = mounts_of(cli, env, preset, plan);
            let written = written_mounts(cli, env)->Ok_0;
            let n = written.len() as int;
            &&& all is Ok
            &&& all->Ok_0.len() >= n
            &&& all->Ok_0.take(n) == written
            &&& preset matches Some(dir) ==> all->Ok_0.len() == n + 2 && all->Ok_0[n] == (
                "/assets="@ + lossy(dir)
                    + "/assets,cache-control=public%2Cmax-age=31536000%2Cimmutable"@,
                "--static-rails-preset"@,
            ) && all->Ok_0[n + 1] == (
                "/="@ + lossy(dir) + ",fallthrough"@,
                "--static-rails-preset"@,
            )
            &&& preset is None && (plan matches Some(p) && p.static_dir is Some
                && !p.static_overridden) ==> all->Ok_0.len() == n + (if plan->0.static_assets {
                2int
            } else {
                1
            })
            &&& preset is None && plan is None ==> all->Ok_0 == written
        }),
{
    let written = written_mounts(cli, env)->Ok_0;
    let all = mounts_of(cli, env, preset, plan)->Ok_0;
    assert(all.take(written.len() as int) =~= written);
    if preset is None && plan is None {
        assert(all =~= written);
    }
}

} // verus!
