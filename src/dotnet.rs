//! The .NET SDK backend: reading `global.json`, listing SDK releases, and the
//! paths, commands and environment of an install in either topology.
use vstd::prelude::*;

use crate::path::{join, join_spec};
use crate::request::{BackendArg, BackendResolution};
use crate::version::{no_duplicates, rank_sorted, sort_versions};

verus! {

/// Settings of the .NET backend.
#[derive(Debug)]
pub struct DotnetSettings {
    /// One private install root per version, instead of one shared root.
    pub isolated: bool,
    /// An explicit shared root.
    pub dotnet_root: Option<String>,
    /// The value to export as `DOTNET_CLI_TELEMETRY_OPTOUT`, when set.
    pub cli_telemetry_optout: Option<bool>,
}

impl Default for DotnetSettings {
    fn default() -> (r: Self)
        ensures
            !r.isolated,
            r.dotnet_root is None,
            r.cli_telemetry_optout is None,
    {
        DotnetSettings { isolated: false, dotnet_root: None, cli_telemetry_optout: None }
    }
}

/// One installable version of a remote catalog.
#[derive(Debug)]
pub struct VersionInfo {
    pub version: String,
}

/// Why `global.json` yields no version list.
#[derive(PartialEq, Eq, Structural, Clone, Copy, Debug)]
pub enum DotnetError {
    /// The file has no `sdk` section.
    NoSdkVersion,
}

/// The `sdk` section of `global.json`.
#[derive(Debug)]
pub struct GlobalJsonSdk {
    pub version: String,
}

/// The parts of `global.json` that pin an SDK.
#[derive(Debug)]
pub struct GlobalJson {
    pub sdk: Option<GlobalJsonSdk>,
}

/// One channel of the releases index.
#[derive(Debug)]
pub struct ChannelEntry {
    pub releases_json: Option<String>,
}

/// The releases index: one entry per release channel.
#[derive(Debug)]
pub struct ReleasesIndex {
    pub releases_index: Vec<ChannelEntry>,
}

/// An SDK of a release.
#[derive(Debug)]
pub struct Sdk {
    pub version: Option<String>,
}

/// A release of a channel, with its main SDK and any others.
#[derive(Debug)]
pub struct Release {
    pub sdk: Option<Sdk>,
    pub sdks: Option<Vec<Sdk>>,
}

/// The releases of one channel.
#[derive(Debug)]
pub struct ChannelReleases {
    pub releases: Vec<Release>,
}

/// The backend for the .NET SDK.
#[derive(Debug)]
pub struct DotnetPlugin {
    ba: BackendArg,
    settings: DotnetSettings,
}

pub open spec fn opt_view(o: Option<String>) -> Option<Seq<char>> {
    match o {
        Some(s) => Some(s@),
        None => None,
    }
}

/// The shared root: the configured one, else `DOTNET_ROOT`, else
/// `dotnet-root` in the data directory.
pub open spec fn dotnet_root_spec(
    configured: Option<Seq<char>>,
    env_root: Option<Seq<char>>,
    data_dir: Seq<char>,
) -> Seq<char> {
    match configured {
        Some(r) => r,
        None => match env_root {
            Some(r) => r,
            None => join_spec(data_dir, "dotnet-root"@),
        },
    }
}

/// The shared root of .NET installs.
pub fn dotnet_root(configured: &Option<String>, env_root: &Option<String>, data_dir: &str) -> (r: String)
    ensures
        r@ == dotnet_root_spec(opt_view(*configured), opt_view(*env_root), data_dir@),
{
    match configured {
        Some(r) => r.clone(),
        None => match env_root {
            Some(r) => r.clone(),
            None => join(data_dir, "dotnet-root"),
        },
    }
}

/// Where the install script is kept: `dotnet/dotnet-install.sh` in the cache
/// directory.
pub fn install_script_path(cache_dir: &str) -> (r: String)
    ensures
        r@ == join_spec(join_spec(cache_dir@, "dotnet"@), "dotnet-install.sh"@),
{
    let d = join(cache_dir, "dotnet");
    join(d.as_str(), "dotnet-install.sh")
}

/// Where the install script is downloaded from.
pub fn install_script_url() -> (r: &'static str)
    ensures
        r@ == "https://dot.net/v1/dotnet-install.sh"@,
{
    "https://dot.net/v1/dotnet-install.sh"
}

/// The command line that installs SDK `version` into `install_dir`.
pub fn install_cmd(script_path: &str, install_dir: &str, version: &str) -> (r: Vec<String>)
    ensures
        r@.map_values(|s: String| s@) == seq![
            script_path@,
            "--install-dir"@,
            install_dir@,
            "--version"@,
            version@,
            "--no-path"@,
        ],
{
    let mut v: Vec<String> = Vec::new();
    v.push(script_path.to_owned());
    v.push("--install-dir".to_owned());
    v.push(install_dir.to_owned());
    v.push("--version".to_owned());
    v.push(version.to_owned());
    v.push("--no-path".to_owned());
    assert(v@.map_values(|s: String| s@) =~= seq![
        script_path@,
        "--install-dir"@,
        install_dir@,
        "--version"@,
        version@,
        "--no-path"@,
    ]);
    v
}

/// The environment an active .NET SDK exports, sorted by name.
pub open spec fn exec_env_spec(root: Seq<char>, optout: Option<bool>) -> Seq<(Seq<char>, Seq<char>)> {
    let base = seq![("DOTNET_MULTILEVEL_LOOKUP"@, "0"@), ("DOTNET_ROOT"@, root)];
    match optout {
        Some(o) => seq![("DOTNET_CLI_TELEMETRY_OPTOUT"@, if o { "1"@ } else { "0"@ })] + base,
        None => base,
    }
}

/// The SDK versions that `global.json` pins: none when its version is
/// empty, and an error when it has no `sdk` section.
pub open spec fn global_json_versions(sdk: Option<Seq<char>>) -> Result<Seq<Seq<char>>, DotnetError> {
    match sdk {
        None => Err(DotnetError::NoSdkVersion),
        Some(v) => if v.len() == 0 {
            Ok(seq![])
        } else {
            Ok(seq![v])
        },
    }
}

pub open spec fn global_sdk_view(g: GlobalJson) -> Option<Seq<char>> {
    match g.sdk {
        Some(s) => Some(s.version@),
        None => None,
    }
}

pub open spec fn pairs_view(v: Seq<(String, String)>) -> Seq<(Seq<char>, Seq<char>)> {
    v.map_values(|p: (String, String)| (p.0@, p.1@))
}

impl DotnetPlugin {
    pub closed spec fn spec_isolated(&self) -> bool {
        self.settings.isolated
    }

    pub closed spec fn spec_dotnet_root(&self) -> Option<Seq<char>> {
        opt_view(self.settings.dotnet_root)
    }

    pub closed spec fn spec_optout(&self) -> Option<bool> {
        self.settings.cli_telemetry_optout
    }

    pub closed spec fn spec_ba(&self) -> BackendArg {
        self.ba
    }

    /// The backend with default settings: a shared install root.
    pub fn new() -> (r: Self)
        ensures
            r.spec_ba()@.short == "dotnet"@,
            r.spec_ba()@.qualifier is None,
            !r.spec_isolated(),
            r.spec_dotnet_root() is None,
            r.spec_optout() is None,
    {
        Self::with_settings(DotnetSettings::default())
    }

    /// The backend with the given settings.
    pub fn with_settings(settings: DotnetSettings) -> (r: Self)
        ensures
            r.spec_ba()@.short == "dotnet"@,
            r.spec_ba()@.qualifier is None,
            r.spec_isolated() == settings.isolated,
            r.spec_dotnet_root() == opt_view(settings.dotnet_root),
            r.spec_optout() == settings.cli_telemetry_optout,
    {
        let ba = BackendArg::new("dotnet".to_owned(), None, BackendResolution::new(false));
        DotnetPlugin { ba, settings }
    }

    pub fn ba(&self) -> (r: &BackendArg)
        ensures
            *r == self.spec_ba(),
    {
        &self.ba
    }

    /// Whether each version gets a private install root.
    pub fn is_isolated(&self) -> (r: bool)
        ensures
            r == self.spec_isolated(),
    {
        self.settings.isolated
    }

    pub fn supports_lockfile_url(&self) -> (r: bool)
        ensures
            !r,
    {
        false
    }

    /// The idiomatic file this backend reads.
    pub fn idiomatic_filenames(&self) -> (r: Vec<String>)
        ensures
            r@.map_values(|s: String| s@) == seq!["global.json"@],
    {
        let mut v: Vec<String> = Vec::new();
        v.push("global.json".to_owned());
        assert(v@.map_values(|s: String| s@) =~= seq!["global.json"@]);
        v
    }

    /// The SDK versions a decoded `global.json` pins.
    pub fn parse_idiomatic_file(&self, global: &GlobalJson) -> (r: Result<Vec<String>, DotnetError>)
        ensures
            match global_json_versions(global_sdk_view(*global)) {
                Ok(vs) => r matches Ok(v) && v@.map_values(|s: String| s@) == vs,
                Err(e) => r == Err::<Vec<String>, DotnetError>(e),
            },
    {
        match &global.sdk {
            None => Err(DotnetError::NoSdkVersion),
            Some(sdk) => {
                let mut v: Vec<String> = Vec::new();
                if sdk.version.as_str().unicode_len() > 0 {
                    v.push(sdk.version.clone());
                }
                assert(v@.map_values(|s: String| s@) =~= global_json_versions(global_sdk_view(*global))->Ok_0);
                Ok(v)
            },
        }
    }

    /// The shared root under these settings.
    pub fn shared_root(&self, env_root: &Option<String>, data_dir: &str) -> (r: String)
        ensures
            r@ == dotnet_root_spec(self.spec_dotnet_root(), opt_view(*env_root), data_dir@),
    {
        dotnet_root(&self.settings.dotnet_root, env_root, data_dir)
    }

    /// Where the install script installs: the version's own path when
    /// isolated, the shared root otherwise.
    pub fn install_dir(&self, install_path: &str, root: &str) -> (r: String)
        ensures
            r@ == if self.spec_isolated() { install_path@ } else { root@ },
    {
        if self.settings.isolated {
            install_path.to_owned()
        } else {
            root.to_owned()
        }
    }

    /// In the shared topology, the link (target, link) that makes the
    /// version's install path point at the shared root.
    pub fn install_link(&self, install_path: &str, root: &str) -> (r: Option<(String, String)>)
        ensures
            self.spec_isolated() ==> r is None,
            !self.spec_isolated() ==> (r matches Some(l) && l.0@ == root@ && l.1@ == install_path@),
    {
        if self.settings.isolated {
            None
        } else {
            Some((root.to_owned(), install_path.to_owned()))
        }
    }

    /// What uninstalling `version` removes itself: nothing when isolated (the
    /// install path goes as a whole), else the version's `sdk/<version>`
    /// directory under the shared root, never the root.
    pub fn uninstall_target(&self, root: &str, version: &str) -> (r: Option<String>)
        ensures
            self.spec_isolated() ==> r is None,
            !self.spec_isolated() ==> (r matches Some(p) && p@ == join_spec(join_spec(root@, "sdk"@), version@)),
    {
        if self.settings.isolated {
            None
        } else {
            let sdk = join(root, "sdk");
            Some(join(sdk.as_str(), version))
        }
    }

    /// The directories to put on the executable search path.
    pub fn list_bin_paths(&self, install_path: &str, root: &str) -> (r: Vec<String>)
        ensures
            r@.map_values(|s: String| s@) == seq![if self.spec_isolated() { install_path@ } else { root@ }],
    {
        let mut v: Vec<String> = Vec::new();
        v.push(self.install_dir(install_path, root));
        assert(v@.map_values(|s: String| s@) =~= seq![if self.spec_isolated() { install_path@ } else { root@ }]);
        v
    }

    /// The environment to export while this SDK is active, sorted by name.
    pub fn exec_env(&self, install_path: &str, root: &str) -> (r: Vec<(String, String)>)
        ensures
            pairs_view(r@) == exec_env_spec(
                if self.spec_isolated() { install_path@ } else { root@ },
                self.spec_optout(),
            ),
    {
        let dir = self.install_dir(install_path, root);
        let mut v: Vec<(String, String)> = Vec::new();
        match self.settings.cli_telemetry_optout {
            Some(o) => {
                let val = if o { "1".to_owned() } else { "0".to_owned() };
                v.push(("DOTNET_CLI_TELEMETRY_OPTOUT".to_owned(), val));
            },
            None => {},
        }
        v.push(("DOTNET_MULTILEVEL_LOOKUP".to_owned(), "0".to_owned()));
        v.push(("DOTNET_ROOT".to_owned(), dir));
        assert(pairs_view(v@) =~= exec_env_spec(
            if self.spec_isolated() { install_path@ } else { root@ },
            self.spec_optout(),
        ));
        v
    }
}

} // verus!

verus! {

pub open spec fn strs(v: Seq<String>) -> Seq<Seq<char>> {
    v.map_values(|s: String| s@)
}

/// The release-data URLs of the channels that have a non-empty one.
pub open spec fn channel_urls_spec(entries: Seq<ChannelEntry>) -> Seq<Seq<char>>
    decreases entries.len(),
{
    if entries.len() == 0 {
        seq![]
    } else {
        let rest = channel_urls_spec(entries.drop_last());
        match entries.last().releases_json {
            Some(u) => if u@.len() > 0 {
                rest.push(u@)
            } else {
                rest
            },
            None => rest,
        }
    }
}

/// The release-data URLs to fetch, one per channel that names one.
pub fn channel_urls(index: &ReleasesIndex) -> (r: Vec<String>)
    ensures
        strs(r@) == channel_urls_spec(index.releases_index@),
{
    let entries = &index.releases_index;
    let mut out: Vec<String> = Vec::new();
    let mut i: usize = 0;
    while i < entries.len()
        invariant
            i <= entries.len(),
            strs(out@) == channel_urls_spec(entries@.subrange(0, i as int)),
        decreases entries.len() - i,
    {
        assert(entries@.subrange(0, i + 1).drop_last() == entries@.subrange(0, i as int));
        match &entries[i].releases_json {
            Some(u) => {
                if u.as_str().unicode_len() > 0 {
                    out.push(u.clone());
                    assert(strs(out@) =~= channel_urls_spec(entries@.subrange(0, i as int)).push(u@));
                }
            },
            None => {},
        }
        i = i + 1;
    }
    assert(entries@.subrange(0, entries.len() as int) == entries@);
    out
}

pub open spec fn sdk_version(s: Sdk) -> Seq<Seq<char>> {
    match s.version {
        Some(v) => seq![v@],
        None => seq![],
    }
}

/// The versions of a list of SDKs, skipping those without one.
pub open spec fn sdks_versions(sdks: Seq<Sdk>) -> Seq<Seq<char>>
    decreases sdks.len(),
{
    if sdks.len() == 0 {
        seq![]
    } else {
        sdks_versions(sdks.drop_last()) + sdk_version(sdks.last())
    }
}

/// The versions of a release: its main SDK, then the others.
pub open spec fn release_versions(r: Release) -> Seq<Seq<char>> {
    (match r.sdk {
        Some(s) => sdk_version(s),
        None => seq![],
    }) + (match r.sdks {
        Some(v) => sdks_versions(v@),
        None => seq![],
    })
}

pub open spec fn releases_versions(rs: Seq<Release>) -> Seq<Seq<char>>
    decreases rs.len(),
{
    if rs.len() == 0 {
        seq![]
    } else {
        releases_versions(rs.drop_last()) + release_versions(rs.last())
    }
}

/// Every SDK version the channels list, in document order, repeats included.
pub open spec fn channels_versions(cs: Seq<ChannelReleases>) -> Seq<Seq<char>>
    decreases cs.len(),
{
    if cs.len() == 0 {
        seq![]
    } else {
        channels_versions(cs.drop_last()) + releases_versions(cs.last().releases@)
    }
}

fn push_sdk(out: &mut Vec<String>, s: &Sdk)
    ensures
        strs(final(out)@) == strs(old(out)@) + sdk_version(*s),
{
    match &s.version {
        Some(v) => {
            out.push(v.clone());
            assert(strs(out@) =~= strs(old(out)@) + sdk_version(*s));
        },
        None => {
            assert(strs(out@) =~= strs(old(out)@) + sdk_version(*s));
        },
    }
}

fn push_release(out: &mut Vec<String>, r: &Release)
    ensures
        strs(final(out)@) == strs(old(out)@) + release_versions(*r),
{
    let ghost start = strs(out@);
    match &r.sdk {
        Some(s) => push_sdk(out, s),
        None => {},
    }
    let ghost mid = strs(out@);
    match &r.sdks {
        Some(v) => {
            let mut i: usize = 0;
            while i < v.len()
                invariant
                    i <= v.len(),
                    strs(out@) == mid + sdks_versions(v@.subrange(0, i as int)),
                decreases v.len() - i,
            {
                assert(v@.subrange(0, i + 1).drop_last() == v@.subrange(0, i as int));
                push_sdk(out, &v[i]);
                assert(mid + sdks_versions(v@.subrange(0, i as int)) + sdk_version(v@[i as int]) == mid
                    + sdks_versions(v@.subrange(0, i + 1)));
                i = i + 1;
            }
            assert(v@.subrange(0, v.len() as int) == v@);
        },
        None => {
            assert(strs(out@) == mid + Seq::<Seq<char>>::empty());
        },
    }
    assert(strs(out@) =~= start + release_versions(*r));
}

/// Every SDK version that the channels list, in document order.
pub fn all_sdk_versions(channels: &Vec<ChannelReleases>) -> (r: Vec<String>)
    ensures
        strs(r@) == channels_versions(channels@),
{
    let mut out: Vec<String> = Vec::new();
    let mut i: usize = 0;
    while i < channels.len()
        invariant
            i <= channels.len(),
            strs(out@) == channels_versions(channels@.subrange(0, i as int)),
        decreases channels.len() - i,
    {
        assert(channels@.subrange(0, i + 1).drop_last() == channels@.subrange(0, i as int));
        let ghost before = strs(out@);
        let rs = &channels[i].releases;
        let mut j: usize = 0;
        while j < rs.len()
            invariant
                j <= rs.len(),
                strs(out@) == before + releases_versions(rs@.subrange(0, j as int)),
            decreases rs.len() - j,
        {
            assert(rs@.subrange(0, j + 1).drop_last() == rs@.subrange(0, j as int));
            push_release(&mut out, &rs[j]);
            assert(before + releases_versions(rs@.subrange(0, j as int)) + release_versions(rs@[j as int])
                == before + releases_versions(rs@.subrange(0, j + 1)));
            j = j + 1;
        }
        assert(rs@.subrange(0, rs.len() as int) == rs@);
        i = i + 1;
    }
    assert(channels@.subrange(0, channels.len() as int) == channels@);
    out
}

/// The remote catalog: every SDK version the channels list, each once,
/// ordered by version rank.
pub fn remote_versions(channels: &Vec<ChannelReleases>) -> (r: Vec<VersionInfo>)
    ensures
        rank_sorted(r@.map_values(|v: VersionInfo| v.version@)),
        no_duplicates(r@.map_values(|v: VersionInfo| v.version@)),
        r@.map_values(|v: VersionInfo| v.version@).to_set() == channels_versions(channels@).to_set(),
{
    let sorted = sort_versions(all_sdk_versions(channels));
    let mut out: Vec<VersionInfo> = Vec::new();
    let mut i: usize = 0;
    while i < sorted.len()
        invariant
            i <= sorted.len(),
            out.len() == i,
            forall|j: int| 0 <= j < i ==> (#[trigger] out@[j]).version@ == sorted@[j]@,
        decreases sorted.len() - i,
    {
        out.push(VersionInfo { version: sorted[i].clone() });
        i = i + 1;
    }
    assert(out@.map_values(|v: VersionInfo| v.version@) =~= strs(sorted@));
    out
}

} // verus!
