//! The configured hotkeys and applications, and how a configuration is
//! chosen from what was found on disk.

use vstd::prelude::*;
use crate::kee_keys::{TKeePair, TKeePairList};

verus! {

/// The hotkeys to register and the applications the configuration names.
#[derive(Debug)]
pub struct KeeConfig {
    pub kees: TKeePairList,
    pub apps: Vec<String>,
}

/// The abstract value of a configuration: its pairs and its application names.
pub struct KeeConfigView {
    pub kees: Seq<(Seq<char>, Seq<char>)>,
    pub apps: Seq<Seq<char>>,
}

impl View for KeeConfig {
    type V = KeeConfigView;

    open spec fn view(&self) -> KeeConfigView {
        KeeConfigView { kees: self.kees@, apps: self.apps@.map_values(|s: String| s@) }
    }
}

impl Clone for KeeConfig {
    fn clone(&self) -> (res: Self)
        ensures
            res@ == self@,
    {
        let apps = self.apps.clone();
        proof {
            assert forall|i: int| 0 <= i < apps@.len() implies apps@[i] == self.apps@[i] by {
                assert(cloned::<String>(self.apps[i], apps[i]));
            }
            assert(apps@ =~= self.apps@);
        }
        let res = KeeConfig { kees: self.kees.clone(), apps };
        proof {
            assert(res@.apps =~= self@.apps);
        }
        res
    }
}

/// The configuration used when none could be read: `M-1` bound to
/// `app::LaunchZen`, and no applications.
pub open spec fn default_config_view() -> KeeConfigView {
    KeeConfigView { kees: seq![("M-1"@, "app::LaunchZen"@)], apps: Seq::empty() }
}

impl KeeConfig {
    /// The configuration used when none could be read.
    pub fn fallback() -> (res: Self)
        ensures
            res@ == default_config_view(),
    {
        let mut pairs: Vec<TKeePair> = Vec::new();
        pairs.push(TKeePair::new("M-1", "app::LaunchZen"));
        let res = KeeConfig { kees: TKeePairList(pairs), apps: Vec::new() };
        proof {
            assert(res@.kees =~= default_config_view().kees);
            assert(res@.apps =~= default_config_view().apps);
        }
        res
    }
}

/// What was found where the configuration file lives.
#[derive(Debug)]
pub enum ConfigSource {
    /// The configuration directory could not be determined or created.
    NoDirectory,
    /// The directory exists but holds no configuration file.
    Missing,
    /// A file exists but could not be read or did not parse.
    Unreadable,
    /// A file exists and parsed into this configuration.
    Parsed(KeeConfig),
}

/// What a configuration source yields: the parsed configuration, or else
/// the fallback one.
pub open spec fn chosen_config(source: ConfigSource) -> KeeConfigView {
    match source {
        ConfigSource::Parsed(c) => c@,
        _ => default_config_view(),
    }
}

/// The loaded configuration of the hotkey service.
#[derive(Debug)]
pub struct Config {
    kee_config: KeeConfig,
}

impl View for Config {
    type V = KeeConfigView;

    closed spec fn view(&self) -> KeeConfigView {
        self.kee_config@
    }
}

impl Clone for Config {
    fn clone(&self) -> (res: Self)
        ensures
            res@ == self@,
    {
        Config { kee_config: self.kee_config.clone() }
    }
}

impl Config {
    /// Builds the configuration from what was found on disk: a parsed
    /// file is used as it is, anything else gives the fallback.
    pub fn new(source: ConfigSource) -> (res: Self)
        ensures
            res@ == chosen_config(source),
            source matches ConfigSource::Parsed(c) ==> res@ == c@,
            !(source is Parsed) ==> res@.kees == seq![("M-1"@, "app::LaunchZen"@)] && res@.apps.len() == 0,
    {
        let (kee_config, _) = Self::read_config_files(source);
        Config { kee_config }
    }

    /// Chooses the configuration from what was found on disk, and says
    /// whether the fallback should be written out as a new file: only when
    /// the directory exists and holds no file.
    pub fn read_config_files(source: ConfigSource) -> (res: (KeeConfig, bool))
        ensures
            res.0@ == chosen_config(source),
            source matches ConfigSource::Parsed(c) ==> res.0@ == c@,
            !(source is Parsed) ==> res.0@.kees == seq![("M-1"@, "app::LaunchZen"@)] && res.0@.apps.len() == 0,
            res.1 == (source is Missing),
    {
        match source {
            ConfigSource::Parsed(c) => (c, false),
            ConfigSource::Missing => (KeeConfig::fallback(), true),
            _ => (KeeConfig::fallback(), false),
        }
    }

    /// A copy of the configuration.
    pub fn get_config(&self) -> (res: KeeConfig)
        ensures
            res@ == self@,
    {
        self.kee_config.clone()
    }
}

/// Once the fallback has been written out, reading it back gives the
/// fallback again, and nothing is written a second time.
pub proof fn lemma_written_fallback_reads_back(written: KeeConfig)
    requires
        written@ == default_config_view(),
    ensures
        chosen_config(ConfigSource::Parsed(written)) == chosen_config(ConfigSource::Missing),
        !(ConfigSource::Parsed(written) is Missing),
{
}

/// A configuration file that parses is used exactly as it is, whatever it
/// holds (no hotkeys, no applications, or any others); only a file that is
/// missing or unreadable, or a missing directory, gives the fallback, which
/// binds `M-1` to `app::LaunchZen` and names no application.
pub proof fn lemma_parsed_config_used_as_is(c: KeeConfig, other: ConfigSource)
    requires
        !(other is Parsed),
    ensures
        chosen_config(ConfigSource::Parsed(c)).kees == c@.kees,
        chosen_config(ConfigSource::Parsed(c)).apps == c@.apps,
        chosen_config(other).kees == seq![("M-1"@, "app::LaunchZen"@)],
        chosen_config(other).apps.len() == 0,
{
}

} // verus!
