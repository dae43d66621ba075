use vstd::prelude::*;
use crate::utils::CommandContext;
use crate::names::{path_push, push_segment};
use crate::text::chars_of;

verus! {

/// Where the groups live when neither the command line nor the config file
/// says otherwise.
pub const DEFAULT_BASE_DIR: &'static str = "/etc/nixos/.shvl";

/// Settings that may each be left open.
#[derive(Debug)]
pub struct PartialConfig {
    pub base_dir: Option<String>,
    pub verbose: Option<bool>,
}

/// The settings a command runs with.
#[derive(Clone, Debug)]
pub struct Config {
    pub base_dir: String,
    pub verbose: bool,
}

/// `a` if it is set, else `b`.
pub open spec fn first_set<T>(a: Option<T>, b: Option<T>) -> Option<T> {
    match a {
        Some(x) => Some(x),
        None => b,
    }
}

/// Each setting of `a`, or where `a` leaves it open, that of `b`.
pub open spec fn merged(a: PartialConfig, b: PartialConfig) -> PartialConfig {
    PartialConfig { base_dir: first_set(a.base_dir, b.base_dir), verbose: first_set(a.verbose, b.verbose) }
}

/// The settings with the defaults filled in: the base directory
/// `/etc/nixos/.shvl` and no verbose logging.
pub open spec fn defaulted_base_dir(p: PartialConfig) -> Seq<char> {
    match p.base_dir {
        Some(d) => d@,
        None => DEFAULT_BASE_DIR@,
    }
}

/// Whether verbose logging is on once defaults are filled in.
pub open spec fn defaulted_verbose(p: PartialConfig) -> bool {
    match p.verbose {
        Some(v) => v,
        None => false,
    }
}

/// The settings that the command line gives.
pub open spec fn context_settings(ctx: CommandContext) -> PartialConfig {
    PartialConfig { base_dir: ctx.base_dir, verbose: ctx.verbose_log }
}

fn first_of<T>(a: Option<T>, b: Option<T>) -> (r: Option<T>)
    ensures
        r == first_set(a, b),
{
    match a {
        Some(x) => Some(x),
        None => b,
    }
}

impl PartialConfig {
    /// `self` takes precedent in merge
    pub fn merge(self, other: PartialConfig) -> (r: Self)
        ensures
            r == merged(self, other),
    {
        PartialConfig {
            base_dir: first_of(self.base_dir, other.base_dir),
            verbose: first_of(self.verbose, other.verbose),
        }
    }

    /// `self` takes precedent in merge
    pub fn merge_option(self, other: Option<Self>) -> (r: Self)
        ensures
            r == match other {
                Some(o) => merged(self, o),
                None => self,
            },
    {
        if let Some(other) = other {
            self.merge(other)
        } else {
            self
        }
    }

    /// Fills in the defaults for what is still open.
    pub fn merge_default(self) -> (c: Config)
        ensures
            c.base_dir@ == defaulted_base_dir(self),
            c.verbose == defaulted_verbose(self),
    {
        Config {
            base_dir: self.base_dir.unwrap_or(DEFAULT_BASE_DIR.to_owned()),
            verbose: self.verbose.unwrap_or(false),
        }
    }
}

impl From<CommandContext> for PartialConfig {
    fn from(ctx: CommandContext) -> (r: PartialConfig) {
        PartialConfig { base_dir: ctx.base_dir, verbose: ctx.verbose_log }
    }
}

impl vstd::std_specs::convert::FromSpecImpl<CommandContext> for PartialConfig {
    open spec fn obeys_from_spec() -> bool {
        true
    }

    open spec fn from_spec(v: CommandContext) -> PartialConfig {
        context_settings(v)
    }
}

/// The base directory a command runs in, taken from the first source that
/// gives one: the `--dir` flag; the directory stored in the home directory's
/// `dir` file (`stored_dir`); the config file's `base_dir` (`from_file`: the
/// file `--config` named, or else the one under the home directory);
/// `/etc/nixos/.shvl`.
pub open spec fn resolved_base_dir(
    ctx: CommandContext,
    from_file: Option<PartialConfig>,
    stored_dir: Option<String>,
) -> Seq<char> {
    let file_dir = match from_file {
        Some(f) => f.base_dir,
        None => None,
    };
    match first_set(ctx.base_dir, first_set(stored_dir, file_dir)) {
        Some(d) => d@,
        None => DEFAULT_BASE_DIR@,
    }
}

/// The settings a command runs with. The base directory is resolved as
/// `resolved_base_dir` says; verbose logging comes from the command line if
/// it sets it, else from the config file (`from_file`, what reading it gave),
/// else it is off.
pub fn get_config(
    ctx: CommandContext,
    from_file: Option<PartialConfig>,
    stored_dir: Option<String>,
) -> (c: Config)
    ensures
        c.base_dir@ == resolved_base_dir(ctx, from_file, stored_dir),
        c.verbose == match ctx.verbose_log {
            Some(v) => v,
            None => match from_file {
                Some(f) => defaulted_verbose(f),
                None => false,
            },
        },
{
    let stored = PartialConfig { base_dir: stored_dir, verbose: None };
    PartialConfig::from(ctx).merge(stored).merge_option(from_file).merge_default()
}

/// Merging is associative: layering three sources of settings gives the same
/// settings however the merges are grouped.
pub proof fn lemma_merge_associative(a: PartialConfig, b: PartialConfig, c: PartialConfig)
    ensures
        merged(merged(a, b), c) == merged(a, merged(b, c)),
{
}

/// A source that sets nothing changes nothing, on either side of a merge.
pub proof fn lemma_merge_unset_identity(a: PartialConfig)
    ensures
        merged(a, PartialConfig { base_dir: None, verbose: None }) == a,
        merged(PartialConfig { base_dir: None, verbose: None }, a) == a,
{
}

/// Where the config file is looked for, relative to the home directory.
pub const CONFIG_FILE_IN_HOME: &'static str = ".local/share/shvl/config.json";

/// Which config file to read: the one the `--config` flag names; else
/// `.local/share/shvl/config.json` under the home directory (`home`, the value
/// of `$HOME` if it is set); else none.
pub fn config_location(config_path: Option<String>, home: Option<String>) -> (r: Option<String>)
    ensures
        match config_path {
            Some(p) => r == Some(p),
            None => match home {
                Some(h) => r matches Some(l) && l@ == path_push(h@, CONFIG_FILE_IN_HOME@),
                None => r is None,
            },
        },
{
    match config_path {
        Some(p) => Some(p),
        None => match home {
            Some(h) => {
                let mut location = h;
                push_segment(&mut location, CONFIG_FILE_IN_HOME);
                Some(location)
            },
            None => None,
        },
    }
}

/// Where the base directory is stored, relative to the home directory.
pub const DIR_FILE_IN_HOME: &'static str = ".local/share/shvl/dir";

/// The file that stores the base directory: `.local/share/shvl/dir` under the
/// home directory (`home`, the value of `$HOME` if it is set); none without one.
pub fn dir_file_location(home: Option<String>) -> (r: Option<String>)
    ensures
        match home {
            Some(h) => r matches Some(l) && l@ == path_push(h@, DIR_FILE_IN_HOME@),
            None => r is None,
        },
{
    match home {
        Some(h) => {
            let mut location = h;
            push_segment(&mut location, DIR_FILE_IN_HOME);
            Some(location)
        },
        None => None,
    }
}

/// `s` without the line breaks (`\n`, `\r`) that end it.
pub open spec fn without_line_end(s: Seq<char>) -> Seq<char>
    decreases s.len(),
{
    if s.len() > 0 && (s.last() == '\n' || s.last() == '\r') {
        without_line_end(s.drop_last())
    } else {
        s
    }
}

/// The directory that the `dir` file's text stores: the text without the
/// line breaks that end it, if anything is left.
pub open spec fn stored_dir_of(text: Seq<char>) -> Option<Seq<char>> {
    if without_line_end(text).len() == 0 {
        None
    } else {
        Some(without_line_end(text))
    }
}

/// Reads the directory stored in the `dir` file from the file's text.
pub fn stored_dir_path(text: &str) -> (r: Option<String>)
    ensures
        match stored_dir_of(text@) {
            Some(d) => r matches Some(p) && p@ == d,
            None => r is None,
        },
{
    let cs = chars_of(text);
    let mut n: usize = cs.len();
    assert(text@.take(n as int) =~= text@);
    while n > 0 && (cs[n - 1] == '\n' || cs[n - 1] == '\r')
        invariant
            n <= cs@.len(),
            cs@ == text@,
            without_line_end(text@) == without_line_end(text@.take(n as int)),
        decreases n,
    {
        assert(text@.take(n as int).drop_last() =~= text@.take(n - 1));
        n = n - 1;
    }
    if n == 0 {
        return None;
    }
    let path = text.substring_char(0, n).to_owned();
    assert(path@ =~= text@.take(n as int));
    Some(path)
}

} // verus!
