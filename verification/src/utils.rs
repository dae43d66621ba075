use vstd::prelude::*;
use crate::config::Config;

verus! {

/// What the command line gave: the `--dir` flag, whether verbose logging was
/// asked for (`None` when it was not), and the `--config` path.
#[derive(Clone, Debug)]
pub struct CommandContext {
    pub base_dir: Option<String>,
    pub verbose_log: Option<bool>,
    pub config_path: Option<String>,
}

/// The directory that holds the groups.
pub fn get_base_dir(config: Config) -> (dir: String)
    ensures
        dir == config.base_dir,
{
    config.base_dir
}

} // verus!
