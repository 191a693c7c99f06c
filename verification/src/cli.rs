//! The configuration and command-line data that the surrounding driver
//! hands to the library, and the location of the configuration file.

use vstd::prelude::*;
use vstd::string::StrSliceExecFns;
use vstd::string::StringExecFns;

verus! {

/// The one supported subcommand.
#[derive(Debug, Clone, Copy)]
pub enum Command {
    Build,
}

/// Command-line options: the subcommand to run and a verbosity flag.
#[derive(Debug)]
pub struct Cli {
    pub cmd: Command,
    pub verbose: bool,
}

/// Content settings of a site.
#[derive(Debug)]
pub struct Content {
    pub latex_enabled: bool,
}

/// Site configuration: page metadata, the colour theme, and content
/// settings.
#[derive(Debug)]
pub struct Config {
    pub title: String,
    pub description: String,
    pub theme: String,
    pub content: Content,
}

/// The configuration file path under a directory: the file name joined
/// with a separator unless the directory already ends with one.
pub open spec fn config_file_path_of(dir: Seq<char>) -> Seq<char> {
    if dir.len() > 0 && dir.last() == '/' {
        dir + "config.toml"@
    } else {
        dir + "/config.toml"@
    }
}

/// The path of `config.toml` under the given current directory.
pub fn get_config_file_path(current_dir: &str) -> (r: String)
    ensures
        r@ == config_file_path_of(current_dir@),
{
    let n = current_dir.unicode_len();
    let mut r = current_dir.to_owned();
    if n > 0 && current_dir.get_char(n - 1) == '/' {
        r.append("config.toml");
    } else {
        r.append("/config.toml");
    }
    r
}

} // verus!
