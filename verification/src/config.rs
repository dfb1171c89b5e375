//! Where the library keeps its files.

use vstd::prelude::*;
use crate::error::ErrorKind;
use crate::text::{append_chars, chars_of, string_of};

verus! {

/// `name` adjoined to the directory `base`, with `/` as the separator: an
/// absolute `name` replaces `base`, and a separator is put between the two
/// unless `base` is empty or already ends with one.
pub open spec fn join_path(base: Seq<char>, name: Seq<char>) -> Seq<char> {
    if name.len() > 0 && name[0] == '/' {
        name
    } else if base.len() == 0 || base.last() == '/' {
        base + name
    } else {
        base.push('/') + name
    }
}

/// `name` adjoined to the directory `base`.
pub fn join_path_exec(base: &str, name: &str) -> (out: String)
    ensures
        out@ == join_path(base@, name@),
{
    let base_chars = chars_of(base);
    let name_chars = chars_of(name);
    let mut joined: Vec<char> = Vec::new();
    let absolute = name_chars.len() > 0 && name_chars[0] == '/';
    if !absolute {
        append_chars(&mut joined, &base_chars);
        assert(Seq::<char>::empty() + base_chars@ =~= base_chars@);
        if base_chars.len() > 0 && base_chars[base_chars.len() - 1] != '/' {
            joined.push('/');
        }
    }
    append_chars(&mut joined, &name_chars);
    assert(Seq::<char>::empty() + name_chars@ =~= name_chars@);
    string_of(&joined)
}

/// `dirs::state_dir`: the directory that the platform and the environment
/// name for data kept between sessions, where they name one and its path is
/// valid UTF-8. Nothing is claimed of which directory that is.
#[verifier::external_body]
fn state_directory() -> (dir: Option<String>) {
    match dirs::state_dir() {
        Some(path) => path.into_os_string().into_string().ok(),
        None => None,
    }
}

/// The directories and files that the library works with.
#[derive(Clone, Debug)]
pub struct Config {
    /// The directory that holds everything else.
    pub state_dir: String,
    /// The directory of the finished scripts.
    pub scripts_dir: String,
    /// The file that records the build in progress.
    pub build_file_path: String,
}

impl Config {
    /// The layout below the base directory `dir`: a state directory named
    /// `please`, and in it the scripts directory and the build file.
    pub open spec fn laid_out_under(&self, dir: Seq<char>) -> bool {
        &&& self.state_dir@ == join_path(dir, "please"@)
        &&& self.scripts_dir@ == join_path(self.state_dir@, "scripts"@)
        &&& self.build_file_path@ == join_path(self.state_dir@, "build.json"@)
    }

    /// The configuration whose files live below the base directory `dir`.
    pub fn from_base_dir(dir: &str) -> (config: Config)
        ensures
            config.laid_out_under(dir@),
    {
        let state_dir = join_path_exec(dir, "please");
        let scripts_dir = join_path_exec(state_dir.as_str(), "scripts");
        let build_file_path = join_path_exec(state_dir.as_str(), "build.json");
        Config { state_dir, scripts_dir, build_file_path }
    }

    /// The configuration below the base directory `base`, where there is
    /// one.
    pub fn under(base: Option<String>) -> (res: Result<Config, ErrorKind>)
        ensures
            match res {
                Ok(config) => base is Some && config.laid_out_under(base->0@),
                Err(e) => base is None && e == ErrorKind::MissingResource,
            },
    {
        match base {
            Some(dir) => Ok(Config::from_base_dir(dir.as_str())),
            None => Err(ErrorKind::MissingResource),
        }
    }

    /// The configuration below the state directory of this user. Fails
    /// where the platform names no such directory.
    pub fn locate() -> (res: Result<Config, ErrorKind>)
        ensures
            match res {
                Ok(config) => exists|dir: Seq<char>| config.laid_out_under(dir),
                Err(e) => e == ErrorKind::MissingResource,
            },
    {
        let base = state_directory();
        let res = Config::under(base);
        proof {
            if res is Ok {
                assert(res->Ok_0.laid_out_under(base->0@));
            }
        }
        res
    }
}

} // verus!
