//! The configuration file: where it lives, and when its text stands for an
//! empty configuration.

use vstd::prelude::*;
use crate::text::{trim, trim_str};

verus! {

/// The file name of the configuration inside its directory.
pub open spec fn config_file_name() -> Seq<char> {
    "config.toml"@
}

/// `name` placed inside the directory `dir`, as a path joins them: with a
/// `/` between them unless `dir` is empty or already ends with one.
pub open spec fn path_join(dir: Seq<char>, name: Seq<char>) -> Seq<char> {
    if dir.len() == 0 {
        name
    } else if dir.last() == '/' {
        dir + name
    } else {
        dir + seq!['/'] + name
    }
}

/// The configuration kept in a TOML file.
pub struct FsConfigStore {
    path: String,
}

impl FsConfigStore {
    /// The path of the file.
    pub closed spec fn path_view(&self) -> Seq<char> {
        self.path@
    }

    /// The store whose file is `config.toml` in the configuration directory
    /// that the platform gives for the program; an error when it gives none.
    pub fn new_default(config_dir: Option<String>) -> (r: Result<Self, String>)
        ensures
            match config_dir {
                Some(d) => r matches Ok(s) && s.path_view() == path_join(d@, config_file_name()),
                None => r matches Err(m) && m@ == "Could not determine config directory"@,
            },
    {
        match config_dir {
            None => Err("Could not determine config directory".to_owned()),
            Some(d) => {
                let n = d.unicode_len();
                let mut path = d.clone();
                if n > 0 && d.as_str().get_char(n - 1) != '/' {
                    path.append("/");
                    proof {
                        reveal_strlit("/");
                    }
                }
                path.append("config.toml");
                proof {
                    if n > 0 {
                        assert(d@.last() == d@[n - 1]);
                    }
                }
                assert(path@ =~= path_join(d@, config_file_name()));
                Ok(FsConfigStore { path })
            },
        }
    }

    /// The store whose file is at `path`.
    pub fn at(path: String) -> (r: Self)
        ensures
            r.path_view() == path@,
    {
        FsConfigStore { path }
    }

    /// The path of the file.
    pub fn path(&self) -> (r: &str)
        ensures
            r@ == self.path_view(),
    {
        self.path.as_str()
    }
}

/// Whether the text of a configuration file holds nothing but white space,
/// which stands for an empty configuration.
pub fn is_blank(contents: &str) -> (r: bool)
    ensures
        r == (trim(contents@).len() == 0),
{
    trim_str(contents).unicode_len() == 0
}

} // verus!
