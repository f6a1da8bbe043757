//! Where the registry file lives: path joining and the platform-dependent
//! default location, expressed as a pure function of the platform and the
//! platform's base directory.

use vstd::prelude::*;
use vstd::string::StringExecFns;
use crate::registry::Config;

verus! {

/// The platform the tool runs on, as far as the default location cares.
#[derive(Clone, Copy, Debug, PartialEq, Eq, Structural)]
pub enum Platform {
    Windows,
    MacOs,
    Other,
}

/// One path component appended to a base path: a separator is added
/// unless the base already ends in one or is empty.
pub open spec fn spec_join(base: Seq<char>, comp: Seq<char>) -> Seq<char> {
    if base.len() == 0 {
        comp
    } else if base[base.len() - 1] == '/' {
        base + comp
    } else {
        base + seq!['/'] + comp
    }
}

/// Joins one component onto a base path.
pub fn join_path(base: &str, comp: &str) -> (r: String)
    ensures
        r@ == spec_join(base@, comp@),
{
    let n = base.unicode_len();
    if n == 0 {
        return comp.to_owned();
    }
    let mut s = base.to_owned();
    if base.get_char(n - 1) != '/' {
        s.append("/");
        proof {
            reveal_strlit("/");
            assert(("/")@ =~= seq!['/']);
        }
    }
    s.append(comp);
    proof {
        assert(s@ =~= spec_join(base@, comp@));
    }
    s
}

/// The default registry path for a platform, given that platform's base
/// directory when it has one.
pub open spec fn spec_default_config_path(platform: Platform, base: Seq<char>) -> Seq<char> {
    match platform {
        Platform::MacOs => spec_join(
            spec_join(spec_join(base, ".config"@), "rustique"@),
            "config.toml"@,
        ),
        _ => spec_join(spec_join(base, "rustique"@), "config.toml"@),
    }
}

/// The base directory used when the platform reports none.
pub open spec fn spec_fallback_base(platform: Platform) -> Seq<char> {
    match platform {
        Platform::Windows => "C:/"@,
        Platform::MacOs => "/Users/"@,
        Platform::Other => "/etc/"@,
    }
}

impl Config {
    /// The default location of the registry file: the platform's
    /// configuration directory (the home directory on macOS), or a fixed
    /// fallback when the platform reports none, with the tool's directory
    /// and file name joined on.
    pub fn default_config_path(platform: Platform, base: Option<&String>) -> (r: String)
        ensures
            match base {
                Some(b) => r@ == spec_default_config_path(platform, b@),
                None => r@ == spec_default_config_path(platform, spec_fallback_base(platform)),
            },
    {
        let b: &str = match base {
            Some(b) => b.as_str(),
            None => match platform {
                Platform::Windows => "C:/",
                Platform::MacOs => "/Users/",
                Platform::Other => "/etc/",
            },
        };
        match platform {
            Platform::MacOs => {
                let s = join_path(b, ".config");
                let s = join_path(s.as_str(), "rustique");
                join_path(s.as_str(), "config.toml")
            },
            _ => {
                let s = join_path(b, "rustique");
                join_path(s.as_str(), "config.toml")
            },
        }
    }
}

} // verus!
