//! The installer's decisions: validating the operator's target path,
//! suggesting a server name, the jar's place inside the directory, the
//! EULA acknowledgment text, and building the record that is registered.

use vstd::prelude::*;
use vstd::string::StringExecFns;
use crate::registry::Server;
use crate::text::{chars_of, str_eq, string_from_chars};

verus! {

/// A proposed installation path is accepted exactly when it begins with
/// `./`, making it non-empty and relative.
pub open spec fn spec_valid_install_path(s: Seq<char>) -> bool {
    s.len() >= 2 && s[0] == '.' && s[1] == '/'
}

/// Decides whether a proposed installation path is accepted.
pub fn validate_install_path(s: &str) -> (b: bool)
    ensures
        b == spec_valid_install_path(s@),
{
    let n = s.unicode_len();
    n >= 2 && s.get_char(0) == '.' && s.get_char(1) == '/'
}

/// The path with every `./` occurrence removed, left to right.
pub open spec fn spec_strip_dot_slash(s: Seq<char>) -> Seq<char>
    decreases s.len(),
{
    if s.len() < 2 {
        s
    } else if s[0] == '.' && s[1] == '/' {
        spec_strip_dot_slash(s.skip(2))
    } else {
        seq![s[0]] + spec_strip_dot_slash(s.drop_first())
    }
}

/// The name suggested for a server installed at `path`: the path with the
/// `./` markers removed.
pub fn suggested_name(path: &str) -> (r: String)
    ensures
        r@ == spec_strip_dot_slash(path@),
{
    let cs = chars_of(path);
    let n = cs.len();
    let mut out: Vec<char> = Vec::new();
    let mut i: usize = 0;
    proof {
        assert(path@.skip(0) =~= path@);
        assert(out@ + spec_strip_dot_slash(path@) =~= spec_strip_dot_slash(path@));
    }
    while i < n
        invariant
            cs@ == path@,
            n == cs@.len(),
            i <= n,
            spec_strip_dot_slash(path@) == out@ + spec_strip_dot_slash(path@.skip(i as int)),
        decreases n - i,
    {
        let ghost rem = path@.skip(i as int);
        let ghost prev = out@;
        proof {
            assert(rem[0] == path@[i as int]);
            if rem.len() >= 2 {
                assert(rem[1] == path@[i as int + 1]);
            }
        }
        if i + 1 < n && cs[i] == '.' && cs[i + 1] == '/' {
            proof {
                assert(rem.skip(2) =~= path@.skip(i as int + 2));
            }
            i += 2;
        } else {
            out.push(cs[i]);
            proof {
                assert(rem.drop_first() =~= path@.skip(i as int + 1));
                assert(prev + (seq![rem[0]] + spec_strip_dot_slash(rem.drop_first())) =~= out@
                    + spec_strip_dot_slash(rem.drop_first()));
                if rem.len() < 2 {
                    assert(rem =~= seq![rem[0]] + rem.drop_first());
                    assert(spec_strip_dot_slash(rem.drop_first()) == rem.drop_first());
                }
            }
            i += 1;
        }
    }
    proof {
        assert(path@.skip(n as int).len() == 0);
        assert(out@ + path@.skip(n as int) =~= out@);
    }
    string_from_chars(&out)
}

/// Where the downloaded jar is placed inside the installation directory.
pub fn server_jar_path(dir: &str) -> (r: String)
    ensures
        r@ == dir@ + "/server.jar"@,
{
    let mut s = dir.to_owned();
    s.append("/server.jar");
    s
}

/// The one-line acknowledgment written when the operator accepts the EULA.
pub fn eula_contents() -> (r: String)
    ensures
        r@ == "eula=true\n"@,
{
    let mut s = String::new();
    s.append("eula=true\n");
    proof {
        assert(s@ =~= ("eula=true\n")@);
    }
    s
}

/// Whether `s` is one of the offered choices — how the operator's version
/// and build answers are validated.
pub fn contains_string(choices: &Vec<String>, s: &str) -> (b: bool)
    ensures
        b == (exists|i: int| 0 <= i < choices@.len() && choices@[i]@ == s@),
{
    let n = choices.len();
    let mut i: usize = 0;
    while i < n
        invariant
            n == choices@.len(),
            i <= n,
            forall|k: int| 0 <= k < i ==> choices@[k]@ != s@,
        decreases n - i,
    {
        if str_eq(choices[i].as_str(), s) {
            return true;
        }
        i += 1;
    }
    false
}

impl Server {
    /// The record the installer registers after a successful install.
    pub fn build_record(name: &str, path: &str, server_type: &str, version: &str) -> (r: Server)
        ensures
            r@.name == name@,
            r@.path == path@,
            r@.server_type == server_type@,
            r@.version == version@,
    {
        Server {
            name: name.to_owned(),
            path: path.to_owned(),
            server_type: server_type.to_owned(),
            version: version.to_owned(),
        }
    }
}

} // verus!
