//! The hosts that can load the skill, and where each looks for it.

use vstd::prelude::*;

use crate::text;

verus! {

/// A host that loads skills.
#[derive(Clone, Copy, Debug, PartialEq, Eq, Structural)]
pub enum Host {
    Openclaw,
    Hermes,
    Ptrclaw,
}

impl Host {
    /// The name of the host on the command line.
    pub open spec fn name(&self) -> Seq<char> {
        match self {
            Host::Openclaw => "openclaw"@,
            Host::Hermes => "hermes"@,
            Host::Ptrclaw => "ptrclaw"@,
        }
    }

    /// All hosts.
    pub fn all() -> (r: [Host; 3])
        ensures
            r@ == seq![Host::Openclaw, Host::Hermes, Host::Ptrclaw],
    {
        [Host::Openclaw, Host::Hermes, Host::Ptrclaw]
    }

    /// The name of the host on the command line.
    pub fn cli_name(&self) -> (r: &'static str)
        ensures
            r@ == self.name(),
    {
        match self {
            Host::Openclaw => "openclaw",
            Host::Hermes => "hermes",
            Host::Ptrclaw => "ptrclaw",
        }
    }

    /// The host with the name.
    pub fn from_cli_name(name: &str) -> (r: Option<Host>)
        ensures
            match r {
                Some(h) => h.name() == name@,
                None => forall|h: Host| #[trigger] h.name() != name@,
            },
    {
        if text::same(name, "openclaw") {
            Some(Host::Openclaw)
        } else if text::same(name, "hermes") {
            Some(Host::Hermes)
        } else if text::same(name, "ptrclaw") {
            Some(Host::Ptrclaw)
        } else {
            None
        }
    }

    /// Where the host looks for the skill, below a home directory.
    pub open spec fn place(&self, home: Seq<char>, windows: bool) -> Seq<char> {
        let host = entered(home, windows) + "."@ + self.name();
        if windows {
            host + "\\skills\\inderes\\SKILL.md"@
        } else {
            host + "/skills/inderes/SKILL.md"@
        }
    }

    /// Where the host looks for the skill, below a home directory.
    pub fn default_install_path(&self, home: &str, windows: bool) -> (r: String)
        ensures
            r@ == self.place(home@, windows),
    {
        let v = text::chars_of(home);
        let mut r = home.to_owned();
        if v.len() > 0 && !separates(v[v.len() - 1], windows) && !(windows && names_drive(&v)) {
            if windows {
                r.push('\\');
            } else {
                r.push('/');
            }
        }
        assert(r@ == entered(home@, windows));
        r.append(".");
        r.append(self.cli_name());
        if windows {
            r.append("\\skills\\inderes\\SKILL.md");
        } else {
            r.append("/skills/inderes/SKILL.md");
        }
        r
    }
}

/// Whether a character separates the names in a path.
pub open spec fn is_separator(c: char, windows: bool) -> bool {
    c == '/' || (windows && c == '\\')
}

/// Whether a path is a drive of Windows and nothing more.
pub open spec fn is_drive(path: Seq<char>) -> bool {
    path.len() == 2 && ('a' <= path[0] <= 'z' || 'A' <= path[0] <= 'Z') && path[1] == ':'
}

/// What stands before a name in a directory: its path and a separator, unless the path is
/// empty, ends in a separator, or is a drive.
pub open spec fn entered(dir: Seq<char>, windows: bool) -> Seq<char> {
    if dir.len() == 0 || is_separator(dir.last(), windows) || (windows && is_drive(dir)) {
        dir
    } else if windows {
        dir.push('\\')
    } else {
        dir.push('/')
    }
}

/// Whether a character separates the names in a path.
fn separates(c: char, windows: bool) -> (r: bool)
    ensures
        r == is_separator(c, windows),
{
    c == '/' || (windows && c == '\\')
}

/// Whether a path is a drive of Windows and nothing more.
fn names_drive(path: &Vec<char>) -> (r: bool)
    ensures
        r == is_drive(path@),
{
    path.len() == 2 && (('a' <= path[0] && path[0] <= 'z') || ('A' <= path[0] && path[0] <= 'Z'))
        && path[1] == ':'
}

/// Whether the skill may be written where `present` says whether something is there; where not,
/// in words why.
pub fn install_skill(path: &str, present: bool, force: bool) -> (r: Result<(), String>)
    ensures
        r is Ok <==> (!present || force),
        r matches Err(e) ==> e@ == path@ + " already exists — pass --force to overwrite"@,
{
    if present && !force {
        let mut e = path.to_owned();
        e.append(" already exists — pass --force to overwrite");
        Err(e)
    } else {
        Ok(())
    }
}

/// No two hosts look in the same place.
pub proof fn law_hosts_have_their_own_places(a: Host, b: Host, home: Seq<char>, windows: bool)
    requires
        a.place(home, windows) == b.place(home, windows),
    ensures
        a == b,
{
    reveal_strlit("openclaw");
    reveal_strlit("hermes");
    reveal_strlit("ptrclaw");
    assert("openclaw"@.len() == 8 && "hermes"@.len() == 6 && "ptrclaw"@.len() == 7);
    let below = if windows {
        "\\skills\\inderes\\SKILL.md"@
    } else {
        "/skills/inderes/SKILL.md"@
    };
    let around = entered(home, windows).len() + "."@.len() + below.len();
    assert(a.place(home, windows).len() == around + a.name().len());
    assert(b.place(home, windows).len() == around + b.name().len());
}

/// A skill stands in the home directory, in the directory of its host, under the name that the
/// host looks for.
pub proof fn law_skill_stands_at_home(host: Host, home: Seq<char>, windows: bool)
    ensures
        text::begins(host.place(home, windows), home),
        ({
            let name = "."@ + host.name();
            let end = if windows {
                "\\skills\\inderes\\SKILL.md"@
            } else {
                "/skills/inderes/SKILL.md"@
            };
            let place = host.place(home, windows);
            &&& place == home + name + end || place == home.push('/') + name + end || place
                == home.push('\\') + name + end
            &&& !windows && home.len() > 0 && home.last() != '/' ==> place == home.push('/') + name
                + end
            &&& !windows && home.len() > 0 && home.last() == '/' ==> place == home + name + end
        }),
{
    let place = host.place(home, windows);
    assert(place.subrange(0, home.len() as int) == home);
    let name = "."@ + host.name();
    let end = if windows {
        "\\skills\\inderes\\SKILL.md"@
    } else {
        "/skills/inderes/SKILL.md"@
    };
    assert(entered(home, windows) + name + end == entered(home, windows) + "."@ + host.name() + end);
}

} // verus!
