//! Whether there is a newer release, and how it is installed.

use vstd::prelude::*;

use crate::mcp;
use crate::text;

verus! {

/// The repository whose releases are looked at, unless the environment names another.
pub const DEFAULT_REPO: &'static str = "heikki-laitala/inderes-cli";

// --- versions -----------------------------------------------------------------------------

/// A version without the `v` that a tag begins with.
pub open spec fn without_v(s: Seq<char>) -> Seq<char> {
    if s.len() > 0 && s[0] == 'v' {
        s.skip(1)
    } else {
        s
    }
}

/// The numbers that texts stand for, if all of them stand for numbers.
pub open spec fn all_numbers(parts: Seq<Seq<char>>) -> Option<Seq<nat>>
    decreases parts.len(),
{
    if parts.len() == 0 {
        Some(seq![])
    } else {
        match (all_numbers(parts.drop_last()), text::parsed_nat(parts.last())) {
            (Some(before), Some(n)) => Some(before.push(n)),
            _ => None,
        }
    }
}

/// The numbers of a version, if it is made of numbers with dots between them.
pub open spec fn version_numbers(s: Seq<char>) -> Option<Seq<nat>> {
    all_numbers(text::pieces(without_v(s), '.'))
}

/// Whether numbers come before others: at the first place where they differ the lower number
/// comes first, and where one list ends there it comes first.
pub open spec fn comes_before(a: Seq<nat>, b: Seq<nat>) -> bool
    decreases a.len(),
{
    if b.len() == 0 {
        false
    } else if a.len() == 0 {
        true
    } else if a[0] != b[0] {
        a[0] < b[0]
    } else {
        comes_before(a.skip(1), b.skip(1))
    }
}

/// Whether a version is newer than the current one. One that cannot be read is not.
pub open spec fn is_newer(current: Seq<char>, candidate: Seq<char>) -> bool {
    match (version_numbers(current), version_numbers(candidate)) {
        (Some(c), Some(l)) => comes_before(c, l),
        _ => false,
    }
}

/// The numbers as natural numbers.
pub open spec fn as_nats(v: Seq<u64>) -> Seq<nat> {
    v.map_values(|n: u64| n as nat)
}

/// The numbers of a version.
fn parse_version(s: &str) -> (r: Option<Vec<u64>>)
    ensures
        match r {
            Some(v) => version_numbers(s@) == Some(as_nats(v@)),
            None => version_numbers(s@) is None,
        },
{
    proof {
        reveal_strlit("v");
    }
    let bare = match text::strip_prefix(s, "v") {
        Some(rest) => rest,
        None => s.to_owned(),
    };
    assert(bare@ == without_v(s@)) by {
        if s@.len() > 0 {
            assert(s@.subrange(0, 1)[0] == s@[0]);
            if s@[0] == 'v' {
                assert(s@.subrange(0, 1) == "v"@);
            }
        }
    }
    let parts = text::split(bare.as_str(), '.');
    let ghost all = text::texts(parts@);
    let mut out: Vec<u64> = Vec::new();
    let mut i: usize = 0;
    assert(as_nats(out@) == Seq::<nat>::empty());
    while i < parts.len()
        invariant
            i <= parts@.len(),
            all == text::texts(parts@),
            version_numbers(s@) == all_numbers(all),
            all_numbers(all.take(i as int)) == Some(as_nats(out@)),
        decreases parts@.len() - i,
    {
        let ghost before = out@;
        assert(all.take(i + 1).drop_last() == all.take(i as int));
        assert(all.take(i + 1).last() == parts@[i as int]@);
        match text::parse_u64(parts[i].as_str()) {
            None => {
                proof {
                    lemma_one_bad(all, i + 1);
                }
                return None;
            },
            Some(n) => {
                out.push(n);
                assert(as_nats(out@) == as_nats(before).push(n as nat));
            },
        }
        i += 1;
    }
    assert(all.take(i as int) == all);
    Some(out)
}

proof fn lemma_one_bad(parts: Seq<Seq<char>>, n: int)
    requires
        0 <= n <= parts.len(),
        all_numbers(parts.take(n)) is None,
    ensures
        all_numbers(parts) is None,
    decreases parts.len(),
{
    if n == parts.len() {
        assert(parts.take(n) == parts);
    } else {
        assert(parts.drop_last().take(n) == parts.take(n));
        lemma_one_bad(parts.drop_last(), n);
    }
}

/// Whether a version is newer than the current one.
pub fn version_is_newer(current: &str, candidate: &str) -> (r: bool)
    ensures
        r == is_newer(current@, candidate@),
{
    match (parse_version(current), parse_version(candidate)) {
        (Some(c), Some(l)) => {
            let ghost a = as_nats(c@);
            let ghost b = as_nats(l@);
            assert(a.skip(0) == a);
            assert(b.skip(0) == b);
            let mut i: usize = 0;
            while i < c.len() && i < l.len()
                invariant
                    i <= c@.len(),
                    i <= l@.len(),
                    a == as_nats(c@),
                    b == as_nats(l@),
                    is_newer(current@, candidate@) == comes_before(a, b),
                    comes_before(a, b) == comes_before(a.skip(i as int), b.skip(i as int)),
                decreases c@.len() - i,
            {
                assert(a.skip(i as int).skip(1) == a.skip(i + 1));
                assert(b.skip(i as int).skip(1) == b.skip(i + 1));
                if c[i] != l[i] {
                    return c[i] < l[i];
                }
                i += 1;
            }
            i < l.len()
        },
        _ => false,
    }
}

// --- what to do ---------------------------------------------------------------------------

/// What an upgrade comes to.
#[derive(Clone, Copy, Debug, PartialEq, Eq, Structural)]
pub enum UpgradePlan {
    /// There is nothing newer, and nothing was forced.
    UpToDate,
    /// The release would be installed, since it is newer or was forced, but a mere look was
    /// asked for.
    Available,
    /// The release is to be installed.
    Install,
}

/// What an upgrade comes to: without force only a newer release counts, and a mere look
/// installs nothing.
pub open spec fn plan_for(
    current: Seq<char>,
    latest_tag: Seq<char>,
    check_only: bool,
    force: bool,
) -> UpgradePlan {
    if !is_newer(current, without_v(latest_tag)) && !force {
        UpgradePlan::UpToDate
    } else if check_only {
        UpgradePlan::Available
    } else {
        UpgradePlan::Install
    }
}

/// What is said at the start of an upgrade.
pub open spec fn plan_text(current: Seq<char>, latest_tag: Seq<char>, plan: UpgradePlan) -> Seq<
    char,
> {
    "Current version: "@ + current + "\nLatest release:  "@ + latest_tag + "\n"@ + (match plan {
        UpgradePlan::UpToDate => "\nAlready up to date.\n"@,
        UpgradePlan::Available => {
            "\nA newer release is available. Run `inderes upgrade` to install "@ + latest_tag
                + ".\n"@
        },
        UpgradePlan::Install => ""@,
    })
}

/// What an upgrade comes to, and what is said of it.
pub fn upgrade(current: &str, latest_tag: &str, check_only: bool, force: bool) -> (r: (
    UpgradePlan,
    String,
))
    ensures
        r.0 == plan_for(current@, latest_tag@, check_only, force),
        r.1@ == plan_text(current@, latest_tag@, r.0),
{
    let v = text::chars_of(latest_tag);
    let latest = if v.len() > 0 && v[0] == 'v' {
        text::slice(&v, 1, v.len())
    } else {
        latest_tag.to_owned()
    };
    assert(latest@ == without_v(latest_tag@));
    let mut out = "Current version: ".to_owned();
    out.append(current);
    out.append("\nLatest release:  ");
    out.append(latest_tag);
    out.append("\n");
    if !version_is_newer(current, latest.as_str()) && !force {
        out.append("\nAlready up to date.\n");
        (UpgradePlan::UpToDate, out)
    } else if check_only {
        let mut more =
            "\nA newer release is available. Run `inderes upgrade` to install ".to_owned();
        more.append(latest_tag);
        more.append(".\n");
        out.append(more.as_str());
        (UpgradePlan::Available, out)
    } else {
        out.append("");
        (UpgradePlan::Install, out)
    }
}

/// The repository whose releases are looked at.
pub fn upgrade_repo(from_env: Option<String>) -> (r: String)
    ensures
        r@ == text::or_text(text::seen_string(from_env), DEFAULT_REPO@),
{
    match from_env {
        Some(repo) => repo,
        None => DEFAULT_REPO.to_owned(),
    }
}

/// Where the latest release of a repository is described.
pub fn release_url(repo: &str) -> (r: String)
    ensures
        r@ == "https://api.github.com/repos/"@ + repo@ + "/releases/latest"@,
{
    let mut r = "https://api.github.com/repos/".to_owned();
    r.append(repo);
    r.append("/releases/latest");
    r
}

/// Whether the answer on the latest release can be used; where not, in words why.
pub fn check_release_status(status: u16, status_text: &str, body: &str) -> (r: Result<(), String>)
    ensures
        r is Ok <==> mcp::success(status),
        r matches Err(e) ==> e@ == "GitHub API returned "@ + status_text@ + ": "@ + body@,
{
    if mcp::is_success(status) {
        Ok(())
    } else {
        let mut e = "GitHub API returned ".to_owned();
        e.append(status_text);
        e.append(": ");
        e.append(body);
        Err(e)
    }
}

/// The tag of a release; an empty one is none.
pub fn check_tag(tag: &str) -> (r: Result<String, String>)
    ensures
        match r {
            Ok(t) => tag@.len() > 0 && t@ == tag@,
            Err(e) => tag@.len() == 0 && e@ == "GitHub release JSON had an empty tag_name"@,
        },
{
    if tag.is_empty() {
        Err("GitHub release JSON had an empty tag_name".to_owned())
    } else {
        Ok(tag.to_owned())
    }
}

/// The command that installs a release, for the shell of the system. Either fails as a whole
/// where the script cannot be had.
pub open spec fn install_command(repo: Seq<char>, windows: bool) -> Seq<char> {
    if windows {
        "$ErrorActionPreference = 'Stop'; iwr -useb https://raw.githubusercontent.com/"@ + repo
            + "/main/install.ps1 | iex"@
    } else {
        "set -euo pipefail; curl -fsSL https://raw.githubusercontent.com/"@ + repo
            + "/main/install.sh | bash"@
    }
}

/// The command that installs a release.
pub fn install_script(repo: &str, windows: bool) -> (r: String)
    ensures
        r@ == install_command(repo@, windows),
{
    if windows {
        let mut r =
            "$ErrorActionPreference = 'Stop'; iwr -useb https://raw.githubusercontent.com/".to_owned();
        r.append(repo);
        r.append("/main/install.ps1 | iex");
        r
    } else {
        let mut r = "set -euo pipefail; curl -fsSL https://raw.githubusercontent.com/".to_owned();
        r.append(repo);
        r.append("/main/install.sh | bash");
        r
    }
}

// --- laws ---------------------------------------------------------------------------------

proof fn lemma_not_before_itself(a: Seq<nat>)
    ensures
        !comes_before(a, a),
    decreases a.len(),
{
    if a.len() > 0 {
        lemma_not_before_itself(a.skip(1));
    }
}

proof fn lemma_before_one_way(a: Seq<nat>, b: Seq<nat>)
    requires
        comes_before(a, b),
    ensures
        !comes_before(b, a),
    decreases a.len(),
{
    if a.len() > 0 && b.len() > 0 && a[0] == b[0] {
        lemma_before_one_way(a.skip(1), b.skip(1));
    }
}

proof fn lemma_before_carries_on(a: Seq<nat>, b: Seq<nat>, c: Seq<nat>)
    requires
        comes_before(a, b),
        comes_before(b, c),
    ensures
        comes_before(a, c),
    decreases a.len(),
{
    if a.len() > 0 && b.len() > 0 && c.len() > 0 && a[0] == b[0] && b[0] == c[0] {
        lemma_before_carries_on(a.skip(1), b.skip(1), c.skip(1));
    }
}

/// No version is newer than itself.
pub proof fn law_no_version_is_newer_than_itself(a: Seq<char>)
    ensures
        !is_newer(a, a),
{
    if let Some(n) = version_numbers(a) {
        lemma_not_before_itself(n);
    }
}

/// Of two versions at most one is newer than the other.
pub proof fn law_newer_goes_one_way(a: Seq<char>, b: Seq<char>)
    requires
        is_newer(a, b),
    ensures
        !is_newer(b, a),
{
    lemma_before_one_way(version_numbers(a)->0, version_numbers(b)->0);
}

/// What is newer than a newer version is newer.
pub proof fn law_newer_carries_on(a: Seq<char>, b: Seq<char>, c: Seq<char>)
    requires
        is_newer(a, b),
        is_newer(b, c),
    ensures
        is_newer(a, c),
{
    lemma_before_carries_on(
        version_numbers(a)->0,
        version_numbers(b)->0,
        version_numbers(c)->0,
    );
}

/// A leading `v` makes no difference.
pub proof fn law_leading_v_makes_no_difference(a: Seq<char>, b: Seq<char>)
    requires
        a.len() == 0 || a[0] != 'v',
    ensures
        is_newer(seq!['v'] + a, b) == is_newer(a, b),
        is_newer(b, seq!['v'] + a) == is_newer(b, a),
{
    assert((seq!['v'] + a).skip(1) == a);
}

/// A version that cannot be read is never newer, and nothing is newer than it.
pub proof fn law_unreadable_is_never_newer(a: Seq<char>, b: Seq<char>)
    requires
        version_numbers(a) is None,
    ensures
        !is_newer(a, b),
        !is_newer(b, a),
{
}

/// Nothing is installed unless it is newer or forced, nor where only a look was asked for.
pub proof fn law_only_newer_is_installed(
    current: Seq<char>,
    latest_tag: Seq<char>,
    check_only: bool,
    force: bool,
)
    ensures
        plan_for(current, latest_tag, check_only, force) == UpgradePlan::Install ==> !check_only
            && (force || is_newer(current, without_v(latest_tag))),
{
}

/// Of two versions the one with the smaller number at the first place where they differ comes
/// first; where one is the beginning of the other, the shorter one does.
pub proof fn law_first_difference_decides(same: Seq<nat>, a: Seq<nat>, b: Seq<nat>, x: nat, y: nat)
    requires
        x < y,
    ensures
        comes_before(same.push(x) + a, same.push(y) + b),
        !comes_before(same.push(y) + b, same.push(x) + a),
        comes_before(same, same.push(x) + a),
        !comes_before(same.push(x) + a, same),
        !comes_before(same, same),
    decreases same.len(),
{
    let p = same.push(x) + a;
    let q = same.push(y) + b;
    if same.len() == 0 {
        assert(p[0] == x && q[0] == y);
    } else {
        let rest = same.skip(1);
        law_first_difference_decides(rest, a, b, x, y);
        assert(p.skip(1) == rest.push(x) + a);
        assert(q.skip(1) == rest.push(y) + b);
        assert(p[0] == same[0] && q[0] == same[0]);
    }
}

/// The texts of numbers.
pub open spec fn number_texts(numbers: Seq<nat>) -> Seq<Seq<char>> {
    numbers.map_values(|n: nat| text::nat_text(n))
}

proof fn lemma_numbers_read_back(numbers: Seq<nat>)
    requires
        forall|i: int| 0 <= i < numbers.len() ==> #[trigger] numbers[i] <= u64::MAX,
    ensures
        all_numbers(number_texts(numbers)) == Some(numbers),
    decreases numbers.len(),
{
    let texts = number_texts(numbers);
    if numbers.len() > 0 {
        let before = numbers.drop_last();
        assert forall|i: int| 0 <= i < before.len() implies #[trigger] before[i] <= u64::MAX by {
            assert(before[i] == numbers[i]);
        }
        lemma_numbers_read_back(before);
        let n = numbers[numbers.len() - 1];
        assert(texts.drop_last() == number_texts(before));
        assert(texts.last() == text::nat_text(n));
        text::lemma_digits_read_back(n);
        assert('0' <= text::nat_text(n)[0] <= '9');
        text::law_sign_stands_first(text::nat_text(n));
        assert(before.push(n) == numbers);
    }
}

/// A version made of numbers with dots between them is read as those numbers, however many they
/// are, with a `v` before them or none.
pub proof fn law_version_reads_back(numbers: Seq<nat>)
    requires
        numbers.len() > 0,
        forall|i: int| 0 <= i < numbers.len() ==> #[trigger] numbers[i] <= u64::MAX,
    ensures
        version_numbers(text::joined(number_texts(numbers), seq!['.'])) == Some(numbers),
        version_numbers(seq!['v'] + text::joined(number_texts(numbers), seq!['.'])) == Some(numbers),
{
    let texts = number_texts(numbers);
    let s = text::joined(texts, seq!['.']);
    assert forall|i: int| 0 <= i < texts.len() implies !(#[trigger] texts[i]).contains('.') by {
        assert(texts[i] == text::nat_text(numbers[i]));
        text::lemma_digits_read_back(numbers[i]);
    }
    text::lemma_pieces_of_joined(texts, '.');
    lemma_numbers_read_back(numbers);
    text::law_pieces_make_up_the_text(s, '.');
    text::lemma_digits_read_back(numbers[0]);
    assert(texts[0] == text::nat_text(numbers[0]));
    lemma_joined_begins(texts, seq!['.']);
    assert(s[0] == texts[0][0]);
    assert((seq!['v'] + s).skip(1) == s);
}

proof fn lemma_joined_begins(parts: Seq<Seq<char>>, sep: Seq<char>)
    requires
        parts.len() > 0,
        parts[0].len() > 0,
    ensures
        text::joined(parts, sep).len() > 0,
        text::joined(parts, sep)[0] == parts[0][0],
    decreases parts.len(),
{
    if parts.len() > 1 {
        lemma_joined_begins(parts.drop_last(), sep);
    }
}

/// What is to be done: a newer release is installed, or only named where only a look was asked
/// for; one that is not newer is left alone unless it is forced.
pub proof fn law_newer_is_installed(
    current: Seq<char>,
    latest_tag: Seq<char>,
    check_only: bool,
    force: bool,
)
    ensures
        ({
            let wanted = force || is_newer(current, without_v(latest_tag));
            let plan = plan_for(current, latest_tag, check_only, force);
            &&& plan == UpgradePlan::Install <==> wanted && !check_only
            &&& plan == UpgradePlan::Available <==> wanted && check_only
            &&& plan == UpgradePlan::UpToDate <==> !wanted
        }),
        ({
            let said = plan_text(current, latest_tag, plan_for(current, latest_tag, check_only, force));
            text::holds(said, current) && text::holds(said, latest_tag)
        }),
{
    let plan = plan_for(current, latest_tag, check_only, force);
    let said = plan_text(current, latest_tag, plan);
    let end = match plan {
        UpgradePlan::UpToDate => "\nAlready up to date.\n"@,
        UpgradePlan::Available => {
            "\nA newer release is available. Run `inderes upgrade` to install "@ + latest_tag
                + ".\n"@
        },
        UpgradePlan::Install => ""@,
    };
    let rest = "\nLatest release:  "@ + latest_tag + "\n"@ + end;
    text::lemma_holds("Current version: "@, current, rest);
    assert("Current version: "@ + current + rest == said);
    text::lemma_holds(
        "Current version: "@ + current + "\nLatest release:  "@,
        latest_tag,
        "\n"@ + end,
    );
    assert("Current version: "@ + current + "\nLatest release:  "@ + latest_tag + ("\n"@ + end)
        == said);
}

/// The command that installs a release fetches the script of the repository.
pub proof fn law_install_command_names_the_repository(repo: Seq<char>, windows: bool)
    ensures
        text::holds(install_command(repo, windows), repo),
        !windows ==> text::holds(install_command(repo, windows), "/main/install.sh | bash"@),
        windows ==> text::holds(install_command(repo, windows), "/main/install.ps1 | iex"@),
{
    let w = "$ErrorActionPreference = 'Stop'; iwr -useb https://raw.githubusercontent.com/"@;
    let u = "set -euo pipefail; curl -fsSL https://raw.githubusercontent.com/"@;
    text::lemma_holds(w, repo, "/main/install.ps1 | iex"@);
    text::lemma_holds(u, repo, "/main/install.sh | bash"@);
    text::lemma_holds(w + repo, "/main/install.ps1 | iex"@, seq![]);
    text::lemma_holds(u + repo, "/main/install.sh | bash"@, seq![]);
    assert(w + repo + "/main/install.ps1 | iex"@ + Seq::<char>::empty() == w + repo
        + "/main/install.ps1 | iex"@);
    assert(u + repo + "/main/install.sh | bash"@ + Seq::<char>::empty() == u + repo
        + "/main/install.sh | bash"@);
}

} // verus!
