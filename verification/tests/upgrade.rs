use inderes::skill::{install_skill, Host};
use inderes::upgrade::{
    check_release_status, check_tag, install_script, release_url, upgrade, upgrade_repo,
    version_is_newer, UpgradePlan,
};

#[test]
fn newer_when_patch_increments() {
    assert!(version_is_newer("2026.4.25", "2026.4.26"));
}

#[test]
fn newer_handles_double_digit_correctly() {
    assert!(version_is_newer("2026.4.9", "2026.4.10"));
    assert!(!version_is_newer("2026.4.10", "2026.4.9"));
}

#[test]
fn equal_is_not_newer() {
    assert!(!version_is_newer("2026.4.26", "2026.4.26"));
}

#[test]
fn downgrade_is_not_newer() {
    assert!(!version_is_newer("2026.4.26", "2026.4.25"));
    assert!(!version_is_newer("2026.5.1", "2026.4.99"));
}

#[test]
fn newer_across_minor_and_major() {
    assert!(version_is_newer("2026.4.99", "2026.5.0"));
    assert!(version_is_newer("2026.12.31", "2027.1.1"));
}

#[test]
fn strips_leading_v_in_either_input() {
    assert!(version_is_newer("v2026.4.25", "v2026.4.26"));
    assert!(version_is_newer("2026.4.25", "v2026.4.26"));
}

#[test]
fn unparseable_is_never_newer() {
    assert!(!version_is_newer("not-a-version", "2026.4.26"));
    assert!(!version_is_newer("2026.4.26", "weird-tag"));
    assert!(!version_is_newer("", "2026.4.26"));
}

#[test]
fn a_longer_version_is_newer_than_its_beginning() {
    assert!(version_is_newer("2026.4", "2026.4.0"));
    assert!(!version_is_newer("2026.4.0", "2026.4"));
    assert!(version_is_newer("1", "18446744073709551615"));
    assert!(!version_is_newer("1", "18446744073709551616"));
    assert!(!version_is_newer("vv1", "2"));
    assert!(!version_is_newer("1", "2..3"));
    assert!(version_is_newer("+1.0", "+1.1"));
}

#[test]
fn upgrade_installs_only_what_is_newer_or_forced() {
    let (plan, text) = upgrade("2026.4.26", "v2026.4.26", false, false);
    assert_eq!(plan, UpgradePlan::UpToDate);
    assert_eq!(
        text,
        "Current version: 2026.4.26\nLatest release:  v2026.4.26\n\nAlready up to date.\n"
    );
    let (plan, text) = upgrade("2026.4.26", "v2026.4.27", true, false);
    assert_eq!(plan, UpgradePlan::Available);
    assert!(text.ends_with(
        "\nA newer release is available. Run `inderes upgrade` to install v2026.4.27.\n"
    ));
    assert_eq!(upgrade("1", "2", false, false).0, UpgradePlan::Install);
    assert_eq!(upgrade("2", "1", false, true).0, UpgradePlan::Install);
    assert_eq!(upgrade("2", "1", true, true).0, UpgradePlan::Available);
}

#[test]
fn a_release_is_looked_up_and_checked() {
    assert_eq!(upgrade_repo(None), "heikki-laitala/inderes-cli");
    assert_eq!(upgrade_repo(Some("a/b".into())), "a/b");
    assert_eq!(
        release_url("a/b"),
        "https://api.github.com/repos/a/b/releases/latest"
    );
    assert!(check_release_status(200, "200 OK", "").is_ok());
    assert_eq!(
        check_release_status(404, "404 Not Found", "gone").unwrap_err(),
        "GitHub API returned 404 Not Found: gone"
    );
    assert_eq!(check_tag("v1").unwrap(), "v1");
    assert_eq!(
        check_tag("").unwrap_err(),
        "GitHub release JSON had an empty tag_name"
    );
}

#[test]
fn the_install_command_fails_as_a_whole() {
    assert_eq!(
        install_script("a/b", false),
        "set -euo pipefail; curl -fsSL https://raw.githubusercontent.com/a/b/main/install.sh | bash"
    );
    assert_eq!(
        install_script("a/b", true),
        "$ErrorActionPreference = 'Stop'; iwr -useb https://raw.githubusercontent.com/a/b/main/install.ps1 | iex"
    );
}

#[test]
fn each_host_has_a_name_and_a_place() {
    let names: Vec<&str> = Host::all().iter().map(|h| h.cli_name()).collect();
    assert_eq!(names, vec!["openclaw", "hermes", "ptrclaw"]);
    for h in Host::all() {
        assert_eq!(Host::from_cli_name(h.cli_name()), Some(h));
    }
    assert_eq!(Host::from_cli_name("bogus-host"), None);
    assert_eq!(
        Host::Hermes.default_install_path("/home/me", false),
        "/home/me/.hermes/skills/inderes/SKILL.md"
    );
    // A slash is put only where one is missing, and before nothing at all none.
    assert_eq!(
        Host::Openclaw.default_install_path("/", false),
        "/.openclaw/skills/inderes/SKILL.md"
    );
    assert_eq!(
        Host::Openclaw.default_install_path("", false),
        ".openclaw/skills/inderes/SKILL.md"
    );
    // On Windows both slashes separate, and a drive needs none.
    let on_windows = |home| Host::Ptrclaw.default_install_path(home, true);
    assert_eq!(
        on_windows("C:\\Users\\me"),
        "C:\\Users\\me\\.ptrclaw\\skills\\inderes\\SKILL.md"
    );
    assert_eq!(on_windows("C:\\"), "C:\\.ptrclaw\\skills\\inderes\\SKILL.md");
    assert_eq!(on_windows("C:/"), "C:/.ptrclaw\\skills\\inderes\\SKILL.md");
    assert_eq!(on_windows("C:"), "C:.ptrclaw\\skills\\inderes\\SKILL.md");
    assert_eq!(on_windows("."), ".\\.ptrclaw\\skills\\inderes\\SKILL.md");
    assert_eq!(
        Host::Ptrclaw.default_install_path("/a\\", false),
        "/a\\/.ptrclaw/skills/inderes/SKILL.md"
    );
}

#[test]
fn a_skill_is_overwritten_only_by_force() {
    assert!(install_skill("/x", false, false).is_ok());
    assert!(install_skill("/x", true, true).is_ok());
    assert_eq!(
        install_skill("/x", true, false).unwrap_err(),
        "/x already exists — pass --force to overwrite"
    );
}
