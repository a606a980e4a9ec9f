use sluuz::git::short_remote;

#[test]
fn the_ssh_form_git_prints_by_default() {
    assert_eq!(
        short_remote("git@github.com:safteinzz/sluuz.git"),
        "github.com:safteinzz/sluuz"
    );
    assert_eq!(
        short_remote("git@gitlab.com:safteinzz/sluuz.git"),
        "gitlab.com:safteinzz/sluuz"
    );
}

#[test]
fn https_urls_lose_the_scheme_and_the_dot_git() {
    assert_eq!(
        short_remote("https://gitlab.com/safteinzz/sluuz.git"),
        "gitlab.com:safteinzz/sluuz"
    );
    assert_eq!(
        short_remote("https://github.com/safteinzz/sluuz"),
        "github.com:safteinzz/sluuz"
    );
}

#[test]
fn a_url_loses_its_credentials_and_its_port() {
    assert_eq!(
        short_remote("https://token@github.com/o/r.git"),
        "github.com:o/r"
    );
    assert_eq!(
        short_remote("ssh://git@host.example:2222/o/r.git"),
        "host.example:o/r"
    );
}

#[test]
fn a_self_hosted_path_keeps_every_segment() {
    assert_eq!(
        short_remote("https://git.example.com/team/group/sub/repo.git"),
        "git.example.com:team/group/sub/repo"
    );
}

#[test]
fn a_local_remote_is_named_by_its_tail() {
    assert_eq!(
        short_remote("/home/me/projects/sluuz/test-playground/crates/vibox.git"),
        "…/crates/vibox"
    );
    assert_eq!(short_remote("../mirror/repo.git"), "…/mirror/repo");
    assert_eq!(short_remote("/srv/repo.git"), "/srv/repo");
}

#[test]
fn something_unparseable_comes_back_as_it_went_in() {
    assert_eq!(short_remote("weird"), "weird");
    assert_eq!(short_remote(""), "");
}
