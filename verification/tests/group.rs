use gh_release_watcher::group::{ensure_slash, latest_release_url, Forge, UrlError, UrlGroup};

#[test]
fn forges_have_their_bases_and_names() {
    assert_eq!(Forge::Github.base(), "https://github.com");
    assert_eq!(Forge::Gitlab.base(), "https://gitlab.com");
    assert_eq!(Forge::Github.name(), "github");
    assert_eq!(Forge::Gitlab.name(), "gitlab");
    assert_eq!(UrlGroup::new(Forge::Gitlab).base(), "https://gitlab.com");
    assert_eq!(UrlGroup::new(Forge::Gitlab).forge(), Forge::Gitlab);
}

#[test]
fn url_of_a_repository_ends_in_releases_latest() {
    let group = UrlGroup::new(Forge::Github);
    assert_eq!(
        group.url("neovim/neovim").unwrap(),
        "https://github.com/neovim/neovim/releases/latest"
    );
    assert_eq!(
        UrlGroup::new(Forge::Gitlab).url("gitlab-org/gitlab").unwrap(),
        "https://gitlab.com/gitlab-org/gitlab/releases/latest"
    );
}

#[test]
fn trailing_slash_of_a_repository_changes_nothing() {
    let group = UrlGroup::new(Forge::Github);
    assert_eq!(group.url("a/b/").unwrap(), "https://github.com/a/b/releases/latest");
    assert_eq!(group.url("a/b").unwrap(), "https://github.com/a/b/releases/latest");
}

#[test]
fn base_is_normalised_to_end_with_a_slash() {
    assert_eq!(
        latest_release_url("https://example.org/forge", "a/b").unwrap(),
        "https://example.org/forge/a/b/releases/latest"
    );
    assert_eq!(
        latest_release_url("https://example.org/forge/", "a/b").unwrap(),
        "https://example.org/forge/a/b/releases/latest"
    );
}

#[test]
fn repository_is_resolved_as_a_reference() {
    assert_eq!(
        latest_release_url("https://example.org/forge", "/a").unwrap(),
        "https://example.org/a/releases/latest"
    );
    assert_eq!(
        latest_release_url("https://example.org/forge", "a b").unwrap(),
        "https://example.org/forge/a%20b/releases/latest"
    );
}

#[test]
fn empty_parts_make_no_url() {
    assert_eq!(UrlGroup::new(Forge::Github).url("").unwrap_err(), UrlError::Empty);
    assert_eq!(latest_release_url("", "a/b").unwrap_err(), UrlError::Empty);
}

#[test]
fn base_that_is_no_absolute_url_makes_no_url() {
    assert_eq!(latest_release_url("forge", "a/b").unwrap_err(), UrlError::Unresolvable);
    assert_eq!(
        latest_release_url("https://example.org", "//").unwrap_err(),
        UrlError::Unresolvable
    );
}

#[test]
fn ensure_slash_adds_one_slash_at_most() {
    assert_eq!(ensure_slash("a"), "a/");
    assert_eq!(ensure_slash("a/"), "a/");
    assert_eq!(ensure_slash(""), "/");
    assert_eq!(ensure_slash("/"), "/");
}

#[test]
fn insert_keeps_the_identifiers_in_order() {
    let mut group = UrlGroup::new(Forge::Github);
    assert_eq!(group.insert("m/m".to_string(), "1".to_string()), None);
    assert_eq!(group.insert("a/a".to_string(), "2".to_string()), None);
    assert_eq!(group.insert("z/z".to_string(), "3".to_string()), None);
    assert_eq!(group.insert("m/a".to_string(), "4".to_string()), None);
    let ids: Vec<&str> = group.data().iter().map(|e| e.id.as_str()).collect();
    assert_eq!(ids, vec!["a/a", "m/a", "m/m", "z/z"]);
    assert_eq!(group.len(), 4);
}

#[test]
fn insert_of_a_watched_repository_replaces_its_version() {
    let mut group = UrlGroup::new(Forge::Github);
    group.insert("a".to_string(), "1".to_string());
    group.insert("b".to_string(), "2".to_string());
    assert_eq!(group.insert("a".to_string(), "3".to_string()), Some("1".to_string()));
    assert_eq!(group.len(), 2);
    assert_eq!(group.version("a"), Some(&"3".to_string()));
    assert_eq!(group.version("b"), Some(&"2".to_string()));
}

#[test]
fn order_is_that_of_code_points() {
    let mut group = UrlGroup::new(Forge::Github);
    for id in ["b", "B", "a/b", "a", "é", "~", "ab", ""] {
        group.insert(id.to_string(), "1".to_string());
    }
    let ids: Vec<&str> = group.data().iter().map(|e| e.id.as_str()).collect();
    let mut sorted = ids.clone();
    sorted.sort();
    assert_eq!(ids, sorted);
    assert_eq!(ids, vec!["", "B", "a", "a/b", "ab", "b", "~", "é"]);
}

#[test]
fn position_and_version_find_what_is_watched() {
    let mut group = UrlGroup::new(Forge::Gitlab);
    group.insert("b".to_string(), "2".to_string());
    group.insert("a".to_string(), "1".to_string());
    assert_eq!(group.position("a"), Some(0));
    assert_eq!(group.position("b"), Some(1));
    assert_eq!(group.position("c"), None);
    assert_eq!(group.position("0"), None);
    assert_eq!(group.version("c"), None);
    assert_eq!(group.version("b"), Some(&"2".to_string()));
}

#[test]
fn set_version_changes_one_version() {
    let mut group = UrlGroup::new(Forge::Gitlab);
    group.insert("b".to_string(), "2".to_string());
    group.insert("a".to_string(), "1".to_string());
    assert!(group.set_version(1, "5".to_string()));
    assert!(!group.set_version(2, "6".to_string()));
    assert_eq!(group.len(), 2);
    assert_eq!(group.data()[0].id, "a");
    assert_eq!(group.data()[0].version, "1");
    assert_eq!(group.data()[1].id, "b");
    assert_eq!(group.data()[1].version, "5");
}

#[test]
fn same_as_compares_forge_repositories_and_versions() {
    let mut a = UrlGroup::new(Forge::Github);
    a.insert("x".to_string(), "1".to_string());
    a.insert("y".to_string(), "2".to_string());
    let mut b = UrlGroup::new(Forge::Github);
    b.insert("y".to_string(), "2".to_string());
    assert!(!a.same_as(&b));
    b.insert("x".to_string(), "1".to_string());
    assert!(a.same_as(&b));
    assert!(b.same_as(&a));
    b.insert("x".to_string(), "3".to_string());
    assert!(!a.same_as(&b));
    let mut c = UrlGroup::new(Forge::Gitlab);
    c.insert("x".to_string(), "1".to_string());
    c.insert("y".to_string(), "2".to_string());
    assert!(!a.same_as(&c));
    assert!(UrlGroup::new(Forge::Github).same_as(&UrlGroup::new(Forge::Github)));
}
