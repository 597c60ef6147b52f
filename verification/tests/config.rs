use gh_release_watcher::config::{ordered_map, Config, ConfigError, Configurables};
use gh_release_watcher::default_time;
use gh_release_watcher::document::{Field, Scalar, Section};
use gh_release_watcher::group::{Forge, UrlGroup};

fn text(s: &str) -> Field {
    Field::Plain(Scalar::Text(s.to_string()))
}

fn settings() -> (String, Section) {
    ("config".to_string(), Section::Table(vec![("email".to_string(), text("x@y.com"))]))
}

#[test]
fn deserialize_test() {
    let test_str = r###"
[github]
"neovim/neovim" = "4.4.0"
"test/bla" = "0.1.2"

[config]
email = "bla@email.com"
time = 13
"###;
    let config = Config::load(test_str).unwrap();
    assert_eq!(config.email(), &"bla@email.com".to_string());
    assert_eq!(config.time(), 13);
    assert!(config.gitlab().is_none());
    assert_eq!(config.github().unwrap().len(), 2);
}

#[test]
fn serialize_test() {
    let mut github = UrlGroup::new(Forge::Github);
    github.insert("neovim/neovim".to_string(), "4.4.0".to_string());
    github.insert("test/bla".to_string(), "0.1.2".to_string());

    let mut config = Config::new(Configurables::new("bla@email.com".to_string(), 13).unwrap());
    config.watch(github);
    assert_eq!(
        config.save().unwrap(),
        r###"[github]
"neovim/neovim" = "4.4.0"
"test/bla" = "0.1.2"

[config]
email = "bla@email.com"
time = 13
"###
    );
}

#[test]
fn default_time_is_an_hour() {
    assert_eq!(default_time(), 3600);
}

#[test]
fn omitted_time_loads_as_default() {
    let config = Config::load("[config]\nemail = \"x@y.com\"\n").unwrap();
    assert_eq!(config.time(), 3600);
    assert_eq!(config.email(), "x@y.com");
}

#[test]
fn missing_gitlab_table_loads_without_gitlab() {
    let config =
        Config::load("[github]\n\"a/b\" = \"1.0.0\"\n\n[config]\nemail = \"x@y.com\"\n").unwrap();
    assert!(config.gitlab().is_none());
    assert!(config.group(Forge::Gitlab).is_none());
    assert_eq!(config.github().unwrap().len(), 1);
}

#[test]
fn both_tables_may_be_missing() {
    let config = Config::load("[config]\nemail = \"x@y.com\"\ntime = 5\n").unwrap();
    assert!(config.github().is_none());
    assert!(config.gitlab().is_none());
    assert_eq!(config.requests().unwrap().len(), 0);
}

#[test]
fn empty_table_is_an_empty_group() {
    let config = Config::load("[gitlab]\n\n[config]\nemail = \"x@y.com\"\n").unwrap();
    assert_eq!(config.gitlab().unwrap().len(), 0);
    assert_eq!(config.save().unwrap(), "[gitlab]\n\n[config]\nemail = \"x@y.com\"\ntime = 3600\n");
}

#[test]
fn unknown_tables_and_keys_are_passed_over() {
    let config = Config::load(
        "title = \"mine\"\n[other]\nx = 1.5\n[config]\nemail = \"x@y.com\"\ncolour = true\n",
    )
    .unwrap();
    assert_eq!(config.email(), "x@y.com");
    assert!(config.github().is_none());
}

#[test]
fn save_then_load_gives_the_same_configuration() {
    let mut github = UrlGroup::new(Forge::Github);
    github.insert("z/z".to_string(), "9.9.9".to_string());
    github.insert("a/a".to_string(), "0.0.1".to_string());
    let mut gitlab = UrlGroup::new(Forge::Gitlab);
    gitlab.insert("m/m".to_string(), "1.2.3".to_string());
    let mut config = Config::new(Configurables::new("x@y.com".to_string(), 60).unwrap());
    config.watch(github);
    config.watch(gitlab);

    let text = config.save().unwrap();
    let again = Config::load(&text).unwrap();
    assert_eq!(again.email(), "x@y.com");
    assert_eq!(again.time(), 60);
    let github = again.github().unwrap();
    assert_eq!(github.len(), 2);
    assert_eq!(github.version("a/a"), Some(&"0.0.1".to_string()));
    assert_eq!(github.version("z/z"), Some(&"9.9.9".to_string()));
    let gitlab = again.gitlab().unwrap();
    assert_eq!(gitlab.len(), 1);
    assert_eq!(gitlab.version("m/m"), Some(&"1.2.3".to_string()));
    assert_eq!(again.save().unwrap(), text);
}

#[test]
fn load_then_save_sorts_the_keys() {
    let text = "[config]\ntime = 7\nemail = \"x@y.com\"\n\n[gitlab]\n\"b/b\" = \"2.0.0\"\n\"a/a\" = \"1.0.0\"\n\n[github]\n\"y/y\" = \"4.0.0\"\n\"x/x\" = \"3.0.0\"\n";
    let config = Config::load(text).unwrap();
    assert_eq!(
        config.save().unwrap(),
        "[github]\n\"x/x\" = \"3.0.0\"\n\"y/y\" = \"4.0.0\"\n\n[gitlab]\n\"a/a\" = \"1.0.0\"\n\"b/b\" = \"2.0.0\"\n\n[config]\nemail = \"x@y.com\"\ntime = 7\n"
    );
}

#[test]
fn text_that_is_no_toml_is_a_syntax_error() {
    assert_eq!(Config::load("[config\nemail").unwrap_err(), ConfigError::Syntax);
    assert_eq!(
        Config::load("[github]\n\"a\" = \"1\"\n\"a\" = \"2\"\n[config]\nemail = \"e\"\n").unwrap_err(),
        ConfigError::Syntax
    );
}

#[test]
fn missing_settings_are_refused() {
    assert_eq!(Config::load("").unwrap_err(), ConfigError::MissingSettings);
    assert_eq!(
        Config::load("[github]\n\"a/b\" = \"1.0.0\"\n").unwrap_err(),
        ConfigError::MissingSettings
    );
}

#[test]
fn settings_that_are_no_table_are_refused() {
    assert_eq!(Config::load("config = 3\n").unwrap_err(), ConfigError::SettingsNotTable);
}

#[test]
fn missing_email_is_refused() {
    assert_eq!(Config::load("[config]\ntime = 3\n").unwrap_err(), ConfigError::MissingEmail);
}

#[test]
fn email_that_is_no_string_is_refused() {
    assert_eq!(Config::load("[config]\nemail = 3\n").unwrap_err(), ConfigError::EmailNotText);
}

#[test]
fn interval_that_is_no_integer_is_refused() {
    assert_eq!(
        Config::load("[config]\nemail = \"e\"\ntime = \"often\"\n").unwrap_err(),
        ConfigError::IntervalNotInteger
    );
    assert_eq!(
        Config::load("[config]\nemail = \"e\"\ntime = 1.5\n").unwrap_err(),
        ConfigError::IntervalNotInteger
    );
}

#[test]
fn negative_interval_is_refused() {
    assert_eq!(
        Config::load("[config]\nemail = \"e\"\ntime = -1\n").unwrap_err(),
        ConfigError::NegativeInterval
    );
}

#[test]
fn zero_and_largest_interval_are_read() {
    assert_eq!(Config::load("[config]\nemail = \"e\"\ntime = 0\n").unwrap().time(), 0);
    let config = Config::load("[config]\nemail = \"e\"\ntime = 9223372036854775807\n").unwrap();
    assert_eq!(config.time(), 9223372036854775807);
    assert_eq!(config.save().unwrap(), "[config]\nemail = \"e\"\ntime = 9223372036854775807\n");
}

#[test]
fn group_that_is_no_table_is_refused() {
    assert_eq!(
        Config::load("github = \"all\"\n[config]\nemail = \"e\"\n").unwrap_err(),
        ConfigError::GroupNotTable(Forge::Github)
    );
    assert_eq!(
        Config::load("[[gitlab]]\n\"a/b\" = \"1\"\n[config]\nemail = \"e\"\n").unwrap_err(),
        ConfigError::GroupNotTable(Forge::Gitlab)
    );
}

#[test]
fn version_that_is_no_string_is_refused() {
    assert_eq!(
        Config::load("[github]\n\"a/b\" = 1\n[config]\nemail = \"e\"\n").unwrap_err(),
        ConfigError::VersionNotText(Forge::Github)
    );
    assert_eq!(
        Config::load("[gitlab.\"a/b\"]\nx = 1\n[config]\nemail = \"e\"\n").unwrap_err(),
        ConfigError::VersionNotText(Forge::Gitlab)
    );
}

#[test]
fn repository_named_twice_is_refused() {
    let doc = vec![
        (
            "github".to_string(),
            Section::Table(vec![
                ("a/b".to_string(), text("1.0.0")),
                ("c/d".to_string(), text("2.0.0")),
                ("a/b".to_string(), text("3.0.0")),
            ]),
        ),
        settings(),
    ];
    assert_eq!(
        Config::from_parsed(&doc).unwrap_err(),
        ConfigError::DuplicateRepository(Forge::Github)
    );
}

#[test]
fn a_version_that_is_no_string_counts_before_a_repository_named_twice() {
    let doc = vec![
        (
            "gitlab".to_string(),
            Section::Table(vec![
                ("a/b".to_string(), text("1.0.0")),
                ("a/b".to_string(), text("3.0.0")),
                ("c/d".to_string(), Field::Other),
            ]),
        ),
        settings(),
    ];
    assert_eq!(Config::from_parsed(&doc).unwrap_err(), ConfigError::VersionNotText(Forge::Gitlab));
}

#[test]
fn the_first_table_of_a_name_counts() {
    let doc = vec![
        settings(),
        ("config".to_string(), Section::Other),
        ("github".to_string(), Section::Table(vec![("b".to_string(), text("2")), ("a".to_string(), text("1"))])),
        ("github".to_string(), Section::Other),
    ];
    let config = Config::from_parsed(&doc).unwrap();
    assert_eq!(config.email(), "x@y.com");
    assert_eq!(config.time(), 3600);
    let github = config.github().unwrap();
    assert_eq!(github.data()[0].id, "a");
    assert_eq!(github.data()[1].id, "b");
}

#[test]
fn document_lists_github_gitlab_then_settings() {
    let mut gitlab = UrlGroup::new(Forge::Gitlab);
    gitlab.insert("b".to_string(), "2".to_string());
    gitlab.insert("a".to_string(), "1".to_string());
    let mut github = UrlGroup::new(Forge::Github);
    github.insert("c".to_string(), "3".to_string());
    let mut config = Config::new(Configurables::new("e".to_string(), 10).unwrap());
    config.watch(gitlab);
    config.watch(github);
    let doc = config.to_document();
    assert_eq!(doc.len(), 3);
    assert_eq!(doc[0].0, "github");
    assert_eq!(doc[1].0, "gitlab");
    assert_eq!(doc[2].0, "config");
    assert_eq!(doc[1].1.len(), 2);
    assert_eq!(doc[1].1[0].0, "a");
    assert!(matches!(&doc[1].1[0].1, Scalar::Text(v) if v == "1"));
    assert_eq!(doc[1].1[1].0, "b");
    assert_eq!(doc[2].1[0].0, "email");
    assert!(matches!(&doc[2].1[0].1, Scalar::Text(v) if v == "e"));
    assert_eq!(doc[2].1[1].0, "time");
    assert!(matches!(&doc[2].1[1].1, Scalar::Integer(10)));
}

#[test]
fn interval_beyond_what_a_document_holds_is_refused() {
    assert!(Configurables::new("e".to_string(), 9223372036854775808).is_none());
    let settings = Configurables::new("e".to_string(), 9223372036854775807).unwrap();
    assert_eq!(settings.time(), 9223372036854775807);
    assert_eq!(settings.email(), "e");
}

#[test]
fn watching_a_forge_again_replaces_its_group() {
    let mut config = Config::new(Configurables::new("e".to_string(), 1).unwrap());
    let mut first = UrlGroup::new(Forge::Github);
    first.insert("a".to_string(), "1".to_string());
    config.watch(first);
    let mut second = UrlGroup::new(Forge::Github);
    second.insert("b".to_string(), "2".to_string());
    second.insert("c".to_string(), "3".to_string());
    config.watch(second);
    assert_eq!(config.github().unwrap().len(), 2);
    assert!(config.gitlab().is_none());
}

#[test]
fn set_version_stores_for_the_repository_at_the_index() {
    let mut config = Config::load(
        "[github]\n\"a\" = \"1\"\n\"b\" = \"2\"\n[config]\nemail = \"e\"\n",
    )
    .unwrap();
    assert!(config.set_version(Forge::Github, 1, "5".to_string()));
    assert!(!config.set_version(Forge::Github, 2, "6".to_string()));
    assert!(!config.set_version(Forge::Gitlab, 0, "7".to_string()));
    let github = config.github().unwrap();
    assert_eq!(github.version("a"), Some(&"1".to_string()));
    assert_eq!(github.version("b"), Some(&"5".to_string()));
}

#[test]
fn same_as_compares_groups_and_settings() {
    let text = "[github]\n\"a\" = \"1\"\n[config]\nemail = \"e\"\ntime = 4\n";
    let a = Config::load(text).unwrap();
    assert!(a.same_as(&Config::load(text).unwrap()));
    for other in [
        "[github]\n\"a\" = \"2\"\n[config]\nemail = \"e\"\ntime = 4\n",
        "[github]\n\"b\" = \"1\"\n[config]\nemail = \"e\"\ntime = 4\n",
        "[gitlab]\n\"a\" = \"1\"\n[config]\nemail = \"e\"\ntime = 4\n",
        "[github]\n\"a\" = \"1\"\n[gitlab]\n[config]\nemail = \"e\"\ntime = 4\n",
        "[config]\nemail = \"e\"\ntime = 4\n",
        "[github]\n\"a\" = \"1\"\n[config]\nemail = \"f\"\ntime = 4\n",
        "[github]\n\"a\" = \"1\"\n[config]\nemail = \"e\"\ntime = 5\n",
    ] {
        assert!(!a.same_as(&Config::load(other).unwrap()), "{}", other);
    }
    let settings = Configurables::new("e".to_string(), 4).unwrap();
    assert!(settings.same_as(&Configurables::new("e".to_string(), 4).unwrap()));
    assert!(!settings.same_as(&Configurables::new("e".to_string(), 3).unwrap()));
    assert!(!settings.same_as(&Configurables::new("E".to_string(), 4).unwrap()));
}

#[test]
fn ordered_map_lists_the_repositories_in_order() {
    let mut group = UrlGroup::new(Forge::Github);
    group.insert("test/bla".to_string(), "0.1.2".to_string());
    group.insert("neovim/neovim".to_string(), "4.4.0".to_string());
    let table = ordered_map(&group);
    assert_eq!(table.len(), 2);
    assert_eq!(table[0].0, "neovim/neovim");
    assert!(matches!(&table[0].1, Scalar::Text(v) if v == "4.4.0"));
    assert_eq!(table[1].0, "test/bla");
    assert!(matches!(&table[1].1, Scalar::Text(v) if v == "0.1.2"));
}

#[test]
fn text_with_quotes_and_other_scripts_is_stored_as_it_is() {
    let mut github = UrlGroup::new(Forge::Github);
    github.insert("a \"quoted\" \\ name".to_string(), "v1\n2".to_string());
    github.insert("ключ/ключ".to_string(), "版本".to_string());
    github.insert("".to_string(), "".to_string());
    let mut config = Config::new(Configurables::new("é@ü.com".to_string(), 1).unwrap());
    config.watch(github);
    let text = config.save().unwrap();
    assert!(Config::load(&text).unwrap().same_as(&config));
}
