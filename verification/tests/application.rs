use gh_release_watcher::application::{Action, Application, Event, Fault, Phase};
use gh_release_watcher::config::{Config, ConfigError};
use gh_release_watcher::fetch::Response;
use gh_release_watcher::group::UrlError;

fn release(version: &str) -> Event {
    Event::Fetched(Response::Page {
        status: 200,
        body: format!(
            "<html><head><title>Release {} · GitHub</title></head><body><relative-time>May 1</relative-time></body></html>",
            version
        ),
    })
}

#[test]
fn end_to_end_example() {
    let mut app =
        Application::new("[github]\n\"neovim/neovim\" = \"4.4.0\"\n\n[config]\nemail = \"x@y.com\"\n")
            .unwrap();
    assert_eq!(app.phase(), Phase::Initializing);

    match app.step(Event::Done) {
        Action::Announce(lines) => assert_eq!(
            lines,
            vec!["Watching `https://github.com/neovim/neovim/releases/latest`..."]
        ),
        other => panic!("unexpected action {:?}", other),
    }
    let request = match app.step(Event::Done) {
        Action::Fetch(request) => request,
        other => panic!("unexpected action {:?}", other),
    };
    assert_eq!(request.repo, "neovim/neovim");
    assert_eq!(request.version, "4.4.0");
    assert_eq!(request.target, "x@y.com");
    assert!(request.url.ends_with("/neovim/neovim/releases/latest"));
    assert_eq!(app.phase(), Phase::Fetching);

    let mut notified = 0;
    let mut action = app.step(release("4.5.0"));
    if let Action::Notify(news) = &action {
        notified += 1;
        assert_eq!(news.repo, "neovim/neovim");
        assert_eq!(news.version, "4.5.0");
        assert_eq!(news.released, Some("May 1".to_string()));
        assert!(news.url.ends_with("/neovim/neovim/releases/latest"));
        assert_eq!(news.target, "x@y.com");
        action = app.step(Event::Done);
    }
    assert_eq!(notified, 1);
    let saved = match action {
        Action::Save(text) => text,
        other => panic!("unexpected action {:?}", other),
    };
    assert!(saved.contains("\"neovim/neovim\" = \"4.5.0\""));
    assert_eq!(saved, "[github]\n\"neovim/neovim\" = \"4.5.0\"\n\n[config]\nemail = \"x@y.com\"\ntime = 3600\n");
    assert_eq!(app.phase(), Phase::Saved);
    assert_eq!(
        app.config().github().unwrap().version("neovim/neovim"),
        Some(&"4.5.0".to_string())
    );
    assert_eq!(app.save().unwrap(), saved);

    assert!(matches!(app.step(Event::Done), Action::Sleep(3600)));
    match app.step(Event::Done) {
        Action::Fetch(request) => assert_eq!(request.version, "4.5.0"),
        other => panic!("unexpected action {:?}", other),
    }
    assert!(matches!(app.step(release("4.5.0")), Action::Sleep(3600)));
    assert_eq!(app.phase(), Phase::Ready);
}

#[test]
fn cycle_without_news_saves_nothing() {
    let text = "[github]\n\"a/a\" = \"1.0.0\"\n\"b/b\" = \"2.0.0\"\n\n[gitlab]\n\"c/c\" = \"3.0.0\"\n\n[config]\nemail = \"x@y.com\"\ntime = 9\n";
    let mut app = Application::new(text).unwrap();
    assert!(matches!(app.step(Event::Done), Action::Announce(_)));
    let mut actions = Vec::new();
    let mut action = app.step(Event::Done);
    for _ in 0..3 {
        for version in ["1.0.0", "2.0.0", "3.0.0"] {
            match &action {
                Action::Fetch(request) => assert_eq!(request.version, version),
                other => panic!("unexpected action {:?}", other),
            }
            action = app.step(release(version));
        }
        assert!(matches!(action, Action::Sleep(9)));
        actions.push("sleep");
        action = app.step(Event::Done);
    }
    assert_eq!(actions.len(), 3);
    assert_eq!(app.save().unwrap(), text);
}

#[test]
fn failed_fetch_does_not_stop_the_cycle() {
    let mut app = Application::new(
        "[github]\n\"a/a\" = \"1.0.0\"\n\"b/b\" = \"2.0.0\"\n\n[config]\nemail = \"x@y.com\"\n",
    )
    .unwrap();
    assert!(matches!(app.step(Event::Done), Action::Announce(_)));
    assert!(matches!(app.step(Event::Done), Action::Fetch(_)));
    match app.step(Event::Fetched(Response::Unreachable)) {
        Action::Fetch(request) => assert_eq!(request.repo, "b/b"),
        other => panic!("unexpected action {:?}", other),
    }
    match app.step(release("2.1.0")) {
        Action::Notify(news) => {
            assert_eq!(news.repo, "b/b");
            assert_eq!(news.version, "2.1.0");
        }
        other => panic!("unexpected action {:?}", other),
    }
    match app.step(Event::Done) {
        Action::Save(text) => assert_eq!(
            text,
            "[github]\n\"a/a\" = \"1.0.0\"\n\"b/b\" = \"2.1.0\"\n\n[config]\nemail = \"x@y.com\"\ntime = 3600\n"
        ),
        other => panic!("unexpected action {:?}", other),
    }
}

#[test]
fn fetch_that_is_reported_done_counts_as_unanswered() {
    let mut app =
        Application::new("[gitlab]\n\"a/a\" = \"1.0.0\"\n\n[config]\nemail = \"x@y.com\"\ntime = 1\n")
            .unwrap();
    assert!(matches!(app.step(Event::Done), Action::Announce(_)));
    assert!(matches!(app.step(Event::Done), Action::Fetch(_)));
    assert!(matches!(app.step(Event::Done), Action::Sleep(1)));
}

#[test]
fn empty_configuration_only_rests() {
    let mut app = Application::new("[config]\nemail = \"x@y.com\"\ntime = 2\n").unwrap();
    match app.step(Event::Done) {
        Action::Announce(lines) => assert!(lines.is_empty()),
        other => panic!("unexpected action {:?}", other),
    }
    for _ in 0..3 {
        assert!(matches!(app.step(Event::Done), Action::Sleep(2)));
    }
}

#[test]
fn configuration_that_does_not_load_makes_no_machine() {
    assert_eq!(Application::new("[github]\n").unwrap_err(), ConfigError::MissingSettings);
    assert_eq!(Application::new("= 3").unwrap_err(), ConfigError::Syntax);
}

#[test]
fn repository_without_address_halts_at_the_start() {
    let mut app =
        Application::new("[github]\n\"\" = \"1.0.0\"\n\n[config]\nemail = \"x@y.com\"\n").unwrap();
    assert!(matches!(app.step(Event::Done), Action::Halt(Fault::Url(UrlError::Empty))));
    assert_eq!(app.phase(), Phase::Halted(Fault::Url(UrlError::Empty)));
    assert!(matches!(app.step(Event::Done), Action::Halt(Fault::Url(UrlError::Empty))));
}

#[test]
fn machine_from_a_configuration_starts_by_announcing() {
    let config = Config::load("[config]\nemail = \"x@y.com\"\n").unwrap();
    let mut app = Application::with_config(config);
    assert_eq!(app.phase(), Phase::Initializing);
    assert_eq!(app.config().email(), "x@y.com");
    assert!(matches!(app.step(Event::Fetched(Response::Unreachable)), Action::Announce(_)));
    assert_eq!(app.phase(), Phase::Ready);
}
