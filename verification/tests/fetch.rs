use gh_release_watcher::fetch::{
    compare_versions, is_success, parse_repo, FetchError, FetchOutcome, Notification, Response,
};

const URL: &str = "https://github.com/neovim/neovim/releases/latest";

fn page(body: &str) -> Response {
    Response::Page { status: 200, body: body.to_string() }
}

fn release_page(version: &str) -> Response {
    page(&format!(
        "<!DOCTYPE html><html><head><title>Release {} · neovim/neovim · GitHub</title></head>\
         <body><h1>NVIM</h1><relative-time datetime=\"2021-07-02T14:41:47Z\">Jul 2, 2021</relative-time>\
         <relative-time>later</relative-time></body></html>",
        version
    ))
}

#[test]
fn new_version_is_news() {
    let outcome = parse_repo(&release_page("4.5.0"), URL, "neovim/neovim", "4.4.0", "x@y.com");
    match outcome {
        FetchOutcome::Changed(news) => {
            assert_eq!(news.repo, "neovim/neovim");
            assert_eq!(news.version, "4.5.0");
            assert_eq!(news.released, Some("Jul 2, 2021".to_string()));
            assert_eq!(news.url, URL);
            assert_eq!(news.target, "x@y.com");
        }
        other => panic!("unexpected outcome {:?}", other),
    }
}

#[test]
fn known_version_is_no_news() {
    let outcome = parse_repo(&release_page("4.4.0"), URL, "neovim/neovim", "4.4.0", "x@y.com");
    assert!(matches!(outcome, FetchOutcome::Unchanged));
    assert!(outcome.new_version().is_none());
}

#[test]
fn request_without_answer_fails() {
    let outcome = parse_repo(&Response::Unreachable, URL, "a/b", "1.0.0", "x@y.com");
    assert!(matches!(outcome, FetchOutcome::Failed(FetchError::Unreachable)));
    assert!(outcome.new_version().is_none());
}

#[test]
fn status_other_than_success_fails() {
    for status in [0, 100, 199, 300, 301, 404, 500, 65535] {
        let response = Response::Page {
            status,
            body: "<title>Release 4.5.0</title>".to_string(),
        };
        let outcome = parse_repo(&response, URL, "a/b", "4.4.0", "x@y.com");
        assert!(matches!(outcome, FetchOutcome::Failed(FetchError::Status)), "{}", status);
    }
    for status in [200, 204, 299] {
        let response = Response::Page {
            status,
            body: "<title>Release 4.5.0</title>".to_string(),
        };
        let outcome = parse_repo(&response, URL, "a/b", "4.4.0", "x@y.com");
        assert!(matches!(outcome, FetchOutcome::Changed(_)), "{}", status);
    }
}

#[test]
fn success_is_two_hundred_to_two_hundred_ninety_nine() {
    assert!(!is_success(199));
    assert!(is_success(200));
    assert!(is_success(299));
    assert!(!is_success(300));
}

#[test]
fn page_without_title_fails() {
    let outcome = parse_repo(&page("<p>4.5.0</p>"), URL, "a/b", "4.4.0", "x@y.com");
    assert!(matches!(outcome, FetchOutcome::Failed(FetchError::NoTitle)));
    let outcome = parse_repo(&page("<title></title>"), URL, "a/b", "4.4.0", "x@y.com");
    assert!(matches!(outcome, FetchOutcome::Failed(FetchError::NoTitle)));
    let outcome = parse_repo(&page(""), URL, "a/b", "4.4.0", "x@y.com");
    assert!(matches!(outcome, FetchOutcome::Failed(FetchError::NoTitle)));
}

#[test]
fn title_without_version_fails() {
    let outcome = parse_repo(&page("<title>Releases</title>"), URL, "a/b", "4.4.0", "x@y.com");
    assert!(matches!(outcome, FetchOutcome::Failed(FetchError::NoVersion)));
    let outcome = parse_repo(&page("<title>v12</title>"), URL, "a/b", "4.4.0", "x@y.com");
    assert!(matches!(outcome, FetchOutcome::Failed(FetchError::NoVersion)));
}

#[test]
fn version_is_the_leftmost_token_of_the_title() {
    let outcome = parse_repo(
        &page("<title>v1.2.3 and 4.5.6</title><p>7.8.9</p>"),
        URL,
        "a/b",
        "4.5.6",
        "x@y.com",
    );
    assert_eq!(outcome.new_version(), Some(&"1.2.3".to_string()));
}

#[test]
fn news_without_time_is_still_news() {
    let outcome = parse_repo(&page("<title>Release 4.5.0</title>"), URL, "a/b", "4.4.0", "x@y.com");
    match outcome {
        FetchOutcome::Changed(news) => {
            assert_eq!(news.version, "4.5.0");
            assert_eq!(news.released, None);
            assert_eq!(
                news.text(),
                "The repository `a/b` has released version `4.5.0` on unknown!\nGo check it out https://github.com/neovim/neovim/releases/latest.\n\ngh-release-watcher"
            );
        }
        other => panic!("unexpected outcome {:?}", other),
    }
}

#[test]
fn message_follows_the_template() {
    let news = Notification {
        repo: "neovim/neovim".to_string(),
        version: "4.5.0".to_string(),
        released: Some("Jul 2, 2021".to_string()),
        url: URL.to_string(),
        target: "x@y.com".to_string(),
    };
    assert_eq!(
        news.text(),
        "The repository `neovim/neovim` has released version `4.5.0` on Jul 2, 2021!\nGo check it out https://github.com/neovim/neovim/releases/latest.\n\ngh-release-watcher"
    );
    assert_eq!(Notification::subject(), "'New Release!'");
    let copy = news.duplicate();
    assert_eq!(copy.text(), news.text());
    assert_eq!(copy.target, "x@y.com");
}

#[test]
fn compare_versions_tells_news_from_no_news() {
    let same = compare_versions("1.0.0".to_string(), None, URL, "a/b", "1.0.0", "x@y.com");
    assert!(matches!(same, FetchOutcome::Unchanged));
    let other = compare_versions(
        "1.0.1".to_string(),
        Some("today".to_string()),
        URL,
        "a/b",
        "1.0.0",
        "x@y.com",
    );
    match other {
        FetchOutcome::Changed(news) => {
            assert_eq!(news.repo, "a/b");
            assert_eq!(news.version, "1.0.1");
            assert_eq!(news.released, Some("today".to_string()));
            assert_eq!(news.url, URL);
            assert_eq!(news.target, "x@y.com");
        }
        other => panic!("unexpected outcome {:?}", other),
    }
}

#[test]
fn an_older_version_is_news_too() {
    let outcome = parse_repo(&release_page("4.3.0"), URL, "a/b", "4.4.0", "x@y.com");
    assert_eq!(outcome.new_version(), Some(&"4.3.0".to_string()));
}
