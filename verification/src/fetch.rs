//! What a release page says: the version it announces, whether that version is
//! new, and the message to send when it is.
//!
//! The page itself is fetched elsewhere and handed in as a [`Response`]. The
//! HTML is read by `scraper` and the version token is found by `regex`; both
//! are called here, and the contracts speak of what they return by name.

use vstd::prelude::*;
use vstd::string::*;
use crate::text::same;

verus! {

/// The CSS selector of the element that holds a release page's title.
pub open spec fn title_selector() -> Seq<char> {
    "title"@
}

/// The CSS selector of the element that holds the time of the release.
pub open spec fn time_selector() -> Seq<char> {
    "relative-time"@
}

/// The regular expression that a version token matches.
pub open spec fn version_pattern() -> Seq<char> {
    "\\d.\\d.\\d"@
}

/// What stands for the time of a release that the page does not give.
pub open spec fn unknown_time() -> Seq<char> {
    "unknown"@
}

/// The text that `scraper` finds first below the first element of `document`
/// that matches `selector`: `None` where `selector` is no CSS selector,
/// `Some(None)` where no element matches or the first match holds no text.
pub uninterp spec fn first_text(document: Seq<char>, selector: Seq<char>) -> Option<
    Option<Seq<char>>,
>;

/// The leftmost match that `regex` finds for `pattern` in `text`: `None` where
/// `pattern` does not compile, `Some(None)` where nothing in `text` matches.
pub uninterp spec fn first_match(pattern: Seq<char>, text: Seq<char>) -> Option<
    Option<Seq<char>>,
>;

#[verifier::external_type_specification]
#[verifier::external_body]
pub struct ExSelectorErrorKind(scraper::error::SelectorErrorKind);

#[verifier::external_type_specification]
#[verifier::external_body]
pub struct ExPatternError(regex::Error);

/// Calls `scraper::Selector::parse` on `selector`, `scraper::Html::parse_document`
/// on `document`, then takes the first element that `Html::select` yields and
/// the first text node that `ElementRef::text` yields below it. The result is
/// believed to be the one that [`first_text`] names for these two arguments;
/// an error is the selector's.
#[verifier::external_body]
fn select_first_text(document: &str, selector: &str) -> (found: Result<
    Option<String>,
    scraper::error::SelectorErrorKind,
>)
    ensures
        match found {
            Ok(text) => first_text(document@, selector@) == Some(text.deep_view()),
            Err(_) => first_text(document@, selector@) is None,
        },
{
    let selector = scraper::Selector::parse(selector)?;
    let html = scraper::Html::parse_document(document);
    let text = html.select(&selector).next().and_then(|element| element.text().next());
    Ok(text.map(|t| t.to_string()))
}

/// Calls `regex::Regex::new` on `pattern` and `Regex::find` on `text`, and
/// copies what `Match::as_str` gives. The result is believed to be the one
/// that [`first_match`] names for these two arguments; an error is that of
/// compiling the pattern.
#[verifier::external_body]
fn find_first_match(pattern: &str, text: &str) -> (found: Result<Option<String>, regex::Error>)
    ensures
        match found {
            Ok(token) => first_match(pattern@, text@) == Some(token.deep_view()),
            Err(_) => first_match(pattern@, text@) is None,
        },
{
    let re = regex::Regex::new(pattern)?;
    Ok(re.find(text).map(|m| m.as_str().to_string()))
}

/// What came back for one request.
#[derive(Clone, Debug)]
pub enum Response {
    /// The request got no answer.
    Unreachable,
    /// The server answered with this status code and this body.
    Page { status: u16, body: String },
}

pub enum ResponseView {
    Unreachable,
    Page { status: u16, body: Seq<char> },
}

impl View for Response {
    type V = ResponseView;

    open spec fn view(&self) -> ResponseView {
        match self {
            Response::Unreachable => ResponseView::Unreachable,
            Response::Page { status, body } => ResponseView::Page { status: *status, body: body@ },
        }
    }
}

/// Why a fetch told nothing about the repository's version.
#[derive(Clone, Copy, Debug, PartialEq, Eq, Structural)]
pub enum FetchError {
    /// The request got no answer.
    Unreachable,
    /// The status code was not one of success.
    Status,
    /// A selector was refused.
    Selector,
    /// The version pattern was refused.
    Pattern,
    /// The page has no title, or an empty one.
    NoTitle,
    /// The title holds no version token.
    NoVersion,
}

/// The news of one release, as it is mailed.
#[derive(Clone, Debug)]
pub struct Notification {
    /// The repository's identifier.
    pub repo: String,
    /// The version that was released.
    pub version: String,
    /// When it was released, if the page says so.
    pub released: Option<String>,
    /// The page that was read.
    pub url: String,
    /// The address to notify.
    pub target: String,
}

pub struct NotificationView {
    pub repo: Seq<char>,
    pub version: Seq<char>,
    pub released: Option<Seq<char>>,
    pub url: Seq<char>,
    pub target: Seq<char>,
}

impl View for Notification {
    type V = NotificationView;

    open spec fn view(&self) -> NotificationView {
        NotificationView {
            repo: self.repo@,
            version: self.version@,
            released: self.released.deep_view(),
            url: self.url@,
            target: self.target@,
        }
    }
}

/// The body of the mail that announces `n`.
pub open spec fn message_text(n: NotificationView) -> Seq<char> {
    "The repository `"@ + n.repo + "` has released version `"@ + n.version + "` on "@ + (match n.released {
        Some(time) => time,
        None => unknown_time(),
    }) + "!\nGo check it out "@ + n.url + ".\n\ngh-release-watcher"@
}

impl Notification {
    /// The subject line of every notification.
    pub fn subject() -> (subject: &'static str)
        ensures
            subject@ == "'New Release!'"@,
    {
        "'New Release!'"
    }

    /// A copy of the news.
    pub fn duplicate(&self) -> (copy: Notification)
        ensures
            copy@ == self@,
    {
        Notification {
            repo: self.repo.clone(),
            version: self.version.clone(),
            released: match &self.released {
                Some(time) => Some(time.clone()),
                None => None,
            },
            url: self.url.clone(),
            target: self.target.clone(),
        }
    }

    /// Writes the body of the mail.
    pub fn text(&self) -> (message: String)
        ensures
            message@ == message_text(self@),
    {
        let mut message = String::from_str("The repository `");
        message.append(self.repo.as_str());
        message.append("` has released version `");
        message.append(self.version.as_str());
        message.append("` on ");
        match &self.released {
            Some(time) => message.append(time.as_str()),
            None => message.append("unknown"),
        }
        message.append("!\nGo check it out ");
        message.append(self.url.as_str());
        message.append(".\n\ngh-release-watcher");
        message
    }
}

/// What one fetch told about one repository.
#[derive(Clone, Debug)]
pub enum FetchOutcome {
    /// The page announces the version that was known.
    Unchanged,
    /// The page announces another version: here is the news to send.
    Changed(Notification),
    /// The page could not be had or read.
    Failed(FetchError),
}

pub enum FetchOutcomeView {
    Unchanged,
    Changed(NotificationView),
    Failed(FetchError),
}

impl View for FetchOutcome {
    type V = FetchOutcomeView;

    open spec fn view(&self) -> FetchOutcomeView {
        match self {
            FetchOutcome::Unchanged => FetchOutcomeView::Unchanged,
            FetchOutcome::Changed(n) => FetchOutcomeView::Changed(n@),
            FetchOutcome::Failed(e) => FetchOutcomeView::Failed(*e),
        }
    }
}

impl DeepView for FetchOutcome {
    type V = FetchOutcomeView;

    open spec fn deep_view(&self) -> FetchOutcomeView {
        self@
    }
}

impl FetchOutcomeView {
    /// The version to store from now on, if the fetch found a new one.
    pub open spec fn new_version(self) -> Option<Seq<char>> {
        match self {
            FetchOutcomeView::Changed(n) => Some(n.version),
            _ => None,
        }
    }
}

impl FetchOutcome {
    /// The version to store from now on, if the fetch found a new one.
    pub fn new_version(&self) -> (version: Option<&String>)
        ensures
            version.deep_view() == self@.new_version(),
    {
        match self {
            FetchOutcome::Changed(n) => Some(&n.version),
            _ => None,
        }
    }
}

/// Status codes from 200 to 299 report success.
pub open spec fn spec_is_success(status: u16) -> bool {
    200 <= status < 300
}

/// Tells whether `status` reports success.
#[verifier::when_used_as_spec(spec_is_success)]
pub fn is_success(status: u16) -> (r: bool)
    ensures
        r == spec_is_success(status),
{
    200 <= status && status < 300
}

/// What a page with the version token `token` means for a repository whose
/// known version is `version`: nothing where the two are equal, else news.
pub open spec fn verdict(
    token: Seq<char>,
    released: Option<Seq<char>>,
    url: Seq<char>,
    key: Seq<char>,
    version: Seq<char>,
    email: Seq<char>,
) -> FetchOutcomeView {
    if token == version {
        FetchOutcomeView::Unchanged
    } else {
        FetchOutcomeView::Changed(
            NotificationView { repo: key, version: token, released, url, target: email },
        )
    }
}

/// What a response means for the repository `key`, known at `version`, whose
/// release page is `url`: a failure where the request got no answer, the
/// status is not one of success, or the page shows no title or no version
/// token; else what [`verdict`] says of the token and the page's time.
pub open spec fn outcome_of(
    response: ResponseView,
    url: Seq<char>,
    key: Seq<char>,
    version: Seq<char>,
    email: Seq<char>,
) -> FetchOutcomeView {
    match response {
        ResponseView::Unreachable => FetchOutcomeView::Failed(FetchError::Unreachable),
        ResponseView::Page { status, body } => if !spec_is_success(status) {
            FetchOutcomeView::Failed(FetchError::Status)
        } else {
            match first_text(body, title_selector()) {
                None => FetchOutcomeView::Failed(FetchError::Selector),
                Some(None) => FetchOutcomeView::Failed(FetchError::NoTitle),
                Some(Some(title)) => match first_match(version_pattern(), title) {
                    None => FetchOutcomeView::Failed(FetchError::Pattern),
                    Some(None) => FetchOutcomeView::Failed(FetchError::NoVersion),
                    Some(Some(token)) => if token == version {
                        FetchOutcomeView::Unchanged
                    } else {
                        match first_text(body, time_selector()) {
                            None => FetchOutcomeView::Failed(FetchError::Selector),
                            Some(released) => verdict(token, released, url, key, version, email),
                        }
                    },
                },
            }
        },
    }
}

/// News is new: a response is news only of a version other than the known
/// one, and the news names the repository, the page and the address that the
/// request named.
pub proof fn lemma_news_is_new(
    response: ResponseView,
    url: Seq<char>,
    key: Seq<char>,
    version: Seq<char>,
    email: Seq<char>,
)
    ensures
        outcome_of(response, url, key, version, email) matches FetchOutcomeView::Changed(news) ==> {
            &&& news.version != version
            &&& news.repo == key
            &&& news.url == url
            &&& news.target == email
        },
{
}

/// Compares the version token of a page with the known version, and makes the
/// news where they differ.
pub fn compare_versions(
    token: String,
    released: Option<String>,
    url: &str,
    key: &str,
    version: &str,
    email: &str,
) -> (outcome: FetchOutcome)
    ensures
        outcome@ == verdict(token@, released.deep_view(), url@, key@, version@, email@),
{
    if same(token.as_str(), version) {
        FetchOutcome::Unchanged
    } else {
        FetchOutcome::Changed(
            Notification {
                repo: String::from_str(key),
                version: token,
                released,
                url: String::from_str(url),
                target: String::from_str(email),
            },
        )
    }
}

/// Reads the response to the request for the release page `url` of the
/// repository `key`, whose known version is `version`: finds the page's title,
/// the version token in it and, where that token is new, the time of the
/// release, and makes the news for `email`.
pub fn parse_repo(response: &Response, url: &str, key: &str, version: &str, email: &str) -> (outcome:
    FetchOutcome)
    ensures
        outcome@ == outcome_of(response@, url@, key@, version@, email@),
{
    let body = match response {
        Response::Unreachable => {
            return FetchOutcome::Failed(FetchError::Unreachable);
        },
        Response::Page { status, body } => {
            if !is_success(*status) {
                return FetchOutcome::Failed(FetchError::Status);
            }
            body.as_str()
        },
    };
    let title = match select_first_text(body, "title") {
        Err(_) => {
            return FetchOutcome::Failed(FetchError::Selector);
        },
        Ok(None) => {
            return FetchOutcome::Failed(FetchError::NoTitle);
        },
        Ok(Some(title)) => title,
    };
    let token = match find_first_match("\\d.\\d.\\d", title.as_str()) {
        Err(_) => {
            return FetchOutcome::Failed(FetchError::Pattern);
        },
        Ok(None) => {
            return FetchOutcome::Failed(FetchError::NoVersion);
        },
        Ok(Some(token)) => token,
    };
    if same(token.as_str(), version) {
        return FetchOutcome::Unchanged;
    }
    match select_first_text(body, "relative-time") {
        Err(_) => FetchOutcome::Failed(FetchError::Selector),
        Ok(released) => compare_versions(token, released, url, key, version, email),
    }
}

} // verus!
