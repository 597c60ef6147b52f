//! The watcher as a machine: it is told what happened, and tells what to do
//! next.
//!
//! At its start the machine announces what it watches. Then it goes through
//! cycle after cycle: it asks for the page of each repository in turn, has the
//! news sent that a page brings, has the configuration stored at the end of a
//! cycle that brought news, and rests. Whoever runs the machine performs each
//! [`Action`] and reports back with an [`Event`].

use vstd::prelude::*;
use crate::config::{stored, Config, ConfigError, ConfigView, loaded};
use crate::fetch::{
    outcome_of, parse_repo, FetchOutcome, FetchOutcomeView, Notification, NotificationView,
    Response, ResponseView,
};
use crate::group::UrlError;
use crate::poll::{
    after_cycle, any_news, info_lines, lemma_cycle_keeps_repositories, lemma_quiet_cycle,
    requests_of, FetchRequest, FetchRequestView,
};

verus! {

/// Why the machine stopped.
#[derive(Clone, Copy, Debug, PartialEq, Eq, Structural)]
pub enum Fault {
    /// The configuration could not be written.
    Config(ConfigError),
    /// A repository has no address.
    Url(UrlError),
}

/// Where the machine stands.
#[derive(Clone, Copy, Debug, PartialEq, Eq, Structural)]
pub enum Phase {
    /// Nothing was announced yet.
    Initializing,
    /// In a cycle, with nothing asked of the outside.
    Ready,
    /// In a cycle, with a page asked for and not yet answered.
    Fetching,
    /// At the end of a cycle, with the configuration handed out to be stored.
    Saved,
    /// Stopped for good.
    Halted(Fault),
}

/// What happened outside.
#[derive(Clone, Debug)]
pub enum Event {
    /// The last action was carried out.
    Done,
    /// The page that was asked for came back, or failed to.
    Fetched(Response),
}

pub enum EventView {
    Done,
    Fetched(ResponseView),
}

impl View for Event {
    type V = EventView;

    open spec fn view(&self) -> EventView {
        match self {
            Event::Done => EventView::Done,
            Event::Fetched(response) => EventView::Fetched(response@),
        }
    }
}

impl EventView {
    /// The response that the event brings; an event that brings none stands
    /// for a request without an answer.
    pub open spec fn response(self) -> ResponseView {
        match self {
            EventView::Done => ResponseView::Unreachable,
            EventView::Fetched(response) => response,
        }
    }
}

/// What to do outside.
#[derive(Clone, Debug)]
pub enum Action {
    /// Print these lines.
    Announce(Vec<String>),
    /// Ask for this page, and report what came back.
    Fetch(FetchRequest),
    /// Send this news.
    Notify(Notification),
    /// Store this text as the configuration.
    Save(String),
    /// Rest for so many seconds.
    Sleep(u64),
    /// Give up.
    Halt(Fault),
}

pub enum ActionView {
    Announce(Seq<Seq<char>>),
    Fetch(FetchRequestView),
    Notify(NotificationView),
    Save(Seq<char>),
    Sleep(u64),
    Halt(Fault),
}

impl View for Action {
    type V = ActionView;

    open spec fn view(&self) -> ActionView {
        match self {
            Action::Announce(lines) => ActionView::Announce(lines.deep_view()),
            Action::Fetch(request) => ActionView::Fetch(request@),
            Action::Notify(news) => ActionView::Notify(news@),
            Action::Save(text) => ActionView::Save(text@),
            Action::Sleep(seconds) => ActionView::Sleep(*seconds),
            Action::Halt(fault) => ActionView::Halt(*fault),
        }
    }
}

/// The watcher: its configuration, and how far it has come in the cycle.
#[derive(Clone, Debug)]
pub struct Application {
    config: Config,
    phase: Phase,
    requests: Vec<FetchRequest>,
    outcomes: Vec<FetchOutcome>,
}

pub struct ApplicationView {
    /// The configuration as it was at the start of the cycle.
    pub config: ConfigView,
    pub phase: Phase,
    /// The requests of the cycle.
    pub requests: Seq<FetchRequestView>,
    /// The outcomes of the requests answered so far.
    pub outcomes: Seq<FetchOutcomeView>,
}

impl View for Application {
    type V = ApplicationView;

    closed spec fn view(&self) -> ApplicationView {
        ApplicationView {
            config: self.config@,
            phase: self.phase,
            requests: self.requests.deep_view(),
            outcomes: self.outcomes.deep_view(),
        }
    }
}

impl ApplicationView {
    /// The configuration is well formed, no more requests are answered than
    /// were made, and a page is awaited only for a request that was made.
    pub open spec fn wf(self) -> bool {
        &&& self.config.wf()
        &&& self.outcomes.len() <= self.requests.len()
        &&& self.phase is Fetching ==> self.outcomes.len() < self.requests.len()
    }

    /// The machine before its first step.
    pub open spec fn initial(config: ConfigView) -> ApplicationView {
        ApplicationView {
            config,
            phase: Phase::Initializing,
            requests: Seq::empty(),
            outcomes: Seq::empty(),
        }
    }

    /// The machine stopped at `fault`.
    pub open spec fn halted(self, fault: Fault) -> (ApplicationView, ActionView) {
        (ApplicationView { phase: Phase::Halted(fault), ..self }, ActionView::Halt(fault))
    }

    /// The start of a cycle on `config`: the requests are made out, and none
    /// is answered.
    pub open spec fn cycle(config: ConfigView, requests: Seq<FetchRequestView>) -> ApplicationView {
        ApplicationView { config, phase: Phase::Ready, requests, outcomes: Seq::empty() }
    }

    /// The first step: announce what is watched, and be ready for the first
    /// cycle.
    pub open spec fn announce(self) -> (ApplicationView, ActionView) {
        match requests_of(self.config) {
            Err(e) => self.halted(Fault::Url(e)),
            Ok(requests) => (
                ApplicationView::cycle(self.config, requests),
                ActionView::Announce(info_lines(self.config)->Ok_0),
            ),
        }
    }

    /// Between two cycles: rest, and be ready for the next cycle.
    pub open spec fn rest(self) -> (ApplicationView, ActionView) {
        match requests_of(self.config) {
            Err(e) => self.halted(Fault::Url(e)),
            Ok(requests) => (
                ApplicationView::cycle(self.config, requests),
                ActionView::Sleep(self.config.time),
            ),
        }
    }

    /// In a cycle, with nothing asked of the outside: ask for the next page;
    /// or, with every request answered, take in the outcomes, then have the
    /// configuration stored if a version changed, and rest if none did.
    pub open spec fn proceed(self) -> (ApplicationView, ActionView) {
        if self.outcomes.len() < self.requests.len() {
            (
                ApplicationView { phase: Phase::Fetching, ..self },
                ActionView::Fetch(self.requests[self.outcomes.len() as int]),
            )
        } else {
            let after = ApplicationView {
                config: after_cycle(self.config, self.outcomes),
                phase: Phase::Saved,
                requests: Seq::empty(),
                outcomes: Seq::empty(),
            };
            if any_news(self.config, self.outcomes) {
                match stored(after.config) {
                    Err(e) => after.halted(Fault::Config(e)),
                    Ok(text) => (after, ActionView::Save(text)),
                }
            } else {
                after.rest()
            }
        }
    }

    /// What `response` means for the request that is due.
    pub open spec fn due(self, response: ResponseView) -> FetchOutcomeView {
        let request = self.requests[self.outcomes.len() as int];
        outcome_of(response, request.url, request.repo, request.version, request.target)
    }

    /// The outcomes of the cycle once `event` is taken in.
    pub open spec fn outcomes_with(self, event: EventView) -> Seq<FetchOutcomeView> {
        if self.phase is Fetching {
            self.outcomes.push(self.due(event.response()))
        } else {
            self.outcomes
        }
    }

    /// With a page awaited: read the response for the request that is due,
    /// and have its news sent if it brings any; else go on with the cycle.
    pub open spec fn take(self, response: ResponseView) -> (ApplicationView, ActionView) {
        let outcome = self.due(response);
        let next = ApplicationView {
            phase: Phase::Ready,
            outcomes: self.outcomes.push(outcome),
            ..self
        };
        match outcome {
            FetchOutcomeView::Changed(news) => (next, ActionView::Notify(news)),
            _ => next.proceed(),
        }
    }

    /// What the machine becomes, and what it asks for, when `event` is
    /// reported to it.
    pub open spec fn step(self, event: EventView) -> (ApplicationView, ActionView) {
        match self.phase {
            Phase::Initializing => self.announce(),
            Phase::Ready => self.proceed(),
            Phase::Fetching => self.take(event.response()),
            Phase::Saved => self.rest(),
            Phase::Halted(fault) => (self, ActionView::Halt(fault)),
        }
    }
}

impl Application {
    /// The machine's view is well formed.
    pub open spec fn wf(&self) -> bool {
        self@.wf()
    }

    /// Makes the machine from the text of the stored configuration.
    pub fn new(text: &str) -> (r: Result<Application, ConfigError>)
        ensures
            match r {
                Ok(app) => app.wf() && loaded(text@) == Ok::<ConfigView, ConfigError>(app@.config)
                    && app@ == ApplicationView::initial(app@.config),
                Err(e) => loaded(text@) == Err::<ConfigView, ConfigError>(e),
            },
    {
        match Config::load(text) {
            Err(e) => Err(e),
            Ok(config) => Ok(Application::with_config(config)),
        }
    }

    /// Makes the machine from a configuration.
    pub fn with_config(config: Config) -> (app: Application)
        requires
            config.wf(),
        ensures
            app.wf(),
            app@ == ApplicationView::initial(config@),
    {
        let app = Application {
            config,
            phase: Phase::Initializing,
            requests: Vec::new(),
            outcomes: Vec::new(),
        };
        assert(app@.requests =~= Seq::empty());
        assert(app@.outcomes =~= Seq::empty());
        app
    }

    /// The configuration, as it was at the start of the cycle.
    pub fn config(&self) -> (config: &Config)
        ensures
            config@ == self@.config,
    {
        &self.config
    }

    /// Where the machine stands.
    pub fn phase(&self) -> (phase: Phase)
        ensures
            phase == self@.phase,
    {
        self.phase
    }

    /// Writes the configuration as the text to store.
    pub fn save(&self) -> (r: Result<String, ConfigError>)
        requires
            self.wf(),
        ensures
            match r {
                Ok(text) => stored(self@.config) == Ok::<Seq<char>, ConfigError>(text@),
                Err(e) => stored(self@.config) == Err::<Seq<char>, ConfigError>(e),
            },
    {
        self.config.save()
    }

    /// Stops the machine.
    fn halt(&mut self, fault: Fault) -> (action: Action)
        ensures
            (final(self)@, action@) == old(self)@.halted(fault),
    {
        self.phase = Phase::Halted(fault);
        Action::Halt(fault)
    }

    /// Makes out the requests of a new cycle.
    fn start_cycle(&mut self) -> (r: Result<(), UrlError>)
        requires
            old(self)@.config.wf(),
        ensures
            match r {
                Ok(_) => requests_of(old(self)@.config) is Ok && final(self)@
                    == ApplicationView::cycle(
                    old(self)@.config,
                    requests_of(old(self)@.config)->Ok_0,
                ),
                Err(e) => requests_of(old(self)@.config) == Err::<Seq<FetchRequestView>, UrlError>(e)
                    && final(self)@ == old(self)@,
            },
    {
        match self.config.requests() {
            Err(e) => Err(e),
            Ok(requests) => {
                self.requests = requests;
                self.outcomes = Vec::new();
                self.phase = Phase::Ready;
                assert(self@.outcomes =~= Seq::empty());
                Ok(())
            },
        }
    }

    /// Announces what is watched.
    fn announce(&mut self) -> (action: Action)
        requires
            old(self)@.config.wf(),
        ensures
            (final(self)@, action@) == old(self)@.announce(),
    {
        match self.config.print_info() {
            Err(e) => self.halt(Fault::Url(e)),
            Ok(lines) => match self.start_cycle() {
                Err(e) => self.halt(Fault::Url(e)),
                Ok(()) => Action::Announce(lines),
            },
        }
    }

    /// Rests between two cycles.
    fn rest(&mut self) -> (action: Action)
        requires
            old(self)@.config.wf(),
        ensures
            (final(self)@, action@) == old(self)@.rest(),
    {
        match self.start_cycle() {
            Err(e) => self.halt(Fault::Url(e)),
            Ok(()) => Action::Sleep(self.config.time()),
        }
    }

    /// Goes on with the cycle.
    fn proceed(&mut self) -> (action: Action)
        requires
            old(self)@.config.wf(),
            old(self)@.outcomes.len() <= old(self)@.requests.len(),
        ensures
            (final(self)@, action@) == old(self)@.proceed(),
    {
        let done = self.outcomes.len();
        if done < self.requests.len() {
            self.phase = Phase::Fetching;
            let request = &self.requests[done];
            Action::Fetch(
                FetchRequest {
                    forge: request.forge,
                    repo: request.repo.clone(),
                    version: request.version.clone(),
                    url: request.url.clone(),
                    target: request.target.clone(),
                },
            )
        } else {
            let changed = self.config.check_repos(&self.outcomes);
            self.phase = Phase::Saved;
            self.requests = Vec::new();
            self.outcomes = Vec::new();
            assert(self@.requests =~= Seq::empty());
            assert(self@.outcomes =~= Seq::empty());
            if changed {
                match self.config.save() {
                    Err(e) => self.halt(Fault::Config(e)),
                    Ok(text) => Action::Save(text),
                }
            } else {
                self.rest()
            }
        }
    }

    /// Tells the machine what happened, and learns from it what to do next.
    pub fn step(&mut self, event: Event) -> (action: Action)
        requires
            old(self).wf(),
        ensures
            final(self).wf(),
            (final(self)@, action@) == old(self)@.step(event@),
    {
        proof {
            lemma_step_wf(self@, event@);
        }
        match self.phase {
            Phase::Initializing => self.announce(),
            Phase::Ready => self.proceed(),
            Phase::Fetching => {
                let response = match event {
                    Event::Done => Response::Unreachable,
                    Event::Fetched(response) => response,
                };
                let request = &self.requests[self.outcomes.len()];
                let outcome = parse_repo(
                    &response,
                    request.url.as_str(),
                    request.repo.as_str(),
                    request.version.as_str(),
                    request.target.as_str(),
                );
                let news = match &outcome {
                    FetchOutcome::Changed(news) => Some(news.duplicate()),
                    _ => None,
                };
                let ghost before = self.outcomes.deep_view();
                self.outcomes.push(outcome);
                self.phase = Phase::Ready;
                assert(self.outcomes.deep_view() =~= before.push(outcome@));
                match news {
                    Some(news) => Action::Notify(news),
                    None => self.proceed(),
                }
            },
            Phase::Saved => self.rest(),
            Phase::Halted(fault) => Action::Halt(fault),
        }
    }
}

/// A step leaves the machine well formed.
pub proof fn lemma_step_wf(state: ApplicationView, event: EventView)
    requires
        state.wf(),
    ensures
        state.step(event).0.wf(),
{
    lemma_cycle_keeps_repositories(state.config, state.outcomes_with(event));
}

/// The configuration is handed out to be stored only at the end of a cycle,
/// when every request is answered and some answer brought a version; the text
/// is that of the configuration with the versions that the cycle brought.
pub proof fn lemma_save_follows_news(state: ApplicationView, event: EventView)
    requires
        state.wf(),
        state.step(event).1 is Save,
    ensures
        state.outcomes_with(event).len() == state.requests.len(),
        any_news(state.config, state.outcomes_with(event)),
        state.step(event).0.config == after_cycle(state.config, state.outcomes_with(event)),
        stored(state.step(event).0.config) == Ok::<Seq<char>, ConfigError>(
            state.step(event).1->Save_0,
        ),
{
}

/// While no fetch of the cycle finds a new version, the machine neither has
/// the configuration stored nor news sent, and the configuration stays as it
/// is.
pub proof fn lemma_quiet_cycle_stores_nothing(state: ApplicationView, event: EventView)
    requires
        state.wf(),
        forall|p: int|
            0 <= p < state.outcomes_with(event).len() ==> !(#[trigger] state.outcomes_with(
                event,
            )[p] is Changed),
    ensures
        !(state.step(event).1 is Save),
        !(state.step(event).1 is Notify),
        state.step(event).0.config == state.config,
{
    lemma_quiet_cycle(state.config, state.outcomes_with(event));
    if state.phase is Fetching {
        let outcomes = state.outcomes_with(event);
        assert(!(outcomes[state.outcomes.len() as int] is Changed));
    }
}

/// A page is asked for only for the request that is due: the first of the
/// cycle that has no outcome yet. The machine then awaits that page.
pub proof fn lemma_fetch_is_due(state: ApplicationView, event: EventView)
    requires
        state.wf(),
        state.step(event).1 is Fetch,
    ensures
        state.step(event).0.phase is Fetching,
        state.step(event).0.outcomes.len() < state.step(event).0.requests.len(),
        state.step(event).1->Fetch_0 == state.step(event).0.requests[state.step(
            event,
        ).0.outcomes.len() as int],
{
}

/// News is sent when, and only when, the page that came back shows a version
/// other than the one known: once for each such page, before anything else is
/// asked for.
pub proof fn lemma_notify_follows_change(state: ApplicationView, event: EventView)
    requires
        state.wf(),
    ensures
        state.step(event).1 is Notify <==> state.phase is Fetching && state.due(
            event.response(),
        ) is Changed,
        state.step(event).1 matches ActionView::Notify(news) ==> state.due(event.response())
            == FetchOutcomeView::Changed(news),
{
}

} // verus!
