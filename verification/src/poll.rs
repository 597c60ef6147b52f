//! One cycle over the watched repositories: which pages to ask for, and what
//! the answers change.
//!
//! A cycle visits the repositories of GitHub, then those of GitLab, each group
//! in the order of its identifiers. The pages are fetched elsewhere; what they
//! told comes back as one [`FetchOutcome`] for each repository, in the order of
//! the visit.

use vstd::prelude::*;
use vstd::string::*;
use crate::config::{Config, ConfigView};
use crate::fetch::{FetchOutcome, FetchOutcomeView};
use crate::group::{release_url, Forge, UrlError, UrlGroup, UrlGroupView};
use crate::text::precedes;

verus! {

/// What to ask for one repository.
#[derive(Clone, Debug)]
pub struct FetchRequest {
    /// The forge of the repository.
    pub forge: Forge,
    /// The repository's identifier.
    pub repo: String,
    /// The version that is known.
    pub version: String,
    /// The address of the page that shows the latest release.
    pub url: String,
    /// The address to notify of a new version.
    pub target: String,
}

pub struct FetchRequestView {
    pub forge: Forge,
    pub repo: Seq<char>,
    pub version: Seq<char>,
    pub url: Seq<char>,
    pub target: Seq<char>,
}

impl DeepView for FetchRequest {
    type V = FetchRequestView;

    open spec fn deep_view(&self) -> FetchRequestView {
        FetchRequestView {
            forge: self.forge,
            repo: self.repo@,
            version: self.version@,
            url: self.url@,
            target: self.target@,
        }
    }
}

impl View for FetchRequest {
    type V = FetchRequestView;

    open spec fn view(&self) -> FetchRequestView {
        self.deep_view()
    }
}

/// The repositories of a group that may be absent.
pub open spec fn entries_of(group: Option<UrlGroupView>) -> Seq<(Seq<char>, Seq<char>)> {
    match group {
        Some(g) => g.entries,
        None => Seq::empty(),
    }
}

/// The repositories that a cycle visits, in the order of the visit, each with
/// its forge, its identifier and the version known of it.
pub open spec fn watched(config: ConfigView) -> Seq<(Forge, Seq<char>, Seq<char>)> {
    entries_of(config.github).map_values(|e: (Seq<char>, Seq<char>)| (Forge::Github, e.0, e.1))
        + entries_of(config.gitlab).map_values(
        |e: (Seq<char>, Seq<char>)| (Forge::Gitlab, e.0, e.1),
    )
}

/// The requests for the repositories `entries` of `forge`, or the error of
/// the first repository that has no address.
pub open spec fn entry_requests(
    forge: Forge,
    entries: Seq<(Seq<char>, Seq<char>)>,
    target: Seq<char>,
) -> Result<Seq<FetchRequestView>, UrlError>
    decreases entries.len(),
{
    if entries.len() == 0 {
        Ok(Seq::empty())
    } else {
        match entry_requests(forge, entries.drop_last(), target) {
            Err(e) => Err(e),
            Ok(requests) => match release_url(forge.spec_base(), entries.last().0) {
                Err(e) => Err(e),
                Ok(url) => Ok(
                    requests.push(
                        FetchRequestView {
                            forge,
                            repo: entries.last().0,
                            version: entries.last().1,
                            url,
                            target,
                        },
                    ),
                ),
            },
        }
    }
}

/// The requests of one cycle, in the order of the visit.
pub open spec fn requests_of(config: ConfigView) -> Result<Seq<FetchRequestView>, UrlError> {
    match entry_requests(Forge::Github, entries_of(config.github), config.email) {
        Err(e) => Err(e),
        Ok(first) => match entry_requests(Forge::Gitlab, entries_of(config.gitlab), config.email) {
            Err(e) => Err(e),
            Ok(second) => Ok(first + second),
        },
    }
}

/// The line that tells that the page at `url` is watched.
pub open spec fn watch_line(url: Seq<char>) -> Seq<char> {
    "Watching `"@ + url + "`..."@
}

/// The lines that tell what `config` watches: one for each request of a
/// cycle.
pub open spec fn info_lines(config: ConfigView) -> Result<Seq<Seq<char>>, UrlError> {
    match requests_of(config) {
        Err(e) => Err(e),
        Ok(requests) => Ok(requests.map_values(|r: FetchRequestView| watch_line(r.url))),
    }
}

/// The version that the outcome at the place `p` brings, if there is an
/// outcome at that place and it brings one.
pub open spec fn news_at(outcomes: Seq<FetchOutcomeView>, p: int) -> Option<Seq<char>> {
    if 0 <= p < outcomes.len() {
        outcomes[p].new_version()
    } else {
        None
    }
}

/// The repositories `entries`, visited from the place `offset` on, with the
/// versions that the outcomes bring for the first `n` of them.
pub open spec fn refreshed(
    entries: Seq<(Seq<char>, Seq<char>)>,
    outcomes: Seq<FetchOutcomeView>,
    offset: int,
    n: int,
) -> Seq<(Seq<char>, Seq<char>)> {
    Seq::new(
        entries.len(),
        |i: int|
            (
                entries[i].0,
                match news_at(outcomes, offset + i) {
                    Some(version) if i < n => version,
                    _ => entries[i].1,
                },
            ),
    )
}

/// A group that may be absent, with the versions that the outcomes bring.
pub open spec fn refreshed_group(
    group: Option<UrlGroupView>,
    outcomes: Seq<FetchOutcomeView>,
    offset: int,
) -> Option<UrlGroupView> {
    match group {
        Some(g) => Some(
            UrlGroupView {
                forge: g.forge,
                entries: refreshed(g.entries, outcomes, offset, g.entries.len() as int),
            },
        ),
        None => None,
    }
}

/// The configuration after a cycle that had the outcomes `outcomes`: each
/// repository for whose visit an outcome brings a version is stored with that
/// version, every other with the version it had.
pub open spec fn after_cycle(config: ConfigView, outcomes: Seq<FetchOutcomeView>) -> ConfigView {
    ConfigView {
        github: refreshed_group(config.github, outcomes, 0),
        gitlab: refreshed_group(
            config.gitlab,
            outcomes,
            entries_of(config.github).len() as int,
        ),
        ..config
    }
}

/// Some visit of the cycle brought a version.
pub open spec fn any_news(config: ConfigView, outcomes: Seq<FetchOutcomeView>) -> bool {
    exists|p: int| 0 <= p < watched(config).len() && (#[trigger] news_at(outcomes, p)) is Some
}

/// Adds the requests for the repositories of `group` to `requests`.
fn push_requests(group: &UrlGroup, target: &String, requests: &mut Vec<FetchRequest>) -> (r: Result<
    (),
    UrlError,
>)
    ensures
        match r {
            Ok(_) => entry_requests(group@.forge, group@.entries, target@) == Ok::<
                Seq<FetchRequestView>,
                UrlError,
            >(final(requests).deep_view().skip(old(requests)@.len() as int))
                && final(requests)@.len() >= old(requests)@.len()
                && final(requests).deep_view().take(old(requests)@.len() as int) == old(
                requests,
            ).deep_view(),
            Err(e) => entry_requests(group@.forge, group@.entries, target@) == Err::<
                Seq<FetchRequestView>,
                UrlError,
            >(e),
        },
{
    let entries = group.data();
    let forge = group.forge();
    let ghost s = group@.entries;
    let ghost before = requests.deep_view();
    let mut i: usize = 0;
    proof {
        assert(s.take(0) =~= Seq::empty());
        assert(requests.deep_view().skip(before.len() as int) =~= Seq::empty());
        assert(requests.deep_view().take(before.len() as int) =~= before);
    }
    while i < entries.len()
        invariant
            s == group@.entries,
            s == entries.deep_view(),
            forge == group@.forge,
            i <= entries.len(),
            requests@.len() == before.len() + i,
            requests.deep_view().take(before.len() as int) == before,
            entry_requests(forge, s.take(i as int), target@) == Ok::<Seq<FetchRequestView>, UrlError>(
                requests.deep_view().skip(before.len() as int),
            ),
        decreases entries.len() - i,
    {
        proof {
            assert(s.take(i + 1).drop_last() =~= s.take(i as int));
            assert(s.take(i + 1).last() == s[i as int]);
        }
        let url = match group.url(entries[i].id.as_str()) {
            Err(e) => {
                proof {
                    lemma_entry_requests_error(forge, s.take(i + 1), s, target@);
                }
                return Err(e);
            },
            Ok(url) => url,
        };
        let request = FetchRequest {
            forge,
            repo: entries[i].id.clone(),
            version: entries[i].version.clone(),
            url,
            target: target.clone(),
        };
        let ghost old_requests = requests.deep_view();
        let ghost added = request.deep_view();
        requests.push(request);
        proof {
            assert(requests.deep_view() =~= old_requests.push(added));
            assert(requests.deep_view().skip(before.len() as int) =~= old_requests.skip(
                before.len() as int,
            ).push(added));
            assert(requests.deep_view().take(before.len() as int) =~= old_requests.take(
                before.len() as int,
            ));
        }
        i += 1;
    }
    proof {
        assert(s.take(i as int) =~= s);
    }
    Ok(())
}

/// An error among the first repositories is the error of the whole group.
proof fn lemma_entry_requests_error(
    forge: Forge,
    prefix: Seq<(Seq<char>, Seq<char>)>,
    entries: Seq<(Seq<char>, Seq<char>)>,
    target: Seq<char>,
)
    requires
        prefix.len() <= entries.len(),
        prefix == entries.take(prefix.len() as int),
        entry_requests(forge, prefix, target) is Err,
    ensures
        entry_requests(forge, entries, target) == entry_requests(forge, prefix, target),
    decreases entries.len(),
{
    if prefix.len() < entries.len() {
        assert(entries.drop_last().take(prefix.len() as int) =~= prefix);
        lemma_entry_requests_error(forge, prefix, entries.drop_last(), target);
    } else {
        assert(prefix =~= entries);
    }
}

impl Config {
    /// The requests of one cycle, in the order of the visit; the error of the
    /// first repository that has no address, if there is one.
    pub fn requests(&self) -> (r: Result<Vec<FetchRequest>, UrlError>)
        requires
            self.wf(),
        ensures
            match r {
                Ok(requests) => requests_of(self@) == Ok::<Seq<FetchRequestView>, UrlError>(
                    requests.deep_view(),
                ),
                Err(e) => requests_of(self@) == Err::<Seq<FetchRequestView>, UrlError>(e),
            },
    {
        let mut requests: Vec<FetchRequest> = Vec::new();
        assert(requests.deep_view() =~= Seq::empty());
        if let Some(group) = self.github() {
            match push_requests(group, self.email(), &mut requests) {
                Err(e) => {
                    return Err(e);
                },
                Ok(()) => {},
            }
        }
        let ghost first = requests.deep_view();
        proof {
            assert(first.skip(0) =~= first);
            assert(first + Seq::<FetchRequestView>::empty() =~= first);
            assert(first.len() == requests@.len());
        }
        if let Some(group) = self.gitlab() {
            match push_requests(group, self.email(), &mut requests) {
                Err(e) => {
                    return Err(e);
                },
                Ok(()) => {},
            }
        }
        proof {
            let all = requests.deep_view();
            assert(all.len() == requests@.len());
            assert(all =~= all.take(first.len() as int) + all.skip(first.len() as int));
        }
        Ok(requests)
    }

    /// The lines that tell what is watched: one for each repository, in the
    /// order of a cycle's visit, each with the address of the page to read.
    pub fn print_info(&self) -> (r: Result<Vec<String>, UrlError>)
        requires
            self.wf(),
        ensures
            match r {
                Ok(lines) => info_lines(self@) == Ok::<Seq<Seq<char>>, UrlError>(lines.deep_view()),
                Err(e) => info_lines(self@) == Err::<Seq<Seq<char>>, UrlError>(e),
            },
    {
        let requests = match self.requests() {
            Err(e) => {
                return Err(e);
            },
            Ok(requests) => requests,
        };
        let ghost s = requests.deep_view();
        let ghost all = s.map_values(|r: FetchRequestView| watch_line(r.url));
        let mut lines: Vec<String> = Vec::new();
        let mut i: usize = 0;
        while i < requests.len()
            invariant
                s == requests.deep_view(),
                all == s.map_values(|r: FetchRequestView| watch_line(r.url)),
                i <= requests.len(),
                lines.deep_view() =~= all.take(i as int),
            decreases requests.len() - i,
        {
            let mut line = String::from_str("Watching `");
            line.append(requests[i].url.as_str());
            line.append("`...");
            let ghost before = lines.deep_view();
            lines.push(line);
            assert(lines.deep_view() =~= before.push(all[i as int]));
            i += 1;
        }
        assert(all.take(i as int) =~= all);
        Ok(lines)
    }
}

/// The number of repositories of a group that may be absent.
fn count(group: Option<&UrlGroup>) -> (n: usize)
    ensures
        n == (match group {
            Some(g) => g@.entries.len(),
            None => 0,
        }),
{
    match group {
        Some(g) => g.len(),
        None => 0,
    }
}

impl Config {
    /// Takes in the outcomes of one cycle, the outcome at each place being
    /// that of the visit at that place: stores each version that an outcome
    /// brings, and tells whether any was stored. A repository without an
    /// outcome keeps its version, and an outcome without a repository counts
    /// for nothing.
    pub fn check_repos(&mut self, outcomes: &Vec<FetchOutcome>) -> (changed: bool)
        requires
            old(self).wf(),
        ensures
            final(self).wf(),
            final(self)@ == after_cycle(old(self)@, outcomes.deep_view()),
            changed == any_news(old(self)@, outcomes.deep_view()),
    {
        let ghost before = self@;
        let ghost news = outcomes.deep_view();
        let first = count(self.github());
        let second = count(self.gitlab());
        let mut changed = false;
        let mut i: usize = 0;
        proof {
            lemma_refreshed_none(entries_of(before.github), news, 0);
            lemma_refreshed_none(entries_of(before.gitlab), news, first as int);
        }
        while i < first && i < outcomes.len()
            invariant
                before.wf(),
                self.wf(),
                news == outcomes.deep_view(),
                first == entries_of(before.github).len(),
                i <= first,
                self@ == (ConfigView {
                    github: partly(before.github, news, 0, i as int),
                    ..before
                }),
                changed == (exists|p: int| 0 <= p < i && (#[trigger] news_at(news, p)) is Some),
            decreases first - i,
        {
            if let Some(version) = outcomes[i].new_version() {
                let _ = self.set_version(Forge::Github, i, version.clone());
                changed = true;
            }
            proof {
                let g = before.github->Some_0;
                assert(news_at(news, i as int) == outcomes[i as int].deep_view().new_version());
                assert(self@.github->Some_0.entries =~= refreshed(g.entries, news, 0, i + 1));
            }
            i += 1;
        }
        proof {
            let g = entries_of(before.github);
            assert(refreshed(g, news, 0, i as int) =~= refreshed(g, news, 0, g.len() as int));
            assert(changed == (exists|p: int|
                0 <= p < first && (#[trigger] news_at(news, p)) is Some)) by {
                if exists|p: int| 0 <= p < first && (#[trigger] news_at(news, p)) is Some {
                    let p = choose|p: int| 0 <= p < first && (#[trigger] news_at(news, p)) is Some;
                    assert(p < i);
                }
            }
        }
        let ghost middle = self@;
        let ghost early = changed;
        let available = if first <= outcomes.len() {
            outcomes.len() - first
        } else {
            0
        };
        let mut j: usize = 0;
        while j < second && j < available
            invariant
                before.wf(),
                self.wf(),
                news == outcomes.deep_view(),
                first == entries_of(before.github).len(),
                second == entries_of(before.gitlab).len(),
                available == if first <= outcomes.len() {
                    outcomes.len() - first
                } else {
                    0
                },
                j <= second,
                self@ == (ConfigView {
                    gitlab: partly(before.gitlab, news, first as int, j as int),
                    ..middle
                }),
                middle.gitlab == before.gitlab,
                changed == (early || exists|p: int|
                    first <= p < first + j && (#[trigger] news_at(news, p)) is Some),
            decreases second - j,
        {
            if let Some(version) = outcomes[first + j].new_version() {
                let _ = self.set_version(Forge::Gitlab, j, version.clone());
                changed = true;
            }
            proof {
                let g = before.gitlab->Some_0;
                assert(news_at(news, first + j) == outcomes[first + j].deep_view().new_version());
                assert(self@.gitlab->Some_0.entries =~= refreshed(
                    g.entries,
                    news,
                    first as int,
                    j + 1,
                ));
            }
            j += 1;
        }
        proof {
            let g = entries_of(before.gitlab);
            assert(refreshed(g, news, first as int, j as int) =~= refreshed(
                g,
                news,
                first as int,
                g.len() as int,
            ));
            assert(watched(before).len() == first + second);
            if any_news(before, news) {
                let p = choose|p: int|
                    0 <= p < watched(before).len() && (#[trigger] news_at(news, p)) is Some;
                if p >= first {
                    assert(p < first + j);
                }
            }
        }
        changed
    }
}

/// A group that may be absent, with the versions that the outcomes bring for
/// its first `n` repositories.
pub open spec fn partly(
    group: Option<UrlGroupView>,
    outcomes: Seq<FetchOutcomeView>,
    offset: int,
    n: int,
) -> Option<UrlGroupView> {
    match group {
        Some(g) => Some(
            UrlGroupView { forge: g.forge, entries: refreshed(g.entries, outcomes, offset, n) },
        ),
        None => None,
    }
}

/// Before the first visit nothing has changed.
proof fn lemma_refreshed_none(
    entries: Seq<(Seq<char>, Seq<char>)>,
    outcomes: Seq<FetchOutcomeView>,
    offset: int,
)
    ensures
        refreshed(entries, outcomes, offset, 0) == entries,
{
    assert(refreshed(entries, outcomes, offset, 0) =~= entries);
}

/// What a cycle stores for the visit at the place `p`: the version that the
/// outcome at that place brings, or the version that was known.
pub proof fn lemma_cycle_versions(config: ConfigView, outcomes: Seq<FetchOutcomeView>, p: int)
    requires
        0 <= p < watched(config).len(),
    ensures
        watched(after_cycle(config, outcomes)).len() == watched(config).len(),
        watched(after_cycle(config, outcomes))[p] == (
            watched(config)[p].0,
            watched(config)[p].1,
            match news_at(outcomes, p) {
                Some(version) => version,
                None => watched(config)[p].2,
            },
        ),
{
}

/// A cycle changes versions and nothing else: the configuration stays well
/// formed, with the same groups, the same settings, and the same repositories
/// at the same places.
pub proof fn lemma_cycle_keeps_repositories(config: ConfigView, outcomes: Seq<FetchOutcomeView>)
    requires
        config.wf(),
    ensures
        after_cycle(config, outcomes).wf(),
        after_cycle(config, outcomes).email == config.email,
        after_cycle(config, outcomes).time == config.time,
        after_cycle(config, outcomes).github is Some <==> config.github is Some,
        after_cycle(config, outcomes).gitlab is Some <==> config.gitlab is Some,
        watched(after_cycle(config, outcomes)).len() == watched(config).len(),
        forall|p: int|
            0 <= p < watched(config).len() ==> (#[trigger] watched(
                after_cycle(config, outcomes),
            )[p]).0 == watched(config)[p].0 && watched(after_cycle(config, outcomes))[p].1
                == watched(config)[p].1,
{
    let after = after_cycle(config, outcomes);
    if let Some(g) = config.github {
        let t = after.github->Some_0.entries;
        assert forall|i: int, j: int| 0 <= i < j < t.len() implies precedes(
            #[trigger] t[i].0,
            #[trigger] t[j].0,
        ) by {
            assert(t[i].0 == g.entries[i].0 && t[j].0 == g.entries[j].0);
        }
    }
    if let Some(g) = config.gitlab {
        let t = after.gitlab->Some_0.entries;
        assert forall|i: int, j: int| 0 <= i < j < t.len() implies precedes(
            #[trigger] t[i].0,
            #[trigger] t[j].0,
        ) by {
            assert(t[i].0 == g.entries[i].0 && t[j].0 == g.entries[j].0);
        }
    }
}

/// A cycle in which no fetch finds a new version changes nothing, and tells
/// so: there is nothing to store.
pub proof fn lemma_quiet_cycle(config: ConfigView, outcomes: Seq<FetchOutcomeView>)
    requires
        forall|p: int| 0 <= p < outcomes.len() ==> !(#[trigger] outcomes[p] is Changed),
    ensures
        after_cycle(config, outcomes) == config,
        !any_news(config, outcomes),
{
    let after = after_cycle(config, outcomes);
    assert forall|p: int| (#[trigger] news_at(outcomes, p)) is None by {
        if 0 <= p < outcomes.len() {
            assert(!(outcomes[p] is Changed));
        }
    }
    if let Some(g) = config.github {
        assert(after.github->Some_0.entries =~= g.entries);
    }
    if let Some(g) = config.gitlab {
        assert(after.gitlab->Some_0.entries =~= g.entries);
    }
}

/// Where the fetch for a repository finds a new version, the cycle stores
/// that version for it and tells that something changed.
pub proof fn lemma_change_stored(config: ConfigView, outcomes: Seq<FetchOutcomeView>, p: int)
    requires
        0 <= p < watched(config).len(),
        p < outcomes.len(),
        outcomes[p] is Changed,
    ensures
        watched(after_cycle(config, outcomes))[p] == (
            watched(config)[p].0,
            watched(config)[p].1,
            outcomes[p]->Changed_0.version,
        ),
        any_news(config, outcomes),
{
    lemma_cycle_versions(config, outcomes, p);
    assert(news_at(outcomes, p) is Some);
}

/// A fetch that fails for one repository touches neither that repository nor
/// what the cycle does for another: the other's new version is stored, the
/// first keeps its own, and the cycle tells that something changed.
pub proof fn lemma_failure_isolated(
    config: ConfigView,
    outcomes: Seq<FetchOutcomeView>,
    failed: int,
    found: int,
)
    requires
        0 <= failed < watched(config).len(),
        0 <= found < watched(config).len(),
        failed < outcomes.len(),
        found < outcomes.len(),
        outcomes[failed] is Failed,
        outcomes[found] is Changed,
    ensures
        watched(after_cycle(config, outcomes))[failed] == watched(config)[failed],
        watched(after_cycle(config, outcomes))[found] == (
            watched(config)[found].0,
            watched(config)[found].1,
            outcomes[found]->Changed_0.version,
        ),
        any_news(config, outcomes),
{
    lemma_cycle_versions(config, outcomes, failed);
    lemma_change_stored(config, outcomes, found);
}

/// A forge that is not configured is not visited.
pub proof fn lemma_absent_group_skipped(config: ConfigView)
    ensures
        config.gitlab is None ==> watched(config) == entries_of(config.github).map_values(
            |e: (Seq<char>, Seq<char>)| (Forge::Github, e.0, e.1),
        ),
        config.github is None ==> watched(config) == entries_of(config.gitlab).map_values(
            |e: (Seq<char>, Seq<char>)| (Forge::Gitlab, e.0, e.1),
        ),
        config.github is None && config.gitlab is None ==> watched(config).len() == 0,
{
    let a = entries_of(config.github).map_values(
        |e: (Seq<char>, Seq<char>)| (Forge::Github, e.0, e.1),
    );
    let b = entries_of(config.gitlab).map_values(
        |e: (Seq<char>, Seq<char>)| (Forge::Gitlab, e.0, e.1),
    );
    if config.gitlab is None {
        assert(a + b =~= a);
    }
    if config.github is None {
        assert(a + b =~= b);
    }
}

/// A cycle asks once for each repository it visits, with the version known of
/// it.
pub proof fn lemma_requests_follow_visit(config: ConfigView)
    requires
        requests_of(config) is Ok,
    ensures
        requests_of(config)->Ok_0.len() == watched(config).len(),
        forall|p: int|
            0 <= p < watched(config).len() ==> {
                let r = #[trigger] requests_of(config)->Ok_0[p];
                &&& r.forge == watched(config)[p].0
                &&& r.repo == watched(config)[p].1
                &&& r.version == watched(config)[p].2
                &&& r.target == config.email
                &&& release_url(r.forge.spec_base(), r.repo) == Ok::<Seq<char>, UrlError>(r.url)
            },
{
    let a = entries_of(config.github);
    let b = entries_of(config.gitlab);
    lemma_entry_requests(Forge::Github, a, config.email);
    lemma_entry_requests(Forge::Gitlab, b, config.email);
}

/// The requests for a group follow its repositories.
proof fn lemma_entry_requests(
    forge: Forge,
    entries: Seq<(Seq<char>, Seq<char>)>,
    target: Seq<char>,
)
    requires
        entry_requests(forge, entries, target) is Ok,
    ensures
        entry_requests(forge, entries, target)->Ok_0.len() == entries.len(),
        forall|i: int|
            0 <= i < entries.len() ==> {
                let r = #[trigger] entry_requests(forge, entries, target)->Ok_0[i];
                &&& r.forge == forge
                &&& r.repo == entries[i].0
                &&& r.version == entries[i].1
                &&& r.target == target
                &&& release_url(forge.spec_base(), r.repo) == Ok::<Seq<char>, UrlError>(r.url)
            },
    decreases entries.len(),
{
    if entries.len() > 0 {
        lemma_entry_requests(forge, entries.drop_last(), target);
    }
}

} // verus!
