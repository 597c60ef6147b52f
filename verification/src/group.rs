//! The repositories watched on one forge, and the address of the page that
//! shows a repository's latest release.
//!
//! Addresses are put together by the `url` crate, which is called here; the
//! contracts speak of what it returns by name.

use vstd::prelude::*;
use vstd::string::*;
use crate::order::{found, lemma_place_ordered, ordered, place, slot};
use crate::text::{less, precedes, same};

verus! {

/// A code-hosting service whose release pages can be watched.
#[derive(Clone, Copy, Debug, PartialEq, Eq, Structural)]
pub enum Forge {
    Github,
    Gitlab,
}

impl Forge {
    /// The address below which the forge keeps its repositories.
    pub open spec fn spec_base(self) -> Seq<char> {
        match self {
            Forge::Github => "https://github.com"@,
            Forge::Gitlab => "https://gitlab.com"@,
        }
    }

    /// The name of the forge: that of its table in the stored configuration.
    pub open spec fn spec_name(self) -> Seq<char> {
        match self {
            Forge::Github => "github"@,
            Forge::Gitlab => "gitlab"@,
        }
    }

    /// The address below which the forge keeps its repositories.
    pub fn base(&self) -> (base: &'static str)
        ensures
            base@ == self.spec_base(),
    {
        match self {
            Forge::Github => "https://github.com",
            Forge::Gitlab => "https://gitlab.com",
        }
    }

    /// The name of the forge.
    pub fn name(&self) -> (name: &'static str)
        ensures
            name@ == self.spec_name(),
    {
        match self {
            Forge::Github => "github",
            Forge::Gitlab => "gitlab",
        }
    }
}

/// Why no address could be made.
#[derive(Clone, Copy, Debug, PartialEq, Eq, Structural)]
pub enum UrlError {
    /// The base address or the repository's identifier is empty.
    Empty,
    /// The parts do not make an absolute URL.
    Unresolvable,
}

/// The last path segment of the page that shows a repository's latest release.
pub open spec fn latest_release() -> Seq<char> {
    "releases/latest"@
}

/// `s`, with a path separator at its end if it had none.
pub open spec fn with_slash(s: Seq<char>) -> Seq<char> {
    if s.len() > 0 && s.last() == '/' {
        s
    } else {
        s + "/"@
    }
}

/// The serialisation of the URL that the `url` crate makes of `reference`
/// taken relative to the absolute URL `base`; `None` where `base` is no
/// absolute URL or `reference` cannot be resolved against it.
pub uninterp spec fn resolved(base: Seq<char>, reference: Seq<char>) -> Option<Seq<char>>;

/// The address of the page that shows the latest release of `repo` on the
/// forge at `base`: `repo`, then `releases/latest`, resolved one after the
/// other against `base`, where `base` and `repo` end with a path separator.
pub open spec fn release_url(base: Seq<char>, repo: Seq<char>) -> Result<Seq<char>, UrlError> {
    if base.len() == 0 || repo.len() == 0 {
        Err(UrlError::Empty)
    } else {
        match resolved(with_slash(base), with_slash(repo)) {
            None => Err(UrlError::Unresolvable),
            Some(home) => match resolved(home, latest_release()) {
                None => Err(UrlError::Unresolvable),
                Some(page) => Ok(page),
            },
        }
    }
}

#[verifier::external_type_specification]
#[verifier::external_body]
pub struct ExUrlParseError(url::ParseError);

/// Calls `url::Url::parse` on `base` and `Url::join` on the result with
/// `reference`, and hands out the serialisation of the joined URL. The result
/// is believed to be the one that [`resolved`] names for these two arguments;
/// an error is that of either call.
#[verifier::external_body]
fn resolve(base: &str, reference: &str) -> (joined: Result<String, url::ParseError>)
    ensures
        match joined {
            Ok(address) => resolved(base@, reference@) == Some(address@),
            Err(_) => resolved(base@, reference@) is None,
        },
{
    Ok(url::Url::parse(base)?.join(reference)?.into())
}

/// Copies `s` and ends the copy with a path separator if `s` has none there.
pub fn ensure_slash(s: &str) -> (r: String)
    ensures
        r@ == with_slash(s@),
{
    let n = s.unicode_len();
    let mut r = String::from_str(s);
    if n == 0 || s.get_char(n - 1) != '/' {
        r.append("/");
    }
    r
}

/// Makes the address of the page that shows the latest release of `repo` on
/// the forge at `base`.
pub fn latest_release_url(base: &str, repo: &str) -> (address: Result<String, UrlError>)
    ensures
        match address {
            Ok(page) => release_url(base@, repo@) == Ok::<Seq<char>, UrlError>(page@),
            Err(e) => release_url(base@, repo@) == Err::<Seq<char>, UrlError>(e),
        },
{
    if base.unicode_len() == 0 || repo.unicode_len() == 0 {
        return Err(UrlError::Empty);
    }
    let base = ensure_slash(base);
    let name = ensure_slash(repo);
    match resolve(base.as_str(), name.as_str()) {
        Err(_) => Err(UrlError::Unresolvable),
        Ok(home) => match resolve(home.as_str(), "releases/latest") {
            Err(_) => Err(UrlError::Unresolvable),
            Ok(page) => Ok(page),
        },
    }
}

/// A repository and the version of it that was seen last.
#[derive(Clone, Debug)]
pub struct WatchedRepository {
    /// The repository's path on its forge, such as `owner/name`.
    pub id: String,
    /// The last version seen.
    pub version: String,
}

impl View for WatchedRepository {
    type V = (Seq<char>, Seq<char>);

    open spec fn view(&self) -> (Seq<char>, Seq<char>) {
        (self.id@, self.version@)
    }
}

impl DeepView for WatchedRepository {
    type V = (Seq<char>, Seq<char>);

    open spec fn deep_view(&self) -> (Seq<char>, Seq<char>) {
        (self.id@, self.version@)
    }
}

/// The repositories watched on one forge, in the order of their identifiers.
#[derive(Clone, Debug)]
pub struct UrlGroup {
    forge: Forge,
    entries: Vec<WatchedRepository>,
}

pub struct UrlGroupView {
    pub forge: Forge,
    pub entries: Seq<(Seq<char>, Seq<char>)>,
}

impl View for UrlGroup {
    type V = UrlGroupView;

    closed spec fn view(&self) -> UrlGroupView {
        UrlGroupView { forge: self.forge, entries: self.entries.deep_view() }
    }
}

impl UrlGroup {
    /// The identifiers rise strictly, so none occurs twice.
    pub open spec fn wf(&self) -> bool {
        ordered(self@.entries)
    }

    /// A group that watches nothing yet.
    pub fn new(forge: Forge) -> (group: UrlGroup)
        ensures
            group.wf(),
            group@.forge == forge,
            group@.entries == Seq::<(Seq<char>, Seq<char>)>::empty(),
    {
        let group = UrlGroup { forge, entries: Vec::new() };
        assert(group@.entries =~= Seq::empty());
        group
    }

    /// The forge of the group.
    pub fn forge(&self) -> (forge: Forge)
        ensures
            forge == self@.forge,
    {
        self.forge
    }

    /// The address below which the group's forge keeps its repositories.
    pub fn base(&self) -> (base: &'static str)
        ensures
            base@ == self@.forge.spec_base(),
    {
        self.forge.base()
    }

    /// The number of repositories in the group.
    pub fn len(&self) -> (n: usize)
        ensures
            n == self@.entries.len(),
    {
        self.entries.len()
    }

    /// The repositories of the group, in the order of their identifiers.
    pub fn data(&self) -> (entries: &Vec<WatchedRepository>)
        ensures
            entries.deep_view() == self@.entries,
    {
        &self.entries
    }

    /// The place of the repository `id` in the group, if it is watched.
    pub fn position(&self, id: &str) -> (at: Option<usize>)
        requires
            self.wf(),
        ensures
            match at {
                Some(i) => i < self@.entries.len() && self@.entries[i as int].0 == id@,
                None => found(self@.entries, id@) is None,
            },
    {
        let i = self.slot_of(id);
        if i < self.entries.len() && same(self.entries[i].id.as_str(), id) {
            Some(i)
        } else {
            None
        }
    }

    /// The version of the repository `id` that was seen last, if it is
    /// watched.
    pub fn version(&self, id: &str) -> (version: Option<&String>)
        requires
            self.wf(),
        ensures
            version.deep_view() == found(self@.entries, id@),
    {
        let i = self.slot_of(id);
        if i < self.entries.len() && same(self.entries[i].id.as_str(), id) {
            Some(&self.entries[i].version)
        } else {
            None
        }
    }

    /// Counts the repositories whose identifiers come before `id`.
    fn slot_of(&self, id: &str) -> (i: usize)
        ensures
            i == slot(self@.entries, id@),
            i <= self.entries.len(),
    {
        let ghost s = self@.entries;
        let mut i: usize = 0;
        proof {
            assert(s.skip(0) =~= s);
        }
        while i < self.entries.len()
            invariant
                s == self@.entries,
                i <= self.entries.len(),
                slot(s, id@) == i + slot(s.skip(i as int), id@),
            decreases self.entries.len() - i,
        {
            if !less(self.entries[i].id.as_str(), id) {
                assert(s.skip(i as int)[0] == s[i as int]);
                return i;
            }
            proof {
                assert(s.skip(i as int)[0] == s[i as int]);
                assert(s.skip(i as int).drop_first() =~= s.skip(i + 1));
            }
            i += 1;
        }
        i
    }

    /// Watches the repository `id` from the version `version` on, and hands
    /// back the version that was stored for it before, if it was watched.
    pub fn insert(&mut self, id: String, version: String) -> (previous: Option<String>)
        requires
            old(self).wf(),
        ensures
            final(self).wf(),
            final(self)@.forge == old(self)@.forge,
            final(self)@.entries == place(old(self)@.entries, (id@, version@)),
            previous.deep_view() == found(old(self)@.entries, id@),
    {
        let ghost s = self@.entries;
        let i = self.slot_of(id.as_str());
        proof {
            lemma_place_ordered(s, (id@, version@));
        }
        if i < self.entries.len() && same(self.entries[i].id.as_str(), id.as_str()) {
            let previous = self.entries[i].version.clone();
            self.entries.set(i, WatchedRepository { id, version });
            assert(self@.entries =~= s.update(i as int, (id@, version@)));
            Some(previous)
        } else {
            self.entries.insert(i, WatchedRepository { id, version });
            assert(self@.entries =~= s.insert(i as int, (id@, version@)));
            None
        }
    }

    /// Stores `version` as the last version seen of the repository at `index`,
    /// and tells whether there is such a repository.
    pub fn set_version(&mut self, index: usize, version: String) -> (stored: bool)
        requires
            old(self).wf(),
        ensures
            final(self).wf(),
            final(self)@.forge == old(self)@.forge,
            stored == (index < old(self)@.entries.len()),
            final(self)@.entries == if stored {
                old(self)@.entries.update(
                    index as int,
                    (old(self)@.entries[index as int].0, version@),
                )
            } else {
                old(self)@.entries
            },
    {
        if index >= self.entries.len() {
            return false;
        }
        let ghost s = self@.entries;
        let id = self.entries[index].id.clone();
        self.entries.set(index, WatchedRepository { id, version });
        let ghost t = self@.entries;
        assert(t =~= s.update(index as int, (s[index as int].0, version@)));
        assert forall|i: int, j: int| 0 <= i < j < t.len() implies precedes(
            #[trigger] t[i].0,
            #[trigger] t[j].0,
        ) by {
            assert(t[i].0 == s[i].0 && t[j].0 == s[j].0);
        }
        true
    }

    /// Tells whether `other` watches the same repositories of the same forge
    /// at the same versions.
    pub fn same_as(&self, other: &UrlGroup) -> (r: bool)
        ensures
            r == (self@ == other@),
    {
        if self.forge != other.forge || self.entries.len() != other.entries.len() {
            assert(self@.entries.len() == self.entries.len());
            assert(other@.entries.len() == other.entries.len());
            return false;
        }
        let mut i: usize = 0;
        while i < self.entries.len()
            invariant
                self.entries.len() == other.entries.len(),
                self.forge == other.forge,
                i <= self.entries.len(),
                self@.entries.take(i as int) == other@.entries.take(i as int),
            decreases self.entries.len() - i,
        {
            if !same(self.entries[i].id.as_str(), other.entries[i].id.as_str()) || !same(
                self.entries[i].version.as_str(),
                other.entries[i].version.as_str(),
            ) {
                assert(self@.entries[i as int] != other@.entries[i as int]);
                return false;
            }
            assert(self@.entries.take(i + 1) =~= self@.entries.take(i as int).push(
                self@.entries[i as int],
            ));
            assert(other@.entries.take(i + 1) =~= other@.entries.take(i as int).push(
                other@.entries[i as int],
            ));
            i += 1;
        }
        assert(self@.entries.take(i as int) =~= self@.entries);
        assert(other@.entries.take(i as int) =~= other@.entries);
        true
    }

    /// The address of the page that shows the latest release of `repo`.
    pub fn url(&self, repo: &str) -> (address: Result<String, UrlError>)
        ensures
            match address {
                Ok(page) => release_url(self@.forge.spec_base(), repo@) == Ok::<Seq<char>, UrlError>(
                    page@,
                ),
                Err(e) => release_url(self@.forge.spec_base(), repo@) == Err::<Seq<char>, UrlError>(e),
            },
    {
        latest_release_url(self.forge.base(), repo)
    }
}

} // verus!
