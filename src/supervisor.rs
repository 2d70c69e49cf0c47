//! The registry of running bridges, keyed by the URL that started each one, and
//! the decision a start request makes against it.
//!
//! A start request for a key that is already registered stops that bridge
//! instead: starting and stopping share one entry point, as a toggle.

use vstd::prelude::*;
use vstd::string::*;
use vstd::utf8::*;

use crate::text::{first_occurrence, utf8_of};
use crate::url::{parse_url, scheme, url_id52, url_path, UrlError};

verus! {

broadcast use group_utf8_lib;

struct RegistryEntry<H> {
    key: String,
    handle: H,
}

/// The running bridges: for each key, the handle that stops its bridge.
pub struct Registry<H> {
    entries: Vec<RegistryEntry<H>>,
    running: Ghost<Map<Seq<char>, H>>,
}

/// What a start request does.
pub enum StartStep<H> {
    /// The key was registered: its entry is removed, and this handle must be
    /// signalled to stop the bridge.
    Stop(H),
    /// The key is not a bridge URL.
    BadUrl(UrlError),
    /// A bridge to this peer is to be started; its handle is registered under
    /// the key once it is listening. `path` is what the browser opens.
    Launch { id52: String, path: String },
}

/// The kind of step a start request takes, given the registered keys.
#[derive(Debug, Clone, Copy, PartialEq, Eq, Structural)]
pub enum StepKind {
    Stop,
    BadUrl,
    Launch,
}

/// The kind of step that a start request for `url` takes while `keys` are registered.
pub open spec fn step_kind(keys: Set<Seq<char>>, url: Seq<char>) -> StepKind {
    if keys.contains(url) {
        StepKind::Stop
    } else if first_occurrence(utf8_of(url), scheme()) == Some(0int) {
        StepKind::Launch
    } else {
        StepKind::BadUrl
    }
}

impl<H> StartStep<H> {
    pub open spec fn kind(&self) -> StepKind {
        match self {
            StartStep::Stop(_) => StepKind::Stop,
            StartStep::BadUrl(_) => StepKind::BadUrl,
            StartStep::Launch { .. } => StepKind::Launch,
        }
    }
}

impl<H> Registry<H> {
    /// The running bridges, by key.
    pub closed spec fn view(&self) -> Map<Seq<char>, H> {
        self.running@
    }

    pub closed spec fn wf(&self) -> bool {
        &&& forall|i: int, j: int|
            0 <= i < j < self.entries@.len() ==> self.entries@[i].key@ != self.entries@[j].key@
        &&& forall|i: int|
            0 <= i < self.entries@.len() ==> self.running@.contains_key(#[trigger] self.entries@[i].key@)
                && self.running@[self.entries@[i].key@] == self.entries@[i].handle
        &&& forall|k: Seq<char>|
            self.running@.contains_key(k) ==> exists|i: int|
                0 <= i < self.entries@.len() && #[trigger] self.entries@[i].key@ == k
    }

    /// An empty registry.
    pub fn new() -> (r: Self)
        ensures
            r.wf(),
            r@ == Map::<Seq<char>, H>::empty(),
    {
        Registry { entries: Vec::new(), running: Ghost(Map::empty()) }
    }

    fn find(&self, key: &String) -> (r: Option<usize>)
        requires
            self.wf(),
        ensures
            match r {
                Some(i) => i < self.entries@.len() && self.entries@[i as int].key@ == key@,
                None => !self@.contains_key(key@),
            },
    {
        let mut i: usize = 0;
        while i < self.entries.len()
            invariant
                i <= self.entries@.len(),
                forall|j: int| 0 <= j < i ==> self.entries@[j].key@ != key@,
            decreases self.entries@.len() - i,
        {
            if self.entries[i].key == *key {
                return Some(i);
            }
            i = i + 1;
        }
        None
    }

    /// Whether a bridge runs under `key`.
    pub fn status(&self, key: &String) -> (r: bool)
        requires
            self.wf(),
        ensures
            r == self@.contains_key(key@),
    {
        self.find(key).is_some()
    }

    /// Removes the bridge under `key` and returns its handle, for the caller to
    /// signal; `None` where no bridge runs under `key`.
    pub fn stop(&mut self, key: &String) -> (r: Option<H>)
        requires
            old(self).wf(),
        ensures
            final(self).wf(),
            final(self)@ == old(self)@.remove(key@),
            match r {
                Some(h) => old(self)@.contains_key(key@) && h == old(self)@[key@],
                None => !old(self)@.contains_key(key@),
            },
    {
        match self.find(key) {
            Some(i) => {
                let ghost old_entries = self.entries@;
                let e = self.entries.remove(i);
                self.running = Ghost(self.running@.remove(key@));
                assert forall|k: Seq<char>| self.running@.contains_key(k) implies exists|m: int|
                    0 <= m < self.entries@.len() && #[trigger] self.entries@[m].key@ == k by {
                    let m0 = choose|m: int| 0 <= m < old_entries.len() && #[trigger] old_entries[m].key@ == k;
                    if m0 < i {
                        assert(self.entries@[m0].key@ == k);
                    } else {
                        assert(m0 != i);
                        assert(self.entries@[m0 - 1].key@ == k);
                    }
                }
                Some(e.handle)
            },
            None => {
                assert(self.running@.remove(key@) =~= self.running@);
                None
            },
        }
    }

    /// Registers the handle of a bridge that now runs under `key`.
    pub fn register(&mut self, key: String, handle: H)
        requires
            old(self).wf(),
            !old(self)@.contains_key(key@),
        ensures
            final(self).wf(),
            final(self)@ == old(self)@.insert(key@, handle),
    {
        let ghost before = self.entries@;
        let ghost k = key@;
        let ghost h = handle;
        self.entries.push(RegistryEntry { key, handle });
        self.running = Ghost(self.running@.insert(k, h));
        assert(self.entries@[before.len() as int].key@ == k);
        assert forall|q: Seq<char>| self.running@.contains_key(q) implies exists|m: int|
            0 <= m < self.entries@.len() && #[trigger] self.entries@[m].key@ == q by {
            if q == k {
                assert(self.entries@[before.len() as int].key@ == q);
            } else {
                let m0 = choose|m: int| 0 <= m < before.len() && #[trigger] before[m].key@ == q;
                assert(self.entries@[m0].key@ == q);
            }
        }
    }

    /// A start request for `url`: stops the bridge registered under it, if any;
    /// otherwise reads the peer and the path out of it.
    pub fn start(&mut self, url: &String) -> (r: StartStep<H>)
        requires
            old(self).wf(),
        ensures
            final(self).wf(),
            r.kind() == step_kind(old(self)@.dom(), url@),
            final(self)@ == old(self)@.remove(url@),
            match r {
                StartStep::Stop(h) => h == old(self)@[url@],
                StartStep::BadUrl(e) => match e {
                    UrlError::MissingScheme => first_occurrence(utf8_of(url@), scheme()) is None,
                    UrlError::UnexpectedPrefix(p) => {
                        let k = first_occurrence(utf8_of(url@), scheme())->0;
                        &&& first_occurrence(utf8_of(url@), scheme()) is Some
                        &&& k > 0
                        &&& utf8_of(p@) == utf8_of(url@).subrange(0, k)
                    },
                },
                StartStep::Launch { id52, path } => {
                    &&& utf8_of(id52@) == url_id52(utf8_of(url@))
                    &&& utf8_of(path@) == url_path(utf8_of(url@))
                },
            },
    {
        if let Some(h) = self.stop(url) {
            return StartStep::Stop(h);
        }
        match parse_url(url.as_str()) {
            Ok((id52, path)) => StartStep::Launch { id52: id52.to_owned(), path: path.to_owned() },
            Err(e) => StartStep::BadUrl(e),
        }
    }
}

/// A second start request for the same key, with no stop in between, stops the
/// bridge that the first one started, and leaves the registry as it was before.
pub proof fn law_start_twice_toggles<H>(running: Map<Seq<char>, H>, url: Seq<char>, handle: H)
    requires
        step_kind(running.dom(), url) == StepKind::Launch,
    ensures
        step_kind(running.insert(url, handle).dom(), url) == StepKind::Stop,
        running.insert(url, handle).remove(url) == running,
{
    assert(running.insert(url, handle).remove(url) =~= running);
}

} // verus!
