//! The chapter download orchestrator's decision logic.
//!
//! A download job resolves the owning source plugin through a shared
//! registry, lets the source fetch and store the chapter, and turns the
//! result into the job's terminal outcome.  The registry lookup and the
//! translation of the fetch result are decided here; the runtime that
//! locks the registry, awaits the fetch and writes the result cell stands
//! outside the crate and hands the outcomes in as plain values.

use vstd::prelude::*;

use crate::model::ChapterId;
use crate::model::SourceId;

verus! {

/// The single error surface of the download core.  Every failure is
/// terminal for the job that met it; nothing is retried here.
#[derive(Clone, Debug)]
pub enum DownloadError {
    /// The registry has no plugin for the chapter's source.  A caller
    /// error, not a retry condition.
    SourceNotFound,
    /// The source plugin's fetch capability failed; its own message is
    /// carried along.
    FetchFailed(String),
    /// Persisting the fetched content failed; the storage message is
    /// carried along.
    StorageFailed(String),
}

impl DownloadError {
    /// An equal error of its own.
    pub fn duplicate(&self) -> (r: Self)
        ensures
            r == *self,
    {
        match self {
            DownloadError::SourceNotFound => DownloadError::SourceNotFound,
            DownloadError::FetchFailed(m) => DownloadError::FetchFailed(m.clone()),
            DownloadError::StorageFailed(m) => DownloadError::StorageFailed(m.clone()),
        }
    }
}

/// How a source plugin's fetch reports failure: its own error, or the
/// storage collaborator's.
#[derive(Clone, Debug)]
pub enum FetchError {
    Source(String),
    Storage(String),
}

/// The registry of source plugins, keyed by source identifier.  One
/// process-wide instance is expected, guarded by one lock held only while
/// resolving — never across a fetch.  `S` is whatever handle the runtime
/// keeps per plugin.
pub struct SourceRegistry<S> {
    entries: Vec<(SourceId, S)>,
}

impl<S> SourceRegistry<S> {
    pub closed spec fn entries_view(self) -> Seq<(SourceId, S)> {
        self.entries@
    }

    /// Keys are unique: one plugin per source identifier.
    pub open spec fn wf(self) -> bool {
        forall|i: int, j: int|
            0 <= i < j < self.entries_view().len() ==> (#[trigger] self.entries_view()[i]).0@
                != (#[trigger] self.entries_view()[j]).0@
    }

    pub open spec fn spec_contains(self, source: Seq<char>) -> bool {
        exists|i: int|
            0 <= i < self.entries_view().len() && (#[trigger] self.entries_view()[i]).0@
                == source
    }

    /// The index of the entry for `source`, where one exists.
    pub open spec fn spec_index_of(self, source: Seq<char>) -> int {
        choose|i: int|
            0 <= i < self.entries_view().len() && (#[trigger] self.entries_view()[i]).0@
                == source
    }

    /// The handle registered for `source`, where one exists.
    pub open spec fn spec_get(self, source: Seq<char>) -> S {
        self.entries_view()[self.spec_index_of(source)].1
    }

    /// With unique keys, any matching index is the looked-up one.
    pub proof fn lemma_index_of_is(self, source: Seq<char>, i: int)
        requires
            self.wf(),
            0 <= i < self.entries_view().len(),
            self.entries_view()[i].0@ == source,
        ensures
            self.spec_index_of(source) == i,
            self.spec_contains(source),
            self.spec_get(source) == self.entries_view()[i].1,
    {
        let j = self.spec_index_of(source);
        if j != i {
            if j < i {
                assert(self.entries_view()[j].0@ != self.entries_view()[i].0@);
            } else {
                assert(self.entries_view()[i].0@ != self.entries_view()[j].0@);
            }
        }
    }

    /// An empty registry: nothing resolves.
    pub fn new() -> (r: Self)
        ensures
            r.wf(),
            r.entries_view().len() == 0,
            forall|source: Seq<char>| !r.spec_contains(source),
    {
        Self { entries: Vec::new() }
    }

    /// Registers `handle` for `id`, replacing any previous plugin of the
    /// same source.  Other entries are untouched.
    pub fn register(&mut self, id: SourceId, handle: S)
        requires
            old(self).wf(),
        ensures
            final(self).wf(),
            final(self).spec_contains(id@),
            final(self).spec_get(id@) == handle,
            forall|source: Seq<char>|
                source != id@ ==> (#[trigger] final(self).spec_contains(source))
                    == old(self).spec_contains(source),
            forall|source: Seq<char>|
                source != id@ && old(self).spec_contains(source) ==> (
                #[trigger] final(self).spec_get(source)) == old(self).spec_get(source),
    {
        let ghost prior = self.entries@;
        let n = self.entries.len();
        let mut i: usize = 0;
        while i < n
            invariant
                0 <= i <= n,
                n == self.entries@.len(),
                self.entries@ == prior,
                old(self).entries_view() == prior,
                old(self).wf(),
                forall|j: int| 0 <= j < i ==> (#[trigger] prior[j]).0@ != id@,
            decreases n - i,
        {
            if *self.entries[i].0.value() == *id.value() {
                proof {
                    assert(prior[i as int].0@ == id@);
                }
                self.entries.set(i, (id, handle));
                proof {
                    let now = self.entries@;
                    assert(now =~= prior.update(i as int, (id, handle)));
                    assert forall|j: int| 0 <= j < now.len() implies (#[trigger] now[j]).0@
                        == prior[j].0@ by {
                        if j != i {
                            assert(now[j] == prior[j]);
                        }
                    }
                    assert forall|a: int, b: int|
                        0 <= a < b < now.len() implies (#[trigger] now[a]).0@ != (
                    #[trigger] now[b]).0@ by {
                        assert(prior[a].0@ != prior[b].0@);
                    }
                    self.lemma_index_of_is(id@, i as int);
                    assert forall|source: Seq<char>|
                        source != id@ implies (#[trigger] self.spec_contains(source))
                        == old(self).spec_contains(source) by {
                        if old(self).spec_contains(source) {
                            let j = old(self).spec_index_of(source);
                            assert(prior[j].0@ == source);
                            assert(now[j].0@ == source);
                        }
                        if self.spec_contains(source) {
                            let j = self.spec_index_of(source);
                            assert(now[j].0@ == source);
                            assert(prior[j].0@ == source);
                        }
                    }
                    assert forall|source: Seq<char>|
                        source != id@ && old(self).spec_contains(source) implies (
                    #[trigger] self.spec_get(source)) == old(self).spec_get(source) by {
                        let j = old(self).spec_index_of(source);
                        assert(prior[j].0@ == source);
                        assert(j != i);
                        assert(now[j].0@ == source);
                        assert(now[j].1 == prior[j].1);
                        self.lemma_index_of_is(source, j);
                        old(self).lemma_index_of_is(source, j);
                    }
                }
                return ;
            }
            i = i + 1;
        }
        self.entries.push((id, handle));
        proof {
            let now = self.entries@;
            assert(old(self).entries_view() == prior);
            assert(old(self).wf());
            assert(now =~= prior.push((id, handle)));
            assert(now[now.len() - 1].0@ == id@);
            assert forall|a: int, b: int|
                0 <= a < b < now.len() implies (#[trigger] now[a]).0@ != (
            #[trigger] now[b]).0@ by {
                assert(now[a] == prior[a]);
                if b < now.len() - 1 {
                    assert(now[b] == prior[b]);
                } else {
                    assert(prior[a].0@ != id@);
                }
            }
            self.lemma_index_of_is(id@, now.len() - 1);
            assert forall|source: Seq<char>|
                source != id@ implies (#[trigger] self.spec_contains(source)) == old(
                self,
            ).spec_contains(source) by {
                if old(self).spec_contains(source) {
                    let j = old(self).spec_index_of(source);
                    assert(prior[j].0@ == source);
                    assert(now[j].0@ == source);
                }
                if self.spec_contains(source) {
                    let j = self.spec_index_of(source);
                    assert(now[j].0@ == source);
                    assert(j < now.len() - 1);
                    assert(prior[j].0@ == source);
                }
            }
            assert forall|source: Seq<char>|
                source != id@ && old(self).spec_contains(source) implies (
            #[trigger] self.spec_get(source)) == old(self).spec_get(source) by {
                let j = old(self).spec_index_of(source);
                assert(prior[j].0@ == source);
                assert(now[j].0@ == source);
                assert(now[j].1 == prior[j].1);
                self.lemma_index_of_is(source, j);
                old(self).lemma_index_of_is(source, j);
            }
        }
    }

    /// Looks a plugin up by source identifier.
    pub fn lookup(&self, id: &SourceId) -> (r: Option<&S>)
        requires
            self.wf(),
        ensures
            match r {
                Some(h) => self.spec_contains(id@) && *h == self.spec_get(id@),
                None => !self.spec_contains(id@),
            },
    {
        let n = self.entries.len();
        let mut i: usize = 0;
        while i < n
            invariant
                0 <= i <= n,
                self.wf(),
                n == self.entries@.len(),
                forall|j: int| 0 <= j < i ==> (#[trigger] self.entries@[j]).0@ != id@,
            decreases n - i,
        {
            if *self.entries[i].0.value() == *id.value() {
                proof {
                    self.lemma_index_of_is(id@, i as int);
                }
                return Some(&self.entries[i].1);
            }
            i = i + 1;
        }
        None
    }
}

/// Resolves the source plugin owning `chapter`.  Absence of the source is
/// the terminal `SourceNotFound` error, never a retry.
pub fn resolve_source<'a, S>(registry: &'a SourceRegistry<S>, chapter: &ChapterId) -> (r:
    Result<&'a S, DownloadError>)
    requires
        registry.wf(),
    ensures
        registry.spec_contains(chapter@.source) <==> r is Ok,
        r is Ok ==> *r->Ok_0 == registry.spec_get(chapter@.source),
        r is Err ==> r->Err_0 == DownloadError::SourceNotFound,
{
    match registry.lookup(chapter.source_id()) {
        Some(handle) => Ok(handle),
        None => Err(DownloadError::SourceNotFound),
    }
}

/// Turns the outcome of a source's fetch into the job's outcome: the
/// stored path on success, the source's or storage's failure otherwise,
/// each under its place in the error surface.
pub fn conclude_fetch(fetched: Result<String, FetchError>) -> (r: Result<String, DownloadError>)
    ensures
        fetched is Ok ==> r == Ok::<String, DownloadError>(fetched->Ok_0),
        fetched is Err ==> r is Err && match fetched->Err_0 {
            FetchError::Source(m) => r->Err_0 == DownloadError::FetchFailed(m),
            FetchError::Storage(m) => r->Err_0 == DownloadError::StorageFailed(m),
        },
{
    match fetched {
        Ok(path) => Ok(path),
        Err(FetchError::Source(m)) => Err(DownloadError::FetchFailed(m)),
        Err(FetchError::Storage(m)) => Err(DownloadError::StorageFailed(m)),
    }
}

/// LAW — unknown sources: against a registry without the chapter's
/// source, the orchestrator's only possible outcome is the
/// `SourceNotFound` error, and a job cell completed with it polls as
/// `Errored(SourceNotFound)` — never as in progress.
pub proof fn lemma_unknown_source_polls_errored<S>(
    registry: SourceRegistry<S>,
    chapter: ChapterId,
    outcome: Result<String, DownloadError>,
)
    requires
        registry.wf(),
        !registry.spec_contains(chapter@.source),
        outcome == Err::<String, DownloadError>(DownloadError::SourceNotFound),
    ensures
        crate::job::job_state_of(Some(outcome)) == crate::job::JobState::<
            (),
            String,
            DownloadError,
        >::Errored(DownloadError::SourceNotFound),
{
}

} // verus!
