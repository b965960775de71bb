//! The worklist over the crate's sources, as a state machine that the caller
//! drives: it reads and parses each file asked for, probes the paths asked
//! for, and hands the answers back.

use vstd::prelude::*;
use crate::finder::{find_references, refs_from, refs_view, Reference, ReferenceModel, SyntaxEvent};
use crate::resolve::{probe_paths, probes_of, resolve_references, resolved, resolve_one, probe_count};
use crate::source_desc::{
    descs_view, errors_view, DescModel, Error, ErrorModel, KindModel, ModPath, ModStack, ModType,
    SourceFileDesc, SourceFileType, StackModel,
};

verus! {

/// Every source looked at, each with the errors met while looking at it.
#[derive(Debug, Clone)]
pub struct SourcesAndErrors {
    pub sources: Vec<(SourceFileDesc, Vec<Error>)>,
}

pub open spec fn entries_view(v: Seq<(SourceFileDesc, Vec<Error>)>) -> Seq<(DescModel, Seq<ErrorModel>)> {
    v.map_values(|p: (SourceFileDesc, Vec<Error>)| (p.0@, errors_view(p.1@)))
}

/// Each error of `entries`, beside the source it belongs to, in order.
pub open spec fn flat_errors(entries: Seq<(DescModel, Seq<ErrorModel>)>) -> Seq<(DescModel, ErrorModel)>
    decreases entries.len(),
{
    if entries.len() == 0 {
        Seq::empty()
    } else {
        let last = entries.last();
        flat_errors(entries.drop_last()) + last.1.map_values(|e: ErrorModel| (last.0, e))
    }
}

/// Whether no entry holds an error.
pub open spec fn all_clean(entries: Seq<(DescModel, Seq<ErrorModel>)>) -> bool {
    forall|i: int| 0 <= i < entries.len() ==> #[trigger] entries[i].1.len() == 0
}

impl SourcesAndErrors {
    pub open spec fn view_entries(&self) -> Seq<(DescModel, Seq<ErrorModel>)> {
        entries_view(self.sources@)
    }

    pub fn new(sources: Vec<(SourceFileDesc, Vec<Error>)>) -> (r: Self)
        ensures
            r.sources == sources,
    {
        SourcesAndErrors { sources }
    }

    /// The sources, without their errors.
    pub fn get_sources(&self) -> (r: Vec<SourceFileDesc>)
        ensures
            descs_view(r@) == self.view_entries().map_values(|p: (DescModel, Seq<ErrorModel>)| p.0),
    {
        let mut r: Vec<SourceFileDesc> = Vec::new();
        let mut i: usize = 0;
        while i < self.sources.len()
            invariant
                i <= self.sources@.len(),
                r@.len() == i,
                forall|k: int| 0 <= k < i ==> #[trigger] r@[k]@ == self.sources@[k].0@,
            decreases self.sources@.len() - i,
        {
            r.push(self.sources[i].0.copy());
            i = i + 1;
        }
        assert(descs_view(r@) =~= self.view_entries().map_values(|p: (DescModel, Seq<ErrorModel>)| p.0));
        r
    }

    /// The sources, without their errors.
    pub fn into_sources(self) -> (r: Vec<SourceFileDesc>)
        ensures
            descs_view(r@) == self.view_entries().map_values(|p: (DescModel, Seq<ErrorModel>)| p.0),
    {
        self.get_sources()
    }

    /// Every error, beside the source it belongs to.
    pub fn into_errors(self) -> (r: Vec<(SourceFileDesc, Error)>)
        ensures
            r@.map_values(|p: (SourceFileDesc, Error)| (p.0@, p.1@)) == flat_errors(self.view_entries()),
    {
        let ghost ev = self.view_entries();
        let mut r: Vec<(SourceFileDesc, Error)> = Vec::new();
        let mut i: usize = 0;
        while i < self.sources.len()
            invariant
                ev == self.view_entries(),
                i <= self.sources@.len(),
                r@.map_values(|p: (SourceFileDesc, Error)| (p.0@, p.1@)) == flat_errors(ev.subrange(0, i as int)),
            decreases self.sources@.len() - i,
        {
            let ghost prev = r@.map_values(|p: (SourceFileDesc, Error)| (p.0@, p.1@));
            let errs = &self.sources[i].1;
            let mut j: usize = 0;
            while j < errs.len()
                invariant
                    i < self.sources@.len(),
                    errs == &self.sources@[i as int].1,
                    j <= errs@.len(),
                    r@.len() == prev.len() + j,
                    forall|k: int| 0 <= k < prev.len() ==> (#[trigger] r@[k]).0@ == prev[k].0 && r@[k].1@ == prev[k].1,
                    forall|k: int| 0 <= k < j ==> (#[trigger] r@[prev.len() + k]).0@ == self.sources@[i as int].0@ && r@[prev.len() + k].1@ == errs@[k]@,
                decreases errs@.len() - j,
            {
                r.push((self.sources[i].0.copy(), errs[j].copy()));
                j = j + 1;
            }
            proof {
                let s = ev.subrange(0, i + 1);
                assert(s.drop_last() =~= ev.subrange(0, i as int));
                assert(s.last() == ev[i as int]);
                assert(flat_errors(s) == prev + s.last().1.map_values(|e: ErrorModel| (s.last().0, e)));
                let rm = r@.map_values(|p: (SourceFileDesc, Error)| (p.0@, p.1@));
                let tail = s.last().1.map_values(|e: ErrorModel| (s.last().0, e));
                assert(tail.len() == errs@.len());
                assert forall|k: int| 0 <= k < rm.len() implies rm[k] == (prev + tail)[k] by {
                    if k >= prev.len() {
                        assert(r@[prev.len() + (k - prev.len())].1@ == errs@[k - prev.len()]@);
                        assert(tail[k - prev.len()] == (self.sources@[i as int].0@, errs@[k - prev.len()]@));
                    } else {
                        assert(r@[k].0@ == prev[k].0 && r@[k].1@ == prev[k].1);
                    }
                }
                assert(rm =~= prev + tail);
            }
            i = i + 1;
        }
        assert(ev.subrange(0, self.sources@.len() as int) =~= ev);
        r
    }
}

/// Every source that resolution yields for file `parent` names `parent` as
/// its parent.
pub proof fn lemma_resolved_parents(refs: Seq<ReferenceModel>, ex: Seq<bool>, parent: Seq<char>)
    ensures
        forall|i: int| 0 <= i < resolved(refs, ex, parent).0.len()
            ==> (#[trigger] resolved(refs, ex, parent).0[i]).parent == Some(parent),
    decreases refs.len(),
{
    if refs.len() > 0 {
        let head = resolve_one(refs[0], ex, parent);
        let rest = refs.subrange(1, refs.len() as int);
        let rex = ex.subrange(probe_count(refs[0]), ex.len() as int);
        lemma_resolved_parents(rest, rex, parent);
        let all = resolved(refs, ex, parent).0;
        assert(all == head.0 + resolved(rest, rex, parent).0);
        assert forall|i: int| 0 <= i < all.len() implies (#[trigger] all[i]).parent == Some(parent) by {
            if i >= head.0.len() {
                assert(all[i] == resolved(rest, rex, parent).0[i - head.0.len()]);
            }
        }
    }
}

/// The description of the crate root at `root`.
pub open spec fn root_desc(root: Seq<char>) -> DescModel {
    DescModel { path: root, kind: KindModel::Source(ModType::ModRs), parent: None }
}

/// The module context in which the file of `d` is read.
pub open spec fn stack_of(d: DescModel) -> StackModel {
    match d.kind {
        KindModel::Snippet(s) => s,
        KindModel::Source(t) => StackModel { base: d.path, base_type: t, names: Seq::empty() },
        _ => StackModel { base: d.path, base_type: ModType::ModRs, names: Seq::empty() },
    }
}

/// The included data files at the end of queue `q`, in the order in which
/// they leave it, each recorded with no error.
pub open spec fn recorded_opaque(q: Seq<DescModel>) -> Seq<(DescModel, Seq<ErrorModel>)>
    decreases q.len(),
{
    if q.len() > 0 && q.last().is_opaque() {
        seq![(q.last(), Seq::<ErrorModel>::empty())] + recorded_opaque(q.drop_last())
    } else {
        Seq::empty()
    }
}

/// How many included data files stand at the end of queue `q`.
pub open spec fn opaque_run(q: Seq<DescModel>) -> nat
    decreases q.len(),
{
    if q.len() > 0 && q.last().is_opaque() {
        1 + opaque_run(q.drop_last())
    } else {
        0
    }
}

/// The discovery of a crate's sources. Sources wait in a queue and are taken
/// from its end. The caller reads and parses the file of each source taken
/// (`advance`, then `parsed` or `read_failed`), and tells which of the paths
/// asked for exist (`probed`), until `advance` returns `None`.
pub struct SourceWalk {
    pub queue: Vec<SourceFileDesc>,
    pub result: SourcesAndErrors,
    /// The source whose file is being read.
    pub current: Option<SourceFileDesc>,
    /// What the current file refers to, once it is parsed.
    pub pending: Option<Vec<Reference>>,
    pub root: Ghost<Seq<char>>,
}

impl SourceWalk {
    pub open spec fn queue_view(&self) -> Seq<DescModel> {
        descs_view(self.queue@)
    }

    pub open spec fn entries(&self) -> Seq<(DescModel, Seq<ErrorModel>)> {
        self.result.view_entries()
    }

    pub open spec fn current_view(&self) -> DescModel {
        self.current->0@
    }

    pub open spec fn pending_view(&self) -> Seq<ReferenceModel> {
        refs_view(self.pending->0@)
    }

    pub open spec fn is_idle(&self) -> bool {
        self.current is None
    }

    pub open spec fn is_reading(&self) -> bool {
        self.current is Some && self.pending is None
    }

    pub open spec fn is_probing(&self) -> bool {
        self.current is Some && self.pending is Some
    }

    pub open spec fn is_finished(&self) -> bool {
        self.current is None && self.queue@.len() == 0
    }

    pub open spec fn wf(&self) -> bool {
        let e = self.entries();
        let q = self.queue_view();
        &&& self.pending is Some ==> self.current is Some
        &&& self.current is Some ==> !self.current_view().is_opaque()
        &&& e.len() == 0 ==> {
            ||| self.current is None && q == seq![root_desc(self.root@)]
            ||| self.current is Some && self.current_view() == root_desc(self.root@) && q.len() == 0
        }
        &&& e.len() > 0 ==> e[0].0 == root_desc(self.root@)
        &&& forall|i: int| 1 <= i < e.len() ==> (#[trigger] e[i]).0.parent is Some
        &&& e.len() > 0 ==> forall|i: int| 0 <= i < q.len() ==> (#[trigger] q[i]).parent is Some
        &&& e.len() > 0 && self.current is Some ==> self.current_view().parent is Some
    }

    /// A walk that starts from the crate root file at `root`.
    pub fn new(root: String) -> (r: SourceWalk)
        ensures
            r.wf(),
            r.is_idle(),
            r.root@ == root@,
            r.queue_view() == seq![root_desc(root@)],
            r.entries().len() == 0,
    {
        let ghost g = root@;
        let mut queue: Vec<SourceFileDesc> = Vec::new();
        queue.push(SourceFileDesc::new(root, SourceFileType::RustSource(ModType::ModRs), None));
        let r = SourceWalk {
            queue,
            result: SourcesAndErrors::new(Vec::new()),
            current: None,
            pending: None,
            root: Ghost(g),
        };
        assert(r.queue_view() =~= seq![root_desc(g)]);
        assert(r.entries() =~= Seq::<(DescModel, Seq<ErrorModel>)>::empty());
        r
    }

    /// Takes sources from the queue: an included data file is recorded as it
    /// is, never read; the first other source becomes the current one, and
    /// its path is returned for the caller to read. `None` once the queue is
    /// empty.
    pub fn advance(&mut self) -> (r: Option<String>)
        requires
            old(self).wf(),
            old(self).is_idle(),
        ensures
            final(self).wf(),
            final(self).root == old(self).root,
            final(self).entries() == old(self).entries() + recorded_opaque(old(self).queue_view()),
            ({
                let q = old(self).queue_view();
                let k = opaque_run(q) as int;
                match r {
                    None => final(self).is_finished() && k == q.len(),
                    Some(p) => {
                        &&& final(self).is_reading()
                        &&& k < q.len()
                        &&& final(self).current_view() == q[q.len() - k - 1]
                        &&& p@ == final(self).current_view().path
                        &&& final(self).queue_view() == q.subrange(0, q.len() - k - 1)
                    },
                }
            }),
    {
        let ghost q = self.queue_view();
        let ghost e0 = self.entries();
        loop
            invariant
                self.wf(),
                self.is_idle(),
                self.root == old(self).root,
                self.queue_view() == q.subrange(0, self.queue@.len() as int),
                self.queue@.len() <= q.len(),
                q == old(self).queue_view(),
                e0 == old(self).entries(),
                ({
                    let qq = self.queue_view();
                    &&& e0 + recorded_opaque(q) == self.entries() + recorded_opaque(qq)
                    &&& opaque_run(q) == (q.len() - qq.len()) + opaque_run(qq)
                }),
            decreases self.queue@.len(),
        {
            let ghost qq = self.queue_view();
            let ghost ep = self.entries();
            match self.queue.pop() {
                None => {
                    assert(qq.len() == 0);
                    assert(e0 + recorded_opaque(q) == self.entries() + Seq::<(DescModel, Seq<ErrorModel>)>::empty());
                    assert(self.entries() + Seq::<(DescModel, Seq<ErrorModel>)>::empty() =~= self.entries());
                    return None;
                },
                Some(d) => {
                    assert(qq.last() == d@);
                    assert(self.queue_view() =~= qq.drop_last());
                    assert(qq.drop_last() =~= q.subrange(0, self.queue@.len() as int));
                    if d.file_type.is_opaque() {
                        self.result.sources.push((d, Vec::new()));
                        proof {
                            let ne = self.entries();
                            let item = (d@, Seq::<ErrorModel>::empty());
                            assert(errors_view(Seq::<Error>::empty()) =~= Seq::<ErrorModel>::empty());
                            assert(ne =~= ep.push(item));
                            assert(recorded_opaque(qq) == seq![item] + recorded_opaque(qq.drop_last()));
                            assert(ep + (seq![item] + recorded_opaque(qq.drop_last())) =~= ep.push(item) + recorded_opaque(qq.drop_last()));
                            assert(ep.len() > 0);
                            assert(ne[0] == ep[0]);
                            assert forall|i: int| 1 <= i < ne.len() implies (#[trigger] ne[i]).0.parent is Some by {
                                if i < ep.len() {
                                    assert(ne[i] == ep[i]);
                                } else {
                                    assert(qq[qq.len() - 1].parent is Some);
                                }
                            }
                            let nq = self.queue_view();
                            assert forall|i: int| 0 <= i < nq.len() implies (#[trigger] nq[i]).parent is Some by {
                                assert(nq[i] == qq[i]);
                            }
                        }
                    } else {
                        let p = d.path.clone();
                        self.current = Some(d);
                        proof {
                            let nq = self.queue_view();
                            if ep.len() > 0 {
                                assert(qq[qq.len() - 1].parent is Some);
                                assert forall|i: int| 0 <= i < nq.len() implies (#[trigger] nq[i]).parent is Some by {
                                    assert(nq[i] == qq[i]);
                                }
                            } else {
                                assert(qq == seq![root_desc(self.root@)]);
                            }
                            assert(recorded_opaque(qq) =~= Seq::<(DescModel, Seq<ErrorModel>)>::empty());
                            assert(ep + Seq::<(DescModel, Seq<ErrorModel>)>::empty() =~= ep);
                        }
                        return Some(p);
                    }
                },
            }
        }
    }

    /// Records that the current file could not be read or parsed.
    pub fn read_failed(&mut self, e: Error)
        requires
            old(self).wf(),
            old(self).is_reading(),
        ensures
            final(self).wf(),
            final(self).is_idle(),
            final(self).root == old(self).root,
            final(self).queue_view() == old(self).queue_view(),
            final(self).entries() == old(self).entries().push((old(self).current_view(), seq![e@])),
    {
        let ghost ep = self.entries();
        let ghost ev = e@;
        let cur = self.current.take().unwrap();
        let mut errs: Vec<Error> = Vec::new();
        errs.push(e);
        self.result.sources.push((cur, errs));
        proof {
            assert(errors_view(errs@) =~= seq![ev]);
            let ne = self.entries();
            assert(ne =~= ep.push((old(self).current_view(), seq![ev])));
            assert forall|i: int| 1 <= i < ne.len() implies (#[trigger] ne[i]).0.parent is Some by {
                if i < ep.len() {
                    assert(ne[i] == ep[i]);
                }
            }
        }
    }

    /// Takes the syntax of the current file, and returns the paths whose
    /// existence the caller is to probe, in order.
    pub fn parsed(&mut self, events: &Vec<SyntaxEvent>) -> (r: Vec<String>)
        requires
            old(self).wf(),
            old(self).is_reading(),
        ensures
            final(self).wf(),
            final(self).is_probing(),
            final(self).root == old(self).root,
            final(self).queue_view() == old(self).queue_view(),
            final(self).entries() == old(self).entries(),
            final(self).current_view() == old(self).current_view(),
            final(self).pending_view() == refs_from(events@, stack_of(old(self).current_view())),
            r@.map_values(|s: String| s@) == probes_of(final(self).pending_view()),
    {
        let stack = match &self.current {
            Some(cur) => match &cur.file_type {
                SourceFileType::RustSnippet(s) => s.copy(),
                SourceFileType::RustSource(t) => ModStack::new(ModPath::new(cur.path.clone(), *t)),
                _ => ModStack::new(ModPath::new(cur.path.clone(), ModType::ModRs)),
            },
            None => ModStack::new(ModPath::new(String::new(), ModType::ModRs)),
        };
        assert(stack@ == stack_of(self.current_view())) by {
            assert(stack@.names =~= stack_of(self.current_view()).names);
        }
        let refs = find_references(events, &stack);
        let probes = probe_paths(&refs);
        self.pending = Some(refs);
        probes
    }

    /// Takes, for each path that `parsed` returned, whether it exists. The
    /// sources found join the queue, and the current source is recorded with
    /// the errors of its modules that have no file.
    pub fn probed(&mut self, exists: &Vec<bool>)
        requires
            old(self).wf(),
            old(self).is_probing(),
            exists@.len() == probes_of(old(self).pending_view()).len(),
        ensures
            final(self).wf(),
            final(self).is_idle(),
            final(self).root == old(self).root,
            ({
                let res = resolved(old(self).pending_view(), exists@, old(self).current_view().path);
                &&& final(self).queue_view() == old(self).queue_view() + res.0
                &&& final(self).entries() == old(self).entries().push((old(self).current_view(), res.1))
            }),
    {
        let ghost ep = self.entries();
        let ghost qp = self.queue_view();
        let cur = self.current.take().unwrap();
        let refs = self.pending.take().unwrap();
        let (found, errors) = resolve_references(&refs, exists, &cur.path);
        let ghost res = resolved(refs_view(refs@), exists@, cur.path@);
        let ghost fv = descs_view(found@);
        proof {
            lemma_resolved_parents(refs_view(refs@), exists@, cur.path@);
        }
        let mut found = found;
        self.queue.append(&mut found);
        self.result.sources.push((cur, errors));
        proof {
            let nq = self.queue_view();
            assert(nq =~= qp + res.0);
            let ne = self.entries();
            assert(ne =~= ep.push((old(self).current_view(), res.1)));
            assert forall|i: int| 1 <= i < ne.len() implies (#[trigger] ne[i]).0.parent is Some by {
                if i < ep.len() {
                    assert(ne[i] == ep[i]);
                }
            }
            assert forall|i: int| 0 <= i < nq.len() implies (#[trigger] nq[i]).parent is Some by {
                if i < qp.len() {
                    assert(nq[i] == qp[i]);
                } else {
                    assert(nq[i] == res.0[i - qp.len()]);
                }
            }
        }
    }

    /// The outcome of a finished walk: `Ok` with every source when no source
    /// met an error, else `Err` with every source and its errors.
    pub fn finish(self) -> (r: Result<Vec<SourceFileDesc>, SourcesAndErrors>)
        requires
            self.wf(),
            self.is_finished(),
        ensures
            self.entries().len() > 0,
            self.entries()[0].0 == root_desc(self.root@),
            match r {
                Ok(v) => all_clean(self.entries())
                    && descs_view(v@) == self.entries().map_values(|p: (DescModel, Seq<ErrorModel>)| p.0),
                Err(s) => !all_clean(self.entries()) && s.view_entries() == self.entries(),
            },
    {
        let mut clean = true;
        let mut i: usize = 0;
        let ghost e = self.entries();
        assert(e.len() > 0) by {
            if e.len() == 0 {
                assert(self.queue_view().len() == 0);
                assert(seq![root_desc(self.root@)].len() == 1);
            }
        }
        while i < self.result.sources.len()
            invariant
                e == self.entries(),
                e.len() == self.result.sources@.len(),
                i <= self.result.sources@.len(),
                clean == (forall|k: int| 0 <= k < i ==> #[trigger] e[k].1.len() == 0),
            decreases self.result.sources@.len() - i,
        {
            assert(e[i as int].1.len() == self.result.sources@[i as int].1@.len());
            if self.result.sources[i].1.len() > 0 {
                clean = false;
            }
            i = i + 1;
        }
        if clean {
            Ok(self.result.into_sources())
        } else {
            Err(self.result)
        }
    }
}

} // verus!
