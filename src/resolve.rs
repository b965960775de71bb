//! Choosing, for each reference of a file, the file it designates, from
//! which candidate files exist.

use vstd::prelude::*;
use crate::finder::{modpaths_view, refs_view, Reference, ReferenceModel};
use crate::source_desc::{
    descs_view, errors_view, DescModel, Error, ErrorModel, KindModel, ModPath, ModType, SourceFileDesc,
    SourceFileType,
};

verus! {

/// The paths whose existence decides the references `refs`, in order.
pub open spec fn probes_of(refs: Seq<ReferenceModel>) -> Seq<Seq<char>>
    decreases refs.len(),
{
    if refs.len() == 0 {
        Seq::empty()
    } else {
        let rest = probes_of(refs.subrange(1, refs.len() as int));
        match refs[0] {
            ReferenceModel::Module(c) => c.map_values(|p: (Seq<char>, ModType)| p.0) + rest,
            ReferenceModel::Direct(_) => rest,
        }
    }
}

/// The first index `j` in `i..n` with `ex[j]`, or `n`.
pub open spec fn first_from(ex: Seq<bool>, i: int, n: int) -> int
    decreases n - i,
{
    if i >= n {
        n
    } else if ex[i] {
        i
    } else {
        first_from(ex, i + 1, n)
    }
}

/// The source that module candidate `c` of file `parent` designates.
pub open spec fn found_desc(c: (Seq<char>, ModType), parent: Seq<char>) -> DescModel {
    DescModel { path: c.0, kind: KindModel::Source(c.1), parent: Some(parent) }
}

/// One reference of file `parent`, where `ex` tells, from its start, which of
/// its candidates exist: a source found, or the error of a module with no file.
pub open spec fn resolve_one(r: ReferenceModel, ex: Seq<bool>, parent: Seq<char>) -> (Seq<DescModel>, Seq<ErrorModel>) {
    match r {
        ReferenceModel::Module(c) => {
            let f = first_from(ex, 0, c.len() as int);
            if f < c.len() {
                (seq![found_desc(c[f], parent)], Seq::empty())
            } else {
                (Seq::empty(), seq![ErrorModel::MissingFile(c.map_values(|p: (Seq<char>, ModType)| found_desc(p, parent)))])
            }
        },
        ReferenceModel::Direct(d) => (seq![DescModel { path: d.path, kind: d.kind, parent: Some(parent) }], Seq::empty()),
    }
}

pub open spec fn probe_count(r: ReferenceModel) -> int {
    match r {
        ReferenceModel::Module(c) => c.len() as int,
        ReferenceModel::Direct(_) => 0,
    }
}

/// All references of file `parent`, with `ex` lined up with `probes_of(refs)`.
pub open spec fn resolved(refs: Seq<ReferenceModel>, ex: Seq<bool>, parent: Seq<char>) -> (Seq<DescModel>, Seq<ErrorModel>)
    decreases refs.len(),
{
    if refs.len() == 0 {
        (Seq::empty(), Seq::empty())
    } else {
        let head = resolve_one(refs[0], ex, parent);
        let tail = resolved(refs.subrange(1, refs.len() as int), ex.subrange(probe_count(refs[0]), ex.len() as int), parent);
        (head.0 + tail.0, head.1 + tail.1)
    }
}

/// The paths to probe for the references `refs`, in order.
pub fn probe_paths(refs: &Vec<Reference>) -> (r: Vec<String>)
    ensures
        r@.map_values(|s: String| s@) == probes_of(refs_view(refs@)),
{
    let ghost rv = refs_view(refs@);
    let n = refs.len();
    let mut out: Vec<String> = Vec::new();
    let mut i: usize = 0;
    assert(rv.subrange(0, n as int) =~= rv);
    while i < n
        invariant
            n == refs@.len(),
            rv == refs_view(refs@),
            i <= n,
            probes_of(rv) == out@.map_values(|s: String| s@) + probes_of(rv.subrange(i as int, n as int)),
        decreases n - i,
    {
        let ghost prev = out@;
        let ghost sub = rv.subrange(i as int, n as int);
        assert(sub.subrange(1, sub.len() as int) =~= rv.subrange(i + 1, n as int));
        assert(sub[0] == refs@[i as int]@);
        match &refs[i] {
            Reference::Module(c) => {
                let mut j: usize = 0;
                while j < c.len()
                    invariant
                        j <= c@.len(),
                        out@.len() == prev.len() + j,
                        forall|k: int| 0 <= k < prev.len() ==> out@[k] == prev[k],
                        forall|k: int| 0 <= k < j ==> out@[prev.len() + k]@ == c@[k].path@,
                    decreases c@.len() - j,
                {
                    out.push(c[j].path.clone());
                    j = j + 1;
                }
                assert(out@.map_values(|s: String| s@) =~= prev.map_values(|s: String| s@)
                    + modpaths_view(c@).map_values(|p: (Seq<char>, ModType)| p.0));
            },
            Reference::Direct(_) => {},
        }
        i = i + 1;
        proof {
            let a = prev.map_values(|s: String| s@);
            let b = out@.map_values(|s: String| s@).subrange(a.len() as int, out@.len() as int);
            assert(out@.map_values(|s: String| s@) =~= a + b);
            assert((a + b) + probes_of(rv.subrange(i as int, n as int)) =~= a + (b + probes_of(rv.subrange(i as int, n as int))));
        }
    }
    assert(out@.map_values(|s: String| s@) + Seq::<Seq<char>>::empty() =~= out@.map_values(|s: String| s@));
    out
}

fn first_existing(c: &Vec<ModPath>, exists: &Vec<bool>, off: usize) -> (r: usize)
    requires
        off + c@.len() <= exists@.len(),
    ensures
        r == first_from(exists@.subrange(off as int, exists@.len() as int), 0, c@.len() as int),
{
    let ghost ex = exists@.subrange(off as int, exists@.len() as int);
    let m = exists.len();
    let mut j: usize = 0;
    while j < c.len()
        invariant
            m == exists@.len(),
            off + c@.len() <= exists@.len(),
            ex == exists@.subrange(off as int, exists@.len() as int),
            j <= c@.len(),
            first_from(ex, 0, c@.len() as int) == first_from(ex, j as int, c@.len() as int),
        decreases c@.len() - j,
    {
        if exists[off + j] {
            return j;
        }
        j = j + 1;
    }
    j
}

/// The sources of `c` as candidates of file `parent`.
fn candidate_descs(c: &Vec<ModPath>, parent: &String) -> (r: Vec<SourceFileDesc>)
    ensures
        descs_view(r@) == modpaths_view(c@).map_values(|p: (Seq<char>, ModType)| found_desc(p, parent@)),
{
    let mut r: Vec<SourceFileDesc> = Vec::new();
    let mut j: usize = 0;
    while j < c.len()
        invariant
            j <= c@.len(),
            r@.len() == j,
            forall|k: int| 0 <= k < j ==> #[trigger] r@[k]@ == found_desc((c@[k].path@, c@[k].mod_type), parent@),
        decreases c@.len() - j,
    {
        r.push(SourceFileDesc::new(c[j].path.clone(), SourceFileType::RustSource(c[j].mod_type), Some(parent.clone())));
        j = j + 1;
    }
    assert(descs_view(r@) =~= modpaths_view(c@).map_values(|p: (Seq<char>, ModType)| found_desc(p, parent@)));
    r
}

/// Resolves the references of file `parent`: `exists` tells, for each path
/// of `probe_paths(refs)`, whether it is a file. A module becomes the source
/// of its first candidate that exists, or, where none does, one
/// `MissingFile` error that lists them all; an inclusion becomes its source.
/// Each source found names `parent` as its parent.
pub fn resolve_references(refs: &Vec<Reference>, exists: &Vec<bool>, parent: &String) -> (r: (Vec<SourceFileDesc>, Vec<Error>))
    requires
        exists@.len() == probes_of(refs_view(refs@)).len(),
    ensures
        (descs_view(r.0@), errors_view(r.1@)) == resolved(refs_view(refs@), exists@, parent@),
{
    let ghost rv = refs_view(refs@);
    let n = refs.len();
    let m = exists.len();
    let mut found: Vec<SourceFileDesc> = Vec::new();
    let mut errors: Vec<Error> = Vec::new();
    let mut i: usize = 0;
    let mut off: usize = 0;
    assert(rv.subrange(0, n as int) =~= rv);
    assert(exists@.subrange(0, m as int) =~= exists@);
    while i < n
        invariant
            n == refs@.len(),
            m == exists@.len(),
            rv == refs_view(refs@),
            i <= n,
            off <= m,
            probes_of(rv.subrange(i as int, n as int)).len() == m - off,
            resolved(rv, exists@, parent@) == ({
                let tail = resolved(rv.subrange(i as int, n as int), exists@.subrange(off as int, m as int), parent@);
                (descs_view(found@) + tail.0, errors_view(errors@) + tail.1)
            }),
        decreases n - i,
    {
        let ghost sub = rv.subrange(i as int, n as int);
        let ghost ex = exists@.subrange(off as int, m as int);
        let ghost pf = found@;
        let ghost pe = errors@;
        assert(sub.subrange(1, sub.len() as int) =~= rv.subrange(i + 1, n as int));
        assert(sub[0] == refs@[i as int]@);
        match &refs[i] {
            Reference::Module(c) => {
                let f = first_existing(c, exists, off);
                if f < c.len() {
                    found.push(SourceFileDesc::new(c[f].path.clone(), SourceFileType::RustSource(c[f].mod_type), Some(parent.clone())));
                } else {
                    errors.push(Error::MissingFile(candidate_descs(c, parent)));
                }
                off = off + c.len();
                assert(ex.subrange(c@.len() as int, ex.len() as int) =~= exists@.subrange(off as int, m as int));
            },
            Reference::Direct(d) => {
                let mut e = d.copy();
                e.parent_file = Some(parent.clone());
                found.push(e);
                assert(ex.subrange(0, ex.len() as int) =~= ex);
            },
        }
        i = i + 1;
        proof {
            let head = resolve_one(sub[0], ex, parent@);
            assert(descs_view(found@) =~= descs_view(pf) + head.0);
            assert(errors_view(errors@) =~= errors_view(pe) + head.1);
            let tail = resolved(rv.subrange(i as int, n as int), exists@.subrange(off as int, m as int), parent@);
            assert((descs_view(pf) + head.0) + tail.0 =~= descs_view(pf) + (head.0 + tail.0));
            assert((errors_view(pe) + head.1) + tail.1 =~= errors_view(pe) + (head.1 + tail.1));
        }
    }
    assert(descs_view(found@) + Seq::<DescModel>::empty() =~= descs_view(found@));
    assert(errors_view(errors@) + Seq::<ErrorModel>::empty() =~= errors_view(errors@));
    (found, errors)
}

} // verus!
