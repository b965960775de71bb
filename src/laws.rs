//! General facts about finding a crate's sources.

use vstd::prelude::*;
use crate::finder::{pop_stack, refs_from, ReferenceModel, SyntaxEvent};
use crate::resolve::{first_from, found_desc, resolve_one};
use crate::source_desc::{ErrorModel, ModType, StackModel};
use crate::walk::{root_desc, SourceWalk};

verus! {

/// The module context after reading `events` from `stack`.
pub open spec fn stack_after(events: Seq<SyntaxEvent>, stack: StackModel) -> StackModel
    decreases events.len(),
{
    if events.len() == 0 {
        stack
    } else {
        let rest = events.subrange(1, events.len() as int);
        match events[0] {
            SyntaxEvent::ModOpen { name } => stack_after(rest, stack.push(name@)),
            SyntaxEvent::ModClose => stack_after(rest, pop_stack(stack)),
            _ => stack_after(rest, stack),
        }
    }
}

/// One attribute-gated block of a `cfg_if!` call.
pub open spec fn gated(block: Seq<SyntaxEvent>) -> Seq<SyntaxEvent> {
    seq![SyntaxEvent::BranchOpen] + block + seq![SyntaxEvent::BranchClose]
}

/// The events of a `cfg_if!` call with the given blocks.
pub open spec fn cfg_blocks(blocks: Seq<Seq<SyntaxEvent>>) -> Seq<SyntaxEvent>
    decreases blocks.len(),
{
    if blocks.len() == 0 {
        Seq::empty()
    } else {
        gated(blocks[0]) + cfg_blocks(blocks.subrange(1, blocks.len() as int))
    }
}

/// The references of each block in turn, as if no gate stood between them.
pub open spec fn refs_of_blocks(blocks: Seq<Seq<SyntaxEvent>>, stack: StackModel) -> Seq<ReferenceModel>
    decreases blocks.len(),
{
    if blocks.len() == 0 {
        Seq::empty()
    } else {
        refs_from(blocks[0], stack) + refs_of_blocks(blocks.subrange(1, blocks.len() as int), stack_after(blocks[0], stack))
    }
}

/// Reading two runs of events one after the other yields the references of
/// the first, then those of the second in the context the first left.
pub proof fn lemma_refs_concat(a: Seq<SyntaxEvent>, b: Seq<SyntaxEvent>, stack: StackModel)
    ensures
        refs_from(a + b, stack) == refs_from(a, stack) + refs_from(b, stack_after(a, stack)),
        stack_after(a + b, stack) == stack_after(b, stack_after(a, stack)),
    decreases a.len(),
{
    if a.len() == 0 {
        assert(a + b =~= b);
        assert(Seq::<ReferenceModel>::empty() + refs_from(b, stack) =~= refs_from(b, stack));
    } else {
        let rest = a.subrange(1, a.len() as int);
        assert((a + b).subrange(1, (a + b).len() as int) =~= rest + b);
        assert((a + b)[0] == a[0]);
        let next = match a[0] {
            SyntaxEvent::ModOpen { name } => stack.push(name@),
            SyntaxEvent::ModClose => pop_stack(stack),
            _ => stack,
        };
        lemma_refs_concat(rest, b, next);
        match a[0] {
            SyntaxEvent::ModDecl { name, attrs } => {
                let h = refs_from(a, stack).subrange(0, 1);
                assert(refs_from(a, stack) =~= h + refs_from(rest, stack));
                assert(refs_from(a + b, stack) =~= h + refs_from(rest + b, stack));
                assert((h + refs_from(rest, stack)) + refs_from(b, stack_after(rest, stack)) =~= h + (refs_from(rest, stack) + refs_from(b, stack_after(rest, stack))));
            },
            SyntaxEvent::MacroCall { name, literal } => {
                let h = refs_from(a, stack).subrange(0, refs_from(a, stack).len() - refs_from(rest, stack).len());
                assert(refs_from(a, stack) =~= h + refs_from(rest, stack));
                assert(refs_from(a + b, stack) =~= h + refs_from(rest + b, stack));
                assert((h + refs_from(rest, stack)) + refs_from(b, stack_after(rest, stack)) =~= h + (refs_from(rest, stack) + refs_from(b, stack_after(rest, stack))));
            },
            _ => {},
        }
    }
}

proof fn lemma_marker(e: SyntaxEvent, stack: StackModel)
    requires
        e is BranchOpen || e is BranchClose,
    ensures
        refs_from(seq![e], stack) == Seq::<ReferenceModel>::empty(),
        stack_after(seq![e], stack) == stack,
{
    let s = seq![e];
    assert(s.subrange(1, 1) =~= Seq::<SyntaxEvent>::empty());
    assert(s[0] == e);
    assert(s.len() == 1);
    assert(refs_from(Seq::<SyntaxEvent>::empty(), stack) == Seq::<ReferenceModel>::empty());
    assert(stack_after(Seq::<SyntaxEvent>::empty(), stack) == stack);
    assert(refs_from(s, stack) == refs_from(s.subrange(1, 1), stack));
    assert(stack_after(s, stack) == stack_after(s.subrange(1, 1), stack));
}

/// Every gated block of a `cfg_if!` call is read, none chosen: the call
/// yields the references of all its blocks, in order.
pub proof fn lemma_all_branches_read(blocks: Seq<Seq<SyntaxEvent>>, stack: StackModel)
    ensures
        refs_from(cfg_blocks(blocks), stack) == refs_of_blocks(blocks, stack),
    decreases blocks.len(),
{
    if blocks.len() > 0 {
        let b0 = blocks[0];
        let rest = blocks.subrange(1, blocks.len() as int);
        let open = seq![SyntaxEvent::BranchOpen];
        let close = seq![SyntaxEvent::BranchClose];
        lemma_marker(SyntaxEvent::BranchOpen, stack);
        lemma_marker(SyntaxEvent::BranchClose, stack_after(b0, stack));
        lemma_refs_concat(open, b0, stack);
        lemma_refs_concat(open + b0, close, stack);
        assert(Seq::<ReferenceModel>::empty() + refs_from(b0, stack) =~= refs_from(b0, stack));
        assert(refs_from(b0, stack) + Seq::<ReferenceModel>::empty() =~= refs_from(b0, stack));
        lemma_refs_concat(gated(b0), cfg_blocks(rest), stack);
        lemma_all_branches_read(rest, stack_after(b0, stack));
    }
}

/// Where the first index `f` of `ex` that holds, below `n`, stands.
pub proof fn lemma_first_from(ex: Seq<bool>, i: int, n: int)
    requires
        0 <= i <= n <= ex.len(),
    ensures
        i <= first_from(ex, i, n) <= n,
        first_from(ex, i, n) < n ==> ex[first_from(ex, i, n)],
        forall|j: int| i <= j < first_from(ex, i, n) ==> !ex[j],
    decreases n - i,
{
    if i < n && !ex[i] {
        lemma_first_from(ex, i + 1, n);
    }
}

/// A file-backed module resolves one way only: when some candidate exists,
/// to the source of the first that does, with no error; when none does, to
/// one `MissingFile` error that lists every candidate, with no source.
pub proof fn lemma_module_resolution(c: Seq<(Seq<char>, ModType)>, ex: Seq<bool>, parent: Seq<char>)
    requires
        c.len() <= ex.len(),
    ensures
        ({
            let r = resolve_one(ReferenceModel::Module(c), ex, parent);
            if exists|j: int| 0 <= j < c.len() && ex[j] {
                exists|j: int| {
                    &&& 0 <= j < c.len()
                    &&& ex[j]
                    &&& (forall|k: int| 0 <= k < j ==> !ex[k])
                    &&& r.0 == seq![found_desc(c[j], parent)]
                    &&& r.1.len() == 0
                }
            } else {
                &&& r.0.len() == 0
                &&& r.1 == seq![ErrorModel::MissingFile(c.map_values(|p: (Seq<char>, ModType)| found_desc(p, parent)))]
            }
        }),
{
    lemma_first_from(ex, 0, c.len() as int);
    let f = first_from(ex, 0, c.len() as int);
    if f < c.len() {
        assert(ex[f]);
    }
}

/// Once the walk has recorded a source, the crate root is the first source
/// recorded, every other recorded or queued source names the file that
/// referred to it, and the file being read is never an included data file.
pub proof fn lemma_walk_invariants(w: SourceWalk)
    requires
        w.wf(),
    ensures
        w.entries().len() > 0 ==> w.entries()[0].0 == root_desc(w.root@),
        forall|i: int| 1 <= i < w.entries().len() ==> (#[trigger] w.entries()[i]).0.parent is Some,
        w.entries().len() > 0 ==> forall|i: int| 0 <= i < w.queue_view().len() ==> (#[trigger] w.queue_view()[i]).parent is Some,
        w.current is Some ==> !w.current_view().is_opaque(),
{
}

} // verus!
