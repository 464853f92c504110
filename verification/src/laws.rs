//! What holds across the operations of an arena and its buffers.

use crate::model::{
    built, built_len, edit_vector, edit_vector_all, page_ceiling, ArenaView, Edit, HEADER_SIZE,
};
use vstd::prelude::*;

verus! {

/// One edit does to the open buffer what it does to a plain vector, keeps
/// the arena well-formed, and leaves the frozen bytes, the start of the
/// open region and the extent of the memory as they were.
pub proof fn lemma_edit_matches_vector(arena: ArenaView, edit: Edit)
    requires
        arena.wf(),
        arena.admits(edit),
    ensures
        arena.apply(edit).wf(),
        arena.apply(edit).open() == edit_vector(arena.open(), edit),
        arena.apply(edit).frozen() == arena.frozen(),
        arena.apply(edit).top_base == arena.top_base,
        arena.apply(edit).reserved == arena.reserved,
        arena.apply(edit).memory.len() == arena.memory.len(),
{
    let after = arena.apply(edit);
    assert(after.frozen() =~= arena.frozen());
    match edit {
        Edit::Push(byte) => {
            assert(after.open() =~= arena.open().push(byte));
        },
        Edit::Append(items) => {
            assert(after.open() =~= arena.open() + items);
        },
        Edit::Repeat { start, end } => {
            assert(after.open() =~= arena.open() + arena.open().subrange(start, end));
        },
        Edit::Truncate(len) => {
            if len <= arena.top_size {
                assert(after.open() =~= arena.open().take(len as int));
            }
        },
        Edit::Pop => {
            if arena.top_size > 0 {
                assert(after.open() =~= arena.open().drop_last());
            }
        },
    }
}

/// Any sequence of edits builds in the open buffer what the same edits
/// build in a plain vector, and freezing then yields exactly those bytes,
/// at the place where the buffer started. Nothing frozen before changes.
pub proof fn lemma_run_matches_vector(arena: ArenaView, edits: Seq<Edit>)
    requires
        arena.wf(),
        arena.admits_all(edits),
    ensures
        arena.run(edits).wf(),
        arena.run(edits).open() == edit_vector_all(arena.open(), edits),
        arena.run(edits).frozen() == arena.frozen(),
        arena.run(edits).top_base == arena.top_base,
        arena.run(edits).reserved == arena.reserved,
        arena.run(edits).memory.len() == arena.memory.len(),
        arena.run(edits).freeze().span(arena.top_base, arena.run(edits).top_size)
            == edit_vector_all(arena.open(), edits),
    decreases edits.len(),
{
    if edits.len() > 0 {
        lemma_edit_matches_vector(arena, edits.first());
        lemma_run_matches_vector(arena.apply(edits.first()), edits.drop_first());
    }
}

/// Freezing keeps the arena well-formed and the bytes in use the same in
/// number; the open region joins the frozen bytes, and the next one starts
/// empty, as many bytes further on as the frozen one was long.
pub proof fn lemma_freeze_advances(arena: ArenaView)
    requires
        arena.wf(),
    ensures
        arena.freeze().wf(),
        arena.freeze().used() == arena.used(),
        arena.freeze().top_base == arena.top_base + arena.open().len(),
        arena.freeze().open() == Seq::<u8>::empty(),
        arena.freeze().frozen() == arena.frozen() + arena.open(),
{
    assert(arena.freeze().open() =~= Seq::<u8>::empty());
    assert(arena.freeze().frozen() =~= arena.frozen() + arena.open());
}

/// A buffer that starts empty, is built by `edits` to a length and is then
/// frozen raises the bytes in use by exactly that length, and moves the
/// start of the next buffer on by as much.
pub proof fn lemma_cycle_adds_len(arena: ArenaView, edits: Seq<Edit>)
    requires
        arena.wf(),
        arena.top_size == 0,
        arena.admits_all(edits),
    ensures
        arena.run(edits).freeze().wf(),
        arena.run(edits).freeze().top_size == 0,
        arena.run(edits).freeze().used() == arena.used() + built(edits).len(),
        arena.run(edits).freeze().top_base == arena.top_base + built(edits).len(),
{
    lemma_run_matches_vector(arena, edits);
    lemma_freeze_advances(arena.run(edits));
    assert(arena.open() =~= Seq::<u8>::empty());
}

/// After any number of buffers, each started empty, built and frozen, the
/// bytes in use have grown by the sum of the frozen lengths; on a fresh
/// arena they are that sum.
pub proof fn lemma_cycles_add_lens(arena: ArenaView, runs: Seq<Seq<Edit>>)
    requires
        arena.wf(),
        arena.top_size == 0,
        arena.admits_cycles(runs),
    ensures
        arena.cycles(runs).wf(),
        arena.cycles(runs).top_size == 0,
        arena.cycles(runs).used() == arena.used() + built_len(runs),
    decreases runs.len(),
{
    if runs.len() > 0 {
        lemma_cycle_adds_len(arena, runs.first());
        lemma_cycles_add_lens(arena.run(runs.first()).freeze(), runs.drop_first());
    }
}

/// A frozen range keeps its bytes whatever buffers are built and frozen
/// after it.
pub proof fn lemma_frozen_stays(arena: ArenaView, start: nat, len: nat, runs: Seq<Seq<Edit>>)
    requires
        arena.wf(),
        arena.is_frozen(start, len),
        arena.admits_cycles(runs),
    ensures
        arena.cycles(runs).wf(),
        arena.cycles(runs).is_frozen(start, len),
        arena.cycles(runs).span(start, len) == arena.span(start, len),
    decreases runs.len(),
{
    if runs.len() > 0 {
        let filled = arena.run(runs.first());
        lemma_run_matches_vector(arena, runs.first());
        lemma_freeze_advances(filled);
        assert(arena.span(start, len) =~= arena.frozen().subrange(
            start as int,
            (start + len) as int,
        ));
        assert(filled.freeze().span(start, len) =~= filled.frozen().subrange(
            start as int,
            (start + len) as int,
        ));
        lemma_frozen_stays(filled.freeze(), start, len, runs.drop_first());
    }
}

/// The warning goes by the bytes in use alone: it is off up to the point
/// where they and the header take half of the reservation, and on from
/// there. So between two states of one arena it never goes back off as the
/// use grows, and where it went on the use crossed that point.
pub proof fn lemma_dangerous_threshold(before: ArenaView, after: ArenaView)
    requires
        before.reserved == after.reserved,
        before.used() <= after.used(),
    ensures
        before.dangerous() <==> before.used() > before.reserved / 2 - HEADER_SIZE,
        before.dangerous() ==> after.dangerous(),
        !before.dangerous() && after.dangerous() ==> {
            &&& before.used() + HEADER_SIZE <= before.reserved / 2
            &&& before.reserved / 2 < after.used() + HEADER_SIZE
        },
{
}

/// An arena with less memory, but the same bytes in the memory it has,
/// takes every edit that fits in it to the same contents as the arena with
/// more.
pub proof fn lemma_run_in_less_memory(less: ArenaView, more: ArenaView, edits: Seq<Edit>)
    requires
        less.wf(),
        more.wf(),
        less.top_base == more.top_base,
        less.top_size == more.top_size,
        less.memory.len() <= more.memory.len(),
        less.memory == more.memory.take(less.memory.len() as int),
        less.admits_all(edits),
    ensures
        more.admits_all(edits),
        less.run(edits).open() == more.run(edits).open(),
        less.run(edits).frozen() == more.run(edits).frozen(),
        less.run(edits).top_base == more.run(edits).top_base,
        less.run(edits).top_size == more.run(edits).top_size,
    decreases edits.len(),
{
    if edits.len() == 0 {
        assert(less.open() =~= more.open());
        assert(less.frozen() =~= more.frozen());
    } else {
        let edit = edits.first();
        lemma_edit_matches_vector(less, edit);
        lemma_edit_matches_vector(more, edit);
        assert(less.open() =~= more.open());
        let less_next = less.apply(edit);
        let more_next = more.apply(edit);
        assert(less_next.memory =~= more_next.memory.take(less_next.memory.len() as int));
        lemma_run_in_less_memory(less_next, more_next, edits.drop_first());
    }
}

/// Giving back unused memory changes no byte in use, and every sequence
/// of edits that stays inside the memory kept builds, and freezes, the same
/// bytes as it would have without.
pub proof fn lemma_shrink_keeps_contents(arena: ArenaView, page_size: nat, edits: Seq<Edit>)
    requires
        arena.wf(),
        page_size > 0,
        arena.shrink(page_size).admits_all(edits),
    ensures
        arena.shrink(page_size).wf(),
        arena.shrink(page_size).open() == arena.open(),
        arena.shrink(page_size).frozen() == arena.frozen(),
        arena.admits_all(edits),
        arena.shrink(page_size).run(edits).open() == arena.run(edits).open(),
        arena.shrink(page_size).run(edits).frozen() == arena.run(edits).frozen(),
        arena.shrink(page_size).run(edits).freeze().frozen()
            == arena.run(edits).freeze().frozen(),
{
    let kept = arena.shrink(page_size);
    lemma_page_ceiling(HEADER_SIZE as nat + arena.used(), page_size);
    assert(kept.open() =~= arena.open());
    assert(kept.frozen() =~= arena.frozen());
    assert(kept.memory =~= arena.memory.take(kept.memory.len() as int));
    lemma_run_in_less_memory(kept, arena, edits);
    lemma_run_matches_vector(kept, edits);
    lemma_run_matches_vector(arena, edits);
    lemma_freeze_advances(kept.run(edits));
    lemma_freeze_advances(arena.run(edits));
}

/// Rounding up to a page boundary gives a multiple of the page size: the
/// offset itself where it is one, else the next one above it.
pub proof fn lemma_page_ceiling(offset: nat, page_size: nat)
    requires
        page_size > 0,
    ensures
        page_ceiling(offset, page_size) % page_size == 0,
        offset <= page_ceiling(offset, page_size) < offset + page_size,
        offset % page_size <= offset,
        page_ceiling(offset, page_size) == if offset % page_size == 0 {
            offset
        } else {
            (offset - offset % page_size + page_size) as nat
        },
{
    let size = page_size as int;
    let pages = offset as int / size;
    let rest = offset as int % size;
    vstd::arithmetic::div_mod::lemma_fundamental_div_mod(offset as int, size);
    vstd::arithmetic::div_mod::lemma_mod_bound(offset as int, size);
    assert(size * pages >= 0) by (nonlinear_arith)
        requires
            size > 0,
            pages >= 0,
    ;
    if rest == 0 {
        assert(offset + size - 1 == pages * size + (size - 1)) by (nonlinear_arith)
            requires
                offset == size * pages,
        ;
        vstd::arithmetic::div_mod::lemma_fundamental_div_mod_converse(
            offset + size - 1,
            size,
            pages,
            size - 1,
        );
        assert(pages * size == offset) by (nonlinear_arith)
            requires
                offset == size * pages,
        ;
        vstd::arithmetic::div_mod::lemma_mod_multiples_basic(pages, size);
    } else {
        assert(offset + size - 1 == (pages + 1) * size + (rest - 1)) by (nonlinear_arith)
            requires
                offset == size * pages + rest,
        ;
        vstd::arithmetic::div_mod::lemma_fundamental_div_mod_converse(
            offset + size - 1,
            size,
            pages + 1,
            rest - 1,
        );
        assert((pages + 1) * size == offset - rest + size) by (nonlinear_arith)
            requires
                offset == size * pages + rest,
        ;
        vstd::arithmetic::div_mod::lemma_mod_multiples_basic(pages + 1, size);
    }
}

} // verus!
