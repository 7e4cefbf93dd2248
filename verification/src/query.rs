//! The filters of a `show` query, applied to records in the order in which
//! the store holds them.
//!
//! A record is first tested by its index, mode and privilege, which needs no
//! decoding. Only what passes is disassembled, and then tested by its text.

use vstd::prelude::*;
use crate::args::ShowingClientOpt;
use crate::cache::BasicBlock;
use crate::disasm::DisasmBasicBlock;

verus! {

/// The positions below `count` at which `keep` holds, in ascending order.
pub open spec fn kept_indices(count: int, keep: spec_fn(int) -> bool) -> Seq<usize>
    decreases count,
{
    if count <= 0 {
        Seq::empty()
    } else if keep(count - 1) {
        kept_indices(count - 1, keep).push((count - 1) as usize)
    } else {
        kept_indices(count - 1, keep)
    }
}

impl ShowingClientOpt {
    /// Whether the record at `index` passes the filters that need no
    /// decoding: it does not come before the starting index, and its mode
    /// and privilege are the ones asked for, where any are.
    pub open spec fn admits(&self, index: int, block: BasicBlock) -> bool {
        &&& self.starting_index <= index
        &&& (self.execution_mode matches Some(mode) ==> block.execution_mode == mode)
        &&& (self.execution_privilege matches Some(privilege) ==> block.execution_privilege
            == privilege)
    }

    /// Whether a disassembled block passes the filter on its text: some
    /// instruction holds the pattern, where one is asked for.
    pub open spec fn keeps(&self, block: DisasmBasicBlock) -> bool {
        self.instruction_pattern matches Some(pattern) ==> exists|index: int|
            block.pattern_at(index, pattern@)
    }

    /// The test on `blocks` that `candidates` applies at each position.
    pub open spec fn admits_in(&self, blocks: Seq<BasicBlock>) -> spec_fn(int) -> bool {
        |index: int| self.admits(index, blocks[index])
    }

    /// The test on `blocks` that `matching` applies at each position.
    pub open spec fn keeps_in(&self, blocks: Seq<DisasmBasicBlock>) -> spec_fn(int) -> bool {
        |index: int| self.keeps(blocks[index])
    }

    /// Whether the record at `index` passes the filters that need no
    /// decoding.
    pub fn passes(&self, index: usize, block: &BasicBlock) -> (passed: bool)
        ensures
            passed == self.admits(index as int, *block),
    {
        if index < self.starting_index {
            return false;
        }
        let mode_fits = match self.execution_mode {
            Some(mode) => block.execution_mode == mode,
            None => true,
        };
        let privilege_fits = match self.execution_privilege {
            Some(privilege) => block.execution_privilege == privilege,
            None => true,
        };
        mode_fits && privilege_fits
    }

    /// Whether a disassembled block passes the filter on its text.
    pub fn keep(&self, block: &DisasmBasicBlock) -> (kept: bool)
        ensures
            kept == self.keeps(*block),
    {
        match &self.instruction_pattern {
            Some(pattern) => block.contain_instruction_pattern(pattern.as_str()),
            None => true,
        }
    }

    /// The indices of the records that pass the filters that need no
    /// decoding, in the order of the records.
    pub fn candidates(&self, blocks: &Vec<BasicBlock>) -> (indices: Vec<usize>)
        ensures
            indices@ == kept_indices(blocks@.len() as int, self.admits_in(blocks@)),
    {
        let mut indices: Vec<usize> = Vec::new();
        let mut i: usize = 0;
        while i < blocks.len()
            invariant
                i <= blocks@.len(),
                indices@ == kept_indices(i as int, self.admits_in(blocks@)),
            decreases blocks@.len() - i,
        {
            if self.passes(i, &blocks[i]) {
                indices.push(i);
            }
            i += 1;
        }
        indices
    }

    /// The positions of the disassembled blocks that pass the filter on
    /// their text, in the order of the blocks.
    pub fn matching(&self, blocks: &Vec<DisasmBasicBlock>) -> (positions: Vec<usize>)
        ensures
            positions@ == kept_indices(blocks@.len() as int, self.keeps_in(blocks@)),
    {
        let mut positions: Vec<usize> = Vec::new();
        let mut i: usize = 0;
        while i < blocks.len()
            invariant
                i <= blocks@.len(),
                positions@ == kept_indices(i as int, self.keeps_in(blocks@)),
            decreases blocks@.len() - i,
        {
            if self.keep(&blocks[i]) {
                positions.push(i);
            }
            i += 1;
        }
        positions
    }
}

/// What a filter hands on is a part of what it was given, in the same
/// order: the positions kept ascend and lie below the count, so nothing is
/// repeated, moved or made up.
pub proof fn lemma_kept_in_order(count: int, keep: spec_fn(int) -> bool)
    requires
        0 <= count <= usize::MAX,
    ensures
        kept_indices(count, keep).len() <= count,
        forall|at: int|
            0 <= at < kept_indices(count, keep).len() ==> (#[trigger] kept_indices(
                count,
                keep,
            )[at]) < count,
        forall|earlier: int, later: int|
            0 <= earlier < later < kept_indices(count, keep).len() ==> (#[trigger] kept_indices(
                count,
                keep,
            )[earlier]) < (#[trigger] kept_indices(count, keep)[later]),
    decreases count,
{
    if count > 0 {
        lemma_kept_in_order(count - 1, keep);
    }
}

/// A filter hands on exactly the positions at which its test holds.
pub proof fn lemma_kept_exactly(count: int, keep: spec_fn(int) -> bool, index: int)
    requires
        0 <= count <= usize::MAX,
    ensures
        (exists|at: int|
            0 <= at < kept_indices(count, keep).len() && #[trigger] kept_indices(count, keep)[at]
                == index) <==> (0 <= index < count && keep(index)),
    decreases count,
{
    if count > 0 {
        lemma_kept_exactly(count - 1, keep, index);
        let before = kept_indices(count - 1, keep);
        let now = kept_indices(count, keep);
        lemma_kept_in_order(count - 1, keep);
        if keep(count - 1) {
            assert(now[before.len() as int] == count - 1);
            assert forall|at: int| 0 <= at < before.len() implies now[at] == before[at] by {}
            if exists|at: int| 0 <= at < before.len() && #[trigger] before[at] == index {
                let at = choose|at: int| 0 <= at < before.len() && #[trigger] before[at] == index;
                assert(now[at] == index);
            }
            if exists|at: int| 0 <= at < now.len() && #[trigger] now[at] == index {
                let at = choose|at: int| 0 <= at < now.len() && #[trigger] now[at] == index;
                if at < before.len() {
                    assert(before[at] == index);
                }
            }
        }
    }
}

/// The starting index drops exactly the records before it, whatever the
/// other filters are: no index below it is handed on, and without a filter
/// on mode or privilege every index from it on is.
pub proof fn lemma_starting_index_drops_first(
    opt: ShowingClientOpt,
    blocks: Seq<BasicBlock>,
    index: int,
)
    requires
        blocks.len() <= usize::MAX,
        0 <= index < blocks.len(),
    ensures
        index < opt.starting_index ==> !exists|at: int|
            0 <= at < kept_indices(blocks.len() as int, opt.admits_in(blocks)).len()
                && #[trigger] kept_indices(blocks.len() as int, opt.admits_in(blocks))[at]
                == index,
        index >= opt.starting_index && opt.execution_mode is None && opt.execution_privilege
            is None ==> exists|at: int|
            0 <= at < kept_indices(blocks.len() as int, opt.admits_in(blocks)).len()
                && #[trigger] kept_indices(blocks.len() as int, opt.admits_in(blocks))[at]
                == index,
{
    lemma_kept_exactly(blocks.len() as int, opt.admits_in(blocks), index);
}

/// Both filters together hand on a part of the records in the order of the
/// store: the indices that pass the first filter and then, disassembled,
/// the second one ascend, and each of them passed the first filter.
pub proof fn lemma_pipeline_in_order(
    count: int,
    first: spec_fn(int) -> bool,
    second: spec_fn(int) -> bool,
    earlier: int,
    later: int,
)
    requires
        0 <= count <= usize::MAX,
        0 <= earlier < later < kept_indices(
            kept_indices(count, first).len() as int,
            second,
        ).len(),
    ensures
        ({
            let passed = kept_indices(count, first);
            let shown = kept_indices(passed.len() as int, second);
            &&& shown[later] < passed.len()
            &&& passed[shown[earlier] as int] < passed[shown[later] as int] < count
            &&& first(passed[shown[later] as int] as int)
        }),
{
    let passed = kept_indices(count, first);
    lemma_kept_in_order(count, first);
    let shown = kept_indices(passed.len() as int, second);
    lemma_kept_in_order(passed.len() as int, second);
    assert(shown[earlier] < shown[later]);
    assert(shown[later] < passed.len());
    let index = passed[shown[later] as int];
    lemma_kept_exactly(count, first, index as int);
}

} // verus!
