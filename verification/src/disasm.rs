//! Disassembled basic blocks, and the cache of address-independent layouts
//! from which they are rebuilt.
//!
//! Decoding one instruction is the caller's business. This module keeps the
//! layout of every block it has seen, keyed by mode and content hash, asks
//! for a decoding only when it has none, and rebases a layout to the address
//! at which a block ran.

use vstd::prelude::*;
use vstd::slice::slice_subrange;
use crate::args::ExecutionMode;
use crate::error::Error;
use crate::layout::{
    entry_follows, lemma_offsets_ascend, span, span_of, start_of, well_formed_layout,
    DisasmBasicBlockLayout, LayoutBuilder,
};
use crate::layout_cache::{
    content_hash, holds_key, index_of_key, key_at, lemma_full_cache_evicts_least_recent,
    lemma_stored_well_formed, lemma_touched_keeps, lemma_touched_well_formed, lru_entries, lru_get,
    lru_limit, lru_new, lru_put, metro_hash64, stored, touched, well_formed_entries,
};

verus! {

/// One instruction of a disassembled block.
#[derive(Debug)]
pub struct DisasmInst<'a> {
    /// The address at which the instruction ran.
    pub address: u64,
    /// The instruction's bytes, a part of the block's bytes.
    pub data: &'a [u8],
    /// The instruction as text.
    pub disasm: String,
}

/// The instructions of a block, in the order in which they ran.
#[derive(Debug)]
pub struct DisasmBasicBlock<'a> {
    /// The instructions, first to last.
    pub instructions: Vec<DisasmInst<'a>>,
}

/// Whether `needle` occurs in `hay` as a run of neighbouring items.
pub open spec fn contains_run<T>(hay: Seq<T>, needle: Seq<T>) -> bool {
    exists|start: int| run_at(hay, needle, start)
}

/// Whether `needle` occurs in `hay` at position `start`.
pub open spec fn run_at<T>(hay: Seq<T>, needle: Seq<T>, start: int) -> bool {
    &&& 0 <= start
    &&& start + needle.len() <= hay.len()
    &&& hay.subrange(start, start + needle.len()) == needle
}

/// Whether `text` holds `pattern` as a substring, through `str::contains`,
/// which std documents to be true exactly when the pattern matches some
/// sub-slice of the text. Characters are compared as they are, so letter case
/// counts.
#[verifier::external_body]
fn text_contains(text: &str, pattern: &str) -> (found: bool)
    ensures
        found == contains_run(text@, pattern@),
{
    text.contains(pattern)
}

/// Whether `needle` occurs in `hay` at position `start`.
fn bytes_match_at(hay: &[u8], needle: &[u8], start: usize) -> (matches: bool)
    requires
        start + needle@.len() <= hay@.len(),
    ensures
        matches == run_at(hay@, needle@, start as int),
{
    let hay_len = hay.len();
    let mut k: usize = 0;
    while k < needle.len()
        invariant
            k <= needle@.len(),
            start + needle@.len() <= hay@.len() == hay_len,
            forall|j: int| 0 <= j < k ==> hay@[start + j] == needle@[j],
        decreases needle@.len() - k,
    {
        if hay[start + k] != needle[k] {
            proof {
                let window = hay@.subrange(start as int, start + needle@.len());
                assert(window[k as int] == hay@[start + k]);
            }
            return false;
        }
        k += 1;
    }
    proof {
        assert(hay@.subrange(start as int, start + needle@.len()) =~= needle@);
    }
    true
}

/// Whether `needle` occurs in `hay` as a run of neighbouring bytes.
fn bytes_contain(hay: &[u8], needle: &[u8]) -> (found: bool)
    ensures
        found == contains_run(hay@, needle@),
{
    if needle.len() > hay.len() {
        return false;
    }
    let last = hay.len() - needle.len();
    let mut start: usize = 0;
    loop
        invariant
            last == hay@.len() - needle@.len(),
            start <= last,
            forall|s: int| 0 <= s < start ==> !run_at(hay@, needle@, s),
        decreases last - start,
    {
        if bytes_match_at(hay, needle, start) {
            return true;
        }
        if start == last {
            return false;
        }
        start += 1;
    }
}

impl<'a> DisasmBasicBlock<'a> {
    /// Whether the instruction at `index` runs at `addr`.
    pub open spec fn address_at(&self, index: int, addr: u64) -> bool {
        0 <= index < self.instructions@.len() && self.instructions@[index].address == addr
    }

    /// Whether the text of the instruction at `index` holds `pattern`.
    pub open spec fn pattern_at(&self, index: int, pattern: Seq<char>) -> bool {
        0 <= index < self.instructions@.len() && contains_run(
            self.instructions@[index].disasm@,
            pattern,
        )
    }

    /// Whether the bytes of the instruction at `index` hold `bytes`.
    pub open spec fn bytes_at(&self, index: int, bytes: Seq<u8>) -> bool {
        0 <= index < self.instructions@.len() && contains_run(
            self.instructions@[index].data@,
            bytes,
        )
    }

    /// Whether some instruction of the block runs at exactly `addr`.
    pub fn contain_address_exact(&self, addr: u64) -> (found: bool)
        ensures
            found == exists|index: int| self.address_at(index, addr),
    {
        let mut i: usize = 0;
        while i < self.instructions.len()
            invariant
                i <= self.instructions@.len(),
                forall|index: int| 0 <= index < i ==> !self.address_at(index, addr),
            decreases self.instructions@.len() - i,
        {
            if self.instructions[i].address == addr {
                assert(self.address_at(i as int, addr));
                return true;
            }
            i += 1;
        }
        false
    }

    /// Whether `addr` lies between the addresses of the first and the last
    /// instruction, both included. A block without instructions holds no
    /// address.
    pub fn contain_address(&self, addr: u64) -> (found: bool)
        ensures
            found == (self.instructions@.len() > 0 && self.instructions@.first().address <= addr
                <= self.instructions@.last().address),
    {
        let count = self.instructions.len();
        if count == 0 {
            false
        } else {
            self.instructions[0].address <= addr && addr <= self.instructions[count - 1].address
        }
    }

    /// Whether the text of some instruction holds `ins_pat` as a substring,
    /// letter case counting.
    pub fn contain_instruction_pattern(&self, ins_pat: &str) -> (found: bool)
        ensures
            found == exists|index: int| self.pattern_at(index, ins_pat@),
    {
        let mut i: usize = 0;
        while i < self.instructions.len()
            invariant
                i <= self.instructions@.len(),
                forall|index: int| 0 <= index < i ==> !self.pattern_at(index, ins_pat@),
            decreases self.instructions@.len() - i,
        {
            if text_contains(self.instructions[i].disasm.as_str(), ins_pat) {
                assert(self.pattern_at(i as int, ins_pat@));
                return true;
            }
            i += 1;
        }
        false
    }

    /// Whether the bytes of some single instruction hold `ins_bytes` as a
    /// run of neighbouring bytes. The empty run is held by every instruction.
    pub fn contains_instruction_bytes(&self, ins_bytes: &[u8]) -> (found: bool)
        ensures
            found == exists|index: int| self.bytes_at(index, ins_bytes@),
    {
        let mut i: usize = 0;
        while i < self.instructions.len()
            invariant
                i <= self.instructions@.len(),
                forall|index: int| 0 <= index < i ==> !self.bytes_at(index, ins_bytes@),
            decreases self.instructions@.len() - i,
        {
            if bytes_contain(self.instructions[i].data, ins_bytes) {
                assert(self.bytes_at(i as int, ins_bytes@));
                return true;
            }
            i += 1;
        }
        false
    }
}

/// The address `offset` bytes past `base`. Addresses have 64 bits, so the
/// sum is taken modulo two to the power of 64.
pub open spec fn moved_address(base: u64, offset: u64) -> u64 {
    ((base + offset) % 0x1_0000_0000_0000_0000) as u64
}

/// Whether `inst` is the instruction that `layout` describes at `index`,
/// moved to `base` and holding its part of `data`.
pub open spec fn rebased_inst(
    inst: DisasmInst,
    index: int,
    layout: Seq<(u64, usize, Seq<char>)>,
    data: Seq<u8>,
    base: u64,
) -> bool {
    &&& inst.address == moved_address(base, layout[index].0)
    &&& inst.data@ == data.subrange(start_of(layout, index), layout[index].1 as int)
    &&& inst.disasm@ == layout[index].2
}

impl<'a> DisasmBasicBlock<'a> {
    /// Whether this block is `layout` moved to `base` over the bytes `data`:
    /// instruction for instruction the layout's address moved by `base`,
    /// the bytes of `data` between the layout's offsets, and the layout's
    /// text.
    pub open spec fn rebases(
        &self,
        layout: Seq<(u64, usize, Seq<char>)>,
        data: Seq<u8>,
        base: u64,
    ) -> bool {
        &&& self.instructions@.len() == layout.len()
        &&& forall|index: int|
            0 <= index < layout.len() ==> rebased_inst(
                #[trigger] self.instructions@[index],
                index,
                layout,
                data,
                base,
            )
    }
}

/// The block that `layout` describes, moved to `base`, each instruction with
/// its bytes as a part of `data`.
fn rebase<'b>(layout: &DisasmBasicBlockLayout, data: &'b [u8], base: u64) -> (block:
    DisasmBasicBlock<'b>)
    requires
        well_formed_layout(layout@),
        span_of(layout@) <= data@.len(),
    ensures
        block.rebases(layout@, data@, base),
{
    let count = layout.instruction_layouts.len();
    let mut instructions: Vec<DisasmInst<'b>> = Vec::new();
    let mut begin_offset: usize = 0;
    let mut i: usize = 0;
    while i < count
        invariant
            count == layout.instruction_layouts@.len(),
            i <= count,
            well_formed_layout(layout@),
            span_of(layout@) <= data@.len(),
            begin_offset == start_of(layout@, i as int),
            instructions@.len() == i,
            forall|index: int|
                0 <= index < i ==> rebased_inst(
                    #[trigger] instructions@[index],
                    index,
                    layout@,
                    data@,
                    base,
                ),
        decreases count - i,
    {
        let entry = &layout.instruction_layouts[i];
        proof {
            lemma_offsets_ascend(layout@, i as int, count as int - 1);
            assert(entry_follows(layout@, i as int));
            assert(layout@[i as int] == entry@);
        }
        let inst = DisasmInst {
            address: base.wrapping_add(entry.address),
            data: slice_subrange(data, begin_offset, entry.end_offset),
            disasm: entry.disasm.clone(),
        };
        instructions.push(inst);
        begin_offset = entry.end_offset;
        i += 1;
    }
    DisasmBasicBlock { instructions }
}

/// The key under which the layout of a block is kept: the byte of its mode
/// and the hash of its bytes.
pub open spec fn layout_key(execution_mode: ExecutionMode, data: Seq<u8>) -> (u8, u64) {
    (execution_mode.code_of(), metro_hash64(data))
}

/// The layout that a look-up under `key` answers for a block of `length`
/// bytes: the one stored under the key, if it covers that many bytes. A
/// stored layout of another span belongs to other bytes with the same hash,
/// and counts as missing.
pub open spec fn cached_layout(
    entries: Seq<((u8, u64), Seq<(u64, usize, Seq<char>)>)>,
    key: (u8, u64),
    length: int,
) -> Option<Seq<(u64, usize, Seq<char>)>> {
    if holds_key(entries, key) && span_of(entries[index_of_key(entries, key)].1) == length {
        Some(entries[index_of_key(entries, key)].1)
    } else {
        None
    }
}

/// The address that a block is moved to: the one given, or zero.
pub open spec fn base_of(base_address: Option<u64>) -> u64 {
    match base_address {
        Some(base) => base,
        None => 0,
    }
}

/// The number of layouts that a disassembler keeps unless told otherwise.
pub const LAYOUT_CACHE_LIMIT: usize = 16384;

/// What a disassembler answers when asked for a block.
#[derive(Debug)]
pub enum Disassembly<'b> {
    /// The block, rebuilt from a layout that was kept.
    Cached(DisasmBasicBlock<'b>),
    /// No layout is kept for the block: it has to be decoded into this
    /// builder and inserted.
    Missing(LayoutBuilder),
}

/// A disassembler that remembers the layout of the blocks it has seen.
#[derive(Debug)]
pub struct Disasm {
    layout_cache: lru::LruCache<(u8, u64), DisasmBasicBlockLayout>,
}

impl Disasm {
    /// The layouts kept, each under its key, from the most recently used to
    /// the least recently used.
    pub closed spec fn entries(&self) -> Seq<((u8, u64), Seq<(u64, usize, Seq<char>)>)> {
        lru_entries(self.layout_cache)
    }

    /// The number of layouts kept at most.
    pub closed spec fn limit(&self) -> nat {
        lru_limit(self.layout_cache)
    }

    /// What holds of every disassembler: it keeps no more layouts than its
    /// limit, at most one under each key, and each without gaps.
    pub open spec fn wf(&self) -> bool {
        well_formed_entries(self.entries(), self.limit())
    }

    /// A disassembler that keeps up to 16384 layouts and holds none yet.
    pub fn from_args() -> (disasm: Disasm)
        ensures
            disasm.wf(),
            disasm.limit() == LAYOUT_CACHE_LIMIT,
            disasm.entries().len() == 0,
    {
        Disasm { layout_cache: lru_new(LAYOUT_CACHE_LIMIT) }
    }

    /// A disassembler that keeps up to `limit` layouts and holds none yet, or
    /// nothing if `limit` is zero.
    pub fn with_limit(limit: usize) -> (disasm: Option<Disasm>)
        ensures
            limit == 0 ==> disasm is None,
            limit > 0 ==> disasm is Some && disasm->0.wf() && disasm->0.limit() == limit
                && disasm->0.entries().len() == 0,
    {
        if limit == 0 {
            None
        } else {
            Some(Disasm { layout_cache: lru_new(limit) })
        }
    }

    /// Looks for the layout of `data` under `execution_mode` and, where one
    /// is kept, answers the block that it describes, moved to `base_address`
    /// (zero if none is given). The look-up counts as a use of the entry.
    /// Where no layout is kept, or the one kept under the key does not cover
    /// `data`, the answer is a builder to decode the block into.
    pub fn disasm<'b>(
        &mut self,
        data: &'b [u8],
        execution_mode: ExecutionMode,
        base_address: Option<u64>,
    ) -> (found: Disassembly<'b>)
        requires
            old(self).wf(),
        ensures
            final(self).wf(),
            final(self).limit() == old(self).limit(),
            final(self).entries() == touched(
                old(self).entries(),
                layout_key(execution_mode, data@),
            ),
            match cached_layout(
                old(self).entries(),
                layout_key(execution_mode, data@),
                data@.len() as int,
            ) {
                Some(layout) => found matches Disassembly::Cached(block) && block.rebases(
                    layout,
                    data@,
                    base_of(base_address),
                ),
                None => found matches Disassembly::Missing(builder) && builder.wf()
                    && builder.layout().len() == 0 && builder.length() == data@.len(),
            },
    {
        let base = match base_address {
            Some(base) => base,
            None => 0,
        };
        let key = (execution_mode.code(), content_hash(data));
        proof {
            lemma_touched_well_formed(self.entries(), self.limit(), key);
        }
        match lru_get(&mut self.layout_cache, &key) {
            Some(layout) => {
                proof {
                    let entries = old(self).entries();
                    assert(well_formed_layout(entries[index_of_key(entries, key)].1));
                }
                if span(layout) == data.len() {
                    Disassembly::Cached(rebase(layout, data, base))
                } else {
                    Disassembly::Missing(LayoutBuilder::new(data.len()))
                }
            },
            None => Disassembly::Missing(LayoutBuilder::new(data.len())),
        }
    }

    /// Takes in the layout that a block was decoded into: stores it under
    /// the block's key and answers the block, moved to `base_address` (zero
    /// if none is given). A builder that does not cover exactly the bytes of
    /// `data` stands for a decoding that failed: it is an error, and nothing
    /// is stored.
    pub fn insert<'b>(
        &mut self,
        data: &'b [u8],
        execution_mode: ExecutionMode,
        base_address: Option<u64>,
        builder: LayoutBuilder,
    ) -> (decoded: Result<DisasmBasicBlock<'b>, Error>)
        requires
            old(self).wf(),
            builder.wf(),
        ensures
            final(self).wf(),
            final(self).limit() == old(self).limit(),
            builder.complete() && builder.length() == data@.len() ==> {
                &&& decoded matches Ok(block) && block.rebases(
                    builder.layout(),
                    data@,
                    base_of(base_address),
                )
                &&& final(self).entries() == stored(
                    old(self).entries(),
                    old(self).limit(),
                    layout_key(execution_mode, data@),
                    builder.layout(),
                )
            },
            !(builder.complete() && builder.length() == data@.len()) ==> {
                &&& decoded matches Err(e) && e == Error::Disassembly
                &&& final(self).entries() == old(self).entries()
            },
    {
        let base = match base_address {
            Some(base) => base,
            None => 0,
        };
        if builder.byte_len() != data.len() {
            return Err(Error::Disassembly);
        }
        let layout = match builder.finish() {
            Some(layout) => layout,
            None => {
                return Err(Error::Disassembly);
            },
        };
        let block = rebase(&layout, data, base);
        let key = (execution_mode.code(), content_hash(data));
        proof {
            lemma_stored_well_formed(self.entries(), self.limit(), key, layout@);
        }
        lru_put(&mut self.layout_cache, key, layout);
        Ok(block)
    }
}

/// A block that was inserted is found again: after its layout was stored
/// under its key, a look-up under that key for as many bytes answers that
/// layout, so nothing has to be decoded a second time.
pub proof fn lemma_inserted_is_cached(
    entries: Seq<((u8, u64), Seq<(u64, usize, Seq<char>)>)>,
    limit: nat,
    key: (u8, u64),
    layout: Seq<(u64, usize, Seq<char>)>,
)
    requires
        well_formed_entries(entries, limit),
        well_formed_layout(layout),
    ensures
        cached_layout(stored(entries, limit, key, layout), key, span_of(layout)) == Some(layout),
{
    lemma_stored_well_formed(entries, limit, key, layout);
}

/// A look-up changes no answer: whatever key was looked up, every key is
/// answered afterwards as it was before.
pub proof fn lemma_lookup_keeps_answers(
    entries: Seq<((u8, u64), Seq<(u64, usize, Seq<char>)>)>,
    limit: nat,
    key: (u8, u64),
    other: (u8, u64),
    length: int,
)
    requires
        well_formed_entries(entries, limit),
    ensures
        cached_layout(touched(entries, key), other, length) == cached_layout(
            entries,
            other,
            length,
        ),
{
    lemma_touched_keeps(entries, key, other);
}

/// A full cache that takes in the layout of a new block forgets the block
/// that was used least recently, and no other: asked for that block again it
/// has no layout to answer, so the block is decoded afresh, while every
/// other key is answered as before.
pub proof fn lemma_least_recent_is_decoded_afresh(
    entries: Seq<((u8, u64), Seq<(u64, usize, Seq<char>)>)>,
    limit: nat,
    key: (u8, u64),
    layout: Seq<(u64, usize, Seq<char>)>,
    other: (u8, u64),
    length: int,
)
    requires
        well_formed_entries(entries, limit),
        well_formed_layout(layout),
        entries.len() == limit,
        !holds_key(entries, key),
    ensures
        cached_layout(stored(entries, limit, key, layout), key_at(entries, limit - 1), length)
            is None,
        other != key_at(entries, limit - 1) && other != key ==> cached_layout(
            stored(entries, limit, key, layout),
            other,
            length,
        ) == cached_layout(entries, other, length),
{
    lemma_full_cache_evicts_least_recent(entries, limit, key, layout, other);
    lemma_stored_well_formed(entries, limit, key, layout);
    let after = stored(entries, limit, key, layout);
    if other != key_at(entries, limit - 1) && other != key && holds_key(after, other) {
        let found = index_of_key(after, other);
        assert(key_at(after, found) == other);
        assert(found > 0);
        assert(after[found] == entries[found - 1]);
        assert(key_at(entries, found - 1) == other);
    }
}

/// Two blocks rebuilt from one layout over the same bytes differ in nothing
/// but their addresses: position for position the bytes and the text are
/// the same. Where both blocks lie within the 64-bit address space, the
/// addresses differ at every position by the distance between the two
/// bases.
pub proof fn lemma_rebased_blocks_differ_by_base(
    first: DisasmBasicBlock,
    second: DisasmBasicBlock,
    layout: Seq<(u64, usize, Seq<char>)>,
    data: Seq<u8>,
    first_base: u64,
    second_base: u64,
)
    requires
        first.rebases(layout, data, first_base),
        second.rebases(layout, data, second_base),
        well_formed_layout(layout),
        span_of(layout) == data.len(),
    ensures
        first.instructions@.len() == second.instructions@.len(),
        forall|index: int|
            0 <= index < first.instructions@.len() ==> {
                &&& (#[trigger] second.instructions@[index]).data@
                    == first.instructions@[index].data@
                &&& second.instructions@[index].disasm@ == first.instructions@[index].disasm@
                &&& first_base + data.len() <= u64::MAX && second_base + data.len() <= u64::MAX
                    ==> second.instructions@[index].address - first.instructions@[index].address
                    == second_base - first_base
            },
{
    assert forall|index: int| 0 <= index < first.instructions@.len() implies {
        &&& (#[trigger] second.instructions@[index]).data@ == first.instructions@[index].data@
        &&& second.instructions@[index].disasm@ == first.instructions@[index].disasm@
        &&& first_base + data.len() <= u64::MAX && second_base + data.len() <= u64::MAX
            ==> second.instructions@[index].address - first.instructions@[index].address
            == second_base - first_base
    } by {
        assert(rebased_inst(first.instructions@[index], index, layout, data, first_base));
        assert(rebased_inst(second.instructions@[index], index, layout, data, second_base));
        assert(entry_follows(layout, index));
        lemma_offsets_ascend(layout, index, layout.len() - 1);
    }
}

/// A block rebuilt from a layout without gaps that covers `data` covers
/// `data` itself: its first instruction stands at the base, each instruction
/// holds at least one byte and ends where the next one starts, and the last
/// one ends with the data. So its addresses ascend.
pub proof fn lemma_block_covers_data(
    block: DisasmBasicBlock,
    layout: Seq<(u64, usize, Seq<char>)>,
    data: Seq<u8>,
    base: u64,
)
    requires
        block.rebases(layout, data, base),
        well_formed_layout(layout),
        span_of(layout) == data.len(),
        base + data.len() <= u64::MAX,
    ensures
        block.instructions@.len() > 0 ==> block.instructions@.first().address == base,
        forall|index: int|
            0 <= index < block.instructions@.len() ==> {
                &&& (#[trigger] block.instructions@[index]).data@.len() > 0
                &&& block.instructions@[index].address + block.instructions@[index].data@.len()
                    == if index + 1 < block.instructions@.len() {
                    block.instructions@[index + 1].address as int
                } else {
                    base + data.len()
                }
            },
        forall|earlier: int, later: int|
            0 <= earlier < later < block.instructions@.len() ==> (
            #[trigger] block.instructions@[earlier]).address < (
            #[trigger] block.instructions@[later]).address,
{
    let count = block.instructions@.len() as int;
    assert forall|index: int| 0 <= index < count implies {
        &&& (#[trigger] block.instructions@[index]).address == base + start_of(layout, index)
        &&& block.instructions@[index].data@.len() == layout[index].1 - start_of(layout, index)
        &&& start_of(layout, index) < layout[index].1 <= data.len()
    } by {
        assert(rebased_inst(block.instructions@[index], index, layout, data, base));
        assert(entry_follows(layout, index));
        lemma_offsets_ascend(layout, index, count - 1);
    }
    assert forall|index: int| 0 <= index < count implies {
        &&& (#[trigger] block.instructions@[index]).data@.len() > 0
        &&& block.instructions@[index].address + block.instructions@[index].data@.len()
            == if index + 1 < count {
            block.instructions@[index + 1].address as int
        } else {
            base + data.len()
        }
    } by {
        if index + 1 < count {
            assert(block.instructions@[index + 1].address == base + start_of(layout, index + 1));
        }
    }
    assert forall|earlier: int, later: int| 0 <= earlier < later < count implies (
    #[trigger] block.instructions@[earlier]).address < (
    #[trigger] block.instructions@[later]).address by {
        lemma_offsets_ascend(layout, earlier, later - 1);
        assert(block.instructions@[later].address == base + start_of(layout, later));
    }
}

} // verus!
