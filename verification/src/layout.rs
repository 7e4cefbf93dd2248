//! The layout of a block's instructions, free of the address at which the
//! block ran, and the builder that lays a block out while it is decoded.
//!
//! A layout is modelled as a sequence of triples: the address of an
//! instruction in a block that starts at zero, the offset just past its last
//! byte, and its text.

use vstd::prelude::*;
use crate::error::Error;

verus! {

/// Where one instruction lies in a block whose first byte has address zero.
///
/// Its view is the triple of address, end offset and text.
#[derive(Debug)]
pub struct DisasmInstructionLayout {
    /// The address of the instruction if the block started at zero, which is
    /// the offset of its first byte.
    pub address: u64,
    /// The offset just past the instruction's last byte.
    pub end_offset: usize,
    /// The instruction as text.
    pub disasm: String,
}

impl View for DisasmInstructionLayout {
    type V = (u64, usize, Seq<char>);

    open spec fn view(&self) -> (u64, usize, Seq<char>) {
        (self.address, self.end_offset, self.disasm@)
    }
}

/// The layouts of the instructions of a block, first to last: what a
/// disassembly holds that does not depend on where the block ran.
#[derive(Debug)]
pub struct DisasmBasicBlockLayout {
    /// The instructions, first to last.
    pub instruction_layouts: Vec<DisasmInstructionLayout>,
}

impl View for DisasmBasicBlockLayout {
    type V = Seq<(u64, usize, Seq<char>)>;

    open spec fn view(&self) -> Seq<(u64, usize, Seq<char>)> {
        self.instruction_layouts@.map_values(|entry: DisasmInstructionLayout| entry@)
    }
}

/// The offset at which the instruction at `index` starts: where the one
/// before it ends, or zero for the first. At the length of the layout this is
/// the number of bytes that the layout covers.
pub open spec fn start_of(layout: Seq<(u64, usize, Seq<char>)>, index: int) -> int {
    if index <= 0 {
        0
    } else {
        layout[index - 1].1 as int
    }
}

/// The number of bytes that a layout covers.
pub open spec fn span_of(layout: Seq<(u64, usize, Seq<char>)>) -> int {
    start_of(layout, layout.len() as int)
}

/// Whether the instruction at `index` starts where the one before it ends,
/// has that offset for its address, and holds at least one byte.
pub open spec fn entry_follows(layout: Seq<(u64, usize, Seq<char>)>, index: int) -> bool {
    &&& layout[index].0 == start_of(layout, index)
    &&& start_of(layout, index) < layout[index].1
}

/// Whether every instruction of a layout follows the one before it without a
/// gap.
pub open spec fn well_formed_layout(layout: Seq<(u64, usize, Seq<char>)>) -> bool {
    forall|index: int| 0 <= index < layout.len() ==> #[trigger] entry_follows(layout, index)
}

/// What the decoder made of the bytes at some offset of a block.
#[derive(Debug)]
pub struct DecodedInst {
    /// The number of bytes of the instruction.
    pub length: usize,
    /// The instruction as text.
    pub disasm: String,
}

/// The layout of a block while it is decoded, one instruction at a time from
/// offset zero.
#[derive(Debug)]
pub struct LayoutBuilder {
    layout: DisasmBasicBlockLayout,
    length: usize,
}

impl LayoutBuilder {
    /// The instructions laid out so far.
    pub closed spec fn layout(&self) -> Seq<(u64, usize, Seq<char>)> {
        self.layout@
    }

    /// The number of bytes of the block.
    pub closed spec fn length(&self) -> int {
        self.length as int
    }

    /// What holds of every builder: its layout is without gaps and lies
    /// within the block.
    pub open spec fn wf(&self) -> bool {
        &&& well_formed_layout(self.layout())
        &&& span_of(self.layout()) <= self.length()
    }

    /// Whether the layout covers the whole block.
    pub open spec fn complete(&self) -> bool {
        span_of(self.layout()) == self.length()
    }

    /// Whether an instruction of `length` bytes fits in what is left of the
    /// block.
    pub open spec fn fits(&self, length: usize) -> bool {
        1 <= length && span_of(self.layout()) + length <= self.length()
    }

    /// A builder for a block of `length` bytes, with nothing decoded yet.
    pub fn new(length: usize) -> (builder: LayoutBuilder)
        ensures
            builder.wf(),
            builder.layout() == Seq::<(u64, usize, Seq<char>)>::empty(),
            builder.length() == length,
    {
        let builder = LayoutBuilder {
            layout: DisasmBasicBlockLayout { instruction_layouts: Vec::new() },
            length,
        };
        assert(builder.layout@ =~= Seq::<(u64, usize, Seq<char>)>::empty());
        builder
    }

    /// The number of bytes of the block.
    pub fn byte_len(&self) -> (length: usize)
        ensures
            length == self.length(),
    {
        self.length
    }

    /// The finished layout, or nothing if it does not cover the whole
    /// block.
    pub fn finish(self) -> (finished: Option<DisasmBasicBlockLayout>)
        requires
            self.wf(),
        ensures
            self.complete() ==> finished is Some && finished->0@ == self.layout(),
            !self.complete() ==> finished is None,
    {
        if self.covered() == self.length {
            Some(self.layout)
        } else {
            None
        }
    }

    /// The number of bytes laid out so far.
    fn covered(&self) -> (offset: usize)
        requires
            self.wf(),
        ensures
            offset == span_of(self.layout()),
    {
        let count = self.layout.instruction_layouts.len();
        if count == 0 {
            0
        } else {
            self.layout.instruction_layouts[count - 1].end_offset
        }
    }

    /// The offset of the bytes to decode next, or `None` once the layout
    /// covers the whole block.
    pub fn pending(&self) -> (offset: Option<usize>)
        requires
            self.wf(),
        ensures
            self.complete() ==> offset is None,
            !self.complete() ==> offset == Some(span_of(self.layout()) as usize),
    {
        let covered = self.covered();
        if covered < self.length {
            Some(covered)
        } else {
            None
        }
    }

    /// Takes in what the decoder made of the bytes at the pending offset.
    /// An instruction of at least one byte that ends within the block is
    /// appended to the layout. Anything else is a failed decoding: bytes
    /// that the decoder rejected, or a length that cannot be.
    pub fn accept(&mut self, decoded: Option<DecodedInst>) -> (outcome: Result<(), Error>)
        requires
            old(self).wf(),
        ensures
            final(self).wf(),
            final(self).length() == old(self).length(),
            match decoded {
                Some(inst) if old(self).fits(inst.length) => {
                    &&& outcome is Ok
                    &&& final(self).layout() == old(self).layout().push(
                        (
                            span_of(old(self).layout()) as u64,
                            (span_of(old(self).layout()) + inst.length) as usize,
                            inst.disasm@,
                        ),
                    )
                },
                _ => {
                    &&& outcome == Err::<(), Error>(Error::Disassembly)
                    &&& final(self).layout() == old(self).layout()
                },
            },
    {
        let inst = match decoded {
            Some(inst) => inst,
            None => {
                return Err(Error::Disassembly);
            },
        };
        let covered = self.covered();
        if inst.length < 1 || inst.length > self.length - covered {
            return Err(Error::Disassembly);
        }
        let ghost before = self.layout@;
        let end_offset = covered + inst.length;
        let entry = DisasmInstructionLayout {
            address: covered as u64,
            end_offset,
            disasm: inst.disasm,
        };
        self.layout.instruction_layouts.push(entry);
        proof {
            let after = self.layout@;
            assert(after =~= before.push(entry@));
            assert forall|index: int| 0 <= index < after.len() implies #[trigger] entry_follows(
                after,
                index,
            ) by {
                if index < before.len() {
                    assert(entry_follows(before, index));
                }
            }
        }
        Ok(())
    }
}

/// In a layout without gaps the end offsets ascend: an instruction ends
/// before any later one does.
pub proof fn lemma_offsets_ascend(layout: Seq<(u64, usize, Seq<char>)>, earlier: int, later: int)
    requires
        well_formed_layout(layout),
        0 <= earlier <= later < layout.len(),
    ensures
        layout[earlier].1 <= layout[later].1,
        earlier < later ==> layout[earlier].1 < layout[later].1,
        layout[later].1 <= span_of(layout),
    decreases layout.len() - earlier,
{
    assert(entry_follows(layout, layout.len() - 1));
    if later < layout.len() - 1 {
        lemma_offsets_ascend(layout, later + 1, layout.len() - 1);
        assert(entry_follows(layout, later + 1));
    }
    if earlier < later {
        assert(entry_follows(layout, earlier + 1));
        lemma_offsets_ascend(layout, earlier + 1, later);
    }
}

/// The number of bytes that a layout covers.
pub fn span(layout: &DisasmBasicBlockLayout) -> (covered: usize)
    ensures
        covered == span_of(layout@),
{
    let count = layout.instruction_layouts.len();
    if count == 0 {
        0
    } else {
        layout.instruction_layouts[count - 1].end_offset
    }
}

} // verus!
