//! Canonical names of instructions, told apart by form and not by
//! occurrence, and the set of names already handed to the instruction list.
//!
//! Decoding one instruction and appending to the list are the caller's
//! business. This module names what was decoded, walks a block from one
//! instruction to the next, and decides which instructions are new.

use vstd::prelude::*;
use vstd::slice::slice_subrange;
use vstd::string::StringExecFns;
use crate::args::{same_text, ExecutionMode};
use crate::error::Error;

verus! {

/// What the decoder found out about the instruction at the start of some
/// bytes.
#[derive(Debug)]
pub struct DecodedInstruction {
    /// The number of bytes of the instruction.
    pub length: usize,
    /// The name of the instruction's form.
    pub form: String,
    /// Whether the instruction carries a lock prefix.
    pub has_lock: bool,
    /// Whether the width of the operands depends on the mode and the
    /// prefixes.
    pub scalable: bool,
    /// The width of the operands in bits.
    pub operand_width: u32,
    /// The name of the first register operand.
    pub register: String,
}

/// The forms that exist only with a lock prefix, each with the form of the
/// same instruction without the prefix.
pub open spec fn nolock_forms() -> Seq<(Seq<char>, Seq<char>)> {
    seq![
        ("ADC_LOCK_MEMb_IMMb_80r2"@, "ADC_MEMb_IMMb_80r2"@),
        ("ADC_LOCK_MEMv_IMMz"@, "ADC_MEMv_IMMz"@),
        ("ADC_LOCK_MEMb_IMMb_82r2"@, "ADC_MEMb_IMMb_82r2"@),
        ("ADC_LOCK_MEMv_IMMb"@, "ADC_MEMv_IMMb"@),
        ("ADC_LOCK_MEMb_GPR8"@, "ADC_MEMb_GPR8"@),
        ("ADC_LOCK_MEMv_GPRv"@, "ADC_MEMv_GPRv"@),
        ("DEC_LOCK_MEMb"@, "DEC_MEMb"@),
        ("DEC_LOCK_MEMv"@, "DEC_MEMv"@),
        ("NOT_LOCK_MEMb"@, "NOT_MEMb"@),
        ("NOT_LOCK_MEMv"@, "NOT_MEMv"@),
        ("SUB_LOCK_MEMb_IMMb_80r5"@, "SUB_MEMb_IMMb_80r5"@),
        ("SUB_LOCK_MEMv_IMMz"@, "SUB_MEMv_IMMz"@),
        ("SUB_LOCK_MEMb_IMMb_82r5"@, "SUB_MEMb_IMMb_82r5"@),
        ("SUB_LOCK_MEMv_IMMb"@, "SUB_MEMv_IMMb"@),
        ("SUB_LOCK_MEMb_GPR8"@, "SUB_MEMb_GPR8"@),
        ("SUB_LOCK_MEMv_GPRv"@, "SUB_MEMv_GPRv"@),
        ("BTC_LOCK_MEMv_IMMb"@, "BTC_MEMv_IMMb"@),
        ("BTC_LOCK_MEMv_GPRv"@, "BTC_MEMv_GPRv"@),
        ("AND_LOCK_MEMb_IMMb_80r4"@, "AND_MEMb_IMMb_80r4"@),
        ("AND_LOCK_MEMv_IMMz"@, "AND_MEMv_IMMz"@),
        ("AND_LOCK_MEMb_IMMb_82r4"@, "AND_MEMb_IMMb_82r4"@),
        ("AND_LOCK_MEMv_IMMb"@, "AND_MEMv_IMMb"@),
        ("AND_LOCK_MEMb_GPR8"@, "AND_MEMb_GPR8"@),
        ("AND_LOCK_MEMv_GPRv"@, "AND_MEMv_GPRv"@),
        ("CMPXCHG_LOCK_MEMb_GPR8"@, "CMPXCHG_MEMb_GPR8"@),
        ("CMPXCHG_LOCK_MEMv_GPRv"@, "CMPXCHG_MEMv_GPRv"@),
        ("INC_LOCK_MEMb"@, "INC_MEMb"@),
        ("INC_LOCK_MEMv"@, "INC_MEMv"@),
        ("OR_LOCK_MEMb_IMMb_80r1"@, "OR_MEMb_IMMb_80r1"@),
        ("OR_LOCK_MEMv_IMMz"@, "OR_MEMv_IMMz"@),
        ("OR_LOCK_MEMb_IMMb_82r1"@, "OR_MEMb_IMMb_82r1"@),
        ("OR_LOCK_MEMv_IMMb"@, "OR_MEMv_IMMb"@),
        ("OR_LOCK_MEMb_GPR8"@, "OR_MEMb_GPR8"@),
        ("OR_LOCK_MEMv_GPRv"@, "OR_MEMv_GPRv"@),
        ("XADD_LOCK_MEMb_GPR8"@, "XADD_MEMb_GPR8"@),
        ("XADD_LOCK_MEMv_GPRv"@, "XADD_MEMv_GPRv"@),
        ("ADD_LOCK_MEMb_IMMb_80r0"@, "ADD_MEMb_IMMb_80r0"@),
        ("ADD_LOCK_MEMv_IMMz"@, "ADD_MEMv_IMMz"@),
        ("ADD_LOCK_MEMb_IMMb_82r0"@, "ADD_MEMb_IMMb_82r0"@),
        ("ADD_LOCK_MEMv_IMMb"@, "ADD_MEMv_IMMb"@),
        ("ADD_LOCK_MEMb_GPR8"@, "ADD_MEMb_GPR8"@),
        ("ADD_LOCK_MEMv_GPRv"@, "ADD_MEMv_GPRv"@),
        ("SBB_LOCK_MEMb_IMMb_80r3"@, "SBB_MEMb_IMMb_80r3"@),
        ("SBB_LOCK_MEMv_IMMz"@, "SBB_MEMv_IMMz"@),
        ("SBB_LOCK_MEMb_IMMb_82r3"@, "SBB_MEMb_IMMb_82r3"@),
        ("SBB_LOCK_MEMv_IMMb"@, "SBB_MEMv_IMMb"@),
        ("SBB_LOCK_MEMb_GPR8"@, "SBB_MEMb_GPR8"@),
        ("SBB_LOCK_MEMv_GPRv"@, "SBB_MEMv_GPRv"@),
        ("BTS_LOCK_MEMv_IMMb"@, "BTS_MEMv_IMMb"@),
        ("BTS_LOCK_MEMv_GPRv"@, "BTS_MEMv_GPRv"@),
        ("XOR_LOCK_MEMb_IMMb_80r6"@, "XOR_MEMb_IMMb_80r6"@),
        ("XOR_LOCK_MEMv_IMMz"@, "XOR_MEMv_IMMz"@),
        ("XOR_LOCK_MEMb_IMMb_82r6"@, "XOR_MEMb_IMMb_82r6"@),
        ("XOR_LOCK_MEMv_IMMb"@, "XOR_MEMv_IMMb"@),
        ("XOR_LOCK_MEMb_GPR8"@, "XOR_MEMb_GPR8"@),
        ("XOR_LOCK_MEMv_GPRv"@, "XOR_MEMv_GPRv"@),
        ("BTR_LOCK_MEMv_IMMb"@, "BTR_MEMv_IMMb"@),
        ("BTR_LOCK_MEMv_GPRv"@, "BTR_MEMv_GPRv"@),
        ("CMPXCHG8B_LOCK_MEMq"@, "CMPXCHG8B_MEMq"@),
        ("CMPXCHG16B_LOCK_MEMdq"@, "CMPXCHG16B_MEMdq"@),
        ("NEG_LOCK_MEMb"@, "NEG_MEMb"@),
        ("NEG_LOCK_MEMv"@, "NEG_MEMv"@),
    ]
}

/// Whether the entry at `index` is the first one for the locked form
/// `form`.
pub open spec fn first_locked_at(
    forms: Seq<(Seq<char>, Seq<char>)>,
    form: Seq<char>,
    index: int,
) -> bool {
    &&& 0 <= index < forms.len()
    &&& forms[index].0 == form
    &&& forall|earlier: int| 0 <= earlier < index ==> (#[trigger] forms[earlier]).0 != form
}

/// The form without a lock prefix that the table gives for `form`, or
/// `form` itself where the table does not know it.
pub open spec fn unlocked_form(forms: Seq<(Seq<char>, Seq<char>)>, form: Seq<char>) -> Seq<char> {
    if exists|index: int| first_locked_at(forms, form, index) {
        forms[choose|index: int| first_locked_at(forms, form, index)].1
    } else {
        form
    }
}

/// Whether instructions of the form `form` are told apart by their first
/// register: the moves to a segment register and to a control register.
pub open spec fn named_by_register(form: Seq<char>) -> bool {
    ||| form == "MOV_SEG_MEMw"@
    ||| form == "MOV_SEG_GPR16"@
    ||| form == "MOV_CR_CR_GPR32"@
    ||| form == "MOV_CR_CR_GPR64"@
}

/// The character for a digit.
pub open spec fn digit_of(digit: nat) -> char {
    if digit == 0 {
        '0'
    } else if digit == 1 {
        '1'
    } else if digit == 2 {
        '2'
    } else if digit == 3 {
        '3'
    } else if digit == 4 {
        '4'
    } else if digit == 5 {
        '5'
    } else if digit == 6 {
        '6'
    } else if digit == 7 {
        '7'
    } else if digit == 8 {
        '8'
    } else {
        '9'
    }
}

/// A number written in decimal digits.
pub open spec fn decimal_of(number: nat) -> Seq<char>
    decreases number,
{
    if number < 10 {
        seq![digit_of(number)]
    } else {
        decimal_of(number / 10).push(digit_of(number % 10))
    }
}

/// The name that stands for every instruction of one form: the form, with
/// the lock prefix taken out of it where the instruction carries one; then
/// the operand width, where that is not fixed by the form; then the first
/// register, where the form is told apart by it.
pub open spec fn canonical_name_of(
    form: Seq<char>,
    has_lock: bool,
    scalable: bool,
    operand_width: u32,
    register: Seq<char>,
) -> Seq<char> {
    let plain = if has_lock {
        unlocked_form(nolock_forms(), form)
    } else {
        form
    };
    let sized = if scalable {
        plain + "_"@ + decimal_of(operand_width as nat)
    } else {
        plain
    };
    if named_by_register(plain) {
        sized + "_"@ + register
    } else {
        sized
    }
}

impl DecodedInstruction {
    /// The canonical name of this instruction.
    pub open spec fn name(&self) -> Seq<char> {
        canonical_name_of(
            self.form@,
            self.has_lock,
            self.scalable,
            self.operand_width,
            self.register@,
        )
    }
}

/// The view of a table of forms: each pair of names as text.
pub open spec fn forms_of(table: Seq<(&'static str, &'static str)>) -> Seq<(Seq<char>, Seq<char>)> {
    table.map_values(|pair: (&'static str, &'static str)| (pair.0@, pair.1@))
}

/// The table of forms with a lock prefix, built once and then only read.
#[derive(Debug)]
pub struct NoLockForms {
    forms: Vec<(&'static str, &'static str)>,
}

impl NoLockForms {
    /// What holds of every table: it is the table of `nolock_forms`.
    pub closed spec fn wf(&self) -> bool {
        forms_of(self.forms@) == nolock_forms()
    }

    /// The table.
    pub fn new() -> (table: NoLockForms)
        ensures
            table.wf(),
    {
        let mut forms: Vec<(&'static str, &'static str)> = Vec::new();
        forms.push(("ADC_LOCK_MEMb_IMMb_80r2", "ADC_MEMb_IMMb_80r2"));
        forms.push(("ADC_LOCK_MEMv_IMMz", "ADC_MEMv_IMMz"));
        forms.push(("ADC_LOCK_MEMb_IMMb_82r2", "ADC_MEMb_IMMb_82r2"));
        forms.push(("ADC_LOCK_MEMv_IMMb", "ADC_MEMv_IMMb"));
        forms.push(("ADC_LOCK_MEMb_GPR8", "ADC_MEMb_GPR8"));
        forms.push(("ADC_LOCK_MEMv_GPRv", "ADC_MEMv_GPRv"));
        forms.push(("DEC_LOCK_MEMb", "DEC_MEMb"));
        forms.push(("DEC_LOCK_MEMv", "DEC_MEMv"));
        forms.push(("NOT_LOCK_MEMb", "NOT_MEMb"));
        forms.push(("NOT_LOCK_MEMv", "NOT_MEMv"));
        forms.push(("SUB_LOCK_MEMb_IMMb_80r5", "SUB_MEMb_IMMb_80r5"));
        forms.push(("SUB_LOCK_MEMv_IMMz", "SUB_MEMv_IMMz"));
        forms.push(("SUB_LOCK_MEMb_IMMb_82r5", "SUB_MEMb_IMMb_82r5"));
        forms.push(("SUB_LOCK_MEMv_IMMb", "SUB_MEMv_IMMb"));
        forms.push(("SUB_LOCK_MEMb_GPR8", "SUB_MEMb_GPR8"));
        forms.push(("SUB_LOCK_MEMv_GPRv", "SUB_MEMv_GPRv"));
        forms.push(("BTC_LOCK_MEMv_IMMb", "BTC_MEMv_IMMb"));
        forms.push(("BTC_LOCK_MEMv_GPRv", "BTC_MEMv_GPRv"));
        forms.push(("AND_LOCK_MEMb_IMMb_80r4", "AND_MEMb_IMMb_80r4"));
        forms.push(("AND_LOCK_MEMv_IMMz", "AND_MEMv_IMMz"));
        forms.push(("AND_LOCK_MEMb_IMMb_82r4", "AND_MEMb_IMMb_82r4"));
        forms.push(("AND_LOCK_MEMv_IMMb", "AND_MEMv_IMMb"));
        forms.push(("AND_LOCK_MEMb_GPR8", "AND_MEMb_GPR8"));
        forms.push(("AND_LOCK_MEMv_GPRv", "AND_MEMv_GPRv"));
        forms.push(("CMPXCHG_LOCK_MEMb_GPR8", "CMPXCHG_MEMb_GPR8"));
        forms.push(("CMPXCHG_LOCK_MEMv_GPRv", "CMPXCHG_MEMv_GPRv"));
        forms.push(("INC_LOCK_MEMb", "INC_MEMb"));
        forms.push(("INC_LOCK_MEMv", "INC_MEMv"));
        forms.push(("OR_LOCK_MEMb_IMMb_80r1", "OR_MEMb_IMMb_80r1"));
        forms.push(("OR_LOCK_MEMv_IMMz", "OR_MEMv_IMMz"));
        forms.push(("OR_LOCK_MEMb_IMMb_82r1", "OR_MEMb_IMMb_82r1"));
        forms.push(("OR_LOCK_MEMv_IMMb", "OR_MEMv_IMMb"));
        forms.push(("OR_LOCK_MEMb_GPR8", "OR_MEMb_GPR8"));
        forms.push(("OR_LOCK_MEMv_GPRv", "OR_MEMv_GPRv"));
        forms.push(("XADD_LOCK_MEMb_GPR8", "XADD_MEMb_GPR8"));
        forms.push(("XADD_LOCK_MEMv_GPRv", "XADD_MEMv_GPRv"));
        forms.push(("ADD_LOCK_MEMb_IMMb_80r0", "ADD_MEMb_IMMb_80r0"));
        forms.push(("ADD_LOCK_MEMv_IMMz", "ADD_MEMv_IMMz"));
        forms.push(("ADD_LOCK_MEMb_IMMb_82r0", "ADD_MEMb_IMMb_82r0"));
        forms.push(("ADD_LOCK_MEMv_IMMb", "ADD_MEMv_IMMb"));
        forms.push(("ADD_LOCK_MEMb_GPR8", "ADD_MEMb_GPR8"));
        forms.push(("ADD_LOCK_MEMv_GPRv", "ADD_MEMv_GPRv"));
        forms.push(("SBB_LOCK_MEMb_IMMb_80r3", "SBB_MEMb_IMMb_80r3"));
        forms.push(("SBB_LOCK_MEMv_IMMz", "SBB_MEMv_IMMz"));
        forms.push(("SBB_LOCK_MEMb_IMMb_82r3", "SBB_MEMb_IMMb_82r3"));
        forms.push(("SBB_LOCK_MEMv_IMMb", "SBB_MEMv_IMMb"));
        forms.push(("SBB_LOCK_MEMb_GPR8", "SBB_MEMb_GPR8"));
        forms.push(("SBB_LOCK_MEMv_GPRv", "SBB_MEMv_GPRv"));
        forms.push(("BTS_LOCK_MEMv_IMMb", "BTS_MEMv_IMMb"));
        forms.push(("BTS_LOCK_MEMv_GPRv", "BTS_MEMv_GPRv"));
        forms.push(("XOR_LOCK_MEMb_IMMb_80r6", "XOR_MEMb_IMMb_80r6"));
        forms.push(("XOR_LOCK_MEMv_IMMz", "XOR_MEMv_IMMz"));
        forms.push(("XOR_LOCK_MEMb_IMMb_82r6", "XOR_MEMb_IMMb_82r6"));
        forms.push(("XOR_LOCK_MEMv_IMMb", "XOR_MEMv_IMMb"));
        forms.push(("XOR_LOCK_MEMb_GPR8", "XOR_MEMb_GPR8"));
        forms.push(("XOR_LOCK_MEMv_GPRv", "XOR_MEMv_GPRv"));
        forms.push(("BTR_LOCK_MEMv_IMMb", "BTR_MEMv_IMMb"));
        forms.push(("BTR_LOCK_MEMv_GPRv", "BTR_MEMv_GPRv"));
        forms.push(("CMPXCHG8B_LOCK_MEMq", "CMPXCHG8B_MEMq"));
        forms.push(("CMPXCHG16B_LOCK_MEMdq", "CMPXCHG16B_MEMdq"));
        forms.push(("NEG_LOCK_MEMb", "NEG_MEMb"));
        forms.push(("NEG_LOCK_MEMv", "NEG_MEMv"));
        assert(forms_of(forms@) =~= nolock_forms());
        NoLockForms { forms }
    }

    /// The form without a lock prefix that the table gives for `form`, or
    /// nothing where the table does not know `form`.
    pub fn get(&self, form: &str) -> (plain: Option<&'static str>)
        requires
            self.wf(),
        ensures
            plain matches Some(name) ==> name@ == unlocked_form(nolock_forms(), form@) && exists|
                index: int,
            | first_locked_at(nolock_forms(), form@, index),
            plain is None ==> unlocked_form(nolock_forms(), form@) == form@ && !exists|index: int|
                first_locked_at(nolock_forms(), form@, index),
    {
        let mut i: usize = 0;
        while i < self.forms.len()
            invariant
                i <= self.forms@.len(),
                forms_of(self.forms@) == nolock_forms(),
                forall|earlier: int|
                    0 <= earlier < i ==> (#[trigger] nolock_forms()[earlier]).0 != form@,
            decreases self.forms@.len() - i,
        {
            let pair = self.forms[i];
            assert(forms_of(self.forms@)[i as int] == (pair.0@, pair.1@));
            if same_text(pair.0, form) {
                assert(first_locked_at(nolock_forms(), form@, i as int));
                proof {
                    let chosen = choose|index: int| first_locked_at(nolock_forms(), form@, index);
                    if chosen < i {
                        assert(nolock_forms()[chosen].0 != form@);
                    } else if i < chosen {
                        assert(nolock_forms()[i as int].0 == form@);
                    }
                }
                return Some(pair.1);
            }
            i += 1;
        }
        None
    }
}

/// The text of one decimal digit.
fn digit_text(digit: u32) -> (text: &'static str)
    requires
        digit < 10,
    ensures
        text@ == seq![digit_of(digit as nat)],
{
    proof {
        reveal_strlit("0");
        reveal_strlit("1");
        reveal_strlit("2");
        reveal_strlit("3");
        reveal_strlit("4");
        reveal_strlit("5");
        reveal_strlit("6");
        reveal_strlit("7");
        reveal_strlit("8");
        reveal_strlit("9");
    }
    let text = if digit == 0 {
        "0"
    } else if digit == 1 {
        "1"
    } else if digit == 2 {
        "2"
    } else if digit == 3 {
        "3"
    } else if digit == 4 {
        "4"
    } else if digit == 5 {
        "5"
    } else if digit == 6 {
        "6"
    } else if digit == 7 {
        "7"
    } else if digit == 8 {
        "8"
    } else {
        "9"
    };
    assert(text@ =~= seq![digit_of(digit as nat)]);
    text
}

/// A number written in decimal digits.
pub fn decimal_text(number: u32) -> (text: String)
    ensures
        text@ == decimal_of(number as nat),
    decreases number,
{
    if number < 10 {
        String::from_str(digit_text(number))
    } else {
        let mut text = decimal_text(number / 10);
        text.append(digit_text(number % 10));
        assert(text@ =~= decimal_of(number as nat));
        text
    }
}

impl NoLockForms {
    /// The canonical name of a decoded instruction.
    pub fn canonical_name(&self, decoded: &DecodedInstruction) -> (name: String)
        requires
            self.wf(),
        ensures
            name@ == decoded.name(),
    {
        let plain: &str = if decoded.has_lock {
            match self.get(decoded.form.as_str()) {
                Some(plain) => plain,
                None => decoded.form.as_str(),
            }
        } else {
            decoded.form.as_str()
        };
        let mut name = String::from_str(plain);
        if decoded.scalable {
            name.append("_");
            let width = decimal_text(decoded.operand_width);
            name.append(width.as_str());
        }
        if same_text(plain, "MOV_SEG_MEMw") || same_text(plain, "MOV_SEG_GPR16") || same_text(
            plain,
            "MOV_CR_CR_GPR32",
        ) || same_text(plain, "MOV_CR_CR_GPR64") {
            name.append("_");
            name.append(decoded.register.as_str());
        }
        name
    }
}

/// The lock prefix does not show in a name: an instruction with the prefix,
/// of a form that the table knows, is named like the instruction without the
/// prefix whose form the table gives for it, the operands being alike.
pub proof fn lemma_lock_prefix_is_not_named(
    locked_form: Seq<char>,
    plain_form: Seq<char>,
    scalable: bool,
    operand_width: u32,
    register: Seq<char>,
)
    requires
        unlocked_form(nolock_forms(), locked_form) == plain_form,
    ensures
        canonical_name_of(locked_form, true, scalable, operand_width, register)
            == canonical_name_of(plain_form, false, scalable, operand_width, register),
{
}

/// One instruction of a block with its canonical name.
#[derive(Debug)]
pub struct XedInst<'a> {
    /// The instruction's bytes, a part of the block's bytes.
    pub data: &'a [u8],
    /// The canonical name of the instruction.
    pub function_name: String,
    /// The mode under which the block ran.
    pub machine_mode: ExecutionMode,
}

impl<'a> XedInst<'a> {
    /// The record that stands for this instruction in the instruction list:
    /// the byte of the mode, then the instruction's bytes.
    pub open spec fn record_of(&self) -> Seq<u8> {
        seq![self.machine_mode.code_of()] + self.data@
    }

    /// Whether this is the instruction that `decoded` describes at the start
    /// of `data`.
    pub open spec fn describes(
        &self,
        data: Seq<u8>,
        mode: ExecutionMode,
        decoded: DecodedInstruction,
    ) -> bool {
        &&& self.data@ == data.subrange(0, decoded.length as int)
        &&& self.function_name@ == decoded.name()
        &&& self.machine_mode == mode
    }

    /// The instruction at the start of `data`, from what the decoder made of
    /// those bytes; `None` stands for bytes that the decoder rejected. An
    /// instruction has at least one byte and ends within `data`; anything
    /// else is a failed decoding.
    pub fn from_instruction_data(
        data: &'a [u8],
        mode: ExecutionMode,
        decoded: Option<DecodedInstruction>,
        forms: &NoLockForms,
    ) -> (inst: Result<XedInst<'a>, Error>)
        requires
            forms.wf(),
        ensures
            match decoded {
                Some(d) if 1 <= d.length <= data@.len() => inst matches Ok(found)
                    && found.describes(data@, mode, d),
                _ => inst matches Err(e) && e == Error::Disassembly,
            },
    {
        let decoded = match decoded {
            Some(decoded) => decoded,
            None => {
                return Err(Error::Disassembly);
            },
        };
        if decoded.length < 1 || decoded.length > data.len() {
            return Err(Error::Disassembly);
        }
        let function_name = forms.canonical_name(&decoded);
        Ok(
            XedInst {
                data: slice_subrange(data, 0, decoded.length),
                function_name,
                machine_mode: mode,
            },
        )
    }

    /// Starts the walk over the instructions of a block.
    pub fn from_basic_block_data(data: &'a [u8], mode: ExecutionMode) -> (walk: InstructionWalk<'a>)
        ensures
            walk.wf(),
            walk.data@ == data@,
            walk.mode == mode,
            walk.offset == 0,
            !walk.stopped,
            walk.instructions@.len() == 0,
    {
        InstructionWalk { data, mode, offset: 0, stopped: false, instructions: Vec::new() }
    }
}

/// A walk over the instructions of a block, from its first byte on, that
/// ends with the block or at the first bytes that cannot be decoded.
#[derive(Debug)]
pub struct InstructionWalk<'a> {
    /// The bytes of the block.
    pub data: &'a [u8],
    /// The mode under which the block ran.
    pub mode: ExecutionMode,
    /// The number of bytes walked over.
    pub offset: usize,
    /// Whether the walk met bytes that could not be decoded.
    pub stopped: bool,
    /// The instructions found so far.
    pub instructions: Vec<XedInst<'a>>,
}

impl<'a> InstructionWalk<'a> {
    /// What holds of every walk: it has not left the block.
    pub open spec fn wf(&self) -> bool {
        self.offset <= self.data@.len()
    }

    /// Whether the walk is over.
    pub open spec fn done(&self) -> bool {
        self.stopped || self.offset == self.data@.len()
    }

    /// The bytes to decode next, or `None` once the walk is over.
    pub fn pending(&self) -> (bytes: Option<&'a [u8]>)
        requires
            self.wf(),
        ensures
            self.done() ==> bytes is None,
            !self.done() ==> ({
                &&& bytes matches Some(rest)
                &&& rest@ == self.data@.subrange(self.offset as int, self.data@.len() as int)
            }),
    {
        if self.stopped || self.offset >= self.data.len() {
            None
        } else {
            Some(slice_subrange(self.data, self.offset, self.data.len()))
        }
    }

    /// Takes in what the decoder made of the pending bytes. An instruction
    /// is added to those found, and the walk moves past it. A failed
    /// decoding ends the walk where it stands, and is no error: what was
    /// found before stays. A walk that is over takes in nothing.
    pub fn accept(&mut self, decoded: Option<DecodedInstruction>, forms: &NoLockForms)
        requires
            old(self).wf(),
            forms.wf(),
        ensures
            final(self).wf(),
            final(self).data@ == old(self).data@,
            final(self).mode == old(self).mode,
            old(self).done() ==> {
                &&& final(self).stopped == old(self).stopped
                &&& final(self).offset == old(self).offset
                &&& final(self).instructions@ == old(self).instructions@
            },
            !old(self).done() ==> match decoded {
                Some(d) if 1 <= d.length <= old(self).data@.len() - old(self).offset => {
                    &&& !final(self).stopped
                    &&& final(self).offset == old(self).offset + d.length
                    &&& final(self).instructions@.len() == old(self).instructions@.len() + 1
                    &&& final(self).instructions@.drop_last() == old(self).instructions@
                    &&& final(self).instructions@.last().describes(
                        old(self).data@.subrange(
                            old(self).offset as int,
                            old(self).data@.len() as int,
                        ),
                        old(self).mode,
                        d,
                    )
                },
                _ => {
                    &&& final(self).stopped
                    &&& final(self).offset == old(self).offset
                    &&& final(self).instructions@ == old(self).instructions@
                },
            },
    {
        if self.stopped || self.offset >= self.data.len() {
            return ;
        }
        let rest = slice_subrange(self.data, self.offset, self.data.len());
        match XedInst::from_instruction_data(rest, self.mode, decoded, forms) {
            Ok(inst) => {
                let ghost before = self.instructions@;
                self.offset = self.offset + inst.data.len();
                self.instructions.push(inst);
                assert(self.instructions@.drop_last() =~= before);
            },
            Err(_) => {
                self.stopped = true;
            },
        }
    }

    /// The instructions that the walk found.
    pub fn finish(self) -> (instructions: Vec<XedInst<'a>>)
        ensures
            instructions == self.instructions,
    {
        self.instructions
    }
}

/// The names known after the first `count` of `insts` were seen, starting
/// from `names`: each name that was not known before is added at the end.
pub open spec fn names_after(names: Seq<Seq<char>>, insts: Seq<XedInst>, count: int) -> Seq<
    Seq<char>,
>
    decreases count,
{
    if count <= 0 {
        names
    } else {
        let before = names_after(names, insts, count - 1);
        if before.contains(insts[count - 1].function_name@) {
            before
        } else {
            before.push(insts[count - 1].function_name@)
        }
    }
}

/// The records to append for the first `count` of `insts`, starting from
/// the known names `names`: one for each instruction whose name was not
/// known when its turn came, in the order of the instructions.
pub open spec fn records_for(names: Seq<Seq<char>>, insts: Seq<XedInst>, count: int) -> Seq<
    Seq<u8>,
>
    decreases count,
{
    if count <= 0 {
        Seq::empty()
    } else {
        let before = records_for(names, insts, count - 1);
        if names_after(names, insts, count - 1).contains(insts[count - 1].function_name@) {
            before
        } else {
            before.push(insts[count - 1].record_of())
        }
    }
}

/// The names of the instructions that were handed to the instruction list
/// during this run.
#[derive(Debug)]
pub struct RemillCache {
    cached_names: Vec<String>,
    forms: NoLockForms,
}

impl RemillCache {
    /// The names handed on so far, in the order in which they came.
    pub closed spec fn names(&self) -> Seq<Seq<char>> {
        self.cached_names@.map_values(|name: String| name@)
    }

    /// What holds of every cache: no name is held twice.
    pub closed spec fn wf(&self) -> bool {
        self.names().no_duplicates() && self.forms.wf()
    }

    /// A cache that holds no name yet.
    pub fn from_args() -> (cache: RemillCache)
        ensures
            cache.wf(),
            cache.names().len() == 0,
    {
        RemillCache { cached_names: Vec::new(), forms: NoLockForms::new() }
    }

    /// The table of forms by which instructions are named.
    pub fn forms(&self) -> (forms: &NoLockForms)
        requires
            self.wf(),
        ensures
            forms.wf(),
    {
        &self.forms
    }

    /// Whether `name` was handed on before.
    fn holds(&self, name: &String) -> (held: bool)
        ensures
            held == self.names().contains(name@),
    {
        let mut i: usize = 0;
        while i < self.cached_names.len()
            invariant
                i <= self.cached_names@.len(),
                forall|k: int| 0 <= k < i ==> self.names()[k] != name@,
            decreases self.cached_names@.len() - i,
        {
            if self.cached_names[i] == *name {
                assert(self.names()[i as int] == name@);
                return true;
            }
            i += 1;
        }
        false
    }

    /// Takes in one instruction. If its name is new, the name is kept and
    /// the answer is the record to append to the instruction list; if the
    /// name was seen before, nothing changes and nothing is to be appended.
    pub fn cache_instruction(&mut self, inst: &XedInst) -> (record: Option<Vec<u8>>)
        requires
            old(self).wf(),
        ensures
            final(self).wf(),
            old(self).names().contains(inst.function_name@) ==> {
                &&& record is None
                &&& final(self).names() == old(self).names()
            },
            !old(self).names().contains(inst.function_name@) ==> {
                &&& record matches Some(bytes) && bytes@ == inst.record_of()
                &&& final(self).names() == old(self).names().push(inst.function_name@)
            },
            final(self).names().contains(inst.function_name@),
    {
        if self.holds(&inst.function_name) {
            return None;
        }
        let ghost before = self.names();
        let mut bytes: Vec<u8> = Vec::new();
        bytes.push(inst.machine_mode.code());
        let mut i: usize = 0;
        while i < inst.data.len()
            invariant
                i <= inst.data@.len(),
                bytes@ == seq![inst.machine_mode.code_of()] + inst.data@.subrange(0, i as int),
            decreases inst.data@.len() - i,
        {
            bytes.push(inst.data[i]);
            i += 1;
        }
        assert(inst.data@.subrange(0, i as int) == inst.data@);
        self.cached_names.push(inst.function_name.clone());
        proof {
            assert(self.names() =~= before.push(inst.function_name@));
            assert(self.names()[before.len() as int] == inst.function_name@);
            assert forall|a: int, b: int|
                0 <= a < self.names().len() && 0 <= b < self.names().len() && a != b implies self.names()[a]
                != self.names()[b] by {
                if a < before.len() && b < before.len() {
                    assert(before[a] != before[b]);
                } else if a < before.len() {
                    assert(before.contains(before[a]));
                } else {
                    assert(before.contains(before[b]));
                }
            }
        }
        Some(bytes)
    }

    /// Takes in the instructions of one block, in order, and answers the
    /// records to append to the instruction list: one for each instruction
    /// whose name was new when its turn came.
    pub fn cache_basic_block(&mut self, insts: &Vec<XedInst>) -> (records: Vec<Vec<u8>>)
        requires
            old(self).wf(),
        ensures
            final(self).wf(),
            final(self).names() == names_after(old(self).names(), insts@, insts@.len() as int),
            records@.map_values(|bytes: Vec<u8>| bytes@) == records_for(
                old(self).names(),
                insts@,
                insts@.len() as int,
            ),
    {
        let mut records: Vec<Vec<u8>> = Vec::new();
        let mut i: usize = 0;
        assert(records@.map_values(|bytes: Vec<u8>| bytes@) =~= records_for(
            old(self).names(),
            insts@,
            0,
        ));
        while i < insts.len()
            invariant
                i <= insts@.len(),
                self.wf(),
                self.names() == names_after(old(self).names(), insts@, i as int),
                records@.map_values(|bytes: Vec<u8>| bytes@) == records_for(
                    old(self).names(),
                    insts@,
                    i as int,
                ),
            decreases insts@.len() - i,
        {
            let ghost before = records@.map_values(|bytes: Vec<u8>| bytes@);
            match self.cache_instruction(&insts[i]) {
                Some(bytes) => {
                    records.push(bytes);
                    assert(records@.map_values(|bytes: Vec<u8>| bytes@) =~= before.push(
                        insts@[i as int].record_of(),
                    ));
                },
                None => {},
            }
            i += 1;
        }
        records
    }
}

/// A name is handed on once: whatever was known before, after an
/// instruction was seen its name is known, so seeing an instruction of that
/// name again appends nothing.
pub proof fn lemma_seen_name_is_known(names: Seq<Seq<char>>, insts: Seq<XedInst>, count: int)
    requires
        0 < count <= insts.len(),
    ensures
        names_after(names, insts, count).contains(insts[count - 1].function_name@),
        forall|name: Seq<char>| #[trigger]
            names_after(names, insts, count - 1).contains(name) ==> names_after(
                names,
                insts,
                count,
            ).contains(name),
{
    let before = names_after(names, insts, count - 1);
    let name = insts[count - 1].function_name@;
    if !before.contains(name) {
        assert(before.push(name)[before.len() as int] == name);
        assert forall|other: Seq<char>| before.contains(other) implies before.push(name).contains(
            other,
        ) by {
            let k = choose|k: int| 0 <= k < before.len() && before[k] == other;
            assert(before.push(name)[k] == other);
        }
    }
}

/// Names are never forgotten while a block is taken in.
pub proof fn lemma_names_stay_known(
    names: Seq<Seq<char>>,
    insts: Seq<XedInst>,
    earlier: int,
    later: int,
    name: Seq<char>,
)
    requires
        0 <= earlier <= later <= insts.len(),
        names_after(names, insts, earlier).contains(name),
    ensures
        names_after(names, insts, later).contains(name),
    decreases later - earlier,
{
    if earlier < later {
        lemma_names_stay_known(names, insts, earlier, later - 1, name);
        lemma_seen_name_is_known(names, insts, later);
    }
}

/// Taking in the same instructions a second time appends nothing and
/// leaves the known names as they are: every instruction form is handed on
/// once, however often it occurs.
pub proof fn lemma_second_pass_appends_nothing(
    names: Seq<Seq<char>>,
    insts: Seq<XedInst>,
    count: int,
)
    requires
        0 <= count <= insts.len(),
    ensures
        names_after(names_after(names, insts, insts.len() as int), insts, count) == names_after(
            names,
            insts,
            insts.len() as int,
        ),
        records_for(names_after(names, insts, insts.len() as int), insts, count) == Seq::<
            Seq<u8>,
        >::empty(),
    decreases count,
{
    if count > 0 {
        lemma_second_pass_appends_nothing(names, insts, count - 1);
        lemma_seen_name_is_known(names, insts, count);
        lemma_names_stay_known(
            names,
            insts,
            count,
            insts.len() as int,
            insts[count - 1].function_name@,
        );
    }
}

} // verus!
