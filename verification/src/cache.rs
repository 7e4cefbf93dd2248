//! Basic-block records as the list store holds them, and the steps by which
//! a list of them is opened and walked.
//!
//! A record is a header of eighteen bytes followed by the executed
//! instruction bytes. Numbers in the header are little-endian:
//!
//! | offset | size | field |
//! |---|---|---|
//! | 0 | 8 | program counter |
//! | 8 | 1 | execution mode, 0 or 1 |
//! | 9 | 1 | execution privilege, 0 or 3 |
//! | 10 | 8 | loop count |
//! | 18 | rest | instruction bytes |
//!
//! The store itself is reached by the caller. This module decides what to ask
//! it next and what each answer means.

use vstd::prelude::*;
use vstd::bytes::{
    lemma_auto_spec_u64_to_from_le_bytes, spec_u64_from_le_bytes, spec_u64_to_le_bytes,
    u64_to_le_bytes,
};
use vstd::slice::{slice_subrange, slice_to_vec};
use crate::args::{same_text, ExecutionMode, ExecutionPrivilege};
use crate::error::Error;

verus! {

/// The number of bytes in a record's header.
pub const HEADER_LEN: usize = 18;

/// A straight-line run of executed instructions with the context it ran in.
#[derive(Debug)]
pub struct BasicBlock {
    /// The address of the first instruction.
    pub program_counter: u64,
    /// The processor mode at capture time.
    pub execution_mode: ExecutionMode,
    /// The protection ring at capture time.
    pub execution_privilege: ExecutionPrivilege,
    /// How many times the block was repeated.
    pub loop_count: u64,
    /// The executed instruction bytes.
    pub data: Vec<u8>,
}

/// Whether `raw` is long enough for a header and names a known mode and
/// privilege.
pub open spec fn well_formed_record(raw: Seq<u8>) -> bool {
    &&& raw.len() >= HEADER_LEN
    &&& (raw[8] == 0 || raw[8] == 1)
    &&& (raw[9] == 0 || raw[9] == 3)
}

/// The bytes that stand for a record with the given fields.
pub open spec fn record_bytes(
    program_counter: u64,
    execution_mode: ExecutionMode,
    execution_privilege: ExecutionPrivilege,
    loop_count: u64,
    data: Seq<u8>,
) -> Seq<u8> {
    spec_u64_to_le_bytes(program_counter) + seq![
        execution_mode.code_of(),
        execution_privilege.code_of(),
    ] + spec_u64_to_le_bytes(loop_count) + data
}

/// Reads the eight bytes of `raw` that start at `offset` as a little-endian
/// number, through `scroll::Pread::pread_with` with the context `scroll::LE`.
/// That call yields the number when the eight bytes lie within `raw`, and an
/// error otherwise, which is handed on as `None`.
#[verifier::external_body]
fn read_u64_le(raw: &[u8], offset: usize) -> (value: Option<u64>)
    ensures
        offset + 8 <= raw@.len() ==> value == Some(
            spec_u64_from_le_bytes(raw@.subrange(offset as int, offset + 8)),
        ),
        offset + 8 > raw@.len() ==> value is None,
{
    scroll::Pread::pread_with::<u64>(raw, offset, scroll::LE).ok()
}

impl BasicBlock {
    /// The bytes that stand for this record.
    pub open spec fn encoding(&self) -> Seq<u8> {
        record_bytes(
            self.program_counter,
            self.execution_mode,
            self.execution_privilege,
            self.loop_count,
            self.data@,
        )
    }

    /// Whether this record is what the header and tail of `raw` say.
    pub open spec fn decodes(&self, raw: Seq<u8>) -> bool {
        &&& self.program_counter == spec_u64_from_le_bytes(raw.subrange(0, 8))
        &&& self.execution_mode.code_of() == raw[8]
        &&& self.execution_privilege.code_of() == raw[9]
        &&& self.loop_count == spec_u64_from_le_bytes(raw.subrange(10, 18))
        &&& self.data@ == raw.subrange(18, raw.len() as int)
    }

    /// Parses one stored record: the header fields, then everything after the
    /// header as instruction bytes. Nothing is disassembled here.
    pub fn decode(raw: &[u8]) -> (parsed: Result<BasicBlock, Error>)
        ensures
            well_formed_record(raw@) ==> parsed is Ok && parsed->Ok_0.decodes(raw@),
            !well_formed_record(raw@) ==> parsed == Err::<BasicBlock, Error>(
                Error::MalformedRecord,
            ),
    {
        if raw.len() < HEADER_LEN {
            return Err(Error::MalformedRecord);
        }
        let execution_mode = match ExecutionMode::from_code(raw[8]) {
            Some(mode) => mode,
            None => {
                return Err(Error::MalformedRecord);
            },
        };
        let execution_privilege = match ExecutionPrivilege::from_code(raw[9]) {
            Some(privilege) => privilege,
            None => {
                return Err(Error::MalformedRecord);
            },
        };
        let program_counter = match read_u64_le(raw, 0) {
            Some(value) => value,
            None => {
                return Err(Error::MalformedRecord);
            },
        };
        let loop_count = match read_u64_le(raw, 10) {
            Some(value) => value,
            None => {
                return Err(Error::MalformedRecord);
            },
        };
        let data = slice_to_vec(slice_subrange(raw, HEADER_LEN, raw.len()));
        Ok(BasicBlock { program_counter, execution_mode, execution_privilege, loop_count, data })
    }

    /// Writes this record out in the stored layout.
    pub fn encode(&self) -> (raw: Vec<u8>)
        ensures
            raw@ == self.encoding(),
            well_formed_record(raw@),
            self.decodes(raw@),
    {
        let mut raw = u64_to_le_bytes(self.program_counter);
        raw.push(self.execution_mode.code());
        raw.push(self.execution_privilege.code());
        let mut loop_count = u64_to_le_bytes(self.loop_count);
        raw.append(&mut loop_count);
        let mut i: usize = 0;
        while i < self.data.len()
            invariant
                i <= self.data.len(),
                raw@ == spec_u64_to_le_bytes(self.program_counter) + seq![
                    self.execution_mode.code_of(),
                    self.execution_privilege.code_of(),
                ] + spec_u64_to_le_bytes(self.loop_count) + self.data@.subrange(0, i as int),
            decreases self.data.len() - i,
        {
            raw.push(self.data[i]);
            i += 1;
        }
        proof {
            assert(self.data@.subrange(0, i as int) == self.data@);
            lemma_encoding_decodes(
                self.program_counter,
                self.execution_mode,
                self.execution_privilege,
                self.loop_count,
                self.data@,
            );
        }
        raw
    }
}

/// Decoding undoes encoding: the bytes written for any fields are a
/// well-formed record, and every field read back from them is the field that
/// was written.
pub proof fn lemma_encoding_decodes(
    program_counter: u64,
    execution_mode: ExecutionMode,
    execution_privilege: ExecutionPrivilege,
    loop_count: u64,
    data: Seq<u8>,
)
    ensures
        ({
            let raw = record_bytes(
                program_counter,
                execution_mode,
                execution_privilege,
                loop_count,
                data,
            );
            &&& raw.len() == HEADER_LEN + data.len()
            &&& well_formed_record(raw)
            &&& spec_u64_from_le_bytes(raw.subrange(0, 8)) == program_counter
            &&& raw[8] == execution_mode.code_of()
            &&& raw[9] == execution_privilege.code_of()
            &&& spec_u64_from_le_bytes(raw.subrange(10, 18)) == loop_count
            &&& raw.subrange(18, raw.len() as int) == data
        }),
{
    lemma_auto_spec_u64_to_from_le_bytes();
    let raw = record_bytes(program_counter, execution_mode, execution_privilege, loop_count, data);
    assert(raw.subrange(0, 8) == spec_u64_to_le_bytes(program_counter));
    assert(raw.subrange(10, 18) == spec_u64_to_le_bytes(loop_count));
    assert(raw.subrange(18, raw.len() as int) == data);
}

/// Encoding a record and decoding the result gives the record back: the
/// encoding is well formed, and whatever decodes from it agrees with the
/// written in every field.
pub proof fn lemma_round_trip(written: BasicBlock, decoded: BasicBlock)
    requires
        decoded.decodes(written.encoding()),
    ensures
        well_formed_record(written.encoding()),
        decoded.program_counter == written.program_counter,
        decoded.execution_mode == written.execution_mode,
        decoded.execution_privilege == written.execution_privilege,
        decoded.loop_count == written.loop_count,
        decoded.data@ == written.data@,
{
    lemma_encoding_decodes(
        written.program_counter,
        written.execution_mode,
        written.execution_privilege,
        written.loop_count,
        written.data@,
    );
}

/// A question to put to the list store about the key of a list.
#[derive(Debug, PartialEq, Eq, Clone, Copy, Structural)]
pub enum StoreQuery {
    /// Does the key exist?
    Exists,
    /// What type of value does the key hold?
    TypeOf,
    /// How many elements does the list hold?
    Length,
}

/// What the list store answered.
#[derive(Debug)]
pub enum StoreAnswer {
    /// Whether the key exists.
    Exists(bool),
    /// The name of the type of the value under the key.
    TypeOf(String),
    /// The number of elements in the list.
    Length(usize),
}

/// Where the opening of a list stands.
#[derive(Debug)]
pub enum Opening {
    /// The store has to be asked this next.
    Ask(StoreQuery),
    /// The list can be read with this cursor.
    Ready(CachedBasicBlockIter),
    /// The list cannot be read.
    Failed(Error),
}

/// The name the store gives to the type of a list.
pub open spec fn list_type_name() -> Seq<char> {
    "list"@
}

/// What follows from the store's latest answer while a list is opened;
/// `None` stands for no answer yet.
pub open spec fn opening_after(answer: Option<StoreAnswer>) -> Opening {
    match answer {
        None => Opening::Ask(StoreQuery::Exists),
        Some(StoreAnswer::Exists(false)) => Opening::Failed(Error::NotFound),
        Some(StoreAnswer::Exists(true)) => Opening::Ask(StoreQuery::TypeOf),
        Some(StoreAnswer::TypeOf(name)) => if name@ == list_type_name() {
            Opening::Ask(StoreQuery::Length)
        } else {
            Opening::Failed(Error::TypeMismatch)
        },
        Some(StoreAnswer::Length(count)) => Opening::Ready(
            CachedBasicBlockIter { next_index: 0, count },
        ),
    }
}

/// The protocol by which a list of records is opened in the store.
#[derive(Debug)]
pub struct Cache {}

impl Cache {
    /// One step of opening a list. The caller starts with `None`, puts each
    /// question it is asked to the store and comes back with the answer,
    /// until the list is ready or has failed. A missing key fails with
    /// `NotFound`, a key that holds anything but a list with `TypeMismatch`;
    /// the length is asked only of a list.
    pub fn basic_blocks(answer: Option<StoreAnswer>) -> (next: Opening)
        ensures
            next == opening_after(answer),
    {
        match answer {
            None => Opening::Ask(StoreQuery::Exists),
            Some(StoreAnswer::Exists(exists)) => {
                if exists {
                    Opening::Ask(StoreQuery::TypeOf)
                } else {
                    Opening::Failed(Error::NotFound)
                }
            },
            Some(StoreAnswer::TypeOf(name)) => {
                if same_text(name.as_str(), "list") {
                    Opening::Ask(StoreQuery::Length)
                } else {
                    Opening::Failed(Error::TypeMismatch)
                }
            },
            Some(StoreAnswer::Length(count)) => Opening::Ready(CachedBasicBlockIter::new(count)),
        }
    }
}

/// A cursor over the indices of a list, in ascending order.
#[derive(Debug)]
pub struct CachedBasicBlockIter {
    /// The index to read next.
    pub next_index: usize,
    /// The number of elements the list held when it was opened.
    pub count: usize,
}

impl CachedBasicBlockIter {
    /// A cursor at the start of a list of `count` elements.
    pub fn new(count: usize) -> (cursor: CachedBasicBlockIter)
        ensures
            cursor == (CachedBasicBlockIter { next_index: 0, count }),
    {
        CachedBasicBlockIter { next_index: 0, count }
    }

    /// The index to read next, or `None` once every element has been handed
    /// out. Indices come in ascending order, each once.
    pub fn next(&mut self) -> (index: Option<usize>)
        ensures
            final(self).count == old(self).count,
            old(self).next_index < old(self).count ==> index == Some(old(self).next_index)
                && final(self).next_index == old(self).next_index + 1,
            old(self).next_index >= old(self).count ==> index is None && final(self).next_index
                == old(self).next_index,
    {
        if self.next_index >= self.count {
            None
        } else {
            let index = self.next_index;
            self.next_index = index + 1;
            Some(index)
        }
    }

    /// The record in the store's reply to an indexed read. A reply without
    /// bytes, for an index out of range or a failed call, is a `ReadFailure`;
    /// bytes are decoded as a record.
    pub fn record(reply: Option<Vec<u8>>) -> (parsed: Result<BasicBlock, Error>)
        ensures
            reply is None ==> parsed == Err::<BasicBlock, Error>(Error::ReadFailure),
            reply matches Some(raw) ==> {
                &&& well_formed_record(raw@) ==> parsed is Ok && parsed->Ok_0.decodes(raw@)
                &&& !well_formed_record(raw@) ==> parsed == Err::<BasicBlock, Error>(
                    Error::MalformedRecord,
                )
            },
    {
        match reply {
            None => Err(Error::ReadFailure),
            Some(raw) => BasicBlock::decode(raw.as_slice()),
        }
    }
}

} // verus!
