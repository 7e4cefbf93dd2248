use bbclient::args::ExecutionMode;
use bbclient::cache::BasicBlock;
use bbclient::disasm::{
    Disasm, DisasmBasicBlock, DisasmInst, Disassembly, LAYOUT_CACHE_LIMIT,
};
use bbclient::error::Error;
use bbclient::layout::{DecodedInst, LayoutBuilder};

/// A stand-in for the decoder: every byte 0x90 is a `nop`, 0xc3 a `ret`, and
/// 0x48 starts a three-byte `mov rbp, rsp`. Anything else is rejected.
fn decode(bytes: &[u8]) -> Option<DecodedInst> {
    match bytes.first() {
        Some(0x90) => Some(DecodedInst { length: 1, disasm: "nop".to_string() }),
        Some(0xc3) => Some(DecodedInst { length: 1, disasm: "ret".to_string() }),
        Some(0x48) if bytes.len() >= 3 => {
            Some(DecodedInst { length: 3, disasm: "mov rbp, rsp".to_string() })
        }
        _ => None,
    }
}

/// Disassembles as the program does, counting the decoder calls.
fn disassemble<'b>(
    disasm: &mut Disasm,
    data: &'b [u8],
    mode: ExecutionMode,
    base: Option<u64>,
    calls: &mut usize,
) -> Result<DisasmBasicBlock<'b>, Error> {
    match disasm.disasm(data, mode, base) {
        Disassembly::Cached(block) => Ok(block),
        Disassembly::Missing(mut builder) => {
            while let Some(offset) = builder.pending() {
                *calls += 1;
                builder.accept(decode(&data[offset..]))?;
            }
            disasm.insert(data, mode, base, builder)
        }
    }
}

fn block_of<'a>(parts: &[(u64, &'a [u8], &str)]) -> DisasmBasicBlock<'a> {
    DisasmBasicBlock {
        instructions: parts
            .iter()
            .map(|(address, data, text)| DisasmInst {
                address: *address,
                data,
                disasm: text.to_string(),
            })
            .collect(),
    }
}

#[test]
fn default_limit_is_sixteen_thousand_and_some() {
    assert_eq!(LAYOUT_CACHE_LIMIT, 16 * 1024);
}

#[test]
fn zero_limit_gives_no_disassembler() {
    assert!(Disasm::with_limit(0).is_none());
    assert!(Disasm::with_limit(1).is_some());
}

#[test]
fn single_nop_record_disassembles_to_one_instruction() {
    let raw = vec![
        0x00, 0x10, 0, 0, 0, 0, 0, 0, 1, 3, 5, 0, 0, 0, 0, 0, 0, 0, 0x90,
    ];
    let record = BasicBlock::decode(&raw).unwrap();
    let mut disasm = Disasm::from_args();
    let mut calls = 0;
    let block = disassemble(
        &mut disasm,
        &record.data,
        record.execution_mode,
        Some(record.program_counter),
        &mut calls,
    )
    .unwrap();
    assert_eq!(block.instructions.len(), 1);
    assert_eq!(block.instructions[0].address, 0x1000);
    assert_eq!(block.instructions[0].disasm, "nop");
    assert_eq!(block.instructions[0].data, &[0x90]);
}

#[test]
fn block_covers_its_bytes_in_order() {
    let data = [0x90, 0x48, 0x89, 0xe5, 0xc3];
    let mut disasm = Disasm::from_args();
    let mut calls = 0;
    let block =
        disassemble(&mut disasm, &data, ExecutionMode::Bit64, Some(0x4000), &mut calls).unwrap();
    assert_eq!(calls, 3);
    assert_eq!(block.instructions.len(), 3);
    assert_eq!(block.instructions[0].address, 0x4000);
    assert_eq!(block.instructions[0].data, &[0x90]);
    assert_eq!(block.instructions[0].disasm, "nop");
    assert_eq!(block.instructions[1].address, 0x4001);
    assert_eq!(block.instructions[1].data, &[0x48, 0x89, 0xe5]);
    assert_eq!(block.instructions[1].disasm, "mov rbp, rsp");
    assert_eq!(block.instructions[2].address, 0x4004);
    assert_eq!(block.instructions[2].data, &[0xc3]);
    assert_eq!(block.instructions[2].disasm, "ret");
}

#[test]
fn missing_base_address_counts_as_zero() {
    let data = [0x90, 0xc3];
    let mut disasm = Disasm::from_args();
    let mut calls = 0;
    let block = disassemble(&mut disasm, &data, ExecutionMode::Compat, None, &mut calls).unwrap();
    assert_eq!(block.instructions[0].address, 0);
    assert_eq!(block.instructions[1].address, 1);
}

#[test]
fn second_request_is_rebased_without_decoding() {
    let data = [0x90, 0x48, 0x89, 0xe5, 0xc3];
    let mut disasm = Disasm::from_args();
    let mut calls = 0;
    let first =
        disassemble(&mut disasm, &data, ExecutionMode::Bit64, Some(0x1000), &mut calls).unwrap();
    assert_eq!(calls, 3);
    let second =
        disassemble(&mut disasm, &data, ExecutionMode::Bit64, Some(0x7000), &mut calls).unwrap();
    assert_eq!(calls, 3);
    assert_eq!(first.instructions.len(), second.instructions.len());
    for (a, b) in first.instructions.iter().zip(second.instructions.iter()) {
        assert_eq!(b.address - a.address, 0x7000 - 0x1000);
        assert_eq!(a.data, b.data);
        assert_eq!(a.disasm, b.disasm);
    }
}

#[test]
fn two_equal_records_decode_once() {
    let first = vec![0x90, 0x90, 0xc3];
    let second = vec![0x90, 0x90, 0xc3];
    let mut disasm = Disasm::from_args();
    let mut calls = 0;
    let a = disassemble(&mut disasm, &first, ExecutionMode::Bit64, None, &mut calls).unwrap();
    let b = disassemble(&mut disasm, &second, ExecutionMode::Bit64, None, &mut calls).unwrap();
    assert_eq!(calls, 3);
    assert_eq!(a.instructions.len(), 3);
    assert_eq!(b.instructions.len(), 3);
    for (x, y) in a.instructions.iter().zip(b.instructions.iter()) {
        assert_eq!(x.address, y.address);
        assert_eq!(x.data, y.data);
        assert_eq!(x.disasm, y.disasm);
    }
}

#[test]
fn same_bytes_under_another_mode_are_decoded_again() {
    let data = [0x90, 0xc3];
    let mut disasm = Disasm::from_args();
    let mut calls = 0;
    disassemble(&mut disasm, &data, ExecutionMode::Bit64, None, &mut calls).unwrap();
    assert_eq!(calls, 2);
    disassemble(&mut disasm, &data, ExecutionMode::Compat, None, &mut calls).unwrap();
    assert_eq!(calls, 4);
}

#[test]
fn other_bytes_of_the_same_length_are_decoded_again() {
    let mut disasm = Disasm::from_args();
    let mut calls = 0;
    disassemble(&mut disasm, &[0x90, 0xc3], ExecutionMode::Bit64, None, &mut calls).unwrap();
    assert_eq!(calls, 2);
    let other =
        disassemble(&mut disasm, &[0xc3, 0x90], ExecutionMode::Bit64, None, &mut calls).unwrap();
    assert_eq!(calls, 4);
    assert_eq!(other.instructions[0].disasm, "ret");
    assert_eq!(other.instructions[1].disasm, "nop");
}

#[test]
fn full_cache_gives_up_the_least_recently_used_layout() {
    let a = [0x90];
    let b = [0xc3];
    let c = [0x90, 0x90];
    let mut disasm = Disasm::with_limit(2).unwrap();
    let mut calls = 0;
    disassemble(&mut disasm, &a, ExecutionMode::Bit64, None, &mut calls).unwrap();
    disassemble(&mut disasm, &b, ExecutionMode::Bit64, None, &mut calls).unwrap();
    assert_eq!(calls, 2);
    disassemble(&mut disasm, &c, ExecutionMode::Bit64, None, &mut calls).unwrap();
    assert_eq!(calls, 4);
    // `b` and `c` are kept.
    disassemble(&mut disasm, &b, ExecutionMode::Bit64, None, &mut calls).unwrap();
    disassemble(&mut disasm, &c, ExecutionMode::Bit64, None, &mut calls).unwrap();
    assert_eq!(calls, 4);
    // `a` was the least recently used and is gone.
    disassemble(&mut disasm, &a, ExecutionMode::Bit64, None, &mut calls).unwrap();
    assert_eq!(calls, 5);
}

#[test]
fn a_look_up_counts_as_a_use() {
    let a = [0x90];
    let b = [0xc3];
    let c = [0x90, 0x90];
    let mut disasm = Disasm::with_limit(2).unwrap();
    let mut calls = 0;
    disassemble(&mut disasm, &a, ExecutionMode::Bit64, None, &mut calls).unwrap();
    disassemble(&mut disasm, &b, ExecutionMode::Bit64, None, &mut calls).unwrap();
    disassemble(&mut disasm, &a, ExecutionMode::Bit64, None, &mut calls).unwrap();
    assert_eq!(calls, 2);
    disassemble(&mut disasm, &c, ExecutionMode::Bit64, None, &mut calls).unwrap();
    assert_eq!(calls, 4);
    // `a` was used after `b`, so `b` left.
    disassemble(&mut disasm, &a, ExecutionMode::Bit64, None, &mut calls).unwrap();
    assert_eq!(calls, 4);
    disassemble(&mut disasm, &b, ExecutionMode::Bit64, None, &mut calls).unwrap();
    assert_eq!(calls, 5);
}

#[test]
fn rejected_bytes_are_a_disassembly_error() {
    let data = [0x90, 0x0f, 0x90];
    let mut disasm = Disasm::from_args();
    let mut calls = 0;
    let outcome = disassemble(&mut disasm, &data, ExecutionMode::Bit64, None, &mut calls);
    assert_eq!(outcome.err(), Some(Error::Disassembly));
    assert_eq!(calls, 2);
    // Nothing was kept for the block.
    let again = disassemble(&mut disasm, &data, ExecutionMode::Bit64, None, &mut calls);
    assert_eq!(again.err(), Some(Error::Disassembly));
    assert_eq!(calls, 4);
}

#[test]
fn builder_asks_for_offsets_in_turn() {
    let mut builder = LayoutBuilder::new(4);
    assert_eq!(builder.byte_len(), 4);
    assert_eq!(builder.pending(), Some(0));
    assert_eq!(builder.accept(Some(DecodedInst { length: 1, disasm: "nop".to_string() })), Ok(()));
    assert_eq!(builder.pending(), Some(1));
    assert_eq!(
        builder.accept(Some(DecodedInst { length: 3, disasm: "mov rbp, rsp".to_string() })),
        Ok(())
    );
    assert_eq!(builder.pending(), None);
    let layout = builder.finish().unwrap();
    assert_eq!(layout.instruction_layouts.len(), 2);
    assert_eq!(layout.instruction_layouts[0].address, 0);
    assert_eq!(layout.instruction_layouts[0].end_offset, 1);
    assert_eq!(layout.instruction_layouts[0].disasm, "nop");
    assert_eq!(layout.instruction_layouts[1].address, 1);
    assert_eq!(layout.instruction_layouts[1].end_offset, 4);
    assert_eq!(layout.instruction_layouts[1].disasm, "mov rbp, rsp");
}

#[test]
fn builder_rejects_lengths_that_cannot_be() {
    let mut builder = LayoutBuilder::new(2);
    assert_eq!(
        builder.accept(Some(DecodedInst { length: 0, disasm: "nop".to_string() })),
        Err(Error::Disassembly)
    );
    assert_eq!(
        builder.accept(Some(DecodedInst { length: 3, disasm: "nop".to_string() })),
        Err(Error::Disassembly)
    );
    assert_eq!(builder.accept(None), Err(Error::Disassembly));
    assert_eq!(builder.pending(), Some(0));
    assert!(builder.finish().is_none());
}

#[test]
fn builder_for_no_bytes_is_complete() {
    let builder = LayoutBuilder::new(0);
    assert_eq!(builder.pending(), None);
    assert!(builder.finish().unwrap().instruction_layouts.is_empty());
}

#[test]
fn incomplete_builder_is_not_inserted() {
    let data = [0x90, 0x90];
    let mut disasm = Disasm::from_args();
    let mut builder = match disasm.disasm(&data, ExecutionMode::Bit64, None) {
        Disassembly::Missing(builder) => builder,
        Disassembly::Cached(_) => panic!("nothing was inserted yet"),
    };
    builder.accept(decode(&data)).unwrap();
    assert_eq!(
        disasm.insert(&data, ExecutionMode::Bit64, None, builder).err(),
        Some(Error::Disassembly)
    );
    assert!(matches!(
        disasm.disasm(&data, ExecutionMode::Bit64, None),
        Disassembly::Missing(_)
    ));
}

#[test]
fn builder_for_another_length_is_not_inserted() {
    let data = [0x90, 0x90];
    let mut disasm = Disasm::from_args();
    let mut builder = LayoutBuilder::new(1);
    builder.accept(decode(&data)).unwrap();
    assert_eq!(
        disasm.insert(&data, ExecutionMode::Bit64, None, builder).err(),
        Some(Error::Disassembly)
    );
}

#[test]
fn exact_address_is_found_among_the_instructions() {
    let bytes = [0x90u8, 0x48, 0x89, 0xe5, 0xc3];
    let block = block_of(&[
        (0x1000, &bytes[0..1], "nop"),
        (0x1001, &bytes[1..4], "mov rbp, rsp"),
        (0x1004, &bytes[4..5], "ret"),
    ]);
    assert!(block.contain_address_exact(0x1000));
    assert!(block.contain_address_exact(0x1001));
    assert!(block.contain_address_exact(0x1004));
    assert!(!block.contain_address_exact(0x1002));
    assert!(!block.contain_address_exact(0x0fff));
    assert!(!block.contain_address_exact(0x1005));
}

#[test]
fn address_range_runs_from_first_to_last_instruction() {
    let bytes = [0x90u8, 0x48, 0x89, 0xe5, 0xc3];
    let block = block_of(&[
        (0x1000, &bytes[0..1], "nop"),
        (0x1001, &bytes[1..4], "mov rbp, rsp"),
        (0x1004, &bytes[4..5], "ret"),
    ]);
    assert!(block.contain_address(0x1000));
    assert!(block.contain_address(0x1002));
    assert!(block.contain_address(0x1004));
    assert!(!block.contain_address(0x0fff));
    assert!(!block.contain_address(0x1005));
}

#[test]
fn empty_block_holds_no_address() {
    let block = block_of(&[]);
    assert!(!block.contain_address(0));
    assert!(!block.contain_address_exact(0));
    assert!(!block.contain_instruction_pattern(""));
    assert!(!block.contains_instruction_bytes(&[]));
}

#[test]
fn text_pattern_is_a_case_sensitive_substring() {
    let bytes = [0x90u8, 0x48, 0x89, 0xe5, 0xc3];
    let block = block_of(&[
        (0x1000, &bytes[0..1], "nop"),
        (0x1001, &bytes[1..4], "mov rbp, rsp"),
        (0x1004, &bytes[4..5], "ret"),
    ]);
    assert!(block.contain_instruction_pattern("mov"));
    assert!(block.contain_instruction_pattern("rbp, rsp"));
    assert!(block.contain_instruction_pattern("no"));
    assert!(block.contain_instruction_pattern("ret"));
    assert!(block.contain_instruction_pattern(""));
    assert!(!block.contain_instruction_pattern("MOV"));
    assert!(!block.contain_instruction_pattern("push"));
    assert!(!block.contain_instruction_pattern("nopret"));
}

#[test]
fn byte_run_is_looked_for_in_single_instructions() {
    let bytes = [0x90u8, 0x48, 0x89, 0xe5, 0xc3];
    let block = block_of(&[
        (0x1000, &bytes[0..1], "nop"),
        (0x1001, &bytes[1..4], "mov rbp, rsp"),
        (0x1004, &bytes[4..5], "ret"),
    ]);
    assert!(block.contains_instruction_bytes(&[0x90]));
    assert!(block.contains_instruction_bytes(&[0x48, 0x89, 0xe5]));
    assert!(block.contains_instruction_bytes(&[0x89, 0xe5]));
    assert!(block.contains_instruction_bytes(&[0x89]));
    assert!(block.contains_instruction_bytes(&[0xc3]));
    assert!(block.contains_instruction_bytes(&[]));
    assert!(!block.contains_instruction_bytes(&[0x90, 0x48]));
    assert!(!block.contains_instruction_bytes(&[0xe5, 0xc3]));
    assert!(!block.contains_instruction_bytes(&[0x48, 0xe5]));
    assert!(!block.contains_instruction_bytes(&[0xcc]));
    assert!(!block.contains_instruction_bytes(&[0x48, 0x89, 0xe5, 0xc3]));
}

#[test]
fn addresses_wrap_at_the_top_of_the_address_space() {
    let data = [0x90, 0xc3];
    let mut disasm = Disasm::from_args();
    let mut calls = 0;
    let block =
        disassemble(&mut disasm, &data, ExecutionMode::Bit64, Some(u64::MAX), &mut calls).unwrap();
    assert_eq!(block.instructions[0].address, u64::MAX);
    assert_eq!(block.instructions[1].address, 0);
}
