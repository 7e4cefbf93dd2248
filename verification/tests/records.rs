use bbclient::args::{ExecutionMode, ExecutionPrivilege, Opt, ShowingClientOpt};
use bbclient::cache::{
    BasicBlock, Cache, CachedBasicBlockIter, Opening, StoreAnswer, StoreQuery, HEADER_LEN,
};
use bbclient::error::Error;

fn record(pc: u64, mode: u8, privilege: u8, loops: u64, data: &[u8]) -> Vec<u8> {
    let mut raw = Vec::new();
    raw.extend_from_slice(&pc.to_le_bytes());
    raw.push(mode);
    raw.push(privilege);
    raw.extend_from_slice(&loops.to_le_bytes());
    raw.extend_from_slice(data);
    raw
}

#[test]
fn header_is_eighteen_bytes() {
    assert_eq!(HEADER_LEN, 18);
}

#[test]
fn decode_reads_every_field() {
    let raw = vec![
        0x00, 0x10, 0, 0, 0, 0, 0, 0, 1, 3, 5, 0, 0, 0, 0, 0, 0, 0, 0x90,
    ];
    let block = BasicBlock::decode(&raw).unwrap();
    assert_eq!(block.program_counter, 0x1000);
    assert_eq!(block.execution_mode, ExecutionMode::Bit64);
    assert_eq!(block.execution_privilege, ExecutionPrivilege::User);
    assert_eq!(block.loop_count, 5);
    assert_eq!(block.data, vec![0x90]);
}

#[test]
fn decode_reads_numbers_little_endian() {
    let raw = vec![
        0x08, 0x07, 0x06, 0x05, 0x04, 0x03, 0x02, 0x01, 0, 0, 0xff, 0xee, 0xdd, 0xcc, 0xbb, 0xaa,
        0x99, 0x88, 1, 2, 3,
    ];
    let block = BasicBlock::decode(&raw).unwrap();
    assert_eq!(block.program_counter, 0x0102030405060708);
    assert_eq!(block.loop_count, 0x8899aabbccddeeff);
    assert_eq!(block.execution_mode, ExecutionMode::Compat);
    assert_eq!(block.execution_privilege, ExecutionPrivilege::Kernel);
    assert_eq!(block.data, vec![1, 2, 3]);
}

#[test]
fn decode_takes_a_bare_header() {
    let raw = record(7, 0, 0, 9, &[]);
    assert_eq!(raw.len(), 18);
    let block = BasicBlock::decode(&raw).unwrap();
    assert_eq!(block.program_counter, 7);
    assert_eq!(block.loop_count, 9);
    assert!(block.data.is_empty());
}

#[test]
fn decode_rejects_short_records() {
    for len in 0..18 {
        let raw = vec![0u8; len];
        assert_eq!(BasicBlock::decode(&raw).err(), Some(Error::MalformedRecord));
    }
}

#[test]
fn decode_rejects_unknown_mode() {
    for mode in 2..=255u8 {
        let raw = record(1, mode, 0, 1, &[0x90]);
        assert_eq!(BasicBlock::decode(&raw).err(), Some(Error::MalformedRecord));
    }
}

#[test]
fn decode_rejects_unknown_privilege() {
    for privilege in 0..=255u8 {
        let raw = record(1, 1, privilege, 1, &[0x90]);
        let decoded = BasicBlock::decode(&raw);
        if privilege == 0 || privilege == 3 {
            assert!(decoded.is_ok());
        } else {
            assert_eq!(decoded.err(), Some(Error::MalformedRecord));
        }
    }
}

#[test]
fn encode_writes_the_stored_layout() {
    let block = BasicBlock {
        program_counter: 0x1000,
        execution_mode: ExecutionMode::Bit64,
        execution_privilege: ExecutionPrivilege::User,
        loop_count: 5,
        data: vec![0x90],
    };
    assert_eq!(
        block.encode(),
        vec![0x00, 0x10, 0, 0, 0, 0, 0, 0, 1, 3, 5, 0, 0, 0, 0, 0, 0, 0, 0x90]
    );
}

#[test]
fn encode_then_decode_gives_the_record_back() {
    let modes = [ExecutionMode::Compat, ExecutionMode::Bit64];
    let privileges = [ExecutionPrivilege::Kernel, ExecutionPrivilege::User];
    let counters = [0u64, 1, 0x1000, 0xdead_beef_0bad_f00d, u64::MAX];
    for mode in modes {
        for privilege in privileges {
            for pc in counters {
                for loops in counters {
                    let block = BasicBlock {
                        program_counter: pc,
                        execution_mode: mode,
                        execution_privilege: privilege,
                        loop_count: loops,
                        data: vec![0x48, 0x89, 0xe5, 0xc3],
                    };
                    let decoded = BasicBlock::decode(&block.encode()).unwrap();
                    assert_eq!(decoded.program_counter, pc);
                    assert_eq!(decoded.execution_mode, mode);
                    assert_eq!(decoded.execution_privilege, privilege);
                    assert_eq!(decoded.loop_count, loops);
                    assert_eq!(decoded.data, block.data);
                }
            }
        }
    }
}

#[test]
fn opening_asks_existence_first() {
    assert!(matches!(Cache::basic_blocks(None), Opening::Ask(StoreQuery::Exists)));
}

#[test]
fn opening_fails_on_a_missing_key() {
    assert!(matches!(
        Cache::basic_blocks(Some(StoreAnswer::Exists(false))),
        Opening::Failed(Error::NotFound)
    ));
}

#[test]
fn opening_asks_the_type_of_an_existing_key() {
    assert!(matches!(
        Cache::basic_blocks(Some(StoreAnswer::Exists(true))),
        Opening::Ask(StoreQuery::TypeOf)
    ));
}

#[test]
fn opening_fails_on_a_key_that_is_no_list() {
    for name in ["string", "set", "hash", "none", "List", "list ", ""] {
        assert!(matches!(
            Cache::basic_blocks(Some(StoreAnswer::TypeOf(name.to_string()))),
            Opening::Failed(Error::TypeMismatch)
        ));
    }
}

#[test]
fn opening_asks_the_length_of_a_list() {
    assert!(matches!(
        Cache::basic_blocks(Some(StoreAnswer::TypeOf("list".to_string()))),
        Opening::Ask(StoreQuery::Length)
    ));
}

#[test]
fn opening_is_ready_once_the_length_is_known() {
    match Cache::basic_blocks(Some(StoreAnswer::Length(3))) {
        Opening::Ready(cursor) => {
            assert_eq!(cursor.next_index, 0);
            assert_eq!(cursor.count, 3);
        }
        other => panic!("not ready: {:?}", other),
    }
}

#[test]
fn cursor_hands_out_indices_in_ascending_order() {
    let mut cursor = CachedBasicBlockIter::new(3);
    assert_eq!(cursor.next(), Some(0));
    assert_eq!(cursor.next(), Some(1));
    assert_eq!(cursor.next(), Some(2));
    assert_eq!(cursor.next(), None);
    assert_eq!(cursor.next(), None);
    assert_eq!(cursor.count, 3);
    assert_eq!(cursor.next_index, 3);
}

#[test]
fn cursor_over_nothing_is_done_at_once() {
    let mut cursor = CachedBasicBlockIter::new(0);
    assert_eq!(cursor.next(), None);
}

#[test]
fn reply_without_bytes_is_a_read_failure() {
    assert_eq!(CachedBasicBlockIter::record(None).err(), Some(Error::ReadFailure));
}

#[test]
fn reply_with_bytes_is_decoded() {
    let block = CachedBasicBlockIter::record(Some(record(0x2000, 0, 3, 2, &[0xc3]))).unwrap();
    assert_eq!(block.program_counter, 0x2000);
    assert_eq!(block.execution_mode, ExecutionMode::Compat);
    assert_eq!(block.execution_privilege, ExecutionPrivilege::User);
    assert_eq!(block.loop_count, 2);
    assert_eq!(block.data, vec![0xc3]);
}

#[test]
fn reply_with_bad_bytes_is_malformed() {
    assert_eq!(
        CachedBasicBlockIter::record(Some(vec![1, 2, 3])).err(),
        Some(Error::MalformedRecord)
    );
}

#[test]
fn modes_have_codes_and_names() {
    assert_eq!(ExecutionMode::Compat.code(), 0);
    assert_eq!(ExecutionMode::Bit64.code(), 1);
    assert_eq!(ExecutionMode::Compat.as_static(), "compat");
    assert_eq!(ExecutionMode::Bit64.as_static(), "64-bit");
    assert_eq!(ExecutionMode::from_code(0), Some(ExecutionMode::Compat));
    assert_eq!(ExecutionMode::from_code(1), Some(ExecutionMode::Bit64));
    assert_eq!(ExecutionMode::from_code(2), None);
    assert_eq!(ExecutionMode::from_str("compat"), Some(ExecutionMode::Compat));
    assert_eq!(ExecutionMode::from_str("64-bit"), Some(ExecutionMode::Bit64));
    assert_eq!(ExecutionMode::from_str("Compat"), None);
    assert_eq!(ExecutionMode::from_str("64bit"), None);
    assert_eq!(ExecutionMode::from_str(""), None);
}

#[test]
fn privileges_have_codes_and_names() {
    assert_eq!(ExecutionPrivilege::Kernel.code(), 0);
    assert_eq!(ExecutionPrivilege::User.code(), 3);
    assert_eq!(ExecutionPrivilege::User.as_static(), "user");
    assert_eq!(ExecutionPrivilege::Kernel.as_static(), "kernel");
    assert_eq!(ExecutionPrivilege::from_code(0), Some(ExecutionPrivilege::Kernel));
    assert_eq!(ExecutionPrivilege::from_code(3), Some(ExecutionPrivilege::User));
    assert_eq!(ExecutionPrivilege::from_code(1), None);
    assert_eq!(ExecutionPrivilege::from_code(2), None);
    assert_eq!(ExecutionPrivilege::from_str("user"), Some(ExecutionPrivilege::User));
    assert_eq!(ExecutionPrivilege::from_str("kernel"), Some(ExecutionPrivilege::Kernel));
    assert_eq!(ExecutionPrivilege::from_str("root"), None);
}

#[test]
fn show_options_carry_over() {
    let opt = Opt::ShowOpt {
        instruction_pattern: Some("mov".to_string()),
        execution_mode: Some(ExecutionMode::Bit64),
        execution_privilege: None,
        starting_index: 4,
    };
    let shown = ShowingClientOpt::from(opt).unwrap();
    assert_eq!(shown.instruction_pattern, Some("mov".to_string()));
    assert_eq!(shown.execution_mode, Some(ExecutionMode::Bit64));
    assert_eq!(shown.execution_privilege, None);
    assert_eq!(shown.starting_index, 4);
}

#[test]
fn cache_options_show_nothing() {
    assert!(ShowingClientOpt::from(Opt::CacheOpt {}).is_none());
}

#[test]
fn every_error_has_its_message() {
    assert_eq!(Error::StoreUnavailable.message(), "Cache error: store unavailable");
    assert_eq!(
        Error::TypeMismatch.message(),
        "Application error: cached basic block data is not a list"
    );
    assert_eq!(
        Error::NotFound.message(),
        "Application error: cached basic block data does not exist"
    );
    assert_eq!(Error::ReadFailure.message(), "Cache error: read failure");
    assert_eq!(
        Error::MalformedRecord.message(),
        "Application error: malformed basic block record"
    );
    assert_eq!(
        Error::Disassembly.message(),
        "Disassembly error: instruction bytes rejected"
    );
}
