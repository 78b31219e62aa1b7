use kanaya_hook::code_space::{CodeSpace, ThreadSnapshot};
use kanaya_hook::decoder::{length_of_instruction_at, Insn, Reloc};
use kanaya_hook::engine::{HookEngine, HookHandle, HookState};
use kanaya_hook::error::HookError;
use kanaya_hook::pool::{probe_address, SlotPool, TrampolineSlot, PAGE_SIZE};
use kanaya_hook::prologue::measure_prologue;
use kanaya_hook::trampoline::build_trampoline;

const BASE: u64 = 0x1000_0000;
const TARGET_A: u64 = BASE;
const TARGET_B: u64 = BASE + 0x100;
const PAGE: u64 = BASE + 0x2000;
const REPLACEMENT: u64 = 0x7ff6_1234_5678;

/// `mov [rsp+8], rbx; push rdi; sub rsp, 0x20; ret`
const PROLOGUE_A: [u8; 10] = [0x48, 0x89, 0x5c, 0x24, 0x08, 0x57, 0x48, 0x83, 0xec, 0x20];

/// `je +0x10; mov [rsp+8], rbx; ret`
const PROLOGUE_B: [u8; 8] = [0x74, 0x10, 0x48, 0x89, 0x5c, 0x24, 0x08, 0xc3];

fn code_space() -> CodeSpace {
    let mut bytes = vec![0xccu8; 0x3000];
    bytes[0..PROLOGUE_A.len()].copy_from_slice(&PROLOGUE_A);
    bytes[PROLOGUE_A.len()] = 0xc3;
    bytes[0x100..0x100 + PROLOGUE_B.len()].copy_from_slice(&PROLOGUE_B);
    CodeSpace::new(BASE, bytes).unwrap()
}

fn engine_with_page() -> HookEngine {
    let mut e = HookEngine::new();
    e.pool.add_pool_page(PAGE).unwrap();
    e
}

fn at(m: &CodeSpace, addr: u64, len: usize) -> Vec<u8> {
    let o = (addr - m.base) as usize;
    m.bytes[o..o + len].to_vec()
}

fn frozen(ips: &[u64]) -> Vec<ThreadSnapshot> {
    ips.iter().enumerate().map(|(i, &ip)| ThreadSnapshot { id: i as u64, ip, suspended: true }).collect()
}

#[test]
fn decodes_common_prologue_forms() {
    let cases: Vec<(Vec<u8>, usize, Reloc, bool)> = vec![
        (vec![0x48, 0x89, 0x5c, 0x24, 0x08], 5, Reloc::Plain, false),
        (vec![0x55], 1, Reloc::Plain, false),
        (vec![0x48, 0x8b, 0xec], 3, Reloc::Plain, false),
        (vec![0x48, 0x83, 0xec, 0x28], 4, Reloc::Plain, false),
        (vec![0x48, 0x81, 0xec, 0x00, 0x01, 0x00, 0x00], 7, Reloc::Plain, false),
        (vec![0x48, 0x8b, 0x05, 0x10, 0x00, 0x00, 0x00], 7, Reloc::RipRelative { disp_at: 3 }, false),
        (vec![0xe8, 0x00, 0x10, 0x00, 0x00], 5, Reloc::Near { disp_at: 1 }, false),
        (vec![0xe9, 0x00, 0x10, 0x00, 0x00], 5, Reloc::Near { disp_at: 1 }, true),
        (vec![0x0f, 0x84, 0x00, 0x10, 0x00, 0x00], 6, Reloc::Near { disp_at: 2 }, false),
        (vec![0xeb, 0x10], 2, Reloc::Short, true),
        (vec![0x75, 0xf0], 2, Reloc::Short, false),
        (vec![0xff, 0x25, 0x00, 0x00, 0x00, 0x00], 6, Reloc::RipRelative { disp_at: 2 }, true),
        (vec![0x0f, 0x1f, 0x44, 0x00, 0x00], 5, Reloc::Plain, false),
        (vec![0x66, 0x90], 2, Reloc::Plain, false),
        (vec![0x48, 0xb8, 1, 2, 3, 4, 5, 6, 7, 8], 10, Reloc::Plain, false),
        (vec![0xb8, 1, 2, 3, 4], 5, Reloc::Plain, false),
        (vec![0x8b, 0x04, 0x25, 0, 0, 0, 0], 7, Reloc::Plain, false),
        (vec![0xc3], 1, Reloc::Plain, true),
    ];
    for (bytes, len, reloc, ends_flow) in cases {
        assert_eq!(length_of_instruction_at(&bytes, 0), Ok(Insn { len, reloc, ends_flow }), "{:02x?}", bytes);
    }
}

#[test]
fn decoder_fails_closed() {
    // hlt, an opcode outside the supported set
    assert_eq!(length_of_instruction_at(&[0xf4], 0), Err(HookError::UnsupportedInstruction));
    // an instruction cut off by the end of the bytes
    assert_eq!(length_of_instruction_at(&[0x48, 0x89, 0x5c, 0x24], 0), Err(HookError::UnsupportedInstruction));
    assert_eq!(length_of_instruction_at(&[], 0), Err(HookError::UnsupportedInstruction));
    // a prefixed relative call
    assert_eq!(length_of_instruction_at(&[0x66, 0xe8, 0, 0], 0), Err(HookError::UnsupportedInstruction));
}

#[test]
fn prologue_covers_jump_on_a_boundary() {
    let v = measure_prologue(&PROLOGUE_A).unwrap();
    assert_eq!(v.iter().map(|i| i.len).collect::<Vec<_>>(), vec![5]);
    let code = [0x55, 0x48, 0x8b, 0xec, 0x48, 0x83, 0xec, 0x20, 0xc3];
    let v = measure_prologue(&code).unwrap();
    // 1 + 3 = 4 is short of the jump; the next instruction takes it to 8
    assert_eq!(v.iter().map(|i| i.len).collect::<Vec<_>>(), vec![1, 3, 4]);
    // a function that returns before the jump fits
    assert_eq!(measure_prologue(&[0x55, 0xc3, 0x90, 0x90, 0x90]), Err(HookError::UnsupportedInstruction));
}

#[test]
fn trampoline_relocates_a_short_branch() {
    let slot = PAGE;
    let tr = build_trampoline(&PROLOGUE_B, TARGET_B, slot, REPLACEMENT).unwrap();
    assert_eq!(tr.original, PROLOGUE_B[..7].to_vec());
    // je rel8 becomes je rel32 aimed at the same place
    let dest = TARGET_B as i64 + 2 + 0x10;
    let d = (dest - (slot as i64 + 6)) as i32;
    let mut expected = vec![0x0f, 0x84];
    expected.extend_from_slice(&d.to_le_bytes());
    expected.extend_from_slice(&PROLOGUE_B[2..7]);
    let back = (TARGET_B as i64 + 7 - (slot as i64 + 11 + 5)) as i32;
    expected.push(0xe9);
    expected.extend_from_slice(&back.to_le_bytes());
    expected.extend_from_slice(&[0xff, 0x25, 0, 0, 0, 0]);
    expected.extend_from_slice(&REPLACEMENT.to_le_bytes());
    assert_eq!(tr.stub, expected);
    let redirect = (slot as i64 + 11 + 5 - (TARGET_B as i64 + 5)) as i32;
    let mut r = vec![0xe9];
    r.extend_from_slice(&redirect.to_le_bytes());
    assert_eq!(tr.redirect, r);
    assert_eq!(tr.ip_map, vec![(0, 0), (2, 6)]);
}

#[test]
fn trampoline_refuses_branch_into_the_prologue() {
    // nop; jne -2: the branch lands on its own first byte, inside the bytes
    // that the redirect overwrites
    let code = [0x90, 0x75, 0xfe, 0x48, 0x89, 0x5c, 0x24, 0x08];
    assert_eq!(build_trampoline(&code, TARGET_A, PAGE, REPLACEMENT).err(), Some(HookError::UnsupportedInstruction));
}

#[test]
fn trampoline_corrects_rip_relative_operand() {
    // mov rax, [rip+0x10]
    let code = [0x48, 0x8b, 0x05, 0x10, 0x00, 0x00, 0x00, 0xc3];
    let tr = build_trampoline(&code, TARGET_A, PAGE, REPLACEMENT).unwrap();
    let d = (0x10i64 + TARGET_A as i64 - PAGE as i64) as i32;
    let mut expected = vec![0x48, 0x8b, 0x05];
    expected.extend_from_slice(&d.to_le_bytes());
    assert_eq!(tr.stub[..7].to_vec(), expected);
}

#[test]
fn create_builds_stub_without_touching_target() {
    let mut m = code_space();
    let mut e = engine_with_page();
    let h = e.create(&mut m, TARGET_A, REPLACEMENT).unwrap();
    assert_eq!(h, HookHandle { index: 0 });
    assert_eq!(e.state(h), Ok(HookState::Created));
    assert_eq!(at(&m, TARGET_A, 10), PROLOGUE_A.to_vec());
    assert_eq!(e.original_entry_point(h), Ok(PAGE));
    assert_eq!(at(&m, PAGE, 5), PROLOGUE_A[..5].to_vec());
    assert_eq!(e.records[0].original_prologue_bytes, PROLOGUE_A[..5].to_vec());
    assert!(e.pool.slots[0].in_use);
}

#[test]
fn enable_installs_redirect_and_remove_restores() {
    let mut m = code_space();
    let before = at(&m, TARGET_A, 5);
    let mut e = engine_with_page();
    let mut threads = frozen(&[BASE + 0x500]);
    let h = e.create(&mut m, TARGET_A, REPLACEMENT).unwrap();
    e.enable(h, &mut m, &mut threads).unwrap();
    assert_eq!(e.state(h), Ok(HookState::Enabled));
    let relay = PAGE + 5 + 5;
    let mut redirect = vec![0xe9];
    redirect.extend_from_slice(&((relay as i64 - (TARGET_A as i64 + 5)) as i32).to_le_bytes());
    assert_eq!(at(&m, TARGET_A, 5), redirect);
    e.remove(h, &mut m, &mut threads).unwrap();
    assert_eq!(e.state(h), Ok(HookState::Removed));
    assert_eq!(at(&m, TARGET_A, 5), before);
    assert!(!e.pool.slots[0].in_use);
    assert_eq!(e.original_entry_point(h), Err(HookError::InvalidHandle));
    assert_eq!(e.enable(h, &mut m, &mut threads), Err(HookError::InvalidHandle));
}

#[test]
fn create_then_remove_keeps_bytes() {
    let mut m = code_space();
    let before = m.bytes.clone();
    let mut e = engine_with_page();
    let mut threads = frozen(&[]);
    let h = e.create(&mut m, TARGET_B, REPLACEMENT).unwrap();
    e.remove(h, &mut m, &mut threads).unwrap();
    assert_eq!(at(&m, TARGET_B, 7), before[0x100..0x107].to_vec());
}

#[test]
fn enable_and_disable_are_idempotent() {
    let mut m = code_space();
    let mut e = engine_with_page();
    let mut threads = frozen(&[]);
    let h = e.create(&mut m, TARGET_A, REPLACEMENT).unwrap();
    assert_eq!(e.enable(h, &mut m, &mut threads), Ok(()));
    let after_first = m.bytes.clone();
    assert_eq!(e.enable(h, &mut m, &mut threads), Ok(()));
    assert_eq!(e.state(h), Ok(HookState::Enabled));
    assert_eq!(m.bytes, after_first);
    assert_eq!(e.disable(h, &mut m, &mut threads), Ok(()));
    assert_eq!(e.state(h), Ok(HookState::Disabled));
    assert_eq!(at(&m, TARGET_A, 5), PROLOGUE_A[..5].to_vec());
    assert_eq!(e.disable(h, &mut m, &mut threads), Ok(()));
    assert_eq!(e.state(h), Ok(HookState::Disabled));
    assert_eq!(e.enable(h, &mut m, &mut threads), Ok(()));
    assert_eq!(m.bytes, after_first);
}

#[test]
fn hooking_twice_is_rejected() {
    let mut m = code_space();
    let mut e = engine_with_page();
    let mut threads = frozen(&[]);
    let h = e.create(&mut m, TARGET_A, REPLACEMENT).unwrap();
    e.enable(h, &mut m, &mut threads).unwrap();
    let bytes = m.bytes.clone();
    assert_eq!(e.create(&mut m, TARGET_A, REPLACEMENT + 16), Err(HookError::AlreadyHooked));
    assert_eq!(e.state(h), Ok(HookState::Enabled));
    assert_eq!(e.records.len(), 1);
    assert_eq!(m.bytes, bytes);
    // once removed, the target may be hooked again
    e.remove(h, &mut m, &mut threads).unwrap();
    assert_eq!(e.create(&mut m, TARGET_A, REPLACEMENT), Ok(HookHandle { index: 1 }));
}

#[test]
fn create_reports_each_failure() {
    let mut m = code_space();
    let mut e = HookEngine::new();
    assert_eq!(e.create(&mut m, TARGET_A, REPLACEMENT), Err(HookError::AllocationFailure));
    e.pool.add_pool_page(PAGE).unwrap();
    // a target of int3 padding
    assert_eq!(e.create(&mut m, BASE + 0x800, REPLACEMENT), Err(HookError::UnsupportedInstruction));
    // a target outside the code space
    assert_eq!(e.create(&mut m, BASE + 0x10_0000, REPLACEMENT), Err(HookError::UnsupportedInstruction));
    assert!(e.pool.slots.iter().all(|s| !s.in_use));
    // a slot outside the code space cannot hold the stub
    let mut far = HookEngine::new();
    far.pool.add_pool_page(BASE + 0x10_0000).unwrap();
    assert_eq!(far.create(&mut m, TARGET_A, REPLACEMENT), Err(HookError::PatchWriteFailure));
    assert!(far.pool.slots.iter().all(|s| !s.in_use));
}

#[test]
fn threads_inside_the_prologue_are_moved() {
    let mut m = code_space();
    let mut e = engine_with_page();
    let h = e.create(&mut m, TARGET_B, REPLACEMENT).unwrap();
    // one thread at the second instruction, one at the entry, one elsewhere
    let mut threads = frozen(&[TARGET_B + 2, TARGET_B, BASE + 0x900]);
    e.enable(h, &mut m, &mut threads).unwrap();
    assert_eq!(threads.iter().map(|t| t.ip).collect::<Vec<_>>(), vec![PAGE + 6, TARGET_B, BASE + 0x900]);
    // and back again when disabling
    e.disable(h, &mut m, &mut threads).unwrap();
    assert_eq!(threads.iter().map(|t| t.ip).collect::<Vec<_>>(), vec![TARGET_B + 2, TARGET_B, BASE + 0x900]);
}

#[test]
fn patching_refuses_unsafe_threads() {
    let mut m = code_space();
    let mut e = engine_with_page();
    let h = e.create(&mut m, TARGET_B, REPLACEMENT).unwrap();
    let bytes = m.bytes.clone();
    // inside the first instruction
    let mut threads = frozen(&[TARGET_B + 1]);
    assert_eq!(e.enable(h, &mut m, &mut threads), Err(HookError::ThreadSuspendFailure));
    assert_eq!(threads[0].ip, TARGET_B + 1);
    // a thread that could not be suspended
    let mut threads = vec![ThreadSnapshot { id: 7, ip: BASE + 0x900, suspended: false }];
    assert_eq!(e.enable(h, &mut m, &mut threads), Err(HookError::ThreadSuspendFailure));
    assert_eq!(e.state(h), Ok(HookState::Created));
    assert_eq!(m.bytes, bytes);
}

#[test]
fn failed_batch_leaves_first_target_unchanged() {
    let mut m = code_space();
    let bytes = m.bytes.clone();
    let mut e = HookEngine::new();
    // a pool with a single slot: the second target finds none
    e.pool = SlotPool { slots: vec![TrampolineSlot { base_address: PAGE, in_use: false, pool_page: PAGE }] };
    let mut threads = frozen(&[BASE + 0x900]);
    let r = e.install_batch(&mut m, &mut threads, &vec![(TARGET_A, REPLACEMENT), (TARGET_B, REPLACEMENT)]);
    assert_eq!(r, Err(HookError::AllocationFailure));
    assert_eq!(at(&m, TARGET_A, 10), PROLOGUE_A.to_vec());
    assert_eq!(m.bytes, bytes);
    assert!(e.records.is_empty());
    assert!(!e.pool.slots[0].in_use);
}

#[test]
fn batch_installs_every_hook() {
    let mut m = code_space();
    let mut e = engine_with_page();
    let mut threads = frozen(&[TARGET_B + 2]);
    let hs = e.install_batch(&mut m, &mut threads, &vec![(TARGET_A, REPLACEMENT), (TARGET_B, REPLACEMENT + 8)]).unwrap();
    assert_eq!(hs, vec![HookHandle { index: 0 }, HookHandle { index: 1 }]);
    assert_eq!(e.state(hs[0]), Ok(HookState::Enabled));
    assert_eq!(e.state(hs[1]), Ok(HookState::Enabled));
    assert_eq!(m.bytes[0], 0xe9);
    assert_eq!(m.bytes[0x100], 0xe9);
    assert_eq!(threads[0].ip, PAGE + 64 + 6);
}

#[test]
fn pool_pages_and_probes() {
    let mut p = SlotPool::new();
    assert_eq!(p.add_pool_page(PAGE + 1), Err(HookError::AllocationFailure));
    assert_eq!(p.add_pool_page(PAGE), Ok(()));
    assert_eq!(p.add_pool_page(PAGE), Err(HookError::AllocationFailure));
    assert_eq!(p.slots.len(), 64);
    assert_eq!(p.slots[63].base_address, PAGE + 63 * 64);
    assert_eq!(p.allocate_slot(TARGET_A), Some(0));
    assert_eq!(p.allocate_slot(TARGET_A), Some(1));
    p.release_slot(0);
    assert_eq!(p.allocate_slot(TARGET_A), Some(0));
    // out of reach of a target 4 GiB away
    assert_eq!(p.allocate_slot(TARGET_A + 0x1_0000_0000), None);
    assert_eq!(probe_address(0x1234_5678, 0), Some(0x1234_0000));
    assert_eq!(probe_address(0x1234_5678, 1), Some(0x1235_0000));
    assert_eq!(probe_address(0x1234_5678, 2), Some(0x1233_0000));
    assert_eq!(probe_address(0x1234_5678, 3), Some(0x1236_0000));
    assert_eq!(probe_address(0x8000, 2), None);
    assert_eq!(probe_address(0x1234_5678, 0x10000), None);
    assert_eq!(PAGE % PAGE_SIZE, 0);
}

#[test]
fn batch_refuses_a_running_thread() {
    let mut m = code_space();
    let bytes = m.bytes.clone();
    let mut e = engine_with_page();
    let mut threads = vec![ThreadSnapshot { id: 1, ip: BASE + 0x900, suspended: false }];
    let r = e.install_batch(&mut m, &mut threads, &vec![(TARGET_A, REPLACEMENT)]);
    assert_eq!(r, Err(HookError::ThreadSuspendFailure));
    assert_eq!(m.bytes, bytes);
    assert!(e.records.is_empty());
}

#[test]
fn failed_enable_in_batch_rolls_back() {
    let mut m = code_space();
    let bytes = m.bytes.clone();
    let mut e = engine_with_page();
    // the second target's prologue has a thread stopped inside an instruction
    let mut threads = frozen(&[TARGET_B + 1]);
    let r = e.install_batch(&mut m, &mut threads, &vec![(TARGET_A, REPLACEMENT), (TARGET_B, REPLACEMENT)]);
    assert_eq!(r, Err(HookError::ThreadSuspendFailure));
    assert_eq!(m.bytes, bytes);
    assert!(e.records.is_empty());
    assert!(e.pool.slots.iter().all(|s| !s.in_use));
    assert_eq!(threads[0].ip, TARGET_B + 1);
}
