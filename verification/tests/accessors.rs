use firmrebugger::memory::{Memory, Region, PERM_EXEC, PERM_NONE, PERM_READ, PERM_WRITE};
use firmrebugger::registers::RegisterFile;
use firmrebugger::session::{
    firmrebugger_mem_read, firmrebugger_mem_write, firmrebugger_reg_read, Cpu, STATUS_FAILED,
    STATUS_OK,
};

fn small_cpu() -> Cpu {
    let mut regs = RegisterFile::new();
    regs.define(String::from("r0"), 0x1234);
    regs.define(String::from("sp"), 0x2000_0400);
    regs.define(String::from("wide"), 0xdead_beef_0000_0002);
    let mut mem = Memory::new();
    mem.map_region(0x1000, PERM_READ | PERM_EXEC, vec![0x10, 0x11, 0x12, 0x13]);
    mem.map_region(0x1004, PERM_NONE, vec![0x20, 0x21]);
    mem.map_region(0x8000, PERM_READ | PERM_WRITE, vec![0; 16]);
    Cpu { handle: 7, regs, mem }
}

fn sixteen_bit_target() -> Cpu {
    let mut mem = Memory::new();
    mem.map_region(0, PERM_READ | PERM_WRITE | PERM_EXEC, vec![0xaa; 0x1_0000]);
    Cpu { handle: 1, regs: RegisterFile::new(), mem }
}

#[test]
fn reg_read_matches_register_file() {
    let mut cpu = small_cpu();
    assert_eq!(firmrebugger_reg_read(&cpu, b"r0"), 0x1234);
    assert_eq!(firmrebugger_reg_read(&cpu, b"sp"), 0x2000_0400);
    let slot = cpu.regs.get_reg("r0").unwrap();
    assert_eq!(cpu.regs.read_reg(slot), 0x1234);
    cpu.regs.regs[slot].value = 0x9999;
    assert_eq!(firmrebugger_reg_read(&cpu, b"r0"), 0x9999);
    assert_eq!(firmrebugger_reg_read(&cpu, b"sp"), 0x2000_0400);
}

#[test]
fn reg_read_keeps_low_32_bits() {
    let cpu = small_cpu();
    assert_eq!(firmrebugger_reg_read(&cpu, b"wide"), 2);
    let mut regs = RegisterFile::new();
    regs.define(String::from("x"), 0x1_ffff_fffe);
    let cpu = Cpu { handle: 0, regs, mem: Memory::new() };
    assert_eq!(firmrebugger_reg_read(&cpu, b"x"), 0xffff_fffe);
}

#[test]
fn get_reg_finds_first_of_a_name() {
    let mut regs = RegisterFile::new();
    regs.define(String::from("a"), 1);
    regs.define(String::from("b"), 2);
    regs.define(String::from("a"), 3);
    assert_eq!(regs.get_reg("a"), Some(0));
    assert_eq!(regs.get_reg("b"), Some(1));
    assert_eq!(regs.read_reg(2), 3);
}

#[test]
fn get_reg_unknown_name() {
    let cpu = small_cpu();
    assert_eq!(cpu.regs.get_reg("r1"), None);
    assert_eq!(cpu.regs.get_reg(""), None);
    assert_eq!(cpu.regs.get_reg("R0"), None);
    assert_eq!(RegisterFile::new().get_reg("r0"), None);
}

#[test]
fn mem_read_copies_mapped_bytes() {
    let cpu = small_cpu();
    let mut buf = vec![0u8; 3];
    assert_eq!(firmrebugger_mem_read(&cpu, 0x1001, &mut buf), STATUS_OK);
    assert_eq!(buf, vec![0x11, 0x12, 0x13]);
}

#[test]
fn mem_read_crosses_adjacent_regions() {
    let cpu = small_cpu();
    let mut buf = vec![0u8; 6];
    assert_eq!(firmrebugger_mem_read(&cpu, 0x1000, &mut buf), 0);
    assert_eq!(buf, vec![0x10, 0x11, 0x12, 0x13, 0x20, 0x21]);
}

#[test]
fn mem_read_past_the_end_fails() {
    let cpu = small_cpu();
    let mut buf = vec![0u8; 7];
    assert_eq!(firmrebugger_mem_read(&cpu, 0x1000, &mut buf), STATUS_FAILED);
    assert_eq!(buf.len(), 7);
    let mut one = vec![0u8; 1];
    assert_eq!(firmrebugger_mem_read(&cpu, 0x0fff, &mut one), 1);
    assert_eq!(firmrebugger_mem_read(&cpu, 0x1006, &mut one), 1);
    assert_eq!(firmrebugger_mem_read(&cpu, 0x1005, &mut one), 0);
    assert_eq!(one, vec![0x21]);
}

#[test]
fn mem_read_ignores_permissions() {
    let cpu = small_cpu();
    let mut buf = vec![0u8; 2];
    assert!(!cpu.mem.read_bytes(0x1004, &mut buf, PERM_READ));
    assert!(cpu.mem.read_bytes(0x1004, &mut buf, PERM_NONE));
    let mut buf = vec![0u8; 2];
    assert_eq!(firmrebugger_mem_read(&cpu, 0x1004, &mut buf), STATUS_OK);
    assert_eq!(buf, vec![0x20, 0x21]);
}

#[test]
fn mem_write_ignores_permissions() {
    let mut cpu = small_cpu();
    assert!(!cpu.mem.write_bytes(0x1000, &[1, 2], PERM_WRITE));
    assert_eq!(cpu.mem.regions[0].data, vec![0x10, 0x11, 0x12, 0x13]);
    assert_eq!(firmrebugger_mem_write(&mut cpu, 0x1000, &[1, 2]), STATUS_OK);
    assert_eq!(cpu.mem.regions[0].data, vec![1, 2, 0x12, 0x13]);
    assert_eq!(cpu.mem.regions[0].perm, PERM_READ | PERM_EXEC);
}

#[test]
fn mem_write_changes_only_the_range() {
    let mut cpu = small_cpu();
    assert_eq!(firmrebugger_mem_write(&mut cpu, 0x1003, &[0xa0, 0xa1, 0xa2]), 0);
    assert_eq!(cpu.mem.regions[0].data, vec![0x10, 0x11, 0x12, 0xa0]);
    assert_eq!(cpu.mem.regions[1].data, vec![0xa1, 0xa2]);
    assert_eq!(cpu.mem.regions[2].data, vec![0; 16]);
    assert_eq!(cpu.mem.regions.len(), 3);
    assert_eq!(cpu.mem.regions[1].base, 0x1004);
    assert_eq!(firmrebugger_reg_read(&cpu, b"r0"), 0x1234);
    assert_eq!(cpu.handle, 7);
    let mut buf = vec![0u8; 3];
    assert_eq!(firmrebugger_mem_read(&cpu, 0x1003, &mut buf), 0);
    assert_eq!(buf, vec![0xa0, 0xa1, 0xa2]);
}

#[test]
fn mem_write_that_fails_changes_nothing() {
    let mut cpu = small_cpu();
    assert_eq!(firmrebugger_mem_write(&mut cpu, 0x1004, &[1, 2, 3]), STATUS_FAILED);
    assert_eq!(cpu.mem.regions[1].data, vec![0x20, 0x21]);
    assert_eq!(firmrebugger_mem_write(&mut cpu, 0x20_0000, &[1]), 1);
    assert_eq!(cpu.mem.regions[0].data, vec![0x10, 0x11, 0x12, 0x13]);
    assert_eq!(cpu.mem.regions[2].data, vec![0; 16]);
}

#[test]
fn read_then_write_back_is_a_round_trip() {
    let mut cpu = small_cpu();
    let mut first = vec![0u8; 6];
    assert_eq!(firmrebugger_mem_read(&cpu, 0x1000, &mut first), 0);
    assert_eq!(firmrebugger_mem_write(&mut cpu, 0x1000, &first), 0);
    let mut second = vec![0xffu8; 6];
    assert_eq!(firmrebugger_mem_read(&cpu, 0x1000, &mut second), 0);
    assert_eq!(second, first);
    assert_eq!(second, vec![0x10, 0x11, 0x12, 0x13, 0x20, 0x21]);
    assert_eq!(cpu.mem.regions[0].data, vec![0x10, 0x11, 0x12, 0x13]);
    assert_eq!(cpu.mem.regions[1].data, vec![0x20, 0x21]);
}

#[test]
fn unmapped_address_on_16_bit_target() {
    let mut cpu = sixteen_bit_target();
    let mut buf = vec![0u8; 4];
    let status = firmrebugger_mem_read(&cpu, 0xFFFF_FFFF, &mut buf);
    assert_ne!(status, 0);
    assert_eq!(status, STATUS_FAILED);
    let status = firmrebugger_mem_write(&mut cpu, 0xFFFF_FFFF, &[1, 2, 3, 4]);
    assert_ne!(status, 0);
    assert_eq!(status, STATUS_FAILED);
    assert_eq!(firmrebugger_mem_read(&cpu, 0xFFFC, &mut buf), STATUS_OK);
    assert_eq!(buf, vec![0xaa; 4]);
    assert_eq!(firmrebugger_mem_read(&cpu, 0xFFFD, &mut buf), STATUS_FAILED);
}

#[test]
fn range_that_runs_off_the_address_space() {
    let mut mem = Memory::new();
    mem.map_region(u64::MAX - 1, PERM_READ, vec![5, 6]);
    let mut cpu = Cpu { handle: 0, regs: RegisterFile::new(), mem };
    let mut two = vec![0u8; 2];
    assert_eq!(firmrebugger_mem_read(&cpu, u64::MAX - 1, &mut two), STATUS_OK);
    assert_eq!(two, vec![5, 6]);
    let mut three = vec![0u8; 3];
    assert_eq!(firmrebugger_mem_read(&cpu, u64::MAX - 1, &mut three), STATUS_FAILED);
    assert_eq!(firmrebugger_mem_write(&mut cpu, u64::MAX, &[9, 9]), STATUS_FAILED);
    assert_eq!(firmrebugger_mem_write(&mut cpu, u64::MAX, &[9]), STATUS_OK);
    assert_eq!(cpu.mem.regions[0].data, vec![5, 9]);
}

#[test]
fn empty_range_always_succeeds() {
    let mut cpu = small_cpu();
    let mut none: Vec<u8> = Vec::new();
    assert_eq!(firmrebugger_mem_read(&cpu, 0x5555, &mut none), STATUS_OK);
    assert_eq!(firmrebugger_mem_write(&mut cpu, 0x5555, &[]), STATUS_OK);
}

#[test]
fn first_mapped_region_owns_shared_addresses() {
    let mut mem = Memory::new();
    mem.map_region(0x100, PERM_READ, vec![1, 1, 1, 1]);
    mem.map_region(0x102, PERM_READ, vec![2, 2, 2, 2]);
    assert_eq!(mem.locate(0x101), Some((0, 1)));
    assert_eq!(mem.locate(0x103), Some((0, 3)));
    assert_eq!(mem.locate(0x104), Some((1, 2)));
    assert_eq!(mem.locate(0x106), None);
    assert_eq!(mem.load(0x103), 1);
    assert_eq!(mem.load(0x105), 2);
    mem.store(0x103, 7);
    mem.store(0x104, 8);
    assert_eq!(mem.regions[0].data, vec![1, 1, 1, 7]);
    assert_eq!(mem.regions[1].data, vec![2, 2, 8, 2]);
    let mut buf = vec![0u8; 6];
    assert!(mem.read_bytes(0x100, &mut buf, PERM_READ));
    assert_eq!(buf, vec![1, 1, 1, 7, 8, 2]);
}

#[test]
fn check_range_asks_for_every_bit() {
    let mem = Memory { regions: vec![Region { base: 0x10, perm: PERM_READ | PERM_WRITE, data: vec![0; 4] }] };
    assert!(mem.check_range(0x10, 4, PERM_NONE));
    assert!(mem.check_range(0x10, 4, PERM_READ));
    assert!(mem.check_range(0x10, 4, PERM_READ | PERM_WRITE));
    assert!(!mem.check_range(0x10, 4, PERM_READ | PERM_EXEC));
    assert!(!mem.check_range(0x10, 5, PERM_NONE));
    assert!(!mem.check_range(0x0f, 1, PERM_NONE));
}

#[test]
fn get_reg_utf8_resolves_encoded_names() {
    let mut regs = RegisterFile::new();
    regs.define(String::from("r0"), 1);
    regs.define(String::from("\u{e9}tat"), 0x77);
    assert_eq!(regs.get_reg_utf8(b"r0"), Some(0));
    assert_eq!(regs.get_reg_utf8(&[0xc3, 0xa9, b't', b'a', b't']), Some(1));
    assert_eq!(regs.get_reg_utf8(b"r1"), None);
    assert_eq!(regs.get_reg_utf8(b"r0\0"), None);
    let cpu = Cpu { handle: 0, regs, mem: Memory::new() };
    assert_eq!(firmrebugger_reg_read(&cpu, &[0xc3, 0xa9, b't', b'a', b't']), 0x77);
}

#[test]
fn get_reg_utf8_rejects_malformed_names() {
    let mut regs = RegisterFile::new();
    regs.define(String::from("r0"), 1);
    regs.define(String::from(""), 2);
    assert_eq!(regs.get_reg_utf8(&[0xff, 0xfe]), None);
    assert_eq!(regs.get_reg_utf8(&[b'r', b'0', 0x80]), None);
    assert_eq!(regs.get_reg_utf8(&[0xc3]), None);
    assert_eq!(regs.get_reg_utf8(&[0xed, 0xa0, 0x80]), None);
    assert_eq!(regs.get_reg_utf8(&[]), Some(1));
}
