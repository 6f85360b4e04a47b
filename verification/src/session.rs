//! The bridge itself: the accessors that the debugger calls to inspect and
//! patch the emulated CPU, hook registration, and the table that a session
//! starts with.

use vstd::prelude::*;
use vstd::utf8::decode_utf8;
use crate::hooks::{Callback, Hook, HookContext, HookTable};
use crate::memory::{stored, Memory, PERM_NONE};
use crate::registers::RegisterFile;

verus! {

/// Status of a memory access that was made in full.
pub const STATUS_OK: u32 = 0;

/// Status of a memory access that was not made.
pub const STATUS_FAILED: u32 = 1;

/// The state of the emulated CPU that the accessors work on.
pub struct Cpu {
    /// The handle under which the debugger knows this state.
    pub handle: u64,
    /// The register file.
    pub regs: RegisterFile,
    /// The address space.
    pub mem: Memory,
}

/// The four operations that a session offers to the debugger.
#[derive(Clone, Copy, Debug, PartialEq, Eq, Structural)]
pub enum Accessor {
    /// `firmrebugger_reg_read`
    RegRead,
    /// `firmrebugger_mem_read`
    MemRead,
    /// `firmrebugger_mem_write`
    MemWrite,
    /// `firmrebugger_add_hook`
    AddHook,
}

/// What the debugger is handed when a session starts: the CPU state's handle
/// and a reference to each operation. It is never changed afterwards.
#[derive(Clone, Copy, Debug, PartialEq, Eq, Structural)]
pub struct AccessorTable {
    /// Handle of the CPU state that the operations work on.
    pub cpu: u64,
    /// Register read.
    pub reg_read: Option<Accessor>,
    /// Memory read.
    pub mem_read: Option<Accessor>,
    /// Memory write.
    pub mem_write: Option<Accessor>,
    /// Hook registration.
    pub add_hook: Option<Accessor>,
}

/// An emulator instance with what the bridge has attached to it.
pub struct Vm {
    /// The CPU state.
    pub cpu: Cpu,
    /// The hooks installed so far.
    pub hooks: HookTable,
    /// The tables handed out so far. None is ever taken back.
    pub tables: Vec<AccessorTable>,
}

impl Vm {
    /// Every table handed out so far is the table of a session on this
    /// emulator's own CPU state.
    pub open spec fn tables_name_cpu(&self) -> bool {
        forall|i: int|
            0 <= i < self.tables@.len() ==> #[trigger] self.tables@[i] == session_table(
                self.cpu.handle,
            )
    }
}

/// The table of a session on the CPU state known as `cpu`.
pub open spec fn session_table(cpu: u64) -> AccessorTable {
    AccessorTable {
        cpu,
        reg_read: Some(Accessor::RegRead),
        mem_read: Some(Accessor::MemRead),
        mem_write: Some(Accessor::MemWrite),
        add_hook: Some(Accessor::AddHook),
    }
}

/// The low 32 bits of a register value.
pub open spec fn low_word(value: u64) -> u32 {
    (value & 0xffff_ffff) as u32
}

/// Starts a session: builds its table, keeps it with the emulator for good,
/// and returns it for the debugger's configuration entry point.
///
/// Nothing else about the emulator changes. Each call adds a table of its
/// own; all of them name the same CPU state.
pub fn init_config(vm: &mut Vm) -> (table: AccessorTable)
    ensures
        table == session_table(old(vm).cpu.handle),
        final(vm).tables@ == old(vm).tables@.push(table),
        final(vm).cpu == old(vm).cpu,
        final(vm).hooks == old(vm).hooks,
        old(vm).tables_name_cpu() ==> final(vm).tables_name_cpu(),
{
    let table = AccessorTable {
        cpu: vm.cpu.handle,
        reg_read: Some(Accessor::RegRead),
        mem_read: Some(Accessor::MemRead),
        mem_write: Some(Accessor::MemWrite),
        add_hook: Some(Accessor::AddHook),
    };
    vm.tables.push(table);
    table
}

/// Reads the register whose name `reg_name` spells in UTF-8 (the bytes of
/// the name alone, without a terminator) and returns the low 32 bits of its
/// value: exactly what the register file holds at this moment.
///
/// The bytes must be well-formed UTF-8 and spell a name that the
/// architecture knows; `RegisterFile::get_reg_utf8` tells.
pub fn firmrebugger_reg_read(cpu: &Cpu, reg_name: &[u8]) -> (value: u32)
    requires
        cpu.regs.knows_utf8(reg_name@),
    ensures
        value == low_word(cpu.regs.value(decode_utf8(reg_name@))),
        value as int == cpu.regs.value(decode_utf8(reg_name@)) as int % 0x1_0000_0000,
        cpu.regs.value(decode_utf8(reg_name@)) <= u32::MAX ==> value == cpu.regs.value(
            decode_utf8(reg_name@),
        ),
{
    let var = cpu.regs.get_reg_utf8(reg_name).unwrap();
    let full = cpu.regs.read_reg(var);
    assert(full & 0xffff_ffff <= 0xffff_ffff) by (bit_vector);
    assert(full & 0xffff_ffff == full % 0x1_0000_0000) by (bit_vector);
    (full & 0xffff_ffff) as u32
}

/// Reads `bytes.len()` bytes of emulated memory from `address` on into
/// `bytes`, whatever the permissions of the memory.
///
/// The status is `STATUS_OK` if every byte of the range is mapped, and then
/// `bytes` holds the memory's contents. Otherwise it is `STATUS_FAILED`, and
/// `bytes` is not to be trusted.
pub fn firmrebugger_mem_read(cpu: &Cpu, address: u64, bytes: &mut Vec<u8>) -> (status: u32)
    ensures
        status == STATUS_OK || status == STATUS_FAILED,
        status == STATUS_OK <==> cpu.mem.range_mapped(address as int, old(bytes)@.len() as int),
        final(bytes)@.len() == old(bytes)@.len(),
        status == STATUS_OK ==> final(bytes)@ == cpu.mem.span(address as int, old(bytes)@.len()),
{
    proof {
        lemma_perm_none(cpu.mem, address as int, bytes@.len() as int);
    }
    if cpu.mem.read_bytes(address, bytes, PERM_NONE) {
        STATUS_OK
    } else {
        STATUS_FAILED
    }
}

/// Writes `buf` into emulated memory from `address` on, whatever the
/// permissions of the memory.
///
/// The status is `STATUS_OK` if every byte of the range is mapped, and then
/// the range holds `buf` and every other byte is as before. Otherwise it is
/// `STATUS_FAILED` and the CPU state is as before. Registers, the handle and
/// the layout of memory never change.
pub fn firmrebugger_mem_write(cpu: &mut Cpu, address: u64, buf: &[u8]) -> (status: u32)
    ensures
        status == STATUS_OK || status == STATUS_FAILED,
        status == STATUS_OK <==> old(cpu).mem.range_mapped(address as int, buf@.len() as int),
        status == STATUS_FAILED ==> *final(cpu) == *old(cpu),
        final(cpu).handle == old(cpu).handle,
        final(cpu).regs == old(cpu).regs,
        status == STATUS_OK ==> stored(old(cpu).mem, final(cpu).mem, address as int, buf@),
{
    proof {
        lemma_perm_none(cpu.mem, address as int, buf@.len() as int);
    }
    if cpu.mem.write_bytes(address, buf, PERM_NONE) {
        STATUS_OK
    } else {
        STATUS_FAILED
    }
}

/// Installs a hook on the emulator: from now on, each time execution reaches
/// `context.address`, `callback(emu, context)` is owed once, with `emu` and
/// `context` exactly as given here. Earlier hooks stay as they are, and
/// nothing else about the emulator changes.
///
/// The callback must be there.
pub fn firmrebugger_add_hook(
    vm: &mut Vm,
    emu: u64,
    context: HookContext,
    callback: Option<Callback>,
)
    requires
        callback is Some,
    ensures
        final(vm).hooks@ == old(vm).hooks@.push(
            (Hook { callback: callback.unwrap(), emu, context }),
        ),
        final(vm).cpu == old(vm).cpu,
        final(vm).tables == old(vm).tables,
{
    let callback = callback.unwrap();
    vm.hooks.hook_address(Hook { callback, emu, context });
}

/// Asking for no permission is asking only that the bytes be mapped.
pub proof fn lemma_perm_none(mem: Memory, a: int, n: int)
    ensures
        mem.range_permits(a, n, PERM_NONE) == mem.range_mapped(a, n),
{
    assert forall|x: int|
        #![trigger mem.permits(x, PERM_NONE)]
        #![trigger mem.is_mapped(x)]
        mem.permits(x, PERM_NONE) == mem.is_mapped(x) by {
        if let Some(i) = mem.owner(x) {
            crate::memory::lemma_first_holder(mem.regions@, x, 0);
            let p = mem.regions@[i].perm;
            assert(p & 0 == 0) by (bit_vector);
        }
    }
}

} // verus!
