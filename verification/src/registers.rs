//! The register file of the emulated CPU: named registers, found by name and
//! read by slot.

use vstd::prelude::*;
use vstd::string::StringSliceAdditionalSpecFns;
use vstd::utf8::{decode_utf8, encode_utf8_decode_utf8, valid_utf8};

verus! {

/// `core::str::from_utf8`, with its error dropped: the string made of exactly
/// these bytes where they are well-formed UTF-8, and `None` where they are
/// not. Believed from the documentation of the standard library.
#[verifier::external_body]
fn str_from_utf8(bytes: &[u8]) -> (r: Option<&str>)
    ensures
        r is Some <==> valid_utf8(bytes@),
        r matches Some(s) ==> s.spec_bytes() == bytes@,
{
    match core::str::from_utf8(bytes) {
        Ok(s) => Some(s),
        Err(_) => None,
    }
}

/// One named register with its current value.
pub struct Register {
    /// The symbolic name by which the architecture knows the register.
    pub name: String,
    /// The value that the register holds now.
    pub value: u64,
}

/// Slot of the first register at or after `from` that is called `name`.
pub open spec fn first_named(regs: Seq<Register>, name: Seq<char>, from: int) -> Option<int>
    decreases regs.len() - from,
{
    if from < 0 || from >= regs.len() {
        None
    } else if regs[from].name@ == name {
        Some(from)
    } else {
        first_named(regs, name, from + 1)
    }
}

/// What `first_named` finds is a slot of the list whose register has the name;
/// where it finds nothing, no register has it.
pub proof fn lemma_first_named(regs: Seq<Register>, name: Seq<char>, from: int)
    requires
        0 <= from,
    ensures
        match first_named(regs, name, from) {
            Some(i) => from <= i < regs.len() && regs[i].name@ == name,
            None => forall|j: int| from <= j < regs.len() ==> (#[trigger] regs[j]).name@ != name,
        },
    decreases regs.len() - from,
{
    if from < regs.len() && regs[from].name@ != name {
        lemma_first_named(regs, name, from + 1);
    }
}

/// The registers of one architecture, in the order of their description.
///
/// Where two registers share a name, the name means the first.
pub struct RegisterFile {
    /// The registers.
    pub regs: Vec<Register>,
}

impl RegisterFile {
    /// The slot that `name` stands for, if the architecture knows the name.
    pub open spec fn slot(&self, name: Seq<char>) -> Option<int> {
        first_named(self.regs@, name, 0)
    }

    /// The architecture knows `name`.
    pub open spec fn knows(&self, name: Seq<char>) -> bool {
        self.slot(name) is Some
    }

    /// The value of the register that the known name `name` stands for.
    pub open spec fn value(&self, name: Seq<char>) -> u64
        recommends
            self.knows(name),
    {
        self.regs@[self.slot(name).unwrap()].value
    }

    /// A register file with no register.
    pub fn new() -> (f: RegisterFile)
        ensures
            f.regs@.len() == 0,
            forall|name: Seq<char>| !f.knows(name),
    {
        RegisterFile { regs: Vec::new() }
    }

    /// Adds a register behind those that are already there.
    pub fn define(&mut self, name: String, value: u64)
        ensures
            final(self).regs@ == old(self).regs@.push(Register { name, value }),
    {
        self.regs.push(Register { name, value });
    }

    /// Resolves a register name to its slot. `None` means that the
    /// architecture has no register of that name.
    pub fn get_reg(&self, name: &str) -> (r: Option<usize>)
        ensures
            match r {
                Some(i) => self.slot(name@) == Some(i as int) && i < self.regs@.len(),
                None => !self.knows(name@),
            },
    {
        let wanted: String = name.to_owned();
        let mut i: usize = 0;
        while i < self.regs.len()
            invariant
                i <= self.regs@.len(),
                wanted@ == name@,
                self.slot(name@) == first_named(self.regs@, name@, i as int),
            decreases self.regs@.len() - i,
        {
            if self.regs[i].name == wanted {
                return Some(i);
            }
            i += 1;
        }
        None
    }

    /// Reads the register in slot `var`.
    pub fn read_reg(&self, var: usize) -> (v: u64)
        requires
            var < self.regs@.len(),
        ensures
            v == self.regs@[var as int].value,
    {
        self.regs[var].value
    }

    /// The bytes spell, in UTF-8, a name that the architecture knows.
    pub open spec fn knows_utf8(&self, name: Seq<u8>) -> bool {
        valid_utf8(name) && self.knows(decode_utf8(name))
    }

    /// Resolves a register name given as the bytes of its UTF-8 encoding.
    /// `None` means that the bytes are not well-formed UTF-8 or that the
    /// architecture has no register of that name.
    pub fn get_reg_utf8(&self, name: &[u8]) -> (r: Option<usize>)
        ensures
            r is Some <==> self.knows_utf8(name@),
            r matches Some(i) ==> self.slot(decode_utf8(name@)) == Some(i as int) && i
                < self.regs@.len(),
    {
        match str_from_utf8(name) {
            Some(s) => {
                proof {
                    encode_utf8_decode_utf8(s@);
                }
                self.get_reg(s)
            },
            None => None,
        }
    }
}

} // verus!
