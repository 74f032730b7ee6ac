//! The register file: 32 general-purpose registers, `pc`, and the
//! machine-mode CSRs that trap handling needs.
use super::csr_addr;
use vstd::prelude::*;

verus! {

/// The 32 general-purpose registers and the program counter.
///
/// `x0` is hardwired to zero: a write to it is discarded. The view is the
/// sequence of the 32 register values.
#[derive(Debug, Clone, Copy, PartialEq, Eq)]
pub struct Registers {
    pub x: [u32; 32],
    pub pc: u32,
}

/// The register values after a write of `val` to register `reg`.
pub open spec fn with_reg(x: Seq<u32>, reg: u8, val: u32) -> Seq<u32> {
    if reg == 0 { x } else { x.update(reg as int, val) }
}

/// What every register file is: 32 registers, the first of them zero.
pub open spec fn is_reg_file(x: Seq<u32>) -> bool {
    &&& x.len() == 32
    &&& x[0] == 0
}

impl View for Registers {
    type V = Seq<u32>;

    open spec fn view(&self) -> Seq<u32> {
        self.x@
    }
}

impl Default for Registers {
    fn default() -> (regs: Self)
        ensures
            regs@ == Seq::new(32, |i: int| 0u32),
            regs.pc == 0,
            regs.wf(),
    {
        let regs = Registers { x: [0; 32], pc: 0 };
        assert(regs@ =~= Seq::new(32, |i: int| 0u32));
        regs
    }
}

impl Registers {
    /// The file has 32 registers, and `x0` holds zero.
    pub open spec fn wf(&self) -> bool {
        is_reg_file(self@)
    }

    pub fn new() -> (regs: Self)
        ensures
            regs@ == Seq::new(32, |i: int| 0u32),
            regs.pc == 0,
            regs.wf(),
    {
        Self::default()
    }

    #[inline]
    pub fn read(&self, reg: u8) -> (val: u32)
        requires
            reg < 32,
        ensures
            val == self@[reg as int],
            self.wf() && reg == 0 ==> val == 0,
    {
        self.x[reg as usize]
    }

    #[inline]
    pub fn write(&mut self, reg: u8, val: u32)
        requires
            reg < 32,
        ensures
            final(self)@ == with_reg(old(self)@, reg, val),
            final(self).pc == old(self).pc,
            old(self).wf() ==> final(self).wf(),
    {
        if reg != 0 {
            self.x[reg as usize] = val;
        }
    }
}

/// A register reads back what was last written to it, `x0` reads zero
/// whatever is written, and no other register changes.
pub proof fn law_register_read_after_write(x: Seq<u32>, reg: u8, val: u32, other: u8)
    requires
        is_reg_file(x),
        reg < 32,
        other < 32,
    ensures
        is_reg_file(with_reg(x, reg, val)),
        reg != 0 ==> with_reg(x, reg, val)[reg as int] == val,
        reg == 0 ==> with_reg(x, reg, val)[0] == 0,
        other != reg ==> with_reg(x, reg, val)[other as int] == x[other as int],
{
}

/// The machine-mode CSRs: plain words, with no meaning to their bits beyond
/// what trap entry and `mret` give them.
#[derive(Debug, Clone, Copy, PartialEq, Eq, Structural)]
pub struct Csrs {
    pub mstatus: u32,
    pub mie: u32,
    pub mip: u32,
    pub mtvec: u32,
    pub mepc: u32,
    pub mcause: u32,
    pub mtval: u32,
    pub mscratch: u32,
}

impl Default for Csrs {
    fn default() -> (csrs: Self)
        ensures
            csrs == zero_csrs(),
    {
        Csrs { mstatus: 0, mie: 0, mip: 0, mtvec: 0, mepc: 0, mcause: 0, mtval: 0, mscratch: 0 }
    }
}

/// The CSRs out of reset.
pub open spec fn zero_csrs() -> Csrs {
    Csrs { mstatus: 0, mie: 0, mip: 0, mtvec: 0, mepc: 0, mcause: 0, mtval: 0, mscratch: 0 }
}

impl Csrs {
    /// The CSR addresses that the core implements.
    pub open spec fn implements(addr: u16) -> bool {
        ||| addr == csr_addr::MSTATUS
        ||| addr == csr_addr::MIE
        ||| addr == csr_addr::MIP
        ||| addr == csr_addr::MTVEC
        ||| addr == csr_addr::MEPC
        ||| addr == csr_addr::MCAUSE
        ||| addr == csr_addr::MTVAL
        ||| addr == csr_addr::MSCRATCH
    }

    /// The value at CSR address `addr`.
    pub open spec fn value(self, addr: u16) -> u32 {
        if addr == csr_addr::MSTATUS { self.mstatus }
        else if addr == csr_addr::MIE { self.mie }
        else if addr == csr_addr::MIP { self.mip }
        else if addr == csr_addr::MTVEC { self.mtvec }
        else if addr == csr_addr::MEPC { self.mepc }
        else if addr == csr_addr::MCAUSE { self.mcause }
        else if addr == csr_addr::MTVAL { self.mtval }
        else if addr == csr_addr::MSCRATCH { self.mscratch }
        else { 0 }
    }

    /// The CSRs after a write of `val` to CSR address `addr`.
    pub open spec fn with_value(self, addr: u16, val: u32) -> Csrs {
        if addr == csr_addr::MSTATUS { Csrs { mstatus: val, ..self } }
        else if addr == csr_addr::MIE { Csrs { mie: val, ..self } }
        else if addr == csr_addr::MIP { Csrs { mip: val, ..self } }
        else if addr == csr_addr::MTVEC { Csrs { mtvec: val, ..self } }
        else if addr == csr_addr::MEPC { Csrs { mepc: val, ..self } }
        else if addr == csr_addr::MCAUSE { Csrs { mcause: val, ..self } }
        else if addr == csr_addr::MTVAL { Csrs { mtval: val, ..self } }
        else if addr == csr_addr::MSCRATCH { Csrs { mscratch: val, ..self } }
        else { self }
    }

    pub fn new() -> (csrs: Self)
        ensures
            csrs == zero_csrs(),
    {
        Self::default()
    }

    /// Reads a CSR by its address. An address that the core does not
    /// implement reads as 0, so that startup code may probe it.
    pub fn read(&self, addr: u16) -> (val: u32)
        ensures
            val == self.value(addr),
    {
        match addr {
            csr_addr::MSTATUS => self.mstatus,
            csr_addr::MIE => self.mie,
            csr_addr::MIP => self.mip,
            csr_addr::MTVEC => self.mtvec,
            csr_addr::MEPC => self.mepc,
            csr_addr::MCAUSE => self.mcause,
            csr_addr::MTVAL => self.mtval,
            csr_addr::MSCRATCH => self.mscratch,
            _ => 0,
        }
    }

    /// Writes a CSR by its address. A write to an address that the core does
    /// not implement is discarded.
    pub fn write(&mut self, addr: u16, val: u32)
        ensures
            *final(self) == old(self).with_value(addr, val),
    {
        match addr {
            csr_addr::MSTATUS => self.mstatus = val,
            csr_addr::MIE => self.mie = val,
            csr_addr::MIP => self.mip = val,
            csr_addr::MTVEC => self.mtvec = val,
            csr_addr::MEPC => self.mepc = val,
            csr_addr::MCAUSE => self.mcause = val,
            csr_addr::MTVAL => self.mtval = val,
            csr_addr::MSCRATCH => self.mscratch = val,
            _ => {},
        }
    }
}

/// An implemented CSR reads back what was last written to it and no other
/// CSR changes; an unimplemented one reads zero and its writes do nothing.
pub proof fn law_csr_read_after_write(csrs: Csrs, addr: u16, val: u32, other: u16)
    ensures
        Csrs::implements(addr) ==> csrs.with_value(addr, val).value(addr) == val,
        !Csrs::implements(addr) ==> csrs.value(addr) == 0 && csrs.with_value(addr, val) == csrs,
        other != addr ==> csrs.with_value(addr, val).value(other) == csrs.value(other),
{
}

} // verus!
