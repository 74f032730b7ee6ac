//! The bus between the core and whatever backs an address.
//!
//! [`Bus`] is the trait that the core in [`crate::cpu`] is generic over. The
//! modules here build the ESP32-C3's memory map on it: [`image`] parses app
//! images, [`soc`] gives the regions of the address space.
pub mod bus;
pub mod image;
pub mod laws;
pub mod soc;

use vstd::prelude::*;

verus! {

/// A bus of bytes with 32-bit addresses. Wider accesses are little-endian.
///
/// Every access takes `&mut self`, reads included: an implementation may log
/// accesses, and a read of a device register may have side effects.
///
/// The contracts describe an implementation by a model of its state, of a
/// type `M` that the implementation picks, and by what each access does to
/// that model. `loads8` and its kin give the model after a read and the value
/// read, `stores8` and its kin the model after a write. An implementation
/// defines them for itself: the bodies here say nothing about it.
pub trait Bus<M = ()> {
    /// What holds of the bus between accesses.
    open spec fn inv(&self) -> bool {
        true
    }

    /// The model of the bus as it is.
    open spec fn state(&self) -> M {
        arbitrary()
    }

    open spec fn loads8(m: M, addr: u32) -> (M, u8) {
        arbitrary()
    }

    open spec fn loads16(m: M, addr: u32) -> (M, u16) {
        arbitrary()
    }

    open spec fn loads32(m: M, addr: u32) -> (M, u32) {
        arbitrary()
    }

    open spec fn stores8(m: M, addr: u32, val: u8) -> M {
        arbitrary()
    }

    open spec fn stores16(m: M, addr: u32, val: u16) -> M {
        arbitrary()
    }

    open spec fn stores32(m: M, addr: u32, val: u32) -> M {
        arbitrary()
    }

    open spec fn fetches16(m: M, addr: u32) -> (M, Option<u16>) {
        arbitrary()
    }

    fn read8(&mut self, addr: u32) -> (val: u8)
        requires
            old(self).inv(),
        ensures
            final(self).inv(),
            (final(self).state(), val) == Self::loads8(old(self).state(), addr),
    ;

    fn read16(&mut self, addr: u32) -> (val: u16)
        requires
            old(self).inv(),
        ensures
            final(self).inv(),
            (final(self).state(), val) == Self::loads16(old(self).state(), addr),
    ;

    fn read32(&mut self, addr: u32) -> (val: u32)
        requires
            old(self).inv(),
        ensures
            final(self).inv(),
            (final(self).state(), val) == Self::loads32(old(self).state(), addr),
    ;

    fn write8(&mut self, addr: u32, val: u8)
        requires
            old(self).inv(),
        ensures
            final(self).inv(),
            final(self).state() == Self::stores8(old(self).state(), addr, val),
    ;

    fn write16(&mut self, addr: u32, val: u16)
        requires
            old(self).inv(),
        ensures
            final(self).inv(),
            final(self).state() == Self::stores16(old(self).state(), addr, val),
    ;

    fn write32(&mut self, addr: u32, val: u32)
        requires
            old(self).inv(),
        ensures
            final(self).inv(),
            final(self).state() == Self::stores32(old(self).state(), addr, val),
    ;

    /// Fetches a halfword of an instruction. `None` says that `addr` is not
    /// executable: there is no memory there, or a device that no core can
    /// execute out of.
    ///
    /// This is apart from [`Bus::read16`] because a data read of an address
    /// with nothing behind it gives a value and goes on, while a fetch from
    /// there must fault.
    fn fetch16(&mut self, addr: u32) -> (half: Option<u16>)
        requires
            old(self).inv(),
        ensures
            final(self).inv(),
            (final(self).state(), half) == Self::fetches16(old(self).state(), addr),
    ;
}

} // verus!
