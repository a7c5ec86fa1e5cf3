//! Decoding of the supervisor trap-cause register: the interrupt bit, the
//! cause code, and the typed interrupt and exception causes.

use vstd::prelude::*;

verus! {

/// The value of the supervisor cause register, as saved at trap entry.
#[derive(Clone, Copy, PartialEq, Eq, Structural, Debug)]
pub struct Scause {
    /// The raw register bits.
    pub bits: u64,
}

/// A decoded trap cause.
#[derive(Clone, Copy, PartialEq, Eq, Structural, Debug)]
pub enum Trap {
    /// The high bit was set: an interrupt.
    Interrupt(Interrupt),
    /// The high bit was clear: an exception.
    Exception(Exception),
}

/// The interrupt causes of the Sv39 privileged specification.
#[derive(Clone, Copy, PartialEq, Eq, Structural, Debug)]
pub enum Interrupt {
    UserSoft,
    VirtualSupervisorSoft,
    SupervisorSoft,
    UserTimer,
    VirtualSupervisorTimer,
    SupervisorTimer,
    UserExternal,
    VirtualSupervisorExternal,
    SupervisorExternal,
    Unknown,
}

/// The exception causes of the Sv39 privileged specification.
#[derive(Clone, Copy, PartialEq, Eq, Structural, Debug)]
pub enum Exception {
    InstructionMisaligned,
    InstructionFault,
    IllegalInstruction,
    Breakpoint,
    LoadFault,
    StoreMisaligned,
    StoreFault,
    UserEnvCall,
    SupervisorEnvCall,
    VirtualSupervisorEnvCall,
    InstructionPageFault,
    LoadPageFault,
    StorePageFault,
    InstructionGuestPageFault,
    LoadGuestPageFault,
    VirtualInstruction,
    StoreGuestPageFault,
    Unknown,
}

/// The interrupt cause named by a code.
pub open spec fn spec_interrupt_from(nr: u64) -> Interrupt {
    if nr == 0 {
        Interrupt::UserSoft
    } else if nr == 1 {
        Interrupt::SupervisorSoft
    } else if nr == 2 {
        Interrupt::VirtualSupervisorSoft
    } else if nr == 4 {
        Interrupt::UserTimer
    } else if nr == 5 {
        Interrupt::SupervisorTimer
    } else if nr == 6 {
        Interrupt::VirtualSupervisorTimer
    } else if nr == 8 {
        Interrupt::UserExternal
    } else if nr == 9 {
        Interrupt::SupervisorExternal
    } else if nr == 10 {
        Interrupt::VirtualSupervisorExternal
    } else {
        Interrupt::Unknown
    }
}

/// The exception cause named by a code.
pub open spec fn spec_exception_from(nr: u64) -> Exception {
    if nr == 0 {
        Exception::InstructionMisaligned
    } else if nr == 1 {
        Exception::InstructionFault
    } else if nr == 2 {
        Exception::IllegalInstruction
    } else if nr == 3 {
        Exception::Breakpoint
    } else if nr == 5 {
        Exception::LoadFault
    } else if nr == 6 {
        Exception::StoreMisaligned
    } else if nr == 7 {
        Exception::StoreFault
    } else if nr == 8 {
        Exception::UserEnvCall
    } else if nr == 9 {
        Exception::SupervisorEnvCall
    } else if nr == 10 {
        Exception::VirtualSupervisorEnvCall
    } else if nr == 12 {
        Exception::InstructionPageFault
    } else if nr == 13 {
        Exception::LoadPageFault
    } else if nr == 15 {
        Exception::StorePageFault
    } else if nr == 20 {
        Exception::InstructionGuestPageFault
    } else if nr == 21 {
        Exception::LoadGuestPageFault
    } else if nr == 22 {
        Exception::VirtualInstruction
    } else if nr == 23 {
        Exception::StoreGuestPageFault
    } else {
        Exception::Unknown
    }
}

impl Interrupt {
    /// Decodes an interrupt code.
    pub fn from(nr: u64) -> (r: Interrupt)
        ensures
            r == spec_interrupt_from(nr),
    {
        match nr {
            0 => Interrupt::UserSoft,
            1 => Interrupt::SupervisorSoft,
            2 => Interrupt::VirtualSupervisorSoft,
            4 => Interrupt::UserTimer,
            5 => Interrupt::SupervisorTimer,
            6 => Interrupt::VirtualSupervisorTimer,
            8 => Interrupt::UserExternal,
            9 => Interrupt::SupervisorExternal,
            10 => Interrupt::VirtualSupervisorExternal,
            _ => Interrupt::Unknown,
        }
    }
}

impl Exception {
    /// Decodes an exception code.
    pub fn from(nr: u64) -> (r: Exception)
        ensures
            r == spec_exception_from(nr),
    {
        match nr {
            0 => Exception::InstructionMisaligned,
            1 => Exception::InstructionFault,
            2 => Exception::IllegalInstruction,
            3 => Exception::Breakpoint,
            5 => Exception::LoadFault,
            6 => Exception::StoreMisaligned,
            7 => Exception::StoreFault,
            8 => Exception::UserEnvCall,
            9 => Exception::SupervisorEnvCall,
            10 => Exception::VirtualSupervisorEnvCall,
            12 => Exception::InstructionPageFault,
            13 => Exception::LoadPageFault,
            15 => Exception::StorePageFault,
            20 => Exception::InstructionGuestPageFault,
            21 => Exception::LoadGuestPageFault,
            22 => Exception::VirtualInstruction,
            23 => Exception::StoreGuestPageFault,
            _ => Exception::Unknown,
        }
    }
}

/// Relies on `bit_field::BitField::get_bit` for `u64`: whether bit
/// `bit` of `x` is set.
#[verifier::external_body]
fn u64_get_bit(x: u64, bit: usize) -> (r: bool)
    requires
        bit < 64,
    ensures
        r == ((x >> bit) & 1u64 == 1u64),
{
    bit_field::BitField::get_bit(&x, bit)
}

impl Scause {
    /// Wraps a saved cause value.
    pub fn new(bits: u64) -> (r: Self)
        ensures
            r.bits == bits,
    {
        Scause { bits }
    }

    /// The raw register bits.
    pub fn bits(&self) -> (r: u64)
        ensures
            r == self.bits,
    {
        self.bits
    }

    /// The cause code: the bits below the interrupt bit.
    pub fn code(&self) -> (r: u64)
        ensures
            r == self.bits % 0x8000000000000000,
    {
        let b = self.bits;
        proof {
            assert(b & 0x7FFFFFFFFFFFFFFF == b % 0x8000000000000000) by (bit_vector);
        }
        b & 0x7FFFFFFFFFFFFFFF
    }

    /// Whether the cause is an interrupt: the top bit is set.
    pub fn is_interrupt(&self) -> (r: bool)
        ensures
            r == (self.bits >= 0x8000000000000000),
    {
        let b = self.bits;
        let r = u64_get_bit(b, 63);
        proof {
            assert(((b >> 63) & 1u64 == 1u64) == (b >= 0x8000000000000000)) by (bit_vector);
        }
        r
    }

    /// Whether the cause is an exception: the top bit is clear.
    pub fn is_exception(&self) -> (r: bool)
        ensures
            r == (self.bits < 0x8000000000000000),
    {
        !self.is_interrupt()
    }

    /// The decoded cause.
    pub fn cause(&self) -> (r: Trap)
        ensures
            self.bits >= 0x8000000000000000 ==> r == Trap::Interrupt(
                spec_interrupt_from((self.bits % 0x8000000000000000) as u64),
            ),
            self.bits < 0x8000000000000000 ==> r == Trap::Exception(
                spec_exception_from((self.bits % 0x8000000000000000) as u64),
            ),
    {
        if self.is_interrupt() {
            Trap::Interrupt(Interrupt::from(self.code()))
        } else {
            Trap::Exception(Exception::from(self.code()))
        }
    }
}

/// The trap causes the core dispatches on.
#[derive(Clone, Copy, PartialEq, Eq, Structural, Debug)]
pub enum ScauseType {
    /// Anything the core does not handle.
    Unknown,
    /// A supervisor software interrupt: the timer tick.
    IntSSoft,
    /// A supervisor external interrupt: a device.
    IntSExt,
    /// An environment call from user mode: a system call.
    ExcUEcall,
}

/// Classifies a saved cause value into the cases the trap path handles:
/// the timer tick, an external device interrupt, a user system call, or
/// something unknown.
pub fn get_scause(bits: u64) -> (r: ScauseType)
    ensures
        bits == 0x8000000000000001 ==> r == ScauseType::IntSSoft,
        bits == 0x8000000000000009 ==> r == ScauseType::IntSExt,
        bits == 8 ==> r == ScauseType::ExcUEcall,
        bits != 0x8000000000000001 && bits != 0x8000000000000009 && bits != 8 ==> r
            == ScauseType::Unknown,
{
    if bits == 0x8000000000000001 {
        ScauseType::IntSSoft
    } else if bits == 0x8000000000000009 {
        ScauseType::IntSExt
    } else if bits == 8 {
        ScauseType::ExcUEcall
    } else {
        ScauseType::Unknown
    }
}

} // verus!
