//! Error numbers of the kernel and the `Result` type built on them.
use vstd::prelude::*;

verus! {

pub type U8 = u8;

pub type U16 = u16;

pub type U32 = u32;

pub type I32 = i32;

/// A kernel error number; `0` means success.
#[derive(Copy, Clone, Debug, PartialEq, Eq, Structural)]
pub struct Errno(pub U32);

/// Results whose error is a kernel error number.
pub type Result<T> = core::result::Result<T, Errno>;

/// The unsigned number that a signed error code denotes when read as 32 bits.
pub open spec fn u32_of_i32(code: i32) -> int {
    if code >= 0 {
        code as int
    } else {
        code as int + 0x1_0000_0000
    }
}

impl Errno {
    /// The success code.
    pub fn ok() -> (e: Errno)
        ensures
            e.0 == 0,
    {
        Errno(0)
    }

    pub fn from_u32(code: U32) -> (e: Errno)
        ensures
            e.0 == code,
    {
        Errno(code)
    }

    /// Reads a signed code as the same 32 bits, unsigned.
    pub fn from_i32(code: I32) -> (e: Errno)
        ensures
            e.0 as int == u32_of_i32(code),
    {
        let c = code as U32;
        assert(c as int == u32_of_i32(code)) by (bit_vector)
            requires
                c == code as u32,
        ;
        Errno(c)
    }

    pub fn code(self) -> (c: U32)
        ensures
            c == self.0,
    {
        self.0
    }

    pub fn is_ok(self) -> (b: bool)
        ensures
            b == (self.0 == 0),
    {
        self.0 == 0
    }
}

/// `Ok(ok)` for the code `0`, otherwise the code as an error.
pub fn result_from_u32<T>(code: U32, ok: T) -> (r: Result<T>)
    ensures
        code == 0 ==> r == Ok::<T, Errno>(ok),
        code != 0 ==> r == Err::<T, Errno>(Errno(code)),
{
    if code == 0 {
        Ok(ok)
    } else {
        Err(Errno(code))
    }
}

/// A signed code read as 32 unsigned bits is the code modulo `2^32`.
pub proof fn law_u32_of_i32_is_modular(code: i32)
    ensures
        0 <= u32_of_i32(code) < 0x1_0000_0000,
        u32_of_i32(code) % 0x1_0000_0000 == (code as int) % 0x1_0000_0000,
        code >= 0 ==> u32_of_i32(code) == code,
{
}

} // verus!
