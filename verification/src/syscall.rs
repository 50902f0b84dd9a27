//! System calls: numbers, what each call does, and the value handed back to
//! user space.
use vstd::prelude::*;

use crate::{errno, KernelError, KernelResult};

verus! {

#[derive(Debug, Clone, Copy, PartialEq, Eq, Structural)]
pub enum SyscallNumber {
    Read,
    Write,
    Open,
    Close,
    Seek,
    Stat,
    Mkdir,
    Unlink,
    Getdents,
    Mount,
    Umount,
    Clone,
    Exit,
    Waitpid,
    Getpid,
    Yield,
    Mmap,
    Munmap,
    Print,
    Readline,
    Sysinfo,
}

/// The call with number `v`; unknown numbers read as `Read`.
pub open spec fn syscall_of(v: u64) -> SyscallNumber {
    if v == 0 {
        SyscallNumber::Read
    } else if v == 1 {
        SyscallNumber::Write
    } else if v == 2 {
        SyscallNumber::Open
    } else if v == 3 {
        SyscallNumber::Close
    } else if v == 4 {
        SyscallNumber::Seek
    } else if v == 5 {
        SyscallNumber::Stat
    } else if v == 6 {
        SyscallNumber::Mkdir
    } else if v == 7 {
        SyscallNumber::Unlink
    } else if v == 8 {
        SyscallNumber::Getdents
    } else if v == 10 {
        SyscallNumber::Mount
    } else if v == 11 {
        SyscallNumber::Umount
    } else if v == 20 {
        SyscallNumber::Clone
    } else if v == 21 {
        SyscallNumber::Exit
    } else if v == 22 {
        SyscallNumber::Waitpid
    } else if v == 23 {
        SyscallNumber::Getpid
    } else if v == 24 {
        SyscallNumber::Yield
    } else if v == 30 {
        SyscallNumber::Mmap
    } else if v == 31 {
        SyscallNumber::Munmap
    } else if v == 100 {
        SyscallNumber::Print
    } else if v == 101 {
        SyscallNumber::Readline
    } else if v == 200 {
        SyscallNumber::Sysinfo
    } else {
        SyscallNumber::Read
    }
}

impl vstd::std_specs::convert::FromSpecImpl<u64> for SyscallNumber {
    open spec fn obeys_from_spec() -> bool {
        true
    }

    open spec fn from_spec(v: u64) -> Self {
        syscall_of(v)
    }
}

impl From<u64> for SyscallNumber {
    fn from(v: u64) -> (r: Self) {
        match v {
            0 => SyscallNumber::Read,
            1 => SyscallNumber::Write,
            2 => SyscallNumber::Open,
            3 => SyscallNumber::Close,
            4 => SyscallNumber::Seek,
            5 => SyscallNumber::Stat,
            6 => SyscallNumber::Mkdir,
            7 => SyscallNumber::Unlink,
            8 => SyscallNumber::Getdents,
            10 => SyscallNumber::Mount,
            11 => SyscallNumber::Umount,
            20 => SyscallNumber::Clone,
            21 => SyscallNumber::Exit,
            22 => SyscallNumber::Waitpid,
            23 => SyscallNumber::Getpid,
            24 => SyscallNumber::Yield,
            30 => SyscallNumber::Mmap,
            31 => SyscallNumber::Munmap,
            100 => SyscallNumber::Print,
            101 => SyscallNumber::Readline,
            200 => SyscallNumber::Sysinfo,
            _ => SyscallNumber::Read,
        }
    }
}

pub type SyscallResult = i64;

/// Nothing to set up: calls arrive through the interrupt gate.
pub fn init() {
}

/// What a system call does.
#[derive(Debug, Clone, Copy)]
pub enum SyscallAction {
    /// Print `count` bytes from `buffer` to the console, then return `count`.
    Print { buffer: u64, count: usize },
    /// Halt the calling task for good.
    Exit,
    /// Return at once with this result.
    Finish(KernelResult<u64>),
}

/// The call `nr` with its first three arguments: writing to standard output
/// or error and printing go to the console; close, yield and unmap succeed
/// with 0, getpid gives 1; exit halts; anything else is an I/O error.
pub fn dispatch(nr: u64, arg1: u64, arg2: u64, arg3: u64) -> (a: SyscallAction)
    ensures
        a == match syscall_of(nr) {
            SyscallNumber::Write => if arg1 == 1 || arg1 == 2 {
                SyscallAction::Print { buffer: arg2, count: arg3 as usize }
            } else {
                SyscallAction::Finish(Err(KernelError::IoError))
            },
            SyscallNumber::Print => SyscallAction::Print { buffer: arg1, count: arg2 as usize },
            SyscallNumber::Getpid => SyscallAction::Finish(Ok(1)),
            SyscallNumber::Yield => SyscallAction::Finish(Ok(0)),
            SyscallNumber::Close => SyscallAction::Finish(Ok(0)),
            SyscallNumber::Munmap => SyscallAction::Finish(Ok(0)),
            SyscallNumber::Exit => SyscallAction::Exit,
            _ => SyscallAction::Finish(Err(KernelError::IoError)),
        },
{
    let syscall = SyscallNumber::from(nr);
    match syscall {
        SyscallNumber::Write => if arg1 == 1 || arg1 == 2 {
            SyscallAction::Print { buffer: arg2, count: arg3 as usize }
        } else {
            SyscallAction::Finish(Err(KernelError::IoError))
        },
        SyscallNumber::Print => SyscallAction::Print { buffer: arg1, count: arg2 as usize },
        SyscallNumber::Getpid => SyscallAction::Finish(Ok(1)),
        SyscallNumber::Yield => SyscallAction::Finish(Ok(0)),
        SyscallNumber::Close => SyscallAction::Finish(Ok(0)),
        SyscallNumber::Munmap => SyscallAction::Finish(Ok(0)),
        SyscallNumber::Exit => SyscallAction::Exit,
        _ => SyscallAction::Finish(Err(KernelError::IoError)),
    }
}

/// The value user space gets: the result itself, or the error's negative
/// code.
pub fn syscall_return(r: KernelResult<u64>) -> (v: SyscallResult)
    ensures
        v == match r {
            Ok(x) => (x as i64) as int,
            Err(e) => errno(e),
        },
{
    match r {
        Ok(x) => x as SyscallResult,
        Err(e) => isize::from(e) as SyscallResult,
    }
}

} // verus!
