//! The options of an anonymous in-memory file: whether it closes on exec,
//! whether it can be sealed, the permission bits it gets, and the size it
//! starts with. Opening one is the caller's system call.

use vstd::prelude::*;

verus! {

/// How an in-memory file is to be made.
#[derive(Debug, Clone, Copy, PartialEq, Eq, Structural)]
pub struct MemFdOptions {
    /// Close the file when the process executes another program.
    pub cloexec: bool,
    /// Allow seals to be put on the file.
    pub allow_sealing: bool,
    /// The permission bits to set, where any.
    pub mode: Option<u32>,
    /// The size to give the file, where any.
    pub capacity: Option<i64>,
}

impl MemFdOptions {
    /// No flags, no mode and no size.
    pub fn new() -> (r: MemFdOptions)
        ensures
            r == (MemFdOptions { cloexec: false, allow_sealing: false, mode: None, capacity: None }),
    {
        MemFdOptions { cloexec: false, allow_sealing: false, mode: None, capacity: None }
    }

    /// Sets whether the file closes on exec.
    pub fn cloexec(&mut self, val: bool) -> (r: &mut MemFdOptions)
        ensures
            *r == (MemFdOptions { cloexec: val, ..*old(self) }),
            *final(self) == *final(r),
    {
        self.cloexec = val;
        self
    }

    /// Leaves the permission bits as the system makes them.
    pub fn unset_mode(&mut self) -> (r: &mut MemFdOptions)
        ensures
            *r == (MemFdOptions { mode: None, ..*old(self) }),
            *final(self) == *final(r),
    {
        self.mode = None;
        self
    }

    /// Sets the permission bits.
    pub fn set_mode(&mut self, val: u32) -> (r: &mut MemFdOptions)
        ensures
            *r == (MemFdOptions { mode: Some(val), ..*old(self) }),
            *final(self) == *final(r),
    {
        self.mode = Some(val);
        self
    }

    /// Sets whether seals can be put on the file.
    pub fn allow_sealing(&mut self, val: bool) -> (r: &mut MemFdOptions)
        ensures
            *r == (MemFdOptions { allow_sealing: val, ..*old(self) }),
            *final(self) == *final(r),
    {
        self.allow_sealing = val;
        self
    }

    /// Sets the size the file starts with.
    pub fn with_capacity(&mut self, capacity: i64) -> (r: &mut MemFdOptions)
        ensures
            *r == (MemFdOptions { capacity: Some(capacity), ..*old(self) }),
            *final(self) == *final(r),
    {
        self.capacity = Some(capacity);
        self
    }
}

} // verus!
