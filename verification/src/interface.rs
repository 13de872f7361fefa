//! The interface registry record of a remote process, as plain addresses.
//! The record lives in foreign memory: its pointers are numbers to be
//! checked, never references.
use vstd::prelude::*;

verus! {

/// A node in the linked list of exposed interfaces: three addresses in the
/// remote process, eight bytes each, in this order.
#[derive(Clone, Copy, Debug, PartialEq, Eq, Structural)]
pub struct InterfaceReg {
    /// Address of the construction function.
    pub create_fn: u64,
    /// Address of the null-terminated name.
    pub name: u64,
    /// Address of the next node; zero ends the list.
    pub next: u64,
}

/// The size of a record in the remote process, in bytes.
pub const INTERFACE_REG_SIZE: usize = 24;

impl InterfaceReg {
    /// The address to read the name from: `None` where the name pointer
    /// is null and must not be followed.
    pub fn name_address(&self) -> (r: Option<u64>)
        ensures
            r == (if self.name == 0 {
                None
            } else {
                Some(self.name)
            }),
    {
        if self.name == 0 {
            None
        } else {
            Some(self.name)
        }
    }

    /// The address of the node that follows: `None` at the end of the
    /// list.
    pub fn next_address(&self) -> (r: Option<u64>)
        ensures
            r == (if self.next == 0 {
                None
            } else {
                Some(self.next)
            }),
    {
        if self.next == 0 {
            None
        } else {
            Some(self.next)
        }
    }
}

} // verus!
