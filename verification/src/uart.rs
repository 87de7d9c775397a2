//! The memory-mapped serial port that the kernel writes text to.
use vstd::prelude::*;

verus! {

/// Address of the serial port's transmit register.
pub const UART_BASE: usize = 0x1000_0000;

/// A serial port, known by the address of its transmit register.
pub struct Uart(usize);

impl Uart {
    /// The address of the transmit register.
    pub closed spec fn spec_address(&self) -> usize {
        self.0
    }

    /// The serial port at its fixed address.
    pub fn new() -> (uart: Self)
        ensures
            uart.spec_address() == UART_BASE,
            uart.spec_address() == 0x1000_0000,
    {
        Uart(UART_BASE)
    }

    /// The address of the transmit register, to which each byte of text is
    /// written in turn.
    pub fn address(&self) -> (addr: usize)
        ensures
            addr == self.spec_address(),
    {
        self.0
    }
}

} // verus!
