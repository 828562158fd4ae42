//! A driver for UARTs compatible with the 16550.
//!
//! The protocol (bring-up, blocking and non-blocking transmit and receive)
//! is written once, over [`Uart16550Register`], a handle on one byte-wide
//! register. Whatever reaches the hardware, an I/O port or a memory-mapped
//! window, implements that trait.
//!
//! Policy of `send`: backspace (0x08) and delete (0x7F) go out as backspace,
//! space, backspace; every other byte, line feed included, goes out as it is.

pub mod divisor;
pub mod flags;
pub mod port;
pub mod register;
pub mod trace;
pub mod uart_16550;

pub use crate::divisor::{BaudRate, DivisorLatch};
pub use crate::flags::{FifoCtrlFlags, IntEnFlags, LineStsFlags, ModemCtrlFlags, ModemStsFlags};
pub use crate::port::SerialPort;
pub use crate::register::{Reg, RegisterAccess, Uart16550Register};
pub use crate::trace::Traced;
pub use crate::uart_16550::{Uart16550, Uart16550Registers, WouldBlockError};
