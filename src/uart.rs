//! The console: a 16550-style serial port.
use vstd::prelude::*;

use crate::mmio::MmioWrite;

verus! {

/// Register offsets from the port's base.
pub const UART_THR: u64 = 0;

pub const UART_RBR: u64 = 0;

pub const UART_IER: u64 = 1;

pub const UART_FCR: u64 = 2;

pub const UART_LCR: u64 = 3;

pub const UART_LSR: u64 = 5;

/// Line status: a received byte is waiting.
pub const LSR_DATA_READY: u8 = 1;

/// Line status: the transmitter takes a byte.
pub const LSR_THR_EMPTY: u8 = 1 << 5;

/// A serial port at `addr_base`.
#[derive(Debug, Clone, Copy, PartialEq, Eq, Structural)]
pub struct Uart {
    pub addr_base: u64,
}

impl Uart {
    pub fn new(uart_base: u64) -> (r: Self)
        ensures
            r.addr_base == uart_base,
    {
        Uart { addr_base: uart_base }
    }

    /// The stores that enable the receive interrupt and the FIFO and set
    /// eight-bit words.
    pub fn init(&self) -> (r: Vec<MmioWrite>)
        ensures
            r@ == seq![
                MmioWrite { offset: UART_IER, value: 1 },
                MmioWrite { offset: UART_FCR, value: 1 },
                MmioWrite { offset: UART_LCR, value: 3 },
            ],
    {
        let mut w: Vec<MmioWrite> = Vec::new();
        w.push(MmioWrite { offset: UART_IER, value: 1 });
        w.push(MmioWrite { offset: UART_FCR, value: 1 });
        w.push(MmioWrite { offset: UART_LCR, value: 3 });
        w
    }

    /// Whether a byte may be written, from the line status register.
    pub fn can_put(lsr: u8) -> (r: bool)
        ensures
            r == (lsr & LSR_THR_EMPTY != 0),
    {
        lsr & LSR_THR_EMPTY != 0
    }

    /// The received byte, if the line status register says there is one.
    pub fn get(lsr: u8, rbr: u8) -> (r: Option<u8>)
        ensures
            lsr & LSR_DATA_READY == 0 ==> r is None,
            lsr & LSR_DATA_READY != 0 ==> r == Some(rbr),
    {
        if lsr & LSR_DATA_READY == 0 {
            None
        } else {
            Some(rbr)
        }
    }
}

/// What the console echoes for a received byte: backspace erases the last
/// character, carriage return and line feed start a new line, anything else
/// is echoed as the character of that code, in UTF-8.
pub open spec fn echo_of(c: u8) -> Seq<u8> {
    if c == 8 {
        seq![8u8, 32u8, 8u8, 13u8, 10u8]
    } else if c == 10 || c == 13 {
        seq![13u8, 10u8]
    } else if c < 0x80 {
        seq![c]
    } else {
        seq![(0xc0 | (c >> 6u8)) as u8, (0x80 | (c & 0x3f)) as u8]
    }
}

/// The bytes to send back for the byte received, if any.
pub fn handle_interrupt(received: Option<u8>) -> (r: Vec<u8>)
    ensures
        received is None ==> r@.len() == 0,
        received matches Some(c) ==> r@ == echo_of(c),
{
    match received {
        None => Vec::new(),
        Some(c) => {
            if c == 8 {
                vec![8u8, 32u8, 8u8, 13u8, 10u8]
            } else if c == 10 || c == 13 {
                vec![13u8, 10u8]
            } else if c < 0x80 {
                vec![c]
            } else {
                vec![0xc0 | (c >> 6u8), 0x80 | (c & 0x3f)]
            }
        },
    }
}

} // verus!
