use vstd::prelude::*;
use vstd::string::StrSliceExecFns;
use std::collections::VecDeque;

use crate::errors::KernelError;
use crate::block::DeviceID;

verus! {

/// The interrupt of the serial port.
pub const PL011_IRQ: usize = 57;

/// The capacity that the receive queue starts with.
pub const PL011_RX_QUEUE_SIZE: usize = 32;

/// The serial port as a character device: it counts how often it is open.
pub struct PL011Device {
    pub opens: u32,
}

impl PL011Device {
    /// A serial port that nobody has opened.
    pub fn new() -> (r: Self)
        ensures
            r.opens == 0,
    {
        PL011Device { opens: 0 }
    }

    /// Opens the device.
    pub fn open(&mut self) -> (r: Result<(), KernelError>)
        requires
            old(self).opens < u32::MAX,
        ensures
            r is Ok,
            final(self).opens == old(self).opens + 1,
    {
        self.opens = self.opens + 1;
        Ok(())
    }

    /// Closes the device; `FileNotOpen` when nobody has it open.
    pub fn close(&mut self) -> (r: Result<(), KernelError>)
        ensures
            old(self).opens == 0 ==> r == Err::<(), KernelError>(KernelError::FileNotOpen) && final(self).opens == 0,
            old(self).opens > 0 ==> r is Ok && final(self).opens == old(self).opens - 1,
    {
        if self.opens == 0 {
            return Err(KernelError::FileNotOpen);
        }
        self.opens = self.opens - 1;
        Ok(())
    }

    /// Reads the characters received so far into `buffer`, as many as it holds, in the order
    /// in which they arrived.
    pub fn read(&mut self, rx: &mut PL011Rx, buffer: &mut Vec<u8>) -> (r: Result<usize, KernelError>)
        ensures
            final(self).opens == old(self).opens,
            final(buffer)@.len() == old(buffer)@.len(),
            ({
                let n = if old(buffer)@.len() < old(rx).buffer@.len() { old(buffer)@.len() } else { old(rx).buffer@.len() };
                &&& r == Ok::<usize, KernelError>(n as usize)
                &&& final(buffer)@ == old(rx).buffer@.subrange(0, n as int) + old(buffer)@.subrange(n as int, old(buffer)@.len() as int)
                &&& final(rx).buffer@ == old(rx).buffer@.subrange(n as int, old(rx).buffer@.len() as int)
            }),
    {
        let mut i: usize = 0;
        let len = buffer.len();
        let ghost queue0 = rx.buffer@;
        let ghost buf0 = buffer@;
        while i < len
            invariant
                0 <= i <= len,
                queue0 == old(rx).buffer@,
                buf0 == old(buffer)@,
                len == buf0.len(),
                buffer@.len() == len,
                i <= queue0.len(),
                rx.buffer@ == queue0.subrange(i as int, queue0.len() as int),
                forall|k: int| 0 <= k < i ==> buffer@[k] == queue0[k],
                forall|k: int| i <= k < len ==> buffer@[k] == buf0[k],
            decreases len - i,
        {
            match rx.get_char_buffered() {
                Some(byte) => {
                    buffer.set(i, byte);
                },
                None => {
                    assert(buffer@ =~= queue0.subrange(0, i as int) + buf0.subrange(i as int, len as int));
                    return Ok(i);
                },
            }
            i += 1;
        }
        assert(buffer@ =~= queue0.subrange(0, i as int) + buf0.subrange(i as int, len as int));
        Ok(i)
    }

    /// Takes `buffer` for the port: all of it is taken and its length returned; the caller
    /// hands the bytes to the transmit register.
    pub fn write(&mut self, buffer: &[u8]) -> (r: Result<usize, KernelError>)
        ensures
            r == Ok::<usize, KernelError>(buffer@.len() as usize),
            final(self).opens == old(self).opens,
    {
        Ok(buffer.len())
    }

    /// The bytes that printing `s` sends: each character cut to its low eight bits.
    pub fn print(&self, s: &str) -> (r: Vec<u8>)
        ensures
            r@.len() == s@.len(),
            forall|i: int| 0 <= i < s@.len() ==> r@[i] == ((s@[i] as u32) % 256) as u8,
    {
        let n = s.unicode_len();
        let mut out: Vec<u8> = Vec::new();
        let mut i: usize = 0;
        while i < n
            invariant
                0 <= i <= n,
                n == s@.len(),
                out@.len() == i,
                forall|k: int| 0 <= k < i ==> out@[k] == ((s@[k] as u32) % 256) as u8,
            decreases n - i,
        {
            let c = s.get_char(i);
            out.push(((c as u32) % 256) as u8);
            i += 1;
        }
        out
    }
}

/// The characters received by the serial port and not yet read.
pub struct PL011Rx {
    pub buffer: VecDeque<u8>,
}

impl PL011Rx {
    /// An empty receive queue.
    pub fn new() -> (r: Self)
        ensures
            r.buffer@.len() == 0,
    {
        PL011Rx { buffer: VecDeque::with_capacity(PL011_RX_QUEUE_SIZE) }
    }

    /// The oldest character received, which leaves the queue.
    pub fn get_char_buffered(&mut self) -> (r: Option<u8>)
        ensures
            old(self).buffer@.len() == 0 ==> r is None && final(self).buffer@ == old(self).buffer@,
            old(self).buffer@.len() > 0 ==> r == Some(old(self).buffer@[0])
                && final(self).buffer@ == old(self).buffer@.subrange(1, old(self).buffer@.len() as int),
    {
        self.buffer.pop_front()
    }

    /// Queues a character that the port received.
    pub fn push_char(&mut self, ch: u8)
        ensures
            final(self).buffer@ == old(self).buffer@.push(ch),
    {
        self.buffer.push_back(ch);
    }
}

/// Where the kernel's messages go: straight to the port, or through the console device.
#[derive(Clone, Copy, PartialEq, Eq, Structural, Debug)]
pub enum ConsoleOutput {
    Safe,
    Normal(DeviceID),
}

/// Sends the kernel's messages straight to the port.
pub fn set_safe_console(output: &mut ConsoleOutput)
    ensures
        *final(output) == ConsoleOutput::Safe,
{
    *output = ConsoleOutput::Safe;
}

/// Sends the kernel's messages through the console device `device`.
pub fn set_normal_console(output: &mut ConsoleOutput, device: DeviceID)
    ensures
        *final(output) == ConsoleOutput::Normal(device),
{
    *output = ConsoleOutput::Normal(device);
}

} // verus!
