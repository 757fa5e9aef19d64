//! The serial console, modelled as the stream of bytes pushed out of the
//! UART. Printable ASCII and newlines pass through; any other byte is
//! replaced by the placeholder `0xfe`, exactly one output byte per input
//! byte.

use vstd::prelude::*;

verus! {

/// Replacement byte for non-printable input.
pub const UART_PLACEHOLDER: u8 = 0xfe;

/// The UART, carrying the bytes written so far.
pub struct U8250 {
    pub out: Vec<u8>,
}

/// What the console makes of one input byte.
pub open spec fn console_byte(b: u8) -> u8 {
    if (0x20 <= b && b <= 0x7e) || b == 0x0a {
        b
    } else {
        UART_PLACEHOLDER
    }
}

impl U8250 {
    /// A console that has written nothing yet.
    pub fn new() -> (r: U8250)
        ensures
            r.out@.len() == 0,
    {
        U8250 { out: Vec::new() }
    }

    /// Pushes one byte out of the UART.
    pub fn put(&mut self, c: u8)
        ensures
            final(self).out@ == old(self).out@.push(c),
    {
        self.out.push(c);
    }

    /// Writes a string: each printable byte or newline verbatim, anything
    /// else as the placeholder.
    pub fn write_string(&mut self, s: &Vec<u8>)
        ensures
            final(self).out@ == old(self).out@ + s@.map_values(|b: u8| console_byte(b)),
    {
        let ghost mapped = s@.map_values(|b: u8| console_byte(b));
        let mut i: usize = 0;
        while i < s.len()
            invariant
                i <= s@.len(),
                mapped == s@.map_values(|b: u8| console_byte(b)),
                self.out@ == old(self).out@ + mapped.subrange(0, i as int),
            decreases s@.len() - i,
        {
            let byte = s[i];
            if (0x20 <= byte && byte <= 0x7e) || byte == 0x0a {
                self.put(byte);
            } else {
                self.put(UART_PLACEHOLDER);
            }
            proof {
                assert(self.out@ =~= old(self).out@ + mapped.subrange(0, i as int + 1));
            }
            i = i + 1;
        }
        proof {
            assert(mapped.subrange(0, s@.len() as int) =~= mapped);
        }
    }
}

} // verus!
