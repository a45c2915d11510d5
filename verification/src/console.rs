//! The debug console.
//!
//! Output is gathered in a [`Console`], byte by byte and in order; whoever
//! drives the firmware takes the bytes from there and sends them. Input
//! comes back from the firmware as a [`ConsoleRead`].

use vstd::prelude::*;
use vstd::string::StringSliceAdditionalSpecFns;

verus! {

/// The bytes written to the console and not yet sent.
pub struct Console {
    output: Vec<u8>,
}

impl View for Console {
    type V = Seq<u8>;

    closed spec fn view(&self) -> Seq<u8> {
        self.output@
    }
}

impl Console {
    /// A console with nothing to send.
    pub fn new() -> (console: Console)
        ensures
            console@ == Seq::<u8>::empty(),
    {
        Console { output: Vec::new() }
    }

    /// Writes the bytes of `string`, one after the other.
    pub fn write_str(&mut self, string: &str)
        ensures
            final(self)@ == old(self)@ + string.spec_bytes(),
    {
        self.write_bytes(string.as_bytes());
    }

    /// Writes `bytes`, one after the other.
    pub fn write_bytes(&mut self, bytes: &[u8])
        ensures
            final(self)@ == old(self)@ + bytes@,
    {
        let mut i: usize = 0;
        while i < bytes.len()
            invariant
                0 <= i <= bytes@.len(),
                self@ == old(self)@ + bytes@.take(i as int),
            decreases bytes.len() - i,
        {
            self.output.push(bytes[i]);
            assert(bytes@.take(i as int).push(bytes@[i as int]) =~= bytes@.take(i + 1));
            i += 1;
        }
        assert(bytes@.take(i as int) =~= bytes@);
    }

    /// Hands over the bytes written so far, in order, and leaves the
    /// console with nothing to send.
    pub fn take_output(&mut self) -> (bytes: Vec<u8>)
        ensures
            bytes@ == old(self)@,
            final(self)@ == Seq::<u8>::empty(),
    {
        let mut bytes: Vec<u8> = Vec::new();
        std::mem::swap(&mut bytes, &mut self.output);
        bytes
    }
}

/// Prints `text` to the console.
pub fn print(console: &mut Console, text: &str)
    ensures
        final(console)@ == old(console)@ + text.spec_bytes(),
{
    console.write_str(text);
}

/// The firmware's answer to a request to read one byte from the console.
#[derive(Clone, Copy, Debug)]
pub struct ConsoleRead {
    /// The error code of the answer; zero for success.
    pub error: usize,
    /// The value of the answer: on success, the number of bytes read.
    pub value: usize,
    /// What the one-byte buffer of the request holds after the answer.
    pub byte: u8,
}

impl ConsoleRead {
    /// The answer reports an error: the request failed, and the buffer
    /// holds nothing that the console supplied.
    pub open spec fn failed(&self) -> bool {
        self.error != 0
    }

    /// The answer says that the request succeeded and read no byte:
    /// nothing is pending on the console.
    pub open spec fn pending(&self) -> bool {
        self.error == 0 && self.value == 0
    }

    /// The answer says that the request succeeded and read a byte: the
    /// buffer holds the byte that the console supplied.
    pub open spec fn delivered(&self) -> bool {
        self.error == 0 && self.value != 0
    }

    /// Whether the request failed.
    pub fn is_failed(&self) -> (failed: bool)
        ensures
            failed == self.failed(),
    {
        self.error != 0
    }

    /// Whether nothing was pending on the console.
    pub fn is_pending(&self) -> (pending: bool)
        ensures
            pending == self.pending(),
    {
        is_success_with(self.error, self.value, 0)
    }
}

/// Builds the `sbi_rt::SbiRet` with the fields `error` and `value` and
/// compares it with `sbi_rt::SbiRet::success(count)`. Success has the error
/// code zero and carries `count` as its value, and two answers are equal
/// when both fields are.
#[verifier::external_body]
fn is_success_with(error: usize, value: usize, count: usize) -> (same: bool)
    ensures
        same == (error == 0 && value == count),
{
    sbi_rt::SbiRet { error, value } == sbi_rt::SbiRet::success(count)
}

} // verus!
