//! The byte console that the game reads keys from and draws on.
use vstd::prelude::*;
use vstd::string::StringSliceAdditionalSpecFns;

verus! {

/// The bytes a console has been handed, oldest first.
pub type Transcript = Seq<u8>;

/// A byte-oriented, blocking console.
///
/// `output` exists for the proofs only: an implementation outside the
/// verified code gives it any body, since it is never run.
pub trait Console {
    /// Everything written to the console so far, in order.
    spec fn output(&self) -> Transcript;

    /// Write a single byte. Implementations may translate line endings if
    /// it makes sense for the underlying transport.
    fn write_byte(&mut self, byte: u8)
        ensures
            final(self).output() == old(self).output().push(byte),
    ;

    /// Block until a byte is available and return it.
    fn read_byte_blocking(&mut self) -> (byte: u8)
        ensures
            final(self).output() == old(self).output(),
    ;

    /// Write a whole string.
    fn write_str(&mut self, s: &str)
        ensures
            final(self).output() == old(self).output() + s.spec_bytes(),
    {
        let bytes = s.as_bytes();
        let mut i: usize = 0;
        while i < bytes.len()
            invariant
                bytes@ == s.spec_bytes(),
                i <= bytes@.len(),
                self.output() == old(self).output() + bytes@.subrange(0, i as int),
            decreases bytes@.len() - i,
        {
            self.write_byte(bytes[i]);
            assert(bytes@.subrange(0, i + 1) == bytes@.subrange(0, i as int).push(bytes@[i as int]));
            i = i + 1;
        }
        assert(bytes@.subrange(0, i as int) == bytes@);
    }
}

/// The ASCII digit for `d`.
pub open spec fn digit(d: int) -> u8 {
    (48 + d) as u8
}

/// The decimal digits of a natural number, most significant first.
pub open spec fn decimal_digits(n: nat) -> Seq<u8>
    decreases n,
{
    if n < 10 {
        seq![digit(n as int)]
    } else {
        decimal_digits(n / 10).push(digit(n as int % 10))
    }
}

/// The decimal text of an integer, with a leading `-` when negative.
pub open spec fn decimal(n: int) -> Seq<u8> {
    if n < 0 {
        seq![45u8] + decimal_digits((-n) as nat)
    } else {
        decimal_digits(n as nat)
    }
}

/// Writes the decimal digits of `n`.
pub fn write_unsigned<C: Console + ?Sized>(console: &mut C, n: u32)
    ensures
        final(console).output() == old(console).output() + decimal_digits(n as nat),
    decreases n,
{
    if n >= 10 {
        write_unsigned(console, n / 10);
    }
    console.write_byte(48u8 + (n % 10) as u8);
    assert(decimal_digits(n as nat) == (if n >= 10 {
        decimal_digits((n / 10) as nat)
    } else {
        Seq::<u8>::empty()
    }).push(digit((n % 10) as int)));
}

/// Writes `value` in decimal, as `{}` formatting does.
pub fn write_decimal<C: Console + ?Sized>(console: &mut C, value: i32)
    ensures
        final(console).output() == old(console).output() + decimal(value as int),
{
    if value < 0 {
        console.write_byte(45u8);
        let magnitude = (-(value as i64)) as u32;
        write_unsigned(console, magnitude);
        assert(seq![45u8] + decimal_digits(magnitude as nat) == seq![45u8].add(
            decimal_digits(magnitude as nat),
        ));
    } else {
        write_unsigned(console, value as u32);
    }
}

} // verus!
