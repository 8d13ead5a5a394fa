//! A fixed-capacity text buffer that keeps what fits and drops the rest.

use vstd::prelude::*;
use vstd::string::StringSliceAdditionalSpecFns;

verus! {

/// Whether a byte is shown as itself: ASCII graphic characters and ASCII
/// whitespace (space, tab, newline, form feed, carriage return).
pub open spec fn is_shown_plain(b: u8) -> bool {
    (0x21 <= b <= 0x7E) || b == 0x20 || b == 0x09 || b == 0x0A || b == 0x0C || b == 0x0D
}

/// The lower-case ASCII hex digit of a value below 16.
pub open spec fn hex_lower(d: int) -> u8 {
    if d < 10 {
        (0x30 + d) as u8
    } else {
        (0x61 + d - 10) as u8
    }
}

/// How a byte is shown: itself, or `\x` and two lower-case hex digits.
pub open spec fn escape_byte(b: u8) -> Seq<u8> {
    if is_shown_plain(b) {
        seq![b]
    } else {
        seq![0x5Cu8, 0x78u8, hex_lower(b as int / 16), hex_lower(b as int % 16)]
    }
}

/// How a run of bytes is shown: each byte escaped, in order.
pub open spec fn escape_all(bytes: Seq<u8>) -> Seq<u8>
    decreases bytes.len(),
{
    if bytes.len() == 0 {
        Seq::empty()
    } else {
        escape_all(bytes.drop_last()) + escape_byte(bytes.last())
    }
}

fn hex_digit_lower(d: u8) -> (r: u8)
    requires
        d < 16,
    ensures
        r == hex_lower(d as int),
{
    if d < 10 {
        0x30 + d
    } else {
        0x61 + d - 10
    }
}

/// A text buffer of at most `SIZE` bytes.
#[derive(Debug, Clone)]
pub struct StrBuffer<const SIZE: usize> {
    bytes: Vec<u8>,
}

impl<const SIZE: usize> View for StrBuffer<SIZE> {
    type V = Seq<u8>;

    /// The bytes written so far.
    closed spec fn view(&self) -> Seq<u8> {
        self.bytes@
    }
}

impl<const SIZE: usize> StrBuffer<SIZE> {
    /// The buffer never holds more than `SIZE` bytes.
    pub open spec fn wf(&self) -> bool {
        self@.len() <= SIZE
    }

    /// An empty buffer.
    pub fn new() -> (r: Self)
        ensures
            r.wf(),
            r@ == Seq::<u8>::empty(),
    {
        StrBuffer { bytes: Vec::new() }
    }

    /// Appends as much of `s` as fits; the rest is dropped.
    pub fn write_str(&mut self, s: &str)
        requires
            old(self).wf(),
        ensures
            final(self).wf(),
            final(self)@ == old(self)@ + s.spec_bytes().take(
                if s.spec_bytes().len() <= SIZE - old(self)@.len() {
                    s.spec_bytes().len() as int
                } else {
                    SIZE - old(self)@.len()
                },
            ),
    {
        let src = s.as_bytes();
        let room = SIZE - self.bytes.len();
        let to_copy = if src.len() <= room {
            src.len()
        } else {
            room
        };
        let mut i: usize = 0;
        while i < to_copy
            invariant
                i <= to_copy,
                to_copy <= src@.len(),
                to_copy <= SIZE - old(self)@.len(),
                old(self)@.len() <= SIZE,
                src@ == s.spec_bytes(),
                self.bytes@ == old(self)@ + src@.take(i as int),
            decreases to_copy - i,
        {
            self.bytes.push(src[i]);
            i += 1;
            assert(self.bytes@ =~= old(self)@ + src@.take(i as int));
        }
    }

    /// The number of bytes written.
    pub fn len(&self) -> (r: usize)
        ensures
            r == self@.len(),
    {
        self.bytes.len()
    }

    /// The bytes written.
    pub fn as_bytes(&self) -> (r: &[u8])
        ensures
            r@ == self@,
    {
        self.bytes.as_slice()
    }

    /// The contents as printable ASCII: graphic characters and whitespace as
    /// they are, any other byte as `\x` and two lower-case hex digits.
    pub fn escaped(&self) -> (r: Vec<u8>)
        ensures
            r@ == escape_all(self@),
    {
        let mut out: Vec<u8> = Vec::new();
        let mut i: usize = 0;
        while i < self.bytes.len()
            invariant
                i <= self@.len(),
                out@ == escape_all(self@.take(i as int)),
            decreases self@.len() - i,
        {
            let b = self.bytes[i];
            if (0x21 <= b && b <= 0x7E) || b == 0x20 || b == 0x09 || b == 0x0A || b == 0x0C || b
                == 0x0D {
                out.push(b);
            } else {
                out.push(0x5C);
                out.push(0x78);
                out.push(hex_digit_lower(b / 16));
                out.push(hex_digit_lower(b % 16));
            }
            assert(self@.take(i as int + 1).drop_last() =~= self@.take(i as int));
            i += 1;
            assert(out@ =~= escape_all(self@.take(i as int)));
        }
        assert(self@.take(self@.len() as int) =~= self@);
        out
    }
}

} // verus!
