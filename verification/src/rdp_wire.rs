//! Wire framing of the remote-debugging protocol spoken by the engine's devtools server: every
//! message is `<byte-length>:<json>`, the length in ASCII decimal. The reader takes the length one
//! byte at a time up to the colon, then reads exactly that many payload bytes. A header with no
//! digit, a byte that is neither a digit nor the colon, or a length too large for `usize` is an
//! invalid length, and the stream cannot be read on from there.

use vstd::prelude::*;
use vstd::string::StringSliceAdditionalSpecFns;

verus! {

/// The ASCII decimal digits of `n`, most significant first, without leading zeros (`"0"` for 0).
pub open spec fn decimal_digits(n: nat) -> Seq<u8>
    decreases n,
{
    if n < 10 {
        seq![(n + 48) as u8]
    } else {
        decimal_digits(n / 10).push(((n % 10) + 48) as u8)
    }
}

/// Whether `b` is an ASCII digit.
pub open spec fn is_digit(b: u8) -> bool {
    48 <= b <= 57
}

/// The number written by a sequence of ASCII digits (0 for the empty sequence).
pub open spec fn decimal_value(digits: Seq<u8>) -> nat
    decreases digits.len(),
{
    if digits.len() == 0 {
        0
    } else {
        decimal_value(digits.drop_last()) * 10 + (digits.last() - 48) as nat
    }
}

/// The frame that carries `body`: its byte length in decimal, a colon, the body.
pub open spec fn frame_of(body: Seq<u8>) -> Seq<u8> {
    decimal_digits(body.len()) + seq![58u8] + body
}

/// The decimal digits of `n`.
pub fn encode_decimal(n: usize) -> (digits: Vec<u8>)
    ensures
        digits@ == decimal_digits(n as nat),
    decreases n,
{
    if n < 10 {
        let mut v: Vec<u8> = Vec::new();
        v.push((n + 48) as u8);
        assert(v@ =~= decimal_digits(n as nat));
        v
    } else {
        let mut v = encode_decimal(n / 10);
        v.push((n % 10 + 48) as u8);
        v
    }
}

/// Frames a message body for the wire: `<len>:<body>`.
pub fn frame_message(body: &str) -> (frame: Vec<u8>)
    ensures
        frame@ == frame_of(body.spec_bytes()),
{
    let bytes = body.as_bytes();
    let mut frame = encode_decimal(bytes.len());
    frame.push(58u8);
    let ghost head = frame@;
    let mut i: usize = 0;
    while i < bytes.len()
        invariant
            i <= bytes@.len(),
            bytes@ == body.spec_bytes(),
            head == decimal_digits(bytes@.len() as nat) + seq![58u8],
            frame@ == head + bytes@.take(i as int),
        decreases bytes@.len() - i,
    {
        frame.push(bytes[i]);
        assert(bytes@.take(i as int + 1) =~= bytes@.take(i as int).push(bytes@[i as int]));
        i = i + 1;
    }
    assert(bytes@.take(bytes@.len() as int) =~= bytes@);
    frame
}

/// What feeding one byte of the length header gave.
#[derive(Debug, Clone, Copy, PartialEq, Eq)]
pub enum HeaderStep {
    /// The colon has not arrived yet.
    More,
    /// The colon arrived; the payload has this many bytes.
    Length(usize),
    /// The header is no length: a byte that is neither a digit nor the colon, or a colon after no
    /// digit or after a number too large for `usize`.
    Invalid,
}

/// The result of a length header whose digits (the digit bytes seen before the colon) are
/// `digits`: the number they write, unless there are none or it does not fit in `usize`.
pub open spec fn header_result(digits: Seq<u8>) -> HeaderStep {
    if digits.len() == 0 || decimal_value(digits) > usize::MAX {
        HeaderStep::Invalid
    } else {
        HeaderStep::Length(decimal_value(digits) as usize)
    }
}

/// Incremental reader of the `<len>:` header of one message.
pub struct LengthHeader {
    value: usize,
    overflowed: bool,
    seen_digit: bool,
    digits: Ghost<Seq<u8>>,
}

impl LengthHeader {
    /// The digit bytes fed so far.
    pub closed spec fn digits(&self) -> Seq<u8> {
        self.digits@
    }

    pub closed spec fn wf(&self) -> bool {
        &&& (forall|i: int| 0 <= i < self.digits@.len() ==> is_digit(#[trigger] self.digits@[i]))
        &&& self.seen_digit == (self.digits@.len() > 0)
        &&& self.overflowed == (decimal_value(self.digits@) > usize::MAX)
        &&& !self.overflowed ==> self.value == decimal_value(self.digits@)
    }

    /// A header reader that has seen nothing.
    pub fn new() -> (h: LengthHeader)
        ensures
            h.wf(),
            h.digits() == Seq::<u8>::empty(),
    {
        LengthHeader { value: 0, overflowed: false, seen_digit: false, digits: Ghost(Seq::empty()) }
    }

    /// Feeds one byte: a digit is taken, a colon ends the header, any other byte makes it invalid.
    pub fn feed(&mut self, byte: u8) -> (step: HeaderStep)
        requires
            old(self).wf(),
        ensures
            final(self).wf(),
            byte == 58 ==> step == header_result(old(self).digits()) && final(self).digits()
                == old(self).digits(),
            byte != 58 && is_digit(byte) ==> step == HeaderStep::More && final(self).digits()
                == old(self).digits().push(byte),
            byte != 58 && !is_digit(byte) ==> step == HeaderStep::Invalid && final(self).digits()
                == old(self).digits(),
    {
        if byte == 58 {
            return if self.overflowed || !self.seen_digit {
                HeaderStep::Invalid
            } else {
                HeaderStep::Length(self.value)
            };
        }
        if 48 <= byte && byte <= 57 {
            let d = (byte - 48) as usize;
            let ghost old_digits = self.digits@;
            proof {
                let nd = old_digits.push(byte);
                assert(nd.drop_last() =~= old_digits);
                assert(decimal_value(nd) == decimal_value(old_digits) * 10 + d);
            }
            if !self.overflowed {
                if self.value <= (usize::MAX - d) / 10 {
                    self.value = self.value * 10 + d;
                } else {
                    self.overflowed = true;
                }
            }
            self.seen_digit = true;
            self.digits = Ghost(old_digits.push(byte));
            proof {
                assert forall|i: int| 0 <= i < self.digits@.len() implies is_digit(#[trigger] self.digits@[i]) by {
                    if i < old_digits.len() {
                        assert(self.digits@[i] == old_digits[i]);
                    }
                }
            }
            return HeaderStep::More;
        }
        HeaderStep::Invalid
    }
}

/// A frame's length header reads back as the body's length: every byte before the colon of
/// [`frame_of`] is a digit (so a [`LengthHeader`] takes each of them), there is at least one, and
/// the number they write is the length, so the colon yields `Length(body.len())`.
pub proof fn frame_length_reads_back(n: nat)
    requires
        n <= usize::MAX,
    ensures
        decimal_digits(n).len() > 0,
        forall|i: int| 0 <= i < decimal_digits(n).len() ==> is_digit(#[trigger] decimal_digits(n)[i]),
        header_result(decimal_digits(n)) == HeaderStep::Length(n as usize),
{
    lemma_decimal_roundtrip(n);
}

proof fn lemma_decimal_roundtrip(n: nat)
    ensures
        decimal_digits(n).len() > 0,
        forall|i: int| 0 <= i < decimal_digits(n).len() ==> is_digit(#[trigger] decimal_digits(n)[i]),
        decimal_value(decimal_digits(n)) == n,
    decreases n,
{
    if n >= 10 {
        lemma_decimal_roundtrip(n / 10);
        let d = decimal_digits(n);
        assert(d.drop_last() =~= decimal_digits(n / 10));
        vstd::arithmetic::div_mod::lemma_fundamental_div_mod(n as int, 10);
        assert(d.last() == ((n % 10) + 48) as u8);
        assert(decimal_value(d) == decimal_value(decimal_digits(n / 10)) * 10 + (n % 10));
        assert forall|i: int| 0 <= i < d.len() implies is_digit(#[trigger] d[i]) by {
            if i < d.len() - 1 {
                assert(d[i] == decimal_digits(n / 10)[i]);
            }
        }
    } else {
        let d = decimal_digits(n);
        assert(d.drop_last() =~= Seq::<u8>::empty());
        assert(d.last() == (n + 48) as u8);
        assert(((n + 48) as u8) as int == n + 48);
        assert(decimal_value(d.drop_last()) == 0);
        assert(decimal_value(d) == n);
    }
}

} // verus!
