//! Result codes of the compiler's COM interfaces.

use vstd::prelude::*;

verus! {

/// A COM result code. Negative values are failures.
#[derive(Clone, Copy, Debug, PartialEq, Eq, Structural, PartialOrd, Ord)]
#[must_use]
pub struct HRESULT(pub i32);

/// The character of one hexadecimal digit, in lower case.
pub open spec fn hex_digit(d: int) -> char {
    if d < 10 {
        (48 + d) as char
    } else {
        (87 + d) as char
    }
}

/// The hexadecimal digits of `n`, without leading zeros; `"0"` for zero.
pub open spec fn hex_digits(n: nat) -> Seq<char>
    decreases n,
{
    if n < 16 {
        seq![hex_digit(n as int)]
    } else {
        hex_digits(n / 16).push(hex_digit((n % 16) as int))
    }
}

/// A signed number in hexadecimal: a minus sign if it is negative, then
/// `prefix`, then the digits of its magnitude.
pub open spec fn signed_hex(v: int, prefix: Seq<char>) -> Seq<char> {
    let sign = if v < 0 {
        seq!['-']
    } else {
        Seq::<char>::empty()
    };
    let magnitude = if v < 0 {
        -v
    } else {
        v
    };
    sign + prefix + hex_digits(magnitude as nat)
}

/// `String::push` appends the character to the end of the string.
pub assume_specification[ String::push ](text: &mut String, c: char)
    ensures
        final(text)@ == old(text)@.push(c),
;

fn hex_digit_char(d: u8) -> (c: char)
    requires
        d < 16,
    ensures
        c == hex_digit(d as int),
{
    if d < 10 {
        (48 + d) as char
    } else {
        (87 + d) as char
    }
}

/// Appends the hexadecimal digits of `magnitude` to `text`.
fn push_hex_digits(text: &mut String, magnitude: u32)
    ensures
        final(text)@ == old(text)@ + hex_digits(magnitude as nat),
{
    let mut started = false;
    let mut shift: u32 = 32;
    while shift > 0
        invariant
            shift <= 32,
            shift % 4 == 0,
            shift == 0 ==> started,
            !started ==> text@ == old(text)@ && (shift == 32 || magnitude >> shift == 0),
            started ==> shift < 32 && text@ == old(text)@ + hex_digits((magnitude >> shift) as nat),
            started && shift > 0 ==> magnitude >> shift > 0,
        decreases shift,
    {
        let ghost above = if shift == 32 {
            0u32
        } else {
            magnitude >> shift
        };
        shift -= 4;
        let nibble: u32 = (magnitude >> shift) & 0xf;
        let ghost rest = magnitude >> shift;
        proof {
            assert(rest / 16 == above && rest % 16 == nibble && nibble < 16) by (bit_vector)
                requires
                    shift < 32,
                    shift % 4 == 0,
                    rest == magnitude >> shift,
                    nibble == (magnitude >> shift) & 0xf,
                    above == if shift == 28 {
                        0u32
                    } else {
                        magnitude >> ((shift + 4) as u32)
                    },
            ;
        }
        let digit: u8 = nibble as u8;
        if digit != 0 || started || shift == 0 {
            text.push(hex_digit_char(digit));
            assert(text@ =~= old(text)@ + hex_digits(rest as nat));
            started = true;
        }
    }
    assert(magnitude >> shift == magnitude) by (bit_vector)
        requires
            shift == 0,
    ;
}

impl HRESULT {
    /// Whether the code is a failure.
    pub fn is_err(&self) -> (failed: bool)
        ensures
            failed == (self.0 < 0),
    {
        self.0 < 0
    }

    /// The magnitude of the code.
    fn magnitude(&self) -> (m: u32)
        ensures
            m == if self.0 < 0 {
                -self.0
            } else {
                self.0 as int
            },
    {
        if self.0 < 0 {
            (-(self.0 as i64)) as u32
        } else {
            self.0 as u32
        }
    }

    /// The code in hexadecimal with the prefix `0x`, a minus sign first if
    /// the code is a failure: `-0x7ff8fffe` for `0x80070002`.
    pub fn to_string(&self) -> (text: String)
        ensures
            text@ == signed_hex(self.0 as int, seq!['0', 'x']),
    {
        let mut text = String::new();
        if self.0 < 0 {
            text.push('-');
        }
        text.push('0');
        text.push('x');
        push_hex_digits(&mut text, self.magnitude());
        assert(text@ =~= signed_hex(self.0 as int, seq!['0', 'x']));
        text
    }

    /// The code in hexadecimal without a prefix, a minus sign first if the
    /// code is a failure.
    pub fn to_lower_hex(&self) -> (text: String)
        ensures
            text@ == signed_hex(self.0 as int, Seq::empty()),
    {
        let mut text = String::new();
        if self.0 < 0 {
            text.push('-');
        }
        push_hex_digits(&mut text, self.magnitude());
        assert(text@ =~= signed_hex(self.0 as int, Seq::empty()));
        text
    }
}

impl From<i32> for HRESULT {
    fn from(v: i32) -> (code: Self) {
        Self(v)
    }
}

impl vstd::std_specs::convert::FromSpecImpl<i32> for HRESULT {
    open spec fn obeys_from_spec() -> bool {
        true
    }

    open spec fn from_spec(v: i32) -> Self {
        HRESULT(v)
    }
}

} // verus!
