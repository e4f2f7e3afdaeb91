//! Failures of the frame and varint codecs, and how they read.

use vstd::prelude::*;
use vstd::string::StringExecFns;

verus! {

/// Why encoding or decoding a frame header or a varint failed.
#[derive(Debug, Clone, Copy, PartialEq, Eq, Structural)]
pub enum Error {
    /// The destination buffer cannot hold the next field.
    BufferTooSmall { needed: usize, available: usize },
    /// The input ends before the header or varint is complete.
    IncompleteInput { needed_min: usize, available: usize },
    /// The frame type byte is not one of the known tags.
    InvalidFrameType(u8),
    /// The value does not fit the 62 bits that a varint carries.
    InvalidVarInt,
}

/// The character for the digit `d`, in any base up to 16.
pub open spec fn digit_char(d: nat) -> char {
    if d == 0 {
        '0'
    } else if d == 1 {
        '1'
    } else if d == 2 {
        '2'
    } else if d == 3 {
        '3'
    } else if d == 4 {
        '4'
    } else if d == 5 {
        '5'
    } else if d == 6 {
        '6'
    } else if d == 7 {
        '7'
    } else if d == 8 {
        '8'
    } else if d == 9 {
        '9'
    } else if d == 10 {
        'a'
    } else if d == 11 {
        'b'
    } else if d == 12 {
        'c'
    } else if d == 13 {
        'd'
    } else if d == 14 {
        'e'
    } else {
        'f'
    }
}

/// `n` in decimal, without leading zeros.
pub open spec fn decimal(n: nat) -> Seq<char>
    decreases n,
{
    if n < 10 {
        seq![digit_char(n)]
    } else {
        decimal(n / 10).push(digit_char(n % 10))
    }
}

/// `byte` as two lower-case hexadecimal digits behind `0x`.
pub open spec fn hex_byte(byte: u8) -> Seq<char> {
    seq!['0', 'x', digit_char((byte / 16) as nat), digit_char((byte % 16) as nat)]
}

/// The string of the one digit `d`.
fn digit_str(d: usize) -> (s: &'static str)
    requires
        d < 16,
    ensures
        s@ == seq![digit_char(d as nat)],
{
    proof {
        reveal_strlit("0");
        reveal_strlit("1");
        reveal_strlit("2");
        reveal_strlit("3");
        reveal_strlit("4");
        reveal_strlit("5");
        reveal_strlit("6");
        reveal_strlit("7");
        reveal_strlit("8");
        reveal_strlit("9");
        reveal_strlit("a");
        reveal_strlit("b");
        reveal_strlit("c");
        reveal_strlit("d");
        reveal_strlit("e");
        reveal_strlit("f");
    }
    let s = if d == 0 {
        "0"
    } else if d == 1 {
        "1"
    } else if d == 2 {
        "2"
    } else if d == 3 {
        "3"
    } else if d == 4 {
        "4"
    } else if d == 5 {
        "5"
    } else if d == 6 {
        "6"
    } else if d == 7 {
        "7"
    } else if d == 8 {
        "8"
    } else if d == 9 {
        "9"
    } else if d == 10 {
        "a"
    } else if d == 11 {
        "b"
    } else if d == 12 {
        "c"
    } else if d == 13 {
        "d"
    } else if d == 14 {
        "e"
    } else {
        "f"
    };
    assert(s@ =~= seq![digit_char(d as nat)]);
    s
}

/// Appends `n` in decimal to `out`.
fn push_decimal(out: &mut String, n: usize)
    ensures
        final(out)@ == old(out)@ + decimal(n as nat),
    decreases n,
{
    if n >= 10 {
        push_decimal(out, n / 10);
    }
    out.append(digit_str(n % 10));
    proof {
        if n >= 10 {
            assert(out@ =~= old(out)@ + decimal((n / 10) as nat).push(digit_char((n % 10) as nat)));
        } else {
            assert(out@ =~= old(out)@ + seq![digit_char(n as nat)]);
        }
    }
}

impl Error {
    /// What the error says, for a reader.
    pub open spec fn message(self) -> Seq<char> {
        match self {
            Error::BufferTooSmall { needed, available } => "Buffer too small: needed "@ + decimal(
                needed as nat,
            ) + " bytes, but only "@ + decimal(available as nat) + " available"@,
            Error::IncompleteInput { needed_min, available } => "Incomplete input: need at least "@
                + decimal(needed_min as nat) + " bytes, but only "@ + decimal(available as nat)
                + " available"@,
            Error::InvalidFrameType(tag) => "Invalid frame type: "@ + hex_byte(tag),
            Error::InvalidVarInt => "Invalid VarInt encoding"@,
        }
    }

    /// What the error says, for a reader: which failure it is, with its
    /// byte counts in decimal or its type byte in hexadecimal.
    pub fn to_string(&self) -> (s: String)
        ensures
            s@ == self.message(),
    {
        match self {
            Error::BufferTooSmall { needed, available } => {
                let mut s = String::from_str("Buffer too small: needed ");
                push_decimal(&mut s, *needed);
                s.append(" bytes, but only ");
                push_decimal(&mut s, *available);
                s.append(" available");
                s
            },
            Error::IncompleteInput { needed_min, available } => {
                let mut s = String::from_str("Incomplete input: need at least ");
                push_decimal(&mut s, *needed_min);
                s.append(" bytes, but only ");
                push_decimal(&mut s, *available);
                s.append(" available");
                s
            },
            Error::InvalidFrameType(tag) => {
                let mut s = String::from_str("Invalid frame type: ");
                s.append("0x");
                s.append(digit_str((*tag / 16) as usize));
                s.append(digit_str((*tag % 16) as usize));
                proof {
                    reveal_strlit("0x");
                    assert(s@ =~= "Invalid frame type: "@ + hex_byte(*tag));
                }
                s
            },
            Error::InvalidVarInt => String::from_str("Invalid VarInt encoding"),
        }
    }
}

} // verus!
