//! Unified error types.
use vstd::prelude::*;

verus! {

/// `std::io::Error`, carried unopened in `SshError::Io`.
#[verifier::external_type_specification]
#[verifier::external_body]
pub struct ExIoError(std::io::Error);

/// Central error type for SwiftSSH operations.
#[derive(Debug)]
pub enum SshError {
    Io(std::io::Error),
    Protocol(String),
    KeyExchange(String),
    AuthFailed(String),
    Channel(String),
    Sftp(String),
    Encryption(String),
    Decryption(String),
    MacMismatch,
    InvalidPacket(String),
    UnexpectedMessage(u8),
    ConnectionClosed,
    Timeout,
    UnsupportedAlgorithm(String),
}

pub type SshResult<T> = Result<T, SshError>;

/// The character of the decimal digit `d` (a value below ten).
pub open spec fn digit_char(d: u64) -> char {
    if d == 0 {
        '0'
    } else if d == 1 {
        '1'
    } else if d == 2 {
        '2'
    } else if d == 3 {
        '3'
    } else if d == 4 {
        '4'
    } else if d == 5 {
        '5'
    } else if d == 6 {
        '6'
    } else if d == 7 {
        '7'
    } else if d == 8 {
        '8'
    } else {
        '9'
    }
}

/// The decimal rendering of an unsigned number: its digits, most significant
/// first, with no leading zero (`0` is the single digit `0`).
pub open spec fn decimal_text(n: u64) -> Seq<char>
    decreases n,
{
    if n < 10 {
        seq![digit_char(n)]
    } else {
        decimal_text(n / 10) + seq![digit_char(n % 10)]
    }
}

/// The one-character text of the decimal digit `d`.
fn digit_str(d: u64) -> (r: &'static str)
    requires
        d < 10,
    ensures
        r@ == seq![digit_char(d)],
{
    if d == 0 {
        proof {
            reveal_strlit("0");
        }
        "0"
    } else if d == 1 {
        proof {
            reveal_strlit("1");
        }
        "1"
    } else if d == 2 {
        proof {
            reveal_strlit("2");
        }
        "2"
    } else if d == 3 {
        proof {
            reveal_strlit("3");
        }
        "3"
    } else if d == 4 {
        proof {
            reveal_strlit("4");
        }
        "4"
    } else if d == 5 {
        proof {
            reveal_strlit("5");
        }
        "5"
    } else if d == 6 {
        proof {
            reveal_strlit("6");
        }
        "6"
    } else if d == 7 {
        proof {
            reveal_strlit("7");
        }
        "7"
    } else if d == 8 {
        proof {
            reveal_strlit("8");
        }
        "8"
    } else {
        proof {
            reveal_strlit("9");
        }
        "9"
    }
}

/// Appends the decimal rendering of `n` to `s`.
fn append_decimal(s: &mut String, n: u64)
    ensures
        final(s)@ == old(s)@ + decimal_text(n),
    decreases n,
{
    if n >= 10 {
        append_decimal(s, n / 10);
    }
    s.append(digit_str(n % 10));
    proof {
        if n < 10 {
            assert(n % 10 == n);
        }
        assert(s@ =~= old(s)@ + decimal_text(n));
    }
}

/// `prefix` followed by the decimal rendering of `n`.
pub(crate) fn text_with_number(prefix: &str, n: u64) -> (r: String)
    ensures
        r@ == prefix@ + decimal_text(n),
{
    let mut s = String::from_str(prefix);
    append_decimal(&mut s, n);
    s
}

} // verus!
