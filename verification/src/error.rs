//! The error model: structural decode failures, typed-conversion failures,
//! and propagated read/write failures, each carrying a message.

use vstd::prelude::*;

verus! {

/// An error from decoding or encoding a stream.
///
/// Clean end-of-stream and a truncated final record are not errors: decoders
/// report those as "no more records".
#[derive(Debug, Clone, PartialEq, Eq)]
pub enum DbnError {
    /// A structural violation of the format: bad magic, unsupported version,
    /// metadata shorter than its fixed portion, or a record length shorter
    /// than the record header. Fatal to the current call.
    Decode(String),
    /// The requested concrete record type does not match the record's actual
    /// rtype. Recoverable by falling back to type-erased decoding.
    Conversion(String),
    /// An underlying read or write failed in a way other than clean
    /// end-of-stream. Propagated with the operation in progress.
    Io(String),
}

impl DbnError {
    /// The message carried by the error, whichever kind it is.
    pub fn message(&self) -> (r: &str)
        ensures
            r@ == self.message_spec(),
    {
        match self {
            DbnError::Decode(m) => m.as_str(),
            DbnError::Conversion(m) => m.as_str(),
            DbnError::Io(m) => m.as_str(),
        }
    }

    pub open spec fn message_spec(self) -> Seq<char> {
        match self {
            DbnError::Decode(m) => m@,
            DbnError::Conversion(m) => m@,
            DbnError::Io(m) => m@,
        }
    }
}

/// Does `msg` begin with `prefix`?
pub open spec fn has_prefix(msg: Seq<char>, prefix: Seq<char>) -> bool {
    prefix.len() <= msg.len() && msg.take(prefix.len() as int) == prefix
}

/// Builds an error message of the form `context: detail`, keeping the
/// underlying failure's own text next to the operation in progress.
pub fn context_message(context: &str, detail: &str) -> (s: String)
    ensures
        s@ == context@ + ": "@ + detail@,
{
    let mut s = String::from_str(context);
    s.append(": ");
    s.append(detail);
    s
}

/// The character standing for one decimal digit.
pub open spec fn digit_char(d: nat) -> char {
    if d == 0 {
        '0'
    } else if d == 1 {
        '1'
    } else if d == 2 {
        '2'
    } else if d == 3 {
        '3'
    } else if d == 4 {
        '4'
    } else if d == 5 {
        '5'
    } else if d == 6 {
        '6'
    } else if d == 7 {
        '7'
    } else if d == 8 {
        '8'
    } else {
        '9'
    }
}

/// The decimal digits of `n`, most significant first.
pub open spec fn dec_chars_of(n: nat) -> Seq<char>
    decreases n,
{
    if n < 10 {
        seq![digit_char(n)]
    } else {
        dec_chars_of(n / 10).push(digit_char(n % 10))
    }
}

/// Appends one decimal digit character.
fn append_digit(s: &mut String, d: u64)
    requires
        d < 10,
    ensures
        final(s)@ == old(s)@ + seq![digit_char(d as nat)],
{
    if d == 0 {
        proof {
            reveal_strlit("0");
        }
        s.append("0");
    } else if d == 1 {
        proof {
            reveal_strlit("1");
        }
        s.append("1");
    } else if d == 2 {
        proof {
            reveal_strlit("2");
        }
        s.append("2");
    } else if d == 3 {
        proof {
            reveal_strlit("3");
        }
        s.append("3");
    } else if d == 4 {
        proof {
            reveal_strlit("4");
        }
        s.append("4");
    } else if d == 5 {
        proof {
            reveal_strlit("5");
        }
        s.append("5");
    } else if d == 6 {
        proof {
            reveal_strlit("6");
        }
        s.append("6");
    } else if d == 7 {
        proof {
            reveal_strlit("7");
        }
        s.append("7");
    } else if d == 8 {
        proof {
            reveal_strlit("8");
        }
        s.append("8");
    } else {
        proof {
            reveal_strlit("9");
        }
        s.append("9");
    }
}

/// Appends the decimal digits of `n`.
pub fn append_dec(s: &mut String, n: u64)
    ensures
        final(s)@ == old(s)@ + dec_chars_of(n as nat),
    decreases n,
{
    if n >= 10 {
        append_dec(s, n / 10);
    }
    append_digit(s, n % 10);
    proof {
        if n >= 10 {
            assert(old(s)@ + dec_chars_of((n / 10) as nat) + seq![
                digit_char((n % 10) as nat),
            ] =~= old(s)@ + dec_chars_of(n as nat));
        }
    }
}

} // verus!
