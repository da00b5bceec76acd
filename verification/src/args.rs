//! What the command line and the environment configure: the message
//! options and the three backends.

use vstd::prelude::*;
use crate::parser::EmailAddress;
use crate::text::{chars_of, string_of};

verus! {

/// The configuration of the backends. The first one that is configured,
/// in the order file, SMTP relay, API, is the one that is used.
#[derive(Debug, Clone)]
pub struct BackendConfig {
    /// The file backend.
    pub file: FileBackendConfig,
    /// The SMTP relay backend.
    pub smtp_relay: SmtpRelayConfig,
    /// The REST API backend.
    pub api: ApiBackendConfig,
}

/// File backend configuration (for debugging).
#[derive(Debug, Clone)]
pub struct FileBackendConfig {
    /// Path to the output file.
    pub file_path: Option<String>,
}

/// How the connection to the SMTP relay is secured.
#[derive(Debug, Clone, Copy, PartialEq, Eq)]
pub enum SmtpRelayProtocol {
    /// Use TLS encryption.
    Tls,
    /// Use STARTTLS encryption.
    StartTls,
    /// Use plain text.
    Plain,
    /// Attempt STARTTLS if available, otherwise use plain text.
    Opportunistic,
}

/// SMTP relay backend configuration.
#[derive(Debug, Clone)]
pub struct SmtpRelayConfig {
    /// SMTP relay host.
    pub relay_host: Option<String>,
    /// SMTP relay port.
    pub relay_port: u16,
    /// SMTP relay protocol.
    pub relay_proto: SmtpRelayProtocol,
    /// SMTP relay username.
    pub relay_user: Option<String>,
    /// SMTP relay password.
    pub relay_pass: Option<String>,
}

/// Backend REST API configuration.
#[derive(Debug, Clone)]
pub struct ApiBackendConfig {
    /// URL of the mail endpoint.
    pub api_url: Option<String>,
    /// Default sender of the mail.
    pub api_sender: Option<String>,
    /// Token which identifies the caller to the backend server.
    pub api_token: Option<String>,
}

/// The options of one call, as the command line gives them.
#[derive(Debug, Clone)]
pub struct SendmailArgs {
    /// Read recipients from message headers (To, Cc, Bcc).
    pub read_recipients_from_headers: bool,
    /// Ignore dots in message body.
    pub ignore_dot: bool,
    /// The envelope sender address.
    pub from: Option<EmailAddress>,
    /// The full name (display name) for the From header.
    pub fullname: Option<String>,
    /// How verbose the log is.
    pub verbosity: u8,
    /// Recipient addresses (ignored when reading recipients from headers).
    pub recipients: Vec<EmailAddress>,
    /// The backends.
    pub backend_config: BackendConfig,
}

/// An ASCII digit.
pub open spec fn is_digit(c: char) -> bool {
    '0' <= c && c <= '9'
}

/// The number that the decimal digits `digits` write.
pub open spec fn digits_value(digits: Seq<char>) -> int
    decreases digits.len(),
{
    if digits.len() == 0 {
        0
    } else {
        digits_value(digits.drop_last()) * 10 + (digits.last() as int - '0' as int)
    }
}

/// The number that `s` writes in decimal: an optional sign, `+` or `-`,
/// and then one digit or more, with nothing before, between or behind them.
pub open spec fn signed_decimal(s: Seq<char>) -> Option<int> {
    let signed = s.len() > 0 && (s[0] == '+' || s[0] == '-');
    let digits = if signed {
        s.drop_first()
    } else {
        s
    };
    if digits.len() > 0 && all_digits(digits) {
        if s[0] == '-' {
            Some(-digits_value(digits))
        } else {
            Some(digits_value(digits))
        }
    } else {
        None
    }
}

/// The `i64` that `s` writes in decimal, if it writes one.
pub open spec fn decimal_i64(s: Seq<char>) -> Option<i64> {
    match signed_decimal(s) {
        Some(value) => if i64::MIN <= value <= i64::MAX {
            Some(value as i64)
        } else {
            None
        },
        None => None,
    }
}

/// All characters of `digits` are decimal digits.
pub open spec fn all_digits(digits: Seq<char>) -> bool {
    forall|i: int| 0 <= i < digits.len() ==> is_digit(#[trigger] digits[i])
}

/// The value of decimal digits is not negative, and is not less than the
/// value of the first `k` of them.
pub proof fn lemma_digits_value_grows(digits: Seq<char>, k: int)
    requires
        all_digits(digits),
        0 <= k <= digits.len(),
    ensures
        0 <= digits_value(digits.take(k)) <= digits_value(digits),
    decreases digits.len(),
{
    if k == digits.len() {
        assert(digits.take(k) =~= digits);
        if k > 0 {
            lemma_digits_value_grows(digits.drop_last(), k - 1);
        }
    } else {
        assert(digits.drop_last().take(k) =~= digits.take(k));
        lemma_digits_value_grows(digits.drop_last(), k);
    }
}

/// Reads `s` as a decimal number of type `i64`: an optional sign, `+` or
/// `-`, and then one digit or more, with nothing before, between or behind
/// them. A text that is written otherwise, and a number outside the range
/// of `i64`, give `None`.
pub fn parse_i64(s: &str) -> (r: Option<i64>)
    ensures
        r == decimal_i64(s@),
{
    let chars = chars_of(s);
    let signed = chars.len() > 0 && (chars[0] == '+' || chars[0] == '-');
    let negative = chars.len() > 0 && chars[0] == '-';
    let start: usize = if signed {
        1
    } else {
        0
    };
    let ghost digits = if signed {
        chars@.drop_first()
    } else {
        chars@
    };
    if chars.len() == start {
        return None;
    }
    // The largest magnitude that fits: one more for a negative number.
    let limit: u128 = if negative {
        0x8000_0000_0000_0000
    } else {
        0x7fff_ffff_ffff_ffff
    };
    let mut magnitude: u128 = 0;
    let mut i: usize = start;
    assert(digits.take(0) =~= Seq::empty());
    while i < chars.len()
        invariant
            start <= i <= chars.len(),
            start < chars.len(),
            chars@ == s@,
            signed == (chars@[0] == '+' || chars@[0] == '-'),
            negative == (chars@[0] == '-'),
            start == if signed {
                1usize
            } else {
                0usize
            },
            digits == if signed {
                chars@.drop_first()
            } else {
                chars@
            },
            limit == if negative {
                0x8000_0000_0000_0000u128
            } else {
                0x7fff_ffff_ffff_ffffu128
            },
            all_digits(digits.take(i - start)),
            magnitude == digits_value(digits.take(i - start)),
            magnitude <= limit,
        decreases chars.len() - i,
    {
        let c = chars[i];
        let ghost k = i - start;
        assert(digits.take(k + 1).drop_last() =~= digits.take(k));
        assert(digits.take(k + 1).last() == c);
        if !('0' <= c && c <= '9') {
            assert(!is_digit(digits[k]));
            return None;
        }
        let digit: u128 = (c as u8 - 48) as u128;
        let next: u128 = magnitude * 10 + digit;
        assert(next == digits_value(digits.take(k + 1)));
        assert(all_digits(digits.take(k + 1))) by {
            assert forall|n: int| 0 <= n < k + 1 implies is_digit(
                #[trigger] digits.take(k + 1)[n],
            ) by {
                if n < k {
                    assert(digits.take(k + 1)[n] == digits.take(k)[n]);
                }
            }
        }
        if next > limit {
            proof {
                // Whatever follows, the number only grows.
                if all_digits(digits) {
                    lemma_digits_value_grows(digits, k + 1);
                }
            }
            return None;
        }
        magnitude = next;
        i += 1;
    }
    assert(digits.take(digits.len() as int) =~= digits);
    if negative {
        if magnitude == 0x8000_0000_0000_0000 {
            Some(i64::MIN)
        } else {
            Some(-(magnitude as i64))
        }
    } else {
        Some(magnitude as i64)
    }
}

/// The decimal digits of `n`, without a sign.
pub open spec fn digits_of(n: nat) -> Seq<char>
    decreases n,
{
    if n < 10 {
        seq![('0' as u8 + n as u8) as char]
    } else {
        digits_of(n / 10).push(('0' as u8 + (n % 10) as u8) as char)
    }
}

/// `n` written in decimal, with a minus sign if it is negative.
pub open spec fn decimal_text(n: int) -> Seq<char> {
    if n < 0 {
        seq!['-'] + digits_of((-n) as nat)
    } else {
        digits_of(n as nat)
    }
}

/// Writes `n` in decimal.
pub fn decimal(n: i64) -> (text: String)
    ensures
        text@ == decimal_text(n as int),
{
    // The digits are found from the last to the first.
    let mut rest: u64 = if n < 0 {
        (-(n + 1)) as u64 + 1
    } else {
        n as u64
    };
    let ghost whole = rest as nat;
    let mut reversed: Vec<char> = Vec::new();
    reversed.push((48u8 + (rest % 10) as u8) as char);
    rest = rest / 10;
    while rest > 0
        invariant
            reversed@.len() > 0,
            digits_of(whole) == if rest == 0 {
                reversed@.reverse()
            } else {
                digits_of(rest as nat) + reversed@.reverse()
            },
        decreases rest,
    {
        let ghost before = reversed@;
        let ghost r = rest as nat;
        reversed.push((48u8 + (rest % 10) as u8) as char);
        rest = rest / 10;
        proof {
            assert(reversed@.reverse() =~= seq![reversed@.last()] + before.reverse());
            if r < 10 {
                assert(digits_of(r) + before.reverse() =~= reversed@.reverse());
            } else {
                assert(digits_of(r) + before.reverse() =~= digits_of(r / 10)
                    + reversed@.reverse());
            }
        }
    }
    let mut out: Vec<char> = Vec::new();
    if n < 0 {
        out.push('-');
    }
    let ghost sign = out@;
    let mut i: usize = reversed.len();
    while i > 0
        invariant
            i <= reversed.len(),
            out@ == sign + reversed@.reverse().take(reversed.len() - i),
        decreases i,
    {
        i -= 1;
        out.push(reversed[i]);
        assert(out@ =~= sign + reversed@.reverse().take(reversed.len() - i));
    }
    assert(reversed@.reverse().take(reversed.len() as int) =~= reversed@.reverse());
    assert(out@ =~= decimal_text(n as int));
    string_of(out.as_slice())
}

/// What [`parse_port`] makes of a text that parses to `parsed` as a number.
pub open spec fn port_of(s: Seq<char>, parsed: Option<i64>) -> Result<u16, Seq<char>> {
    match parsed {
        None => Err("Invalid port: "@ + s),
        Some(port) => if 1 <= port <= 65535 {
            Ok(port as u16)
        } else {
            Err("Port must be between 1 and 65535: "@ + decimal_text(port as int))
        },
    }
}

/// The result `r` and the model `m` are the same: the same port, or an
/// error with the same text.
pub open spec fn same_port(r: Result<u16, String>, m: Result<u16, Seq<char>>) -> bool {
    match (r, m) {
        (Ok(a), Ok(b)) => a == b,
        (Err(a), Err(b)) => a@ == b,
        _ => false,
    }
}

/// Reads a port number: a decimal number from 1 to 65535. A text that is
/// no number, and a number outside that range, are refused with a message
/// that names them.
pub fn parse_port(s: &str) -> (r: Result<u16, String>)
    ensures
        same_port(r, port_of(s@, decimal_i64(s@))),
{
    match parse_i64(s) {
        None => {
            let mut message = String::from_str("Invalid port: ");
            message.append(s);
            Err(message)
        },
        Some(port) => {
            if port < 1 || port > 65535 {
                let mut message = String::from_str("Port must be between 1 and 65535: ");
                message.append(decimal(port).as_str());
                Err(message)
            } else {
                Ok(port as u16)
            }
        },
    }
}

} // verus!
