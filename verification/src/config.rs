//! Server configuration: the listen address, built from the values of the
//! `HOST_NAME` and `PORT` environment variables (read by the caller and
//! handed in as plain strings), with defaults for absent values. A present
//! but unparseable port is a fatal startup error, so construction fails
//! rather than fall back to the default.

use vstd::prelude::*;

verus! {

/// Decimal value of the port string `s`: an optional leading `+`, then one
/// or more ASCII digits, rejected on overflow past `u16::MAX`. This is the
/// set of strings the process accepts as a `PORT` value.
pub open spec fn spec_parse_u16(s: Seq<char>) -> Option<u16> {
    let digits = if s.len() > 0 && s[0] == '+' {
        s.drop_first()
    } else {
        s
    };
    if digits.len() == 0 {
        None
    } else {
        spec_u16_digits(digits)
    }
}

/// Value of a (possibly empty) run of decimal digit characters, folded from
/// the left; `None` if a character is not a digit or the value overflows.
pub open spec fn spec_u16_digits(s: Seq<char>) -> Option<u16>
    decreases s.len(),
{
    if s.len() == 0 {
        Some(0u16)
    } else {
        match spec_u16_digits(s.drop_last()) {
            Some(v) => {
                let c = s.last() as int;
                if 0x30 <= c && c <= 0x39 {
                    let d = c - 0x30;
                    if v * 10 + d <= u16::MAX {
                        Some((v * 10 + d) as u16)
                    } else {
                        None
                    }
                } else {
                    None
                }
            },
            None => None,
        }
    }
}

/// Parses a port value as the process does at startup.
pub fn parse_u16(s: &str) -> (r: Option<u16>)
    ensures
        r == spec_parse_u16(s@),
{
    let n = s.unicode_len();
    let start: usize = if n > 0 && s.get_char(0) == '+' {
        1
    } else {
        0
    };
    let ghost digits: Seq<char> = if start == 1 {
        s@.drop_first()
    } else {
        s@
    };
    proof {
        assert(digits =~= s@.skip(start as int));
    }
    if n == start {
        assert(digits.len() == 0);
        return None;
    }
    let mut acc: u16 = 0;
    let mut i: usize = start;
    while i < n
        invariant
            start <= i <= n,
            n == s@.len(),
            start == 1 <==> s@.len() > 0 && s@[0] == '+',
            start == 0 || start == 1,
            digits == (if start == 1 { s@.drop_first() } else { s@ }),
            digits =~= s@.skip(start as int),
            spec_u16_digits(digits.take(i - start)) == Some(acc),
        decreases n - i,
    {
        let c = s.get_char(i);
        proof {
            assert(digits[i - start] == s@[i as int]);
            assert(digits.take(i - start + 1).drop_last() =~= digits.take(i - start));
            assert(digits.take(i - start + 1).last() == digits[i - start]);
        }
        if !('0' <= c && c <= '9') {
            proof {
                lemma_u16_digits_bad_char(digits, i - start);
            }
            return None;
        }
        let d: u16 = (c as u16) - 0x30;
        if acc > 6553 || (acc == 6553 && d > 5) {
            proof {
                lemma_u16_digits_overflow(digits, i - start);
            }
            return None;
        }
        acc = acc * 10 + d;
        i = i + 1;
    }
    proof {
        assert(digits.take(n - start) =~= digits);
    }
    Some(acc)
}

/// If the digit at position `k` of `s` is not a decimal digit, the whole
/// run has no value.
proof fn lemma_u16_digits_bad_char(s: Seq<char>, k: int)
    requires
        0 <= k < s.len(),
        !(0x30 <= s[k] as int && s[k] as int <= 0x39),
    ensures
        spec_u16_digits(s) is None,
    decreases s.len(),
{
    if k == s.len() - 1 {
    } else {
        lemma_u16_digits_bad_char(s.drop_last(), k);
    }
}

/// If a prefix of `s` already has no value, neither has `s`.
proof fn lemma_u16_digits_none_prefix(s: Seq<char>, k: int)
    requires
        0 <= k <= s.len(),
        spec_u16_digits(s.take(k)) is None,
    ensures
        spec_u16_digits(s) is None,
    decreases s.len() - k,
{
    if k == s.len() {
        assert(s.take(k) =~= s);
    } else {
        assert(s.take(k + 1).drop_last() =~= s.take(k));
        lemma_u16_digits_none_prefix(s, k + 1);
    }
}

/// If extending the run at position `k` overflows `u16`, the whole run has
/// no value.
proof fn lemma_u16_digits_overflow(s: Seq<char>, k: int)
    requires
        0 <= k < s.len(),
        spec_u16_digits(s.take(k + 1)) is None,
    ensures
        spec_u16_digits(s) is None,
{
    lemma_u16_digits_none_prefix(s, k + 1);
}

/// The configured listen address. `host_name` defaults to `127.0.0.1` and
/// `port` to `8080` when the corresponding environment variable is absent.
#[derive(Debug)]
pub struct ServerConfig {
    pub host_name: String,
    pub port: u16,
}

impl ServerConfig {
    /// Builds the configuration from the raw environment values, `None`
    /// standing for an absent variable. Returns `None` exactly when a
    /// `PORT` value is present but does not parse as a 16-bit unsigned
    /// integer: that is a fatal startup error.
    pub fn new(host_name: Option<String>, port: Option<String>) -> (r: Option<ServerConfig>)
        ensures
            match port {
                Some(p) => match spec_parse_u16(p@) {
                    Some(v) => r matches Some(c) && c.port == v,
                    None => r is None,
                },
                None => r matches Some(c) && c.port == 8080,
            },
            r matches Some(c) ==> c.host_name@ == match host_name {
                Some(h) => h@,
                None => "127.0.0.1"@,
            },
    {
        let port_value: u16 = match port {
            Some(p) => match parse_u16(p.as_str()) {
                Some(v) => v,
                None => {
                    return None;
                },
            },
            None => 8080,
        };
        let host = match host_name {
            Some(h) => h,
            None => "127.0.0.1".to_owned(),
        };
        Some(ServerConfig { host_name: host, port: port_value })
    }

    /// The `(host, port)` pair the server binds to.
    pub fn to_address(&self) -> (r: (String, u16))
        ensures
            r.0@ == self.host_name@,
            r.1 == self.port,
    {
        (self.host_name.clone(), self.port)
    }
}

} // verus!
