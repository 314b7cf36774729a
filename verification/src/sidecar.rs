//! The sidecar client's own rules: where the sidecar listens, how requests
//! are numbered, how the port it announces is read, and which replies are
//! errors.
use vstd::prelude::*;
use crate::agent::{agent_error_text, AgentError};
use crate::text::{
    chars_of, decimal, digit_char, push_char, push_decimal, skip_ws_backward, skip_ws_forward,
    str_equal, string_of, trim,
};

verus! {

/// The port used until the sidecar has announced its own.
pub const DEFAULT_PORT: u16 = 9876;

/// The sidecar's base URL for a port (the default one when none is known).
pub open spec fn base_url_for(port: Option<u16>) -> Seq<char> {
    "http://127.0.0.1:"@ + decimal(
        match port {
            Some(p) => p as nat,
            None => 9876,
        },
    )
}

/// The sidecar's base URL.
pub fn base_url(port: Option<u16>) -> (s: String)
    ensures
        s@ == base_url_for(port),
{
    let p: u16 = match port {
        Some(p) => p,
        None => DEFAULT_PORT,
    };
    let mut s = string_of("http://127.0.0.1:");
    push_decimal(&mut s, p as u64);
    s
}

/// The id of a request: its kind letter (`r` for a call, `s` for a stream)
/// then its number.
pub fn request_id(kind: char, n: u64) -> (s: String)
    ensures
        s@ == seq![kind] + decimal(n as nat),
{
    let mut s = String::new();
    push_char(&mut s, kind);
    push_decimal(&mut s, n);
    assert(s@ =~= seq![kind] + decimal(n as nat));
    s
}

/// Hands out request numbers 0, 1, 2, ...
pub struct RequestCounter {
    next: u64,
}

impl RequestCounter {
    /// The number the next request gets.
    pub closed spec fn spec_next(&self) -> u64 {
        self.next
    }

    /// A counter starting at 0.
    pub fn new() -> (c: Self)
        ensures
            c.spec_next() == 0,
    {
        RequestCounter { next: 0 }
    }

    /// The number the next `take` hands out.
    pub fn peek(&self) -> (n: u64)
        ensures
            n == self.spec_next(),
    {
        self.next
    }

    /// Takes the next number.
    pub fn take(&mut self) -> (n: u64)
        requires
            old(self).spec_next() < u64::MAX,
        ensures
            n == old(self).spec_next(),
            final(self).spec_next() == n + 1,
    {
        let n = self.next;
        self.next = n + 1;
        n
    }
}

/// Whether `c` is an ASCII digit.
pub open spec fn is_digit(c: char) -> bool {
    '0' <= c <= '9'
}

/// The value of an ASCII digit.
pub open spec fn digit_value(c: char) -> nat {
    ((c as u32) - 48) as nat
}

/// The number written by the digits `s`.
pub open spec fn digits_value(s: Seq<char>) -> nat
    decreases s.len(),
{
    if s.len() == 0 {
        0
    } else {
        digits_value(s.drop_last()) * 10 + digit_value(s.last())
    }
}

/// What `str::parse::<u16>` gives for `s`: an optional `+`, then one or
/// more ASCII digits whose value fits in 16 bits.
pub open spec fn parse_u16(s: Seq<char>) -> Option<u16> {
    let d = unsigned_digits(s);
    if d.len() > 0 && all_digits(d) && digits_value(d) <= 65535 {
        Some(digits_value(d) as u16)
    } else {
        None
    }
}

/// `s` without a leading `+`.
pub open spec fn unsigned_digits(s: Seq<char>) -> Seq<char> {
    if s.len() > 0 && s[0] == '+' {
        s.drop_first()
    } else {
        s
    }
}

/// Whether every character of `s` is an ASCII digit.
pub open spec fn all_digits(s: Seq<char>) -> bool {
    forall|i: int| 0 <= i < s.len() ==> is_digit(#[trigger] s[i])
}

/// More digits never make a smaller number.
proof fn lemma_digits_grow(s: Seq<char>, k: int)
    requires
        0 <= k <= s.len(),
        all_digits(s),
    ensures
        digits_value(s.take(k)) <= digits_value(s),
    decreases s.len() - k,
{
    if k < s.len() {
        lemma_digits_grow(s, k + 1);
        assert(s.take(k + 1).drop_last() =~= s.take(k));
    } else {
        assert(s.take(k) =~= s);
    }
}

/// Reads the port the sidecar announces on its first line: the line
/// without surrounding whitespace, as a 16-bit number.
pub fn parse_port(line: &str) -> (r: Result<u16, AgentError>)
    ensures
        match parse_u16(trim(line@)) {
            Some(p) => r == Ok::<u16, AgentError>(p),
            None => r matches Err(e) && agent_error_text(e) == "agent subprocess crashed: "@
                + "Parse port"@,
        },
{
    let v = chars_of(line);
    let lo = skip_ws_forward(&v, 0, v.len());
    let hi = skip_ws_backward(&v, lo, v.len());
    let ghost t = trim(line@);
    proof {
        assert(v@.subrange(0, v.len() as int) =~= line@);
        assert(t =~= v@.subrange(lo as int, hi as int));
    }
    let mut i = lo;
    if i < hi && v[i] == '+' {
        i = i + 1;
    }
    let ghost d = v@.subrange(i as int, hi as int);
    proof {
        if lo < hi && v@[lo as int] == '+' {
            assert(t[0] == '+');
            assert(t.drop_first() =~= d);
        } else {
            if t.len() > 0 {
                assert(t[0] == v@[lo as int]);
            }
            assert(t =~= d);
        }
    }
    let start = i;
    if start == hi {
        return Err(AgentError::SubprocessCrashed(string_of("Parse port")));
    }
    let mut acc: u32 = 0;
    while i < hi
        invariant
            start <= i <= hi <= v.len(),
            d == v@.subrange(start as int, hi as int),
            t == trim(line@),
            d == unsigned_digits(t),
            d.len() > 0,
            forall|j: int| 0 <= j < i - start ==> is_digit(#[trigger] d[j]),
            acc == digits_value(d.take(i - start)),
            acc <= 65535,
        decreases hi - i,
    {
        let c = v[i];
        assert(d[i - start] == c);
        if !('0' <= c && c <= '9') {
            assert(!is_digit(d[i - start]));
            return Err(AgentError::SubprocessCrashed(string_of("Parse port")));
        }
        assert(d.take(i - start + 1).drop_last() =~= d.take(i - start));
        assert(d.take(i - start + 1).last() == c);
        let next: u32 = acc * 10 + ((c as u32) - 48);
        if next > 65535 {
            proof {
                if all_digits(d) {
                    lemma_digits_grow(d, i - start + 1);
                }
            }
            return Err(AgentError::SubprocessCrashed(string_of("Parse port")));
        }
        acc = next;
        i = i + 1;
    }
    assert(d.take(d.len() as int) =~= d);
    Ok(acc as u16)
}

/// The error a sidecar reply stands for: a reply of type `error` is the
/// agent's error, with its message (`Unknown` when it has none); any other
/// reply carries a result.
pub open spec fn reply_error_text(kind: Option<Seq<char>>, message: Option<Seq<char>>) -> Option<
    Seq<char>,
> {
    if kind == Some("error"@) {
        Some(
            "agent returned an error: "@ + match message {
                Some(m) => m,
                None => "Unknown"@,
            },
        )
    } else {
        None
    }
}

/// Checks a sidecar reply by its `type` and `error.message` fields.
pub fn rpc_reply_error(kind: Option<&str>, message: Option<&str>) -> (r: Option<AgentError>)
    ensures
        match r {
            Some(e) => reply_error_text(
                match kind {
                    Some(k) => Some(k@),
                    None => None,
                },
                match message {
                    Some(m) => Some(m@),
                    None => None,
                },
            ) == Some(agent_error_text(e)) && e is AgentReturnedError,
            None => reply_error_text(
                match kind {
                    Some(k) => Some(k@),
                    None => None,
                },
                match message {
                    Some(m) => Some(m@),
                    None => None,
                },
            ) is None,
        },
{
    let is_error = match kind {
        Some(k) => str_equal(k, "error"),
        None => false,
    };
    if is_error {
        let m = match message {
            Some(m) => string_of(m),
            None => string_of("Unknown"),
        };
        Some(AgentError::AgentReturnedError(m))
    } else {
        None
    }
}

proof fn lemma_digit_char_value(d: nat)
    requires
        d < 10,
    ensures
        is_digit(digit_char(d)),
        digit_value(digit_char(d)) == d,
        digit_char(d) != '+',
{
}

/// The decimal notation of any number is all digits, does not start with
/// `+`, and is read back as that number.
proof fn lemma_decimal_digits(n: nat)
    ensures
        decimal(n).len() > 0,
        all_digits(decimal(n)),
        digits_value(decimal(n)) == n,
        decimal(n)[0] != '+',
    decreases n,
{
    let d = decimal(n);
    lemma_digit_char_value(n % 10);
    if n < 10 {
        assert(n % 10 == n);
        assert(d.drop_last() =~= Seq::<char>::empty());
        assert(digits_value(d) == digits_value(d.drop_last()) * 10 + digit_value(d.last()));
    } else {
        lemma_decimal_digits(n / 10);
        let p = decimal(n / 10);
        assert(d.drop_last() =~= p);
        assert(d[0] == p[0]);
        assert forall|i: int| 0 <= i < d.len() implies is_digit(#[trigger] d[i]) by {
            if i < p.len() {
                assert(d[i] == p[i]);
            }
        }
        assert(d.last() == digit_char(n % 10));
        assert(digits_value(d) == digits_value(p) * 10 + digit_value(d.last()));
        assert((n / 10) * 10 + n % 10 == n);
    }
}

/// Port law: the decimal notation of a port (as the sidecar announces it,
/// and as `base_url` writes it) is read back by the port parser as that
/// same port.
pub proof fn lemma_port_round_trip(p: u16)
    ensures
        parse_u16(decimal(p as nat)) == Some(p),
{
    lemma_decimal_digits(p as nat);
}

/// Request-id law: requests numbered differently get different ids, so the
/// ids handed out by a `RequestCounter` never repeat.
pub proof fn lemma_request_ids_distinct(kind: char, a: u64, b: u64)
    requires
        a != b,
    ensures
        seq![kind] + decimal(a as nat) != seq![kind] + decimal(b as nat),
{
    lemma_decimal_digits(a as nat);
    lemma_decimal_digits(b as nat);
    if seq![kind] + decimal(a as nat) == seq![kind] + decimal(b as nat) {
        assert((seq![kind] + decimal(a as nat)).drop_first() =~= decimal(a as nat));
        assert((seq![kind] + decimal(b as nat)).drop_first() =~= decimal(b as nat));
    }
}

} // verus!
