use vstd::prelude::*;
use vstd::string::*;

verus! {

/// Port of the server's control interface when none is given.
pub const DEFAULT_PORT: u16 = 1705;

/// Index of the last `c` in `s`, or -1.
pub open spec fn last_index(s: Seq<char>, c: char) -> int
    decreases s.len(),
{
    if s.len() == 0 {
        -1
    } else if s.last() == c {
        s.len() - 1
    } else {
        last_index(s.drop_last(), c)
    }
}

pub open spec fn is_digit(c: char) -> bool {
    '0' <= c && c <= '9'
}

/// The number that a string of decimal digits spells.
pub open spec fn digits_value(s: Seq<char>) -> int
    decreases s.len(),
{
    if s.len() == 0 {
        0
    } else {
        digits_value(s.drop_last()) * 10 + (s.last() as int - '0' as int)
    }
}

/// `s` without one leading `+`.
pub open spec fn unsigned_part(s: Seq<char>) -> Seq<char> {
    if s.len() > 0 && s[0] == '+' {
        s.drop_first()
    } else {
        s
    }
}

pub open spec fn all_digits(d: Seq<char>) -> bool {
    forall|i: int| 0 <= i < d.len() ==> is_digit(#[trigger] d[i])
}

/// A port number as text: an optional `+`, then one or more decimal digits whose value
/// fits in 16 bits.
pub open spec fn port_of(s: Seq<char>) -> Option<u16> {
    let d = unsigned_part(s);
    if d.len() > 0 && all_digits(d) && digits_value(d) <= u16::MAX {
        Some(digits_value(d) as u16)
    } else {
        None
    }
}

/// A server address `HOST[:PORT]`: split at the last `:` when a port follows it;
/// otherwise all of it is the host and the port is the default.
pub open spec fn server_address(s: Seq<char>) -> Result<(Seq<char>, u16), Seq<char>> {
    let i = last_index(s, ':');
    if i >= 0 && i + 1 < s.len() {
        match port_of(s.skip(i + 1)) {
            Some(p) => Ok((s.take(i), p)),
            None => Err("Invalid port number "@ + s.skip(i + 1)),
        }
    } else {
        Ok((s, DEFAULT_PORT))
    }
}

proof fn lemma_last_index_range(s: Seq<char>, c: char)
    ensures
        -1 <= last_index(s, c) < s.len(),
    decreases s.len(),
{
    if s.len() > 0 {
        lemma_last_index_range(s.drop_last(), c);
    }
}

proof fn lemma_digits_prefix(s: Seq<char>, k: int)
    requires
        0 <= k <= s.len(),
        forall|i: int| 0 <= i < s.len() ==> is_digit(#[trigger] s[i]),
    ensures
        0 <= digits_value(s.take(k)) <= digits_value(s),
    decreases s.len(),
{
    if s.len() > 0 {
        let d = s.drop_last();
        if k == s.len() {
            assert(s.take(k) =~= s);
            lemma_digits_prefix(d, k - 1);
            assert(d.take(k - 1) =~= d);
        } else {
            lemma_digits_prefix(d, k);
            assert(d.take(k) =~= s.take(k));
            lemma_digits_prefix(d, d.len() as int);
            assert(d.take(d.len() as int) =~= d);
        }
    } else {
        assert(s.take(k) =~= s);
    }
}

/// Reads a port number.
fn parse_port(s: &str) -> (r: Option<u16>)
    ensures
        r == port_of(s@),
{
    let n = s.unicode_len();
    let start: usize = if n > 0 && s.get_char(0) == '+' {
        1
    } else {
        0
    };
    let ghost d = unsigned_part(s@);
    assert(d =~= s@.skip(start as int));
    if start >= n {
        return None;
    }
    let mut value: u32 = 0;
    let mut i: usize = start;
    assert(d.take(0) =~= Seq::<char>::empty());
    while i < n
        invariant
            n == s@.len(),
            start <= i <= n,
            d =~= s@.skip(start as int),
            d == unsigned_part(s@),
            forall|j: int| 0 <= j < i - start ==> is_digit(#[trigger] d[j]),
            value == digits_value(d.take(i - start)),
            value <= u16::MAX,
        decreases n - i,
    {
        let c = s.get_char(i);
        if !('0' <= c && c <= '9') {
            assert(d[i - start] == c);
            assert(!all_digits(d));
            return None;
        }
        let digit = (c as u32) - ('0' as u32);
        proof {
            let t = d.take(i - start + 1);
            assert(t.drop_last() =~= d.take(i - start));
            assert(t.last() == c);
        }
        if value > 6553 || value * 10 + digit > 65535 {
            proof {
                assert(digits_value(d.take(i - start + 1)) > u16::MAX);
                if all_digits(d) {
                    lemma_digits_prefix(d, i - start + 1);
                }
            }
            return None;
        }
        value = value * 10 + digit;
        i = i + 1;
    }
    assert(d.take(n - start) =~= d);
    Some(value as u16)
}

/// Index of the last `:` in `s`.
fn last_colon(s: &str) -> (r: Option<usize>)
    ensures
        match r {
            Some(i) => i < s@.len() && last_index(s@, ':') == i,
            None => last_index(s@, ':') == -1,
        },
{
    let n = s.unicode_len();
    let mut k: usize = n;
    assert(s@.take(n as int) =~= s@);
    while k > 0
        invariant
            n == s@.len(),
            k <= n,
            last_index(s@, ':') == last_index(s@.take(k as int), ':'),
        decreases k,
    {
        assert(s@.take(k as int).drop_last() =~= s@.take(k - 1));
        if s.get_char(k - 1) == ':' {
            return Some(k - 1);
        }
        k = k - 1;
    }
    assert(s@.take(0) =~= Seq::<char>::empty());
    None
}

/// Splits a server address `HOST[:PORT]` into host and port. A port, when present after
/// the last `:`, must be a decimal number that fits in 16 bits; without one the default
/// port is used.
pub fn parse_server(s: &str) -> (r: Result<(String, u16), String>)
    ensures
        match r {
            Ok(v) => server_address(s@) == Ok::<(Seq<char>, u16), Seq<char>>((v.0@, v.1)),
            Err(e) => server_address(s@) == Err::<(Seq<char>, u16), Seq<char>>(e@),
        },
{
    let n = s.unicode_len();
    let colon = last_colon(s);
    match colon {
        Some(i) if i + 1 < n => {
            let host = s.substring_char(0, i);
            let port = s.substring_char(i + 1, n);
            assert(host@ =~= s@.take(i as int));
            assert(port@ =~= s@.skip(i + 1));
            match parse_port(port) {
                Some(p) => Ok((String::from_str(host), p)),
                None => Err(String::from_str("Invalid port number ").concat(port)),
            }
        },
        _ => Ok((String::from_str(s), DEFAULT_PORT)),
    }
}

} // verus!
