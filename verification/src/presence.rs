//! Which bot a process is polling. A Telegram token is `<bot_id>:<secret>`; only the id
//! is ever published, so the secret never lands in a world-readable file.
use vstd::prelude::*;

verus! {

broadcast use vstd::string::axiom_spec_iter;

/// The announcement one polling process publishes.
#[derive(Debug, Clone)]
pub struct Presence {
    /// The numeric bot id, the part of the token before the colon. Never the secret.
    pub bot_id: i64,
    /// The @username, for a message a human can act on without decoding an id.
    pub username: String,
    /// The announcing process. A reader asks the OS whether it is still alive.
    pub pid: u32,
    pub started_at: String,
}

/// Unicode `White_Space`, the characters `str::trim` removes.
pub open spec fn is_ws(c: char) -> bool {
    let u = c as u32;
    (0x9 <= u <= 0xD) || u == 0x20 || u == 0x85 || u == 0xA0 || u == 0x1680 || (0x2000 <= u <= 0x200A)
        || u == 0x2028 || u == 0x2029 || u == 0x202F || u == 0x205F || u == 0x3000
}

/// `s` without leading white space.
pub open spec fn trim_start(s: Seq<char>) -> Seq<char>
    decreases s.len(),
{
    if s.len() > 0 && is_ws(s[0]) { trim_start(s.drop_first()) } else { s }
}

/// `s` without trailing white space.
pub open spec fn trim_end(s: Seq<char>) -> Seq<char>
    decreases s.len(),
{
    if s.len() > 0 && is_ws(s.last()) { trim_end(s.drop_last()) } else { s }
}

/// `s` without leading or trailing white space.
pub open spec fn trim(s: Seq<char>) -> Seq<char> {
    trim_end(trim_start(s))
}

/// Whether a character is an ASCII decimal digit.
pub open spec fn is_digit_char(c: char) -> bool {
    '0' <= c <= '9'
}

/// The value of a string of decimal digits.
pub open spec fn digits_value(d: Seq<char>) -> nat
    decreases d.len(),
{
    if d.len() == 0 { 0 } else { digits_value(d.drop_last()) * 10 + (d.last() as nat - 48) as nat }
}

/// How `i64::from_str` reads a string: an optional `+` or `-`, then one or more decimal
/// digits and nothing else, in the range of `i64`.
pub open spec fn parse_i64(s: Seq<char>) -> Option<i64> {
    let d = unsigned_part(s);
    if d.len() == 0 || !all_digit_chars(d) {
        None
    } else if s.len() > 0 && s[0] == '-' {
        if digits_value(d) <= 0x8000_0000_0000_0000 { Some((0 - digits_value(d)) as i64) } else { None }
    } else {
        if digits_value(d) <= 0x7FFF_FFFF_FFFF_FFFF { Some(digits_value(d) as i64) } else { None }
    }
}

/// A number's text without its sign, if it has one.
pub open spec fn unsigned_part(s: Seq<char>) -> Seq<char> {
    if s.len() > 0 && (s[0] == '-' || s[0] == '+') { s.drop_first() } else { s }
}

/// Every character is a decimal digit.
pub open spec fn all_digit_chars(d: Seq<char>) -> bool {
    forall|i: int| 0 <= i < d.len() ==> is_digit_char(#[trigger] d[i])
}

/// The position of the first colon in `s`, if any.
pub open spec fn first_colon(s: Seq<char>) -> Option<int> {
    if exists|i: int| 0 <= i < s.len() && s[i] == ':' {
        Some(choose|i: int| 0 <= i < s.len() && s[i] == ':' && forall|j: int| 0 <= j < i ==> s[j] != ':')
    } else {
        None
    }
}

/// The bot id of a token: the text before its first colon, trimmed, read as an `i64`.
pub open spec fn bot_id_spec(token: Seq<char>) -> Option<i64> {
    match first_colon(token) {
        Some(i) => parse_i64(trim(token.take(i))),
        None => None,
    }
}

/// The id depends only on what precedes the first colon: whatever secret follows, the
/// id is the same, and so the secret can never be recovered from it.
pub proof fn the_secret_never_reaches_the_id(prefix: Seq<char>, secret: Seq<char>)
    requires
        forall|i: int| 0 <= i < prefix.len() ==> prefix[i] != ':',
    ensures
        bot_id_spec(prefix + seq![':'] + secret) == parse_i64(trim(prefix)),
{
    let t = prefix + seq![':'] + secret;
    let n = prefix.len() as int;
    assert(t[n] == ':');
    assert(forall|j: int| 0 <= j < n ==> t[j] == prefix[j]);
    let k = choose|k: int| 0 <= k < t.len() && t[k] == ':' && forall|j: int| 0 <= j < k ==> t[j] != ':';
    assert(0 <= k < t.len() && t[k] == ':' && forall|j: int| 0 <= j < k ==> t[j] != ':') by {
        assert(0 <= n < t.len() && t[n] == ':' && forall|j: int| 0 <= j < n ==> t[j] != ':');
    }
    if k < n {
        assert(t[k] == prefix[k]);
    }
    if k > n {
        assert(t[n] != ':');
    }
    assert(t.take(n) =~= prefix);
}

/// Digits only grow a number as more are appended.
proof fn digits_value_grows(d: Seq<char>, k: int)
    requires
        0 <= k <= d.len(),
        forall|i: int| 0 <= i < d.len() ==> is_digit_char(#[trigger] d[i]),
    ensures
        digits_value(d.take(k)) <= digits_value(d),
    decreases d.len() - k,
{
    if k < d.len() {
        digits_value_grows(d, k + 1);
        assert(d.take(k + 1).drop_last() =~= d.take(k));
    } else {
        assert(d.take(k) =~= d);
    }
}

/// Strip leading white space from a vector of characters, as `trim_start` says.
pub fn trim_range(s: &Vec<char>) -> (r: (usize, usize))
    ensures
        r.0 <= r.1 <= s@.len(),
        s@.subrange(r.0 as int, r.1 as int) == trim(s@),
        s@.skip(r.0 as int) == trim_start(s@),
{
    let mut a: usize = 0;
    assert(s@.skip(0) =~= s@);
    while a < s.len() && is_ws_exec(s[a])
        invariant
            a <= s@.len(),
            trim_start(s@.skip(a as int)) == trim_start(s@),
        decreases s@.len() - a,
    {
        assert(s@.skip(a as int).drop_first() =~= s@.skip(a + 1));
        a = a + 1;
    }
    let ghost t = s@.skip(a as int);
    assert(trim_start(t) == t);
    let mut b: usize = s.len();
    while b > a && is_ws_exec(s[b - 1])
        invariant
            a <= b <= s@.len(),
            t == s@.skip(a as int),
            trim_end(s@.subrange(a as int, b as int)) == trim_end(t),
        decreases b,
    {
        assert(s@.subrange(a as int, b as int).drop_last() =~= s@.subrange(a as int, b - 1));
        b = b - 1;
    }
    assert(s@.subrange(a as int, s@.len() as int) =~= t);
    (a, b)
}

/// Whether `c` is white space, as `is_ws` says.
fn is_ws_exec(c: char) -> (r: bool)
    ensures
        r == is_ws(c),
{
    let u = c as u32;
    (0x9 <= u && u <= 0xD) || u == 0x20 || u == 0x85 || u == 0xA0 || u == 0x1680 || (0x2000 <= u && u <= 0x200A)
        || u == 0x2028 || u == 0x2029 || u == 0x202F || u == 0x205F || u == 0x3000
}

/// Read `s[a..b]` as an `i64`, as `parse_i64` says.
pub(crate) fn parse_i64_exec(s: &Vec<char>, a: usize, b: usize) -> (r: Option<i64>)
    requires
        a <= b <= s@.len(),
    ensures
        r == parse_i64(s@.subrange(a as int, b as int)),
{
    let ghost t = s@.subrange(a as int, b as int);
    let mut start = a;
    let mut neg = false;
    if a < b && (s[a] == '-' || s[a] == '+') {
        neg = s[a] == '-';
        start = a + 1;
    }
    assert(neg == (t.len() > 0 && t[0] == '-'));
    let ghost d = s@.subrange(start as int, b as int);
    assert(d =~= unsigned_part(t));
    if start >= b {
        return None;
    }
    let mut v: u64 = 0;
    let mut i = start;
    while i < b
        invariant
            a <= start <= i <= b <= s@.len(),
            d == s@.subrange(start as int, b as int),
            t == s@.subrange(a as int, b as int),
            d == unsigned_part(t),
            neg == (t.len() > 0 && t[0] == '-'),
            forall|k: int| start <= k < i ==> is_digit_char(#[trigger] s@[k]),
            v == digits_value(s@.subrange(start as int, i as int)),
            v <= 0x8000_0000_0000_0000,
        decreases b - i,
    {
        let c = s[i];
        if !('0' <= c && c <= '9') {
            assert(d[i - start] == s@[i as int]);
            assert(!is_digit_char(d[i - start]));
            assert(!all_digit_chars(d));
            assert(parse_i64(t) is None);
            return None;
        }
        assert(s@.subrange(start as int, i + 1).drop_last() =~= s@.subrange(start as int, i as int));
        let digit = (c as u32 - 48) as u64;
        if v > 0x0CCC_CCCC_CCCC_CCCC || v * 10 + digit > 0x8000_0000_0000_0000 {
            proof {
                let p = s@.subrange(start as int, i + 1);
                assert(digits_value(p) > 0x8000_0000_0000_0000);
                if all_digit_chars(d) {
                    digits_value_grows(d, i + 1 - start);
                    assert(d.take(i + 1 - start) =~= p);
                    assert(digits_value(d) > 0x8000_0000_0000_0000);
                }
                assert(parse_i64(t) is None);
            }
            return None;
        }
        v = v * 10 + digit;
        i = i + 1;
    }
    assert(s@.subrange(start as int, b as int) =~= d);
    if neg {
        if v == 0x8000_0000_0000_0000 {
            Some(i64::MIN)
        } else {
            Some(0 - (v as i64))
        }
    } else if v <= 0x7FFF_FFFF_FFFF_FFFF {
        Some(v as i64)
    } else {
        None
    }
}

/// The bot id carried by a token, without keeping the token: the part before the first
/// colon, trimmed, read as a number. `None` for anything that is not `<digits>:<secret>`:
/// inventing an id would make two unrelated bots look like one.
pub fn bot_id_of(token: &str) -> (r: Option<i64>)
    ensures
        r == bot_id_spec(token@),
{
    let mut prefix: Vec<char> = Vec::new();
    let mut found = false;
    for c in it: token.chars()
        invariant
            it.seq() == token@,
            !found ==> prefix@ == token@.take(it.index() as int) && forall|j: int| 0 <= j < it.index() ==> token@[j] != ':',
            found ==> token@[prefix@.len() as int] == ':' && prefix@.len() < token@.len()
                && prefix@ == token@.take(prefix@.len() as int)
                && forall|j: int| 0 <= j < prefix@.len() ==> token@[j] != ':',
    {
        if !found {
            if c == ':' {
                found = true;
            } else {
                prefix.push(c);
                assert(prefix@ =~= token@.take(it.index() + 1));
            }
        }
    }
    if !found {
        assert(!(exists|i: int| 0 <= i < token@.len() && token@[i] == ':'));
        return None;
    }
    let ghost i = prefix@.len() as int;
    assert(first_colon(token@) == Some(i)) by {
        let k = choose|k: int| 0 <= k < token@.len() && token@[k] == ':' && forall|j: int| 0 <= j < k ==> token@[j] != ':';
        assert(0 <= k < token@.len() && token@[k] == ':' && forall|j: int| 0 <= j < k ==> token@[j] != ':') by {
            assert(0 <= i < token@.len() && token@[i] == ':' && forall|j: int| 0 <= j < i ==> token@[j] != ':');
        }
        if k < i {
            assert(token@[k] != ':');
        }
        if k > i {
            assert(token@[i] != ':');
        }
    }
    let (a, b) = trim_range(&prefix);
    parse_i64_exec(&prefix, a, b)
}

/// How an unsigned integer type's `from_str` reads a string: an optional `+`, then one
/// or more decimal digits and nothing else, at most `max`.
pub open spec fn parse_unsigned(s: Seq<char>, max: u64) -> Option<u64> {
    let d = if s.len() > 0 && s[0] == '+' { s.drop_first() } else { s };
    if d.len() == 0 || !all_digit_chars(d) {
        None
    } else if digits_value(d) <= max {
        Some(digits_value(d) as u64)
    } else {
        None
    }
}

/// Read `s[a..b]` as an unsigned integer of at most `max`, as `parse_unsigned` says.
pub fn parse_unsigned_exec(s: &Vec<char>, a: usize, b: usize, max: u64) -> (r: Option<u64>)
    requires
        a <= b <= s@.len(),
    ensures
        r == parse_unsigned(s@.subrange(a as int, b as int), max),
{
    let ghost t = s@.subrange(a as int, b as int);
    let mut start = a;
    if a < b && s[a] == '+' {
        start = a + 1;
    }
    let ghost d = s@.subrange(start as int, b as int);
    assert(d =~= (if t.len() > 0 && t[0] == '+' { t.drop_first() } else { t }));
    if start >= b {
        return None;
    }
    let mut v: u64 = 0;
    let mut i = start;
    while i < b
        invariant
            a <= start <= i <= b <= s@.len(),
            d == s@.subrange(start as int, b as int),
            t == s@.subrange(a as int, b as int),
            d == (if t.len() > 0 && t[0] == '+' { t.drop_first() } else { t }),
            d.len() > 0,
            forall|k: int| start <= k < i ==> is_digit_char(#[trigger] s@[k]),
            v == digits_value(s@.subrange(start as int, i as int)),
            v <= max,
        decreases b - i,
    {
        let c = s[i];
        if !('0' <= c && c <= '9') {
            assert(d[i - start] == s@[i as int]);
            assert(!is_digit_char(d[i - start]));
            assert(!all_digit_chars(d));
            return None;
        }
        assert(s@.subrange(start as int, i + 1).drop_last() =~= s@.subrange(start as int, i as int));
        let digit = (c as u32 - 48) as u64;
        if digit > max || v > (max - digit) / 10 {
            proof {
                let p = s@.subrange(start as int, i + 1);
                if digit <= max {
                    assert(v * 10 + digit > max) by (nonlinear_arith)
                        requires v > (max - digit) / 10, digit <= max;
                }
                if all_digit_chars(d) {
                    digits_value_grows(d, i + 1 - start);
                    assert(d.take(i + 1 - start) =~= p);
                }
            }
            return None;
        }
        proof {
            assert(v * 10 + digit <= max) by (nonlinear_arith)
                requires v <= (max - digit) / 10, digit <= max;
        }
        v = v * 10 + digit;
        i = i + 1;
    }
    assert(s@.subrange(start as int, b as int) =~= d);
    assert(forall|k: int| 0 <= k < d.len() ==> is_digit_char(#[trigger] d[k]) <== forall|k: int| start <= k < b ==> is_digit_char(#[trigger] s@[k]));
    Some(v)
}

} // verus!
