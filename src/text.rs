//! The lexical layer of the text dialect: comment stripping, tokens, numbers
//! and the three operand forms.
use vstd::prelude::*;

verus! {

/// The characters that separate tokens: Unicode's `White_Space` set.
pub open spec fn is_space(c: char) -> bool {
    let u = c as u32;
    (0x09 <= u <= 0x0d) || u == 0x20 || u == 0x85 || u == 0xa0 || u == 0x1680 || (0x2000 <= u
        <= 0x200a) || u == 0x2028 || u == 0x2029 || u == 0x202f || u == 0x205f || u == 0x3000
}

/// `acc` with the token under construction appended, if it is not empty.
pub open spec fn flush(acc: Seq<Seq<char>>, cur: Seq<char>) -> Seq<Seq<char>> {
    if cur.len() > 0 {
        acc.push(cur)
    } else {
        acc
    }
}

/// Tokens of `s` from position `i` on, given the tokens `acc` already
/// complete and the token `cur` being read. Reading stops at `;`.
pub open spec fn split_from(s: Seq<char>, i: int, cur: Seq<char>, acc: Seq<Seq<char>>) -> Seq<
    Seq<char>,
>
    decreases s.len() - i,
{
    if i >= s.len() || s[i] == ';' {
        flush(acc, cur)
    } else if is_space(s[i]) {
        split_from(s, i + 1, Seq::empty(), flush(acc, cur))
    } else {
        split_from(s, i + 1, cur.push(s[i]), acc)
    }
}

/// The whitespace-separated tokens of a line, after the comment that a `;`
/// starts has been removed.
pub open spec fn tokens_of(s: Seq<char>) -> Seq<Seq<char>> {
    split_from(s, 0, Seq::empty(), Seq::empty())
}

/// The characters of each token.
pub open spec fn tok_view(v: Seq<Vec<char>>) -> Seq<Seq<char>> {
    v.map_values(|t: Vec<char>| t@)
}

/// Value of one digit in the given radix, if it is one.
pub open spec fn digit_value(c: char, radix: nat) -> Option<nat> {
    let u = c as u32;
    let d: int = if 0x30 <= u <= 0x39 {
        u - 0x30
    } else if 0x61 <= u <= 0x7a {
        u - 0x61 + 10
    } else if 0x41 <= u <= 0x5a {
        u - 0x41 + 10
    } else {
        99
    };
    if d < radix {
        Some(d as nat)
    } else {
        None
    }
}

/// Value of a string of digits, most significant first; `None` if one of
/// them is no digit of the radix.
pub open spec fn digits_value(d: Seq<char>, radix: nat) -> Option<nat>
    decreases d.len(),
{
    if d.len() == 0 {
        Some(0)
    } else {
        match (digits_value(d.drop_last(), radix), digit_value(d.last(), radix)) {
            (Some(a), Some(b)) => Some(a * radix + b),
            _ => None,
        }
    }
}

/// Value of an unsigned number: an optional `+` and at least one digit.
pub open spec fn number_value(s: Seq<char>, radix: nat) -> Option<nat> {
    let d = if s.len() > 0 && s[0] == '+' {
        s.drop_first()
    } else {
        s
    };
    if d.len() == 0 {
        None
    } else {
        digits_value(d, radix)
    }
}

/// `o`, unless it exceeds `limit`.
pub open spec fn at_most(o: Option<nat>, limit: nat) -> Option<nat> {
    match o {
        Some(n) => if n <= limit {
            Some(n)
        } else {
            None
        },
        None => None,
    }
}

/// `t` without its trailing commas.
pub open spec fn strip_commas(t: Seq<char>) -> Seq<char>
    decreases t.len(),
{
    if t.len() > 0 && t.last() == ',' {
        strip_commas(t.drop_last())
    } else {
        t
    }
}

/// Whether `t` starts with `c`.
pub open spec fn starts_with(t: Seq<char>, c: char) -> bool {
    t.len() > 0 && t[0] == c
}

/// Whether `t` starts with `0` followed by `c`.
pub open spec fn has_prefix(t: Seq<char>, c: char) -> bool {
    t.len() >= 2 && t[0] == '0' && t[1] == c
}

/// The register that a token `Rn` (trailing commas allowed) names: `n` is
/// decimal and below 8.
pub open spec fn register_of(t: Seq<char>) -> Option<usize> {
    let u = strip_commas(t);
    if starts_with(u, 'R') {
        match at_most(number_value(u.drop_first(), 10), 7) {
            Some(n) => Some(n as usize),
            None => None,
        }
    } else {
        None
    }
}

/// The address that a token `[addr]` names: `addr` is decimal, or
/// hexadecimal after `0x`, and lies inside memory.
pub open spec fn address_of(u: Seq<char>) -> Option<usize> {
    if u.len() >= 2 && u[0] == '[' && u.last() == ']' {
        let inner = u.subrange(1, u.len() - 1);
        let v = if has_prefix(inner, 'x') {
            number_value(inner.skip(2), 16)
        } else {
            number_value(inner, 10)
        };
        match at_most(v, 255) {
            Some(n) => Some(n as usize),
            None => None,
        }
    } else {
        None
    }
}

/// The address that an operand of the engine names: an address token
/// whose trailing commas are ignored, as they are after a register.
pub open spec fn address_of_operand(t: Seq<char>) -> Option<usize> {
    address_of(strip_commas(t))
}

/// The 8-bit value of an immediate token: binary after `0b`, hexadecimal
/// after `0x`, else decimal.
pub open spec fn immediate_of(t: Seq<char>) -> Option<u8> {
    let v = if has_prefix(t, 'b') {
        number_value(t.skip(2), 2)
    } else if has_prefix(t, 'x') {
        number_value(t.skip(2), 16)
    } else {
        number_value(t, 10)
    };
    match at_most(v, 255) {
        Some(n) => Some(n as u8),
        None => None,
    }
}

/// The characters of a string slice, in order.
pub fn chars_of(s: &str) -> (r: Vec<char>)
    ensures
        r@ == s@,
{
    let n = s.unicode_len();
    let mut r: Vec<char> = Vec::new();
    let mut i: usize = 0;
    while i < n
        invariant
            n == s@.len(),
            i <= n,
            r@ == s@.take(i as int),
        decreases n - i,
    {
        r.push(s.get_char(i));
        assert(r@ =~= s@.take(i + 1));
        i = i + 1;
    }
    assert(r@ =~= s@);
    r
}

/// Whether `t` holds exactly the characters of `w`.
pub fn is_word(t: &Vec<char>, w: &str) -> (b: bool)
    ensures
        b == (t@ == w@),
{
    let n = w.unicode_len();
    if t.len() != n {
        return false;
    }
    let mut i: usize = 0;
    while i < n
        invariant
            n == w@.len(),
            n == t@.len(),
            i <= n,
            t@.take(i as int) == w@.take(i as int),
        decreases n - i,
    {
        if t[i] != w.get_char(i) {
            return false;
        }
        assert(t@.take(i + 1) =~= w@.take(i + 1));
        i = i + 1;
    }
    assert(t@ =~= t@.take(n as int));
    assert(w@ =~= w@.take(n as int));
    true
}

pub fn is_space_char(c: char) -> (b: bool)
    ensures
        b == is_space(c),
{
    let u = c as u32;
    (0x09 <= u && u <= 0x0d) || u == 0x20 || u == 0x85 || u == 0xa0 || u == 0x1680 || (0x2000 <= u
        && u <= 0x200a) || u == 0x2028 || u == 0x2029 || u == 0x202f || u == 0x205f || u == 0x3000
}

/// Splits a line into tokens, ignoring everything from the first `;` on.
pub fn tokenize(s: &Vec<char>) -> (r: Vec<Vec<char>>)
    ensures
        tok_view(r@) == tokens_of(s@),
{
    let mut acc: Vec<Vec<char>> = Vec::new();
    let mut cur: Vec<char> = Vec::new();
    let mut i: usize = 0;
    assert(tok_view(acc@) =~= Seq::<Seq<char>>::empty());
    assert(cur@ =~= Seq::<char>::empty());
    while i < s.len()
        invariant
            i <= s.len(),
            split_from(s@, i as int, cur@, tok_view(acc@)) == tokens_of(s@),
        ensures
            i <= s.len(),
            split_from(s@, i as int, cur@, tok_view(acc@)) == tokens_of(s@),
            i == s.len() || s@[i as int] == ';',
        decreases s.len() - i,
    {
        let c = s[i];
        if c == ';' {
            break;
        }
        if is_space_char(c) {
            if cur.len() > 0 {
                let ghost before = acc@;
                let ghost cv = cur@;
                acc.push(cur);
                assert(tok_view(acc@) =~= tok_view(before).push(cv));
            }
            cur = Vec::new();
            assert(cur@ =~= Seq::<char>::empty());
        } else {
            cur.push(c);
        }
        i = i + 1;
    }
    assert(split_from(s@, i as int, cur@, tok_view(acc@)) == flush(tok_view(acc@), cur@));
    if cur.len() > 0 {
        let ghost before = acc@;
        let ghost cv = cur@;
        acc.push(cur);
        assert(tok_view(acc@) =~= tok_view(before).push(cv));
    }
    acc
}


/// A prefix that is no number makes the whole string no number, and a
/// longer string of digits is worth at least as much as its prefix.
pub proof fn lemma_digits_prefix(d: Seq<char>, k: int, radix: nat)
    requires
        0 <= k <= d.len(),
        radix >= 1,
    ensures
        match digits_value(d.take(k), radix) {
            None => digits_value(d, radix) is None,
            Some(a) => digits_value(d, radix) is None || digits_value(d, radix)->Some_0 >= a,
        },
    decreases d.len(),
{
    if k == d.len() {
        assert(d.take(k) =~= d);
    } else {
        lemma_digits_prefix(d.drop_last(), k, radix);
        assert(d.drop_last().take(k) =~= d.take(k));
        match (digits_value(d.drop_last(), radix), digit_value(d.last(), radix)) {
            (Some(a), Some(b)) => {
                assert(a * radix >= a) by (nonlinear_arith)
                    requires
                        radix >= 1,
                ;
            },
            _ => {},
        }
    }
}

/// Value of a character as a digit of `radix`.
pub fn digit(c: char, radix: u32) -> (r: Option<u32>)
    requires
        2 <= radix <= 16,
    ensures
        match digit_value(c, radix as nat) {
            Some(d) => r == Some(d as u32),
            None => r is None,
        },
{
    let u = c as u32;
    let d: u32 = if 0x30 <= u && u <= 0x39 {
        u - 0x30
    } else if 0x61 <= u && u <= 0x7a {
        u - 0x61 + 10
    } else if 0x41 <= u && u <= 0x5a {
        u - 0x41 + 10
    } else {
        99
    };
    if d < radix {
        Some(d)
    } else {
        None
    }
}

/// The number written in `t[lo..hi]` in the given radix, if it is one and
/// does not exceed `limit`.
pub fn parse_number(t: &Vec<char>, lo: usize, hi: usize, radix: u32, limit: u32) -> (r: Option<
    u32,
>)
    requires
        lo <= hi <= t@.len(),
        2 <= radix <= 16,
        limit <= 255,
    ensures
        match at_most(number_value(t@.subrange(lo as int, hi as int), radix as nat), limit as nat) {
            Some(n) => r == Some(n as u32),
            None => r is None,
        },
{
    let ghost s = t@.subrange(lo as int, hi as int);
    let mut i: usize = lo;
    if i < hi && t[i] == '+' {
        i = i + 1;
    }
    let ghost d = if s.len() > 0 && s[0] == '+' {
        s.drop_first()
    } else {
        s
    };
    assert(d =~= t@.subrange(i as int, hi as int));
    if i == hi {
        return None;
    }
    let start = i;
    let mut acc: u32 = 0;
    assert(t@.subrange(start as int, start as int) =~= Seq::<char>::empty());
    while i < hi
        invariant
            lo <= start <= i <= hi <= t@.len(),
            2 <= radix <= 16,
            limit <= 255,
            d == t@.subrange(start as int, hi as int),
            s == t@.subrange(lo as int, hi as int),
            d.len() > 0,
            number_value(s, radix as nat) == digits_value(d, radix as nat),
            digits_value(t@.subrange(start as int, i as int), radix as nat) == Some(acc as nat),
            acc <= limit,
        decreases hi - i,
    {
        assert(t@.subrange(start as int, i + 1).drop_last() =~= t@.subrange(start as int, i as int));
        assert(t@.subrange(start as int, i + 1).last() == t@[i as int]);
        assert(d.take(i + 1 - start) =~= t@.subrange(start as int, i + 1));
        match digit(t[i], radix) {
            None => {
                assert(digits_value(t@.subrange(start as int, i + 1), radix as nat) is None);
                proof {
                    lemma_digits_prefix(d, i + 1 - start, radix as nat);
                }
                return None;
            },
            Some(v) => {
                assert(acc * radix <= 255 * 16) by (nonlinear_arith)
                    requires
                        acc <= 255,
                        radix <= 16,
                ;
                let next = acc * radix + v;
                assert(digits_value(t@.subrange(start as int, i + 1), radix as nat) == Some(
                    next as nat,
                ));
                if next > limit {
                    proof {
                        lemma_digits_prefix(d, i + 1 - start, radix as nat);
                    }
                    return None;
                }
                acc = next;
                i = i + 1;
            },
        }
    }
    assert(d =~= t@.subrange(start as int, i as int));
    Some(acc)
}

/// Length of `t` without its trailing commas.
pub fn trimmed_len(t: &Vec<char>) -> (n: usize)
    ensures
        n <= t@.len(),
        strip_commas(t@) == t@.take(n as int),
{
    let mut n: usize = t.len();
    assert(t@.take(n as int) =~= t@);
    while n > 0 && t[n - 1] == ','
        invariant
            n <= t@.len(),
            strip_commas(t@.take(n as int)) == strip_commas(t@),
        decreases n,
    {
        assert(t@.take(n as int).drop_last() =~= t@.take(n - 1));
        n = n - 1;
    }
    n
}

/// The register that a token names.
pub fn parse_register_chars(t: &Vec<char>) -> (r: Option<usize>)
    ensures
        r == register_of(t@),
{
    let n = trimmed_len(t);
    if n == 0 || t[0] != 'R' {
        return None;
    }
    assert(t@.take(n as int).drop_first() =~= t@.subrange(1, n as int));
    match parse_number(t, 1, n, 10, 7) {
        Some(v) => Some(v as usize),
        None => None,
    }
}

/// The address that the first `n` characters of `t` name.
fn parse_address_prefix(t: &Vec<char>, n: usize) -> (r: Option<usize>)
    requires
        n <= t@.len(),
    ensures
        r == address_of(t@.take(n as int)),
{
    if n < 2 || t[0] != '[' || t[n - 1] != ']' {
        return None;
    }
    let ghost u = t@.take(n as int);
    let ghost inner = u.subrange(1, u.len() - 1);
    assert(inner =~= t@.subrange(1, n - 1));
    let v = if n - 1 >= 3 && t[1] == '0' && t[2] == 'x' {
        assert(inner.skip(2) =~= t@.subrange(3, n - 1));
        parse_number(t, 3, n - 1, 16, 255)
    } else {
        parse_number(t, 1, n - 1, 10, 255)
    };
    match v {
        Some(v) => Some(v as usize),
        None => None,
    }
}

/// The address that a token `[addr]` names.
pub fn parse_address_chars(t: &Vec<char>) -> (r: Option<usize>)
    ensures
        r == address_of(t@),
{
    assert(t@.take(t@.len() as int) =~= t@);
    parse_address_prefix(t, t.len())
}

/// The address that an operand of the engine names, trailing commas
/// ignored.
pub fn parse_address_operand(t: &Vec<char>) -> (r: Option<usize>)
    ensures
        r == address_of_operand(t@),
{
    let n = trimmed_len(t);
    parse_address_prefix(t, n)
}

/// The value of an immediate token.
pub fn parse_immediate_chars(t: &Vec<char>) -> (r: Option<u8>)
    ensures
        r == immediate_of(t@),
{
    let n = t.len();
    assert(t@.subrange(0, n as int) =~= t@);
    let v = if n >= 2 && t[0] == '0' && t[1] == 'b' {
        assert(t@.skip(2) =~= t@.subrange(2, n as int));
        parse_number(t, 2, n, 2, 255)
    } else if n >= 2 && t[0] == '0' && t[1] == 'x' {
        assert(t@.skip(2) =~= t@.subrange(2, n as int));
        parse_number(t, 2, n, 16, 255)
    } else {
        parse_number(t, 0, n, 10, 255)
    };
    match v {
        Some(v) => Some(v as u8),
        None => None,
    }
}

} // verus!
