//! Identifiers of ceremonies in flight, and their text in the `status` cookie.
use vstd::prelude::*;

use vstd::arithmetic::div_mod::lemma_mod_breakdown;

use crate::payload::{chars_of, string_of};

verus! {

/// Relies on rand's `random`: a value drawn from the thread-local generator;
/// nothing is promised of it.
pub assume_specification<T>[ rand::random::<T> ]() -> (r: T)
    where
        rand::distributions::Standard: rand::distributions::Distribution<T>,
;

/// An opaque 128-bit value that correlates the steps of one ceremony; it is no
/// credential by itself.
#[derive(Clone, Copy, Debug, PartialEq, Eq, Structural, Hash)]
pub struct SessionId(pub u128);

impl SessionId {
    /// A fresh identifier, drawn at random.
    #[allow(clippy::new_without_default)]
    pub fn new() -> SessionId {
        SessionId(rand::random())
    }
}

impl From<u128> for SessionId {
    fn from(val: u128) -> (r: SessionId)
        ensures
            r.0 == val,
    {
        SessionId(val)
    }
}

impl vstd::std_specs::convert::FromSpecImpl<u128> for SessionId {
    open spec fn obeys_from_spec() -> bool {
        true
    }

    open spec fn from_spec(v: u128) -> SessionId {
        SessionId(v)
    }
}

pub open spec fn pow16(n: nat) -> nat
    decreases n,
{
    if n == 0 {
        1
    } else {
        16 * pow16((n - 1) as nat)
    }
}

/// The lowercase hexadecimal digit of `d`.
pub open spec fn hex_char(d: nat) -> char {
    if d < 10 {
        ((d + 48) as u8) as char
    } else {
        ((d + 87) as u8) as char
    }
}

/// The last `n` hexadecimal digits of `v`, in lowercase, zeros in front.
pub open spec fn hex_fixed(v: nat, n: nat) -> Seq<char>
    decreases n,
{
    if n == 0 {
        Seq::empty()
    } else {
        hex_fixed(v / 16, (n - 1) as nat).push(hex_char(v % 16))
    }
}

/// The text of an identifier: 32 lowercase hexadecimal digits.
pub open spec fn id_text(id: SessionId) -> Seq<char> {
    hex_fixed(id.0 as nat, 32)
}

pub open spec fn is_hex_digit(c: char) -> bool {
    ('0' <= c <= '9') || ('a' <= c <= 'f') || ('A' <= c <= 'F')
}

pub open spec fn hex_digit_value(c: char) -> nat {
    if '0' <= c <= '9' {
        ((c as u32) - 48) as nat
    } else if 'a' <= c <= 'f' {
        ((c as u32) - 87) as nat
    } else {
        ((c as u32) - 55) as nat
    }
}

/// The number that a string of hexadecimal digits denotes.
pub open spec fn hex_value(s: Seq<char>) -> nat
    decreases s.len(),
{
    if s.len() == 0 {
        0
    } else {
        hex_value(s.drop_last()) * 16 + hex_digit_value(s.last())
    }
}

/// What a run of hexadecimal digits names: the number that they (in either
/// case) denote, where there is at least one digit, nothing else, and the
/// number fits in 128 bits.
pub open spec fn digits_id(s: Seq<char>) -> Option<SessionId> {
    if s.len() > 0 && (forall|i: int| 0 <= i < s.len() ==> is_hex_digit(#[trigger] s[i]))
        && hex_value(s) <= u128::MAX {
        Some(SessionId(hex_value(s) as u128))
    } else {
        None
    }
}

/// What the `status` cookie's text `s` names: its hexadecimal digits, after
/// one optional leading `+`, read as `u128::from_str_radix` reads them.
pub open spec fn parse_id(s: Seq<char>) -> Option<SessionId> {
    if s.len() > 0 && s[0] == '+' {
        digits_id(s.drop_first())
    } else {
        digits_id(s)
    }
}

proof fn lemma_hex_fixed(v: nat, n: nat)
    ensures
        hex_fixed(v, n).len() == n,
        forall|i: int| 0 <= i < n ==> is_hex_digit(#[trigger] hex_fixed(v, n)[i]),
        hex_value(hex_fixed(v, n)) == v % pow16(n),
    decreases n,
{
    if n > 0 {
        let m = (n - 1) as nat;
        lemma_hex_fixed(v / 16, m);
        let p = hex_fixed(v / 16, m);
        let s = hex_fixed(v, n);
        assert(s.drop_last() =~= p);
        assert forall|i: int| 0 <= i < n implies is_hex_digit(#[trigger] s[i]) by {
            if i < m {
                assert(s[i] == p[i]);
            }
        }
        assert(pow16(m) > 0) by {
            lemma_pow16_positive(m);
        }
        assert(hex_digit_value(hex_char(v % 16)) == v % 16);
        lemma_mod_breakdown(v as int, 16, pow16(m) as int);
        assert(pow16(n) == 16 * pow16(m));
    }
}

proof fn lemma_pow16_positive(n: nat)
    ensures
        pow16(n) > 0,
    decreases n,
{
    if n > 0 {
        lemma_pow16_positive((n - 1) as nat);
    }
}

/// The value of a prefix of a run of hexadecimal digits is at most the value
/// of the run.
proof fn lemma_hex_prefix(s: Seq<char>, k: int)
    requires
        0 <= k <= s.len(),
    ensures
        hex_value(s.take(k)) <= hex_value(s),
    decreases s.len(),
{
    if k < s.len() {
        lemma_hex_prefix(s.drop_last(), k);
        assert(s.drop_last().take(k) =~= s.take(k));
    } else {
        assert(s.take(k) =~= s);
    }
}

fn hex_digit_char(d: u128) -> (r: char)
    requires
        d < 16,
    ensures
        r == hex_char(d as nat),
{
    if d < 10 {
        ((d as u8) + 48) as char
    } else {
        ((d as u8) + 87) as char
    }
}

fn hex_fixed_chars(v: u128, n: usize) -> (r: Vec<char>)
    ensures
        r@ == hex_fixed(v as nat, n as nat),
    decreases n,
{
    if n == 0 {
        Vec::new()
    } else {
        let mut r = hex_fixed_chars(v / 16, n - 1);
        r.push(hex_digit_char(v % 16));
        r
    }
}

impl SessionId {
    /// The text of this identifier in the `status` cookie: 32 lowercase
    /// hexadecimal digits, zeros in front.
    pub fn to_text(&self) -> (r: String)
        ensures
            r@ == id_text(*self),
    {
        string_of(&hex_fixed_chars(self.0, 32))
    }

    /// The identifier that the `status` cookie's text names, if any.
    pub fn parse(text: &str) -> (r: Option<SessionId>)
        ensures
            r == parse_id(text@),
    {
        let mut cs = chars_of(text);
        if cs.len() > 0 && cs[0] == '+' {
            cs.remove(0);
            assert(cs@ =~= text@.drop_first());
        }
        SessionId::parse_digits(&cs)
    }

    fn parse_digits(cs: &Vec<char>) -> (r: Option<SessionId>)
        ensures
            r == digits_id(cs@),
    {
        if cs.len() == 0 {
            return None;
        }
        let mut v: u128 = 0;
        let mut i: usize = 0;
        while i < cs.len()
            invariant
                i <= cs.len(),
                forall|j: int| 0 <= j < i ==> is_hex_digit(#[trigger] cs@[j]),
                v == hex_value(cs@.take(i as int)),
            decreases cs.len() - i,
        {
            let c = cs[i];
            let d: u128 = if '0' <= c && c <= '9' {
                (c as u32 - 48) as u128
            } else if 'a' <= c && c <= 'f' {
                (c as u32 - 87) as u128
            } else if 'A' <= c && c <= 'F' {
                (c as u32 - 55) as u128
            } else {
                assert(!is_hex_digit(cs@[i as int]));
                return None;
            };
            assert(cs@.take(i + 1).drop_last() =~= cs@.take(i as int));
            if v > (u128::MAX - d) / 16 {
                assert(v * 16 + d > u128::MAX) by (nonlinear_arith)
                    requires
                        v > (u128::MAX - d) / 16,
                        d < 16,
                ;
                proof {
                    lemma_hex_prefix(cs@, i + 1);
                }
                return None;
            }
            assert(v * 16 + d <= u128::MAX) by (nonlinear_arith)
                requires
                    v <= (u128::MAX - d) / 16,
                    d < 16,
            ;
            v = v * 16 + d;
            i += 1;
        }
        assert(cs@.take(i as int) =~= cs@);
        Some(SessionId(v))
    }
}

/// The text of an identifier names that identifier again.
pub proof fn lemma_id_text_round_trip(id: SessionId)
    ensures
        parse_id(id_text(id)) == Some(id),
{
    lemma_hex_fixed(id.0 as nat, 32);
    assert(pow16(32) == 0x1_0000_0000_0000_0000_0000_0000_0000_0000nat) by {
        reveal_with_fuel(pow16, 33);
    }
}

} // verus!
