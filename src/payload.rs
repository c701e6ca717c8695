//! The text of a token's claim set: one canonical JSON object, written and read
//! back by the functions here. Only the canonical text is read back: claims in
//! another order, with other spacing, or with escapes are refused, which costs
//! nothing, since a signed payload is always one that this library wrote.
use vstd::prelude::*;

verus! {

/// A character that stands in a JSON string as itself, with no escape.
pub open spec fn plain_char(c: char) -> bool {
    c != '"' && c != '\\' && (c as u32) >= 0x20
}

pub open spec fn is_plain(s: Seq<char>) -> bool {
    forall|i: int| 0 <= i < s.len() ==> plain_char(#[trigger] s[i])
}

pub open spec fn is_digit(c: char) -> bool {
    '0' <= c <= '9'
}

pub open spec fn digit_char(d: nat) -> char {
    ((d + 48) as u8) as char
}

/// Decimal notation of `n`, without leading zeros.
pub open spec fn decimal(n: nat) -> Seq<char>
    decreases n,
{
    if n < 10 {
        seq![digit_char(n)]
    } else {
        decimal(n / 10).push(digit_char(n % 10))
    }
}

/// The number that a string of decimal digits denotes.
pub open spec fn digits_value(ds: Seq<char>) -> nat
    decreases ds.len(),
{
    if ds.len() == 0 {
        0
    } else {
        digits_value(ds.drop_last()) * 10 + ((ds.last() as u32) - 48) as nat
    }
}

pub open spec fn all_digits(ds: Seq<char>) -> bool {
    forall|i: int| 0 <= i < ds.len() ==> is_digit(#[trigger] ds[i])
}

/// What a claim set holds, as plain values.
pub struct ClaimSet {
    pub refresh: bool,
    pub iss: Seq<char>,
    pub aud: Seq<char>,
    pub exp: u64,
    pub iat: u64,
    pub jti: Seq<char>,
}

/// A claim set whose strings can be written without escapes.
pub open spec fn well_formed(c: ClaimSet) -> bool {
    is_plain(c.iss) && is_plain(c.aud) && is_plain(c.jti)
}

pub open spec fn lit_open() -> Seq<char> {
    seq!['{', '"', 's', 'u', 'b', '"', ':', '"']
}

pub open spec fn word_refresh() -> Seq<char> {
    seq!['r', 'e', 'f', 'r', 'e', 's', 'h']
}

pub open spec fn word_session() -> Seq<char> {
    seq!['s', 'e', 's', 's', 'i', 'o', 'n']
}

pub open spec fn kind_word(refresh: bool) -> Seq<char> {
    if refresh {
        word_refresh()
    } else {
        word_session()
    }
}

pub open spec fn lit_iss() -> Seq<char> {
    seq!['"', ',', '"', 'i', 's', 's', '"', ':', '"']
}

pub open spec fn lit_aud() -> Seq<char> {
    seq!['"', ',', '"', 'a', 'u', 'd', '"', ':', '"']
}

pub open spec fn lit_exp() -> Seq<char> {
    seq!['"', ',', '"', 'e', 'x', 'p', '"', ':']
}

pub open spec fn lit_iat() -> Seq<char> {
    seq![',', '"', 'i', 'a', 't', '"', ':']
}

pub open spec fn lit_jti() -> Seq<char> {
    seq![',', '"', 'j', 't', 'i', '"', ':', '"']
}

pub open spec fn lit_close() -> Seq<char> {
    seq!['"', '}']
}

pub open spec fn tail_jti(c: ClaimSet) -> Seq<char> {
    lit_jti() + (c.jti + lit_close())
}

pub open spec fn tail_iat(c: ClaimSet) -> Seq<char> {
    lit_iat() + (decimal(c.iat as nat) + tail_jti(c))
}

pub open spec fn tail_exp(c: ClaimSet) -> Seq<char> {
    lit_exp() + (decimal(c.exp as nat) + tail_iat(c))
}

pub open spec fn tail_aud(c: ClaimSet) -> Seq<char> {
    lit_aud() + (c.aud + tail_exp(c))
}

pub open spec fn tail_iss(c: ClaimSet) -> Seq<char> {
    lit_iss() + (c.iss + tail_aud(c))
}

/// The claim text of `c`:
/// `{"sub":"refresh","iss":"..","aud":"..","exp":N,"iat":N,"jti":".."}`,
/// with `session` in place of `refresh` for a session token.
pub open spec fn claim_text(c: ClaimSet) -> Seq<char> {
    lit_open() + (kind_word(c.refresh) + tail_iss(c))
}

/// `s` is the claim text of the well-formed claim set `c`.
pub open spec fn renders(c: ClaimSet, s: Seq<char>) -> bool {
    well_formed(c) && claim_text(c) == s
}

proof fn lemma_digit_char(d: nat)
    requires
        d < 10,
    ensures
        is_digit(digit_char(d)),
        (digit_char(d) as u32) - 48 == d,
        (digit_char(d) == '0') == (d == 0),
{
}

proof fn lemma_char_of_digit(c: char)
    requires
        is_digit(c),
    ensures
        digit_char(((c as u32) - 48) as nat) == c,
        ((c as u32) - 48) < 10,
{
}

/// Decimal notation is a non-empty run of digits, with no leading zero, that
/// denotes the number written.
pub proof fn lemma_decimal(n: nat)
    ensures
        decimal(n).len() >= 1,
        all_digits(decimal(n)),
        decimal(n).len() > 1 ==> decimal(n)[0] != '0',
        digits_value(decimal(n)) == n,
    decreases n,
{
    let d = decimal(n);
    if n < 10 {
        lemma_digit_char(n);
        assert(d.drop_last() =~= Seq::<char>::empty());
        assert(d.last() == digit_char(n));
        assert(digits_value(d) == digits_value(d.drop_last()) * 10 + ((d.last() as u32) - 48) as nat);
    } else {
        lemma_decimal(n / 10);
        lemma_digit_char(n % 10);
        let p = decimal(n / 10);
        assert(d.drop_last() =~= p);
        assert(d[0] == p[0]);
        assert(all_digits(d)) by {
            assert forall|i: int| 0 <= i < d.len() implies is_digit(#[trigger] d[i]) by {
                if i < p.len() {
                    assert(d[i] == p[i]);
                }
            }
        }
        assert(n / 10 > 0);
        assert(p.len() >= 1);
        if p.len() == 1 {
            assert(p[0] == digit_char(n / 10)) by {
                if n / 10 >= 10 {
                    lemma_decimal(n / 100);
                    assert(decimal(n / 10).len() == decimal((n / 10) / 10).len() + 1);
                }
            }
            lemma_digit_char(n / 10);
        }
        assert(d.last() == digit_char(n % 10));
        assert(digits_value(d) == digits_value(d.drop_last()) * 10 + ((d.last() as u32) - 48) as nat);
        assert((n / 10) * 10 + n % 10 == n);
    }
}

proof fn lemma_value_at_least_first(ds: Seq<char>)
    requires
        ds.len() >= 1,
        all_digits(ds),
    ensures
        digits_value(ds) >= (ds[0] as u32) - 48,
    decreases ds.len(),
{
    if ds.len() > 1 {
        let p = ds.drop_last();
        assert(all_digits(p)) by {
            assert forall|i: int| 0 <= i < p.len() implies is_digit(#[trigger] p[i]) by {
                assert(p[i] == ds[i]);
            }
        }
        lemma_value_at_least_first(p);
        assert(p[0] == ds[0]);
        assert(is_digit(ds.last()));
    } else {
        assert(ds.drop_last() =~= Seq::<char>::empty());
    }
}

/// A run of digits with no leading zero is the decimal notation of its value.
pub proof fn lemma_canonical_digits(ds: Seq<char>)
    requires
        ds.len() >= 1,
        all_digits(ds),
        ds.len() > 1 ==> ds[0] != '0',
    ensures
        decimal(digits_value(ds)) == ds,
    decreases ds.len(),
{
    let v = digits_value(ds);
    let c = ds.last();
    assert(is_digit(c));
    lemma_char_of_digit(c);
    let d = ((c as u32) - 48) as nat;
    if ds.len() == 1 {
        assert(ds.drop_last() =~= Seq::<char>::empty());
        assert(digits_value(ds.drop_last()) == 0);
        assert(v == digits_value(ds.drop_last()) * 10 + d);
        assert(v == d);
        assert(decimal(v) =~= ds);
    } else {
        let p = ds.drop_last();
        assert(all_digits(p)) by {
            assert forall|i: int| 0 <= i < p.len() implies is_digit(#[trigger] p[i]) by {
                assert(p[i] == ds[i]);
            }
        }
        assert(p[0] == ds[0]);
        lemma_canonical_digits(p);
        lemma_value_at_least_first(p);
        lemma_char_of_digit(p[0]);
        let w = digits_value(p);
        assert(w >= 1);
        assert(v == w * 10 + d);
        assert(v >= 10);
        assert(v / 10 == w && v % 10 == d) by (nonlinear_arith)
            requires
                v == w * 10 + d,
                d < 10,
        ;
        assert(decimal(v) =~= p.push(c));
        assert(p.push(c) =~= ds);
    }
}

/// The value of a prefix of a run of digits is at most the value of the run.
proof fn lemma_prefix_value(ds: Seq<char>, k: int)
    requires
        0 <= k <= ds.len(),
        all_digits(ds),
    ensures
        digits_value(ds.take(k)) <= digits_value(ds),
    decreases ds.len(),
{
    if k < ds.len() {
        let p = ds.drop_last();
        assert(all_digits(p)) by {
            assert forall|i: int| 0 <= i < p.len() implies is_digit(#[trigger] p[i]) by {
                assert(p[i] == ds[i]);
            }
        }
        lemma_prefix_value(p, k);
        assert(p.take(k) =~= ds.take(k));
        assert(is_digit(ds.last()));
    } else {
        assert(ds.take(k) =~= ds);
    }
}

/// Splitting a suffix of `s` that begins with `a`.
pub(crate) proof fn lemma_skip(s: Seq<char>, p: int, a: Seq<char>, x: Seq<char>)
    requires
        0 <= p <= s.len(),
        s.subrange(p, s.len() as int) == a + x,
    ensures
        p + a.len() <= s.len(),
        s.subrange(p, p + a.len()) == a,
        s.subrange(p + a.len(), s.len() as int) == x,
{
    assert(s.subrange(p, s.len() as int).len() == a.len() + x.len());
    assert(s.subrange(p, p + a.len()) =~= a) by {
        assert forall|i: int| 0 <= i < a.len() implies s.subrange(p, p + a.len())[i] == a[i] by {
            assert(s.subrange(p, s.len() as int)[i] == (a + x)[i]);
        }
    }
    assert(s.subrange(p + a.len(), s.len() as int) =~= x) by {
        assert forall|i: int| 0 <= i < x.len() implies s.subrange(
            p + a.len(),
            s.len() as int,
        )[i] == x[i] by {
            assert(s.subrange(p, s.len() as int)[a.len() + i] == (a + x)[a.len() + i]);
            assert(s.subrange(p, s.len() as int)[a.len() + i] == s[p + a.len() + i]);
            assert(s.subrange(p + a.len(), s.len() as int)[i] == s[p + a.len() + i]);
        }
    }
}

/// Checks that `lit` stands in `cs` at `pos`; gives the position after it.
pub(crate) fn expect(cs: &Vec<char>, pos: usize, lit: &Vec<char>) -> (r: Option<usize>)
    requires
        pos <= cs.len(),
    ensures
        r == (if pos + lit.len() <= cs.len() && cs@.subrange(pos as int, pos + lit.len()) == lit@ {
            Some((pos + lit.len()) as usize)
        } else {
            None::<usize>
        }),
{
    if lit.len() > cs.len() - pos {
        return None;
    }
    let mut i: usize = 0;
    while i < lit.len()
        invariant
            pos + lit.len() <= cs.len(),
            i <= lit.len(),
            forall|j: int| 0 <= j < i ==> cs@[pos + j] == lit@[j],
        decreases lit.len() - i,
    {
        if cs[pos + i] != lit[i] {
            assert(cs@.subrange(pos as int, pos + lit.len())[i as int] != lit@[i as int]);
            return None;
        }
        i += 1;
    }
    assert(cs@.subrange(pos as int, pos + lit.len()) =~= lit@);
    Some(pos + lit.len())
}

/// Reads the characters of a JSON string up to its closing quote; gives the
/// position of that quote.
pub(crate) fn read_plain(cs: &Vec<char>, pos: usize) -> (r: Option<usize>)
    requires
        pos <= cs.len(),
    ensures
        match r {
            Some(e) => {
                &&& pos <= e < cs.len()
                &&& cs@[e as int] == '"'
                &&& is_plain(cs@.subrange(pos as int, e as int))
                &&& forall|e2: int|
                    pos <= e2 < cs.len() && cs@[e2] == '"' && is_plain(
                        #[trigger] cs@.subrange(pos as int, e2),
                    ) ==> e2 == e
            },
            None => forall|e: int|
                pos <= e < cs.len() && cs@[e] == '"' ==> !is_plain(
                    #[trigger] cs@.subrange(pos as int, e),
                ),
        },
{
    let mut i: usize = pos;
    while i < cs.len()
        invariant
            pos <= i <= cs.len(),
            is_plain(cs@.subrange(pos as int, i as int)),
        decreases cs.len() - i,
    {
        let c = cs[i];
        if c == '"' {
            assert forall|e2: int|
                pos <= e2 < cs.len() && cs@[e2] == '"' && is_plain(
                    #[trigger] cs@.subrange(pos as int, e2),
                ) implies e2 == i by {
                if e2 < i {
                    assert(cs@.subrange(pos as int, i as int)[e2 - pos] == cs@[e2]);
                } else if e2 > i {
                    assert(cs@.subrange(pos as int, e2)[i - pos] == cs@[i as int]);
                }
            }
            return Some(i);
        }
        if c == '\\' || (c as u32) < 0x20 {
            assert forall|e: int|
                pos <= e < cs.len() && cs@[e] == '"' implies !is_plain(
                #[trigger] cs@.subrange(pos as int, e),
            ) by {
                if e < i {
                    assert(cs@.subrange(pos as int, i as int)[e - pos] == cs@[e]);
                } else if e > i {
                    assert(cs@.subrange(pos as int, e)[i - pos] == cs@[i as int]);
                }
            }
            return None;
        }
        assert(cs@.subrange(pos as int, i + 1) =~= cs@.subrange(pos as int, i as int).push(c));
        i += 1;
    }
    assert forall|e: int| pos <= e < cs.len() && cs@[e] == '"' implies !is_plain(
        #[trigger] cs@.subrange(pos as int, e),
    ) by {
        assert(cs@.subrange(pos as int, i as int)[e - pos] == cs@[e]);
    }
    None
}

/// Reads a number in decimal notation, which must be followed by a character
/// that is not a digit; gives the number and the position after it.
#[verifier::rlimit(40)]
pub(crate) fn read_number(cs: &Vec<char>, pos: usize) -> (r: Option<(u64, usize)>)
    requires
        pos <= cs.len(),
    ensures
        match r {
            Some((n, e)) => {
                &&& pos < e < cs.len()
                &&& cs@.subrange(pos as int, e as int) == decimal(n as nat)
                &&& !is_digit(cs@[e as int])
                &&& forall|n2: u64, e2: int| #![trigger cs@.subrange(pos as int, e2), decimal(n2 as nat)]
                    pos < e2 < cs.len() && !is_digit(cs@[e2]) && cs@.subrange(pos as int, e2)
                        == decimal(n2 as nat) ==> n2 == n && e2 == e
            },
            None => forall|n: u64, e: int| #![trigger cs@.subrange(pos as int, e), decimal(n as nat)]
                pos < e < cs.len() && !is_digit(cs@[e]) ==> cs@.subrange(pos as int, e)
                    != decimal(n as nat),
        },
{
    let mut i: usize = pos;
    let mut v: u64 = 0;
    loop
        invariant
            pos <= i <= cs.len(),
            all_digits(cs@.subrange(pos as int, i as int)),
            v == digits_value(cs@.subrange(pos as int, i as int)),
        ensures
            pos <= i < cs.len(),
            !is_digit(cs@[i as int]),
            all_digits(cs@.subrange(pos as int, i as int)),
            v == digits_value(cs@.subrange(pos as int, i as int)),
        decreases cs.len() - i,
    {
        if i >= cs.len() {
            assert forall|n: u64, e: int| #![trigger cs@.subrange(pos as int, e), decimal(n as nat)] pos < e < cs.len() && !is_digit(cs@[e]) implies cs@.subrange(
                pos as int,
                e,
            ) != decimal(n as nat) by {
                assert(cs@.subrange(pos as int, i as int)[e - pos] == cs@[e]);
            }
            return None;
        }
        let c = cs[i];
        if !('0' <= c && c <= '9') {
            break ;
        }
        let d = (c as u32 - 48) as u64;
        let ghost run = cs@.subrange(pos as int, i + 1);
        assert(run.drop_last() =~= cs@.subrange(pos as int, i as int));
        assert(all_digits(run)) by {
            assert forall|j: int| 0 <= j < run.len() implies is_digit(#[trigger] run[j]) by {
                if j < run.len() - 1 {
                    assert(run[j] == cs@.subrange(pos as int, i as int)[j]);
                }
            }
        }
        assert(digits_value(run) == v * 10 + d);
        if v > (u64::MAX - d) / 10 {
            assert(v * 10 + d > u64::MAX) by (nonlinear_arith)
                requires
                    v > (u64::MAX - d) / 10,
                    d <= 9,
            ;
            assert forall|n: u64, e: int| #![trigger cs@.subrange(pos as int, e), decimal(n as nat)] pos < e < cs.len() && !is_digit(cs@[e]) implies cs@.subrange(
                pos as int,
                e,
            ) != decimal(n as nat) by {
                if cs@.subrange(pos as int, e) == decimal(n as nat) {
                    lemma_decimal(n as nat);
                    let s = cs@.subrange(pos as int, e);
                    if e <= i {
                        assert(run[e - pos] == cs@[e]);
                    } else {
                        assert(s.take(i + 1 - pos) =~= run);
                        lemma_prefix_value(s, i + 1 - pos);
                    }
                }
            }
            return None;
        }
        assert(v * 10 + d <= u64::MAX) by (nonlinear_arith)
            requires
                v <= (u64::MAX - d) / 10,
                d <= 9,
        ;
        v = v * 10 + d;
        i += 1;
    }
    let ghost ds = cs@.subrange(pos as int, i as int);
    if i == pos {
        assert forall|n: u64, e: int| #![trigger cs@.subrange(pos as int, e), decimal(n as nat)] pos < e < cs.len() && !is_digit(cs@[e]) implies cs@.subrange(
            pos as int,
            e,
        ) != decimal(n as nat) by {
            if cs@.subrange(pos as int, e) == decimal(n as nat) {
                lemma_decimal(n as nat);
                assert(cs@.subrange(pos as int, e)[0] == cs@[pos as int]);
            }
        }
        return None;
    }
    // every decimal notation that stands at `pos`, followed by a non-digit, is `ds`
    assert forall|n2: u64, e2: int| #![trigger cs@.subrange(pos as int, e2), decimal(n2 as nat)]
        pos < e2 < cs.len() && !is_digit(cs@[e2]) && cs@.subrange(pos as int, e2) == decimal(
            n2 as nat,
        ) implies e2 == i by {
        lemma_decimal(n2 as nat);
        if e2 < i {
            assert(ds[e2 - pos] == cs@[e2]);
        } else if e2 > i {
            assert(cs@.subrange(pos as int, e2)[i - pos] == cs@[i as int]);
        }
    }
    if cs[pos] == '0' && i > pos + 1 {
        assert(ds[0] == '0');
        assert forall|n: u64, e: int| #![trigger cs@.subrange(pos as int, e), decimal(n as nat)] pos < e < cs.len() && !is_digit(cs@[e]) implies cs@.subrange(
            pos as int,
            e,
        ) != decimal(n as nat) by {
            if cs@.subrange(pos as int, e) == decimal(n as nat) {
                lemma_decimal(n as nat);
                assert(e == i);
            }
        }
        return None;
    }
    assert(ds.len() > 1 ==> ds[0] != '0') by {
        if ds.len() > 1 {
            assert(ds[0] == cs@[pos as int]);
        }
    }
    proof {
        lemma_canonical_digits(ds);
    }
    assert forall|n2: u64, e2: int| #![trigger cs@.subrange(pos as int, e2), decimal(n2 as nat)]
        pos < e2 < cs.len() && !is_digit(cs@[e2]) && cs@.subrange(pos as int, e2)
            == decimal(n2 as nat) implies n2 == v && e2 == i by {
        lemma_decimal(n2 as nat);
        assert(e2 == i);
    }
    Some((v, i))
}

/// Joining two adjacent pieces of `s`.
pub(crate) proof fn lemma_join(s: Seq<char>, a: int, b: int, c: int, x: Seq<char>, y: Seq<char>)
    requires
        0 <= a <= b <= c <= s.len(),
        s.subrange(a, b) == x,
        s.subrange(b, c) == y,
    ensures
        s.subrange(a, c) == x + y,
{
    assert(s.subrange(a, c) =~= s.subrange(a, b) + s.subrange(b, c));
}

/// Two sequences with the same front `a` have the same rest.
proof fn lemma_strip(a: Seq<char>, x: Seq<char>, y: Seq<char>)
    requires
        a + x == a + y,
    ensures
        x == y,
{
    assert(x =~= (a + x).subrange(a.len() as int, (a + x).len() as int));
    assert(y =~= (a + y).subrange(a.len() as int, (a + y).len() as int));
}

/// A plain string ends at the first quote that follows it.
proof fn lemma_plain_split(x1: Seq<char>, y1: Seq<char>, x2: Seq<char>, y2: Seq<char>)
    requires
        x1 + y1 == x2 + y2,
        is_plain(x1),
        is_plain(x2),
        y1.len() > 0 && y1[0] == '"',
        y2.len() > 0 && y2[0] == '"',
    ensures
        x1 == x2,
        y1 == y2,
{
    let s = x1 + y1;
    if x1.len() < x2.len() {
        assert(s[x1.len() as int] == y1[0]);
        assert((x2 + y2)[x1.len() as int] == x2[x1.len() as int]);
        assert(plain_char(x2[x1.len() as int]));
    } else if x1.len() > x2.len() {
        assert((x2 + y2)[x2.len() as int] == y2[0]);
        assert(s[x2.len() as int] == x1[x2.len() as int]);
        assert(plain_char(x1[x2.len() as int]));
    }
    assert(x1 =~= s.subrange(0, x1.len() as int));
    assert(x2 =~= (x2 + y2).subrange(0, x2.len() as int));
    assert(y1 =~= s.subrange(x1.len() as int, s.len() as int));
    assert(y2 =~= (x2 + y2).subrange(x2.len() as int, s.len() as int));
}

/// A number in decimal notation ends at the first character that is not a digit.
proof fn lemma_decimal_split(n1: nat, y1: Seq<char>, n2: nat, y2: Seq<char>)
    requires
        decimal(n1) + y1 == decimal(n2) + y2,
        y1.len() > 0 && !is_digit(y1[0]),
        y2.len() > 0 && !is_digit(y2[0]),
    ensures
        n1 == n2,
        y1 == y2,
{
    lemma_decimal(n1);
    lemma_decimal(n2);
    let x1 = decimal(n1);
    let x2 = decimal(n2);
    let s = x1 + y1;
    if x1.len() < x2.len() {
        assert(s[x1.len() as int] == y1[0]);
        assert((x2 + y2)[x1.len() as int] == x2[x1.len() as int]);
    } else if x1.len() > x2.len() {
        assert((x2 + y2)[x2.len() as int] == y2[0]);
        assert(s[x2.len() as int] == x1[x2.len() as int]);
    }
    assert(x1 =~= s.subrange(0, x1.len() as int));
    assert(x2 =~= (x2 + y2).subrange(0, x2.len() as int));
    assert(y1 =~= s.subrange(x1.len() as int, s.len() as int));
    assert(y2 =~= (x2 + y2).subrange(x2.len() as int, s.len() as int));
}

/// Different well-formed claim sets have different claim texts.
pub proof fn lemma_claim_text_injective(c1: ClaimSet, c2: ClaimSet)
    requires
        well_formed(c1),
        well_formed(c2),
        claim_text(c1) == claim_text(c2),
    ensures
        c1 == c2,
{
    lemma_strip(lit_open(), kind_word(c1.refresh) + tail_iss(c1), kind_word(c2.refresh) + tail_iss(c2));
    let k1 = kind_word(c1.refresh) + tail_iss(c1);
    let k2 = kind_word(c2.refresh) + tail_iss(c2);
    assert(k1[0] == kind_word(c1.refresh)[0]);
    assert(k2[0] == kind_word(c2.refresh)[0]);
    assert(c1.refresh == c2.refresh);
    lemma_strip(kind_word(c1.refresh), tail_iss(c1), tail_iss(c2));
    lemma_strip(lit_iss(), c1.iss + tail_aud(c1), c2.iss + tail_aud(c2));
    lemma_plain_split(c1.iss, tail_aud(c1), c2.iss, tail_aud(c2));
    lemma_strip(lit_aud(), c1.aud + tail_exp(c1), c2.aud + tail_exp(c2));
    lemma_plain_split(c1.aud, tail_exp(c1), c2.aud, tail_exp(c2));
    lemma_strip(
        lit_exp(),
        decimal(c1.exp as nat) + tail_iat(c1),
        decimal(c2.exp as nat) + tail_iat(c2),
    );
    lemma_decimal_split(c1.exp as nat, tail_iat(c1), c2.exp as nat, tail_iat(c2));
    lemma_strip(
        lit_iat(),
        decimal(c1.iat as nat) + tail_jti(c1),
        decimal(c2.iat as nat) + tail_jti(c2),
    );
    lemma_decimal_split(c1.iat as nat, tail_jti(c1), c2.iat as nat, tail_jti(c2));
    lemma_strip(lit_jti(), c1.jti + lit_close(), c2.jti + lit_close());
    lemma_plain_split(c1.jti, lit_close(), c2.jti, lit_close());
}

/// Relies on std's `FromIterator<char>` for `String`: the characters, in order.
#[verifier::external_body]
pub(crate) fn string_of(cs: &Vec<char>) -> (r: String)
    ensures
        r@ == cs@,
{
    cs.iter().collect()
}

/// Relies on `str::chars`: the characters of `s`, in order.
#[verifier::external_body]
pub(crate) fn chars_of(s: &str) -> (r: Vec<char>)
    ensures
        r@ == s@,
{
    s.chars().collect()
}

pub(crate) fn cat(a: Vec<char>, b: Vec<char>) -> (r: Vec<char>)
    ensures
        r@ == a@ + b@,
{
    let mut a = a;
    let mut b = b;
    a.append(&mut b);
    a
}

/// Whether every character of `s` is plain.
pub fn plain_text(s: &str) -> (r: bool)
    ensures
        r == is_plain(s@),
{
    let cs = chars_of(s);
    let mut i: usize = 0;
    while i < cs.len()
        invariant
            i <= cs.len(),
            cs@ == s@,
            forall|j: int| 0 <= j < i ==> plain_char(#[trigger] cs@[j]),
        decreases cs.len() - i,
    {
        let c = cs[i];
        if c == '"' || c == '\\' || (c as u32) < 0x20 {
            assert(!plain_char(cs@[i as int]));
            return false;
        }
        i += 1;
    }
    true
}

pub(crate) fn decimal_chars(n: u64) -> (r: Vec<char>)
    ensures
        r@ == decimal(n as nat),
    decreases n,
{
    if n < 10 {
        let r = vec![((n as u8) + 48) as char];
        assert(r@ =~= decimal(n as nat));
        r
    } else {
        let mut r = decimal_chars(n / 10);
        r.push((((n % 10) as u8) + 48) as char);
        r
    }
}

pub(crate) fn lit_open_chars() -> (r: Vec<char>)
    ensures
        r@ == lit_open(),
{
    let r = vec!['{', '"', 's', 'u', 'b', '"', ':', '"'];
    assert(r@ =~= lit_open());
    r
}

pub(crate) fn word_refresh_chars() -> (r: Vec<char>)
    ensures
        r@ == word_refresh(),
{
    let r = vec!['r', 'e', 'f', 'r', 'e', 's', 'h'];
    assert(r@ =~= word_refresh());
    r
}

pub(crate) fn word_session_chars() -> (r: Vec<char>)
    ensures
        r@ == word_session(),
{
    let r = vec!['s', 'e', 's', 's', 'i', 'o', 'n'];
    assert(r@ =~= word_session());
    r
}

pub(crate) fn lit_iss_chars() -> (r: Vec<char>)
    ensures
        r@ == lit_iss(),
{
    let r = vec!['"', ',', '"', 'i', 's', 's', '"', ':', '"'];
    assert(r@ =~= lit_iss());
    r
}

pub(crate) fn lit_aud_chars() -> (r: Vec<char>)
    ensures
        r@ == lit_aud(),
{
    let r = vec!['"', ',', '"', 'a', 'u', 'd', '"', ':', '"'];
    assert(r@ =~= lit_aud());
    r
}

pub(crate) fn lit_exp_chars() -> (r: Vec<char>)
    ensures
        r@ == lit_exp(),
{
    let r = vec!['"', ',', '"', 'e', 'x', 'p', '"', ':'];
    assert(r@ =~= lit_exp());
    r
}

pub(crate) fn lit_iat_chars() -> (r: Vec<char>)
    ensures
        r@ == lit_iat(),
{
    let r = vec![',', '"', 'i', 'a', 't', '"', ':'];
    assert(r@ =~= lit_iat());
    r
}

pub(crate) fn lit_jti_chars() -> (r: Vec<char>)
    ensures
        r@ == lit_jti(),
{
    let r = vec![',', '"', 'j', 't', 'i', '"', ':', '"'];
    assert(r@ =~= lit_jti());
    r
}

pub(crate) fn lit_close_chars() -> (r: Vec<char>)
    ensures
        r@ == lit_close(),
{
    let r = vec!['"', '}'];
    assert(r@ =~= lit_close());
    r
}

/// The claim text of the claim set made of these values.
pub fn claim_chars(refresh: bool, iss: &str, aud: &str, exp: u64, iat: u64, jti: &str) -> (r: Vec<char>)
    ensures
        r@ == claim_text(ClaimSet { refresh, iss: iss@, aud: aud@, exp, iat, jti: jti@ }),
{
    let ghost c = ClaimSet { refresh, iss: iss@, aud: aud@, exp, iat, jti: jti@ };
    let t = cat(chars_of(jti), lit_close_chars());
    let t = cat(lit_jti_chars(), t);
    assert(t@ == tail_jti(c));
    let t = cat(decimal_chars(iat), t);
    let t = cat(lit_iat_chars(), t);
    assert(t@ == tail_iat(c));
    let t = cat(decimal_chars(exp), t);
    let t = cat(lit_exp_chars(), t);
    assert(t@ == tail_exp(c));
    let t = cat(chars_of(aud), t);
    let t = cat(lit_aud_chars(), t);
    assert(t@ == tail_aud(c));
    let t = cat(chars_of(iss), t);
    let t = cat(lit_iss_chars(), t);
    assert(t@ == tail_iss(c));
    let word = if refresh {
        word_refresh_chars()
    } else {
        word_session_chars()
    };
    let t = cat(word, t);
    cat(lit_open_chars(), t)
}

fn slice_chars(cs: &Vec<char>, from: usize, to: usize) -> (r: Vec<char>)
    requires
        from <= to <= cs.len(),
    ensures
        r@ == cs@.subrange(from as int, to as int),
{
    let mut r: Vec<char> = Vec::new();
    let mut i: usize = from;
    while i < to
        invariant
            from <= i <= to <= cs.len(),
            r@ == cs@.subrange(from as int, i as int),
        decreases to - i,
    {
        r.push(cs[i]);
        assert(r@ =~= cs@.subrange(from as int, i + 1));
        i += 1;
    }
    r
}

/// Reads a plain string and the literal `lit` that closes it; gives the end
/// of the string and the position after `lit`.
#[verifier::rlimit(40)]
fn plain_then(cs: &Vec<char>, p: usize, lit: &Vec<char>) -> (r: Option<(usize, usize)>)
    requires
        p <= cs.len(),
        lit.len() > 0,
        lit@[0] == '"',
    ensures
        match r {
            Some((e, q)) => {
                &&& p <= e <= q <= cs.len()
                &&& q == e + lit.len()
                &&& is_plain(cs@.subrange(p as int, e as int))
                &&& cs@.subrange(e as int, q as int) == lit@
                &&& forall|x: Seq<char>, y: Seq<char>|
                    #![trigger x + (lit@ + y)]
                    is_plain(x) && cs@.subrange(p as int, cs.len() as int) == x + (lit@ + y) ==> x
                        == cs@.subrange(p as int, e as int) && cs@.subrange(
                        q as int,
                        cs.len() as int,
                    ) == y
            },
            None => forall|x: Seq<char>, y: Seq<char>|
                #![trigger x + (lit@ + y)]
                is_plain(x) ==> cs@.subrange(p as int, cs.len() as int) != x + (lit@ + y),
        },
{
    let ghost s = cs@;
    let ghost n = s.len() as int;
    let e = match read_plain(cs, p) {
        Some(e) => e,
        None => {
            assert forall|x: Seq<char>, y: Seq<char>|
                #![trigger x + (lit@ + y)]
                is_plain(x) implies s.subrange(p as int, n) != x + (lit@ + y) by {
                if s.subrange(p as int, n) == x + (lit@ + y) {
                    lemma_skip(s, p as int, x, lit@ + y);
                    assert(s.subrange(p as int, n)[x.len() as int] == (lit@ + y)[0]);
                    assert(s[p + x.len()] == '"');
                }
            }
            return None;
        },
    };
    let q = match expect(cs, e, lit) {
        Some(q) => q,
        None => {
            assert forall|x: Seq<char>, y: Seq<char>|
                #![trigger x + (lit@ + y)]
                is_plain(x) implies s.subrange(p as int, n) != x + (lit@ + y) by {
                if s.subrange(p as int, n) == x + (lit@ + y) {
                    lemma_skip(s, p as int, x, lit@ + y);
                    assert(s.subrange(p as int, n)[x.len() as int] == (lit@ + y)[0]);
                    assert(s[p + x.len()] == '"');
                    lemma_skip(s, e as int, lit@, y);
                }
            }
            return None;
        },
    };
    assert forall|x: Seq<char>, y: Seq<char>|
        #![trigger x + (lit@ + y)]
        is_plain(x) && s.subrange(p as int, n) == x + (lit@ + y) implies x == s.subrange(
        p as int,
        e as int,
    ) && s.subrange(q as int, n) == y by {
        lemma_skip(s, p as int, x, lit@ + y);
        assert(s.subrange(p as int, n)[x.len() as int] == (lit@ + y)[0]);
        assert(s[p + x.len()] == '"');
        lemma_skip(s, e as int, lit@, y);
    }
    Some((e, q))
}

/// Reads a number in decimal notation and the literal `lit` that follows it;
/// gives the number and the position after `lit`.
#[verifier::rlimit(40)]
fn number_then(cs: &Vec<char>, p: usize, lit: &Vec<char>) -> (r: Option<(u64, usize)>)
    requires
        p <= cs.len(),
        lit.len() > 0,
        !is_digit(lit@[0]),
    ensures
        match r {
            Some((v, q)) => {
                &&& p + lit.len() <= q <= cs.len()
                &&& cs@.subrange(p as int, q - lit.len()) == decimal(v as nat)
                &&& cs@.subrange(q - lit.len(), q as int) == lit@
                &&& forall|m: u64, y: Seq<char>|
                    #![trigger decimal(m as nat) + (lit@ + y)]
                    cs@.subrange(p as int, cs.len() as int) == decimal(m as nat) + (lit@ + y) ==> m
                        == v && cs@.subrange(q as int, cs.len() as int) == y
            },
            None => forall|m: u64, y: Seq<char>|
                #![trigger decimal(m as nat) + (lit@ + y)]
                cs@.subrange(p as int, cs.len() as int) != decimal(m as nat) + (lit@ + y),
        },
{
    let ghost s = cs@;
    let ghost n = s.len() as int;
    let (v, e) = match read_number(cs, p) {
        Some(r) => r,
        None => {
            assert forall|m: u64, y: Seq<char>|
                #![trigger decimal(m as nat) + (lit@ + y)]
                s.subrange(p as int, n) != decimal(m as nat) + (lit@ + y) by {
                if s.subrange(p as int, n) == decimal(m as nat) + (lit@ + y) {
                    lemma_decimal(m as nat);
                    let d = decimal(m as nat);
                    lemma_skip(s, p as int, d, lit@ + y);
                    assert(s.subrange(p as int, n)[d.len() as int] == (lit@ + y)[0]);
                    assert(s.subrange(p as int, p + d.len()) == d);
                }
            }
            return None;
        },
    };
    let q = match expect(cs, e, lit) {
        Some(q) => q,
        None => {
            assert forall|m: u64, y: Seq<char>|
                #![trigger decimal(m as nat) + (lit@ + y)]
                s.subrange(p as int, n) != decimal(m as nat) + (lit@ + y) by {
                if s.subrange(p as int, n) == decimal(m as nat) + (lit@ + y) {
                    lemma_decimal(m as nat);
                    let d = decimal(m as nat);
                    lemma_skip(s, p as int, d, lit@ + y);
                    assert(s.subrange(p as int, n)[d.len() as int] == (lit@ + y)[0]);
                    assert(s.subrange(p as int, p + d.len()) == d);
                    lemma_skip(s, e as int, lit@, y);
                }
            }
            return None;
        },
    };
    assert forall|m: u64, y: Seq<char>|
        #![trigger decimal(m as nat) + (lit@ + y)]
        s.subrange(p as int, n) == decimal(m as nat) + (lit@ + y) implies m == v && s.subrange(
        q as int,
        n,
    ) == y by {
        lemma_decimal(m as nat);
        let d = decimal(m as nat);
        lemma_skip(s, p as int, d, lit@ + y);
        assert(s.subrange(p as int, n)[d.len() as int] == (lit@ + y)[0]);
        assert(s.subrange(p as int, p + d.len()) == d);
        lemma_skip(s, e as int, lit@, y);
    }
    Some((v, q))
}

/// Reads the front of a claim text, up to the start of the issuer; gives the
/// kind of token and the position of the issuer.
#[verifier::rlimit(40)]
fn parse_head(cs: &Vec<char>) -> (r: Option<(bool, usize)>)
    ensures
        match r {
            Some((refresh, p)) => {
                &&& p <= cs.len()
                &&& cs@.subrange(0, p as int) == lit_open() + (kind_word(refresh) + lit_iss())
                &&& forall|c: ClaimSet|
                    renders(c, cs@) ==> c.refresh == refresh && cs@.subrange(p as int, cs.len() as int)
                        == c.iss + tail_aud(c)
            },
            None => forall|c: ClaimSet| !renders(c, cs@),
        },
{
    let ghost s = cs@;
    let ghost n = s.len() as int;
    assert(s.subrange(0, n) =~= s);
    let after_open = match expect(cs, 0, &lit_open_chars()) {
        Some(p) => p,
        None => {
            assert forall|c: ClaimSet| !renders(c, s) by {
                if renders(c, s) {
                    lemma_skip(s, 0, lit_open(), kind_word(c.refresh) + tail_iss(c));
                }
            }
            return None;
        },
    };
    let (refresh, after_kind) = match expect(cs, after_open, &word_refresh_chars()) {
        Some(p) => (true, p),
        None => match expect(cs, after_open, &word_session_chars()) {
            Some(p) => (false, p),
            None => {
                assert forall|c: ClaimSet| !renders(c, s) by {
                    if renders(c, s) {
                        lemma_skip(s, 0, lit_open(), kind_word(c.refresh) + tail_iss(c));
                        lemma_skip(s, after_open as int, kind_word(c.refresh), tail_iss(c));
                    }
                }
                return None;
            },
        },
    };
    let iss_at = match expect(cs, after_kind, &lit_iss_chars()) {
        Some(p) => p,
        None => {
            assert forall|c: ClaimSet| !renders(c, s) by {
                if renders(c, s) {
                    lemma_skip(s, 0, lit_open(), kind_word(c.refresh) + tail_iss(c));
                    lemma_skip(s, after_open as int, kind_word(c.refresh), tail_iss(c));
                    assert(s.subrange(after_open as int, after_kind as int)[0] == kind_word(refresh)[0]);
                    assert(s.subrange(after_open as int, after_open + 7)[0] == kind_word(c.refresh)[0]);
                    lemma_skip(s, after_kind as int, lit_iss(), c.iss + tail_aud(c));
                }
            }
            return None;
        },
    };
    assert forall|c: ClaimSet| renders(c, s) implies c.refresh == refresh && s.subrange(iss_at as int, n)
        == c.iss + tail_aud(c) by {
        lemma_skip(s, 0, lit_open(), kind_word(c.refresh) + tail_iss(c));
        lemma_skip(s, after_open as int, kind_word(c.refresh), tail_iss(c));
        assert(s.subrange(after_open as int, after_kind as int)[0] == kind_word(refresh)[0]);
        assert(s.subrange(after_open as int, after_open + 7)[0] == kind_word(c.refresh)[0]);
        lemma_skip(s, after_kind as int, lit_iss(), c.iss + tail_aud(c));
    }
    proof {
        lemma_join(s, after_open as int, after_kind as int, iss_at as int, kind_word(refresh), lit_iss());
        lemma_join(s, 0, after_open as int, iss_at as int, lit_open(), kind_word(refresh) + lit_iss());
    }
    Some((refresh, iss_at))
}

/// The values of a claim set read from its text.
pub struct ClaimFields {
    pub refresh: bool,
    pub iss: String,
    pub aud: String,
    pub exp: u64,
    pub iat: u64,
    pub jti: String,
}

impl View for ClaimFields {
    type V = ClaimSet;

    open spec fn view(&self) -> ClaimSet {
        ClaimSet {
            refresh: self.refresh,
            iss: self.iss@,
            aud: self.aud@,
            exp: self.exp,
            iat: self.iat,
            jti: self.jti@,
        }
    }
}

/// Reads a claim set from its claim text; `None` where `text` is not the claim
/// text of any well-formed claim set.
#[verifier::rlimit(40)]
pub fn parse_claims(text: &str) -> (r: Option<ClaimFields>)
    ensures
        match r {
            Some(f) => renders(f@, text@),
            None => forall|c: ClaimSet| !renders(c, text@),
        },
{
    let cs = chars_of(text);
    let ghost s = cs@;
    let ghost n = s.len() as int;
    let (refresh, iss_at) = match parse_head(&cs) {
        Some(r) => r,
        None => return None,
    };
    let lit_aud_v = lit_aud_chars();
    let (iss_end, aud_at) = match plain_then(&cs, iss_at, &lit_aud_v) {
        Some(r) => r,
        None => {
            assert forall|c: ClaimSet| !renders(c, s) by {
                if renders(c, s) {
                    assert(s.subrange(iss_at as int, n) == c.iss + (lit_aud_v@ + (c.aud + tail_exp(c))));
                }
            }
            return None;
        },
    };
    assert forall|c: ClaimSet| renders(c, s) implies c.iss == s.subrange(iss_at as int, iss_end as int)
        && s.subrange(aud_at as int, n) == c.aud + tail_exp(c) by {
        assert(s.subrange(iss_at as int, n) == c.iss + (lit_aud_v@ + (c.aud + tail_exp(c))));
    }
    let lit_exp_v = lit_exp_chars();
    let (aud_end, exp_at) = match plain_then(&cs, aud_at, &lit_exp_v) {
        Some(r) => r,
        None => {
            assert forall|c: ClaimSet| !renders(c, s) by {
                if renders(c, s) {
                    assert(s.subrange(aud_at as int, n) == c.aud + (lit_exp_v@ + (decimal(c.exp as nat)
                        + tail_iat(c))));
                }
            }
            return None;
        },
    };
    assert forall|c: ClaimSet| renders(c, s) implies c.aud == s.subrange(aud_at as int, aud_end as int)
        && s.subrange(exp_at as int, n) == decimal(c.exp as nat) + tail_iat(c) by {
        assert(s.subrange(aud_at as int, n) == c.aud + (lit_exp_v@ + (decimal(c.exp as nat) + tail_iat(
            c,
        ))));
    }
    let lit_iat_v = lit_iat_chars();
    let (exp, iat_at) = match number_then(&cs, exp_at, &lit_iat_v) {
        Some(r) => r,
        None => {
            assert forall|c: ClaimSet| !renders(c, s) by {
                if renders(c, s) {
                    assert(s.subrange(exp_at as int, n) == decimal(c.exp as nat) + (lit_iat_v@ + (decimal(
                        c.iat as nat,
                    ) + tail_jti(c))));
                }
            }
            return None;
        },
    };
    assert forall|c: ClaimSet| renders(c, s) implies c.exp == exp && s.subrange(iat_at as int, n)
        == decimal(c.iat as nat) + tail_jti(c) by {
        assert(s.subrange(exp_at as int, n) == decimal(c.exp as nat) + (lit_iat_v@ + (decimal(
            c.iat as nat,
        ) + tail_jti(c))));
    }
    let lit_jti_v = lit_jti_chars();
    let (iat, jti_at) = match number_then(&cs, iat_at, &lit_jti_v) {
        Some(r) => r,
        None => {
            assert forall|c: ClaimSet| !renders(c, s) by {
                if renders(c, s) {
                    assert(s.subrange(iat_at as int, n) == decimal(c.iat as nat) + (lit_jti_v@ + (c.jti
                        + lit_close())));
                }
            }
            return None;
        },
    };
    assert forall|c: ClaimSet| renders(c, s) implies c.iat == iat && s.subrange(jti_at as int, n)
        == c.jti + lit_close() by {
        assert(s.subrange(iat_at as int, n) == decimal(c.iat as nat) + (lit_jti_v@ + (c.jti
            + lit_close())));
    }
    let lit_close_v = lit_close_chars();
    let (jti_end, end_at) = match plain_then(&cs, jti_at, &lit_close_v) {
        Some(r) => r,
        None => {
            assert forall|c: ClaimSet| !renders(c, s) by {
                if renders(c, s) {
                    assert(lit_close_v@ + Seq::<char>::empty() =~= lit_close_v@);
                    assert(s.subrange(jti_at as int, n) == c.jti + (lit_close_v@ + Seq::<char>::empty()));
                }
            }
            return None;
        },
    };
    if end_at != cs.len() {
        assert forall|c: ClaimSet| !renders(c, s) by {
            if renders(c, s) {
                assert(lit_close_v@ + Seq::<char>::empty() =~= lit_close_v@);
                assert(s.subrange(jti_at as int, n) == c.jti + (lit_close_v@ + Seq::<char>::empty()));
                assert(s.subrange(end_at as int, n).len() == 0);
            }
        }
        return None;
    }
    let iss = slice_chars(&cs, iss_at, iss_end);
    let aud = slice_chars(&cs, aud_at, aud_end);
    let jti = slice_chars(&cs, jti_at, jti_end);
    let ghost f = ClaimSet { refresh, iss: iss@, aud: aud@, exp, iat, jti: jti@ };
    proof {
        assert(s.subrange(end_at as int, n) =~= Seq::<char>::empty());
        assert(lit_close() + Seq::<char>::empty() =~= lit_close());
        lemma_join(s, jti_end as int, end_at as int, n, lit_close(), Seq::<char>::empty());
        lemma_join(s, jti_at as int, jti_end as int, n, jti@, lit_close());
        lemma_join(s, jti_at - 8, jti_at as int, n, lit_jti(), jti@ + lit_close());
        lemma_join(s, iat_at as int, jti_at - 8, n, decimal(iat as nat), tail_jti(f));
        lemma_join(s, iat_at - 7, iat_at as int, n, lit_iat(), decimal(iat as nat) + tail_jti(f));
        lemma_join(s, exp_at as int, iat_at - 7, n, decimal(exp as nat), tail_iat(f));
        lemma_join(s, aud_end as int, exp_at as int, n, lit_exp(), decimal(exp as nat) + tail_iat(f));
        lemma_join(s, aud_at as int, aud_end as int, n, aud@, tail_exp(f));
        lemma_join(s, iss_end as int, aud_at as int, n, lit_aud(), aud@ + tail_exp(f));
        lemma_join(s, iss_at as int, iss_end as int, n, iss@, tail_aud(f));
        lemma_join(s, 0, iss_at as int, n, lit_open() + (kind_word(refresh) + lit_iss()), iss@ + tail_aud(f));
        assert(claim_text(f) =~= (lit_open() + (kind_word(refresh) + lit_iss())) + (iss@ + tail_aud(f)));
        assert(s.subrange(0, n) =~= s);
    }
    Some(ClaimFields {
        refresh,
        iss: string_of(&iss),
        aud: string_of(&aud),
        exp,
        iat,
        jti: string_of(&jti),
    })
}

} // verus!
