//! Text primitives: prefixes, searches, decimal numerals.

use vstd::prelude::*;

verus! {

/// The characters of `s`, in order.
pub fn chars_of(s: &str) -> (v: Vec<char>)
    ensures
        v@ == s@,
{
    let mut v: Vec<char> = Vec::new();
    for c in it: s.chars()
        invariant
            v@ == s@.take(it.index() as int),
            it.seq() == s@,
    {
        proof {
            assert(s@.take(it.index() as int + 1) =~= s@.take(it.index() as int).push(c));
        }
        v.push(c);
    }
    proof {
        assert(s@.take(s@.len() as int) =~= s@);
    }
    v
}

/// Whether `s` begins with `prefix`.
pub open spec fn begins_with(s: Seq<char>, prefix: Seq<char>) -> bool {
    prefix.len() <= s.len() && s.take(prefix.len() as int) == prefix
}

/// Whether `s` begins with `prefix`.
pub fn starts_with(s: &str, prefix: &str) -> (b: bool)
    ensures
        b == begins_with(s@, prefix@),
{
    let a: Vec<char> = chars_of(s);
    let p: Vec<char> = chars_of(prefix);
    if p.len() > a.len() {
        return false;
    }
    let mut i: usize = 0;
    while i < p.len()
        invariant
            i <= p.len() <= a.len(),
            a@ == s@,
            p@ == prefix@,
            forall|k: int| 0 <= k < i ==> a@[k] == p@[k],
        decreases p.len() - i,
    {
        if a[i] != p[i] {
            proof {
                assert(s@.take(prefix@.len() as int)[i as int] == a@[i as int]);
            }
            return false;
        }
        i += 1;
    }
    proof {
        assert(s@.take(prefix@.len() as int) =~= prefix@);
    }
    true
}

/// Whether two texts hold the same characters.
pub fn same_text(s: &str, t: &str) -> (b: bool)
    ensures
        b == (s@ == t@),
{
    let a: Vec<char> = chars_of(s);
    let c: Vec<char> = chars_of(t);
    if a.len() != c.len() {
        return false;
    }
    let mut i: usize = 0;
    while i < a.len()
        invariant
            i <= a.len() == c.len(),
            a@ == s@,
            c@ == t@,
            forall|k: int| 0 <= k < i ==> a@[k] == c@[k],
        decreases a.len() - i,
    {
        if a[i] != c[i] {
            return false;
        }
        i += 1;
    }
    proof {
        assert(s@ =~= t@);
    }
    true
}

/// `String::push`: appends one character and changes nothing else.
#[verifier::external_body]
pub(crate) fn push_char(s: &mut String, c: char)
    ensures
        final(s)@ == old(s)@.push(c),
{
    s.push(c);
}

/// `a` followed by `b`.
pub fn cat(a: &str, b: &str) -> (s: String)
    ensures
        s@ == a@ + b@,
{
    let mut s: String = a.to_string();
    s.append(b);
    s
}

/// The position of the first `c` in `s`.
pub open spec fn first_index(s: Seq<char>, c: char) -> Option<int>
    decreases s.len(),
{
    if s.len() == 0 {
        None
    } else if s[0] == c {
        Some(0)
    } else {
        match first_index(s.skip(1), c) {
            Some(i) => Some(i + 1),
            None => None,
        }
    }
}

/// The position of the last `c` in `s`.
pub open spec fn last_index(s: Seq<char>, c: char) -> Option<int>
    decreases s.len(),
{
    if s.len() == 0 {
        None
    } else if s.last() == c {
        Some(s.len() - 1)
    } else {
        last_index(s.drop_last(), c)
    }
}

/// What the position of the first `c` tells of the characters before it.
pub proof fn lemma_first_index(s: Seq<char>, c: char)
    ensures
        first_index(s, c) matches Some(i) ==> {
            &&& 0 <= i < s.len()
            &&& s[i] == c
            &&& forall|k: int| 0 <= k < i ==> s[k] != c
        },
        first_index(s, c) is None ==> forall|k: int| 0 <= k < s.len() ==> s[k] != c,
    decreases s.len(),
{
    if s.len() > 0 && s[0] != c {
        let t = s.skip(1);
        lemma_first_index(t, c);
        assert forall|k: int| 1 <= k < s.len() implies s[k] == t[k - 1] by {}
    }
}

/// What the position of the last `c` tells of the characters after it.
pub proof fn lemma_last_index(s: Seq<char>, c: char)
    ensures
        last_index(s, c) matches Some(i) ==> {
            &&& 0 <= i < s.len()
            &&& s[i] == c
            &&& forall|k: int| i < k < s.len() ==> s[k] != c
        },
        last_index(s, c) is None ==> forall|k: int| 0 <= k < s.len() ==> s[k] != c,
    decreases s.len(),
{
    if s.len() > 0 && s.last() != c {
        let t = s.drop_last();
        lemma_last_index(t, c);
        assert forall|k: int| 0 <= k < s.len() - 1 implies s[k] == t[k] by {}
    }
}

/// The position of the first `c` in `s`, counted in characters.
pub fn find_char(s: &str, c: char) -> (r: Option<usize>)
    ensures
        match r {
            Some(i) => first_index(s@, c) == Some(i as int),
            None => first_index(s@, c) is None,
        },
{
    let v: Vec<char> = chars_of(s);
    proof {
        lemma_first_index(s@, c);
    }
    let mut i: usize = 0;
    while i < v.len()
        invariant
            i <= v.len(),
            v@ == s@,
            forall|k: int| 0 <= k < i ==> s@[k] != c,
        decreases v.len() - i,
    {
        if v[i] == c {
            proof {
                lemma_first_index(s@, c);
            }
            return Some(i);
        }
        i += 1;
    }
    None
}

/// The position of the last `c` in `s`, counted in characters.
pub fn rfind_char(s: &str, c: char) -> (r: Option<usize>)
    ensures
        match r {
            Some(i) => last_index(s@, c) == Some(i as int),
            None => last_index(s@, c) is None,
        },
{
    let v: Vec<char> = chars_of(s);
    proof {
        lemma_last_index(s@, c);
    }
    let mut i: usize = v.len();
    while i > 0
        invariant
            i <= v.len(),
            v@ == s@,
            forall|k: int| i <= k < s@.len() ==> s@[k] != c,
        decreases i,
    {
        i -= 1;
        if v[i] == c {
            proof {
                lemma_last_index(s@, c);
            }
            return Some(i);
        }
    }
    None
}

/// The characters of `s` from position `from` on.
pub fn text_from<'a>(s: &'a str, from: usize) -> (r: &'a str)
    requires
        from <= s@.len(),
    ensures
        r@ == s@.skip(from as int),
{
    let n: usize = s.unicode_len();
    let r: &'a str = s.substring_char(from, n);
    proof {
        assert(r@ =~= s@.skip(from as int));
    }
    r
}

/// The first `to` characters of `s`.
pub fn text_until<'a>(s: &'a str, to: usize) -> (r: &'a str)
    requires
        to <= s@.len(),
    ensures
        r@ == s@.take(to as int),
{
    let r: &'a str = s.substring_char(0, to);
    proof {
        assert(r@ =~= s@.take(to as int));
    }
    r
}

/// The decimal digit of value `d`.
pub open spec fn digit_char(d: nat) -> char {
    (48 + d) as u8 as char
}

/// `n` in decimal, without leading zeros.
pub open spec fn decimal(n: nat) -> Seq<char>
    decreases n,
{
    if n < 10 {
        seq![digit_char(n)]
    } else {
        decimal(n / 10).push(digit_char(n % 10))
    }
}

/// `n` in decimal.
pub fn decimal_text(n: u64) -> (s: String)
    ensures
        s@ == decimal(n as nat),
    decreases n,
{
    let d: u8 = (n % 10) as u8;
    let c: char = (48u8 + d) as char;
    if n < 10 {
        let mut s: String = String::new();
        push_char(&mut s, c);
        proof {
            assert(s@ =~= decimal(n as nat));
        }
        s
    } else {
        let mut s: String = decimal_text(n / 10);
        push_char(&mut s, c);
        s
    }
}

/// Whether `b` is an ASCII decimal digit.
pub open spec fn is_digit(b: u8) -> bool {
    48 <= b <= 57
}

/// Whether `s` is a non-empty run of decimal digits.
pub open spec fn is_numeral(s: Seq<u8>) -> bool {
    s.len() > 0 && forall|i: int| 0 <= i < s.len() ==> is_digit(#[trigger] s[i])
}

/// The number that a run of decimal digits stands for.
pub open spec fn numeral_value(s: Seq<u8>) -> nat
    decreases s.len(),
{
    if s.len() == 0 {
        0
    } else {
        (numeral_value(s.drop_last()) * 10 + (s.last() - 48)) as nat
    }
}

/// The unsigned number that `s` spells: an optional `+`, then decimal digits.
pub open spec fn unsigned_value(s: Seq<u8>) -> Option<nat> {
    let digits = if s.len() > 0 && s[0] == 43 {
        s.skip(1)
    } else {
        s
    };
    if is_numeral(digits) {
        Some(numeral_value(digits))
    } else {
        None
    }
}

/// The unsigned number that `s` spells, if it is at most `max`.
pub open spec fn bounded_value(s: Seq<u8>, max: nat) -> Option<nat> {
    match unsigned_value(s) {
        Some(v) => if v <= max {
            Some(v)
        } else {
            None
        },
        None => None,
    }
}

/// Dropping trailing digits never raises a numeral's value.
proof fn lemma_numeral_prefix(s: Seq<u8>, k: int)
    requires
        is_numeral(s),
        0 <= k <= s.len(),
    ensures
        numeral_value(s.take(k)) <= numeral_value(s),
    decreases s.len(),
{
    if k == s.len() {
        assert(s.take(k) =~= s);
    } else {
        let t = s.drop_last();
        assert(is_digit(s.last()));
        if t.len() > 0 {
            assert forall|i: int| 0 <= i < t.len() implies is_digit(#[trigger] t[i]) by {
                assert(is_digit(s[i]));
            }
            lemma_numeral_prefix(t, k);
            assert(t.take(k) =~= s.take(k));
        } else {
            assert(s.take(k) =~= Seq::<u8>::empty());
        }
    }
}

/// Reads an unsigned 64-bit number; `None` where the text is no number or too large.
pub fn parse_u64(s: &[u8]) -> (r: Option<u64>)
    ensures
        match r {
            Some(v) => bounded_value(s@, u64::MAX as nat) == Some(v as nat),
            None => bounded_value(s@, u64::MAX as nat) is None,
        },
{
    let from: usize = if s.len() > 0 && s[0] == 43 {
        1
    } else {
        0
    };
    let ghost digits = s@.skip(from as int);
    proof {
        if from == 0 {
            assert(digits =~= s@);
        }
    }
    if from == s.len() {
        return None;
    }
    let mut v: u64 = 0;
    let mut i: usize = from;
    proof {
        assert(digits.take(0) =~= Seq::<u8>::empty());
    }
    while i < s.len()
        invariant
            from <= i <= s.len(),
            from <= 1,
            digits == s@.skip(from as int),
            digits == (if s@.len() > 0 && s@[0] == 43 {
                s@.skip(1)
            } else {
                s@
            }),
            v == numeral_value(digits.take(i - from)),
            forall|k: int| 0 <= k < i - from ==> is_digit(#[trigger] digits[k]),
        decreases s.len() - i,
    {
        let b: u8 = s[i];
        let ghost k = i - from;
        proof {
            assert(digits[k] == b);
            assert(digits.take(k + 1).drop_last() =~= digits.take(k));
            assert(digits.take(k + 1).last() == b);
        }
        if b < 48 || b > 57 {
            proof {
                assert(!is_digit(digits[k]));
            }
            return None;
        }
        let d: u64 = (b - 48) as u64;
        if v > u64::MAX / 10 || v * 10 > u64::MAX - d {
            proof {
                if is_numeral(digits) {
                    lemma_numeral_prefix(digits, k + 1);
                }
            }
            return None;
        }
        v = v * 10 + d;
        i += 1;
    }
    proof {
        assert(digits.take(digits.len() as int) =~= digits);
    }
    Some(v)
}

/// Reads an unsigned machine-word number; `None` where the text is no number or too large.
pub fn parse_usize(s: &[u8]) -> (r: Option<usize>)
    ensures
        match r {
            Some(v) => bounded_value(s@, usize::MAX as nat) == Some(v as nat),
            None => bounded_value(s@, usize::MAX as nat) is None,
        },
{
    match parse_u64(s) {
        Some(v) => if v <= usize::MAX as u64 {
            Some(v as usize)
        } else {
            None
        },
        None => None,
    }
}

/// ASCII characters as bytes.
pub open spec fn ascii_bytes(s: Seq<char>) -> Seq<u8> {
    Seq::new(s.len(), |i: int| s[i] as u8)
}

/// A decimal numeral is ASCII digits, and spells the number it was made from.
pub proof fn lemma_decimal_roundtrip(n: nat)
    ensures
        is_numeral(ascii_bytes(decimal(n))),
        numeral_value(ascii_bytes(decimal(n))) == n,
        vstd::utf8::is_ascii_chars(decimal(n)),
        unsigned_value(ascii_bytes(decimal(n))) == Some(n),
    decreases n,
{
    let b = ascii_bytes(decimal(n));
    reveal_with_fuel(numeral_value, 2);
    if n < 10 {
        assert(b =~= seq![(48 + n) as u8]);
        assert(b.drop_last() =~= Seq::<u8>::empty());
    } else {
        lemma_decimal_roundtrip(n / 10);
        let c = ascii_bytes(decimal(n / 10));
        assert(b.drop_last() =~= c);
        assert(b.last() == (48 + n % 10) as u8);
        assert forall|i: int| 0 <= i < b.len() implies is_digit(#[trigger] b[i]) by {
            if i < c.len() {
                assert(b[i] == c[i]);
                assert(is_digit(c[i]));
            }
        }
    }
    assert(is_digit(b[0]));
}

/// A text begins with exactly those texts that something can be appended to to give it.
pub proof fn law_prefix_and_rest(prefix: Seq<char>, rest: Seq<char>, s: Seq<char>)
    ensures
        begins_with(prefix + rest, prefix),
        begins_with(s, prefix) ==> s == prefix + s.skip(prefix.len() as int),
{
    assert((prefix + rest).take(prefix.len() as int) =~= prefix);
    if begins_with(s, prefix) {
        assert(s =~= s.take(prefix.len() as int) + s.skip(prefix.len() as int));
    }
}

/// A character that is put between two texts is found there: as the first where the text
/// before has none, as the last where the text behind has none.
pub proof fn law_separator_is_found(before: Seq<char>, c: char, behind: Seq<char>)
    ensures
        !before.contains(c) ==> first_index(before + seq![c] + behind, c) == Some(
            before.len() as int,
        ),
        !behind.contains(c) ==> last_index(before + seq![c] + behind, c) == Some(
            before.len() as int,
        ),
        !before.contains(c) ==> first_index(before, c) is None && last_index(before, c) is None,
{
    let s = before + seq![c] + behind;
    let n = before.len() as int;
    lemma_first_index(s, c);
    lemma_last_index(s, c);
    lemma_first_index(before, c);
    lemma_last_index(before, c);
    assert(s[n] == c);
    if !before.contains(c) {
        let i = first_index(s, c)->Some_0;
        if i < n {
            assert(s[i] == before[i]);
        }
    }
    if !behind.contains(c) {
        let i = last_index(s, c)->Some_0;
        if i > n {
            assert(s[i] == behind[i - n - 1]);
        }
    }
}

/// A digit is a character from `0` to `9`; a digit more makes a numeral ten times as large
/// and adds the value of the digit.
pub proof fn law_numerals_are_decimal(s: Seq<u8>, b: u8)
    ensures
        is_digit(b) <==> '0' <= b as char <= '9',
        is_digit(b) ==> numeral_value(s.push(b)) == 10 * numeral_value(s) + (b - 48),
        numeral_value(Seq::<u8>::empty()) == 0,
        is_digit(b) && is_numeral(s) ==> is_numeral(s.push(b)),
        is_digit(b) ==> is_numeral(seq![b]),
        !is_numeral(Seq::<u8>::empty()),
        !is_digit(b) ==> !is_numeral(s.push(b)),
{
    assert(s.push(b).drop_last() =~= s);
    if is_digit(b) && is_numeral(s) {
        assert forall|i: int| 0 <= i < s.push(b).len() implies is_digit(
            #[trigger] s.push(b)[i],
        ) by {
            if i < s.len() {
                assert(is_digit(s[i]));
            }
        }
    }
    if !is_digit(b) {
        assert(!is_digit(s.push(b)[s.len() as int]));
    }
}

/// A numeral is read as its number, with a plus sign before it or without; what is no numeral
/// is not read; and a number is refused exactly where it is above the bound.
pub proof fn law_numerals_are_read(s: Seq<u8>, max: nat)
    ensures
        is_numeral(s) ==> unsigned_value(s) == Some(numeral_value(s)) && unsigned_value(
            seq![43u8] + s,
        ) == Some(numeral_value(s)),
        !is_numeral(s) ==> unsigned_value(seq![43u8] + s) is None,
        !is_numeral(s) && (s.len() == 0 || s[0] != '+' as u8) ==> unsigned_value(s) is None,
        unsigned_value(s) is None ==> bounded_value(s, max) is None,
        unsigned_value(s) matches Some(v) ==> (bounded_value(s, max) is Some <==> v <= max) && (
        v <= max ==> bounded_value(s, max) == Some(v)),
{
    let t = seq![43u8] + s;
    assert(t.skip(1) =~= s);
    if is_numeral(s) {
        assert(is_digit(s[0]));
    }
}

/// A number is written without leading zeros, and different numbers are written differently.
pub proof fn law_decimal_is_canonical(n: nat, m: nat)
    ensures
        decimal(n).len() > 0,
        decimal(n)[0] == '0' ==> n == 0,
        decimal(n) == decimal(m) ==> n == m,
{
    lemma_decimal_roundtrip(n);
    lemma_decimal_roundtrip(m);
    lemma_decimal_head(n);
}

proof fn lemma_decimal_head(n: nat)
    ensures
        decimal(n).len() > 0,
        decimal(n)[0] == '0' ==> n == 0,
    decreases n,
{
    if n >= 10 {
        lemma_decimal_head(n / 10);
        assert(decimal(n)[0] == decimal(n / 10)[0]);
    } else {
        assert(decimal(n)[0] == digit_char(n));
    }
}

} // verus!
