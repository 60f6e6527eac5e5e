use vstd::prelude::*;
use vstd::std_specs::iter::IteratorSpec;

verus! {

broadcast use vstd::string::group_string_axioms;

/// Appends one character to a string (`String::push`).
#[verifier::external_body]
fn push_char(s: &mut String, c: char)
    ensures
        final(s)@ == old(s)@.push(c),
{
    s.push(c);
}

/// The characters of `s`, in order.
pub fn chars_of(s: &str) -> (v: Vec<char>)
    ensures
        v@ == s@,
{
    let mut v: Vec<char> = Vec::new();
    let mut it = s.chars();
    loop
        invariant
            v@ + it.remaining() == s@,
        ensures
            v@ == s@,
        decreases s@.len() - v@.len(),
    {
        match it.next() {
            Some(c) => {
                v.push(c);
            },
            None => {
                break;
            },
        }
    }
    v
}

/// The string made of the characters `v`.
pub fn string_of(v: &Vec<char>) -> (s: String)
    ensures
        s@ == v@,
{
    let mut s = String::new();
    let mut i: usize = 0;
    while i < v.len()
        invariant
            i <= v.len(),
            s@ == v@.take(i as int),
        decreases v.len() - i,
    {
        push_char(&mut s, v[i]);
        assert(v@.take(i as int).push(v@[i as int]) =~= v@.take(i + 1));
        i += 1;
    }
    assert(v@.take(v.len() as int) =~= v@);
    s
}

} // verus!

verus! {

/// The character of the decimal digit `d` (for `d < 10`).
pub open spec fn digit_char(d: nat) -> char {
    ((48 + d) as u8) as char
}

/// Decimal notation of `n`, without leading zeros.
pub open spec fn decimal(n: nat) -> Seq<char>
    decreases n,
{
    if n < 10 {
        seq![digit_char(n)]
    } else {
        decimal(n / 10).push(digit_char(n % 10))
    }
}

/// Decimal notation of an integer, with a leading `-` when it is negative.
pub open spec fn signed_decimal(i: int) -> Seq<char> {
    if i < 0 {
        seq!['-'] + decimal((-i) as nat)
    } else {
        decimal(i as nat)
    }
}

/// Decimal notation of `n` (the `Display` of an unsigned integer).
pub fn u64_to_decimal(n: u64) -> (s: Vec<char>)
    ensures
        s@ == decimal(n as nat),
    decreases n,
{
    let d = (48u8 + (n % 10) as u8) as char;
    if n < 10 {
        let mut v = Vec::new();
        v.push(d);
        assert(v@ =~= seq![d]);
        v
    } else {
        let mut v = u64_to_decimal(n / 10);
        v.push(d);
        v
    }
}

/// Decimal notation of `n` as a string.
pub fn usize_to_string(n: usize) -> (s: String)
    ensures
        s@ == decimal(n as nat),
{
    string_of(&u64_to_decimal(n as u64))
}

/// Decimal notation of `i` as a string (the `Display` of `i64`).
pub fn i64_to_string(i: i64) -> (s: String)
    ensures
        s@ == signed_decimal(i as int),
{
    if i < 0 {
        let m: u64 = (0i128 - i as i128) as u64;
        let mut v: Vec<char> = Vec::new();
        v.push('-');
        let mut digits = u64_to_decimal(m);
        v.append(&mut digits);
        assert(v@ =~= seq!['-'] + decimal((-i) as nat));
        string_of(&v)
    } else {
        string_of(&u64_to_decimal(i as u64))
    }
}

/// An ASCII digit.
pub open spec fn is_digit(c: char) -> bool {
    '0' <= c && c <= '9'
}

/// Nothing but ASCII digits.
pub open spec fn all_digits(s: Seq<char>) -> bool {
    forall|i: int| 0 <= i < s.len() ==> is_digit(#[trigger] s[i])
}

/// Value of the decimal digits `s` (meaningful when `all_digits(s)`).
pub open spec fn digits_value(s: Seq<char>) -> int
    decreases s.len(),
{
    if s.len() == 0 {
        0
    } else {
        digits_value(s.drop_last()) * 10 + (s.last() as int - 48)
    }
}

/// What `str::parse` gives for an integer type whose values are `min..=max`
/// (`signed` tells whether a leading `-` is allowed): an optional sign, then
/// at least one ASCII digit, and a value in range.
pub open spec fn parse_integer(s: Seq<char>, signed: bool, min: int, max: int) -> Option<int> {
    if s.len() == 0 {
        None
    } else {
        let neg = signed && s[0] == '-';
        let body = if s[0] == '+' || neg {
            s.drop_first()
        } else {
            s
        };
        if body.len() == 0 || !all_digits(body) {
            None
        } else {
            let v = if neg {
                -digits_value(body)
            } else {
                digits_value(body)
            };
            if min <= v && v <= max {
                Some(v)
            } else {
                None
            }
        }
    }
}

proof fn lemma_digits_value_nonneg(s: Seq<char>)
    requires
        all_digits(s),
    ensures
        digits_value(s) >= 0,
    decreases s.len(),
{
    if s.len() > 0 {
        lemma_digits_value_nonneg(s.drop_last());
    }
}

proof fn lemma_digits_value_prefix(s: Seq<char>, k: int)
    requires
        all_digits(s),
        0 <= k <= s.len(),
    ensures
        digits_value(s.take(k)) <= digits_value(s),
    decreases s.len(),
{
    if k < s.len() {
        assert(s.drop_last().take(k) =~= s.take(k));
        lemma_digits_value_prefix(s.drop_last(), k);
        lemma_digits_value_nonneg(s.drop_last());
    } else {
        assert(s.take(k) =~= s);
    }
}

/// Value of the digits `v[start..]` when they are all digits and the value is at most `limit`.
fn parse_digits(v: &Vec<char>, start: usize, limit: u64) -> (r: Option<u64>)
    requires
        start <= v.len(),
    ensures
        r matches Some(x) ==> all_digits(v@.skip(start as int)) && x == digits_value(v@.skip(start as int))
            && x <= limit,
        r is None ==> !all_digits(v@.skip(start as int)) || digits_value(v@.skip(start as int)) > limit,
{
    let ghost body = v@.skip(start as int);
    let mut acc: u64 = 0;
    let mut i: usize = start;
    while i < v.len()
        invariant
            start <= i <= v.len(),
            body == v@.skip(start as int),
            all_digits(body.take(i - start)),
            acc == digits_value(body.take(i - start)),
            acc <= limit,
        decreases v.len() - i,
    {
        let c = v[i];
        if !('0' <= c && c <= '9') {
            assert(body[i - start] == c);
            return None;
        }
        let new: u128 = acc as u128 * 10 + (c as u32 - 48) as u128;
        assert(body.take(i - start + 1).drop_last() =~= body.take(i - start));
        assert(all_digits(body.take(i - start + 1)));
        if new > limit as u128 {
            proof {
                if all_digits(body) {
                    lemma_digits_value_prefix(body, i - start + 1);
                }
            }
            return None;
        }
        acc = new as u64;
        i += 1;
    }
    assert(body.take(i - start) =~= body);
    Some(acc)
}

/// `str::parse::<i64>`.
pub fn parse_i64(s: &str) -> (r: Option<i64>)
    ensures
        r matches Some(x) ==> parse_integer(s@, true, i64::MIN as int, i64::MAX as int) == Some(x as int),
        r is None ==> parse_integer(s@, true, i64::MIN as int, i64::MAX as int) is None,
{
    let v = chars_of(s);
    if v.len() == 0 {
        return None;
    }
    let neg = v[0] == '-';
    let start: usize = if v[0] == '+' || neg { 1 } else { 0 };
    assert(start == 0 ==> v@.skip(0) =~= v@);
    assert(start == 1 ==> v@.skip(1) =~= v@.drop_first());
    if start == v.len() {
        return None;
    }
    let limit: u64 = if neg { 9223372036854775808u64 } else { 9223372036854775807u64 };
    match parse_digits(&v, start, limit) {
        None => None,
        Some(m) => {
            proof {
                lemma_digits_value_nonneg(v@.skip(start as int));
                let body = if s@[0] == '+' || (true && s@[0] == '-') { s@.drop_first() } else { s@ };
                assert(body =~= v@.skip(start as int));
            }
            if neg {
                Some((0i128 - m as i128) as i64)
            } else {
                Some(m as i64)
            }
        },
    }
}

/// `str::parse::<usize>`.
pub fn parse_usize(s: &str) -> (r: Option<usize>)
    ensures
        r matches Some(x) ==> parse_integer(s@, false, 0, usize::MAX as int) == Some(x as int),
        r is None ==> parse_integer(s@, false, 0, usize::MAX as int) is None,
{
    let v = chars_of(s);
    if v.len() == 0 {
        return None;
    }
    let start: usize = if v[0] == '+' { 1 } else { 0 };
    assert(start == 0 ==> v@.skip(0) =~= v@);
    assert(start == 1 ==> v@.skip(1) =~= v@.drop_first());
    if start == v.len() {
        return None;
    }
    let max: usize = usize::MAX;
    assert(max as u64 == max) by (bit_vector);
    match parse_digits(&v, start, max as u64) {
        None => None,
        Some(m) => {
            proof {
                lemma_digits_value_nonneg(v@.skip(start as int));
                let body = if s@[0] == '+' || (false && s@[0] == '-') { s@.drop_first() } else { s@ };
                assert(body =~= v@.skip(start as int));
            }
            Some(m as usize)
        },
    }
}

} // verus!

verus! {

/// `a` followed by `b`.
pub fn cat(a: &str, b: &str) -> (r: String)
    ensures
        r@ == a@ + b@,
{
    let mut r = String::from_str(a);
    r.append(b);
    r
}

/// `a`, `sep` and `b`, one after the other.
pub fn cat3(a: &str, sep: &str, b: &str) -> (r: String)
    ensures
        r@ == a@ + sep@ + b@,
{
    let mut r = String::from_str(a);
    r.append(sep);
    r.append(b);
    r
}

/// The pieces joined with `sep` between them (`join` of a slice of strings).
pub open spec fn join(pieces: Seq<Seq<char>>, sep: Seq<char>) -> Seq<char>
    decreases pieces.len(),
{
    if pieces.len() == 0 {
        Seq::empty()
    } else if pieces.len() == 1 {
        pieces[0]
    } else {
        join(pieces.drop_last(), sep) + sep + pieces.last()
    }
}

/// The strings joined with `sep` between them.
pub fn join_strings(pieces: &Vec<String>, sep: &str) -> (r: String)
    ensures
        r@ == join(pieces.deep_view(), sep@),
{
    let mut r = String::new();
    let mut i: usize = 0;
    while i < pieces.len()
        invariant
            i <= pieces.len(),
            r@ == join(pieces.deep_view().take(i as int), sep@),
        decreases pieces.len() - i,
    {
        let ghost dv = pieces.deep_view();
        assert(dv.take(i + 1).drop_last() =~= dv.take(i as int));
        assert(dv.take(i + 1).last() == pieces@[i as int]@);
        if i > 0 {
            r.append(sep);
        } else {
            assert(r@ =~= Seq::<char>::empty());
        }
        r.append(pieces[i].as_str());
        i += 1;
    }
    assert(pieces.deep_view().take(pieces.len() as int) =~= pieces.deep_view());
    r
}

/// Whether two strings are equal.
pub fn str_eq(a: &str, b: &str) -> (r: bool)
    ensures
        r == (a@ == b@),
{
    String::from_str(a) == String::from_str(b)
}

/// `s` with the prefix `p` removed, where `s` starts with `p` (`str::strip_prefix`).
pub open spec fn without_prefix(s: Seq<char>, p: Seq<char>) -> Option<Seq<char>> {
    if p.len() <= s.len() && s.take(p.len() as int) == p {
        Some(s.skip(p.len() as int))
    } else {
        None
    }
}

/// `s` with the suffix `p` removed, where `s` ends with `p` (`str::strip_suffix`).
pub open spec fn without_suffix(s: Seq<char>, p: Seq<char>) -> Option<Seq<char>> {
    if p.len() <= s.len() && s.skip(s.len() - p.len()) == p {
        Some(s.take(s.len() - p.len()))
    } else {
        None
    }
}

/// `s` holds `p` somewhere (`str::contains`).
pub open spec fn has_substring(s: Seq<char>, p: Seq<char>) -> bool {
    exists|i: int| 0 <= i && i + p.len() <= s.len() && #[trigger] s.subrange(i, i + p.len()) == p
}

/// Whether `v[at..at + p.len()]` is `p`.
fn chars_match_at(v: &Vec<char>, at: usize, p: &Vec<char>) -> (r: bool)
    requires
        at + p@.len() <= v@.len(),
    ensures
        r == (v@.subrange(at as int, at + p@.len()) == p@),
{
    let n = v.len();
    let mut k: usize = 0;
    while k < p.len()
        invariant
            k <= p@.len(),
            n == v@.len(),
            at + p@.len() <= v@.len(),
            forall|j: int| 0 <= j < k ==> v@[at + j] == p@[j],
        decreases p@.len() - k,
    {
        if v[at + k] != p[k] {
            assert(v@.subrange(at as int, at + p@.len())[k as int] != p@[k as int]);
            return false;
        }
        k += 1;
    }
    assert(v@.subrange(at as int, at + p@.len()) =~= p@);
    true
}

/// `s` without the prefix `p`, where it starts with `p`.
pub fn strip_prefix(s: &str, p: &str) -> (r: Option<String>)
    ensures
        match without_prefix(s@, p@) {
            Some(t) => r matches Some(x) && x@ == t,
            None => r is None,
        },
{
    let v = chars_of(s);
    let q = chars_of(p);
    if q.len() > v.len() {
        return None;
    }
    if !chars_match_at(&v, 0, &q) {
        assert(v@.subrange(0, q@.len() as int) =~= v@.take(q@.len() as int));
        return None;
    }
    assert(v@.subrange(0, q@.len() as int) =~= v@.take(q@.len() as int));
    let mut rest: Vec<char> = Vec::new();
    let mut k: usize = q.len();
    while k < v.len()
        invariant
            q@.len() <= k <= v@.len(),
            rest@ == v@.subrange(q@.len() as int, k as int),
        decreases v@.len() - k,
    {
        rest.push(v[k]);
        assert(v@.subrange(q@.len() as int, k + 1) =~= v@.subrange(q@.len() as int, k as int).push(v@[k as int]));
        k += 1;
    }
    assert(rest@ =~= v@.skip(q@.len() as int));
    Some(string_of(&rest))
}

/// `s` without the suffix `p`, where it ends with `p`.
pub fn strip_suffix(s: &str, p: &str) -> (r: Option<String>)
    ensures
        match without_suffix(s@, p@) {
            Some(t) => r matches Some(x) && x@ == t,
            None => r is None,
        },
{
    let v = chars_of(s);
    let q = chars_of(p);
    if q.len() > v.len() {
        return None;
    }
    let start = v.len() - q.len();
    if !chars_match_at(&v, start, &q) {
        assert(v@.subrange(start as int, start + q@.len()) =~= v@.skip(start as int));
        return None;
    }
    assert(v@.subrange(start as int, start + q@.len()) =~= v@.skip(start as int));
    let mut rest: Vec<char> = Vec::new();
    let mut k: usize = 0;
    while k < start
        invariant
            k <= start,
            start <= v@.len(),
            rest@ == v@.take(k as int),
        decreases start - k,
    {
        rest.push(v[k]);
        assert(v@.take(k + 1) =~= v@.take(k as int).push(v@[k as int]));
        k += 1;
    }
    Some(string_of(&rest))
}

/// Whether `s` holds `p` somewhere.
pub fn contains_str(s: &str, p: &str) -> (r: bool)
    ensures
        r == has_substring(s@, p@),
{
    let v = chars_of(s);
    let q = chars_of(p);
    if q.len() > v.len() {
        return false;
    }
    let n = v.len();
    let last = n - q.len();
    let mut i: usize = 0;
    loop
        invariant
            n == v@.len(),
            last == n - q@.len(),
            v@ == s@,
            q@ == p@,
            q@.len() <= v@.len(),
            i <= last,
            forall|j: int| 0 <= j < i ==> #[trigger] v@.subrange(j, j + q@.len()) != q@,
        ensures
            forall|j: int| 0 <= j <= last ==> #[trigger] v@.subrange(j, j + q@.len()) != q@,
        decreases last - i,
    {
        if chars_match_at(&v, i, &q) {
            assert(v@.subrange(i as int, i + q@.len()) == q@);
            return true;
        }
        if i == last {
            break;
        }
        i += 1;
    }
    false
}

/// Removing a prefix that was put in front gives the text back; so does
/// removing a suffix that was put behind.
pub proof fn lemma_strip_roundtrip(p: Seq<char>, s: Seq<char>)
    ensures
        without_prefix(p + s, p) == Some(s),
        without_suffix(s + p, p) == Some(s),
{
    assert((p + s).take(p.len() as int) =~= p);
    assert((p + s).skip(p.len() as int) =~= s);
    assert((s + p).skip(s.len() as int) =~= p);
    assert((s + p).take(s.len() as int) =~= s);
}

} // verus!
