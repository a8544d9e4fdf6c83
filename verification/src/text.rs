//! Character-level string helpers with exact specifications: comparison,
//! searching, splitting, replacing, and decimal / hexadecimal numbers.
use vstd::prelude::*;

verus! {

// ---------------------------------------------------------------------------
// Specifications
// ---------------------------------------------------------------------------

/// `p` is a prefix of `s`.
pub open spec fn has_prefix(s: Seq<char>, p: Seq<char>) -> bool {
    p.len() <= s.len() && s.take(p.len() as int) == p
}

/// `pat` occurs in `s` starting at position `i`.
pub open spec fn occurs_at(s: Seq<char>, pat: Seq<char>, i: int) -> bool {
    0 <= i && i + pat.len() <= s.len() && s.subrange(i, i + pat.len()) == pat
}

/// `pat` occurs somewhere in `s`.
pub open spec fn has_substring(s: Seq<char>, pat: Seq<char>) -> bool {
    exists|i: int| occurs_at(s, pat, i)
}

/// The pieces of `s` between occurrences of `sep`, as `str::split` yields
/// them: always at least one piece, and an empty piece wherever two
/// separators meet or `s` starts or ends with one.
pub open spec fn split_spec(s: Seq<char>, sep: char) -> Seq<Seq<char>>
    decreases s.len(),
{
    if s.len() == 0 {
        seq![Seq::<char>::empty()]
    } else {
        let p = split_spec(s.drop_last(), sep);
        if s.last() == sep {
            p.push(Seq::<char>::empty())
        } else {
            p.update(p.len() - 1, p.last().push(s.last()))
        }
    }
}

/// The pieces joined back together with `sep` between consecutive pieces.
pub open spec fn join_parts(parts: Seq<Seq<char>>, sep: char) -> Seq<char>
    decreases parts.len(),
{
    if parts.len() == 0 {
        Seq::<char>::empty()
    } else if parts.len() == 1 {
        parts[0]
    } else {
        join_parts(parts.drop_last(), sep).push(sep) + parts.last()
    }
}

/// Every non-overlapping occurrence of `pat` in `s`, scanning from the left,
/// replaced by `rep` (`str::replace`).
pub open spec fn replace_spec(s: Seq<char>, pat: Seq<char>, rep: Seq<char>) -> Seq<char>
    decreases s.len(),
{
    if s.len() == 0 {
        Seq::<char>::empty()
    } else if pat.len() > 0 && has_prefix(s, pat) {
        rep + replace_spec(s.skip(pat.len() as int), pat, rep)
    } else {
        seq![s[0]] + replace_spec(s.skip(1), pat, rep)
    }
}

/// Position of the last `c` in `s`, if any.
pub open spec fn last_index_spec(s: Seq<char>, c: char) -> Option<int>
    decreases s.len(),
{
    if s.len() == 0 {
        None
    } else if s.last() == c {
        Some(s.len() - 1)
    } else {
        last_index_spec(s.drop_last(), c)
    }
}

/// Number of bytes of the UTF-8 encoding of `c`.
pub open spec fn utf8_width(c: char) -> nat {
    if (c as u32) < 0x80 {
        1
    } else if (c as u32) < 0x800 {
        2
    } else if (c as u32) < 0x10000 {
        3
    } else {
        4
    }
}

/// Number of bytes of the UTF-8 encoding of `s`.
pub open spec fn utf8_len(s: Seq<char>) -> nat
    decreases s.len(),
{
    if s.len() == 0 {
        0
    } else {
        utf8_len(s.drop_last()) + utf8_width(s.last())
    }
}

/// `c` is one of `0`..`9`.
pub open spec fn is_digit(c: char) -> bool {
    '0' <= c && c <= '9'
}

/// Every character of `s` is one of `0`..`9`.
pub open spec fn all_digits(s: Seq<char>) -> bool {
    forall|i: int| 0 <= i < s.len() ==> is_digit(#[trigger] s[i])
}

/// The value of the digit `c`.
pub open spec fn digit_value(c: char) -> int {
    c as int - '0' as int
}

/// The number that the decimal digits `s` spell.
pub open spec fn digits_value(s: Seq<char>) -> int
    decreases s.len(),
{
    if s.len() == 0 {
        0
    } else {
        digits_value(s.drop_last()) * 10 + digit_value(s.last())
    }
}

/// The character of the digit `d` (0..9).
pub open spec fn digit_char(d: int) -> char {
    (d + '0' as int) as char
}

/// `n` in decimal, without leading zeros (`0` for zero).
pub open spec fn decimal(n: nat) -> Seq<char>
    decreases n,
{
    if n < 10 {
        seq![digit_char(n as int)]
    } else {
        decimal(n / 10).push(digit_char((n % 10) as int))
    }
}

/// `n` in decimal with a leading `-` when negative.
pub open spec fn signed_decimal(n: int) -> Seq<char> {
    if n < 0 {
        seq!['-'] + decimal((-n) as nat)
    } else {
        decimal(n as nat)
    }
}

/// The upper-case hexadecimal digit of `d` (0..15).
pub open spec fn hex_digit(d: int) -> char {
    if d < 10 {
        (d + '0' as int) as char
    } else {
        (d - 10 + 'A' as int) as char
    }
}

/// The lowest `w` hexadecimal digits of `n`, most significant first,
/// padded with zeros.
pub open spec fn hex_width(n: nat, w: nat) -> Seq<char>
    decreases w,
{
    if w == 0 {
        Seq::<char>::empty()
    } else {
        hex_width(n / 16, (w - 1) as nat).push(hex_digit((n % 16) as int))
    }
}

/// What `str::parse::<i64>` gives: an optional sign, then one or more
/// decimal digits whose value fits in an `i64`.
pub open spec fn parse_i64_spec(s: Seq<char>) -> Option<i64> {
    let signed = s.len() > 0 && (s[0] == '-' || s[0] == '+');
    let body = if signed { s.skip(1) } else { s };
    if body.len() == 0 || !all_digits(body) {
        None
    } else if s[0] == '-' {
        if digits_value(body) <= 0x8000_0000_0000_0000 {
            Some((-digits_value(body)) as i64)
        } else {
            None
        }
    } else if digits_value(body) <= i64::MAX {
        Some(digits_value(body) as i64)
    } else {
        None
    }
}

// ---------------------------------------------------------------------------
// Lemmas
// ---------------------------------------------------------------------------

/// The value of a digit string is never below the value of any of its prefixes.
pub proof fn lemma_digits_value_prefix(s: Seq<char>, k: int)
    requires
        all_digits(s),
        0 <= k <= s.len(),
    ensures
        0 <= digits_value(s.take(k)) <= digits_value(s),
    decreases s.len(),
{
    if s.len() == 0 {
        assert(s.take(k) =~= s);
    } else if k == s.len() {
        assert(s.take(k) =~= s);
        lemma_digits_value_prefix(s.drop_last(), k - 1);
    } else {
        assert(s.take(k) =~= s.drop_last().take(k));
        lemma_digits_value_prefix(s.drop_last(), k);
        lemma_digits_value_prefix(s.drop_last(), s.len() - 1);
        assert(s.drop_last().take(s.len() - 1) =~= s.drop_last());
    }
}

/// Splitting and joining again gives back the original text, and no piece
/// holds the separator.
pub proof fn lemma_split_join(s: Seq<char>, sep: char)
    ensures
        split_spec(s, sep).len() >= 1,
        join_parts(split_spec(s, sep), sep) == s,
        forall|i: int|
            0 <= i < split_spec(s, sep).len() ==> !(#[trigger] split_spec(s, sep)[i]).contains(sep),
    decreases s.len(),
{
    if s.len() == 0 {
        assert(join_parts(split_spec(s, sep), sep) =~= s);
    } else {
        let p = split_spec(s.drop_last(), sep);
        lemma_split_join(s.drop_last(), sep);
        let q = split_spec(s, sep);
        if s.last() == sep {
            assert(q.drop_last() =~= p);
            assert(join_parts(q, sep) =~= s);
        } else {
            let l = p.last().push(s.last());
            assert forall|i: int| 0 <= i < q.len() implies !(#[trigger] q[i]).contains(sep) by {
                if i == q.len() - 1 {
                    if l.contains(sep) {
                        let j = choose|j: int| 0 <= j < l.len() && l[j] == sep;
                        if j < p.last().len() {
                            assert(p[p.len() - 1][j] == sep);
                        }
                    }
                } else {
                    assert(q[i] == p[i]);
                }
            }
            if p.len() == 1 {
                assert(join_parts(q, sep) =~= s);
            } else {
                assert(q.drop_last() =~= p.drop_last());
                assert(join_parts(p, sep) == join_parts(p.drop_last(), sep).push(sep) + p.last());
                assert(join_parts(q, sep) == join_parts(q.drop_last(), sep).push(sep) + q.last());
                assert(q.last() == p.last().push(s.last()));
                assert(join_parts(q, sep) =~= join_parts(p, sep).push(s.last()));
                assert(s =~= s.drop_last().push(s.last()));
            }
        }
    }
}

/// The digit character of `d` is a digit of value `d`.
pub proof fn lemma_digit_char(d: int)
    requires
        0 <= d < 10,
    ensures
        digit_value(digit_char(d)) == d,
        is_digit(digit_char(d)),
{
    assert((d + 48) as char as int == d + 48);
}

/// A decimal numeral is a non-empty run of digits spelling its number.
pub proof fn lemma_decimal_digits(n: nat)
    ensures
        decimal(n).len() > 0,
        all_digits(decimal(n)),
        digits_value(decimal(n)) == n,
    decreases n,
{
    if n < 10 {
        lemma_digit_char(n as int);
        let t = decimal(n);
        assert(t.drop_last() =~= Seq::<char>::empty());
        assert(t.last() == digit_char(n as int));
        assert(digits_value(t) == digits_value(t.drop_last()) * 10 + digit_value(t.last()));
    } else {
        lemma_digit_char((n % 10) as int);
        lemma_decimal_digits(n / 10);
        let s = decimal(n / 10);
        let t = decimal(n);
        assert(t.drop_last() =~= s);
        assert(t.last() == digit_char((n % 10) as int));
        assert(digits_value(t) == digits_value(s) * 10 + digit_value(t.last()));
        assert((n / 10) * 10 + n % 10 == n);
        assert forall|i: int| 0 <= i < t.len() implies is_digit(#[trigger] t[i]) by {
            if i < s.len() {
                assert(t[i] == s[i]);
            }
        }
    }
}

/// Reading back a number written in decimal gives the number again: the
/// ticket number parser accepts every `i64` that the decimal writer writes.
pub proof fn law_parse_reads_decimal(n: i64)
    ensures
        parse_i64_spec(signed_decimal(n as int)) == Some(n),
{
    if n < 0 {
        let m = (-(n as int)) as nat;
        lemma_decimal_digits(m);
        let s = signed_decimal(n as int);
        assert(s.skip(1) =~= decimal(m));
        assert(s[0] == '-');
    } else {
        lemma_decimal_digits(n as nat);
        let s = decimal(n as nat);
        assert(is_digit(s[0]));
        assert(s.len() > 0 && !(s[0] == '-' || s[0] == '+'));
    }
}

/// The hexadecimal writer always writes exactly `w` digits.
pub proof fn law_hex_width_len(n: nat, w: nat)
    ensures
        hex_width(n, w).len() == w,
    decreases w,
{
    if w > 0 {
        law_hex_width_len(n / 16, (w - 1) as nat);
    }
}

// ---------------------------------------------------------------------------
// Executable helpers
// ---------------------------------------------------------------------------

/// Appends one character to a string.
/// Trusted: `String::push` appends exactly `c` at the end of the string.
#[verifier::external_body]
pub(crate) fn push_char(s: &mut String, c: char)
    ensures
        final(s)@ == old(s)@.push(c),
{
    s.push(c)
}

/// Number of bytes of the UTF-8 encoding of `s` (`str::len`).
pub fn utf8_byte_len(s: &str) -> (res: u128)
    ensures
        res == utf8_len(s@),
{
    let cs = chars_of(s);
    let n = cs.len();
    let mut total: u128 = 0;
    for i in 0..n
        invariant
            n == cs@.len(),
            cs@ == s@,
            total == utf8_len(cs@.take(i as int)),
            total <= 4 * i,
    {
        let c = cs[i];
        let v = c as u32;
        let w: u128 = if v < 0x80 {
            1
        } else if v < 0x800 {
            2
        } else if v < 0x10000 {
            3
        } else {
            4
        };
        assert(cs@.take(i + 1).drop_last() =~= cs@.take(i as int));
        total = total + w;
    }
    assert(cs@.take(n as int) =~= cs@);
    total
}

/// The characters of `s`, in order.
pub fn chars_of(s: &str) -> (res: Vec<char>)
    ensures
        res@ == s@,
{
    let mut res: Vec<char> = Vec::new();
    for c in it: s.chars()
        invariant
            res@ == it.seq().take(it.index() as int),
    {
        res.push(c);
    }
    res
}

/// Builds a string from a sequence of characters.
pub fn string_from(cs: &[char]) -> (res: String)
    ensures
        res@ == cs@,
{
    let mut res = String::new();
    let n = cs.len();
    for i in 0..n
        invariant
            n == cs@.len(),
            res@ == cs@.take(i as int),
    {
        push_char(&mut res, cs[i]);
        assert(cs@.take(i + 1) =~= cs@.take(i as int).push(cs@[i as int]));
    }
    assert(cs@.take(n as int) =~= cs@);
    res
}

/// A fresh string holding `s`.
pub fn owned(s: &str) -> (res: String)
    ensures
        res@ == s@,
{
    let cs = chars_of(s);
    string_from(cs.as_slice())
}

/// `a` followed by `b`.
pub fn joined(a: &str, b: &str) -> (res: String)
    ensures
        res@ == a@ + b@,
{
    let mut res = owned(a);
    let cs = chars_of(b);
    let n = cs.len();
    for i in 0..n
        invariant
            n == cs@.len(),
            cs@ == b@,
            res@ == a@ + cs@.take(i as int),
    {
        push_char(&mut res, cs[i]);
        assert(cs@.take(i + 1) =~= cs@.take(i as int).push(cs@[i as int]));
    }
    assert(cs@.take(n as int) =~= cs@);
    res
}

/// The two texts are equal.
pub fn str_eq(a: &str, b: &str) -> (res: bool)
    ensures
        res == (a@ == b@),
{
    let x = chars_of(a);
    let y = chars_of(b);
    if x.len() != y.len() {
        return false;
    }
    let n = x.len();
    for i in 0..n
        invariant
            n == x@.len(),
            n == y@.len(),
            x@ == a@,
            y@ == b@,
            forall|j: int| 0 <= j < i ==> x@[j] == y@[j],
    {
        if x[i] != y[i] {
            return false;
        }
    }
    assert(x@ =~= y@);
    true
}

/// `pat` occurs in `s` at character position `i`.
fn matches_at(s: &[char], pat: &[char], i: usize) -> (res: bool)
    ensures
        res == occurs_at(s@, pat@, i as int),
{
    if i > s.len() || pat.len() > s.len() - i {
        return false;
    }
    let n = pat.len();
    for j in 0..n
        invariant
            n == pat@.len(),
            i + n <= s.len(),
            s.len() == s@.len(),
            forall|k: int| 0 <= k < j ==> s@[i + k] == pat@[k],
    {
        if s[i + j] != pat[j] {
            assert(s@.subrange(i as int, i + n)[j as int] != pat@[j as int]);
            return false;
        }
    }
    assert(s@.subrange(i as int, i + n) =~= pat@);
    true
}

/// `s` starts with `p`.
pub fn starts_with(s: &str, p: &str) -> (res: bool)
    ensures
        res == has_prefix(s@, p@),
{
    let x = chars_of(s);
    let y = chars_of(p);
    let r = matches_at(x.as_slice(), y.as_slice(), 0);
    assert(x@.subrange(0, y@.len() as int) =~= x@.take(y@.len() as int));
    r
}

/// `c` occurs in `s`.
pub fn contains_char(s: &str, c: char) -> (res: bool)
    ensures
        res == s@.contains(c),
{
    let x = chars_of(s);
    let n = x.len();
    for i in 0..n
        invariant
            n == x@.len(),
            x@ == s@,
            forall|j: int| 0 <= j < i ==> x@[j] != c,
    {
        if x[i] == c {
            assert(s@[i as int] == c);
            return true;
        }
    }
    false
}

/// `pat` occurs somewhere in `s`.
pub fn contains_str(s: &str, pat: &str) -> (res: bool)
    ensures
        res == has_substring(s@, pat@),
{
    let x = chars_of(s);
    let y = chars_of(pat);
    let n = x.len();
    for i in 0..n
        invariant
            n == x@.len(),
            x@ == s@,
            y@ == pat@,
            forall|j: int| 0 <= j < i ==> !occurs_at(s@, pat@, j),
    {
        if matches_at(x.as_slice(), y.as_slice(), i) {
            return true;
        }
    }
    if y.len() == 0 {
        assert(occurs_at(s@, pat@, n as int)) by {
            assert(s@.subrange(n as int, n as int) =~= pat@);
        }
        return true;
    }
    assert forall|j: int| !occurs_at(s@, pat@, j) by {
        if 0 <= j && j < n {
        }
    }
    false
}

/// Position of the last `c` in `s`, if any.
pub fn last_index_of(s: &[char], c: char) -> (res: Option<usize>)
    ensures
        res matches Some(k) ==> last_index_spec(s@, c) == Some(k as int) && k < s@.len(),
        res is None ==> last_index_spec(s@, c) is None,
{
    let mut i = s.len();
    assert(s@.take(i as int) =~= s@);
    while i > 0
        invariant
            i <= s@.len(),
            last_index_spec(s@, c) == last_index_spec(s@.take(i as int), c),
        decreases i,
    {
        assert(s@.take(i as int).drop_last() =~= s@.take(i - 1));
        if s[i - 1] == c {
            return Some(i - 1);
        }
        i = i - 1;
    }
    None
}

/// Splits `s` at every `sep`, as `str::split` does.
pub fn split_char(s: &str, sep: char) -> (res: Vec<String>)
    ensures
        res.deep_view() == split_spec(s@, sep),
{
    let x = chars_of(s);
    let n = x.len();
    let mut parts: Vec<String> = Vec::new();
    let mut cur: Vec<char> = Vec::new();
    for i in 0..n
        invariant
            n == x@.len(),
            x@ == s@,
            parts.deep_view().push(cur@) == split_spec(s@.take(i as int), sep),
    {
        let ghost before = parts.deep_view().push(cur@);
        assert(s@.take(i + 1).drop_last() =~= s@.take(i as int));
        if x[i] == sep {
            let piece = string_from(cur.as_slice());
            parts.push(piece);
            cur = Vec::new();
            assert(parts.deep_view().push(cur@) =~= before.push(Seq::<char>::empty()));
        } else {
            cur.push(x[i]);
            assert(parts.deep_view().push(cur@) =~= before.update(
                before.len() - 1,
                before.last().push(x@[i as int]),
            ));
        }
    }
    assert(s@.take(n as int) =~= s@);
    let last = string_from(cur.as_slice());
    parts.push(last);
    assert(parts.deep_view() =~= split_spec(s@, sep));
    parts
}

/// Every non-overlapping occurrence of `pat` in `s`, from the left,
/// replaced by `rep`.
pub fn replace_all(s: &str, pat: &str, rep: &str) -> (res: String)
    requires
        pat@.len() > 0,
    ensures
        res@ == replace_spec(s@, pat@, rep@),
{
    let x = chars_of(s);
    let y = chars_of(pat);
    let r = chars_of(rep);
    let n = x.len();
    let mut out: Vec<char> = Vec::new();
    let mut i: usize = 0;
    assert(s@.skip(0) =~= s@);
    while i < n
        invariant
            n == x@.len(),
            x@ == s@,
            y@ == pat@,
            r@ == rep@,
            pat@.len() > 0,
            i <= n,
            out@ + replace_spec(s@.skip(i as int), pat@, rep@) == replace_spec(s@, pat@, rep@),
        decreases n - i,
    {
        let ghost rest = s@.skip(i as int);
        if matches_at(x.as_slice(), y.as_slice(), i) {
            assert(rest.take(pat@.len() as int) =~= s@.subrange(i as int, i + pat@.len()));
            assert(rest.skip(pat@.len() as int) =~= s@.skip(i + pat@.len()));
            let ghost old_out = out@;
            let m = r.len();
            for k in 0..m
                invariant
                    m == r@.len(),
                    out@ == old_out + r@.take(k as int),
            {
                out.push(r[k]);
                assert(r@.take(k + 1) =~= r@.take(k as int).push(r@[k as int]));
            }
            assert(r@.take(m as int) =~= r@);
            assert(out@ + replace_spec(s@.skip(i + y@.len()), pat@, rep@) =~= old_out + (r@
                + replace_spec(rest.skip(pat@.len() as int), pat@, rep@)));
            i = i + y.len();
        } else {
            proof {
                if has_prefix(rest, pat@) {
                    assert(rest.take(pat@.len() as int) =~= s@.subrange(i as int, i + pat@.len()));
                }
            }
            assert(rest.skip(1) =~= s@.skip(i + 1));
            assert(rest[0] == x@[i as int]);
            let ghost old_out = out@;
            out.push(x[i]);
            assert(out@ + replace_spec(s@.skip(i + 1), pat@, rep@) =~= old_out + (seq![rest[0]]
                + replace_spec(rest.skip(1), pat@, rep@)));
            i = i + 1;
        }
    }
    assert(s@.skip(i as int) =~= Seq::<char>::empty());
    assert(out@ =~= replace_spec(s@, pat@, rep@));
    string_from(out.as_slice())
}

/// The character of the decimal digit `d`.
fn digit_to_char(d: u64) -> (c: char)
    requires
        d < 10,
    ensures
        c == digit_char(d as int),
{
    let b: u8 = d as u8 + 48u8;
    b as char
}

/// `n` in decimal.
pub fn decimal_u64(n: u64) -> (res: String)
    ensures
        res@ == decimal(n as nat),
    decreases n,
{
    if n < 10 {
        let mut s = String::new();
        push_char(&mut s, digit_to_char(n));
        assert(s@ =~= decimal(n as nat));
        s
    } else {
        let mut s = decimal_u64(n / 10);
        push_char(&mut s, digit_to_char(n % 10));
        s
    }
}

/// `n` in decimal, with a leading `-` when negative.
pub fn decimal_i64(n: i64) -> (res: String)
    ensures
        res@ == signed_decimal(n as int),
{
    if n < 0 {
        let m: u64 = if n == i64::MIN {
            0x8000_0000_0000_0000u64
        } else {
            (-n) as u64
        };
        let digits = decimal_u64(m);
        let mut sign = String::new();
        push_char(&mut sign, '-');
        let res = joined(sign.as_str(), digits.as_str());
        assert(sign@ =~= seq!['-']);
        res
    } else {
        decimal_u64(n as u64)
    }
}

/// The upper-case hexadecimal digit of `d`.
fn hex_to_char(d: u32) -> (c: char)
    requires
        d < 16,
    ensures
        c == hex_digit(d as int),
{
    if d < 10 {
        let b: u8 = d as u8 + 48u8;
        b as char
    } else {
        let b: u8 = d as u8 - 10u8 + 65u8;
        b as char
    }
}

/// The lowest `w` hexadecimal digits of `n`, zero-padded.
fn hex_digits(n: u32, w: u32) -> (res: String)
    ensures
        res@ == hex_width(n as nat, w as nat),
    decreases w,
{
    if w == 0 {
        String::new()
    } else {
        let mut s = hex_digits(n / 16, w - 1);
        push_char(&mut s, hex_to_char(n % 16));
        s
    }
}

/// `n` as eight upper-case hexadecimal digits (`{:08X}`).
pub fn hex8(n: u32) -> (res: String)
    ensures
        res@ == hex_width(n as nat, 8),
{
    hex_digits(n, 8)
}

/// `s` read as a signed decimal number, as `str::parse::<i64>` reads it.
pub fn parse_i64(s: &str) -> (res: Option<i64>)
    ensures
        res == parse_i64_spec(s@),
{
    let x = chars_of(s);
    let n = x.len();
    if n == 0 {
        return None;
    }
    let neg = x[0] == '-';
    let start: usize = if x[0] == '-' || x[0] == '+' {
        1
    } else {
        0
    };
    let ghost body = if start == 1 {
        s@.skip(1)
    } else {
        s@
    };
    assert(start == 0 ==> body =~= s@.skip(0));
    if start == n {
        return None;
    }
    let limit: u128 = if neg {
        0x8000_0000_0000_0000u128
    } else {
        0x7fff_ffff_ffff_ffffu128
    };
    let mut acc: u128 = 0;
    let mut i: usize = start;
    assert(body.take(0) =~= Seq::<char>::empty());
    while i < n
        invariant
            n == x@.len(),
            x@ == s@,
            start <= i <= n,
            start == 0 || start == 1,
            body == s@.skip(start as int),
            body == (if start == 1 {
                s@.skip(1)
            } else {
                s@
            }),
            (start == 1) == (s@[0] == '-' || s@[0] == '+'),
            neg == (s@[0] == '-'),
            n > 0,
            body.len() == n - start,
            all_digits(body.take(i - start)),
            acc == digits_value(body.take(i - start)),
            acc <= limit,
            limit == (if neg {
                0x8000_0000_0000_0000u128
            } else {
                0x7fff_ffff_ffff_ffffu128
            }),
        decreases n - i,
    {
        let c = x[i];
        let ghost k: int = i - start;
        assert(body[k] == c);
        if c < '0' || c > '9' {
            assert(!is_digit(body[k]));
            return None;
        }
        let d: u128 = (c as u32 - 48u32) as u128;
        assert(body.take(k + 1).drop_last() =~= body.take(k));
        acc = acc * 10 + d;
        assert(all_digits(body.take(k + 1)));
        if acc > limit {
            proof {
                if all_digits(body) {
                    lemma_digits_value_prefix(body, k + 1);
                }
            }
            return None;
        }
        i = i + 1;
    }
    assert(body.take(n - start) =~= body);
    if neg {
        if acc == 0x8000_0000_0000_0000u128 {
            Some(i64::MIN)
        } else {
            let v: i64 = acc as i64;
            Some(-v)
        }
    } else {
        Some(acc as i64)
    }
}

} // verus!
