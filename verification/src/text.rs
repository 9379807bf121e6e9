//! Character-level helpers on strings, stated over `Seq<char>`.
use vstd::prelude::*;
use vstd::string::*;

verus! {

/// The result of replacing, from left to right, every non-overlapping
/// occurrence of `pat` in `s` by `rep` (what `str::replace` computes).
pub open spec fn replace_all(s: Seq<char>, pat: Seq<char>, rep: Seq<char>) -> Seq<char>
    decreases s.len(),
{
    if pat.len() == 0 || s.len() < pat.len() {
        s
    } else if s.take(pat.len() as int) == pat {
        rep + replace_all(s.skip(pat.len() as int), pat, rep)
    } else {
        seq![s[0]] + replace_all(s.skip(1), pat, rep)
    }
}

/// Index of the first occurrence of `c` in `s`, if any.
pub open spec fn first_index_of(s: Seq<char>, c: char) -> Option<int> {
    if exists|i: int| 0 <= i < s.len() && s[i] == c {
        let i = choose|i: int| 0 <= i < s.len() && s[i] == c && forall|j: int| 0 <= j < i ==> s[j] != c;
        Some(i)
    } else {
        None
    }
}

/// `str::split_once` on a single character.
pub open spec fn split_once(s: Seq<char>, c: char) -> Option<(Seq<char>, Seq<char>)> {
    match first_index_of(s, c) {
        Some(i) => Some((s.take(i), s.skip(i + 1))),
        None => None,
    }
}

/// Character equality of two string slices.
pub fn str_eq(a: &str, b: &str) -> (r: bool)
    ensures
        r == (a@ == b@),
{
    let n = a.unicode_len();
    let m = b.unicode_len();
    if n != m {
        return false;
    }
    let mut i: usize = 0;
    while i < n
        invariant
            n == a@.len(),
            m == b@.len(),
            n == m,
            i <= n,
            forall|j: int| 0 <= j < i ==> a@[j] == b@[j],
        decreases n - i,
    {
        if a.get_char(i) != b.get_char(i) {
            return false;
        }
        i = i + 1;
    }
    assert(a@ =~= b@);
    true
}


/// Whether `pat` occurs in `s` starting at character `i`.
fn matches_at(s: &str, i: usize, pat: &str) -> (r: bool)
    requires
        i <= s@.len(),
    ensures
        r == (i + pat@.len() <= s@.len() && s@.subrange(i as int, i + pat@.len()) == pat@),
{
    let n = s.unicode_len();
    let m = pat.unicode_len();
    if m > n - i {
        return false;
    }
    let mut k: usize = 0;
    while k < m
        invariant
            n == s@.len(),
            m == pat@.len(),
            i + m <= n,
            k <= m,
            forall|j: int| 0 <= j < k ==> s@[i + j] == pat@[j],
        decreases m - k,
    {
        if s.get_char(i + k) != pat.get_char(k) {
            assert(s@.subrange(i as int, i + m)[k as int] != pat@[k as int]);
            return false;
        }
        k = k + 1;
    }
    assert(s@.subrange(i as int, i + m) =~= pat@);
    true
}

/// `s.replace(pat, rep)` for a non-empty pattern.
pub fn replace_str(s: &str, pat: &str, rep: &str) -> (r: String)
    requires
        pat@.len() > 0,
    ensures
        r@ == replace_all(s@, pat@, rep@),
{
    let n = s.unicode_len();
    let m = pat.unicode_len();
    let mut res = String::new();
    let mut i: usize = 0;
    assert(s@.skip(0) =~= s@);
    while i < n
        invariant
            n == s@.len(),
            m == pat@.len(),
            m > 0,
            i <= n,
            replace_all(s@, pat@, rep@) == res@ + replace_all(s@.skip(i as int), pat@, rep@),
        decreases n - i,
    {
        let ghost t = s@.skip(i as int);
        if matches_at(s, i, pat) {
            assert(t.take(m as int) =~= s@.subrange(i as int, i + m));
            assert(t.skip(m as int) =~= s@.skip(i + m));
            res.append(rep);
            i = i + m;
        } else {
            if m <= n - i {
                assert(t.take(m as int) =~= s@.subrange(i as int, i + m));
            }
            if m > n - i {
                assert(replace_all(t, pat@, rep@) == t);
                res.append(s.substring_char(i, n));
                assert(s@.subrange(i as int, n as int) =~= t);
                assert(s@.skip(n as int) =~= Seq::<char>::empty());
                assert(replace_all(s@.skip(n as int), pat@, rep@) == Seq::<char>::empty());
                assert(res@ + Seq::<char>::empty() =~= res@);
                i = n;
            } else {
                assert(t.skip(1) =~= s@.skip(i + 1));
                assert(seq![t[0]] =~= s@.subrange(i as int, i + 1));
                let ghost old_res = res@;
                res.append(s.substring_char(i, i + 1));
                assert(res@ + replace_all(s@.skip(i + 1), pat@, rep@) =~= old_res + (seq![t[0]] + replace_all(t.skip(1), pat@, rep@)));
                i = i + 1;
            }
        }
    }
    assert(s@.skip(n as int) =~= Seq::<char>::empty());
    assert(res@ + Seq::<char>::empty() =~= res@);
    res
}

/// Position of the first `c` in `s`.
fn find_char(s: &str, c: char) -> (r: Option<usize>)
    ensures
        r matches Some(i) ==> i < s@.len() && first_index_of(s@, c) == Some(i as int),
        r is None ==> first_index_of(s@, c) is None,
{
    let n = s.unicode_len();
    let mut i: usize = 0;
    while i < n
        invariant
            n == s@.len(),
            i <= n,
            forall|j: int| 0 <= j < i ==> s@[j] != c,
        decreases n - i,
    {
        if s.get_char(i) == c {
            let ghost w = choose|k: int| 0 <= k < s@.len() && s@[k] == c && forall|j: int| 0 <= j < k ==> s@[j] != c;
            assert(0 <= i < s@.len() && s@[i as int] == c && forall|j: int| 0 <= j < i ==> s@[j] != c);
            assert(w == i) by {
                if w < i {
                    assert(s@[w] != c);
                } else if w > i {
                    assert(s@[i as int] != c);
                }
            }
            return Some(i);
        }
        i = i + 1;
    }
    None
}

/// `s.split_once(c)`, giving owned halves.
pub fn split_once_char(s: &str, c: char) -> (r: Option<(String, String)>)
    ensures
        r matches Some(p) ==> split_once(s@, c) == Some((p.0@, p.1@)),
        r is None ==> split_once(s@, c) is None,
{
    let n = s.unicode_len();
    match find_char(s, c) {
        Some(i) => {
            let a = s.substring_char(0, i).to_owned();
            let b = s.substring_char(i + 1, n).to_owned();
            assert(a@ =~= s@.take(i as int));
            assert(b@ =~= s@.skip(i + 1));
            Some((a, b))
        },
        None => None,
    }
}

/// `s.strip_prefix(c)` for a single character.
pub fn strip_prefix_char(s: &str, c: char) -> (r: Option<String>)
    ensures
        r matches Some(t) ==> s@.len() > 0 && s@[0] == c && t@ == s@.skip(1),
        r is None ==> !(s@.len() > 0 && s@[0] == c),
{
    let n = s.unicode_len();
    if n > 0 && s.get_char(0) == c {
        let t = s.substring_char(1, n).to_owned();
        assert(t@ =~= s@.skip(1));
        Some(t)
    } else {
        None
    }
}


/// The decimal digit character of `d < 10`.
pub open spec fn digit_char(d: nat) -> char {
    if d == 0 { '0' } else if d == 1 { '1' } else if d == 2 { '2' } else if d == 3 { '3' }
    else if d == 4 { '4' } else if d == 5 { '5' } else if d == 6 { '6' } else if d == 7 { '7' }
    else if d == 8 { '8' } else { '9' }
}

/// The decimal notation of `n`, as `to_string` writes it.
pub open spec fn decimal(n: nat) -> Seq<char>
    decreases n,
{
    if n < 10 {
        seq![digit_char(n)]
    } else {
        decimal(n / 10).push(digit_char(n % 10))
    }
}

fn digit_str(d: u64) -> (r: &'static str)
    requires
        d < 10,
    ensures
        r@ == seq![digit_char(d as nat)],
{
    proof {
        reveal_strlit("0"); reveal_strlit("1"); reveal_strlit("2"); reveal_strlit("3"); reveal_strlit("4");
        reveal_strlit("5"); reveal_strlit("6"); reveal_strlit("7"); reveal_strlit("8"); reveal_strlit("9");
    }
    let r = if d == 0 { "0" } else if d == 1 { "1" } else if d == 2 { "2" } else if d == 3 { "3" }
        else if d == 4 { "4" } else if d == 5 { "5" } else if d == 6 { "6" } else if d == 7 { "7" }
        else if d == 8 { "8" } else { "9" };
    assert(r@ =~= seq![digit_char(d as nat)]);
    r
}

/// The decimal notation of `n`.
pub fn to_decimal(n: u64) -> (r: String)
    ensures
        r@ == decimal(n as nat),
    decreases n,
{
    if n < 10 {
        String::from_str(digit_str(n))
    } else {
        let mut r = to_decimal(n / 10);
        r.append(digit_str(n % 10));
        r
    }
}

/// The digits of standard base64, in the order of their values.
pub open spec fn base64_alphabet() -> Seq<char> {
    "ABCDEFGHIJKLMNOPQRSTUVWXYZabcdefghijklmnopqrstuvwxyz0123456789+/"@
}

/// The base64 digit of the value `v < 64`.
pub open spec fn base64_digit(v: int) -> Seq<char> {
    base64_alphabet().subrange(v, v + 1)
}

/// Standard base64 with padding: each group of three bytes becomes four
/// digits of six bits each; a last group of one or two bytes is padded
/// with `=`.
pub open spec fn base64(b: Seq<u8>) -> Seq<char>
    decreases b.len(),
{
    if b.len() == 0 {
        Seq::empty()
    } else {
        let b0 = b[0] as int;
        if b.len() == 1 {
            base64_digit(b0 / 4) + base64_digit((b0 % 4) * 16) + "=="@
        } else {
            let b1 = b[1] as int;
            if b.len() == 2 {
                base64_digit(b0 / 4) + base64_digit((b0 % 4) * 16 + b1 / 16) + base64_digit((b1 % 16) * 4) + "="@
            } else {
                let b2 = b[2] as int;
                base64_digit(b0 / 4) + base64_digit((b0 % 4) * 16 + b1 / 16)
                    + base64_digit((b1 % 16) * 4 + b2 / 64) + base64_digit(b2 % 64) + base64(b.skip(3))
            }
        }
    }
}

fn push_digit(out: &mut String, v: u8)
    requires
        v < 64,
    ensures
        final(out)@ == old(out)@ + base64_digit(v as int),
{
    let alphabet = "ABCDEFGHIJKLMNOPQRSTUVWXYZabcdefghijklmnopqrstuvwxyz0123456789+/";
    proof { reveal_strlit("ABCDEFGHIJKLMNOPQRSTUVWXYZabcdefghijklmnopqrstuvwxyz0123456789+/"); }
    out.append(alphabet.substring_char(v as usize, v as usize + 1));
}

/// The bytes in standard base64 with padding.
pub fn to_base64(bytes: &[u8]) -> (r: String)
    ensures
        r@ == base64(bytes@),
{
    let n = bytes.len();
    let mut out = String::new();
    let mut i: usize = 0;
    assert(bytes@.skip(0) =~= bytes@);
    while 3 <= n - i
        invariant
            n == bytes@.len(),
            i <= n,
            out@ + base64(bytes@.skip(i as int)) == base64(bytes@),
        decreases n - i,
    {
        let b0 = bytes[i];
        let b1 = bytes[i + 1];
        let b2 = bytes[i + 2];
        let ghost rest = bytes@.skip(i as int);
        let ghost before = out@;
        assert(rest[0] == b0 && rest[1] == b1 && rest[2] == b2);
        assert(rest.skip(3) =~= bytes@.skip(i + 3));
        push_digit(&mut out, b0 / 4);
        push_digit(&mut out, (b0 % 4) * 16 + b1 / 16);
        push_digit(&mut out, (b1 % 16) * 4 + b2 / 64);
        push_digit(&mut out, b2 % 64);
        assert(out@ + base64(bytes@.skip(i + 3)) =~= before + base64(rest));
        i = i + 3;
    }
    let ghost rest = bytes@.skip(i as int);
    let ghost before = out@;
    proof {
        reveal_strlit("=");
        reveal_strlit("==");
    }
    if n - i == 1 {
        let b0 = bytes[i];
        assert(rest[0] == b0);
        push_digit(&mut out, b0 / 4);
        push_digit(&mut out, (b0 % 4) * 16);
        out.append("==");
        assert(out@ =~= before + base64(rest));
    } else if n - i == 2 {
        let b0 = bytes[i];
        let b1 = bytes[i + 1];
        assert(rest[0] == b0 && rest[1] == b1);
        push_digit(&mut out, b0 / 4);
        push_digit(&mut out, (b0 % 4) * 16 + b1 / 16);
        push_digit(&mut out, (b1 % 16) * 4);
        out.append("=");
        assert(out@ =~= before + base64(rest));
    } else {
        assert(rest.len() == 0);
        assert(out@ =~= before + base64(rest));
    }
    out
}

/// The strings joined with `sep` between neighbours.
pub open spec fn join(list: Seq<Seq<char>>, sep: Seq<char>) -> Seq<char>
    decreases list.len(),
{
    if list.len() == 0 {
        Seq::empty()
    } else if list.len() == 1 {
        list[0]
    } else {
        join(list.drop_last(), sep) + sep + list.last()
    }
}


pub open spec fn is_digit(c: char) -> bool {
    '0' <= c && c <= '9'
}

pub open spec fn all_digits(s: Seq<char>) -> bool {
    forall|i: int| 0 <= i < s.len() ==> is_digit(#[trigger] s[i])
}

/// The value of a string of decimal digits.
pub open spec fn digits_value(s: Seq<char>) -> int
    decreases s.len(),
{
    if s.len() == 0 {
        0
    } else {
        digits_value(s.drop_last()) * 10 + (s.last() as int - '0' as int)
    }
}

/// What `str::parse::<i64>` accepts: an optional sign and at least one
/// digit, with a value within `i64`.
pub open spec fn parse_int(s: Seq<char>) -> Option<int> {
    if s.len() == 0 {
        None
    } else {
        let neg = s[0] == '-';
        let body = if s[0] == '-' || s[0] == '+' { s.skip(1) } else { s };
        if body.len() == 0 || !all_digits(body) {
            None
        } else {
            let v = if neg { -digits_value(body) } else { digits_value(body) };
            if i64::MIN <= v <= i64::MAX { Some(v) } else { None }
        }
    }
}

proof fn lemma_digits_value_nonneg(s: Seq<char>)
    requires
        all_digits(s),
    ensures
        digits_value(s) >= 0,
    decreases s.len(),
{
    if s.len() > 0 {
        lemma_digits_value_nonneg(s.drop_last());
    }
}

proof fn lemma_digits_value_grows(s: Seq<char>)
    requires
        all_digits(s),
        s.len() > 0,
    ensures
        digits_value(s) >= digits_value(s.drop_last()),
    decreases s.len(),
{
    lemma_digits_value_nonneg(s.drop_last());
    lemma_digits_value_nonneg(s);
}

/// The value of the digits of `s` from position `start`, when they are all
/// digits and their value is at most 2^63.
fn digits_from(s: &str, start: usize) -> (r: Option<i128>)
    requires
        start <= s@.len(),
    ensures
        match r {
            Some(v) => all_digits(s@.skip(start as int)) && v == digits_value(s@.skip(start as int))
                && 0 <= v <= 9223372036854775808,
            None => !all_digits(s@.skip(start as int)) || digits_value(s@.skip(start as int)) > 9223372036854775808,
        },
{
    let n = s.unicode_len();
    let ghost body = s@.skip(start as int);
    let mut acc: i128 = 0;
    let mut i: usize = start;
    while i < n
        invariant
            start <= i <= n,
            n == s@.len(),
            body == s@.skip(start as int),
            all_digits(body.take(i - start)),
            acc == digits_value(body.take(i - start)),
            0 <= acc <= 9223372036854775808,
        decreases n - i,
    {
        let c = s.get_char(i);
        let ghost pre = body.take(i - start);
        let ghost next = body.take(i + 1 - start);
        assert(next.drop_last() =~= pre);
        assert(next.last() == c);
        if !('0' <= c && c <= '9') {
            assert(body[i - start] == c);
            assert(!is_digit(body[i - start]));
            return None;
        }
        acc = acc * 10 + (c as u32 - '0' as u32) as i128;
        assert(all_digits(next)) by {
            assert forall|j: int| 0 <= j < next.len() implies is_digit(#[trigger] next[j]) by {
                if j < i - start {
                    assert(pre[j] == next[j]);
                }
            }
        }
        if acc > 9223372036854775808 {
            proof { lemma_digits_value_prefix_bound(body, (i + 1 - start) as int); }
            return None;
        }
        i = i + 1;
    }
    assert(body.take(n - start) =~= body);
    Some(acc)
}

/// `s.parse::<i64>().ok()`.
pub fn parse_i64(s: &str) -> (r: Option<i64>)
    ensures
        match r {
            Some(v) => parse_int(s@) == Some(v as int),
            None => parse_int(s@) is None,
        },
{
    let n = s.unicode_len();
    if n == 0 {
        return None;
    }
    let c0 = s.get_char(0);
    let neg = c0 == '-';
    let start: usize = if c0 == '-' || c0 == '+' { 1 } else { 0 };
    let ghost body = if c0 == '-' || c0 == '+' { s@.skip(1) } else { s@ };
    assert(body =~= s@.skip(start as int));
    if start >= n {
        assert(body.len() == 0);
        return None;
    }
    match digits_from(s, start) {
        None => None,
        Some(acc) => {
            if neg {
                Some((-acc) as i64)
            } else if acc > 9223372036854775807 {
                None
            } else {
                Some(acc as i64)
            }
        },
    }
}

proof fn lemma_digits_value_prefix_bound(s: Seq<char>, k: int)
    requires
        0 < k <= s.len(),
        all_digits(s.take(k)),
    ensures
        all_digits(s) ==> digits_value(s) >= digits_value(s.take(k)),
    decreases s.len() - k,
{
    if k < s.len() && all_digits(s) {
        assert(all_digits(s.take(k + 1))) by {
            assert forall|j: int| 0 <= j < s.take(k + 1).len() implies is_digit(#[trigger] s.take(k + 1)[j]) by {
                assert(s.take(k + 1)[j] == s[j]);
            }
        }
        lemma_digits_value_prefix_bound(s, k + 1);
        assert(s.take(k + 1).drop_last() =~= s.take(k));
        lemma_digits_value_grows(s.take(k + 1));
    } else if k == s.len() {
        assert(s.take(k) =~= s);
    }
}

} // verus!
