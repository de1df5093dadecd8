//! Character-level text operations: trimming, splitting, ordering and
//! decimal numbers, each stated over the characters of the text.

use vstd::prelude::*;
use vstd::string::*;

verus! {

/// `s` without the leading characters equal to `c`.
pub open spec fn strip_leading(s: Seq<char>, c: char) -> Seq<char>
    decreases s.len(),
{
    if s.len() > 0 && s[0] == c {
        strip_leading(s.drop_first(), c)
    } else {
        s
    }
}

/// `s` without the trailing characters equal to `c`.
pub open spec fn strip_trailing(s: Seq<char>, c: char) -> Seq<char>
    decreases s.len(),
{
    if s.len() > 0 && s.last() == c {
        strip_trailing(s.drop_last(), c)
    } else {
        s
    }
}

/// `s.trim_matches(c)`: `s` without its leading and trailing characters equal to `c`.
pub open spec fn trim_char(s: Seq<char>, c: char) -> Seq<char> {
    strip_trailing(strip_leading(s, c), c)
}

/// `s.split(c).last()`: the part of `s` after its last `c`, or all of `s` when it holds none.
pub open spec fn last_segment(s: Seq<char>, c: char) -> Seq<char>
    decreases s.len(),
{
    if s.len() == 0 {
        s
    } else if s.last() == c {
        Seq::empty()
    } else {
        last_segment(s.drop_last(), c).push(s.last())
    }
}

/// Whether the two texts are the same.
pub fn str_equals(a: &str, b: &str) -> (r: bool)
    ensures
        r == (a@ == b@),
{
    String::from_str(a) == String::from_str(b)
}

/// How many characters `c` the text starts with.
spec fn leading_run(s: Seq<char>, c: char) -> nat
    decreases s.len(),
{
    if s.len() > 0 && s[0] == c {
        1 + leading_run(s.drop_first(), c)
    } else {
        0
    }
}

/// How long the text is without its trailing characters `c`.
spec fn kept_length(s: Seq<char>, c: char) -> nat
    decreases s.len(),
{
    if s.len() > 0 && s.last() == c {
        kept_length(s.drop_last(), c)
    } else {
        s.len()
    }
}

proof fn lemma_strip_leading_shape(s: Seq<char>, c: char)
    ensures
        leading_run(s, c) <= s.len(),
        strip_leading(s, c) == s.skip(leading_run(s, c) as int),
        forall|j: int| 0 <= j < leading_run(s, c) ==> s[j] == c,
        leading_run(s, c) < s.len() ==> s[leading_run(s, c) as int] != c,
    decreases s.len(),
{
    if s.len() > 0 && s[0] == c {
        let t = s.drop_first();
        lemma_strip_leading_shape(t, c);
        let a = leading_run(t, c) as int;
        assert(t.skip(a) =~= s.skip(a + 1));
        assert forall|j: int| 0 <= j < a + 1 implies s[j] == c by {
            if j > 0 {
                assert(s[j] == t[j - 1]);
            }
        }
        if a + 1 < s.len() {
            assert(s[a + 1] == t[a]);
        }
    } else {
        assert(s.skip(0) =~= s);
    }
}

proof fn lemma_strip_trailing_shape(s: Seq<char>, c: char)
    ensures
        kept_length(s, c) <= s.len(),
        strip_trailing(s, c) == s.take(kept_length(s, c) as int),
        forall|j: int| kept_length(s, c) <= j < s.len() ==> s[j] == c,
        kept_length(s, c) > 0 ==> s[kept_length(s, c) - 1] != c,
    decreases s.len(),
{
    if s.len() > 0 && s.last() == c {
        let t = s.drop_last();
        lemma_strip_trailing_shape(t, c);
        let b = kept_length(t, c) as int;
        assert(t.take(b) =~= s.take(b));
        if b > 0 {
            assert(s[b - 1] == t[b - 1]);
        }
        assert forall|j: int| b <= j < s.len() implies s[j] == c by {
            if j < s.len() - 1 {
                assert(s[j] == t[j]);
            }
        }
    } else {
        assert(s.take(s.len() as int) =~= s);
    }
}

/// Trimming keeps a contiguous part of the text and removes only the
/// characters `c` before and after it: the result is `s[a..b]`, everything
/// before `a` and from `b` on is `c`, and the result neither starts nor ends
/// with `c`.
pub proof fn lemma_trim_char_shape(s: Seq<char>, c: char)
    ensures
        exists|a: int, b: int|
            0 <= a <= b <= s.len() && #[trigger] trim_char(s, c) == s.subrange(a, b) && (forall|j: int|
                0 <= j < a ==> s[j] == c) && (forall|j: int| b <= j < s.len() ==> s[j] == c) && (a < b ==> s[a] != c
                && s[b - 1] != c),
{
    lemma_strip_leading_shape(s, c);
    let a = leading_run(s, c) as int;
    let t = s.skip(a);
    lemma_strip_trailing_shape(t, c);
    let b = kept_length(t, c) as int;
    assert(t.take(b) =~= s.subrange(a, a + b));
    assert forall|j: int| a + b <= j < s.len() implies s[j] == c by {
        assert(s[j] == t[j - a]);
    }
    if b > 0 {
        assert(s[a] == t[0] && s[a + b - 1] == t[b - 1]);
        assert(t[0] != c) by {
            if t[0] == c {
                assert(s[a] == t[0]);
            }
        }
    }
    assert(trim_char(s, c) == s.subrange(a, a + b));
}

/// The part after the last `c` is a suffix `s[k..]` of the text that holds no
/// `c`, and `k` is the start of the text or just after a `c`.
pub proof fn lemma_last_segment_shape(s: Seq<char>, c: char)
    ensures
        exists|k: int|
            0 <= k <= s.len() && #[trigger] last_segment(s, c) == s.skip(k) && (forall|j: int| k <= j < s.len() ==> s[j]
                != c) && (k > 0 ==> s[k - 1] == c),
    decreases s.len(),
{
    if s.len() == 0 {
        assert(s.skip(0) =~= s);
    } else if s.last() == c {
        assert(s.skip(s.len() as int) =~= Seq::<char>::empty());
    } else {
        let p = s.drop_last();
        lemma_last_segment_shape(p, c);
        let k = choose|k: int|
            0 <= k <= p.len() && #[trigger] last_segment(p, c) == p.skip(k) && (forall|j: int| k <= j < p.len() ==> p[j]
                != c) && (k > 0 ==> p[k - 1] == c);
        assert(p.skip(k).push(s.last()) =~= s.skip(k));
        assert(k > 0 ==> s[k - 1] == p[k - 1]);
        assert forall|j: int| k <= j < s.len() implies s[j] != c by {
            if j < s.len() - 1 {
                assert(s[j] == p[j]);
            }
        }
    }
}

/// The characters of `s`, in order.
pub fn chars_of(s: &str) -> (r: Vec<char>)
    ensures
        r@ == s@,
{
    let n = s.unicode_len();
    let mut r: Vec<char> = Vec::new();
    for i in 0..n
        invariant
            n == s@.len(),
            r@ == s@.take(i as int),
    {
        let c = s.get_char(i);
        r.push(c);
        assert(r@ =~= s@.take(i + 1));
    }
    assert(s@.take(n as int) =~= s@);
    r
}

/// `s.trim_matches(c)`, as an owned string.
pub fn trim_matches(s: &str, c: char) -> (r: String)
    ensures
        r@ == trim_char(s@, c),
{
    let chars = chars_of(s);
    let n = chars.len();
    let mut i: usize = 0;
    assert(s@.skip(0) =~= s@);
    while i < n && chars[i] == c
        invariant
            chars@ == s@,
            n == s@.len(),
            i <= n,
            strip_leading(s@, c) == strip_leading(s@.skip(i as int), c),
        decreases n - i,
    {
        assert(s@.skip(i as int).drop_first() =~= s@.skip(i + 1));
        i = i + 1;
    }
    let ghost rest = s@.skip(i as int);
    assert(strip_leading(rest, c) == rest);
    let mut j: usize = n;
    assert(rest.take((n - i) as int) =~= rest);
    while j > i && chars[j - 1] == c
        invariant
            chars@ == s@,
            n == s@.len(),
            i <= j <= n,
            rest == s@.skip(i as int),
            strip_trailing(rest, c) == strip_trailing(rest.take(j - i), c),
        decreases j,
    {
        assert(rest.take(j - i).drop_last() =~= rest.take(j - 1 - i));
        j = j - 1;
    }
    assert(rest.take(j - i) =~= s@.subrange(i as int, j as int));
    String::from_str(s.substring_char(i, j))
}

/// `s.split(c).last()`, as an owned string.
pub fn last_split_part(s: &str, c: char) -> (r: String)
    ensures
        r@ == last_segment(s@, c),
{
    let chars = chars_of(s);
    let n = chars.len();
    let mut j: usize = n;
    assert(s@.take(n as int) =~= s@);
    assert(s@.subrange(n as int, n as int) =~= Seq::<char>::empty());
    while j > 0 && chars[j - 1] != c
        invariant
            chars@ == s@,
            n == s@.len(),
            j <= n,
            last_segment(s@, c) == last_segment(s@.take(j as int), c) + s@.subrange(j as int, n as int),
        decreases j,
    {
        assert(s@.take(j as int).drop_last() =~= s@.take(j - 1));
        assert(s@.subrange(j - 1, n as int) =~= seq![s@[j - 1]] + s@.subrange(j as int, n as int));
        j = j - 1;
    }
    assert(last_segment(s@.take(j as int), c) =~= Seq::<char>::empty());
    assert(last_segment(s@, c) =~= s@.subrange(j as int, n as int));
    String::from_str(s.substring_char(j, n))
}

/// Lexicographic order of character sequences by code point, the order in which
/// Rust compares strings (byte order of UTF-8 agrees with code point order).
pub open spec fn text_less(a: Seq<char>, b: Seq<char>) -> bool
    decreases a.len(),
{
    if a.len() == 0 {
        b.len() > 0
    } else if b.len() == 0 {
        false
    } else if a[0] != b[0] {
        (a[0] as u32) < (b[0] as u32)
    } else {
        text_less(a.drop_first(), b.drop_first())
    }
}

/// No text comes before itself.
pub proof fn lemma_text_less_irreflexive(a: Seq<char>)
    ensures
        !text_less(a, a),
    decreases a.len(),
{
    if a.len() > 0 {
        lemma_text_less_irreflexive(a.drop_first());
    }
}

/// Of two different texts, exactly one comes before the other.
pub proof fn lemma_text_less_total(a: Seq<char>, b: Seq<char>)
    ensures
        a != b ==> (text_less(a, b) || text_less(b, a)),
        !(text_less(a, b) && text_less(b, a)),
    decreases a.len(),
{
    if a.len() > 0 && b.len() > 0 {
        if a[0] == b[0] {
            lemma_text_less_total(a.drop_first(), b.drop_first());
            if a != b {
                assert(a.drop_first() != b.drop_first()) by {
                    if a.drop_first() == b.drop_first() {
                        assert(a =~= seq![a[0]] + a.drop_first());
                        assert(b =~= seq![b[0]] + b.drop_first());
                    }
                }
            }
        } else {
            vstd::utf8::char_u32_cast(a[0], a[0] as u32);
            vstd::utf8::char_u32_cast(b[0], b[0] as u32);
            assert((a[0] as u32) != (b[0] as u32));
        }
    } else if a.len() == 0 && b.len() == 0 {
        assert(a =~= b);
    }
}

/// The order is transitive.
pub proof fn lemma_text_less_transitive(a: Seq<char>, b: Seq<char>, c: Seq<char>)
    requires
        text_less(a, b),
        text_less(b, c),
    ensures
        text_less(a, c),
    decreases a.len(),
{
    if a.len() > 0 && b.len() > 0 && c.len() > 0 && a[0] == b[0] && b[0] == c[0] {
        lemma_text_less_transitive(a.drop_first(), b.drop_first(), c.drop_first());
    }
}

/// The order is lexicographic: texts that agree on their first `k` characters
/// and then differ are ordered by their character at `k`, and a proper prefix
/// comes before the text it begins.
pub proof fn lemma_text_less_lexicographic(a: Seq<char>, b: Seq<char>, k: int)
    requires
        0 <= k <= a.len(),
        k <= b.len(),
        a.take(k) == b.take(k),
    ensures
        k < a.len() && k < b.len() && a[k] != b[k] ==> (text_less(a, b) <==> (a[k] as u32) < (b[k] as u32)),
        k == a.len() ==> (text_less(a, b) <==> k < b.len()),
    decreases k,
{
    if k > 0 {
        assert(a[0] == a.take(k)[0] && b[0] == b.take(k)[0]);
        assert(a.drop_first().take(k - 1) =~= a.take(k).drop_first());
        assert(b.drop_first().take(k - 1) =~= b.take(k).drop_first());
        lemma_text_less_lexicographic(a.drop_first(), b.drop_first(), k - 1);
    }
}

/// Whether `a` comes before `b` in the order of `text_less`.
pub fn text_less_exec(a: &String, b: &String) -> (r: bool)
    ensures
        r == text_less(a@, b@),
{
    let x = chars_of(a.as_str());
    let y = chars_of(b.as_str());
    let mut i: usize = 0;
    assert(a@.skip(0) =~= a@);
    assert(b@.skip(0) =~= b@);
    while i < x.len() && i < y.len() && x[i] == y[i]
        invariant
            x@ == a@,
            y@ == b@,
            i <= x@.len(),
            i <= y@.len(),
            text_less(a@, b@) == text_less(a@.skip(i as int), b@.skip(i as int)),
        decreases x@.len() - i,
    {
        assert(a@.skip(i as int).drop_first() =~= a@.skip(i + 1));
        assert(b@.skip(i as int).drop_first() =~= b@.skip(i + 1));
        i = i + 1;
    }
    if i == x.len() {
        i < y.len()
    } else if i == y.len() {
        false
    } else {
        (x[i] as u32) < (y[i] as u32)
    }
}

/// The character of the decimal digit `d`.
pub open spec fn digit_char(d: nat) -> char {
    (('0' as u32) + d) as char
}

/// The decimal digits of `n`, most significant first, without leading zeros.
pub open spec fn decimal(n: nat) -> Seq<char>
    decreases n,
{
    if n < 10 {
        seq![digit_char(n)]
    } else {
        decimal(n / 10) + seq![digit_char(n % 10)]
    }
}

proof fn lemma_decimal_len(n: nat)
    ensures
        decimal(n).len() >= 1,
        n >= 10 ==> decimal(n).len() >= 2,
    decreases n,
{
    if n >= 10 {
        lemma_decimal_len(n / 10);
    }
}

/// Different numbers have different decimal texts (so the result buttons,
/// which are named by their number, have different names).
pub proof fn lemma_decimal_injective(n: nat, m: nat)
    requires
        n != m,
    ensures
        decimal(n) != decimal(m),
    decreases n,
{
    lemma_decimal_len(n);
    lemma_decimal_len(m);
    if n < 10 && m < 10 {
        assert(decimal(n)[0] != decimal(m)[0]);
    } else if n >= 10 && m >= 10 {
        if decimal(n) == decimal(m) {
            let a = decimal(n);
            assert(a.last() == digit_char(n % 10));
            assert(a.last() == digit_char(m % 10));
            assert(n % 10 == m % 10);
            assert(decimal(n / 10) =~= a.drop_last());
            assert(decimal(m / 10) =~= a.drop_last());
            assert(n / 10 != m / 10);
            lemma_decimal_injective(n / 10, m / 10);
        }
    }
}

/// The number that a text of decimal digits stands for.
pub open spec fn digits_value(s: Seq<char>) -> int
    decreases s.len(),
{
    if s.len() == 0 {
        0
    } else {
        digits_value(s.drop_last()) * 10 + ((s.last() as u32) - ('0' as u32))
    }
}

/// The decimal text of `n` is made of the digits `0` to `9`, stands for `n`, and
/// starts with `0` only when it is `0`.
pub proof fn lemma_decimal_reads_back(n: nat)
    ensures
        forall|i: int| 0 <= i < decimal(n).len() ==> '0' <= #[trigger] decimal(n)[i] <= '9',
        digits_value(decimal(n)) == n,
        decimal(n)[0] == '0' ==> n == 0,
    decreases n,
{
    lemma_decimal_len(n);
    let d = decimal(n);
    if n >= 10 {
        lemma_decimal_reads_back(n / 10);
        lemma_decimal_len(n / 10);
        assert(d.drop_last() =~= decimal(n / 10));
        assert((n / 10) * 10 + n % 10 == n);
        assert((d.last() as u32) - ('0' as u32) == n % 10);
        assert(digits_value(d) == digits_value(d.drop_last()) * 10 + ((d.last() as u32) - ('0' as u32)));
        assert(d.drop_last()[0] == d[0]);
        assert forall|i: int| 0 <= i < d.len() implies '0' <= #[trigger] d[i] <= '9' by {
            if i < d.len() - 1 {
                assert(d[i] == decimal(n / 10)[i]);
            }
        }
    } else {
        assert(d.drop_last() =~= Seq::<char>::empty());
        assert(digits_value(d) == digits_value(d.drop_last()) * 10 + ((d.last() as u32) - ('0' as u32)));
    }
}

/// The text of the single decimal digit `d`.
fn digit_text(d: usize) -> (r: &'static str)
    requires
        d < 10,
    ensures
        r@ == seq![digit_char(d as nat)],
{
    let digits = "0123456789";
    proof {
        reveal_strlit("0123456789");
    }
    let r = digits.substring_char(d, d + 1);
    assert(r@ =~= seq![digit_char(d as nat)]);
    r
}

/// `n.to_string()`: the decimal text of `n`.
pub fn decimal_text(n: usize) -> (r: String)
    ensures
        r@ == decimal(n as nat),
    decreases n,
{
    if n < 10 {
        String::from_str(digit_text(n))
    } else {
        let mut r = decimal_text(n / 10);
        r.append(digit_text(n % 10));
        r
    }
}

} // verus!
