//! Text handling for resource names: ASCII case folding, trimming, decimal
//! digits.
use vstd::prelude::*;

verus! {

/// The ASCII lower-case form of a character; others are kept.
pub open spec fn lower_char(c: char) -> char {
    if 'A' <= c && c <= 'Z' {
        ((c as u8) + 32) as u8 as char
    } else {
        c
    }
}

/// The ASCII lower-case form of a name.
pub open spec fn lower_ascii(s: Seq<char>) -> Seq<char> {
    s.map_values(|c: char| lower_char(c))
}

/// `s` without any leading `c`.
pub open spec fn trim_leading(s: Seq<char>, c: char) -> Seq<char>
    decreases s.len(),
{
    if s.len() > 0 && s[0] == c {
        trim_leading(s.drop_first(), c)
    } else {
        s
    }
}

/// `s` ends with `suffix`.
pub open spec fn ends_with(s: Seq<char>, suffix: Seq<char>) -> bool {
    suffix.len() <= s.len() && s.subrange(s.len() - suffix.len(), s.len() as int) == suffix
}

/// `s` with `suffix` removed from its end as often as it occurs there.
pub open spec fn trim_trailing(s: Seq<char>, suffix: Seq<char>) -> Seq<char>
    decreases s.len(),
{
    if suffix.len() > 0 && ends_with(s, suffix) {
        trim_trailing(s.subrange(0, s.len() - suffix.len()), suffix)
    } else {
        s
    }
}

/// The character of a decimal digit.
pub open spec fn digit_char(d: int) -> char {
    ((d + 48) as u8) as char
}

/// The decimal digits of `n`, most significant first, without leading zeros.
pub open spec fn decimal_digits(n: nat) -> Seq<char>
    decreases n,
{
    if n < 10 {
        seq![digit_char(n as int)]
    } else {
        decimal_digits(n / 10).push(digit_char((n % 10) as int))
    }
}

/// The decimal form of `v`, with a leading `-` when negative.
pub open spec fn decimal(v: int) -> Seq<char> {
    if v < 0 {
        seq!['-'] + decimal_digits((-v) as nat)
    } else {
        decimal_digits(v as nat)
    }
}

/// Relies on `String::push`: appends one character.
#[verifier::external_body]
pub(crate) fn push_char(s: &mut String, c: char)
    ensures
        final(s)@ == old(s)@.push(c),
{
    s.push(c)
}

/// The ASCII lower-case form of `s`.
pub fn to_ascii_lowercase(s: &str) -> (r: String)
    ensures
        r@ == lower_ascii(s@),
{
    let n = s.unicode_len();
    let mut r = String::new();
    let mut i: usize = 0;
    while i < n
        invariant
            n == s@.len(),
            i <= n,
            r@ == lower_ascii(s@.subrange(0, i as int)),
        decreases n - i,
    {
        let c = s.get_char(i);
        let l = if 'A' <= c && c <= 'Z' {
            ((c as u8) + 32) as char
        } else {
            c
        };
        push_char(&mut r, l);
        i = i + 1;
        assert(lower_ascii(s@.subrange(0, i as int)) =~= lower_ascii(s@.subrange(0, i - 1)).push(l));
    }
    assert(s@.subrange(0, n as int) =~= s@);
    r
}

proof fn lemma_trim_leading_skip(s: Seq<char>, c: char, i: int)
    requires
        0 <= i <= s.len(),
        forall|k: int| 0 <= k < i ==> s[k] == c,
    ensures
        trim_leading(s, c) == trim_leading(s.subrange(i, s.len() as int), c),
    decreases i,
{
    if i > 0 {
        assert(s.drop_first().subrange(i - 1, s.drop_first().len() as int) =~= s.subrange(i, s.len() as int));
        assert forall|k: int| 0 <= k < i - 1 implies s.drop_first()[k] == c by {
            assert(s.drop_first()[k] == s[k + 1]);
        }
        lemma_trim_leading_skip(s.drop_first(), c, i - 1);
        assert(trim_leading(s, c) == trim_leading(s.drop_first(), c));
    } else {
        assert(s.subrange(0, s.len() as int) =~= s);
    }
}

/// `s` without any leading `c`.
pub fn trim_start_matches(s: &str, c: char) -> (r: String)
    ensures
        r@ == trim_leading(s@, c),
{
    let n = s.unicode_len();
    let mut i: usize = 0;
    while i < n && s.get_char(i) == c
        invariant
            n == s@.len(),
            i <= n,
            forall|k: int| 0 <= k < i ==> s@[k] == c,
        decreases n - i,
    {
        i = i + 1;
    }
    proof {
        lemma_trim_leading_skip(s@, c, i as int);
    }
    String::from_str(s.substring_char(i, n))
}

proof fn lemma_trim_trailing_step(s: Seq<char>, suffix: Seq<char>, j: int)
    requires
        suffix.len() > 0,
        suffix.len() <= j <= s.len(),
        ends_with(s.subrange(0, j), suffix),
    ensures
        trim_trailing(s.subrange(0, j), suffix) == trim_trailing(s.subrange(0, j - suffix.len()), suffix),
{
    assert(s.subrange(0, j).subrange(0, j - suffix.len()) =~= s.subrange(0, j - suffix.len()));
}

/// `s` with `suffix` removed from its end as often as it occurs there.
pub fn trim_end_matches(s: &str, suffix: &str) -> (r: String)
    requires
        suffix@.len() > 0,
    ensures
        r@ == trim_trailing(s@, suffix@),
{
    let n = s.unicode_len();
    let m = suffix.unicode_len();
    let mut j: usize = n;
    assert(s@.subrange(0, n as int) =~= s@);
    loop
        invariant
            n == s@.len(),
            m == suffix@.len(),
            m > 0,
            j <= n,
            trim_trailing(s@, suffix@) == trim_trailing(s@.subrange(0, j as int), suffix@),
        ensures
            j <= n,
            trim_trailing(s@, suffix@) == s@.subrange(0, j as int),
        decreases j,
    {
        if j < m {
            assert(!ends_with(s@.subrange(0, j as int), suffix@));
            break;
        }
        let mut k: usize = 0;
        let mut same = true;
        while k < m
            invariant
                n == s@.len(),
                m == suffix@.len(),
                m <= j <= n,
                k <= m,
                same == (forall|q: int| 0 <= q < k ==> s@[j - m + q] == suffix@[q]),
            decreases m - k,
        {
            if s.get_char(j - m + k) != suffix.get_char(k) {
                same = false;
            }
            k = k + 1;
        }
        let ghost t = s@.subrange(0, j as int);
        if same {
            assert(t.subrange(t.len() - m, t.len() as int) =~= suffix@);
            proof {
                lemma_trim_trailing_step(s@, suffix@, j as int);
            }
            j = j - m;
        } else {
            assert(!ends_with(t, suffix@)) by {
                if ends_with(t, suffix@) {
                    assert forall|q: int| 0 <= q < m implies s@[j - m + q] == suffix@[q] by {
                        assert(t.subrange(t.len() - m, t.len() as int)[q] == suffix@[q]);
                    }
                }
            }
            break;
        }
    }
    String::from_str(s.substring_char(0, j))
}

/// Appends the decimal digits of `n`.
fn push_decimal_digits(s: &mut String, n: u64)
    ensures
        final(s)@ == old(s)@ + decimal_digits(n as nat),
    decreases n,
{
    if n >= 10 {
        push_decimal_digits(s, n / 10);
    }
    let d = (n % 10) as u8;
    push_char(s, (d + 48) as char);
    assert(old(s)@ + decimal_digits(n as nat) =~= if n >= 10 {
        old(s)@ + decimal_digits((n / 10) as nat) + seq![digit_char((n % 10) as int)]
    } else {
        old(s)@ + seq![digit_char(n as int)]
    });
}

/// Appends the decimal form of `v`.
pub fn push_decimal(s: &mut String, v: i32)
    ensures
        final(s)@ == old(s)@ + decimal(v as int),
{
    if v < 0 {
        push_char(s, '-');
        let m: u64 = (0i64 - (v as i64)) as u64;
        push_decimal_digits(s, m);
        assert(old(s)@ + decimal(v as int) =~= old(s)@.push('-') + decimal_digits(m as nat));
    } else {
        push_decimal_digits(s, v as u64);
    }
}

/// The value of a string of decimal digits.
pub open spec fn digits_value(s: Seq<char>) -> nat
    decreases s.len(),
{
    if s.len() == 0 {
        0
    } else {
        digits_value(s.drop_last()) * 10 + ((s.last() as u32) - 48) as nat
    }
}

/// A decimal digit.
pub open spec fn is_digit(c: char) -> bool {
    '0' <= c && c <= '9'
}

/// What the standard parse of an unsigned machine integer gives: a non-empty
/// run of decimal digits after an optional `+`, whose value fits.
pub open spec fn parse_index(s: Seq<char>) -> Option<nat> {
    parse_digits(strip_plus(s))
}

/// `s` without one leading `+`.
pub open spec fn strip_plus(s: Seq<char>) -> Seq<char> {
    if s.len() > 0 && s[0] == '+' {
        s.drop_first()
    } else {
        s
    }
}

/// The value of a non-empty run of decimal digits that fits.
pub open spec fn parse_digits(t: Seq<char>) -> Option<nat> {
    if t.len() > 0 && (forall|k: int| 0 <= k < t.len() ==> is_digit(#[trigger] t[k]))
        && digits_value(t) <= usize::MAX {
        Some(digits_value(t))
    } else {
        None
    }
}

/// Parses `s[from..]` as an unsigned machine integer in the way of the
/// standard parse.
pub fn parse_usize_from(s: &str, from: usize) -> (r: Option<usize>)
    requires
        from <= s@.len(),
    ensures
        r == match parse_index(s@.subrange(from as int, s@.len() as int)) {
            Some(v) => Some(v as usize),
            None => None::<usize>,
        },
{
    let n = s.unicode_len();
    let ghost whole = s@.subrange(from as int, n as int);
    let mut i = from;
    if i < n && s.get_char(i) == '+' {
        i = i + 1;
    }
    let ghost t = s@.subrange(i as int, n as int);
    assert(t =~= strip_plus(whole));
    if i == n {
        return None;
    }
    let start = i;
    let mut v: usize = 0;
    while i < n
        invariant
            n == s@.len(),
            start < n,
            start <= i <= n,
            t == s@.subrange(start as int, n as int),
            t == strip_plus(s@.subrange(from as int, n as int)),
            forall|k: int| start <= k < i ==> is_digit(#[trigger] s@[k]),
            v as nat == digits_value(s@.subrange(start as int, i as int)),
        decreases n - i,
    {
        let c = s.get_char(i);
        if !('0' <= c && c <= '9') {
            assert(!is_digit(t[i - start]));
            assert(!(forall|k: int| 0 <= k < t.len() ==> is_digit(#[trigger] t[k])));
            assert(parse_digits(t).is_none());
            return None;
        }
        let d = ((c as u32) - 48) as usize;
        assert(s@.subrange(start as int, i + 1).drop_last() =~= s@.subrange(start as int, i as int));
        assert(t.subrange(0, i + 1 - start) =~= s@.subrange(start as int, i + 1));
        match v.checked_mul(10) {
            Some(m) => match m.checked_add(d) {
                Some(w) => {
                    v = w;
                },
                None => {
                    proof {
                        lemma_digits_value_prefix(t, (i + 1 - start) as int);
                    }
                    assert(parse_digits(t).is_none());
                    return None;
                },
            },
            None => {
                proof {
                    lemma_digits_value_prefix(t, (i + 1 - start) as int);
                }
                assert(parse_digits(t).is_none());
                return None;
            },
        }
        i = i + 1;
    }
    assert(s@.subrange(start as int, n as int) =~= t);
    Some(v)
}

/// The value of a run of digits is at least that of any prefix of it.
proof fn lemma_digits_value_prefix(t: Seq<char>, k: int)
    requires
        0 <= k <= t.len(),
    ensures
        digits_value(t) >= digits_value(t.subrange(0, k)),
    decreases t.len(),
{
    if k < t.len() {
        assert(t.drop_last().subrange(0, k) =~= t.subrange(0, k));
        lemma_digits_value_prefix(t.drop_last(), k);
    } else {
        assert(t.subrange(0, k) =~= t);
    }
}

/// `s` with each occurrence of `pat`, scanned from the front without
/// overlap, replaced by `rep`.
pub open spec fn replace_all(s: Seq<char>, pat: Seq<char>, rep: Seq<char>) -> Seq<char>
    decreases s.len(),
{
    if s.len() == 0 {
        Seq::empty()
    } else if pat.len() > 0 && pat.len() <= s.len() && s.subrange(0, pat.len() as int) == pat {
        rep + replace_all(s.subrange(pat.len() as int, s.len() as int), pat, rep)
    } else {
        seq![s[0]] + replace_all(s.drop_first(), pat, rep)
    }
}

/// `s` with each occurrence of `pat` replaced by `rep`.
pub fn replace(s: &str, pat: &str, rep: &str) -> (r: String)
    requires
        pat@.len() > 0,
    ensures
        r@ == replace_all(s@, pat@, rep@),
{
    let n = s.unicode_len();
    let m = pat.unicode_len();
    let mut out = String::new();
    let mut i: usize = 0;
    assert(s@.subrange(0, n as int) =~= s@);
    assert(out@ + replace_all(s@, pat@, rep@) =~= replace_all(s@, pat@, rep@));
    while i < n
        invariant
            n == s@.len(),
            m == pat@.len(),
            m > 0,
            i <= n,
            out@ + replace_all(s@.subrange(i as int, n as int), pat@, rep@) == replace_all(s@, pat@, rep@),
        decreases n - i,
    {
        let ghost rest = s@.subrange(i as int, n as int);
        let mut same = m <= n - i;
        let mut k: usize = 0;
        while same && k < m
            invariant
                n == s@.len(),
                m == pat@.len(),
                i < n,
                k <= m,
                same ==> m <= n - i,
                same ==> forall|q: int| 0 <= q < k ==> s@[i + q] == pat@[q],
                !same ==> (m > n - i || exists|q: int| 0 <= q < m && s@[i + q] != pat@[q]),
            decreases m - k,
        {
            if s.get_char(i + k) != pat.get_char(k) {
                same = false;
                assert(s@[i + k as int] != pat@[k as int]);
            }
            k = k + 1;
        }
        if same {
            assert(rest.subrange(0, m as int) =~= pat@);
            assert(rest.subrange(m as int, rest.len() as int) =~= s@.subrange(i + m, n as int));
            let ghost before = out@;
            out.append(rep);
            assert(replace_all(rest, pat@, rep@) == rep@ + replace_all(s@.subrange(i + m, n as int), pat@, rep@));
            assert(out@ + replace_all(s@.subrange(i + m, n as int), pat@, rep@) =~= before + replace_all(rest, pat@, rep@));
            i = i + m;
        } else {
            assert(!(m <= rest.len() && rest.subrange(0, m as int) == pat@)) by {
                if m <= rest.len() && rest.subrange(0, m as int) == pat@ {
                    let q = choose|q: int| 0 <= q < m && s@[i + q] != pat@[q];
                    assert(rest.subrange(0, m as int)[q] == pat@[q]);
                }
            }
            let c = s.get_char(i);
            let ghost before = out@;
            push_char(&mut out, c);
            assert(rest.drop_first() =~= s@.subrange(i + 1, n as int));
            assert(replace_all(rest, pat@, rep@) == seq![c] + replace_all(rest.drop_first(), pat@, rep@));
            assert(out@ + replace_all(s@.subrange(i + 1, n as int), pat@, rep@) =~= before + replace_all(rest, pat@, rep@));
            i = i + 1;
        }
    }
    assert(out@ + replace_all(s@.subrange(n as int, n as int), pat@, rep@) =~= out@);
    out
}

/// No decimal form holds an underscore.
pub proof fn lemma_decimal_no_underscore(v: int)
    ensures
        forall|k: int| 0 <= k < decimal(v).len() ==> decimal(v)[k] != '_',
{
    if v < 0 {
        lemma_digits_no_underscore((-v) as nat);
        assert forall|k: int| 0 <= k < decimal(v).len() implies decimal(v)[k] != '_' by {
            if k > 0 {
                assert(decimal(v)[k] == decimal_digits((-v) as nat)[k - 1]);
            }
        }
    } else {
        lemma_digits_no_underscore(v as nat);
    }
}

proof fn lemma_digits_no_underscore(n: nat)
    ensures
        forall|k: int| 0 <= k < decimal_digits(n).len() ==> decimal_digits(n)[k] != '_' && decimal_digits(n)[k] != '-',
    decreases n,
{
    lemma_digit_char_range();
    let ds = decimal_digits(n);
    if n >= 10 {
        lemma_digits_no_underscore(n / 10);
        let pre = decimal_digits(n / 10);
        assert(ds == pre.push(digit_char((n % 10) as int)));
        assert forall|k: int| 0 <= k < ds.len() implies ds[k] != '_' && ds[k] != '-' by {
            if k < pre.len() {
                assert(ds[k] == pre[k]);
            } else {
                assert(ds[k] == digit_char((n % 10) as int));
            }
        }
    } else {
        assert(ds == seq![digit_char(n as int)]);
        assert(ds[0] == digit_char(n as int));
    }
}

proof fn lemma_digit_char_range()
    ensures
        forall|d: int| 0 <= d < 10 ==> #[trigger] digit_char(d) != '_' && digit_char(d) != '-',
        forall|d: int, e: int| 0 <= d < 10 && 0 <= e < 10 && #[trigger] digit_char(d) == #[trigger] digit_char(e) ==> d == e,
{
    assert forall|d: int| 0 <= d < 10 implies #[trigger] digit_char(d) != '_' && digit_char(d) != '-' by {
        assert((digit_char(d) as u32) == (d + 48) as u32);
    }
    assert forall|d: int, e: int| 0 <= d < 10 && 0 <= e < 10 && #[trigger] digit_char(d) == #[trigger] digit_char(e) implies d == e by {
        assert((digit_char(d) as u32) == (d + 48) as u32);
        assert((digit_char(e) as u32) == (e + 48) as u32);
    }
}

proof fn lemma_digits_len(n: nat)
    ensures
        decimal_digits(n).len() >= 1,
        n >= 10 ==> decimal_digits(n).len() >= 2,
    decreases n,
{
    if n >= 10 {
        lemma_digits_len(n / 10);
    }
}

proof fn lemma_digits_injective(a: nat, b: nat)
    requires
        decimal_digits(a) == decimal_digits(b),
    ensures
        a == b,
    decreases a,
{
    lemma_digit_char_range();
    lemma_digits_len(a);
    lemma_digits_len(b);
    if a >= 10 && b >= 10 {
        let da = decimal_digits(a);
        assert(da.last() == digit_char((a % 10) as int));
        assert(decimal_digits(b).last() == digit_char((b % 10) as int));
        assert(da.drop_last() =~= decimal_digits(a / 10));
        assert(decimal_digits(b).drop_last() =~= decimal_digits(b / 10));
        lemma_digits_injective(a / 10, b / 10);
    } else if a < 10 && b < 10 {
        assert(decimal_digits(a)[0] == digit_char(a as int));
        assert(decimal_digits(b)[0] == digit_char(b as int));
    }
}

/// Different integers have different decimal forms.
pub proof fn lemma_decimal_injective(a: int, b: int)
    requires
        decimal(a) == decimal(b),
    ensures
        a == b,
{
    lemma_digits_no_underscore(if a < 0 { (-a) as nat } else { a as nat });
    lemma_digits_no_underscore(if b < 0 { (-b) as nat } else { b as nat });
    lemma_digits_len(if a < 0 { (-a) as nat } else { a as nat });
    lemma_digits_len(if b < 0 { (-b) as nat } else { b as nat });
    if a < 0 && b < 0 {
        assert(decimal(a).drop_first() =~= decimal_digits((-a) as nat));
        assert(decimal(b).drop_first() =~= decimal_digits((-b) as nat));
        lemma_digits_injective((-a) as nat, (-b) as nat);
    } else if a >= 0 && b >= 0 {
        lemma_digits_injective(a as nat, b as nat);
    } else if a < 0 {
        assert(decimal(a)[0] == '-');
        assert(decimal(b)[0] == decimal_digits(b as nat)[0]);
    } else {
        assert(decimal(b)[0] == '-');
        assert(decimal(a)[0] == decimal_digits(a as nat)[0]);
    }
}

} // verus!
