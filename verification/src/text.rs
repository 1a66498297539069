//! The textual formats the rover speaks: whitespace-separated tokens,
//! decimal integers, and their canonical rendering.

use vstd::prelude::*;
use vstd::string::StrSliceExecFns;
use vstd::string::StringExecFns;

verus! {

/// The whitespace characters that separate tokens.
pub open spec fn is_space_char(c: char) -> bool {
    c == ' ' || c == '\t' || c == '\n' || c == '\r'
}

/// Whether `c` is a decimal digit.
pub open spec fn is_dec_digit(c: char) -> bool {
    '0' as u32 <= c as u32 && c as u32 <= '9' as u32
}

/// The numeric value of a digit character.
pub open spec fn digit_value(c: char) -> int {
    c as u32 - '0' as u32
}

/// The digit character for a value below ten.
pub open spec fn dec_digit_char(d: int) -> char {
    if d == 0 {
        '0'
    } else if d == 1 {
        '1'
    } else if d == 2 {
        '2'
    } else if d == 3 {
        '3'
    } else if d == 4 {
        '4'
    } else if d == 5 {
        '5'
    } else if d == 6 {
        '6'
    } else if d == 7 {
        '7'
    } else if d == 8 {
        '8'
    } else {
        '9'
    }
}

/// The canonical decimal rendering of a non-negative integer: no sign,
/// no leading zero except for zero itself.
pub open spec fn dec_rep(n: nat) -> Seq<char>
    decreases n,
{
    if n < 10 {
        seq![dec_digit_char(n as int)]
    } else {
        dec_rep(n / 10).push(dec_digit_char((n % 10) as int))
    }
}

/// The canonical decimal rendering of an integer, with a leading '-' when
/// it is negative.
pub open spec fn int_text(v: int) -> Seq<char> {
    if v < 0 {
        seq!['-'] + dec_rep((-v) as nat)
    } else {
        dec_rep(v as nat)
    }
}

/// Whether every character of `s` is a decimal digit.
pub open spec fn all_dec_digits(s: Seq<char>) -> bool {
    forall|i: int| 0 <= i < s.len() ==> is_dec_digit(#[trigger] s[i])
}

/// The value of a digit string, read most significant digit first.
pub open spec fn digits_value(s: Seq<char>) -> int
    decreases s.len(),
{
    if s.len() == 0 {
        0
    } else {
        10 * digits_value(s.drop_last()) + digit_value(s.last())
    }
}

/// The integer a token denotes: an optional sign followed by at least one
/// digit, with no bound on its size.
pub open spec fn parse_int_text(s: Seq<char>) -> Option<int> {
    if s.len() > 0 && (s[0] == '+' || s[0] == '-') {
        let mag = s.subrange(1, s.len() as int);
        if mag.len() > 0 && all_dec_digits(mag) {
            Some(if s[0] == '-' { -digits_value(mag) } else { digits_value(mag) })
        } else {
            None
        }
    } else if s.len() > 0 && all_dec_digits(s) {
        Some(digits_value(s))
    } else {
        None
    }
}

/// The integer a token denotes, when it also fits in an `i32`.
pub open spec fn parse_i32_text(s: Seq<char>) -> Option<int> {
    match parse_int_text(s) {
        Some(v) => if i32::MIN <= v <= i32::MAX {
            Some(v)
        } else {
            None
        },
        None => None,
    }
}

/// The maximal runs of non-whitespace characters in `s`, in order.
pub open spec fn whitespace_tokens(s: Seq<char>) -> Seq<Seq<char>>
    decreases s.len(),
{
    if s.len() == 0 {
        Seq::empty()
    } else if is_space_char(s[0]) {
        whitespace_tokens(s.drop_first())
    } else {
        let rest = whitespace_tokens(s.drop_first());
        if s.len() > 1 && !is_space_char(s[1]) {
            seq![seq![s[0]] + rest[0]] + rest.drop_first()
        } else {
            seq![seq![s[0]]] + rest
        }
    }
}

/// The views of a sequence of character vectors.
pub open spec fn token_views(ts: Seq<Vec<char>>) -> Seq<Seq<char>> {
    Seq::new(ts.len(), |i: int| ts[i]@)
}

/// Whether `c` is a whitespace character.
pub(crate) fn is_space(c: char) -> (b: bool)
    ensures
        b == is_space_char(c),
{
    c == ' ' || c == '\t' || c == '\n' || c == '\r'
}

/// The characters of `s`, as a vector.
pub(crate) fn chars_of(s: &str) -> (cs: Vec<char>)
    ensures
        cs@ == s@,
{
    let n = s.unicode_len();
    let mut cs: Vec<char> = Vec::new();
    let mut i: usize = 0;
    while i < n
        invariant
            i <= n,
            n == s@.len(),
            cs@ == s@.subrange(0, i as int),
        decreases n - i,
    {
        cs.push(s.get_char(i));
        proof {
            assert(s@.subrange(0, i + 1 as int) =~= s@.subrange(0, i as int).push(s@[i as int]));
        }
        i = i + 1;
    }
    proof {
        assert(cs@ =~= s@);
    }
    cs
}

/// The digit character for a value below ten, as a one-character string.
fn digit_literal(d: u64) -> (s: &'static str)
    requires
        d < 10,
    ensures
        s@ == seq![dec_digit_char(d as int)],
{
    proof {
        reveal_strlit("0");
        reveal_strlit("1");
        reveal_strlit("2");
        reveal_strlit("3");
        reveal_strlit("4");
        reveal_strlit("5");
        reveal_strlit("6");
        reveal_strlit("7");
        reveal_strlit("8");
        reveal_strlit("9");
        assert("0"@ =~= seq!['0']);
        assert("1"@ =~= seq!['1']);
        assert("2"@ =~= seq!['2']);
        assert("3"@ =~= seq!['3']);
        assert("4"@ =~= seq!['4']);
        assert("5"@ =~= seq!['5']);
        assert("6"@ =~= seq!['6']);
        assert("7"@ =~= seq!['7']);
        assert("8"@ =~= seq!['8']);
        assert("9"@ =~= seq!['9']);
    }
    match d {
        0 => "0",
        1 => "1",
        2 => "2",
        3 => "3",
        4 => "4",
        5 => "5",
        6 => "6",
        7 => "7",
        8 => "8",
        _ => "9",
    }
}

/// Appends the canonical decimal rendering of `m` to `out`.
pub(crate) fn push_dec_digits(out: &mut String, m: u64)
    ensures
        final(out)@ == old(out)@ + dec_rep(m as nat),
    decreases m,
{
    if m >= 10 {
        push_dec_digits(out, m / 10);
    }
    let s = digit_literal(m % 10);
    out.append(s);
    proof {
        if m < 10 {
            assert(final(out)@ =~= old(out)@ + dec_rep(m as nat));
        } else {
            assert(dec_rep(m as nat) == dec_rep(m as nat / 10).push(
                dec_digit_char((m as nat % 10) as int),
            ));
            assert(final(out)@ =~= old(out)@ + dec_rep(m as nat));
        }
    }
}

/// Appends the canonical decimal rendering of `v` to `out`.
pub(crate) fn push_int_text(out: &mut String, v: i32)
    ensures
        final(out)@ == old(out)@ + int_text(v as int),
{
    if v < 0 {
        out.append("-");
        let mag: u64 = (-(v as i64)) as u64;
        push_dec_digits(out, mag);
        proof {
            reveal_strlit("-");
            assert("-"@ =~= seq!['-']);
            assert(final(out)@ =~= old(out)@ + int_text(v as int));
        }
    } else {
        push_dec_digits(out, v as u64);
    }
}

/// Every character of a canonical decimal rendering is a digit.
pub proof fn lemma_dec_rep_digits(n: nat)
    ensures
        dec_rep(n).len() >= 1,
        all_dec_digits(dec_rep(n)),
    decreases n,
{
    if n < 10 {
        assert(is_dec_digit(dec_digit_char(n as int)));
        assert(dec_rep(n) == seq![dec_digit_char(n as int)]);
        assert(dec_rep(n)[0] == dec_digit_char(n as int));
    } else {
        lemma_dec_rep_digits(n / 10);
        let base = dec_rep(n / 10);
        let c = dec_digit_char((n % 10) as int);
        assert(is_dec_digit(c));
        assert forall|i: int| 0 <= i < dec_rep(n).len() implies is_dec_digit(
            #[trigger] dec_rep(n)[i],
        ) by {
            if i < base.len() {
                assert(dec_rep(n)[i] == base[i]);
            } else {
                assert(dec_rep(n)[i] == c);
            }
        }
    }
}

/// Reading back a canonical decimal rendering yields the rendered value.
pub proof fn lemma_dec_rep_value(n: nat)
    ensures
        digits_value(dec_rep(n)) == n,
    decreases n,
{
    if n < 10 {
        let s = dec_rep(n);
        assert(s == seq![dec_digit_char(n as int)]);
        assert(s.drop_last() =~= Seq::<char>::empty());
        assert(digits_value(Seq::<char>::empty()) == 0);
        assert(s.last() == dec_digit_char(n as int));
        assert(digit_value(dec_digit_char(n as int)) == n);
        assert(digits_value(s) == 10 * digits_value(s.drop_last()) + digit_value(s.last()));
    } else {
        lemma_dec_rep_value(n / 10);
        let s = dec_rep(n);
        assert(s == dec_rep(n / 10).push(dec_digit_char((n % 10) as int)));
        assert(s.drop_last() =~= dec_rep(n / 10));
        assert(s.last() == dec_digit_char((n % 10) as int));
        assert(digit_value(dec_digit_char((n % 10) as int)) == n % 10);
        assert(digits_value(s) == 10 * digits_value(dec_rep(n / 10)) + (n % 10));
    }
}

/// A digit string has a non-negative value.
pub proof fn lemma_digits_value_nonneg(s: Seq<char>)
    requires
        all_dec_digits(s),
    ensures
        digits_value(s) >= 0,
    decreases s.len(),
{
    if s.len() > 0 {
        assert forall|i: int| 0 <= i < s.drop_last().len() implies is_dec_digit(
            #[trigger] s.drop_last()[i],
        ) by {
            assert(s.drop_last()[i] == s[i]);
        }
        lemma_digits_value_nonneg(s.drop_last());
        assert(digit_value(s.last()) >= 0);
    }
}

/// Extending a digit string never lowers its value.
pub proof fn lemma_digits_value_prefix(s: Seq<char>, j: int)
    requires
        all_dec_digits(s),
        0 <= j <= s.len(),
    ensures
        digits_value(s.subrange(0, j)) <= digits_value(s),
    decreases s.len() - j,
{
    if j == s.len() {
        assert(s.subrange(0, j) =~= s);
    } else {
        let p = s.subrange(0, j);
        let q = s.subrange(0, j + 1);
        assert forall|i: int| 0 <= i < p.len() implies is_dec_digit(#[trigger] p[i]) by {
            assert(p[i] == s[i]);
        }
        assert(q.drop_last() =~= p);
        assert(q.last() == s[j]);
        lemma_digits_value_nonneg(p);
        assert(digit_value(s[j]) >= 0);
        assert(digits_value(q) == 10 * digits_value(p) + digit_value(s[j]));
        lemma_digits_value_prefix(s, j + 1);
    }
}

/// The canonical rendering of an integer reads back as that integer, is
/// never empty, and contains no whitespace.
pub proof fn lemma_int_text_parses(v: int)
    ensures
        parse_int_text(int_text(v)) == Some(v),
        int_text(v).len() >= 1,
        forall|i: int| 0 <= i < int_text(v).len() ==> !is_space_char(#[trigger] int_text(v)[i]),
{
    let s = int_text(v);
    if v < 0 {
        lemma_dec_rep_digits((-v) as nat);
        lemma_dec_rep_value((-v) as nat);
        let digits = dec_rep((-v) as nat);
        assert(s == seq!['-'] + digits);
        assert(s[0] == '-');
        let mag = s.subrange(1, s.len() as int);
        assert(mag =~= digits);
        assert(parse_int_text(s) == Some(-digits_value(mag)));
        assert forall|i: int| 0 <= i < s.len() implies !is_space_char(#[trigger] s[i]) by {
            if i >= 1 {
                assert(s[i] == digits[i - 1]);
                assert(is_dec_digit(s[i]));
            }
        }
    } else {
        lemma_dec_rep_digits(v as nat);
        lemma_dec_rep_value(v as nat);
        assert(s == dec_rep(v as nat));
        assert(is_dec_digit(s[0]));
        assert(s[0] != '+' && s[0] != '-');
        assert(parse_int_text(s) == Some(digits_value(s)));
        assert forall|i: int| 0 <= i < s.len() implies !is_space_char(#[trigger] s[i]) by {
            assert(is_dec_digit(s[i]));
        }
    }
}

/// Splitting off a maximal non-whitespace prefix yields its own token:
/// when the first `k` characters of `s` are not whitespace and the string
/// ends or a whitespace character follows, they form the first token.
pub proof fn lemma_tokens_split(s: Seq<char>, k: int)
    requires
        0 < k <= s.len(),
        forall|i: int| 0 <= i < k ==> !is_space_char(#[trigger] s[i]),
        k == s.len() || is_space_char(s[k]),
    ensures
        whitespace_tokens(s) == seq![s.subrange(0, k)] + whitespace_tokens(
            s.subrange(k, s.len() as int),
        ),
    decreases k,
{
    let rest = s.drop_first();
    if k == 1 {
        assert(whitespace_tokens(s) == seq![seq![s[0]]] + whitespace_tokens(rest));
        assert(rest =~= s.subrange(1, s.len() as int));
        assert(seq![s[0]] =~= s.subrange(0, 1));
        assert(whitespace_tokens(s) =~~= seq![s.subrange(0, k)] + whitespace_tokens(
            s.subrange(k, s.len() as int),
        ));
    } else {
        assert(!is_space_char(s[1]));
        assert forall|i: int| 0 <= i < k - 1 implies !is_space_char(#[trigger] rest[i]) by {
            assert(rest[i] == s[i + 1]);
        }
        if k - 1 < rest.len() {
            assert(rest[k - 1] == s[k]);
        }
        lemma_tokens_split(rest, k - 1);
        let tr = whitespace_tokens(rest);
        assert(tr == seq![rest.subrange(0, k - 1)] + whitespace_tokens(
            rest.subrange(k - 1, rest.len() as int),
        ));
        assert(tr.len() >= 1);
        assert(whitespace_tokens(s) == seq![seq![s[0]] + tr[0]] + tr.drop_first());
        assert(tr[0] == rest.subrange(0, k - 1));
        assert(seq![s[0]] + rest.subrange(0, k - 1) =~= s.subrange(0, k));
        assert(tr.drop_first() =~= whitespace_tokens(rest.subrange(k - 1, rest.len() as int)));
        assert(rest.subrange(k - 1, rest.len() as int) =~= s.subrange(k, s.len() as int));
        assert(whitespace_tokens(s) =~~= seq![s.subrange(0, k)] + whitespace_tokens(
            s.subrange(k, s.len() as int),
        ));
    }
}

/// A non-empty string without whitespace is its own single token.
pub proof fn lemma_tokens_single(t: Seq<char>)
    requires
        t.len() > 0,
        forall|i: int| 0 <= i < t.len() ==> !is_space_char(#[trigger] t[i]),
    ensures
        whitespace_tokens(t) == seq![t],
{
    lemma_tokens_split(t, t.len() as int);
    assert(t.subrange(0, t.len() as int) =~= t);
    assert(t.subrange(t.len() as int, t.len() as int) =~= Seq::<char>::empty());
    assert(whitespace_tokens(Seq::<char>::empty()) == Seq::<Seq<char>>::empty());
    assert(whitespace_tokens(t) =~~= seq![t]);
}

/// Two space-free words joined by a single space form exactly two tokens.
pub proof fn lemma_tokens_pair(a: Seq<char>, b: Seq<char>)
    requires
        a.len() > 0,
        b.len() > 0,
        forall|i: int| 0 <= i < a.len() ==> !is_space_char(#[trigger] a[i]),
        forall|i: int| 0 <= i < b.len() ==> !is_space_char(#[trigger] b[i]),
    ensures
        whitespace_tokens(a + seq![' '] + b) == seq![a, b],
{
    let s = a + seq![' '] + b;
    assert forall|i: int| 0 <= i < a.len() implies !is_space_char(#[trigger] s[i]) by {
        assert(s[i] == a[i]);
    }
    assert(s[a.len() as int] == ' ');
    lemma_tokens_split(s, a.len() as int);
    assert(s.subrange(0, a.len() as int) =~= a);
    let tail = s.subrange(a.len() as int, s.len() as int);
    assert(tail[0] == ' ');
    assert(whitespace_tokens(tail) == whitespace_tokens(tail.drop_first()));
    assert(tail.drop_first() =~= b);
    lemma_tokens_single(b);
    assert(whitespace_tokens(s) =~~= seq![a, b]);
}

/// Three space-free words joined by single spaces form exactly three tokens.
pub proof fn lemma_tokens_triple(a: Seq<char>, b: Seq<char>, c: Seq<char>)
    requires
        a.len() > 0,
        b.len() > 0,
        c.len() > 0,
        forall|i: int| 0 <= i < a.len() ==> !is_space_char(#[trigger] a[i]),
        forall|i: int| 0 <= i < b.len() ==> !is_space_char(#[trigger] b[i]),
        forall|i: int| 0 <= i < c.len() ==> !is_space_char(#[trigger] c[i]),
    ensures
        whitespace_tokens(a + seq![' '] + b + seq![' '] + c) == seq![a, b, c],
{
    let s = a + seq![' '] + b + seq![' '] + c;
    assert forall|i: int| 0 <= i < a.len() implies !is_space_char(#[trigger] s[i]) by {
        assert(s[i] == a[i]);
    }
    assert(s[a.len() as int] == ' ');
    lemma_tokens_split(s, a.len() as int);
    assert(s.subrange(0, a.len() as int) =~= a);
    let tail = s.subrange(a.len() as int, s.len() as int);
    assert(tail[0] == ' ');
    assert(whitespace_tokens(tail) == whitespace_tokens(tail.drop_first()));
    assert(tail.drop_first() =~= b + seq![' '] + c);
    lemma_tokens_pair(b, c);
    assert(whitespace_tokens(s) =~~= seq![a, b, c]);
}

/// Splits `cs` into its maximal runs of non-whitespace characters.
pub(crate) fn split_tokens(cs: &Vec<char>) -> (toks: Vec<Vec<char>>)
    ensures
        token_views(toks@) == whitespace_tokens(cs@),
{
    let n = cs.len();
    let mut toks: Vec<Vec<char>> = Vec::new();
    let mut i: usize = 0;
    proof {
        assert(cs@.subrange(0, n as int) =~= cs@);
        assert(token_views(Seq::<Vec<char>>::empty()) =~~= Seq::<Seq<char>>::empty());
        assert(Seq::<Seq<char>>::empty() + whitespace_tokens(cs@) =~~= whitespace_tokens(cs@));
    }
    while i < n
        invariant
            i <= n,
            n == cs@.len(),
            whitespace_tokens(cs@) == token_views(toks@) + whitespace_tokens(
                cs@.subrange(i as int, n as int),
            ),
        decreases n - i,
    {
        if is_space(cs[i]) {
            proof {
                let rem = cs@.subrange(i as int, n as int);
                assert(rem[0] == cs@[i as int]);
                assert(rem.drop_first() =~= cs@.subrange(i as int + 1, n as int));
                assert(whitespace_tokens(rem) == whitespace_tokens(
                    cs@.subrange(i as int + 1, n as int),
                ));
            }
            i = i + 1;
        } else {
            let start = i;
            let mut tok: Vec<char> = Vec::new();
            while i < n && !is_space(cs[i])
                invariant
                    start <= i <= n,
                    n == cs@.len(),
                    start < n,
                    tok@ == cs@.subrange(start as int, i as int),
                    forall|j: int| start <= j < i ==> !is_space_char(#[trigger] cs@[j]),
                decreases n - i,
            {
                tok.push(cs[i]);
                proof {
                    assert(cs@.subrange(start as int, i as int + 1) =~= cs@.subrange(
                        start as int,
                        i as int,
                    ).push(cs@[i as int]));
                }
                i = i + 1;
            }
            proof {
                let rem = cs@.subrange(start as int, n as int);
                let k = i - start;
                assert forall|j: int| 0 <= j < k implies !is_space_char(#[trigger] rem[j]) by {
                    assert(rem[j] == cs@[start as int + j]);
                }
                if i < n {
                    assert(rem[k as int] == cs@[i as int]);
                }
                lemma_tokens_split(rem, k as int);
                assert(rem.subrange(0, k as int) =~= cs@.subrange(start as int, i as int));
                assert(rem.subrange(k as int, rem.len() as int) =~= cs@.subrange(
                    i as int,
                    n as int,
                ));
            }
            let ghost prev = toks@;
            let ghost tok_view = tok@;
            toks.push(tok);
            proof {
                assert(token_views(toks@) =~~= token_views(prev) + seq![tok_view]);
                assert(token_views(prev) + (seq![tok_view] + whitespace_tokens(
                    cs@.subrange(i as int, n as int),
                )) =~~= token_views(toks@) + whitespace_tokens(cs@.subrange(i as int, n as int)));
            }
        }
    }
    proof {
        assert(cs@.subrange(i as int, n as int) =~= Seq::<char>::empty());
        assert(whitespace_tokens(Seq::<char>::empty()) == Seq::<Seq<char>>::empty());
        assert(token_views(toks@) =~~= token_views(toks@) + Seq::<Seq<char>>::empty());
    }
    toks
}

/// Reads a token as an `i32`: an optional sign, then only digits, denoting
/// a value that fits; `None` exactly when the token denotes no such value.
pub(crate) fn parse_i32_token(t: &Vec<char>) -> (r: Option<i32>)
    ensures
        r is Some <==> parse_i32_text(t@) is Some,
        r is Some ==> r->0 as int == parse_i32_text(t@)->0,
{
    let n = t.len();
    if n == 0 {
        return None;
    }
    let c0 = t[0];
    let has_sign: bool = c0 == '+' || c0 == '-';
    let neg: bool = c0 == '-';
    let start: usize = if has_sign {
        1
    } else {
        0
    };
    if start >= n {
        // a bare sign carries no digits
        proof {
            assert(t@.subrange(1, n as int).len() == 0);
        }
        return None;
    }
    let ghost mag: Seq<char> = t@.subrange(start as int, n as int);
    let mut acc: u64 = 0;
    let mut i: usize = start;
    while i < n
        invariant
            start <= i <= n,
            start < n,
            n == t@.len(),
            start == 1 <==> (t@[0] == '+' || t@[0] == '-'),
            neg <==> t@[0] == '-',
            start == 0 || start == 1,
            mag == t@.subrange(start as int, n as int),
            all_dec_digits(mag.subrange(0, i - start)),
            acc == digits_value(mag.subrange(0, i - start)),
            acc <= 0x8000_0000,
        decreases n - i,
    {
        let c = t[i];
        let u: u32 = c as u32;
        if u < 48 || u > 57 {
            proof {
                assert(mag[i - start] == t@[i as int]);
                assert(!is_dec_digit(mag[i - start]));
                assert(!all_dec_digits(mag));
                if start == 1 {
                    assert(t@.subrange(1, n as int) == mag);
                }
                assert(parse_int_text(t@) is None);
            }
            return None;
        }
        let d: u64 = (u - 48) as u64;
        let next: u64 = acc * 10 + d;
        proof {
            let p = mag.subrange(0, i - start);
            let q = mag.subrange(0, i + 1 - start);
            assert(mag[i - start] == t@[i as int]);
            assert(is_dec_digit(mag[i - start]));
            assert(q =~= p.push(mag[i - start]));
            assert(q.drop_last() =~= p);
            assert(q.last() == mag[i - start]);
            assert(digit_value(mag[i - start]) == d);
            assert(digits_value(q) == 10 * digits_value(p) + d);
            assert forall|j: int| 0 <= j < q.len() implies is_dec_digit(#[trigger] q[j]) by {
                if j < p.len() {
                    assert(q[j] == p[j]);
                }
            }
        }
        if next > 0x8000_0000 {
            // the magnitude exceeds every value an i32 can hold
            proof {
                let q = mag.subrange(0, i + 1 - start);
                if all_dec_digits(mag) {
                    lemma_digits_value_prefix(mag, i + 1 - start);
                    assert(digits_value(mag) >= digits_value(q));
                    if start == 1 {
                        assert(t@.subrange(1, n as int) == mag);
                    } else {
                        assert(mag =~= t@);
                    }
                } else {
                    if start == 1 {
                        assert(t@.subrange(1, n as int) == mag);
                    }
                    assert(parse_int_text(t@) is None);
                }
                assert(parse_i32_text(t@) is None);
            }
            return None;
        }
        acc = next;
        i = i + 1;
    }
    proof {
        assert(mag.subrange(0, n - start) =~= mag);
        assert(all_dec_digits(mag));
        assert(acc == digits_value(mag));
        assert(mag.len() > 0);
        if start == 1 {
            assert(t@.subrange(1, n as int) == mag);
            assert(parse_int_text(t@) == Some(
                if t@[0] == '-' {
                    -digits_value(mag)
                } else {
                    digits_value(mag)
                },
            ));
        } else {
            assert(mag =~= t@);
            assert(!(t@[0] == '+' || t@[0] == '-'));
            assert(parse_int_text(t@) == Some(digits_value(t@)));
        }
    }
    if neg {
        let v: i64 = -(acc as i64);
        proof {
            assert(i32::MIN as i64 <= v <= 0);
            assert(parse_int_text(t@) == Some(v as int));
        }
        Some(v as i32)
    } else {
        if acc > 0x7FFF_FFFF {
            // 2147483648 and above fit no i32 without a minus sign
            proof {
                assert(parse_int_text(t@) == Some(acc as int));
                assert(acc as int > i32::MAX);
            }
            return None;
        }
        Some(acc as i32)
    }
}

} // verus!
