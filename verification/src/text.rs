use vstd::prelude::*;

verus! {

/// The Unicode `White_Space` characters: exactly those for which
/// `char::is_whitespace` holds.
pub open spec fn is_ws(c: char) -> bool {
    ||| ('\u{9}' <= c && c <= '\u{d}')
    ||| c == ' '
    ||| c == '\u{85}'
    ||| c == '\u{a0}'
    ||| c == '\u{1680}'
    ||| ('\u{2000}' <= c && c <= '\u{200a}')
    ||| c == '\u{2028}'
    ||| c == '\u{2029}'
    ||| c == '\u{202f}'
    ||| c == '\u{205f}'
    ||| c == '\u{3000}'
}

/// Whether `c` is a whitespace character.
pub fn is_whitespace(c: char) -> (b: bool)
    ensures
        b == is_ws(c),
{
    ('\u{9}' <= c && c <= '\u{d}') || c == ' ' || c == '\u{85}' || c == '\u{a0}' || c
        == '\u{1680}' || ('\u{2000}' <= c && c <= '\u{200a}') || c == '\u{2028}' || c
        == '\u{2029}' || c == '\u{202f}' || c == '\u{205f}' || c == '\u{3000}'
}


/// Length of the longest prefix of `s` whose characters all satisfy `p`.
pub open spec fn lead(s: Seq<char>, p: spec_fn(char) -> bool) -> nat
    decreases s.len(),
{
    if s.len() > 0 && p(s[0]) {
        1 + lead(s.drop_first(), p)
    } else {
        0
    }
}

/// Length of the longest suffix of `s` whose characters all satisfy `p`.
pub open spec fn trail(s: Seq<char>, p: spec_fn(char) -> bool) -> nat
    decreases s.len(),
{
    if s.len() > 0 && p(s.last()) {
        1 + trail(s.drop_last(), p)
    } else {
        0
    }
}

pub proof fn lemma_lead_bound(s: Seq<char>, p: spec_fn(char) -> bool)
    ensures
        lead(s, p) <= s.len(),
        forall|k: int| 0 <= k < lead(s, p) ==> p(#[trigger] s[k]),
        lead(s, p) < s.len() ==> !p(s[lead(s, p) as int]),
    decreases s.len(),
{
    if s.len() > 0 && p(s[0]) {
        lemma_lead_bound(s.drop_first(), p);
        assert forall|k: int| 0 <= k < lead(s, p) implies p(#[trigger] s[k]) by {
            if k > 0 {
                assert(s[k] == s.drop_first()[k - 1]);
            }
        }
    }
}

/// `lead` is pinned down by its two defining facts.
pub proof fn lemma_lead_exact(s: Seq<char>, p: spec_fn(char) -> bool, m: nat)
    requires
        m <= s.len(),
        forall|k: int| 0 <= k < m ==> p(#[trigger] s[k]),
        m == s.len() || !p(s[m as int]),
    ensures
        lead(s, p) == m,
    decreases m,
{
    if m > 0 {
        let t = s.drop_first();
        assert forall|k: int| 0 <= k < m - 1 implies p(#[trigger] t[k]) by {
            assert(t[k] == s[k + 1]);
        }
        if m < s.len() {
            assert(t[m - 1] == s[m as int]);
        }
        lemma_lead_exact(t, p, (m - 1) as nat);
    }
}

/// `trail` is pinned down by its two defining facts.
pub proof fn lemma_trail_exact(s: Seq<char>, p: spec_fn(char) -> bool, m: nat)
    requires
        m <= s.len(),
        forall|k: int| s.len() - m <= k < s.len() ==> p(#[trigger] s[k]),
        m == s.len() || !p(s[s.len() - m - 1]),
    ensures
        trail(s, p) == m,
    decreases m,
{
    if m > 0 {
        let t = s.drop_last();
        assert forall|k: int| t.len() - (m - 1) <= k < t.len() implies p(#[trigger] t[k]) by {
            assert(t[k] == s[k]);
        }
        if m < s.len() {
            assert(t[t.len() - (m - 1) - 1] == s[s.len() - m - 1]);
        }
        assert(p(s.last()));
        lemma_trail_exact(t, p, (m - 1) as nat);
    }
}

/// The characters that `str::trim` removes.
pub open spec fn ws_pred() -> spec_fn(char) -> bool {
    |c: char| is_ws(c)
}

/// The characters that `trim_matches('\0')` removes.
pub open spec fn nul_pred() -> spec_fn(char) -> bool {
    |c: char| c == '\0'
}

/// `s` without its leading and trailing characters that satisfy `p`.
pub open spec fn strip(s: Seq<char>, p: spec_fn(char) -> bool) -> Seq<char> {
    let t = s.skip(lead(s, p) as int);
    t.take(t.len() - trail(t, p))
}

/// Length of the word at the start of `s`: its leading non-whitespace run.
pub open spec fn word_len(s: Seq<char>) -> nat {
    lead(s, |c: char| !is_ws(c))
}

/// The whitespace-separated words of `s`, in order (as `str::split_whitespace`).
pub open spec fn split_ws(s: Seq<char>) -> Seq<Seq<char>>
    decreases s.len(),
{
    if s.len() == 0 {
        seq![]
    } else if is_ws(s[0]) {
        split_ws(s.drop_first())
    } else {
        proof {
            lemma_lead_bound(s, |c: char| !is_ws(c));
        }
        seq![s.take(word_len(s) as int)] + split_ws(s.skip(word_len(s) as int))
    }
}

/// The views of a vector of strings.
pub open spec fn views(v: Seq<String>) -> Seq<Seq<char>> {
    v.map_values(|t: String| t@)
}

fn strippable(c: char, nul: bool) -> (b: bool)
    ensures
        b == (if nul { nul_pred() } else { ws_pred() })(c),
{
    if nul {
        c == '\0'
    } else {
        is_whitespace(c)
    }
}

fn strip_with(s: &str, nul: bool) -> (r: String)
    ensures
        r@ == strip(s@, if nul { nul_pred() } else { ws_pred() }),
{
    let ghost p = if nul { nul_pred() } else { ws_pred() };
    let n = s.unicode_len();
    let mut a: usize = 0;
    while a < n && strippable(s.get_char(a), nul)
        invariant
            a <= n,
            n == s@.len(),
            p == (if nul { nul_pred() } else { ws_pred() }),
            forall|k: int| 0 <= k < a ==> p(#[trigger] s@[k]),
        decreases n - a,
    {
        a = a + 1;
    }
    proof {
        lemma_lead_exact(s@, p, a as nat);
    }
    let mut b: usize = n;
    while b > a && strippable(s.get_char(b - 1), nul)
        invariant
            a <= b <= n,
            n == s@.len(),
            p == (if nul { nul_pred() } else { ws_pred() }),
            forall|k: int| b <= k < n ==> p(#[trigger] s@[k]),
        decreases b,
    {
        b = b - 1;
    }
    let ghost t = s@.skip(a as int);
    proof {
        assert forall|k: int| t.len() - (n - b) <= k < t.len() implies p(#[trigger] t[k]) by {
            assert(t[k] == s@[k + a]);
        }
        if b > a {
            assert(t[t.len() - (n - b) - 1] == s@[b - 1]);
        }
        lemma_trail_exact(t, p, (n - b) as nat);
        assert(t.take(t.len() - trail(t, p)) =~= s@.subrange(a as int, b as int));
    }
    String::from_str(s.substring_char(a, b))
}

/// `s` without leading and trailing whitespace (as `str::trim`).
pub fn trim(s: &str) -> (r: String)
    ensures
        r@ == strip(s@, ws_pred()),
{
    strip_with(s, false)
}

/// `s` without leading and trailing NUL characters (as `trim_matches('\0')`).
pub fn trim_nul(s: &str) -> (r: String)
    ensures
        r@ == strip(s@, nul_pred()),
{
    strip_with(s, true)
}

proof fn lemma_split_step_ws(s: Seq<char>, i: int)
    requires
        0 <= i < s.len(),
        is_ws(s[i]),
    ensures
        split_ws(s.skip(i)) == split_ws(s.skip(i + 1)),
{
    assert(s.skip(i).drop_first() =~= s.skip(i + 1));
}

/// The whitespace-separated words of `s`, as `str::split_whitespace` yields them.
pub fn split_whitespace(s: &str) -> (r: Vec<String>)
    ensures
        views(r@) == split_ws(s@),
{
    let n = s.unicode_len();
    let mut out: Vec<String> = Vec::new();
    let mut i: usize = 0;
    assert(s@.skip(0) =~= s@);
    while i < n
        invariant
            i <= n,
            n == s@.len(),
            split_ws(s@) == views(out@) + split_ws(s@.skip(i as int)),
        decreases n - i,
    {
        let c = s.get_char(i);
        if is_whitespace(c) {
            proof {
                lemma_split_step_ws(s@, i as int);
            }
            i = i + 1;
        } else {
            let mut j: usize = i + 1;
            while j < n && !is_whitespace(s.get_char(j))
                invariant
                    i < j <= n,
                    n == s@.len(),
                    forall|k: int| i <= k < j ==> !is_ws(#[trigger] s@[k]),
                decreases n - j,
            {
                j = j + 1;
            }
            let ghost t = s@.skip(i as int);
            proof {
                let p = |c: char| !is_ws(c);
                assert forall|k: int| 0 <= k < j - i implies p(#[trigger] t[k]) by {
                    assert(t[k] == s@[k + i]);
                }
                if j < n {
                    assert(t[j - i] == s@[j as int]);
                }
                lemma_lead_exact(t, p, (j - i) as nat);
                assert(t[0] == c);
                assert(t.take(word_len(t) as int) =~= s@.subrange(i as int, j as int));
                assert(t.skip(word_len(t) as int) =~= s@.skip(j as int));
            }
            let word = String::from_str(s.substring_char(i, j));
            let ghost before = out@;
            out.push(word);
            proof {
                assert(views(out@) =~= views(before).push(word@));
                assert(views(out@) + split_ws(s@.skip(j as int)) =~= views(before) + split_ws(t));
            }
            i = j;
        }
    }
    proof {
        assert(split_ws(s@.skip(n as int)) =~= Seq::<Seq<char>>::empty());
        assert(views(out@) + Seq::<Seq<char>>::empty() =~= views(out@));
    }
    out
}


/// `p` is a prefix of `s`.
pub open spec fn has_prefix(s: Seq<char>, p: Seq<char>) -> bool {
    p.len() <= s.len() && s.subrange(0, p.len() as int) == p
}

/// Whether `s` starts with `prefix` (as `str::starts_with`).
pub fn starts_with(s: &str, prefix: &str) -> (r: bool)
    ensures
        r == has_prefix(s@, prefix@),
{
    let n = s.unicode_len();
    let m = prefix.unicode_len();
    if m > n {
        return false;
    }
    let mut i: usize = 0;
    while i < m
        invariant
            i <= m <= n,
            n == s@.len(),
            m == prefix@.len(),
            forall|k: int| 0 <= k < i ==> s@[k] == prefix@[k],
        decreases m - i,
    {
        if s.get_char(i) != prefix.get_char(i) {
            proof {
                assert(s@.subrange(0, m as int)[i as int] != prefix@[i as int]);
            }
            return false;
        }
        i = i + 1;
    }
    proof {
        assert(s@.subrange(0, m as int) =~= prefix@);
    }
    true
}

/// The decimal digit `d` (below ten).
pub open spec fn digit(d: nat) -> char {
    if d == 0 {
        '0'
    } else if d == 1 {
        '1'
    } else if d == 2 {
        '2'
    } else if d == 3 {
        '3'
    } else if d == 4 {
        '4'
    } else if d == 5 {
        '5'
    } else if d == 6 {
        '6'
    } else if d == 7 {
        '7'
    } else if d == 8 {
        '8'
    } else {
        '9'
    }
}

/// The decimal notation of `n`, without leading zeros.
pub open spec fn decimal(n: nat) -> Seq<char>
    decreases n,
{
    if n < 10 {
        seq![digit(n)]
    } else {
        decimal(n / 10).push(digit(n % 10))
    }
}

fn digit_text(d: u64) -> (r: String)
    requires
        d < 10,
    ensures
        r@ == seq![digit(d as nat)],
{
    if d == 0 {
        proof { reveal_strlit("0"); }
        String::from_str("0")
    } else if d == 1 {
        proof { reveal_strlit("1"); }
        String::from_str("1")
    } else if d == 2 {
        proof { reveal_strlit("2"); }
        String::from_str("2")
    } else if d == 3 {
        proof { reveal_strlit("3"); }
        String::from_str("3")
    } else if d == 4 {
        proof { reveal_strlit("4"); }
        String::from_str("4")
    } else if d == 5 {
        proof { reveal_strlit("5"); }
        String::from_str("5")
    } else if d == 6 {
        proof { reveal_strlit("6"); }
        String::from_str("6")
    } else if d == 7 {
        proof { reveal_strlit("7"); }
        String::from_str("7")
    } else if d == 8 {
        proof { reveal_strlit("8"); }
        String::from_str("8")
    } else {
        proof { reveal_strlit("9"); }
        String::from_str("9")
    }
}

/// The decimal notation of `n` (as `to_string` writes it).
pub fn decimal_text(n: u64) -> (r: String)
    ensures
        r@ == decimal(n as nat),
    decreases n,
{
    if n < 10 {
        digit_text(n)
    } else {
        let mut s = decimal_text(n / 10);
        let d = digit_text(n % 10);
        s.append(d.as_str());
        s
    }
}


/// A decimal digit character.
pub open spec fn is_digit(c: char) -> bool {
    '0' <= c && c <= '9'
}

/// The value of a digit character.
pub open spec fn digit_value(c: char) -> nat {
    (c as int - '0' as int) as nat
}

/// The value of a string of digits.
pub open spec fn digits_value(s: Seq<char>) -> nat
    decreases s.len(),
{
    if s.len() == 0 {
        0
    } else {
        digits_value(s.drop_last()) * 10 + digit_value(s.last())
    }
}

/// The decimal notation of a positive number: digits, the first not zero.
pub open spec fn canonical(s: Seq<char>) -> bool {
    &&& s.len() > 0
    &&& s[0] != '0'
    &&& forall|i: int| 0 <= i < s.len() ==> is_digit(#[trigger] s[i])
}

proof fn lemma_digit(d: nat)
    requires
        d < 10,
    ensures
        is_digit(digit(d)),
        digit_value(digit(d)) == d,
        d != 0 ==> digit(d) != '0',
{
}

proof fn lemma_digit_back(c: char)
    requires
        is_digit(c),
    ensures
        digit(digit_value(c)) == c,
        digit_value(c) < 10,
{
}

/// The decimal notation of a positive number is canonical.
pub proof fn lemma_decimal_canonical(n: nat)
    requires
        n >= 1,
    ensures
        canonical(decimal(n)),
    decreases n,
{
    if n < 10 {
        lemma_digit(n);
    } else {
        lemma_decimal_canonical(n / 10);
        lemma_digit(n % 10);
        let d = decimal(n / 10);
        assert(decimal(n) == d.push(digit(n % 10)));
        assert forall|i: int| 0 <= i < decimal(n).len() implies is_digit(#[trigger] decimal(n)[i]) by {
            if i < d.len() {
                assert(decimal(n)[i] == d[i]);
            }
        }
    }
}

/// A canonical string is the decimal notation of its positive value.
pub proof fn lemma_canonical_decimal(s: Seq<char>)
    requires
        canonical(s),
    ensures
        digits_value(s) >= 1,
        decimal(digits_value(s)) == s,
    decreases s.len(),
{
    lemma_digit_back(s.last());
    if s.len() == 1 {
        assert(digits_value(s.drop_last()) == 0);
        assert(digit_value(s[0]) != 0);
        assert(decimal(digits_value(s)) =~= s);
    } else {
        let t = s.drop_last();
        assert(t[0] == s[0]);
        assert forall|i: int| 0 <= i < t.len() implies is_digit(#[trigger] t[i]) by {
            assert(t[i] == s[i]);
        }
        lemma_canonical_decimal(t);
        let v = digits_value(s);
        let d = digit_value(s.last());
        assert(v == digits_value(t) * 10 + d);
        assert(v / 10 == digits_value(t) && v % 10 == d) by (nonlinear_arith)
            requires
                v == digits_value(t) * 10 + d,
                d < 10,
        ;
        assert(decimal(v) =~= s);
    }
}

} // verus!
