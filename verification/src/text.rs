//! Character-level text handling: Unicode white space, trimming, splitting
//! into words, searching for a pattern and rendering numbers in decimal.

use vstd::prelude::*;
use vstd::string::*;

verus! {

/// The Unicode `White_Space` property (the characters that `char::is_whitespace` accepts).
pub open spec fn is_white_space(c: char) -> bool {
    let n = c as u32;
    ||| 0x9 <= n <= 0xD
    ||| n == 0x20
    ||| n == 0x85
    ||| n == 0xA0
    ||| n == 0x1680
    ||| 0x2000 <= n <= 0x200A
    ||| n == 0x2028
    ||| n == 0x2029
    ||| n == 0x202F
    ||| n == 0x205F
    ||| n == 0x3000
}

/// Whether `c` is Unicode white space.
pub fn white_space(c: char) -> (r: bool)
    ensures
        r == is_white_space(c),
{
    let n = c as u32;
    (0x9 <= n && n <= 0xD) || n == 0x20 || n == 0x85 || n == 0xA0 || n == 0x1680 || (0x2000 <= n
        && n <= 0x200A) || n == 0x2028 || n == 0x2029 || n == 0x202F || n == 0x205F || n == 0x3000
}


/// The characters of `s` in order.
pub fn chars_of(s: &str) -> (v: Vec<char>)
    ensures
        v@ == s@,
{
    let n = s.unicode_len();
    let mut v: Vec<char> = Vec::new();
    let mut i: usize = 0;
    while i < n
        invariant
            n == s@.len(),
            i <= n,
            v@ == s@.take(i as int),
        decreases n - i,
    {
        let c = s.get_char(i);
        v.push(c);
        i = i + 1;
        assert(v@ =~= s@.take(i as int));
    }
    assert(v@ =~= s@);
    v
}

/// `s` without its leading white space.
pub open spec fn strip_leading(s: Seq<char>) -> Seq<char>
    decreases s.len(),
{
    if s.len() > 0 && is_white_space(s[0]) {
        strip_leading(s.drop_first())
    } else {
        s
    }
}

/// `s` without its trailing white space.
pub open spec fn strip_trailing(s: Seq<char>) -> Seq<char>
    decreases s.len(),
{
    if s.len() > 0 && is_white_space(s.last()) {
        strip_trailing(s.drop_last())
    } else {
        s
    }
}

/// `s` without leading and trailing white space (what `str::trim` gives).
pub open spec fn trimmed(s: Seq<char>) -> Seq<char> {
    strip_trailing(strip_leading(s))
}

/// The longest prefix of `s` free of white space.
pub open spec fn take_word(s: Seq<char>) -> Seq<char>
    decreases s.len(),
{
    if s.len() > 0 && !is_white_space(s[0]) {
        seq![s[0]] + take_word(s.drop_first())
    } else {
        Seq::empty()
    }
}

/// The first two white-space separated words of `s`, if it has two.
pub open spec fn first_two_words_of(s: Seq<char>) -> Option<(Seq<char>, Seq<char>)> {
    let t1 = strip_leading(s);
    let w1 = take_word(t1);
    let t2 = strip_leading(t1.skip(w1.len() as int));
    let w2 = take_word(t2);
    if t1.len() == 0 || t2.len() == 0 {
        None
    } else {
        Some((w1, w2))
    }
}

/// Whether `s` holds a character that is not white space.
pub open spec fn has_non_white(s: Seq<char>) -> bool {
    exists|i: int| 0 <= i < s.len() && !is_white_space(#[trigger] s[i])
}

proof fn lemma_strip_leading(t: Seq<char>, k: int)
    requires
        0 <= k <= t.len(),
        forall|j: int| 0 <= j < k ==> is_white_space(#[trigger] t[j]),
        k < t.len() ==> !is_white_space(t[k]),
    ensures
        strip_leading(t) == t.skip(k),
    decreases k,
{
    if k == 0 {
        assert(t.skip(0) =~= t);
    } else {
        assert(is_white_space(t[0]));
        let u = t.drop_first();
        assert forall|j: int| 0 <= j < k - 1 implies is_white_space(#[trigger] u[j]) by {
            assert(u[j] == t[j + 1]);
        }
        lemma_strip_leading(u, k - 1);
        assert(u.skip(k - 1) =~= t.skip(k));
    }
}

proof fn lemma_strip_trailing(t: Seq<char>, k: int)
    requires
        0 <= k <= t.len(),
        forall|j: int| k <= j < t.len() ==> is_white_space(#[trigger] t[j]),
        k > 0 ==> !is_white_space(t[k - 1]),
    ensures
        strip_trailing(t) == t.take(k),
    decreases t.len() - k,
{
    if k == t.len() {
        assert(t.take(k) =~= t);
    } else {
        assert(is_white_space(t.last()));
        let u = t.drop_last();
        lemma_strip_trailing(u, k);
        assert(u.take(k) =~= t.take(k));
    }
}

proof fn lemma_strip_trailing_keeps(t: Seq<char>, i: int)
    requires
        0 <= i < t.len(),
        !is_white_space(t[i]),
    ensures
        strip_trailing(t).len() > i,
    decreases t.len(),
{
    if is_white_space(t.last()) {
        lemma_strip_trailing_keeps(t.drop_last(), i);
    }
}

proof fn lemma_take_word(t: Seq<char>, k: int)
    requires
        0 <= k <= t.len(),
        forall|j: int| 0 <= j < k ==> !is_white_space(#[trigger] t[j]),
        k < t.len() ==> is_white_space(t[k]),
    ensures
        take_word(t) == t.take(k),
    decreases k,
{
    if k == 0 {
        assert(t.take(0) =~= Seq::<char>::empty());
    } else {
        let u = t.drop_first();
        assert(!is_white_space(t[0]));
        assert forall|j: int| 0 <= j < k - 1 implies !is_white_space(#[trigger] u[j]) by {
            assert(u[j] == t[j + 1]);
        }
        lemma_take_word(u, k - 1);
        assert(seq![t[0]] + u.take(k - 1) =~= t.take(k));
    }
}

/// First index at or after `from` whose character is not white space.
fn skip_white(v: &Vec<char>, from: usize) -> (k: usize)
    requires
        from <= v@.len(),
    ensures
        from <= k <= v@.len(),
        forall|j: int| from <= j < k ==> is_white_space(#[trigger] v@[j]),
        k < v@.len() ==> !is_white_space(v@[k as int]),
{
    let mut k = from;
    while k < v.len() && white_space(v[k])
        invariant
            from <= k <= v@.len(),
            forall|j: int| from <= j < k ==> is_white_space(#[trigger] v@[j]),
        decreases v@.len() - k,
    {
        k = k + 1;
    }
    k
}

/// First index at or after `from` whose character is white space.
fn skip_word(v: &Vec<char>, from: usize) -> (k: usize)
    requires
        from <= v@.len(),
    ensures
        from <= k <= v@.len(),
        forall|j: int| from <= j < k ==> !is_white_space(#[trigger] v@[j]),
        k < v@.len() ==> is_white_space(v@[k as int]),
{
    let mut k = from;
    while k < v.len() && !white_space(v[k])
        invariant
            from <= k <= v@.len(),
            forall|j: int| from <= j < k ==> !is_white_space(#[trigger] v@[j]),
        decreases v@.len() - k,
    {
        k = k + 1;
    }
    k
}

/// `s` with leading and trailing white space removed, as `str::trim` does.
pub fn trim(s: &str) -> (r: String)
    ensures
        r@ == trimmed(s@),
{
    let v = chars_of(s);
    let a = skip_white(&v, 0);
    let mut b = v.len();
    while b > a && white_space(v[b - 1])
        invariant
            a <= b <= v@.len(),
            v@ == s@,
            forall|j: int| b <= j < v@.len() ==> is_white_space(#[trigger] v@[j]),
        decreases b,
    {
        b = b - 1;
    }
    proof {
        lemma_strip_leading(s@, a as int);
        let t = s@.skip(a as int);
        assert forall|j: int| b - a <= j < t.len() implies is_white_space(#[trigger] t[j]) by {
            assert(t[j] == s@[j + a]);
        }
        if b > a {
            assert(t[b - a - 1] == s@[b - 1]);
        }
        lemma_strip_trailing(t, b - a);
        assert(t.take(b - a) =~= s@.subrange(a as int, b as int));
    }
    String::from_str(s.substring_char(a, b))
}

/// Whether `s` has a character other than white space, that is, whether
/// `s.trim()` is not empty.
pub fn is_blank(s: &str) -> (r: bool)
    ensures
        r == !has_non_white(s@),
        r == (trimmed(s@).len() == 0),
{
    let v = chars_of(s);
    let a = skip_white(&v, 0);
    proof {
        lemma_strip_leading(s@, a as int);
        if a < v@.len() {
            let t = s@.skip(a as int);
            assert(t[0] == s@[a as int]);
            lemma_strip_trailing_keeps(t, 0);
            assert(has_non_white(s@));
        } else {
            assert(s@.skip(a as int) =~= Seq::<char>::empty());
            assert(strip_trailing(Seq::<char>::empty()) == Seq::<char>::empty());
        }
    }
    a == v.len()
}

/// The first two white-space separated words of `s`, as
/// `s.split_whitespace().next_tuple()` gives them.
pub fn first_two_words(s: &str) -> (r: Option<(String, String)>)
    ensures
        match first_two_words_of(s@) {
            None => r is None,
            Some((w1, w2)) => r matches Some((a, b)) && a@ == w1 && b@ == w2,
        },
{
    let v = chars_of(s);
    let a1 = skip_white(&v, 0);
    let b1 = skip_word(&v, a1);
    let a2 = skip_white(&v, b1);
    let b2 = skip_word(&v, a2);
    proof {
        let n = s@.len() as int;
        lemma_strip_leading(s@, a1 as int);
        let t1 = s@.skip(a1 as int);
        assert forall|j: int| 0 <= j < b1 - a1 implies !is_white_space(#[trigger] t1[j]) by {
            assert(t1[j] == s@[j + a1]);
        }
        if b1 < n {
            assert(t1[b1 - a1] == s@[b1 as int]);
        }
        lemma_take_word(t1, b1 - a1);
        let r1 = t1.skip(b1 - a1);
        assert(r1 =~= s@.skip(b1 as int));
        let u = s@.skip(b1 as int);
        assert forall|j: int| 0 <= j < a2 - b1 implies is_white_space(#[trigger] u[j]) by {
            assert(u[j] == s@[j + b1]);
        }
        if a2 < n {
            assert(u[a2 - b1] == s@[a2 as int]);
        }
        lemma_strip_leading(u, a2 - b1);
        let t2 = u.skip(a2 - b1);
        assert(t2 =~= s@.skip(a2 as int));
        assert forall|j: int| 0 <= j < b2 - a2 implies !is_white_space(#[trigger] t2[j]) by {
            assert(t2[j] == s@[j + a2]);
        }
        if b2 < n {
            assert(t2[b2 - a2] == s@[b2 as int]);
        }
        lemma_take_word(t2, b2 - a2);
        assert(t1.take(b1 - a1) =~= s@.subrange(a1 as int, b1 as int));
        assert(t2.take(b2 - a2) =~= s@.subrange(a2 as int, b2 as int));
    }
    if a1 == v.len() || a2 == v.len() {
        None
    } else {
        Some((String::from_str(s.substring_char(a1, b1)), String::from_str(s.substring_char(a2, b2))))
    }
}


/// `p` occurs in `s` starting at index `i`.
pub open spec fn occurs_at(s: Seq<char>, p: Seq<char>, i: int) -> bool {
    0 <= i && i + p.len() <= s.len() && s.subrange(i, i + p.len()) == p
}

/// `i` is the start of the last occurrence of `p` in `s`.
pub open spec fn is_last_occurrence(s: Seq<char>, p: Seq<char>, i: int) -> bool {
    &&& occurs_at(s, p, i)
    &&& forall|j: int| #[trigger] occurs_at(s, p, j) ==> j <= i
}

/// Whether `p` occurs in `s` at index `i`.
fn matches_at(s: &Vec<char>, p: &Vec<char>, i: usize) -> (r: bool)
    requires
        i + p@.len() <= s@.len(),
    ensures
        r == occurs_at(s@, p@, i as int),
{
    let n = s.len();
    let mut k: usize = 0;
    while k < p.len()
        invariant
            n == s@.len(),
            i + p@.len() <= s@.len(),
            k <= p@.len(),
            forall|m: int| 0 <= m < k ==> s@[i + m] == p@[m],
        decreases p@.len() - k,
    {
        if s[i + k] != p[k] {
            assert(s@.subrange(i as int, i + p@.len())[k as int] != p@[k as int]);
            return false;
        }
        k = k + 1;
    }
    assert(s@.subrange(i as int, i + p@.len()) =~= p@);
    true
}

/// The index at which the last occurrence of `p` in `s` starts, in
/// characters; `None` when `p` does not occur in `s`.
pub fn last_occurrence(s: &Vec<char>, p: &Vec<char>) -> (r: Option<usize>)
    ensures
        r matches Some(i) ==> is_last_occurrence(s@, p@, i as int),
        r is None ==> forall|j: int| !occurs_at(s@, p@, j),
{
    if p.len() > s.len() {
        return None;
    }
    let mut i: usize = s.len() - p.len();
    loop
        invariant
            p@.len() <= s@.len(),
            i + p@.len() <= s@.len(),
            forall|j: int| i < j ==> !#[trigger] occurs_at(s@, p@, j),
        decreases i,
    {
        if matches_at(s, p, i) {
            return Some(i);
        }
        if i == 0 {
            return None;
        }
        i = i - 1;
    }
}


/// The decimal digit for `d` (for `0 <= d < 10`).
pub open spec fn digit_char(d: int) -> char {
    seq!['0', '1', '2', '3', '4', '5', '6', '7', '8', '9'][d]
}

/// The decimal representation of `n`, without leading zeros (what
/// `Display` prints for an unsigned integer).
pub open spec fn decimal(n: nat) -> Seq<char>
    decreases n,
{
    if n < 10 {
        seq![digit_char(n as int)]
    } else {
        decimal(n / 10) + seq![digit_char((n % 10) as int)]
    }
}

fn push_digit(out: &mut String, d: u64)
    requires
        d < 10,
    ensures
        final(out)@ == old(out)@ + seq![digit_char(d as int)],
{
    let digits = "0123456789";
    proof {
        reveal_strlit("0123456789");
    }
    let one = digits.substring_char(d as usize, d as usize + 1);
    assert(one@ =~= seq![digit_char(d as int)]);
    out.append(one);
}

/// Appends the decimal representation of `n` to `out`.
pub fn push_decimal(out: &mut String, n: u64)
    ensures
        final(out)@ == old(out)@ + decimal(n as nat),
    decreases n,
{
    if n >= 10 {
        push_decimal(out, n / 10);
    }
    push_digit(out, n % 10);
    proof {
        if n >= 10 {
            assert(old(out)@ + decimal((n / 10) as nat) + seq![digit_char((n % 10) as int)] =~= old(
                out,
            )@ + decimal(n as nat));
        } else {
            assert(n % 10 == n);
        }
    }
}


proof fn lemma_strip_leading_shape(s: Seq<char>) -> (k: int)
    ensures
        0 <= k <= s.len(),
        strip_leading(s) == s.skip(k),
        forall|j: int| 0 <= j < k ==> is_white_space(#[trigger] s[j]),
        k < s.len() ==> !is_white_space(s[k]),
    decreases s.len(),
{
    if s.len() > 0 && is_white_space(s[0]) {
        let u = s.drop_first();
        let k1 = lemma_strip_leading_shape(u);
        assert(u.skip(k1) =~= s.skip(k1 + 1));
        assert forall|j: int| 0 <= j < k1 + 1 implies is_white_space(#[trigger] s[j]) by {
            if j > 0 {
                assert(s[j] == u[j - 1]);
            }
        }
        if k1 + 1 < s.len() {
            assert(s[k1 + 1] == u[k1]);
        }
        k1 + 1
    } else {
        assert(s.skip(0) =~= s);
        0
    }
}

proof fn lemma_take_word_shape(t: Seq<char>)
    ensures
        take_word(t).len() <= t.len(),
        take_word(t) == t.take(take_word(t).len() as int),
        forall|j: int| 0 <= j < take_word(t).len() ==> !is_white_space(#[trigger] t[j]),
        take_word(t).len() < t.len() ==> is_white_space(t[take_word(t).len() as int]),
    decreases t.len(),
{
    if t.len() > 0 && !is_white_space(t[0]) {
        let u = t.drop_first();
        lemma_take_word_shape(u);
        let n = take_word(u).len() as int;
        assert(take_word(t) == seq![t[0]] + take_word(u));
        assert(seq![t[0]] + u.take(n) =~= t.take(n + 1));
        assert forall|j: int| 0 <= j < n + 1 implies !is_white_space(#[trigger] t[j]) by {
            if j > 0 {
                assert(t[j] == u[j - 1]);
            }
        }
        if n + 1 < t.len() {
            assert(t[n + 1] == u[n]);
        }
    } else {
        assert(t.take(0) =~= Seq::<char>::empty());
    }
}

/// The text holds no white space.
pub open spec fn no_white(w: Seq<char>) -> bool {
    forall|j: int| 0 <= j < w.len() ==> !is_white_space(#[trigger] w[j])
}

/// The text is all white space.
pub open spec fn all_white(w: Seq<char>) -> bool {
    forall|j: int| 0 <= j < w.len() ==> is_white_space(#[trigger] w[j])
}

/// The words found are whole words of the text, in order: the text is some
/// white space, the first word, some white space (at least one character),
/// the second word, and then either nothing or white space followed by the
/// rest. Both words are non-empty and hold no white space.
pub proof fn lemma_first_two_words_whole(s: Seq<char>)
    ensures
        first_two_words_of(s) matches Some((w1, w2)) ==> exists|
            lead: Seq<char>,
            mid: Seq<char>,
            post: Seq<char>,
        |
            {
                &&& s == lead + w1 + mid + w2 + post
                &&& all_white(lead)
                &&& all_white(mid) && mid.len() > 0
                &&& no_white(w1) && w1.len() > 0
                &&& no_white(w2) && w2.len() > 0
                &&& (post.len() == 0 || is_white_space(post[0]))
            },
{
    if first_two_words_of(s) is Some {
        let (w1, w2) = first_two_words_of(s).unwrap();
        let a1 = lemma_strip_leading_shape(s);
        let t1 = s.skip(a1);
        lemma_take_word_shape(t1);
        let n1 = w1.len() as int;
        let r1 = t1.skip(n1);
        let k2 = lemma_strip_leading_shape(r1);
        let t2 = r1.skip(k2);
        lemma_take_word_shape(t2);
        let n2 = w2.len() as int;
        assert(t1[0] == s[a1]);
        assert(n1 > 0);
        assert(t1[n1] == r1[0]);
        assert(k2 > 0);
        assert(t2[0] == r1[k2]);
        assert(n2 > 0);
        let lead = s.take(a1);
        let mid = r1.take(k2);
        let post = t2.skip(n2);
        assert forall|j: int| 0 <= j < lead.len() implies is_white_space(#[trigger] lead[j]) by {
            assert(lead[j] == s[j]);
        }
        assert(all_white(mid));
        assert forall|j: int| 0 <= j < n1 implies !is_white_space(#[trigger] w1[j]) by {
            assert(w1[j] == t1[j]);
        }
        assert forall|j: int| 0 <= j < n2 implies !is_white_space(#[trigger] w2[j]) by {
            assert(w2[j] == t2[j]);
        }
        if post.len() > 0 {
            assert(post[0] == t2[n2]);
        }
        assert(t2 =~= w2 + post);
        assert(r1 =~= mid + t2);
        assert(t1 =~= w1 + r1);
        assert(s =~= lead + t1);
        assert(s =~= lead + w1 + mid + w2 + post);
    }
}

} // verus!
