//! Small operations on strings, stated over their character sequences.

use vstd::prelude::*;

verus! {

broadcast use vstd::string::group_string_axioms;

/// The characters of `s`, in order.
pub fn chars_of(s: &str) -> (v: Vec<char>)
    ensures
        v@ == s@,
{
    let mut v: Vec<char> = Vec::new();
    for c in it: s.chars()
        invariant
            v@ == it.seq().take(it.index()),
    {
        v.push(c);
    }
    v
}


/// Whether two string slices hold the same characters.
pub fn str_eq(a: &str, b: &str) -> (r: bool)
    ensures
        r == (a@ == b@),
{
    let x = chars_of(a);
    let y = chars_of(b);
    if x.len() != y.len() {
        return false;
    }
    let mut i: usize = 0;
    while i < x.len()
        invariant
            i <= x.len() == y.len(),
            x@ == a@,
            y@ == b@,
            forall|j: int| 0 <= j < i ==> a@[j] == b@[j],
        decreases x.len() - i,
    {
        if x[i] != y[i] {
            return false;
        }
        i = i + 1;
    }
    assert(a@ =~= b@);
    true
}

/// The characters that Unicode gives the property White_Space, which is what
/// `char::is_whitespace` and `str::trim` go by.
pub open spec fn is_white_space(c: char) -> bool {
    let n = c as u32;
    ||| 0x09 <= n <= 0x0d
    ||| n == 0x20
    ||| n == 0x85
    ||| n == 0xa0
    ||| n == 0x1680
    ||| 0x2000 <= n <= 0x200a
    ||| n == 0x2028
    ||| n == 0x2029
    ||| n == 0x202f
    ||| n == 0x205f
    ||| n == 0x3000
}

/// Whether `c` is a Unicode White_Space character.
pub fn is_whitespace(c: char) -> (r: bool)
    ensures
        r == is_white_space(c),
{
    let n: u32 = c as u32;
    (0x09 <= n && n <= 0x0d) || n == 0x20 || n == 0x85 || n == 0xa0 || n == 0x1680 || (0x2000
        <= n && n <= 0x200a) || n == 0x2028 || n == 0x2029 || n == 0x202f || n == 0x205f || n
        == 0x3000
}

/// `s` without its leading white space.
pub open spec fn trim_start(s: Seq<char>) -> Seq<char>
    decreases s.len(),
{
    if s.len() > 0 && is_white_space(s[0]) {
        trim_start(s.drop_first())
    } else {
        s
    }
}

/// `s` without its trailing white space.
pub open spec fn trim_end(s: Seq<char>) -> Seq<char>
    decreases s.len(),
{
    if s.len() > 0 && is_white_space(s.last()) {
        trim_end(s.drop_last())
    } else {
        s
    }
}

/// `s` without leading and trailing white space, as `str::trim` gives it.
pub open spec fn trimmed(s: Seq<char>) -> Seq<char> {
    trim_end(trim_start(s))
}

/// How many white space characters `s` starts with.
proof fn lemma_trim_start(s: Seq<char>) -> (i: int)
    ensures
        0 <= i <= s.len(),
        trim_start(s) == s.skip(i),
        forall|x: int| 0 <= x < i ==> is_white_space(#[trigger] s[x]),
        i < s.len() ==> !is_white_space(s[i]),
    decreases s.len(),
{
    if s.len() > 0 && is_white_space(s[0]) {
        let d = s.drop_first();
        let k = lemma_trim_start(d);
        assert(d.skip(k) =~= s.skip(k + 1));
        assert forall|x: int| 0 <= x < k + 1 implies is_white_space(#[trigger] s[x]) by {
            if x > 0 {
                assert(s[x] == d[x - 1]);
            }
        }
        if k < d.len() {
            assert(s[k + 1] == d[k]);
        }
        k + 1
    } else {
        assert(s.skip(0) =~= s);
        0
    }
}

/// Where the trailing white space of `s` starts.
proof fn lemma_trim_end(s: Seq<char>) -> (j: int)
    ensures
        0 <= j <= s.len(),
        trim_end(s) == s.take(j),
        forall|x: int| j <= x < s.len() ==> is_white_space(#[trigger] s[x]),
        j > 0 ==> !is_white_space(s[j - 1]),
    decreases s.len(),
{
    if s.len() > 0 && is_white_space(s.last()) {
        let d = s.drop_last();
        let k = lemma_trim_end(d);
        assert(d.take(k) =~= s.take(k));
        assert forall|x: int| k <= x < s.len() implies is_white_space(#[trigger] s[x]) by {
            if x < s.len() - 1 {
                assert(s[x] == d[x]);
            }
        }
        if k > 0 {
            assert(s[k - 1] == d[k - 1]);
        }
        k
    } else {
        assert(s.take(s.len() as int) =~= s);
        s.len() as int
    }
}

/// Trimming takes off exactly the white space at both ends: what is left
/// is a stretch of `s` with only white space before and after it, and it
/// neither starts nor ends with white space.
pub proof fn law_trimmed(s: Seq<char>)
    ensures
        exists|i: int, j: int|
            0 <= i <= j <= s.len() && trimmed(s) == s.subrange(i, j) && (forall|x: int|
                0 <= x < i ==> is_white_space(#[trigger] s[x])) && (forall|x: int|
                j <= x < s.len() ==> is_white_space(#[trigger] s[x])) && (i < j
                ==> !is_white_space(s[i]) && !is_white_space(s[j - 1])),
{
    let i = lemma_trim_start(s);
    let t = s.skip(i);
    let k = lemma_trim_end(t);
    let j = i + k;
    assert(t.take(k) =~= s.subrange(i, j));
    assert forall|x: int| j <= x < s.len() implies is_white_space(#[trigger] s[x]) by {
        assert(s[x] == t[x - i]);
    }
    if i < j {
        assert(t[0] == s[i]);
        assert(t[k - 1] == s[j - 1]);
    }
    assert(0 <= i <= j <= s.len() && trimmed(s) == s.subrange(i, j) && (forall|x: int|
        0 <= x < i ==> is_white_space(#[trigger] s[x])) && (forall|x: int|
        j <= x < s.len() ==> is_white_space(#[trigger] s[x])) && (i < j ==> !is_white_space(s[i])
        && !is_white_space(s[j - 1])));
}

/// The characters that trimming takes off: tab, line feed, vertical tab,
/// form feed and carriage return, space, next line, no-break space, and the
/// other Unicode spaces and separators.
pub proof fn law_white_space(c: char)
    ensures
        is_white_space(c) <==> (c == '\t' || c == '\n' || c == '\u{b}' || c == '\u{c}' || c
            == '\r' || c == ' ' || c == '\u{85}' || c == '\u{a0}' || c == '\u{1680}' || ('\u{2000}'
            as u32 <= c as u32 && c as u32 <= '\u{200a}' as u32) || c == '\u{2028}' || c
            == '\u{2029}' || c == '\u{202f}' || c == '\u{205f}' || c == '\u{3000}'),
{
}

/// The bounds of the trimmed part of `chars[lo..hi]`.
pub fn trim_bounds(chars: &Vec<char>, lo: usize, hi: usize) -> (r: (usize, usize))
    requires
        lo <= hi <= chars.len(),
    ensures
        lo <= r.0 <= r.1 <= hi,
        chars@.subrange(r.0 as int, r.1 as int) == trimmed(chars@.subrange(lo as int, hi as int)),
{
    let mut a: usize = lo;
    while a < hi && is_whitespace(chars[a])
        invariant
            lo <= a <= hi <= chars.len(),
            trim_start(chars@.subrange(lo as int, hi as int)) == trim_start(
                chars@.subrange(a as int, hi as int),
            ),
        decreases hi - a,
    {
        assert(chars@.subrange(a as int, hi as int).drop_first() =~= chars@.subrange(
            a + 1,
            hi as int,
        ));
        a = a + 1;
    }
    assert(trim_start(chars@.subrange(a as int, hi as int)) == chars@.subrange(a as int, hi as int));
    let mut b: usize = hi;
    while b > a && is_whitespace(chars[b - 1])
        invariant
            lo <= a <= b <= hi <= chars.len(),
            trim_end(chars@.subrange(a as int, hi as int)) == trim_end(
                chars@.subrange(a as int, b as int),
            ),
        decreases b - a,
    {
        assert(chars@.subrange(a as int, b as int).drop_last() =~= chars@.subrange(
            a as int,
            b - 1,
        ));
        b = b - 1;
    }
    assert(trim_end(chars@.subrange(a as int, b as int)) == chars@.subrange(a as int, b as int));
    (a, b)
}

/// `s` without leading and trailing white space, as `str::trim` gives it.
pub fn trim(s: &str) -> (r: &str)
    ensures
        r@ == trimmed(s@),
{
    let chars = chars_of(s);
    let (a, b): (usize, usize) = trim_bounds(&chars, 0, chars.len());
    assert(chars@.subrange(0, chars@.len() as int) =~= s@);
    s.substring_char(a, b)
}


/// The position of the first `c` in `s`, if there is one.
pub open spec fn find_char(s: Seq<char>, c: char) -> Option<int>
    decreases s.len(),
{
    if s.len() == 0 {
        None
    } else if s[0] == c {
        Some(0)
    } else {
        match find_char(s.drop_first(), c) {
            Some(i) => Some(i + 1),
            None => None,
        }
    }
}

/// `find_char` gives the first position that holds `c`, and `None` only where
/// `c` does not occur.
pub proof fn lemma_find_char(s: Seq<char>, c: char)
    ensures
        match find_char(s, c) {
            Some(i) => 0 <= i < s.len() && s[i] == c && forall|j: int| 0 <= j < i ==> s[j] != c,
            None => forall|j: int| 0 <= j < s.len() ==> s[j] != c,
        },
    decreases s.len(),
{
    if s.len() > 0 && s[0] != c {
        lemma_find_char(s.drop_first(), c);
        assert forall|j: int| 1 <= j < s.len() implies s[j] == s.drop_first()[j - 1] by {}
    }
}

/// A position `k` with no `c` before it, that holds `c` or ends `s`, is what
/// `find_char` gives.
pub proof fn lemma_find_char_at(s: Seq<char>, c: char, k: int)
    requires
        0 <= k <= s.len(),
        forall|j: int| 0 <= j < k ==> s[j] != c,
        k == s.len() || s[k] == c,
    ensures
        find_char(s, c) == (if k == s.len() {
            None::<int>
        } else {
            Some(k)
        }),
{
    lemma_find_char(s, c);
    match find_char(s, c) {
        Some(i) => {
            if i < k {
            } else if k < i {
                assert(s[k] == c);
            }
        },
        None => {
            if k < s.len() {
                assert(s[k] == c);
            }
        },
    }
}

/// The pieces of `s` between the occurrences of `c`, as `str::split` gives
/// them with a character pattern.
pub open spec fn split_on(s: Seq<char>, c: char) -> Seq<Seq<char>>
    decreases s.len(),
{
    match find_char(s, c) {
        Some(i) => {
            proof {
                lemma_find_char(s, c);
            }
            seq![s.take(i)] + split_on(s.skip(i + 1), c)
        },
        None => seq![s],
    }
}

/// The pieces joined, with `c` between each two, as `[_]::join` gives them.
pub open spec fn join_with(parts: Seq<Seq<char>>, c: char) -> Seq<char>
    decreases parts.len(),
{
    if parts.len() == 0 {
        Seq::empty()
    } else if parts.len() == 1 {
        parts[0]
    } else {
        parts[0] + seq![c] + join_with(parts.drop_first(), c)
    }
}

/// Splitting at `c` cuts `s` into pieces that hold no `c` and that, joined
/// again with `c`, give back `s`.
pub proof fn law_split_on(s: Seq<char>, c: char)
    ensures
        split_on(s, c).len() >= 1,
        join_with(split_on(s, c), c) == s,
        forall|k: int| 0 <= k < split_on(s, c).len() ==> !(#[trigger] split_on(s, c)[k]).contains(c),
    decreases s.len(),
{
    lemma_find_char(s, c);
    match find_char(s, c) {
        Some(i) => {
            let rest = s.skip(i + 1);
            law_split_on(rest, c);
            let parts = split_on(s, c);
            assert(parts == seq![s.take(i)] + split_on(rest, c));
            assert(parts.drop_first() =~= split_on(rest, c));
            assert(parts[0] == s.take(i));
            assert(join_with(parts, c) == s.take(i) + seq![c] + join_with(split_on(rest, c), c));
            assert(s.take(i) + seq![c] + rest =~= s);
            assert forall|k: int| 0 <= k < parts.len() implies !(#[trigger] parts[k]).contains(c) by {
                if k == 0 {
                    if s.take(i).contains(c) {
                        let x: int = choose|x: int| 0 <= x < s.take(i).len() && s.take(i)[x] == c;
                        assert(s[x] == c);
                    }
                } else {
                    assert(parts[k] == split_on(rest, c)[k - 1]);
                }
            }
        },
        None => {
            assert(split_on(s, c) == seq![s]);
            assert(split_on(s, c)[0] == s);
            if s.contains(c) {
                let x: int = choose|x: int| 0 <= x < s.len() && s[x] == c;
                assert(s[x] == c);
            }
        },
    }
}

/// The position of the first `c` in `chars[lo..hi]`.
pub fn find_char_in(chars: &Vec<char>, c: char, lo: usize, hi: usize) -> (r: Option<usize>)
    requires
        lo <= hi <= chars.len(),
    ensures
        match r {
            Some(k) => lo <= k < hi && find_char(chars@.subrange(lo as int, hi as int), c) == Some(
                k - lo,
            ),
            None => find_char(chars@.subrange(lo as int, hi as int), c) == None::<int>,
        },
{
    let mut k: usize = lo;
    while k < hi
        invariant
            lo <= k <= hi <= chars.len(),
            forall|j: int| lo <= j < k ==> chars@[j] != c,
        decreases hi - k,
    {
        if chars[k] == c {
            proof {
                lemma_find_char_at(chars@.subrange(lo as int, hi as int), c, k - lo);
            }
            return Some(k);
        }
        k = k + 1;
    }
    proof {
        lemma_find_char_at(chars@.subrange(lo as int, hi as int), c, hi - lo);
    }
    None
}

/// `s` with every match of `pat` replaced by `to`, matches taken from the
/// left and not overlapping, as `str::replace` gives it (for a `pat` that is
/// not empty).
pub open spec fn replaced(s: Seq<char>, pat: Seq<char>, to: Seq<char>) -> Seq<char>
    decreases s.len(),
{
    if pat.len() == 0 || s.len() == 0 {
        s
    } else if s.len() >= pat.len() && s.take(pat.len() as int) == pat {
        to + replaced(s.skip(pat.len() as int), pat, to)
    } else {
        seq![s[0]] + replaced(s.drop_first(), pat, to)
    }
}

/// Whether `pat` occurs in `chars` at position `i`.
fn matches_at(chars: &Vec<char>, pat: &Vec<char>, i: usize) -> (r: bool)
    requires
        i <= chars.len(),
    ensures
        r == (chars@.len() - i >= pat@.len() && chars@.subrange(
            i as int,
            i + pat@.len(),
        ) == pat@),
{
    if chars.len() - i < pat.len() {
        return false;
    }
    let mut k: usize = 0;
    while k < pat.len()
        invariant
            k <= pat.len(),
            i + pat.len() <= chars.len(),
            forall|j: int| 0 <= j < k ==> chars@[i + j] == pat@[j],
        decreases pat.len() - k,
    {
        if chars[i + k] != pat[k] {
            assert(chars@.subrange(i as int, i + pat@.len())[k as int] != pat@[k as int]);
            return false;
        }
        k = k + 1;
    }
    assert(chars@.subrange(i as int, i + pat@.len()) =~= pat@);
    true
}

/// `s` with every match of `pat` replaced by `to`, as `str::replace` does.
pub fn replace_all(s: &str, pat: &str, to: &str) -> (r: String)
    requires
        pat@.len() > 0,
    ensures
        r@ == replaced(s@, pat@, to@),
{
    let chars = chars_of(s);
    let pat_chars = chars_of(pat);
    let n: usize = chars.len();
    let m: usize = pat_chars.len();
    let mut r = String::new();
    let mut last: usize = 0;
    let mut i: usize = 0;
    assert(s@.skip(0) =~= s@);
    assert(s@.subrange(0, 0) =~= Seq::<char>::empty());
    while i < n
        invariant
            last <= i <= n == chars@.len(),
            chars@ == s@,
            pat_chars@ == pat@,
            m == pat@.len() > 0,
            replaced(s@, pat@, to@) == r@ + s@.subrange(last as int, i as int) + replaced(
                s@.skip(i as int),
                pat@,
                to@,
            ),
        decreases n - i,
    {
        let ghost rest = s@.skip(i as int);
        if matches_at(&chars, &pat_chars, i) {
            assert(rest.take(m as int) =~= s@.subrange(i as int, i + m));
            assert(rest.skip(m as int) =~= s@.skip(i + m));
            let ghost r0 = r@;
            let head = s.substring_char(last, i);
            r.append(head);
            r.append(to);
            let ghost after = replaced(s@.skip(i + m), pat@, to@);
            assert(replaced(rest, pat@, to@) == to@ + after);
            assert(r0 + s@.subrange(last as int, i as int) + (to@ + after) =~= r@ + s@.subrange(
                i + m,
                i + m,
            ) + after);
            last = i + m;
            i = i + m;
        } else {
            assert(rest.drop_first() =~= s@.skip(i + 1));
            assert(rest[0] == s@[i as int]);
            assert(rest.len() >= pat@.len() ==> rest.take(m as int) =~= s@.subrange(
                i as int,
                i + m,
            ));
            let ghost after = replaced(s@.skip(i + 1), pat@, to@);
            assert(replaced(rest, pat@, to@) == seq![s@[i as int]] + after);
            assert(r@ + s@.subrange(last as int, i as int) + (seq![s@[i as int]] + after) =~= r@
                + s@.subrange(last as int, i + 1) + after);
            i = i + 1;
        }
    }
    let tail = s.substring_char(last, n);
    r.append(tail);
    assert(s@.skip(n as int) =~= Seq::<char>::empty());
    r
}

/// Characters before the first possible match of `pat` pass through
/// `replaced` unchanged.
pub proof fn lemma_replaced_skip(s: Seq<char>, pat: Seq<char>, to: Seq<char>, k: int)
    requires
        pat.len() > 0,
        0 <= k <= s.len(),
        forall|i: int| 0 <= i < k ==> s[i] != pat[0],
    ensures
        replaced(s, pat, to) == s.take(k) + replaced(s.skip(k), pat, to),
    decreases k,
{
    if k == 0 {
        assert(s.skip(0) =~= s);
        assert(s.take(0) + replaced(s, pat, to) =~= replaced(s, pat, to));
    } else {
        let d = s.drop_first();
        if s.len() >= pat.len() {
            assert(s.take(pat.len() as int)[0] != pat[0]);
        }
        assert forall|i: int| 0 <= i < k - 1 implies d[i] != pat[0] by {
            assert(d[i] == s[i + 1]);
        }
        lemma_replaced_skip(d, pat, to, k - 1);
        assert(d.skip(k - 1) =~= s.skip(k));
        assert(seq![s[0]] + (d.take(k - 1) + replaced(s.skip(k), pat, to)) =~= s.take(k)
            + replaced(s.skip(k), pat, to));
    }
}

/// A match of `pat` at the start of `s` becomes `to`.
pub proof fn lemma_replaced_match(s: Seq<char>, pat: Seq<char>, to: Seq<char>)
    requires
        pat.len() > 0,
        s.len() >= pat.len(),
        s.take(pat.len() as int) == pat,
    ensures
        replaced(s, pat, to) == to + replaced(s.skip(pat.len() as int), pat, to),
{
}

/// Where the first character of `pat` does not occur, `replaced` changes
/// nothing.
pub proof fn lemma_replaced_absent(s: Seq<char>, pat: Seq<char>, to: Seq<char>)
    requires
        pat.len() > 0,
        forall|i: int| 0 <= i < s.len() ==> s[i] != pat[0],
    ensures
        replaced(s, pat, to) == s,
{
    lemma_replaced_skip(s, pat, to, s.len() as int);
    assert(s.skip(s.len() as int) =~= Seq::<char>::empty());
    assert(s.take(s.len() as int) =~= s);
    assert(s + Seq::<char>::empty() =~= s);
}

} // verus!
