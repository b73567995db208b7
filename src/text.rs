//! Character-level helpers on strings: whitespace trimming, searching for a
//! character and splitting on it.
use vstd::prelude::*;

verus! {

/// The Unicode `White_Space` characters, the set that `char::is_whitespace` tests.
pub open spec fn is_ws(c: char) -> bool {
    let u = c as u32;
    (0x09 <= u && u <= 0x0d) || u == 0x20 || u == 0x85 || u == 0xa0 || u == 0x1680
        || (0x2000 <= u && u <= 0x200a) || u == 0x2028 || u == 0x2029 || u == 0x202f
        || u == 0x205f || u == 0x3000
}

/// Number of whitespace characters at the start of `s`.
pub open spec fn lead_ws(s: Seq<char>) -> nat
    decreases s.len(),
{
    if s.len() > 0 && is_ws(s[0]) {
        1 + lead_ws(s.drop_first())
    } else {
        0
    }
}

/// Number of whitespace characters at the end of `s`.
pub open spec fn trail_ws(s: Seq<char>) -> nat
    decreases s.len(),
{
    if s.len() > 0 && is_ws(s.last()) {
        1 + trail_ws(s.drop_last())
    } else {
        0
    }
}

/// `s` without its leading whitespace.
pub open spec fn trim_start(s: Seq<char>) -> Seq<char> {
    s.subrange(lead_ws(s) as int, s.len() as int)
}

/// `s` without its trailing whitespace.
pub open spec fn trim_end(s: Seq<char>) -> Seq<char> {
    s.subrange(0, s.len() - trail_ws(s))
}

/// `s` without leading and trailing whitespace.
pub open spec fn trim(s: Seq<char>) -> Seq<char> {
    trim_end(trim_start(s))
}

/// `i` is the position of the first occurrence of `c` in `s`.
pub open spec fn is_first(s: Seq<char>, c: char, i: int) -> bool {
    0 <= i < s.len() && s[i] == c && forall|j: int| 0 <= j < i ==> s[j] != c
}

/// Position of the first occurrence of `c` in `s`, if any.
pub open spec fn first_index(s: Seq<char>, c: char) -> Option<int> {
    if exists|i: int| is_first(s, c, i) {
        Some(choose|i: int| is_first(s, c, i))
    } else {
        None
    }
}

/// The pieces of `s` between occurrences of `c`; there is always at least one.
pub open spec fn split_on(s: Seq<char>, c: char) -> Seq<Seq<char>>
    decreases s.len(),
{
    match first_index(s, c) {
        Some(i) => {
            if 0 <= i < s.len() {
                seq![s.subrange(0, i)] + split_on(s.subrange(i + 1, s.len() as int), c)
            } else {
                seq![s]
            }
        },
        None => seq![s],
    }
}

/// The first occurrence of a character is unique.
pub proof fn lemma_first_index(s: Seq<char>, c: char, i: int)
    requires
        is_first(s, c, i),
    ensures
        first_index(s, c) == Some(i),
{
    let k = choose|k: int| is_first(s, c, k);
    assert(is_first(s, c, k));
    if k < i {
        assert(s[k] != c);
    } else if i < k {
        assert(s[i] != c);
    }
}

/// A sequence that does not hold `c` has no first occurrence of it.
pub proof fn lemma_no_index(s: Seq<char>, c: char)
    requires
        forall|j: int| 0 <= j < s.len() ==> s[j] != c,
    ensures
        first_index(s, c) == None::<int>,
{
    if exists|i: int| is_first(s, c, i) {
        let k = choose|k: int| is_first(s, c, k);
        assert(s[k] == c);
    }
}

/// Whether `c` is a whitespace character.
pub fn is_ws_char(c: char) -> (r: bool)
    ensures
        r == is_ws(c),
{
    let u = c as u32;
    (0x09 <= u && u <= 0x0d) || u == 0x20 || u == 0x85 || u == 0xa0 || u == 0x1680 || (0x2000
        <= u && u <= 0x200a) || u == 0x2028 || u == 0x2029 || u == 0x202f || u == 0x205f || u
        == 0x3000
}

/// `lead_ws` is the length of the longest all-whitespace prefix.
pub proof fn lemma_lead_ws(s: Seq<char>, i: int)
    requires
        0 <= i <= s.len(),
        forall|j: int| 0 <= j < i ==> is_ws(s[j]),
        i == s.len() || !is_ws(s[i]),
    ensures
        lead_ws(s) == i,
    decreases i,
{
    if i > 0 {
        let t = s.drop_first();
        assert forall|j: int| 0 <= j < i - 1 implies is_ws(t[j]) by {
            assert(t[j] == s[j + 1]);
        }
        if i - 1 < t.len() {
            assert(t[i - 1] == s[i]);
        }
        lemma_lead_ws(t, i - 1);
    }
}

/// `trail_ws` is the length of the longest all-whitespace suffix.
pub proof fn lemma_trail_ws(s: Seq<char>, k: int)
    requires
        0 <= k <= s.len(),
        forall|j: int| s.len() - k <= j < s.len() ==> is_ws(s[j]),
        k == s.len() || !is_ws(s[s.len() - k - 1]),
    ensures
        trail_ws(s) == k,
    decreases k,
{
    if k > 0 {
        let t = s.drop_last();
        assert forall|j: int| t.len() - (k - 1) <= j < t.len() implies is_ws(t[j]) by {
            assert(t[j] == s[j]);
        }
        if k - 1 < t.len() {
            assert(t[t.len() - (k - 1) - 1] == s[s.len() - k - 1]);
        }
        lemma_trail_ws(t, k - 1);
    }
}

/// `s` with leading and trailing whitespace removed, as `str::trim` does.
pub fn trim_str(s: &str) -> (r: &str)
    ensures
        r@ == trim(s@),
{
    let n = s.unicode_len();
    let mut a: usize = 0;
    while a < n && is_ws_char(s.get_char(a))
        invariant
            n == s@.len(),
            a <= n,
            forall|j: int| 0 <= j < a ==> is_ws(s@[j]),
        decreases n - a,
    {
        a = a + 1;
    }
    proof {
        lemma_lead_ws(s@, a as int);
    }
    let mut b: usize = n;
    while b > a && is_ws_char(s.get_char(b - 1))
        invariant
            n == s@.len(),
            a <= b <= n,
            forall|j: int| b <= j < n ==> is_ws(s@[j]),
        decreases b,
    {
        b = b - 1;
    }
    proof {
        let t = trim_start(s@);
        assert forall|j: int| t.len() - (n - b) <= j < t.len() implies is_ws(t[j]) by {
            assert(t[j] == s@[j + a]);
        }
        if n - b < t.len() {
            assert(t[t.len() - (n - b) - 1] == s@[b - 1]);
        }
        lemma_trail_ws(t, n - b);
        assert(trim(s@) =~= s@.subrange(a as int, b as int));
    }
    s.substring_char(a, b)
}

/// Position of the first `c` in `s`, as `str::find` with a `char` pattern
/// gives it, counted in characters.
pub fn find_char(s: &str, c: char) -> (r: Option<usize>)
    ensures
        r matches Some(i) ==> first_index(s@, c) == Some(i as int),
        r is None ==> first_index(s@, c) == None::<int>,
{
    let n = s.unicode_len();
    let mut i: usize = 0;
    while i < n
        invariant
            n == s@.len(),
            i <= n,
            forall|j: int| 0 <= j < i ==> s@[j] != c,
        decreases n - i,
    {
        if s.get_char(i) == c {
            proof {
                lemma_first_index(s@, c, i as int);
            }
            return Some(i);
        }
        i = i + 1;
    }
    proof {
        lemma_no_index(s@, c);
    }
    None
}

/// The character sequences held by a sequence of strings.
pub open spec fn strings_view(v: Seq<String>) -> Seq<Seq<char>> {
    v.map_values(|x: String| x@)
}

/// Splitting at the first occurrence peels off the piece before it.
proof fn lemma_split_step(s: Seq<char>, c: char, start: int, i: int)
    requires
        0 <= start <= i < s.len(),
        s[i] == c,
        forall|j: int| start <= j < i ==> s[j] != c,
    ensures
        split_on(s.subrange(start, s.len() as int), c) == seq![s.subrange(start, i)] + split_on(
            s.subrange(i + 1, s.len() as int),
            c,
        ),
{
    let t = s.subrange(start, s.len() as int);
    lemma_first_index(t, c, i - start);
    assert(t.subrange(0, i - start) =~= s.subrange(start, i));
    assert(t.subrange(i - start + 1, t.len() as int) =~= s.subrange(i + 1, s.len() as int));
}

/// The pieces of `s` between occurrences of `c`, as `str::split` with a
/// `char` pattern yields them.
pub fn split_str(s: &str, c: char) -> (r: Vec<String>)
    ensures
        strings_view(r@) == split_on(s@, c),
{
    let n = s.unicode_len();
    let mut out: Vec<String> = Vec::new();
    let mut start: usize = 0;
    let mut i: usize = 0;
    proof {
        assert(s@.subrange(0, n as int) =~= s@);
    }
    while i < n
        invariant
            n == s@.len(),
            start <= i <= n,
            forall|j: int| start <= j < i ==> s@[j] != c,
            split_on(s@, c) == strings_view(out@) + split_on(s@.subrange(start as int, n as int), c),
        decreases n - i,
    {
        if s.get_char(i) == c {
            proof {
                lemma_split_step(s@, c, start as int, i as int);
            }
            let piece = s.substring_char(start, i).to_owned();
            let ghost before = out@;
            out.push(piece);
            proof {
                assert(strings_view(out@) =~= strings_view(before) + seq![s@.subrange(start as int, i as int)]);
                assert(split_on(s@, c) =~= strings_view(out@) + split_on(s@.subrange(i + 1, n as int), c));
            }
            start = i + 1;
        }
        i = i + 1;
    }
    let ghost before = out@;
    let last = s.substring_char(start, n).to_owned();
    out.push(last);
    proof {
        let t = s@.subrange(start as int, n as int);
        assert forall|j: int| 0 <= j < t.len() implies t[j] != c by {
            assert(t[j] == s@[start + j]);
        }
        lemma_no_index(t, c);
        assert(strings_view(out@) =~= strings_view(before) + seq![t]);
    }
    out
}

/// The parts joined with `c` between each two.
pub open spec fn join(parts: Seq<Seq<char>>, c: char) -> Seq<char>
    decreases parts.len(),
{
    if parts.len() == 0 {
        seq![]
    } else if parts.len() == 1 {
        parts[0]
    } else {
        parts[0] + seq![c] + join(parts.drop_first(), c)
    }
}

/// A character that no part holds, other than the separator, is not in the join.
pub proof fn lemma_join_lacks(parts: Seq<Seq<char>>, c: char, d: char)
    requires
        d != c,
        forall|k: int, m: int| 0 <= k < parts.len() && 0 <= m < parts[k].len() ==> parts[k][m] != d,
    ensures
        forall|j: int| 0 <= j < join(parts, c).len() ==> join(parts, c)[j] != d,
    decreases parts.len(),
{
    if parts.len() > 1 {
        let rest = parts.drop_first();
        assert forall|k: int, m: int| 0 <= k < rest.len() && 0 <= m < rest[k].len() implies rest[k][m] != d by {
            assert(rest[k] == parts[k + 1]);
        }
        lemma_join_lacks(rest, c, d);
        let s = join(parts, c);
        assert forall|j: int| 0 <= j < s.len() implies s[j] != d by {
            if j < parts[0].len() {
                assert(s[j] == parts[0][j]);
            } else if j > parts[0].len() {
                assert(s[j] == join(rest, c)[j - parts[0].len() - 1]);
            }
        }
    } else if parts.len() == 1 {
        assert forall|j: int| 0 <= j < join(parts, c).len() implies join(parts, c)[j] != d by {
            assert(join(parts, c)[j] == parts[0][j]);
        }
    }
}

/// Splitting a join of parts free of the separator gives the parts back.
pub proof fn lemma_split_join(parts: Seq<Seq<char>>, c: char)
    requires
        parts.len() >= 1,
        forall|k: int, m: int| 0 <= k < parts.len() && 0 <= m < parts[k].len() ==> parts[k][m] != c,
    ensures
        split_on(join(parts, c), c) == parts,
    decreases parts.len(),
{
    let s = join(parts, c);
    if parts.len() == 1 {
        assert forall|j: int| 0 <= j < s.len() implies s[j] != c by {
            assert(s[j] == parts[0][j]);
        }
        lemma_no_index(s, c);
        assert(seq![s] =~= parts);
    } else {
        let rest = parts.drop_first();
        let i = parts[0].len() as int;
        assert forall|k: int, m: int| 0 <= k < rest.len() && 0 <= m < rest[k].len() implies rest[k][m] != c by {
            assert(rest[k] == parts[k + 1]);
        }
        lemma_split_join(rest, c);
        assert forall|j: int| 0 <= j < i implies s[j] != c by {
            assert(s[j] == parts[0][j]);
        }
        assert(s[i] == c);
        lemma_first_index(s, c, i);
        assert(s.subrange(0, i) =~= parts[0]);
        assert(s.subrange(i + 1, s.len() as int) =~= join(rest, c));
        assert(seq![parts[0]] + rest =~= parts);
    }
}

/// Whitespace counts never exceed the length.
pub proof fn lemma_ws_bounds(s: Seq<char>)
    ensures
        lead_ws(s) <= s.len(),
        trail_ws(s) <= s.len(),
    decreases s.len(),
{
    if s.len() > 0 {
        lemma_ws_bounds(s.drop_first());
        lemma_ws_bounds(s.drop_last());
    }
}

} // verus!
