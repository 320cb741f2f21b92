//! Text primitives: searching, splitting, trimming, number formats.
//!
//! Specifications speak of `Seq<char>`, the characters of a string.

use vstd::prelude::*;
use vstd::slice::slice_subrange;

verus! {

// ── Conversions ─────────────────────────────────────────────────────────────

/// `String::push` appends one character.
pub assume_specification[ String::push ](s: &mut String, c: char)
    ensures
        final(s)@ == old(s)@.push(c),
;

/// The characters of a string.
pub fn chars_of(s: &str) -> (r: Vec<char>)
    ensures
        r@ == s@,
{
    let mut out: Vec<char> = Vec::new();
    for c in it: s.chars()
        invariant
            out@ == s@.take(it.index()),
            it.seq() == s@,
    {
        out.push(c);
        assert(s@.take(it.index() + 1) =~= s@.take(it.index()).push(c));
    }
    assert(s@.take(s@.len() as int) =~= s@);
    out
}

/// The string made of the given characters.
pub fn string_of(v: &[char]) -> (r: String)
    ensures
        r@ == v@,
{
    let mut out = String::new();
    for i in 0..v.len()
        invariant
            out@ == v@.take(i as int),
    {
        out.push(v[i]);
        assert(v@.take(i + 1) =~= v@.take(i as int).push(v@[i as int]));
    }
    assert(v@.take(v@.len() as int) =~= v@);
    out
}

/// A copy of a character slice.
pub fn copy_chars(v: &[char]) -> (r: Vec<char>)
    ensures
        r@ == v@,
{
    let mut out: Vec<char> = Vec::new();
    for i in 0..v.len()
        invariant
            out@ == v@.take(i as int),
    {
        out.push(v[i]);
        assert(v@.take(i + 1) =~= v@.take(i as int).push(v@[i as int]));
    }
    assert(v@.take(v@.len() as int) =~= v@);
    out
}

/// Whether two strings hold the same characters.
pub fn same_text(a: &str, b: &str) -> (r: bool)
    ensures
        r == (a@ == b@),
{
    let x = a.to_owned();
    let y = b.to_owned();
    x == y
}

/// Two texts one after the other.
pub fn cat(a: &str, b: &str) -> (r: String)
    ensures
        r@ == a@ + b@,
{
    a.to_owned().concat(b)
}

/// Three texts one after the other.
pub fn cat3(a: &str, b: &str, c: &str) -> (r: String)
    ensures
        r@ == a@ + b@ + c@,
{
    a.to_owned().concat(b).concat(c)
}

/// The character sequences of a list of strings.
pub open spec fn texts(v: Seq<String>) -> Seq<Seq<char>> {
    v.map_values(|s: String| s@)
}

/// The character sequences of a list of character vectors.
pub open spec fn char_views(v: Seq<Vec<char>>) -> Seq<Seq<char>> {
    v.map_values(|s: Vec<char>| s@)
}

// ── Whitespace and trimming ─────────────────────────────────────────────────

/// The characters with the Unicode property `White_Space`.
pub open spec fn is_space(c: char) -> bool {
    ||| 0x9 <= c as u32 <= 0xD
    ||| c as u32 == 0x20
    ||| c as u32 == 0x85
    ||| c as u32 == 0xA0
    ||| c as u32 == 0x1680
    ||| 0x2000 <= c as u32 <= 0x200A
    ||| c as u32 == 0x2028
    ||| c as u32 == 0x2029
    ||| c as u32 == 0x202F
    ||| c as u32 == 0x205F
    ||| c as u32 == 0x3000
}

/// Tells whether `c` is whitespace.
pub fn is_whitespace(c: char) -> (r: bool)
    ensures
        r == is_space(c),
{
    let n: u32 = c as u32;
    (0x9 <= n && n <= 0xD) || n == 0x20 || n == 0x85 || n == 0xA0 || n == 0x1680 || (0x2000 <= n
        && n <= 0x200A) || n == 0x2028 || n == 0x2029 || n == 0x202F || n == 0x205F || n == 0x3000
}

/// `s` without its leading whitespace.
pub open spec fn trim_start(s: Seq<char>) -> Seq<char>
    decreases s.len(),
{
    if s.len() > 0 && is_space(s[0]) {
        trim_start(s.drop_first())
    } else {
        s
    }
}

/// `s` without its trailing whitespace.
pub open spec fn trim_end(s: Seq<char>) -> Seq<char>
    decreases s.len(),
{
    if s.len() > 0 && is_space(s.last()) {
        trim_end(s.drop_last())
    } else {
        s
    }
}

/// `s` without leading and trailing whitespace.
pub open spec fn trim(s: Seq<char>) -> Seq<char> {
    trim_end(trim_start(s))
}

/// Cuts whitespace off both ends of a slice.
pub fn trimmed(s: &[char]) -> (r: &[char])
    ensures
        r@ == trim(s@),
{
    let n: usize = s.len();
    let mut a: usize = 0;
    assert(s@.skip(0) =~= s@);
    while a < n && is_whitespace(s[a])
        invariant
            a <= n,
            n == s@.len(),
            trim_start(s@) == trim_start(s@.skip(a as int)),
        decreases n - a,
    {
        assert(s@.skip(a as int).drop_first() =~= s@.skip(a + 1));
        a += 1;
    }
    assert(trim_start(s@) == s@.skip(a as int));
    let mut b: usize = n;
    assert(s@.subrange(a as int, b as int) =~= s@.skip(a as int));
    while b > a && is_whitespace(s[b - 1])
        invariant
            a <= b <= n,
            n == s@.len(),
            trim_start(s@) == s@.skip(a as int),
            trim_end(s@.skip(a as int)) == trim_end(s@.subrange(a as int, b as int)),
        decreases b,
    {
        assert(s@.subrange(a as int, b as int).drop_last() =~= s@.subrange(a as int, b - 1));
        b -= 1;
    }
    slice_subrange(s, a, b)
}

/// Trims a string.
pub fn trim_str(s: &str) -> (r: String)
    ensures
        r@ == trim(s@),
{
    let v = chars_of(s);
    string_of(trimmed(v.as_slice()))
}

// ── Searching ───────────────────────────────────────────────────────────────

/// `pat` stands in `s` at position `i`.
pub open spec fn occurs_at<T>(s: Seq<T>, pat: Seq<T>, i: int) -> bool {
    0 <= i && i + pat.len() <= s.len() && s.subrange(i, i + pat.len()) == pat
}

/// The first position at or after `i` where `pat` stands in `s`.
pub open spec fn find_from<T>(s: Seq<T>, pat: Seq<T>, i: int) -> Option<int>
    decreases s.len() - i + 1,
{
    if i < 0 || i + pat.len() > s.len() {
        None
    } else if occurs_at(s, pat, i) {
        Some(i)
    } else {
        find_from(s, pat, i + 1)
    }
}

/// The first position where `pat` stands in `s`.
pub open spec fn find<T>(s: Seq<T>, pat: Seq<T>) -> Option<int> {
    find_from(s, pat, 0)
}

/// What a search finds is an occurrence, and there is none before it.
pub proof fn lemma_find_from<T>(s: Seq<T>, pat: Seq<T>, i: int)
    requires
        0 <= i,
    ensures
        find_from(s, pat, i) matches Some(p) ==> occurs_at(s, pat, p) && i <= p && (forall|j: int|
            i <= j < p ==> !occurs_at(s, pat, j)),
        find_from(s, pat, i) is None ==> forall|j: int| i <= j ==> !occurs_at(s, pat, j),
    decreases s.len() - i + 1,
{
    if i + pat.len() <= s.len() && !occurs_at(s, pat, i) {
        lemma_find_from(s, pat, i + 1);
    }
}

/// The first occurrence is the only position with none before it.
pub proof fn lemma_find_is<T>(s: Seq<T>, pat: Seq<T>, p: int)
    requires
        occurs_at(s, pat, p),
        forall|j: int| 0 <= j < p ==> !occurs_at(s, pat, j),
    ensures
        find(s, pat) == Some(p),
{
    lemma_find_from(s, pat, 0);
}

/// `s` begins with `prefix`.
pub open spec fn starts_with<T>(s: Seq<T>, prefix: Seq<T>) -> bool {
    occurs_at(s, prefix, 0)
}

/// `s` ends with `suffix`.
pub open spec fn ends_with<T>(s: Seq<T>, suffix: Seq<T>) -> bool {
    occurs_at(s, suffix, s.len() - suffix.len())
}

/// `pat` stands somewhere in `s`.
pub open spec fn contains<T>(s: Seq<T>, pat: Seq<T>) -> bool {
    find(s, pat) is Some
}

/// Tells whether `pat` stands in `s` at position `i`.
pub fn chars_at(s: &[char], pat: &[char], i: usize) -> (r: bool)
    ensures
        r == occurs_at(s@, pat@, i as int),
{
    let n: usize = s.len();
    let m: usize = pat.len();
    if m > n || i > n - m {
        return false;
    }
    let mut k: usize = 0;
    while k < m
        invariant
            k <= m,
            m == pat@.len(),
            n == s@.len(),
            i + m <= n,
            forall|j: int| 0 <= j < k ==> s@[i + j] == pat@[j],
        decreases m - k,
    {
        if s[i + k] != pat[k] {
            assert(s@.subrange(i as int, i + m)[k as int] != pat@[k as int]);
            return false;
        }
        k += 1;
    }
    assert(s@.subrange(i as int, i + m) =~= pat@);
    true
}

/// Finds the first occurrence of `pat` in `s`.
pub fn find_chars(s: &[char], pat: &[char]) -> (r: Option<usize>)
    ensures
        r is Some <==> find(s@, pat@) is Some,
        r matches Some(p) ==> find(s@, pat@) == Some(p as int) && p + pat@.len() <= s@.len(),
{
    let n: usize = s.len();
    let m: usize = pat.len();
    if m > n {
        return None;
    }
    let mut i: usize = 0;
    while i <= n - m
        invariant
            i <= n - m + 1,
            m <= n,
            m == pat@.len(),
            n == s@.len(),
            find(s@, pat@) == find_from(s@, pat@, i as int),
        decreases n - m + 1 - i,
    {
        if chars_at(s, pat, i) {
            return Some(i);
        }
        if i == n - m {
            assert(find_from(s@, pat@, i + 1) is None);
            return None;
        }
        i += 1;
    }
    None
}

/// Tells whether `pat` stands in `s` at position `i`.
pub fn bytes_at(s: &[u8], pat: &[u8], i: usize) -> (r: bool)
    ensures
        r == occurs_at(s@, pat@, i as int),
{
    let n: usize = s.len();
    let m: usize = pat.len();
    if m > n || i > n - m {
        return false;
    }
    let mut k: usize = 0;
    while k < m
        invariant
            k <= m,
            m == pat@.len(),
            n == s@.len(),
            i + m <= n,
            forall|j: int| 0 <= j < k ==> s@[i + j] == pat@[j],
        decreases m - k,
    {
        if s[i + k] != pat[k] {
            assert(s@.subrange(i as int, i + m)[k as int] != pat@[k as int]);
            return false;
        }
        k += 1;
    }
    assert(s@.subrange(i as int, i + m) =~= pat@);
    true
}

/// Finds the first occurrence of `needle` in `haystack`.
pub fn find_subslice(haystack: &[u8], needle: &[u8]) -> (r: Option<usize>)
    requires
        needle@.len() > 0,
    ensures
        r is Some <==> find(haystack@, needle@) is Some,
        r matches Some(p) ==> find(haystack@, needle@) == Some(p as int) && p + needle@.len()
            <= haystack@.len(),
{
    let n: usize = haystack.len();
    let m: usize = needle.len();
    if m > n {
        return None;
    }
    let mut i: usize = 0;
    while i <= n - m
        invariant
            i <= n - m + 1,
            0 < m <= n,
            m == needle@.len(),
            n == haystack@.len(),
            find(haystack@, needle@) == find_from(haystack@, needle@, i as int),
        decreases n - m + 1 - i,
    {
        if bytes_at(haystack, needle, i) {
            return Some(i);
        }
        i += 1;
    }
    None
}

// ── Splitting ───────────────────────────────────────────────────────────────

/// The pieces of `s` between the characters equal to `a` or to `b`, in order.
pub open spec fn split_at_either(s: Seq<char>, a: char, b: char) -> Seq<Seq<char>>
    decreases s.len(),
{
    if s.len() == 0 {
        seq![Seq::empty()]
    } else {
        let front = split_at_either(s.drop_last(), a, b);
        if s.last() == a || s.last() == b {
            front.push(Seq::empty())
        } else {
            front.drop_last().push(front.last().push(s.last()))
        }
    }
}

/// The pieces of `s` between the occurrences of the character `sep`.
pub open spec fn split(s: Seq<char>, sep: char) -> Seq<Seq<char>> {
    split_at_either(s, sep, sep)
}

/// There is at least one piece.
pub proof fn lemma_split_nonempty(s: Seq<char>, a: char, b: char)
    ensures
        split_at_either(s, a, b).len() > 0,
    decreases s.len(),
{
    if s.len() > 0 {
        lemma_split_nonempty(s.drop_last(), a, b);
    }
}

/// Splits at every character equal to `a` or to `b`.
pub fn split_either(s: &[char], a: char, b: char) -> (r: Vec<Vec<char>>)
    ensures
        char_views(r@) == split_at_either(s@, a, b),
{
    let mut done: Vec<Vec<char>> = Vec::new();
    let mut cur: Vec<char> = Vec::new();
    assert(char_views(done@).push(cur@) =~= split_at_either(s@.take(0), a, b));
    for i in 0..s.len()
        invariant
            char_views(done@).push(cur@) == split_at_either(s@.take(i as int), a, b),
    {
        let c = s[i];
        let ghost front = split_at_either(s@.take(i as int), a, b);
        proof {
            assert(s@.take(i + 1).drop_last() =~= s@.take(i as int));
            assert(s@.take(i + 1).last() == c);
            assert(front.drop_last() =~= char_views(done@));
        }
        if c == a || c == b {
            done.push(cur);
            cur = Vec::new();
            assert(char_views(done@) =~= front);
        } else {
            cur.push(c);
        }
        assert(char_views(done@).push(cur@) =~= split_at_either(s@.take(i + 1), a, b));
    }
    assert(s@.take(s@.len() as int) =~= s@);
    let ghost before = done@;
    done.push(cur);
    assert(char_views(done@) =~= char_views(before).push(cur@));
    done
}

/// Splits at every occurrence of `sep`.
pub fn split_chars(s: &[char], sep: char) -> (r: Vec<Vec<char>>)
    ensures
        char_views(r@) == split(s@, sep),
{
    split_either(s, sep, sep)
}

/// What stands before and after the first `sep`, if there is one.
pub open spec fn split_once(s: Seq<char>, sep: char) -> Option<(Seq<char>, Seq<char>)> {
    match find(s, seq![sep]) {
        Some(p) => Some((s.take(p), s.skip(p + 1))),
        None => None,
    }
}

/// The position of the first `sep`.
pub fn find_char(s: &[char], sep: char) -> (r: Option<usize>)
    ensures
        r is Some <==> find(s@, seq![sep]) is Some,
        r matches Some(p) ==> find(s@, seq![sep]) == Some(p as int) && p < s@.len() && s@[p as int]
            == sep,
{
    let mut pat: Vec<char> = Vec::new();
    pat.push(sep);
    assert(pat@ =~= seq![sep]);
    let r = find_chars(s, pat.as_slice());
    proof {
        if let Some(p) = r {
            lemma_find_from(s@, seq![sep], 0);
            assert(s@.subrange(p as int, p + 1)[0] == sep);
        }
    }
    r
}

/// A line without its carriage return.
pub open spec fn strip_cr(s: Seq<char>) -> Seq<char> {
    if s.len() > 0 && s.last() == '\r' {
        s.drop_last()
    } else {
        s
    }
}

/// The lines of a text: pieces ended by a line feed, or by a carriage return
/// and a line feed; a last piece without a line feed is a line unless empty.
pub open spec fn lines(s: Seq<char>) -> Seq<Seq<char>> {
    let pieces = split(s, '\n');
    let ended = pieces.drop_last().map_values(|l: Seq<char>| strip_cr(l));
    if pieces.last().len() == 0 {
        ended
    } else {
        ended.push(pieces.last())
    }
}

/// Splits a text into its lines.
pub fn lines_of(s: &[char]) -> (r: Vec<Vec<char>>)
    ensures
        char_views(r@) == lines(s@),
{
    let mut pieces = split_chars(s, '\n');
    let ghost all = char_views(pieces@);
    proof {
        lemma_split_nonempty(s@, '\n', '\n');
    }
    assert(all.len() == pieces@.len());
    let n: usize = pieces.len();
    let mut out: Vec<Vec<char>> = Vec::new();
    for i in 0..n - 1
        invariant
            n == pieces@.len(),
            n > 0,
            all == char_views(pieces@),
            char_views(out@) == all.take(i as int).map_values(|l: Seq<char>| strip_cr(l)),
    {
        let line = &pieces[i];
        let len: usize = line.len();
        let ghost before = out@;
        assert(all[i as int] == pieces@[i as int]@);
        if len > 0 && line[len - 1] == '\r' {
            let cut = slice_subrange(line.as_slice(), 0, len - 1);
            assert(cut@ =~= strip_cr(all[i as int]));
            out.push(copy_chars(cut));
        } else {
            out.push(copy_chars(line.as_slice()));
        }
        assert(char_views(out@) =~= char_views(before).push(strip_cr(all[i as int])));
        assert(all.take(i + 1).map_values(|l: Seq<char>| strip_cr(l)) =~= all.take(
            i as int,
        ).map_values(|l: Seq<char>| strip_cr(l)).push(strip_cr(all[i as int])));
    }
    assert(all.take(n - 1) =~= all.drop_last());
    let last = &pieces[n - 1];
    assert(all.last() == last@);
    if last.len() > 0 {
        let ghost before = out@;
        out.push(copy_chars(last.as_slice()));
        assert(char_views(out@) =~= char_views(before).push(all.last()));
    }
    out
}

/// The pieces of `s` between the occurrences of `pat`, taken from the left.
pub open spec fn split_by<T>(s: Seq<T>, pat: Seq<T>) -> Seq<Seq<T>>
    decreases s.len(),
{
    match find(s, pat) {
        Some(p) => if pat.len() > 0 && 0 <= p && p + pat.len() <= s.len() {
            seq![s.take(p)] + split_by(s.skip(p + pat.len()), pat)
        } else {
            seq![s]
        },
        None => seq![s],
    }
}

/// The pieces, one after the other, with `sep` between them.
pub open spec fn join<T>(parts: Seq<Seq<T>>, sep: Seq<T>) -> Seq<T>
    decreases parts.len(),
{
    if parts.len() == 0 {
        Seq::empty()
    } else if parts.len() == 1 {
        parts[0]
    } else {
        join(parts.drop_last(), sep) + sep + parts.last()
    }
}

/// `join` built from the front.
pub proof fn lemma_join_cons<T>(head: Seq<T>, tail: Seq<Seq<T>>, sep: Seq<T>)
    requires
        tail.len() > 0,
    ensures
        join(seq![head] + tail, sep) == head + sep + join(tail, sep),
    decreases tail.len(),
{
    let all = seq![head] + tail;
    assert(join(seq![head], sep) == head);
    if tail.len() == 1 {
        assert(all.drop_last() =~= seq![head]);
        assert(all.last() == tail[0]);
    } else {
        lemma_join_cons(head, tail.drop_last(), sep);
        assert(all.drop_last() =~= seq![head] + tail.drop_last());
        assert(all.last() == tail.last());
        assert(head + sep + join(tail.drop_last(), sep) + sep + tail.last() =~= head + sep + (join(
            tail.drop_last(),
            sep,
        ) + sep + tail.last()));
    }
}

/// There is at least one piece.
pub proof fn lemma_split_by_nonempty<T>(s: Seq<T>, pat: Seq<T>)
    ensures
        split_by(s, pat).len() > 0,
{
}

/// Splitting and joining again with the same separator gives the text back.
pub proof fn lemma_join_split_by<T>(s: Seq<T>, pat: Seq<T>)
    requires
        pat.len() > 0,
    ensures
        join(split_by(s, pat), pat) == s,
    decreases s.len(),
{
    lemma_find_from(s, pat, 0);
    match find(s, pat) {
        Some(p) => {
            let rest = s.skip(p + pat.len());
            lemma_join_split_by(rest, pat);
            lemma_split_by_nonempty(rest, pat);
            lemma_join_cons(s.take(p), split_by(rest, pat), pat);
            assert(s.take(p) + pat + rest =~= s) by {
                assert(s.subrange(p, p + pat.len()) == pat);
                assert forall|i: int| 0 <= i < s.len() implies #[trigger] (s.take(p) + pat + rest)[i]
                    == s[i] by {
                    if p <= i < p + pat.len() {
                        assert(s.subrange(p, p + pat.len())[i - p] == s[i]);
                    }
                }
            }
        },
        None => {},
    }
}

/// Every occurrence of `pat` in `s`, taken from the left, replaced by `with`.
pub open spec fn replace<T>(s: Seq<T>, pat: Seq<T>, with: Seq<T>) -> Seq<T> {
    join(split_by(s, pat), with)
}

/// A text in which `pat` does not occur is its own replacement.
pub proof fn lemma_replace_absent<T>(s: Seq<T>, pat: Seq<T>, with: Seq<T>)
    requires
        !contains(s, pat),
    ensures
        replace(s, pat, with) == s,
{
    assert(split_by(s, pat) =~= seq![s]);
}

/// A single occurrence is replaced; what stands before and after it stays.
pub proof fn lemma_replace_one(
    before: Seq<char>,
    pat: Seq<char>,
    after: Seq<char>,
    with: Seq<char>,
)
    requires
        pat.len() > 0,
        forall|i: int| 0 <= i < before.len() ==> before[i] != pat[0],
        forall|i: int| 0 <= i < after.len() ==> after[i] != pat[0],
    ensures
        replace(before + pat + after, pat, with) == before + with + after,
{
    let s = before + pat + after;
    let p = before.len() as int;
    let n = pat.len() as int;
    assert(s.subrange(p, p + n) =~= pat);
    assert forall|j: int| 0 <= j < p implies !occurs_at(s, pat, j) by {
        if occurs_at(s, pat, j) {
            assert(s.subrange(j, j + n)[0] == before[j]);
        }
    }
    lemma_find_is(s, pat, p);
    assert(s.take(p) =~= before);
    assert(s.skip(p + n) =~= after);
    lemma_find_from(after, pat, 0);
    if let Some(j) = find(after, pat) {
        assert(after.subrange(j, j + n)[0] == after[j]);
    }
    assert(split_by(after, pat) =~= seq![after]);
    let pieces = seq![before] + seq![after];
    assert(split_by(s, pat) == pieces);
    assert(pieces.drop_last() =~= seq![before]);
    assert(seq![before].drop_last() =~= Seq::<Seq<char>>::empty());
    assert(join(seq![before], with) == before);
    assert(join(pieces, with) == before + with + after);
}

/// Splits at every occurrence of `pat`.
pub fn split_chars_by(s: &[char], pat: &[char]) -> (r: Vec<Vec<char>>)
    requires
        pat@.len() > 0,
    ensures
        char_views(r@) == split_by(s@, pat@),
{
    let mut out: Vec<Vec<char>> = Vec::new();
    let mut at: usize = 0;
    let n: usize = s.len();
    assert(s@.skip(0) =~= s@);
    assert(char_views(out@) + split_by(s@, pat@) =~= split_by(s@, pat@));
    loop
        invariant
            n == s@.len(),
            at <= n,
            pat@.len() > 0,
            char_views(out@) + split_by(s@.skip(at as int), pat@) == split_by(s@, pat@),
        decreases n - at,
    {
        let rest = slice_subrange(s, at, n);
        assert(rest@ =~= s@.skip(at as int));
        let ghost before = out@;
        match find_chars(rest, pat) {
            Some(p) => {
                let piece = slice_subrange(rest, 0, p);
                out.push(copy_chars(piece));
                assert(piece@ =~= rest@.take(p as int));
                assert(rest@.skip(p + pat@.len()) =~= s@.skip(at + p + pat@.len()));
                assert(char_views(out@) + split_by(s@.skip(at + p + pat@.len()), pat@)
                    =~= char_views(before) + (seq![rest@.take(p as int)] + split_by(
                    s@.skip(at + p + pat@.len()),
                    pat@,
                )));
                at = at + p + pat.len();
            },
            None => {
                out.push(copy_chars(rest));
                assert(char_views(out@) =~= char_views(before) + seq![rest@]);
                return out;
            },
        }
    }
}

/// Joins pieces with `sep` between them.
pub fn join_chars(parts: &Vec<Vec<char>>, sep: &[char]) -> (r: Vec<char>)
    ensures
        r@ == join(char_views(parts@), sep@),
{
    let mut out: Vec<char> = Vec::new();
    let ghost all = char_views(parts@);
    for i in 0..parts.len()
        invariant
            all == char_views(parts@),
            out@ == join(all.take(i as int), sep@),
    {
        if i > 0 {
            append_chars(&mut out, sep);
        }
        assert(all[i as int] == parts@[i as int]@);
        append_chars(&mut out, parts[i].as_slice());
        assert(all.take(i + 1).drop_last() =~= all.take(i as int));
        assert(all.take(i + 1).last() == all[i as int]);
        if i == 0 {
            assert(out@ =~= all[0]);
        }
    }
    assert(all.take(all.len() as int) =~= all);
    out
}

/// Appends a slice to a vector.
pub fn append_chars(out: &mut Vec<char>, more: &[char])
    ensures
        final(out)@ == old(out)@ + more@,
{
    let ghost start = out@;
    assert(start + more@.take(0) =~= start);
    for i in 0..more.len()
        invariant
            out@ == start + more@.take(i as int),
    {
        out.push(more[i]);
        assert(start + more@.take(i + 1) =~= (start + more@.take(i as int)).push(more@[i as int]));
    }
    assert(more@.take(more@.len() as int) =~= more@);
}

/// Replaces every occurrence of `pat` by `with`.
pub fn replace_str(s: &str, pat: &str, with: &str) -> (r: String)
    requires
        pat@.len() > 0,
    ensures
        r@ == replace(s@, pat@, with@),
{
    let text = chars_of(s);
    let p = chars_of(pat);
    let w = chars_of(with);
    let parts = split_chars_by(text.as_slice(), p.as_slice());
    let joined = join_chars(&parts, w.as_slice());
    string_of(joined.as_slice())
}

/// Joins strings with `sep` between them.
pub fn join_strings(parts: &Vec<String>, sep: &str) -> (r: String)
    ensures
        r@ == join(texts(parts@), sep@),
{
    let mut out = String::new();
    let ghost all = texts(parts@);
    for i in 0..parts.len()
        invariant
            all == texts(parts@),
            out@ == join(all.take(i as int), sep@),
    {
        if i > 0 {
            out.append(sep);
        }
        assert(all[i as int] == parts@[i as int]@);
        out.append(parts[i].as_str());
        assert(all.take(i + 1).drop_last() =~= all.take(i as int));
        assert(all.take(i + 1).last() == all[i as int]);
        if i == 0 {
            assert(out@ =~= all[0]);
        }
    }
    assert(all.take(all.len() as int) =~= all);
    out
}

// ── Laws ────────────────────────────────────────────────────────────────────

/// Only whitespace stands in it.
pub open spec fn all_space(s: Seq<char>) -> bool {
    forall|i: int| 0 <= i < s.len() ==> is_space(#[trigger] s[i])
}

/// No whitespace stands at its ends.
pub open spec fn tight(s: Seq<char>) -> bool {
    s.len() > 0 ==> !is_space(s[0]) && !is_space(s.last())
}

proof fn lemma_trim_start_padded(pad: Seq<char>, s: Seq<char>)
    requires
        all_space(pad),
        s.len() > 0 ==> !is_space(s[0]),
    ensures
        trim_start(pad + s) == s,
    decreases pad.len(),
{
    let all = pad + s;
    if pad.len() > 0 {
        let rest = pad.drop_first();
        assert(is_space(pad[0]));
        assert(all[0] == pad[0]);
        assert(all.drop_first() =~= rest + s);
        assert(all_space(rest)) by {
            assert forall|i: int| 0 <= i < rest.len() implies is_space(#[trigger] rest[i]) by {
                assert(is_space(pad[i + 1]));
            }
        }
        lemma_trim_start_padded(rest, s);
    } else {
        assert(all =~= s);
    }
}

proof fn lemma_trim_end_padded(s: Seq<char>, pad: Seq<char>)
    requires
        all_space(pad),
        s.len() > 0 ==> !is_space(s.last()),
    ensures
        trim_end(s + pad) == s,
    decreases pad.len(),
{
    let all = s + pad;
    if pad.len() > 0 {
        let rest = pad.drop_last();
        assert(is_space(pad[pad.len() - 1]));
        assert(all.last() == pad[pad.len() - 1]);
        assert(all.drop_last() =~= s + rest);
        assert(all_space(rest)) by {
            assert forall|i: int| 0 <= i < rest.len() implies is_space(#[trigger] rest[i]) by {
                assert(is_space(pad[i]));
            }
        }
        lemma_trim_end_padded(s, rest);
    } else {
        assert(all =~= s);
    }
}

/// Trimming takes the whitespace off both ends, and nothing else.
pub proof fn law_trim(before: Seq<char>, s: Seq<char>, after: Seq<char>)
    requires
        all_space(before),
        all_space(after),
        tight(s),
    ensures
        trim(before + s + after) == s,
{
    if s.len() > 0 {
        assert(before + s + after =~= before + (s + after));
        assert((s + after)[0] == s[0]);
        lemma_trim_start_padded(before, s + after);
        lemma_trim_end_padded(s, after);
    } else {
        let pad = before + s + after;
        assert(all_space(pad)) by {
            assert forall|i: int| 0 <= i < pad.len() implies is_space(#[trigger] pad[i]) by {
                if i < before.len() {
                    assert(pad[i] == before[i]);
                } else {
                    assert(pad[i] == after[i - before.len()]);
                }
            }
        }
        assert(pad + s =~= pad);
        lemma_trim_start_padded(pad, s);
        assert(s =~= Seq::<char>::empty());
    }
}

/// What is left of a text has no whitespace at its ends.
pub proof fn law_trimmed_is_tight(s: Seq<char>)
    ensures
        tight(trim(s)),
{
    lemma_trim_start_tight(s);
    lemma_trim_end_tight(trim_start(s));
}

proof fn lemma_trim_start_tight(s: Seq<char>)
    ensures
        trim_start(s).len() > 0 ==> !is_space(trim_start(s)[0]),
    decreases s.len(),
{
    if s.len() > 0 && is_space(s[0]) {
        lemma_trim_start_tight(s.drop_first());
    }
}

proof fn lemma_trim_end_tight(s: Seq<char>)
    ensures
        trim_end(s).len() > 0 ==> !is_space(trim_end(s).last()) && trim_end(s)[0] == s[0],
    decreases s.len(),
{
    if s.len() > 0 && is_space(s.last()) {
        lemma_trim_end_tight(s.drop_last());
    }
}

/// Splitting once is at the first separator.
pub proof fn law_split_once(before: Seq<char>, sep: char, after: Seq<char>)
    requires
        forall|i: int| 0 <= i < before.len() ==> before[i] != sep,
    ensures
        split_once(before + seq![sep] + after, sep) == Some((before, after)),
        split_once(before, sep) is None,
{
    let s = before + seq![sep] + after;
    let at = before.len() as int;
    assert(s.subrange(at, at + 1) =~= seq![sep]);
    assert forall|j: int| 0 <= j < at implies !occurs_at(s, seq![sep], j) by {
        if occurs_at(s, seq![sep], j) {
            assert(s.subrange(j, j + 1)[0] == before[j]);
        }
    }
    lemma_find_is(s, seq![sep], at);
    assert(s.take(at) =~= before);
    assert(s.skip(at + 1) =~= after);
    lemma_find_from(before, seq![sep], 0);
    if let Some(p) = find(before, seq![sep]) {
        assert(before.subrange(p, p + 1)[0] == before[p]);
    }
}

/// Pieces that hold no separator are what their joint text is split into.
pub proof fn law_split_of_pieces(s: Seq<char>, sep: char, last: Seq<char>)
    requires
        forall|i: int| 0 <= i < last.len() ==> last[i] != sep,
    ensures
        split(s + seq![sep] + last, sep) == split(s, sep).push(last),
        split(last, sep) == seq![last],
    decreases last.len(),
{
    let all = s + seq![sep] + last;
    let pieces = split(s, sep);
    if last.len() == 0 {
        assert(all.drop_last() =~= s);
        assert(last =~= Seq::<char>::empty());
    } else {
        let front = last.drop_last();
        assert(forall|i: int| 0 <= i < front.len() ==> front[i] == last[i]);
        law_split_of_pieces(s, sep, front);
        assert(all.drop_last() =~= s + seq![sep] + front);
        assert(all.last() == last[last.len() - 1]);
        assert(last.last() == last[last.len() - 1]);
        assert(front.push(last.last()) =~= last);
        assert(pieces.push(front).drop_last() =~= pieces);
        assert(seq![front].drop_last().push(last) =~= seq![last]);
    }
}

/// A text ends its lines with a line feed, before which a carriage return does
/// not count; the last line needs none.
pub proof fn law_lines(s: Seq<char>, line: Seq<char>)
    requires
        forall|i: int| 0 <= i < line.len() ==> line[i] != '\n' && line[i] != '\r',
        s.len() == 0 || s.last() == '\n',
    ensures
        lines(s + line + seq!['\n']) == lines(s).push(line),
        lines(s + line + seq!['\r', '\n']) == lines(s).push(line),
        line.len() > 0 ==> lines(s + line) == lines(s).push(line),
        lines(Seq::empty()) == Seq::<Seq<char>>::empty(),
{
    let nothing = Seq::<char>::empty();
    let ended = |l: Seq<char>| strip_cr(l);
    lemma_split_nonempty(s, '\n', '\n');
    // What is split so far ends in an empty piece.
    let head = split(s, '\n').drop_last();
    assert(split(s, '\n') == head.push(nothing)) by {
        if s.len() > 0 {
            law_split_of_pieces(s.drop_last(), '\n', nothing);
            assert(s.drop_last() + seq!['\n'] + nothing =~= s);
            assert(head =~= split(s.drop_last(), '\n'));
        } else {
            assert(split(s, '\n') =~= seq![nothing]);
            assert(head =~= Seq::<Seq<char>>::empty());
            assert(head.push(nothing) =~= seq![nothing]);
        }
    }
    assert(head.push(nothing).drop_last() =~= head);
    assert(lines(s) == head.map_values(ended));
    lemma_split_appended(s, line, head);
    let a = s + line + seq!['\n'];
    law_split_of_pieces(s + line, '\n', nothing);
    assert(s + line + seq!['\n'] + nothing =~= a);
    let pa = head.push(line).push(nothing);
    assert(split(a, '\n') == pa);
    assert(pa.drop_last() =~= head.push(line));
    assert(strip_cr(line) == line) by {
        if line.len() > 0 {
            assert(line.last() == line[line.len() - 1]);
        }
    }
    assert(head.push(line).map_values(ended) =~= head.map_values(ended).push(line));
    let long = line.push('\r');
    assert(forall|i: int| 0 <= i < long.len() ==> long[i] != '\n');
    lemma_split_appended(s, long, head);
    let b = s + line + seq!['\r', '\n'];
    law_split_of_pieces(s + long, '\n', nothing);
    assert(s + long + seq!['\n'] + nothing =~= b);
    let pb = head.push(long).push(nothing);
    assert(split(b, '\n') == pb);
    assert(pb.drop_last() =~= head.push(long));
    assert(strip_cr(long) =~= line);
    assert(head.push(long).map_values(ended) =~= head.map_values(ended).push(line));
    if line.len() > 0 {
        assert(head.push(line).drop_last() =~= head);
    }
    assert(split(nothing, '\n') =~= seq![nothing]);
    assert(seq![nothing].drop_last().map_values(ended) =~= Seq::<Seq<char>>::empty());
}

/// A piece without a separator goes on with the last piece, if that is empty.
proof fn lemma_split_appended(s: Seq<char>, line: Seq<char>, head: Seq<Seq<char>>)
    requires
        split(s, '\n') == head.push(Seq::empty()),
        forall|i: int| 0 <= i < line.len() ==> line[i] != '\n',
    ensures
        split(s + line, '\n') == head.push(line),
    decreases line.len(),
{
    if line.len() == 0 {
        assert(s + line =~= s);
        assert(line =~= Seq::<char>::empty());
    } else {
        let front = line.drop_last();
        assert(forall|i: int| 0 <= i < front.len() ==> front[i] == line[i]);
        lemma_split_appended(s, front, head);
        assert((s + line).drop_last() =~= s + front);
        assert((s + line).last() == line[line.len() - 1]);
        assert(line.last() == line[line.len() - 1]);
        assert(front.push(line.last()) =~= line);
        assert(head.push(front).drop_last() =~= head);
    }
}

/// Joining puts the separator between the pieces, and nowhere else.
pub proof fn law_join(parts: Seq<Seq<char>>, last: Seq<char>, sep: Seq<char>)
    ensures
        join(Seq::<Seq<char>>::empty(), sep) == Seq::<char>::empty(),
        join(seq![last], sep) == last,
        parts.len() > 0 ==> join(parts.push(last), sep) == join(parts, sep) + sep + last,
{
    if parts.len() > 0 {
        assert(parts.push(last).drop_last() =~= parts);
    }
}

/// What a text begins and ends with.
pub proof fn law_prefix_and_suffix(a: Seq<char>, b: Seq<char>)
    ensures
        starts_with(a + b, a),
        ends_with(a + b, b),
        starts_with(b, a) ==> b == a + b.skip(a.len() as int),
        contains(a + b, b) && contains(a + b, a),
{
    assert((a + b).subrange(0, a.len() as int) =~= a);
    assert((a + b).subrange((a + b).len() - b.len(), (a + b).len() as int) =~= b);
    if starts_with(b, a) {
        assert(b =~= b.subrange(0, a.len() as int) + b.skip(a.len() as int));
    }
    lemma_find_from(a + b, a, 0);
    lemma_find_from(a + b, b, 0);
    assert((a + b).subrange(a.len() as int, (a + b).len() as int) =~= b);
    assert(occurs_at(a + b, b, a.len() as int));
    assert(occurs_at(a + b, a, 0));
}

/// Occurrences are replaced from the left, and what is put in their place is not
/// looked at again. A text without one stays as it is.
pub proof fn law_replacing(before: Seq<char>, pat: Seq<char>, rest: Seq<char>, with: Seq<char>)
    requires
        pat.len() > 0,
    ensures
        find(before + pat + rest, pat) == Some(before.len() as int) ==> replace(
            before + pat + rest,
            pat,
            with,
        ) == before + with + replace(rest, pat, with),
        find(rest, pat) is None ==> replace(rest, pat, with) == rest,
{
    let s = before + pat + rest;
    let p = before.len() as int;
    if find(s, pat) == Some(p) {
        assert(s.take(p) =~= before);
        assert(s.skip(p + pat.len()) =~= rest);
        lemma_find_from(s, pat, 0);
        lemma_split_by_nonempty(rest, pat);
        assert(split_by(s, pat) =~= seq![before] + split_by(rest, pat));
        lemma_join_cons(before, split_by(rest, pat), with);
        assert(before + with + join(split_by(rest, pat), with) =~= before + with + replace(
            rest,
            pat,
            with,
        ));
    }
    if find(rest, pat) is None {
        assert(split_by(rest, pat) =~= seq![rest]);
    }
}

/// A text is cut at each of two separators, and nothing is cut elsewhere.
pub proof fn law_split_at_two_separators(
    s: Seq<char>,
    a: char,
    b: char,
    sep: char,
    last: Seq<char>,
)
    requires
        sep == a || sep == b,
        forall|i: int| 0 <= i < last.len() ==> last[i] != a && last[i] != b,
    ensures
        split_at_either(s + seq![sep] + last, a, b) == split_at_either(s, a, b).push(last),
        split_at_either(last, a, b) == seq![last],
    decreases last.len(),
{
    let all = s + seq![sep] + last;
    let pieces = split_at_either(s, a, b);
    if last.len() == 0 {
        assert(all.drop_last() =~= s);
        assert(last =~= Seq::<char>::empty());
    } else {
        let front = last.drop_last();
        assert(forall|i: int| 0 <= i < front.len() ==> front[i] == last[i]);
        law_split_at_two_separators(s, a, b, sep, front);
        assert(all.drop_last() =~= s + seq![sep] + front);
        assert(all.last() == last[last.len() - 1]);
        assert(last.last() == last[last.len() - 1]);
        assert(front.push(last.last()) =~= last);
        assert(pieces.push(front).drop_last() =~= pieces);
        assert(seq![front].drop_last().push(last) =~= seq![last]);
    }
}

/// What counts as space: blanks, tabs and line ends do, and no letter, digit or
/// sign of ASCII does.
pub proof fn law_space(c: char)
    ensures
        is_space(' ') && is_space('\t') && is_space('\n') && is_space('\r'),
        0x21 <= c as u32 <= 0x7E ==> !is_space(c),
{
}

} // verus!
