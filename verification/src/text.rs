//! Character-level string operations used throughout the notebook, each
//! specified over the `Seq<char>` view of its strings.

use vstd::prelude::*;

verus! {

/// `String::push`: appends one character.
#[verifier::external_body]
fn push_char(s: &mut String, c: char)
    ensures
        final(s)@ == old(s)@.push(c),
{
    s.push(c);
}

/// The characters of `s`, in order.
pub fn chars_of(s: &str) -> (v: Vec<char>)
    ensures
        v@ == s@,
{
    broadcast use vstd::string::group_string_axioms;
    let mut v: Vec<char> = Vec::new();
    for c in it: s.chars()
        invariant
            v@ == it.seq().take(it.index() as int),
    {
        v.push(c);
    }
    assert(v@ == s@);
    v
}

/// The string made of the characters `v[lo..hi]`.
pub fn string_of_range(v: &Vec<char>, lo: usize, hi: usize) -> (s: String)
    requires
        lo <= hi <= v.len(),
    ensures
        s@ == v@.subrange(lo as int, hi as int),
{
    let mut s = String::new();
    let mut i: usize = lo;
    while i < hi
        invariant
            lo <= i <= hi <= v.len(),
            s@ == v@.subrange(lo as int, i as int),
        decreases hi - i,
    {
        push_char(&mut s, v[i]);
        assert(v@.subrange(lo as int, i as int).push(v@[i as int]) == v@.subrange(lo as int, i + 1));
        i = i + 1;
    }
    s
}

/// The string whose characters are `v`.
pub fn string_of(v: &Vec<char>) -> (s: String)
    ensures
        s@ == v@,
{
    let s = string_of_range(v, 0, v.len());
    assert(v@.subrange(0, v.len() as int) == v@);
    s
}

/// Appends the characters `v[lo..hi]` to `s`.
pub fn push_range(s: &mut String, v: &Vec<char>, lo: usize, hi: usize)
    requires
        lo <= hi <= v.len(),
    ensures
        final(s)@ == old(s)@ + v@.subrange(lo as int, hi as int),
{
    let mut i: usize = lo;
    while i < hi
        invariant
            lo <= i <= hi <= v.len(),
            s@ == old(s)@ + v@.subrange(lo as int, i as int),
        decreases hi - i,
    {
        push_char(s, v[i]);
        assert(v@.subrange(lo as int, i as int).push(v@[i as int]) == v@.subrange(lo as int, i + 1));
        i = i + 1;
    }
}

/// Appends `t` to `s`.
pub fn push_str(s: &mut String, t: &str)
    ensures
        final(s)@ == old(s)@ + t@,
{
    let v = chars_of(t);
    push_range(s, &v, 0, v.len());
    assert(v@.subrange(0, v.len() as int) == t@);
}

// ---------------------------------------------------------------------------
// Trimming by a class of characters
// ---------------------------------------------------------------------------

/// Unicode `White_Space`, the property that `char::is_whitespace` tests.
pub open spec fn is_whitespace(c: char) -> bool {
    let u = c as u32;
    ||| 0x9 <= u <= 0xD
    ||| u == 0x20
    ||| u == 0x85
    ||| u == 0xA0
    ||| u == 0x1680
    ||| 0x2000 <= u <= 0x200A
    ||| u == 0x2028
    ||| u == 0x2029
    ||| u == 0x202F
    ||| u == 0x205F
    ||| u == 0x3000
}

/// A class of characters that trimming removes.
#[derive(Clone, Copy)]
pub enum CharClass {
    Whitespace,
    Exactly(char),
}

impl CharClass {
    pub open spec fn has(self, c: char) -> bool {
        match self {
            CharClass::Whitespace => is_whitespace(c),
            CharClass::Exactly(d) => c == d,
        }
    }

    pub fn contains(&self, c: char) -> (b: bool)
        ensures
            b == self.has(c),
    {
        match self {
            CharClass::Whitespace => {
                let u = c as u32;
                (0x9 <= u && u <= 0xD) || u == 0x20 || u == 0x85 || u == 0xA0 || u == 0x1680
                    || (0x2000 <= u && u <= 0x200A) || u == 0x2028 || u == 0x2029 || u == 0x202F
                    || u == 0x205F || u == 0x3000
            },
            CharClass::Exactly(d) => c == *d,
        }
    }
}

/// `s` without its leading characters of class `cls`.
pub open spec fn strip_start(s: Seq<char>, cls: CharClass) -> Seq<char>
    decreases s.len(),
{
    if s.len() > 0 && cls.has(s[0]) {
        strip_start(s.drop_first(), cls)
    } else {
        s
    }
}

/// `s` without its trailing characters of class `cls`.
pub open spec fn strip_end(s: Seq<char>, cls: CharClass) -> Seq<char>
    decreases s.len(),
{
    if s.len() > 0 && cls.has(s.last()) {
        strip_end(s.drop_last(), cls)
    } else {
        s
    }
}

/// `s` without its leading and trailing characters of class `cls`.
pub open spec fn strip_both(s: Seq<char>, cls: CharClass) -> Seq<char> {
    strip_end(strip_start(s, cls), cls)
}

/// What `str::trim` leaves of `s`.
pub open spec fn trim_spec(s: Seq<char>) -> Seq<char> {
    strip_both(s, CharClass::Whitespace)
}

/// `s` without its leading characters of class `cls` is `s` from the
/// first character not in the class.
pub proof fn lemma_strip_start_at(s: Seq<char>, cls: CharClass, k: int)
    requires
        0 <= k <= s.len(),
        forall|i: int| 0 <= i < k ==> cls.has(#[trigger] s[i]),
        k == s.len() || !cls.has(s[k]),
    ensures
        strip_start(s, cls) == s.skip(k),
    decreases k,
{
    if k == 0 {
        assert(s.skip(0) == s);
    } else {
        let t = s.drop_first();
        assert forall|i: int| 0 <= i < k - 1 implies cls.has(#[trigger] t[i]) by {
            assert(t[i] == s[i + 1]);
        }
        lemma_strip_start_at(t, cls, k - 1);
        assert(t.skip(k - 1) == s.skip(k));
    }
}

/// `s` without its trailing characters of class `cls` is `s` up to the
/// last character not in the class.
pub proof fn lemma_strip_end_at(s: Seq<char>, cls: CharClass, k: int)
    requires
        0 <= k <= s.len(),
        forall|i: int| k <= i < s.len() ==> cls.has(#[trigger] s[i]),
        k == 0 || !cls.has(s[k - 1]),
    ensures
        strip_end(s, cls) == s.take(k),
    decreases s.len() - k,
{
    if k == s.len() {
        assert(s.take(k) == s);
    } else {
        let t = s.drop_last();
        assert forall|i: int| k <= i < t.len() implies cls.has(#[trigger] t[i]) by {
            assert(t[i] == s[i]);
        }
        lemma_strip_end_at(t, cls, k);
        assert(t.take(k) == s.take(k));
    }
}

/// The index of the first character of `v[lo..hi]` not in `cls`, or `hi`.
fn skip_class(v: &Vec<char>, lo: usize, hi: usize, cls: CharClass) -> (k: usize)
    requires
        lo <= hi <= v.len(),
    ensures
        lo <= k <= hi,
        forall|i: int| lo <= i < k ==> cls.has(#[trigger] v@[i]),
        k == hi || !cls.has(v@[k as int]),
{
    let mut k = lo;
    while k < hi && cls.contains(v[k])
        invariant
            lo <= k <= hi <= v.len(),
            forall|i: int| lo <= i < k ==> cls.has(#[trigger] v@[i]),
        decreases hi - k,
    {
        k = k + 1;
    }
    k
}

/// One past the index of the last character of `v[lo..hi]` not in `cls`, or `lo`.
fn skip_class_back(v: &Vec<char>, lo: usize, hi: usize, cls: CharClass) -> (k: usize)
    requires
        lo <= hi <= v.len(),
    ensures
        lo <= k <= hi,
        forall|i: int| k <= i < hi ==> cls.has(#[trigger] v@[i]),
        k == lo || !cls.has(v@[k - 1]),
{
    let mut k = hi;
    while k > lo && cls.contains(v[k - 1])
        invariant
            lo <= k <= hi <= v.len(),
            forall|i: int| k <= i < hi ==> cls.has(#[trigger] v@[i]),
        decreases k - lo,
    {
        k = k - 1;
    }
    k
}

/// `s` without its leading characters of class `cls` (`str::trim_start_matches`
/// with a `char`, or `str::trim_start` for whitespace).
pub fn trim_start_class(s: &str, cls: CharClass) -> (r: String)
    ensures
        r@ == strip_start(s@, cls),
{
    let v = chars_of(s);
    let k = skip_class(&v, 0, v.len(), cls);
    proof { lemma_strip_start_at(v@, cls, k as int); }
    string_of_range(&v, k, v.len())
}

/// `s` without its trailing characters of class `cls` (`str::trim_end_matches`
/// with a `char`, or `str::trim_end` for whitespace).
pub fn trim_end_class(s: &str, cls: CharClass) -> (r: String)
    ensures
        r@ == strip_end(s@, cls),
{
    let v = chars_of(s);
    let k = skip_class_back(&v, 0, v.len(), cls);
    proof { lemma_strip_end_at(v@, cls, k as int); }
    string_of_range(&v, 0, k)
}

/// `s` without its leading and trailing characters of class `cls`
/// (`str::trim_matches` with a `char`, or `str::trim` for whitespace).
pub fn trim_class(s: &str, cls: CharClass) -> (r: String)
    ensures
        r@ == strip_both(s@, cls),
{
    let v = chars_of(s);
    let lo = skip_class(&v, 0, v.len(), cls);
    let hi = skip_class_back(&v, lo, v.len(), cls);
    proof {
        lemma_strip_start_at(v@, cls, lo as int);
        let t = v@.skip(lo as int);
        assert forall|i: int| hi - lo <= i < t.len() implies cls.has(#[trigger] t[i]) by {
            assert(t[i] == v@[i + lo]);
        }
        if hi > lo {
            assert(t[hi - lo - 1] == v@[hi - 1]);
        }
        lemma_strip_end_at(t, cls, hi - lo);
        assert(t.take(hi - lo) == v@.subrange(lo as int, hi as int));
    }
    string_of_range(&v, lo, hi)
}

/// `str::trim`.
pub fn trim(s: &str) -> (r: String)
    ensures
        r@ == trim_spec(s@),
{
    trim_class(s, CharClass::Whitespace)
}

// ---------------------------------------------------------------------------
// Substrings: prefixes, suffixes, occurrences
// ---------------------------------------------------------------------------

/// `p` occurs in `s` starting at index `i`.
pub open spec fn occurs_at(s: Seq<char>, p: Seq<char>, i: int) -> bool {
    0 <= i && i + p.len() <= s.len() && s.subrange(i, i + p.len()) == p
}

/// The leftmost index at or after `i` where `p` occurs in `s`.
pub open spec fn find_from(s: Seq<char>, p: Seq<char>, i: int) -> Option<int>
    decreases s.len() + 1 - i,
{
    if i < 0 || i + p.len() > s.len() {
        None
    } else if occurs_at(s, p, i) {
        Some(i)
    } else {
        find_from(s, p, i + 1)
    }
}

/// The leftmost index where `p` occurs in `s` (`str::find`, counted in characters).
pub open spec fn find_spec(s: Seq<char>, p: Seq<char>) -> Option<int> {
    find_from(s, p, 0)
}

/// `str::contains` with a string pattern.
pub open spec fn contains_spec(s: Seq<char>, p: Seq<char>) -> bool {
    exists|i: int| occurs_at(s, p, i)
}

pub proof fn lemma_find_from(s: Seq<char>, p: Seq<char>, i: int)
    requires
        0 <= i,
    ensures
        match find_from(s, p, i) {
            Some(k) => i <= k && occurs_at(s, p, k) && forall|j: int|
                i <= j < k ==> !occurs_at(s, p, j),
            None => forall|j: int| i <= j ==> !occurs_at(s, p, j),
        },
    decreases s.len() + 1 - i,
{
    if i + p.len() > s.len() {
    } else if occurs_at(s, p, i) {
    } else {
        lemma_find_from(s, p, i + 1);
    }
}

/// `find_spec` is the leftmost occurrence, and `None` exactly when there is none.
pub proof fn lemma_find_spec(s: Seq<char>, p: Seq<char>)
    ensures
        match find_spec(s, p) {
            Some(k) => occurs_at(s, p, k) && forall|j: int| 0 <= j < k ==> !occurs_at(s, p, j),
            None => !contains_spec(s, p),
        },
        find_spec(s, p) is Some <==> contains_spec(s, p),
{
    lemma_find_from(s, p, 0);
}

/// Whether `p` occurs in `v` at index `i`.
fn matches_at(v: &Vec<char>, p: &Vec<char>, i: usize) -> (b: bool)
    ensures
        b == occurs_at(v@, p@, i as int),
{
    if i > v.len() || p.len() > v.len() - i {
        return false;
    }
    let mut j: usize = 0;
    while j < p.len()
        invariant
            i + p.len() <= v.len(),
            j <= p.len(),
            forall|k: int| 0 <= k < j ==> v@[i + k] == p@[k],
        decreases p.len() - j,
    {
        if v[i + j] != p[j] {
            assert(v@.subrange(i as int, i + p.len())[j as int] != p@[j as int]);
            return false;
        }
        j = j + 1;
    }
    assert(v@.subrange(i as int, i + p.len()) == p@);
    true
}

/// The leftmost index at or after `from` where `p` occurs in `v`.
fn find_in(v: &Vec<char>, p: &Vec<char>, from: usize) -> (r: Option<usize>)
    ensures
        r is Some <==> find_from(v@, p@, from as int) is Some,
        r matches Some(i) ==> find_from(v@, p@, from as int) == Some(i as int),
{
    if from > v.len() {
        return None;
    }
    let mut i = from;
    while p.len() <= v.len() - i
        invariant
            from <= i <= v.len(),
            find_from(v@, p@, from as int) == find_from(v@, p@, i as int),
        decreases v.len() + 1 - i,
    {
        if matches_at(v, p, i) {
            return Some(i);
        }
        if i == v.len() {
            assert(v@.subrange(i as int, i as int) == p@);
            return None;
        }
        i = i + 1;
    }
    None
}

/// `str::starts_with` with a string pattern.
pub fn starts_with(s: &str, p: &str) -> (b: bool)
    ensures
        b == p@.is_prefix_of(s@),
{
    let v = chars_of(s);
    let w = chars_of(p);
    let b = matches_at(&v, &w, 0);
    assert(b == occurs_at(s@, p@, 0));
    b
}

/// `str::ends_with` with a string pattern.
pub fn ends_with(s: &str, p: &str) -> (b: bool)
    ensures
        b == p@.is_suffix_of(s@),
{
    let v = chars_of(s);
    let w = chars_of(p);
    if w.len() > v.len() {
        return false;
    }
    matches_at(&v, &w, v.len() - w.len())
}

/// `str::contains` with a string pattern.
pub fn contains(s: &str, p: &str) -> (b: bool)
    ensures
        b == contains_spec(s@, p@),
{
    let v = chars_of(s);
    let w = chars_of(p);
    proof { lemma_find_spec(s@, p@); }
    find_in(&v, &w, 0).is_some()
}

/// Whether `s` and `t` are the same text.
pub fn same_text(s: &str, t: &str) -> (b: bool)
    ensures
        b == (s@ == t@),
{
    let v = chars_of(s);
    let w = chars_of(t);
    if v.len() != w.len() {
        return false;
    }
    let b = matches_at(&v, &w, 0);
    assert(v@.subrange(0, w@.len() as int) == v@);
    b
}

// ---------------------------------------------------------------------------
// Replacing
// ---------------------------------------------------------------------------

/// What `str::replacen(p, r, 1)` makes of `s`: the leftmost occurrence of `p`
/// replaced by `r`.
pub open spec fn replace_first_spec(s: Seq<char>, p: Seq<char>, r: Seq<char>) -> Seq<char> {
    match find_spec(s, p) {
        Some(i) => s.take(i) + r + s.skip(i + p.len()),
        None => s,
    }
}

/// The replacement of the non-overlapping occurrences of `p` in `s[i..]`,
/// scanned from the left.
pub open spec fn replace_from(s: Seq<char>, p: Seq<char>, r: Seq<char>, i: int) -> Seq<char>
    decreases s.len() - i,
{
    if i < 0 || i >= s.len() || p.len() == 0 {
        s.skip(i)
    } else if occurs_at(s, p, i) {
        r + replace_from(s, p, r, i + p.len())
    } else {
        seq![s[i]] + replace_from(s, p, r, i + 1)
    }
}

/// What `str::replace(p, r)` makes of `s`, for a non-empty `p`.
pub open spec fn replace_all_spec(s: Seq<char>, p: Seq<char>, r: Seq<char>) -> Seq<char> {
    replace_from(s, p, r, 0)
}

/// `str::replacen(p, r, 1)`.
pub fn replace_first(s: &str, p: &str, r: &str) -> (out: String)
    ensures
        out@ == replace_first_spec(s@, p@, r@),
{
    let v = chars_of(s);
    let w = chars_of(p);
    proof { lemma_find_spec(v@, w@); }
    match find_in(&v, &w, 0) {
        Some(i) => {
            assert(occurs_at(v@, w@, i as int));
            let mut out = string_of_range(&v, 0, i);
            push_str(&mut out, r);
            assert(i + w.len() <= v.len());
            push_range(&mut out, &v, i + w.len(), v.len());
            out
        },
        None => string_of(&v),
    }
}

/// `str::replace` with a non-empty string pattern.
pub fn replace_all(s: &str, p: &str, r: &str) -> (out: String)
    requires
        p@.len() > 0,
    ensures
        out@ == replace_all_spec(s@, p@, r@),
{
    let v = chars_of(s);
    let w = chars_of(p);
    let mut out = String::new();
    let mut i: usize = 0;
    while i < v.len()
        invariant
            i <= v.len(),
            w@ == p@,
            w@.len() > 0,
            out@ + replace_from(v@, w@, r@, i as int) == replace_all_spec(v@, w@, r@),
        decreases v.len() - i,
    {
        let ghost old_out = out@;
        if matches_at(&v, &w, i) {
            push_str(&mut out, r);
            assert(old_out + (r@ + replace_from(v@, w@, r@, i + w.len())) == out@ + replace_from(
                v@,
                w@,
                r@,
                i + w.len(),
            ));
            i = i + w.len();
        } else {
            push_char(&mut out, v[i]);
            assert(old_out + (seq![v@[i as int]] + replace_from(v@, w@, r@, i + 1)) == out@
                + replace_from(v@, w@, r@, i + 1));
            i = i + 1;
        }
    }
    assert(v@.skip(v.len() as int) == Seq::<char>::empty());
    assert(out@ + Seq::<char>::empty() == out@);
    out
}

/// `s` with its trailing copies of `p` removed, one after another
/// (`str::trim_end_matches` with a string pattern).
pub open spec fn strip_suffixes(s: Seq<char>, p: Seq<char>) -> Seq<char>
    decreases s.len(),
{
    if p.len() > 0 && p.is_suffix_of(s) {
        strip_suffixes(s.take(s.len() - p.len()), p)
    } else {
        s
    }
}

/// `str::trim_end_matches` with a string pattern.
pub fn trim_end_matches(s: &str, p: &str) -> (r: String)
    ensures
        r@ == strip_suffixes(s@, p@),
{
    let v = chars_of(s);
    let w = chars_of(p);
    if w.len() == 0 {
        return string_of(&v);
    }
    let mut k = v.len();
    assert(v@.take(k as int) == v@);
    while k >= w.len() && matches_at(&v, &w, k - w.len())
        invariant
            k <= v.len(),
            w@.len() > 0,
            strip_suffixes(v@, w@) == strip_suffixes(v@.take(k as int), w@),
        decreases k,
    {
        assert(v@.take(k as int).subrange(k - w.len(), k as int) == v@.subrange(
            k - w.len(),
            k as int,
        ));
        assert(v@.take(k as int).take(k - w.len()) == v@.take(k - w.len()));
        k = k - w.len();
    }
    proof {
        if k >= w.len() {
            assert(v@.take(k as int).subrange(k - w.len(), k as int) == v@.subrange(
                k - w.len(),
                k as int,
            ));
        }
    }
    assert(v@.take(k as int) == v@.subrange(0, k as int));
    string_of_range(&v, 0, k)
}

// ---------------------------------------------------------------------------
// Splitting
// ---------------------------------------------------------------------------

/// The pieces of `s` between the occurrences of `c` (`str::split` with a `char`):
/// there is always one more piece than there are occurrences.
pub open spec fn split_spec(s: Seq<char>, c: char) -> Seq<Seq<char>>
    decreases s.len(),
{
    if s.len() == 0 {
        seq![Seq::<char>::empty()]
    } else {
        let pre = split_spec(s.drop_last(), c);
        if s.last() == c {
            pre.push(Seq::<char>::empty())
        } else {
            pre.update(pre.len() - 1, pre.last().push(s.last()))
        }
    }
}

/// The pieces joined back together with `c` between them.
pub open spec fn join_spec(pieces: Seq<Seq<char>>, c: char) -> Seq<char>
    decreases pieces.len(),
{
    if pieces.len() == 0 {
        Seq::<char>::empty()
    } else if pieces.len() == 1 {
        pieces[0]
    } else {
        join_spec(pieces.drop_last(), c).push(c) + pieces.last()
    }
}

/// The number of times `c` occurs in `s`.
pub open spec fn count_char(s: Seq<char>, c: char) -> nat
    decreases s.len(),
{
    if s.len() == 0 {
        0
    } else {
        count_char(s.drop_last(), c) + if s.last() == c { 1nat } else { 0nat }
    }
}

/// Splitting at `c` gives one piece more than `c` occurs, no piece holds `c`,
/// and joining the pieces with `c` gives back the string.
pub proof fn lemma_split_join(s: Seq<char>, c: char)
    ensures
        split_spec(s, c).len() == count_char(s, c) + 1,
        forall|i: int| 0 <= i < split_spec(s, c).len() ==> !(#[trigger] split_spec(s, c)[i]).contains(c),
        join_spec(split_spec(s, c), c) == s,
    decreases s.len(),
{
    if s.len() > 0 {
        let t = s.drop_last();
        lemma_split_join(t, c);
        let pre = split_spec(t, c);
        if s.last() == c {
            let post = pre.push(Seq::<char>::empty());
            assert(post.drop_last() == pre);
            assert(join_spec(post, c) == s);
            assert forall|i: int| 0 <= i < post.len() implies !(#[trigger] post[i]).contains(c) by {
                if i < pre.len() {
                    assert(post[i] == pre[i]);
                }
            }
        } else {
            let n = pre.len();
            let post = pre.update(n - 1, pre.last().push(s.last()));
            assert forall|i: int| 0 <= i < post.len() implies !(#[trigger] post[i]).contains(c) by {
                if i < n - 1 {
                    assert(post[i] == pre[i]);
                } else {
                    let l = pre.last().push(s.last());
                    assert(!pre[n - 1].contains(c));
                    if l.contains(c) {
                        let j = choose|j: int| 0 <= j < l.len() && l[j] == c;
                        if j < l.len() - 1 {
                            assert(pre[n - 1][j] == c);
                        }
                    }
                }
            }
            if n == 1 {
                assert(post[0] == s);
            } else {
                assert(post.drop_last() == pre.drop_last());
                assert(join_spec(pre, c) == join_spec(pre.drop_last(), c).push(c) + pre.last());
                assert(join_spec(post, c) == join_spec(pre, c).push(s.last()));
                assert(s == t.push(s.last()));
            }
        }
    }
}

proof fn lemma_split_nonempty(s: Seq<char>, c: char)
    ensures
        split_spec(s, c).len() >= 1,
    decreases s.len(),
{
    if s.len() > 0 {
        lemma_split_nonempty(s.drop_last(), c);
    }
}

/// `str::split` with a `char`, collected.
pub fn split_char(s: &str, c: char) -> (pieces: Vec<String>)
    ensures
        pieces.deep_view() == split_spec(s@, c),
{
    let v = chars_of(s);
    let mut pieces: Vec<String> = Vec::new();
    let mut cur = String::new();
    let mut i: usize = 0;
    while i < v.len()
        invariant
            i <= v.len(),
            pieces.deep_view().push(cur@) == split_spec(v@.take(i as int), c),
        decreases v.len() - i,
    {
        let ghost before = v@.take(i as int);
        assert(v@.take(i + 1).drop_last() == before);
        proof { lemma_split_nonempty(before, c); }
        if v[i] == c {
            let ghost old_dv = pieces.deep_view();
            pieces.push(cur);
            assert(pieces.deep_view() == old_dv.push(cur@));
            cur = String::new();
        } else {
            push_char(&mut cur, v[i]);
        }
        i = i + 1;
    }
    assert(v@.take(v.len() as int) == v@);
    let ghost old_dv = pieces.deep_view();
    pieces.push(cur);
    assert(pieces.deep_view() == old_dv.push(cur@));
    pieces
}

/// A line without the carriage return that ended it, if any.
pub open spec fn strip_cr(l: Seq<char>) -> Seq<char> {
    if l.len() > 0 && l.last() == '\r' {
        l.drop_last()
    } else {
        l
    }
}

/// The lines of `s` (`str::lines`): the pieces between `'\n'`s, without a
/// final empty piece, each piece that a `'\n'` ended losing one trailing `'\r'`.
pub open spec fn lines_spec(s: Seq<char>) -> Seq<Seq<char>> {
    let p = split_spec(s, '\n');
    let kept = if p.last().len() == 0 { p.drop_last() } else { p };
    Seq::new(kept.len(), |i: int| if i < p.len() - 1 { strip_cr(kept[i]) } else { kept[i] })
}

/// `str::lines`, collected.
pub fn lines(s: &str) -> (out: Vec<String>)
    ensures
        out.deep_view() == lines_spec(s@),
{
    let pieces = split_char(s, '\n');
    proof { lemma_split_nonempty(s@, '\n'); }
    let n = pieces.len();
    let kept = if pieces[n - 1].as_str().is_empty() { n - 1 } else { n };
    let mut out: Vec<String> = Vec::new();
    let mut i: usize = 0;
    while i < kept
        invariant
            kept <= n == pieces.len(),
            n >= 1,
            pieces.deep_view() == split_spec(s@, '\n'),
            kept == (if split_spec(s@, '\n').last().len() == 0 { n - 1 } else { n as int }),
            i <= kept,
            out.deep_view() == lines_spec(s@).take(i as int),
        decreases kept - i,
    {
        let piece = &pieces[i];
        let line = if i < n - 1 {
            let pv = chars_of(piece.as_str());
            if pv.len() > 0 && pv[pv.len() - 1] == '\r' {
                string_of_range(&pv, 0, pv.len() - 1)
            } else {
                string_of(&pv)
            }
        } else {
            piece.clone()
        };
        proof {
            assert(pieces.deep_view()[i as int] == pieces@[i as int]@);
            if i < n - 1 {
                let pv = pieces@[i as int]@;
                if pv.len() > 0 && pv.last() == '\r' {
                    assert(pv.subrange(0, pv.len() - 1) == pv.drop_last());
                }
            }
        }
        let ghost old_dv = out.deep_view();
        out.push(line);
        assert(out.deep_view() == old_dv.push(line@));
        assert(lines_spec(s@).take(i + 1) == lines_spec(s@).take(i as int).push(lines_spec(s@)[i as int]));
        i = i + 1;
    }
    assert(lines_spec(s@).take(kept as int) == lines_spec(s@));
    out
}

// ---------------------------------------------------------------------------
// Laws
// ---------------------------------------------------------------------------

/// `s` without its leading characters of class `cls` is a suffix of `s`.
pub proof fn lemma_strip_start_shape(s: Seq<char>, cls: CharClass) -> (k: int)
    ensures
        0 <= k <= s.len(),
        strip_start(s, cls) == s.skip(k),
        forall|i: int| 0 <= i < k ==> cls.has(#[trigger] s[i]),
        k == s.len() || !cls.has(s[k]),
    decreases s.len(),
{
    if s.len() > 0 && cls.has(s[0]) {
        let t = s.drop_first();
        let k = lemma_strip_start_shape(t, cls);
        assert forall|i: int| 0 <= i < k + 1 implies cls.has(#[trigger] s[i]) by {
            if i > 0 {
                assert(s[i] == t[i - 1]);
            }
        }
        assert(t.skip(k) == s.skip(k + 1));
        if k < t.len() {
            assert(s[k + 1] == t[k]);
        }
        k + 1
    } else {
        assert(s.skip(0) == s);
        0
    }
}

/// `s` without its trailing characters of class `cls` is a prefix of `s`.
pub proof fn lemma_strip_end_shape(s: Seq<char>, cls: CharClass) -> (k: int)
    ensures
        0 <= k <= s.len(),
        strip_end(s, cls) == s.take(k),
        forall|i: int| k <= i < s.len() ==> cls.has(#[trigger] s[i]),
        k == 0 || !cls.has(s[k - 1]),
    decreases s.len(),
{
    if s.len() > 0 && cls.has(s.last()) {
        let t = s.drop_last();
        let k = lemma_strip_end_shape(t, cls);
        assert forall|i: int| k <= i < s.len() implies cls.has(#[trigger] s[i]) by {
            if i < s.len() - 1 {
                assert(s[i] == t[i]);
            }
        }
        assert(t.take(k) == s.take(k));
        if k > 0 {
            assert(s[k - 1] == t[k - 1]);
        }
        k
    } else {
        assert(s.take(s.len() as int) == s);
        s.len() as int
    }
}

/// Trimming by a class of characters leaves neither end in the class, and
/// trimming again changes nothing.
pub proof fn law_strip_both(s: Seq<char>, cls: CharClass)
    ensures
        strip_both(strip_both(s, cls), cls) == strip_both(s, cls),
        strip_both(s, cls).len() > 0 ==> !cls.has(strip_both(s, cls)[0]) && !cls.has(
            strip_both(s, cls).last(),
        ),
{
    let k1 = lemma_strip_start_shape(s, cls);
    let u = strip_start(s, cls);
    let k2 = lemma_strip_end_shape(u, cls);
    let t = strip_both(s, cls);
    assert(t == u.take(k2));
    if t.len() > 0 {
        assert(t[0] == u[0]);
        assert(u[0] == s[k1]);
        assert(t.last() == u[k2 - 1]);
        lemma_strip_start_at(t, cls, 0);
        assert(t.skip(0) == t);
        lemma_strip_end_at(t, cls, t.len() as int);
        assert(t.take(t.len() as int) == t);
    } else {
        assert(strip_start(t, cls) == t);
        assert(strip_end(t, cls) == t);
    }
}

/// Trailing trimming leaves no trailing character of the class, and trimming
/// again changes nothing.
pub proof fn law_strip_end(s: Seq<char>, cls: CharClass)
    ensures
        strip_end(strip_end(s, cls), cls) == strip_end(s, cls),
        strip_end(s, cls).len() > 0 ==> !cls.has(strip_end(s, cls).last()),
{
    let k = lemma_strip_end_shape(s, cls);
    let t = strip_end(s, cls);
    if t.len() > 0 {
        assert(t.last() == s[k - 1]);
    }
    lemma_strip_end_at(t, cls, t.len() as int);
    assert(t.take(t.len() as int) == t);
}

/// A trailing character of the class is trimmed away with the rest.
pub proof fn lemma_strip_end_push(s: Seq<char>, c: char, cls: CharClass)
    requires
        cls.has(c),
    ensures
        strip_end(s.push(c), cls) == strip_end(s, cls),
{
    assert(s.push(c).drop_last() == s);
}

/// `str::trim` leaves no whitespace at either end, and trimming again
/// changes nothing.
pub proof fn law_trim(s: Seq<char>)
    ensures
        trim_spec(trim_spec(s)) == trim_spec(s),
        trim_spec(s).len() > 0 ==> !is_whitespace(trim_spec(s)[0]) && !is_whitespace(
            trim_spec(s).last(),
        ),
{
    law_strip_both(s, CharClass::Whitespace);
}

/// Replacing a pattern that does not occur changes nothing.
pub proof fn lemma_replace_absent(s: Seq<char>, p: Seq<char>, r: Seq<char>, i: int)
    requires
        p.len() > 0,
        0 <= i <= s.len(),
        forall|j: int| i <= j ==> !occurs_at(s, p, j),
    ensures
        replace_from(s, p, r, i) == s.skip(i),
    decreases s.len() - i,
{
    if i < s.len() {
        lemma_replace_absent(s, p, r, i + 1);
        assert(seq![s[i]] + s.skip(i + 1) == s.skip(i));
    }
}

/// `str::replace` of a pattern that does not occur changes nothing.
pub proof fn law_replace_absent(s: Seq<char>, p: Seq<char>, r: Seq<char>)
    requires
        p.len() > 0,
        !contains_spec(s, p),
    ensures
        replace_all_spec(s, p, r) == s,
{
    lemma_replace_absent(s, p, r, 0);
    assert(s.skip(0) == s);
}

proof fn lemma_occurs_char(s: Seq<char>, c: char, i: int)
    ensures
        occurs_at(s, seq![c], i) <==> (0 <= i < s.len() && s[i] == c),
{
    if 0 <= i < s.len() && s[i] == c {
        assert(s.subrange(i, i + 1) == seq![c]);
    }
    if occurs_at(s, seq![c], i) {
        assert(s.subrange(i, i + 1)[0] == s[i]);
    }
}

proof fn lemma_delete_char(s: Seq<char>, c: char, i: int)
    requires
        0 <= i <= s.len(),
    ensures
        !replace_from(s, seq![c], Seq::<char>::empty(), i).contains(c),
    decreases s.len() - i,
{
    if i < s.len() {
        lemma_delete_char(s, c, i + 1);
        lemma_occurs_char(s, c, i);
        let rest = replace_from(s, seq![c], Seq::<char>::empty(), i + 1);
        if s[i] == c {
            assert(Seq::<char>::empty() + rest == rest);
        } else {
            let out = seq![s[i]] + rest;
            if out.contains(c) {
                let j = choose|j: int| 0 <= j < out.len() && out[j] == c;
                assert(j > 0);
                assert(rest[j - 1] == c);
            }
        }
    }
}

/// Deleting every copy of a character leaves none.
pub proof fn law_delete_char(s: Seq<char>, c: char)
    ensures
        !replace_all_spec(s, seq![c], Seq::<char>::empty()).contains(c),
{
    lemma_delete_char(s, c, 0);
}

} // verus!
