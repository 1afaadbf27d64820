//! Character-level helpers shared by the policy engine.
//!
//! Every contract speaks of the `Seq<char>` view of a string.

use vstd::prelude::*;

verus! {

/// The characters of `s`, in order.
pub fn chars_of(s: &str) -> (v: Vec<char>)
    ensures
        v@ == s@,
{
    let mut v: Vec<char> = Vec::new();
    for c in it: s.chars()
        invariant
            v@ == it.seq().take(it.index() as int),
            it.seq() == s@,
    {
        v.push(c);
    }
    v
}

/// Whether two string slices hold the same characters.
pub fn str_eq(a: &str, b: &str) -> (r: bool)
    ensures
        r == (a@ == b@),
{
    let left = chars_of(a);
    let right = chars_of(b);
    if left.len() != right.len() {
        return false;
    }
    let mut i: usize = 0;
    while i < left.len()
        invariant
            i <= left.len(),
            left.len() == right.len(),
            left@ == a@,
            right@ == b@,
            forall|k: int| 0 <= k < i ==> a@[k] == b@[k],
        decreases left.len() - i,
    {
        if left[i] != right[i] {
            return false;
        }
        i += 1;
    }
    assert(a@ =~= b@);
    true
}

/// The names held by a list of strings, in list order.
pub open spec fn strs(list: Seq<String>) -> Seq<Seq<char>> {
    Seq::new(list.len(), |i: int| list[i]@)
}

/// Whether `list` holds a string equal to `needle`.
pub fn list_contains(list: &Vec<String>, needle: &str) -> (r: bool)
    ensures
        r == strs(list@).contains(needle@),
{
    let mut i: usize = 0;
    while i < list.len()
        invariant
            i <= list.len(),
            forall|j: int| 0 <= j < i ==> list@[j]@ != needle@,
        decreases list.len() - i,
    {
        if str_eq(list[i].as_str(), needle) {
            assert(strs(list@)[i as int] == needle@);
            return true;
        }
        i += 1;
    }
    false
}

/// Unicode's `White_Space` property.
pub open spec fn is_whitespace(c: char) -> bool {
    let u = c as u32;
    ||| 0x09 <= u <= 0x0D
    ||| u == 0x20
    ||| u == 0x85
    ||| u == 0xA0
    ||| u == 0x1680
    ||| 0x2000 <= u <= 0x200A
    ||| u == 0x2028
    ||| u == 0x2029
    ||| u == 0x202F
    ||| u == 0x205F
    ||| u == 0x3000
}

/// Whether `c` has Unicode's `White_Space` property.
pub fn is_whitespace_char(c: char) -> (r: bool)
    ensures
        r == is_whitespace(c),
{
    let u: u32 = c as u32;
    (0x09 <= u && u <= 0x0D) || u == 0x20 || u == 0x85 || u == 0xA0 || u == 0x1680 || (0x2000 <= u
        && u <= 0x200A) || u == 0x2028 || u == 0x2029 || u == 0x202F || u == 0x205F || u == 0x3000
}

/// How many whitespace characters `s` begins with.
pub open spec fn leading_whitespace(s: Seq<char>) -> nat
    decreases s.len(),
{
    if s.len() > 0 && is_whitespace(s[0]) {
        1 + leading_whitespace(s.drop_first())
    } else {
        0
    }
}

/// `s` without its leading whitespace.
pub open spec fn trim_start(s: Seq<char>) -> Seq<char> {
    s.skip(leading_whitespace(s) as int)
}

/// A prefix of whitespace followed by a character that is none pins
/// `leading_whitespace`.
pub proof fn lemma_leading_whitespace_is(s: Seq<char>, k: int)
    requires
        0 <= k <= s.len(),
        forall|i: int| 0 <= i < k ==> is_whitespace(s[i]),
        k < s.len() ==> !is_whitespace(s[k]),
    ensures
        leading_whitespace(s) == k,
    decreases s.len(),
{
    if s.len() > 0 && is_whitespace(s[0]) {
        let t = s.drop_first();
        assert(k > 0);
        assert forall|i: int| 0 <= i < k - 1 implies is_whitespace(t[i]) by {
            assert(t[i] == s[i + 1]);
        }
        lemma_leading_whitespace_is(t, k - 1);
    } else {
        if k > 0 {
            assert(is_whitespace(s[0]));
        }
    }
}

/// The slice of `s` from character `from` up to character `to`.
fn slice_chars<'a>(s: &'a str, from: usize, to: usize) -> (r: &'a str)
    requires
        from <= to <= s@.len(),
    ensures
        r@ == s@.subrange(from as int, to as int),
{
    s.substring_char(from, to)
}

/// `s` without its leading whitespace.
pub fn trim_leading<'a>(s: &'a str) -> (r: &'a str)
    ensures
        r@ == trim_start(s@),
{
    let chars = chars_of(s);
    let mut k: usize = 0;
    while k < chars.len() && is_whitespace_char(chars[k])
        invariant
            k <= chars.len(),
            chars@ == s@,
            forall|i: int| 0 <= i < k ==> is_whitespace(s@[i]),
        decreases chars.len() - k,
    {
        k += 1;
    }
    proof {
        lemma_leading_whitespace_is(s@, k as int);
    }
    slice_chars(s, k, chars.len())
}

/// Whether `s` begins with `prefix`.
pub open spec fn starts_with(s: Seq<char>, prefix: Seq<char>) -> bool {
    prefix.len() <= s.len() && s.take(prefix.len() as int) == prefix
}

/// Whether `pattern` occurs in `s` at character `at`.
pub open spec fn occurs_at(s: Seq<char>, pattern: Seq<char>, at: int) -> bool {
    0 <= at && at + pattern.len() <= s.len() && s.subrange(at, at + pattern.len()) == pattern
}

/// Whether `pattern` occurs somewhere in `s`.
pub open spec fn contains_pattern(s: Seq<char>, pattern: Seq<char>) -> bool {
    exists|at: int| occurs_at(s, pattern, at)
}

/// Whether `pattern` occurs in `s` at character `at`.
fn matches_at(s: &Vec<char>, pattern: &Vec<char>, at: usize) -> (r: bool)
    requires
        at + pattern.len() <= s.len(),
    ensures
        r == occurs_at(s@, pattern@, at as int),
{
    let mut j: usize = 0;
    while j < pattern.len()
        invariant
            j <= pattern.len(),
            at + pattern.len() <= s.len(),
            forall|i: int| 0 <= i < j ==> s@[at + i] == pattern@[i],
        decreases pattern.len() - j,
    {
        if s[at + j] != pattern[j] {
            assert(s@.subrange(at as int, at + pattern.len())[j as int] != pattern@[j as int]);
            return false;
        }
        j += 1;
    }
    assert(s@.subrange(at as int, at + pattern.len()) =~= pattern@);
    true
}

/// Whether `s` begins with `prefix`.
pub fn has_prefix(s: &str, prefix: &str) -> (r: bool)
    ensures
        r == starts_with(s@, prefix@),
{
    let text = chars_of(s);
    let pattern = chars_of(prefix);
    if pattern.len() > text.len() {
        return false;
    }
    let r = matches_at(&text, &pattern, 0);
    assert(s@.take(prefix@.len() as int) =~= s@.subrange(0, 0 + prefix@.len() as int));
    r
}

/// Whether `pattern` occurs somewhere in `s`.
pub fn has_pattern(s: &str, pattern: &str) -> (r: bool)
    ensures
        r == contains_pattern(s@, pattern@),
{
    let text = chars_of(s);
    let pat = chars_of(pattern);
    if pat.len() > text.len() {
        return false;
    }
    let last: usize = text.len() - pat.len();
    let mut at: usize = 0;
    loop
        invariant
            at <= last,
            last == text.len() - pat.len(),
            text@ == s@,
            pat@ == pattern@,
            forall|k: int| 0 <= k < at ==> !occurs_at(s@, pattern@, k),
        decreases last - at,
    {
        if matches_at(&text, &pat, at) {
            return true;
        }
        if at == last {
            return false;
        }
        at += 1;
    }
}

/// The index of the first whitespace character of `s`, or its length.
pub open spec fn token_end(s: Seq<char>) -> nat
    decreases s.len(),
{
    if s.len() > 0 && !is_whitespace(s[0]) {
        1 + token_end(s.drop_first())
    } else {
        0
    }
}

/// The maximal runs of non-whitespace characters of `s`, in order.
pub open spec fn split_whitespace(s: Seq<char>) -> Seq<Seq<char>>
    decreases s.len(),
{
    if s.len() == 0 {
        Seq::empty()
    } else if is_whitespace(s[0]) {
        split_whitespace(s.drop_first())
    } else {
        let k = token_end(s) as int;
        if 0 < k <= s.len() {
            seq![s.take(k)] + split_whitespace(s.skip(k))
        } else {
            Seq::empty()
        }
    }
}

/// `token_end` is in range, no character before it is whitespace, and the
/// character at it is, if there is one.
pub proof fn lemma_token_end(s: Seq<char>)
    ensures
        token_end(s) <= s.len(),
        forall|i: int| 0 <= i < token_end(s) ==> !is_whitespace(s[i]),
        token_end(s) < s.len() ==> is_whitespace(s[token_end(s) as int]),
    decreases s.len(),
{
    if s.len() > 0 && !is_whitespace(s[0]) {
        let t = s.drop_first();
        lemma_token_end(t);
        assert forall|i: int| 0 <= i < token_end(s) implies !is_whitespace(s[i]) by {
            if i > 0 {
                assert(s[i] == t[i - 1]);
            }
        }
        if token_end(s) < s.len() {
            assert(s[token_end(s) as int] == t[token_end(t) as int]);
        }
    }
}

/// A prefix without whitespace that ends at whitespace, or at the end of the
/// string, pins `token_end`.
pub proof fn lemma_token_end_is(s: Seq<char>, k: int)
    requires
        0 <= k <= s.len(),
        forall|i: int| 0 <= i < k ==> !is_whitespace(s[i]),
        k < s.len() ==> is_whitespace(s[k]),
    ensures
        token_end(s) == k,
    decreases s.len(),
{
    if s.len() > 0 && !is_whitespace(s[0]) {
        let t = s.drop_first();
        assert(k > 0);
        assert forall|i: int| 0 <= i < k - 1 implies !is_whitespace(t[i]) by {
            assert(t[i] == s[i + 1]);
        }
        lemma_token_end_is(t, k - 1);
    } else {
        if k > 0 {
            assert(!is_whitespace(s[0]));
        }
    }
}

/// Leading whitespace yields no token.
pub proof fn lemma_split_after_whitespace(s: Seq<char>, k: int)
    requires
        0 <= k <= s.len(),
        forall|i: int| 0 <= i < k ==> is_whitespace(s[i]),
    ensures
        split_whitespace(s) == split_whitespace(s.skip(k)),
    decreases k,
{
    if k == 0 {
        assert(s.skip(0) =~= s);
    } else {
        let t = s.drop_first();
        assert forall|i: int| 0 <= i < k - 1 implies is_whitespace(t[i]) by {
            assert(t[i] == s[i + 1]);
        }
        lemma_split_after_whitespace(t, k - 1);
        assert(t.skip(k - 1) =~= s.skip(k));
    }
}

/// A word: a string that is not empty and holds no whitespace.
pub open spec fn is_word(w: Seq<char>) -> bool {
    w.len() > 0 && forall|j: int| 0 <= j < w.len() ==> !is_whitespace(w[j])
}

/// Every token of `split_whitespace` is a word.
pub proof fn lemma_tokens_are_words(s: Seq<char>)
    ensures
        forall|i: int| 0 <= i < split_whitespace(s).len() ==> is_word(#[trigger] split_whitespace(s)[i]),
    decreases s.len(),
{
    if s.len() == 0 {
        assert(split_whitespace(s).len() == 0);
    } else if is_whitespace(s[0]) {
        lemma_tokens_are_words(s.drop_first());
        assert(split_whitespace(s) == split_whitespace(s.drop_first()));
    } else {
        lemma_token_end(s);
        let k = token_end(s) as int;
        assert(0 < k <= s.len());
        lemma_tokens_are_words(s.skip(k));
        let rest = split_whitespace(s.skip(k));
        let first = s.take(k);
        assert(is_word(first)) by {
            assert forall|j: int| 0 <= j < first.len() implies !is_whitespace(first[j]) by {
                assert(first[j] == s[j]);
            }
        }
        assert(split_whitespace(s) == seq![first] + rest);
        assert forall|i: int| 0 <= i < split_whitespace(s).len() implies is_word(
            #[trigger] split_whitespace(s)[i],
        ) by {
            if i > 0 {
                assert(split_whitespace(s)[i] == rest[i - 1]);
            } else {
                assert(split_whitespace(s)[0] == first);
            }
        }
    }
}

/// A word is its own only token.
pub proof fn lemma_split_word(w: Seq<char>)
    requires
        is_word(w),
    ensures
        split_whitespace(w) == seq![w],
{
    lemma_token_end_is(w, w.len() as int);
    assert(w.take(w.len() as int) =~= w);
    assert(w.skip(w.len() as int).len() == 0);
    assert(split_whitespace(w.skip(w.len() as int)) =~= Seq::<Seq<char>>::empty());
    assert(!is_whitespace(w[0]));
    assert(split_whitespace(w) =~= seq![w]);
}

/// A word that follows a string and a space is one more token.
pub proof fn lemma_split_append_word(a: Seq<char>, w: Seq<char>)
    requires
        is_word(w),
    ensures
        split_whitespace(a + seq![' '] + w) == split_whitespace(a).push(w),
    decreases a.len(),
{
    let s = a + seq![' '] + w;
    if a.len() == 0 {
        assert(is_whitespace(s[0]));
        assert(s.drop_first() =~= w);
        lemma_split_word(w);
        assert(split_whitespace(a).push(w) =~= seq![w]);
    } else if is_whitespace(a[0]) {
        assert(s[0] == a[0]);
        assert(s.drop_first() =~= a.drop_first() + seq![' '] + w);
        lemma_split_append_word(a.drop_first(), w);
    } else {
        assert(s[0] == a[0]);
        lemma_token_end(a);
        let k = token_end(a) as int;
        assert forall|i: int| 0 <= i < k implies !is_whitespace(s[i]) by {
            assert(s[i] == a[i]);
        }
        if k < a.len() {
            assert(s[k] == a[k]);
        } else {
            assert(s[k] == ' ');
        }
        lemma_token_end_is(s, k);
        assert(s.take(k) =~= a.take(k));
        assert(s.skip(k) =~= a.skip(k) + seq![' '] + w);
        lemma_split_append_word(a.skip(k), w);
        assert(split_whitespace(s) =~= split_whitespace(a).push(w));
    }
}

/// Words joined by single spaces are the tokens of the result.
pub proof fn lemma_split_join(words: Seq<Seq<char>>)
    requires
        forall|i: int| 0 <= i < words.len() ==> is_word(#[trigger] words[i]),
    ensures
        split_whitespace(join(words, seq![' '])) == words,
    decreases words.len(),
{
    if words.len() == 0 {
        assert(split_whitespace(join(words, seq![' '])) =~= words);
    } else if words.len() == 1 {
        lemma_split_word(words[0]);
        assert(seq![words[0]] =~= words);
    } else {
        lemma_split_join(words.drop_last());
        lemma_split_append_word(join(words.drop_last(), seq![' ']), words.last());
        assert(words.drop_last().push(words.last()) =~= words);
    }
}

/// The tokens of `s`, as `split_whitespace` of the standard library yields
/// them.
pub fn words(s: &str) -> (r: Vec<String>)
    ensures
        strs(r@) == split_whitespace(s@),
{
    let chars = chars_of(s);
    let n = chars.len();
    let mut out: Vec<String> = Vec::new();
    let mut i: usize = 0;
    assert(s@.skip(0) =~= s@);
    assert(strs(out@) + split_whitespace(s@) =~= split_whitespace(s@));
    while i < n
        invariant
            i <= n,
            n == chars.len(),
            chars@ == s@,
            split_whitespace(s@) == strs(out@) + split_whitespace(s@.skip(i as int)),
        decreases n - i,
    {
        let ghost rest = s@.skip(i as int);
        let mut a: usize = i;
        while a < n && is_whitespace_char(chars[a])
            invariant
                i <= a <= n,
                n == chars.len(),
                chars@ == s@,
                forall|k: int| i <= k < a ==> is_whitespace(s@[k]),
            decreases n - a,
        {
            a += 1;
        }
        let mut b: usize = a;
        while b < n && !is_whitespace_char(chars[b])
            invariant
                a <= b <= n,
                n == chars.len(),
                chars@ == s@,
                forall|k: int| a <= k < b ==> !is_whitespace(s@[k]),
            decreases n - b,
        {
            b += 1;
        }
        let ghost t = s@.skip(a as int);
        proof {
            lemma_split_after_whitespace(rest, a - i);
            assert(rest.skip(a - i) =~= t);
            lemma_token_end_is(t, b - a);
            assert(t.skip(b - a) =~= s@.skip(b as int));
            assert(t.take(b - a) =~= s@.subrange(a as int, b as int));
        }
        if a < b {
            let word = slice_chars(s, a, b).to_owned();
            let ghost before = strs(out@);
            out.push(word);
            assert(strs(out@) =~= before + seq![word@]);
            assert(split_whitespace(t) == seq![word@] + split_whitespace(s@.skip(b as int)));
            assert(split_whitespace(s@) =~= strs(out@) + split_whitespace(s@.skip(b as int)));
        } else {
            assert(b == n);
        }
        i = b;
    }
    assert(s@.skip(n as int).len() == 0);
    assert(strs(out@) + Seq::<Seq<char>>::empty() =~= strs(out@));
    out
}

/// The items of `parts`, each two neighbours separated by `separator`.
pub open spec fn join(parts: Seq<Seq<char>>, separator: Seq<char>) -> Seq<char>
    decreases parts.len(),
{
    if parts.len() == 0 {
        Seq::empty()
    } else if parts.len() == 1 {
        parts[0]
    } else {
        join(parts.drop_last(), separator) + separator + parts.last()
    }
}

/// The items of `parts`, each two neighbours separated by `separator`.
pub fn join_with(parts: &Vec<String>, separator: &str) -> (r: String)
    ensures
        r@ == join(strs(parts@), separator@),
{
    let mut out = String::new();
    let mut i: usize = 0;
    while i < parts.len()
        invariant
            i <= parts.len(),
            out@ == join(strs(parts@).take(i as int), separator@),
        decreases parts.len() - i,
    {
        let ghost prefix = strs(parts@).take(i as int);
        let ghost next = strs(parts@).take(i + 1);
        assert(next.drop_last() =~= prefix);
        assert(next.last() == parts@[i as int]@);
        if i > 0 {
            out.append(separator);
        }
        out.append(parts[i].as_str());
        proof {
            if i == 0 {
                assert(out@ =~= parts@[0]@);
            }
        }
        i += 1;
    }
    assert(strs(parts@).take(parts.len() as int) =~= strs(parts@));
    out
}

/// What `str::to_lowercase` of the standard library returns for a string
/// slice that holds `s`: its lowercase equivalent under Unicode's `Lowercase`
/// property.
pub uninterp spec fn lowercase(s: Seq<char>) -> Seq<char>;

/// `str::to_lowercase` of the standard library; the result is named by
/// `lowercase`.
#[verifier::external_body]
pub(crate) fn to_lowercase(s: &str) -> (r: String)
    ensures
        r@ == lowercase(s@),
{
    s.to_lowercase()
}

} // verus!
