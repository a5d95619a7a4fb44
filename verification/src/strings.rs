//! Character sequences: whitespace, trimming, splitting into words and
//! joining, all stated over `Seq<char>`.
use vstd::prelude::*;

verus! {

/// `String::push`. Claimed, as its documentation says: the character is
/// appended to the end of the string.
pub assume_specification[ std::string::String::push ](s: &mut String, ch: char)
    ensures
        final(s)@ == old(s)@.push(ch),
;

/// The Unicode `White_Space` property, which is what `char::is_whitespace`
/// and the `trim`/`split_whitespace` family of `str` test.
pub open spec fn is_space(c: char) -> bool {
    ||| ('\u{9}' <= c && c <= '\u{d}')
    ||| c == ' '
    ||| c == '\u{85}'
    ||| c == '\u{a0}'
    ||| c == '\u{1680}'
    ||| ('\u{2000}' <= c && c <= '\u{200a}')
    ||| c == '\u{2028}'
    ||| c == '\u{2029}'
    ||| c == '\u{202f}'
    ||| c == '\u{205f}'
    ||| c == '\u{3000}'
}

pub fn is_whitespace_char(c: char) -> (r: bool)
    ensures
        r == is_space(c),
{
    ('\u{9}' <= c && c <= '\u{d}') || c == ' ' || c == '\u{85}' || c == '\u{a0}' || c
        == '\u{1680}' || ('\u{2000}' <= c && c <= '\u{200a}') || c == '\u{2028}' || c
        == '\u{2029}' || c == '\u{202f}' || c == '\u{205f}' || c == '\u{3000}'
}

/// The text without its leading whitespace.
pub open spec fn trim_start(s: Seq<char>) -> Seq<char>
    decreases s.len(),
{
    if s.len() > 0 && is_space(s[0]) {
        trim_start(s.drop_first())
    } else {
        s
    }
}

/// The text without its trailing whitespace.
pub open spec fn trim_end(s: Seq<char>) -> Seq<char>
    decreases s.len(),
{
    if s.len() > 0 && is_space(s.last()) {
        trim_end(s.drop_last())
    } else {
        s
    }
}

/// The text without leading and trailing whitespace.
pub open spec fn trim(s: Seq<char>) -> Seq<char> {
    trim_end(trim_start(s))
}

/// The maximal runs of non-whitespace characters, in order: what
/// `str::split_whitespace` yields.
pub open spec fn words(s: Seq<char>) -> Seq<Seq<char>> {
    let scan = word_scan(s);
    if scan.1.len() > 0 {
        scan.0.push(scan.1)
    } else {
        scan.0
    }
}

/// Words completed so far, and the word still being read, after reading `s`.
pub open spec fn word_scan(s: Seq<char>) -> (Seq<Seq<char>>, Seq<char>)
    decreases s.len(),
{
    if s.len() == 0 {
        (seq![], seq![])
    } else {
        let prev = word_scan(s.drop_last());
        if is_space(s.last()) {
            if prev.1.len() > 0 {
                (prev.0.push(prev.1), seq![])
            } else {
                prev
            }
        } else {
            (prev.0, prev.1.push(s.last()))
        }
    }
}

/// The parts, with `sep` between each two neighbours.
pub open spec fn join(parts: Seq<Seq<char>>, sep: Seq<char>) -> Seq<char>
    decreases parts.len(),
{
    if parts.len() == 0 {
        seq![]
    } else if parts.len() == 1 {
        parts[0]
    } else {
        join(parts.drop_last(), sep) + sep + parts.last()
    }
}

/// The views of a sequence of strings.
pub open spec fn views(v: Seq<String>) -> Seq<Seq<char>> {
    v.map_values(|s: String| s@)
}

/// The words of `s`, separated by single spaces.
pub open spec fn collapse_spaces(s: Seq<char>) -> Seq<char> {
    join(words(s), seq![' '])
}

pub open spec fn ends_with_char(s: Seq<char>, c: char) -> bool {
    s.len() > 0 && s.last() == c
}

pub open spec fn starts_with_char(s: Seq<char>, c: char) -> bool {
    s.len() > 0 && s[0] == c
}

pub fn chars_of(text: &str) -> (chars: Vec<char>)
    ensures
        chars@ == text@,
{
    let mut chars: Vec<char> = Vec::new();
    for c in it: text.chars()
        invariant
            chars@ == it.seq().take(it.index() as int),
            it.seq() == text@,
    {
        chars.push(c);
    }
    chars
}

/// Appends `chars[from..to]` to `out`.
pub fn push_range(out: &mut String, chars: &Vec<char>, from: usize, to: usize)
    requires
        from <= to <= chars.len(),
    ensures
        final(out)@ == old(out)@ + chars@.subrange(from as int, to as int),
{
    let mut i = from;
    while i < to
        invariant
            from <= i <= to <= chars.len(),
            out@ == old(out)@ + chars@.subrange(from as int, i as int),
        decreases to - i,
    {
        out.push(chars[i]);
        i = i + 1;
        assert(chars@.subrange(from as int, i as int) == chars@.subrange(
            from as int,
            i - 1,
        ).push(chars@[i - 1]));
    }
}

pub fn string_from_range(chars: &Vec<char>, from: usize, to: usize) -> (s: String)
    requires
        from <= to <= chars.len(),
    ensures
        s@ == chars@.subrange(from as int, to as int),
{
    let mut s = String::new();
    push_range(&mut s, chars, from, to);
    s
}

pub fn string_from_chars(chars: &Vec<char>) -> (s: String)
    ensures
        s@ == chars@,
{
    let s = string_from_range(chars, 0, chars.len());
    assert(chars@.subrange(0, chars@.len() as int) == chars@);
    s
}

pub proof fn lemma_trim_start_skip(s: Seq<char>, k: int)
    requires
        0 <= k <= s.len(),
        forall|i: int| 0 <= i < k ==> is_space(#[trigger] s[i]),
    ensures
        trim_start(s) == trim_start(s.skip(k)),
    decreases k,
{
    if k > 0 {
        assert(s.drop_first().skip(k - 1) == s.skip(k));
        lemma_trim_start_skip(s.drop_first(), k - 1);
    } else {
        assert(s.skip(0) == s);
    }
}

pub proof fn lemma_trim_end_take(s: Seq<char>, k: int)
    requires
        0 <= k <= s.len(),
        forall|i: int| k <= i < s.len() ==> is_space(#[trigger] s[i]),
    ensures
        trim_end(s) == trim_end(s.take(k)),
    decreases s.len() - k,
{
    if k < s.len() {
        assert(s.drop_last().take(k) == s.take(k));
        lemma_trim_end_take(s.drop_last(), k);
    } else {
        assert(s.take(k) == s);
    }
}

/// Once no word is pending, reading more text only adds the words of that
/// text.
pub proof fn lemma_word_scan_concat(x: Seq<char>, b: Seq<char>)
    requires
        word_scan(x).1.len() == 0,
    ensures
        word_scan(x + b) == (word_scan(x).0 + word_scan(b).0, word_scan(b).1),
    decreases b.len(),
{
    if b.len() == 0 {
        assert(x + b == x);
        assert(word_scan(x).0 + word_scan(b).0 == word_scan(x).0);
    } else {
        assert((x + b).drop_last() == x + b.drop_last());
        lemma_word_scan_concat(x, b.drop_last());
        let w = word_scan(x).0;
        let prev = word_scan(b.drop_last());
        assert((x + b).last() == b.last());
        if is_space(b.last()) {
            if prev.1.len() > 0 {
                assert((w + prev.0).push(prev.1) == w + prev.0.push(prev.1));
            }
        }
    }
}

/// A space between two texts keeps their words apart.
pub proof fn lemma_words_spaced(a: Seq<char>, b: Seq<char>)
    ensures
        words(a + seq![' '] + b) == words(a) + words(b),
{
    let x = a + seq![' '];
    assert(x.drop_last() == a);
    assert(is_space(x.last()));
    assert(word_scan(x).0 == words(a));
    lemma_word_scan_concat(x, b);
    let wb = word_scan(b);
    if wb.1.len() > 0 {
        assert((words(a) + wb.0).push(wb.1) == words(a) + wb.0.push(wb.1));
    }
}

/// Leading and trailing whitespace hold no word.
pub proof fn lemma_words_trim(s: Seq<char>)
    ensures
        words(trim(s)) == words(s),
{
    lemma_words_trim_end(trim_start(s));
    lemma_words_trim_start(s);
}

pub proof fn lemma_words_trim_start(s: Seq<char>)
    ensures
        words(trim_start(s)) == words(s),
    decreases s.len(),
{
    if s.len() > 0 && is_space(s[0]) {
        let head = seq![s[0]];
        assert(head.drop_last() == Seq::<char>::empty());
        assert(word_scan(head) == word_scan(Seq::<char>::empty()));
        assert(head + s.drop_first() == s);
        lemma_word_scan_concat(head, s.drop_first());
        assert(Seq::<Seq<char>>::empty() + word_scan(s.drop_first()).0 == word_scan(
            s.drop_first(),
        ).0);
        lemma_words_trim_start(s.drop_first());
    }
}

pub proof fn lemma_words_trim_end(s: Seq<char>)
    ensures
        words(trim_end(s)) == words(s),
    decreases s.len(),
{
    if s.len() > 0 && is_space(s.last()) {
        lemma_words_trim_end(s.drop_last());
    }
}

/// Every word is a non-empty run without whitespace.
pub open spec fn is_word(w: Seq<char>) -> bool {
    w.len() > 0 && forall|i: int| 0 <= i < w.len() ==> !is_space(#[trigger] w[i])
}

pub proof fn lemma_word_scan_shape(s: Seq<char>)
    ensures
        forall|i: int| 0 <= i < word_scan(s).0.len() ==> is_word(#[trigger] word_scan(s).0[i]),
        forall|i: int| 0 <= i < word_scan(s).1.len() ==> !is_space(#[trigger] word_scan(s).1[i]),
    decreases s.len(),
{
    if s.len() > 0 {
        lemma_word_scan_shape(s.drop_last());
        let prev = word_scan(s.drop_last());
        let cur = word_scan(s);
        if is_space(s.last()) {
            if prev.1.len() > 0 {
                assert forall|i: int| 0 <= i < cur.0.len() implies is_word(#[trigger] cur.0[i]) by {
                    if i < prev.0.len() {
                        assert(cur.0[i] == prev.0[i]);
                    } else {
                        assert(cur.0[i] == prev.1);
                    }
                }
            }
        } else {
            assert forall|i: int| 0 <= i < cur.1.len() implies !is_space(#[trigger] cur.1[i]) by {
                if i < prev.1.len() {
                    assert(cur.1[i] == prev.1[i]);
                }
            }
        }
    }
}

/// The words of a text are words.
pub proof fn lemma_words_are_words(s: Seq<char>)
    ensures
        forall|i: int| 0 <= i < words(s).len() ==> is_word(#[trigger] words(s)[i]),
{
    lemma_word_scan_shape(s);
    let scan = word_scan(s);
    if scan.1.len() > 0 {
        assert forall|i: int| 0 <= i < words(s).len() implies is_word(#[trigger] words(s)[i]) by {
            if i < scan.0.len() {
                assert(words(s)[i] == scan.0[i]);
            }
        }
    }
}

/// Text without whitespace is read as it is.
pub proof fn lemma_word_scan_unspaced(w: Seq<char>)
    requires
        forall|i: int| 0 <= i < w.len() ==> !is_space(#[trigger] w[i]),
    ensures
        word_scan(w) == (Seq::<Seq<char>>::empty(), w),
    decreases w.len(),
{
    if w.len() > 0 {
        assert(!is_space(w[w.len() - 1]));
        lemma_word_scan_unspaced(w.drop_last());
        assert(w.drop_last().push(w.last()) == w);
    }
}

/// A word is its own only word.
pub proof fn lemma_word_is_single(w: Seq<char>)
    requires
        is_word(w),
    ensures
        words(w) == seq![w],
{
    lemma_word_scan_unspaced(w);
    assert(Seq::<Seq<char>>::empty().push(w) == seq![w]);
}

/// Bounds of the trimmed text inside `chars`.
pub fn trim_bounds(chars: &Vec<char>) -> (r: (usize, usize))
    ensures
        r.0 <= r.1 <= chars.len(),
        chars@.subrange(r.0 as int, r.1 as int) == trim(chars@),
        trim_start(chars@) == chars@.skip(r.0 as int),
{
    let mut start: usize = 0;
    while start < chars.len() && is_whitespace_char(chars[start])
        invariant
            start <= chars.len(),
            forall|i: int| 0 <= i < start ==> is_space(#[trigger] chars@[i]),
        decreases chars.len() - start,
    {
        start = start + 1;
    }
    proof {
        lemma_trim_start_skip(chars@, start as int);
    }
    let mut end: usize = chars.len();
    while end > start && is_whitespace_char(chars[end - 1])
        invariant
            start <= end <= chars.len(),
            forall|i: int| end <= i < chars.len() ==> is_space(#[trigger] chars@[i]),
        decreases end,
    {
        end = end - 1;
    }
    proof {
        let rest = chars@.skip(start as int);
        assert(trim_start(rest) == rest);
        let k = end - start;
        assert forall|i: int| k <= i < rest.len() implies is_space(#[trigger] rest[i]) by {
            assert(rest[i] == chars@[i + start]);
        }
        lemma_trim_end_take(rest, k);
        assert(rest.take(k) == chars@.subrange(start as int, end as int));
        if k > 0 {
            assert(!is_space(rest.take(k).last()));
        }
    }
    (start, end)
}

pub fn trim_chars(chars: &Vec<char>) -> (s: String)
    ensures
        s@ == trim(chars@),
{
    let (a, b) = trim_bounds(chars);
    string_from_range(chars, a, b)
}

pub fn trim_str(text: &str) -> (s: String)
    ensures
        s@ == trim(text@),
{
    let chars = chars_of(text);
    trim_chars(&chars)
}

/// Splits into words, as `str::split_whitespace` does.
pub fn split_words(chars: &Vec<char>) -> (parts: Vec<String>)
    ensures
        views(parts@) == words(chars@),
{
    let mut parts: Vec<String> = Vec::new();
    let mut current = String::new();
    let mut i: usize = 0;
    while i < chars.len()
        invariant
            i <= chars.len(),
            views(parts@) == word_scan(chars@.take(i as int)).0,
            current@ == word_scan(chars@.take(i as int)).1,
        decreases chars.len() - i,
    {
        let c = chars[i];
        assert(chars@.take(i + 1).drop_last() == chars@.take(i as int));
        if is_whitespace_char(c) {
            if !current.as_str().is_empty() {
                let ghost before = parts@;
                let done = current;
                current = String::new();
                parts.push(done);
                assert(views(parts@) =~= views(before).push(done@));
            }
        } else {
            current.push(c);
        }
        i = i + 1;
        assert(views(parts@) == word_scan(chars@.take(i as int)).0);
    }
    assert(chars@.take(chars.len() as int) == chars@);
    if !current.as_str().is_empty() {
        let ghost before = parts@;
        let ghost last = current@;
        parts.push(current);
        assert(views(parts@) =~= views(before).push(last));
    }
    parts
}

pub fn split_words_str(text: &str) -> (parts: Vec<String>)
    ensures
        views(parts@) == words(text@),
{
    let chars = chars_of(text);
    split_words(&chars)
}

/// Joins the parts with `sep`, as `[String]::join` does.
pub fn join_strings(parts: &Vec<String>, sep: &str) -> (s: String)
    ensures
        s@ == join(views(parts@), sep@),
{
    let mut s = String::new();
    let mut i: usize = 0;
    while i < parts.len()
        invariant
            i <= parts.len(),
            s@ == join(views(parts@).take(i as int), sep@),
        decreases parts.len() - i,
    {
        let ghost before = views(parts@).take(i as int);
        assert(views(parts@).take(i + 1).drop_last() == before);
        if i > 0 {
            s.append(sep);
        }
        s.append(parts[i].as_str());
        i = i + 1;
    }
    assert(views(parts@).take(parts.len() as int) == views(parts@));
    s
}

/// Length of the text once its trailing whitespace is removed.
pub fn trim_end_len(chars: &Vec<char>) -> (k: usize)
    ensures
        k <= chars.len(),
        trim_end(chars@) == chars@.take(k as int),
{
    let mut end: usize = chars.len();
    while end > 0 && is_whitespace_char(chars[end - 1])
        invariant
            end <= chars.len(),
            forall|i: int| end <= i < chars.len() ==> is_space(#[trigger] chars@[i]),
        decreases end,
    {
        end = end - 1;
    }
    proof {
        lemma_trim_end_take(chars@, end as int);
    }
    end
}

pub fn has_suffix(s: &Vec<char>, suffix: &Vec<char>) -> (r: bool)
    ensures
        r == suffix@.is_suffix_of(s@),
{
    if suffix.len() > s.len() {
        return false;
    }
    let offset = s.len() - suffix.len();
    let mut i: usize = 0;
    while i < suffix.len()
        invariant
            offset == s.len() - suffix.len(),
            i <= suffix.len(),
            forall|j: int| 0 <= j < i ==> suffix@[j] == s@[offset + j],
        decreases suffix.len() - i,
    {
        if suffix[i] != s[offset + i] {
            assert(suffix@[i as int] != s@.subrange(offset as int, s@.len() as int)[i as int]);
            return false;
        }
        i = i + 1;
    }
    assert(suffix@ =~= s@.subrange(offset as int, s@.len() as int));
    true
}

pub fn has_prefix_at(s: &Vec<char>, at: usize, prefix: &Vec<char>) -> (r: bool)
    requires
        at <= s.len(),
    ensures
        r == prefix@.is_prefix_of(s@.skip(at as int)),
{
    if prefix.len() > s.len() - at {
        return false;
    }
    let mut i: usize = 0;
    while i < prefix.len()
        invariant
            at <= s.len(),
            prefix.len() <= s.len() - at,
            i <= prefix.len(),
            forall|j: int| 0 <= j < i ==> prefix@[j] == s@[at + j],
        decreases prefix.len() - i,
    {
        if prefix[i] != s[at + i] {
            assert(prefix@[i as int] != s@.skip(at as int)[i as int]);
            return false;
        }
        i = i + 1;
    }
    assert(prefix@ =~= s@.skip(at as int).take(prefix@.len() as int));
    true
}

pub fn same_chars(a: &Vec<char>, b: &Vec<char>) -> (r: bool)
    ensures
        r == (a@ == b@),
{
    if a.len() != b.len() {
        return false;
    }
    let mut i: usize = 0;
    while i < a.len()
        invariant
            a.len() == b.len(),
            i <= a.len(),
            forall|j: int| 0 <= j < i ==> a@[j] == b@[j],
        decreases a.len() - i,
    {
        if a[i] != b[i] {
            return false;
        }
        i = i + 1;
    }
    assert(a@ =~= b@);
    true
}

pub fn text_equals(a: &str, b: &str) -> (r: bool)
    ensures
        r == (a@ == b@),
{
    same_chars(&chars_of(a), &chars_of(b))
}

} // verus!
