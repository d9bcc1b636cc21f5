//! Characters and text: the character classes that `char` defines, and the
//! splitting and trimming of text, over `Seq<char>`.
use vstd::prelude::*;

verus! {

/// `char::is_whitespace`: the Unicode `White_Space` property.
pub open spec fn is_whitespace(c: char) -> bool {
    let v = c as u32;
    ||| 0x09 <= v <= 0x0d
    ||| v == 0x20
    ||| v == 0x85
    ||| v == 0xa0
    ||| v == 0x1680
    ||| 0x2000 <= v <= 0x200a
    ||| v == 0x2028
    ||| v == 0x2029
    ||| v == 0x202f
    ||| v == 0x205f
    ||| v == 0x3000
}

/// `char::is_control`: the Unicode general category `Cc`.
pub open spec fn is_control(c: char) -> bool {
    let v = c as u32;
    v <= 0x1f || 0x7f <= v <= 0x9f
}

pub open spec fn is_ascii_digit(c: char) -> bool {
    '0' <= c <= '9'
}

pub open spec fn is_ascii_uppercase(c: char) -> bool {
    'A' <= c <= 'Z'
}

pub open spec fn is_ascii_alphanumeric(c: char) -> bool {
    is_ascii_digit(c) || is_ascii_uppercase(c) || 'a' <= c <= 'z'
}

pub fn whitespace(c: char) -> (r: bool)
    ensures
        r == is_whitespace(c),
{
    let v = c as u32;
    (0x09 <= v && v <= 0x0d) || v == 0x20 || v == 0x85 || v == 0xa0 || v == 0x1680 || (0x2000
        <= v && v <= 0x200a) || v == 0x2028 || v == 0x2029 || v == 0x202f || v == 0x205f || v
        == 0x3000
}

pub fn control(c: char) -> (r: bool)
    ensures
        r == is_control(c),
{
    let v = c as u32;
    v <= 0x1f || (0x7f <= v && v <= 0x9f)
}

pub fn ascii_digit(c: char) -> (r: bool)
    ensures
        r == is_ascii_digit(c),
{
    '0' <= c && c <= '9'
}

pub fn ascii_uppercase(c: char) -> (r: bool)
    ensures
        r == is_ascii_uppercase(c),
{
    'A' <= c && c <= 'Z'
}

pub fn ascii_alphanumeric(c: char) -> (r: bool)
    ensures
        r == is_ascii_alphanumeric(c),
{
    ('0' <= c && c <= '9') || ('A' <= c && c <= 'Z') || ('a' <= c && c <= 'z')
}

/// The characters of `text`.
pub fn chars_of(text: &str) -> (chars: Vec<char>)
    ensures
        chars@ == text@,
{
    let mut chars: Vec<char> = Vec::new();
    for c in it: text.chars()
        invariant
            chars@ == it.seq().take(it.index() as int),
    {
        chars.push(c);
    }
    chars
}


/// `str::trim_start`: drops leading whitespace.
pub open spec fn trim_start(s: Seq<char>) -> Seq<char>
    decreases s.len(),
{
    if s.len() > 0 && is_whitespace(s[0]) {
        trim_start(s.drop_first())
    } else {
        s
    }
}

/// `str::trim_end`: drops trailing whitespace.
pub open spec fn trim_end(s: Seq<char>) -> Seq<char>
    decreases s.len(),
{
    if s.len() > 0 && is_whitespace(s.last()) {
        trim_end(s.drop_last())
    } else {
        s
    }
}

/// `str::trim`.
pub open spec fn trim(s: Seq<char>) -> Seq<char> {
    trim_end(trim_start(s))
}

/// `str::split(c)`: the pieces between occurrences of `c` (at least one).
pub open spec fn split_on(s: Seq<char>, c: char) -> Seq<Seq<char>>
    decreases s.len(),
{
    if s.len() == 0 {
        seq![Seq::<char>::empty()]
    } else {
        let p = split_on(s.drop_last(), c);
        if s.last() == c {
            p.push(Seq::<char>::empty())
        } else {
            p.update(p.len() - 1, p.last().push(s.last()))
        }
    }
}

/// The position of the first `c` in `s`.
pub open spec fn first_position(s: Seq<char>, c: char) -> Option<int>
    decreases s.len(),
{
    if s.len() == 0 {
        None
    } else if s[0] == c {
        Some(0)
    } else {
        match first_position(s.drop_first(), c) {
            Some(i) => Some(i + 1),
            None => None,
        }
    }
}

/// `str::strip_prefix`.
pub open spec fn strip_prefix(s: Seq<char>, prefix: Seq<char>) -> Option<Seq<char>> {
    if prefix.len() <= s.len() && s.take(prefix.len() as int) == prefix {
        Some(s.skip(prefix.len() as int))
    } else {
        None
    }
}

/// `str::strip_suffix`.
pub open spec fn strip_suffix(s: Seq<char>, suffix: Seq<char>) -> Option<Seq<char>> {
    if suffix.len() <= s.len() && s.skip(s.len() - suffix.len()) == suffix {
        Some(s.take(s.len() - suffix.len()))
    } else {
        None
    }
}

pub proof fn lemma_trim_start(s: Seq<char>, k: int)
    requires
        0 <= k <= s.len(),
        forall|i: int| 0 <= i < k ==> is_whitespace(s[i]),
        k == s.len() || !is_whitespace(s[k]),
    ensures
        trim_start(s) == s.skip(k),
    decreases k,
{
    if k > 0 {
        lemma_trim_start(s.drop_first(), k - 1);
        assert(s.drop_first().skip(k - 1) =~= s.skip(k));
    } else {
        assert(s.skip(0) =~= s);
    }
}

pub proof fn lemma_trim_end(s: Seq<char>, k: int)
    requires
        0 <= k <= s.len(),
        forall|i: int| k <= i < s.len() ==> is_whitespace(s[i]),
        k == 0 || !is_whitespace(s[k - 1]),
    ensures
        trim_end(s) == s.take(k),
    decreases s.len() - k,
{
    if k < s.len() {
        lemma_trim_end(s.drop_last(), k);
        assert(s.drop_last().take(k) =~= s.take(k));
    } else {
        assert(s.take(k) =~= s);
    }
}

pub proof fn lemma_split_on_nonempty(s: Seq<char>, c: char)
    ensures
        split_on(s, c).len() >= 1,
    decreases s.len(),
{
    if s.len() > 0 {
        lemma_split_on_nonempty(s.drop_last(), c);
    }
}

pub proof fn lemma_first_position(s: Seq<char>, c: char, k: int)
    requires
        0 <= k <= s.len(),
        forall|i: int| 0 <= i < k ==> s[i] != c,
        k == s.len() || s[k] == c,
    ensures
        first_position(s, c) == (if k == s.len() {
            None::<int>
        } else {
            Some(k)
        }),
    decreases k,
{
    if k > 0 {
        lemma_first_position(s.drop_first(), c, k - 1);
    }
}

/// `String::push`: claimed to append `c` to the text.
#[verifier::external_body]
pub fn push_char(text: &mut String, c: char)
    ensures
        final(text)@ == old(text)@.push(c),
{
    text.push(c);
}

/// The text made of `chars[from..to]`.
pub fn string_of(chars: &[char], from: usize, to: usize) -> (text: String)
    requires
        from <= to <= chars@.len(),
    ensures
        text@ == chars@.subrange(from as int, to as int),
{
    let mut text = String::new();
    let mut i = from;
    while i < to
        invariant
            from <= i <= to <= chars@.len(),
            text@ == chars@.subrange(from as int, i as int),
        decreases to - i,
    {
        push_char(&mut text, chars[i]);
        assert(text@ =~= chars@.subrange(from as int, i + 1));
        i = i + 1;
    }
    text
}

/// The bounds of `trim(chars[from..to])` inside `chars`.
pub fn trim_bounds(chars: &[char], from: usize, to: usize) -> (bounds: (usize, usize))
    requires
        from <= to <= chars@.len(),
    ensures
        from <= bounds.0 <= bounds.1 <= to,
        chars@.subrange(bounds.0 as int, bounds.1 as int) == trim(
            chars@.subrange(from as int, to as int),
        ),
{
    let ghost s = chars@.subrange(from as int, to as int);
    let mut a = from;
    while a < to && whitespace(chars[a])
        invariant
            from <= a <= to <= chars@.len(),
            s == chars@.subrange(from as int, to as int),
            forall|i: int| from <= i < a ==> is_whitespace(chars@[i]),
        decreases to - a,
    {
        a = a + 1;
    }
    proof {
        lemma_trim_start(s, a - from);
        assert(s.skip(a - from) =~= chars@.subrange(a as int, to as int));
    }
    let ghost t = chars@.subrange(a as int, to as int);
    let mut b = to;
    while b > a && whitespace(chars[b - 1])
        invariant
            from <= a <= b <= to <= chars@.len(),
            t == chars@.subrange(a as int, to as int),
            forall|i: int| b <= i < to ==> is_whitespace(chars@[i]),
        decreases b - a,
    {
        b = b - 1;
    }
    proof {
        lemma_trim_end(t, b - a);
        assert(t.take(b - a) =~= chars@.subrange(a as int, b as int));
    }
    (a, b)
}

/// Whether `chars[from..to]` equals `other`.
pub fn range_equals(chars: &[char], from: usize, to: usize, other: &[char]) -> (equal: bool)
    requires
        from <= to <= chars@.len(),
    ensures
        equal == (chars@.subrange(from as int, to as int) == other@),
{
    if to - from != other.len() {
        return false;
    }
    let mut i: usize = 0;
    while i < other.len()
        invariant
            from <= to <= chars@.len(),
            to - from == other@.len(),
            0 <= i <= other@.len(),
            forall|j: int| 0 <= j < i ==> chars@[from + j] == other@[j],
        decreases other@.len() - i,
    {
        if chars[from + i] != other[i] {
            return false;
        }
        i = i + 1;
    }
    assert(chars@.subrange(from as int, to as int) =~= other@);
    true
}

/// The position of the first `c` in `chars[from..to]`, relative to `from`.
pub fn find_char(chars: &[char], from: usize, to: usize, c: char) -> (found: Option<usize>)
    requires
        from <= to <= chars@.len(),
    ensures
        match found {
            Some(i) => first_position(chars@.subrange(from as int, to as int), c) == Some(
                i as int,
            ) && i < to - from,
            None => first_position(chars@.subrange(from as int, to as int), c) is None,
        },
{
    let ghost s = chars@.subrange(from as int, to as int);
    let mut i = from;
    while i < to
        invariant
            from <= i <= to <= chars@.len(),
            s == chars@.subrange(from as int, to as int),
            forall|j: int| from <= j < i ==> chars@[j] != c,
        decreases to - i,
    {
        if chars[i] == c {
            proof {
                lemma_first_position(s, c, i - from);
            }
            return Some(i - from);
        }
        i = i + 1;
    }
    proof {
        lemma_first_position(s, c, s.len() as int);
    }
    None
}


/// The spans `(start, end)` of the words of `s`, the maximal runs of
/// non-whitespace characters, from left to right (`str::split_whitespace`).
pub open spec fn word_spans(s: Seq<char>) -> Seq<(int, int)>
    decreases s.len(),
{
    if s.len() == 0 {
        seq![]
    } else {
        let p = word_spans(s.drop_last());
        let n = s.len() - 1;
        if is_whitespace(s[n]) {
            p
        } else if n > 0 && !is_whitespace(s[n - 1]) {
            p.update(p.len() - 1, (p.last().0, n + 1))
        } else {
            p.push((n, n + 1))
        }
    }
}

/// `str::split_whitespace`, collected.
pub open spec fn split_whitespace(s: Seq<char>) -> Seq<Seq<char>> {
    word_spans(s).map_values(|sp: (int, int)| s.subrange(sp.0, sp.1))
}

pub proof fn lemma_word_spans(s: Seq<char>)
    ensures
        forall|k: int|
            0 <= k < word_spans(s).len() ==> 0 <= #[trigger] word_spans(s)[k].0 < word_spans(
                s,
            )[k].1 <= s.len(),
        s.len() > 0 && !is_whitespace(s.last()) ==> word_spans(s).len() > 0 && word_spans(
            s,
        ).last().1 == s.len(),
    decreases s.len(),
{
    if s.len() > 0 {
        let t = s.drop_last();
        lemma_word_spans(t);
        let p = word_spans(t);
        let n = s.len() - 1;
        if n > 0 && !is_whitespace(s[n - 1]) && !is_whitespace(s[n]) {
            assert(t.last() == s[n - 1]);
            assert(p.len() > 0);
            assert(p[p.len() - 1].0 < p[p.len() - 1].1);
        }
        assert forall|k: int| 0 <= k < word_spans(s).len() implies 0 <= #[trigger] word_spans(
            s,
        )[k].0 < word_spans(s)[k].1 <= s.len() by {
            if k < p.len() {
                assert(0 <= p[k].0 < p[k].1 <= t.len());
            }
        }
    }
}

/// The word spans of `chars`, as `word_spans` gives them.
pub fn word_bounds(chars: &[char]) -> (spans: Vec<(usize, usize)>)
    ensures
        spans@.len() == word_spans(chars@).len(),
        forall|k: int|
            0 <= k < spans@.len() ==> spans@[k].0 as int == word_spans(chars@)[k].0
                && spans@[k].1 as int == word_spans(chars@)[k].1,
        forall|k: int| 0 <= k < spans@.len() ==> (#[trigger] spans@[k]).0 < spans@[k].1 <= chars@.len(),
{
    let mut spans: Vec<(usize, usize)> = Vec::new();
    let mut i: usize = 0;
    while i < chars.len()
        invariant
            0 <= i <= chars@.len(),
            spans@.len() == word_spans(chars@.take(i as int)).len(),
            forall|k: int|
                0 <= k < spans@.len() ==> spans@[k].0 as int == word_spans(chars@.take(i as int))[k].0
                    && spans@[k].1 as int == word_spans(chars@.take(i as int))[k].1,
        decreases chars@.len() - i,
    {
        proof {
            lemma_word_spans(chars@.take(i as int));
            assert(chars@.take(i + 1).drop_last() =~= chars@.take(i as int));
        }
        if whitespace(chars[i]) {
        } else if i > 0 && !whitespace(chars[i - 1]) {
            let last = spans.len() - 1;
            let start = spans[last].0;
            spans.set(last, (start, i + 1));
        } else {
            spans.push((i, i + 1));
        }
        i = i + 1;
    }
    proof {
        assert(chars@.take(chars@.len() as int) =~= chars@);
        lemma_word_spans(chars@);
    }
    spans
}


/// The bounds of the pieces of `chars[from..to]` between occurrences of `sep`,
/// as `split_on` gives them.
pub fn split_bounds(chars: &[char], from: usize, to: usize, sep: char) -> (pieces: Vec<(usize, usize)>)
    requires
        from <= to <= chars@.len(),
    ensures
        pieces@.len() == split_on(chars@.subrange(from as int, to as int), sep).len(),
        forall|k: int|
            0 <= k < pieces@.len() ==> from <= (#[trigger] pieces@[k]).0 <= pieces@[k].1 <= to
                && chars@.subrange(pieces@[k].0 as int, pieces@[k].1 as int) == split_on(
                chars@.subrange(from as int, to as int),
                sep,
            )[k],
{
    let mut pieces: Vec<(usize, usize)> = Vec::new();
    pieces.push((from, from));
    proof {
        assert(chars@.subrange(from as int, from as int) =~= Seq::<char>::empty());
    }
    let mut i = from;
    while i < to
        invariant
            from <= i <= to <= chars@.len(),
            pieces@.len() == split_on(chars@.subrange(from as int, i as int), sep).len(),
            pieces@.len() >= 1,
            pieces@.last().1 == i,
            forall|k: int|
                0 <= k < pieces@.len() ==> from <= (#[trigger] pieces@[k]).0 <= pieces@[k].1 <= i
                    && chars@.subrange(pieces@[k].0 as int, pieces@[k].1 as int) == split_on(
                    chars@.subrange(from as int, i as int),
                    sep,
                )[k],
        decreases to - i,
    {
        proof {
            assert(chars@.subrange(from as int, i + 1).drop_last() =~= chars@.subrange(
                from as int,
                i as int,
            ));
            lemma_split_on_nonempty(chars@.subrange(from as int, i as int), sep);
        }
        if chars[i] == sep {
            pieces.push((i + 1, i + 1));
            proof {
                assert(chars@.subrange(i + 1, i + 1) =~= Seq::<char>::empty());
            }
        } else {
            let last = pieces.len() - 1;
            let start = pieces[last].0;
            pieces.set(last, (start, i + 1));
            proof {
                assert(chars@.subrange(start as int, i + 1) =~= chars@.subrange(
                    start as int,
                    i as int,
                ).push(chars@[i as int]));
            }
        }
        i = i + 1;
    }
    pieces
}

} // verus!
