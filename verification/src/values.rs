//! The value syntax of the configuration document: assignments, quoted
//! values and `env("NAME")` references, string lists, integers and block
//! identifiers.
use crate::text::{
    ascii_alphanumeric, ascii_digit, ascii_uppercase, chars_of, find_char, first_position,
    is_ascii_alphanumeric, is_ascii_digit, is_ascii_uppercase,
    range_equals, split_bounds, split_on, string_of, strip_prefix, strip_suffix, trim, trim_bounds,
};
use vstd::prelude::*;

verus! {

/// Where a configuration value comes from.
pub enum ValueRef {
    Literal(String),
    Environment(String),
}

pub enum ValueRefView {
    Literal(Seq<char>),
    Environment(Seq<char>),
}

impl View for ValueRef {
    type V = ValueRefView;

    open spec fn view(&self) -> ValueRefView {
        match self {
            ValueRef::Literal(s) => ValueRefView::Literal(s@),
            ValueRef::Environment(s) => ValueRefView::Environment(s@),
        }
    }
}

/// What is wrong with a value on a given line.
#[derive(Debug, PartialEq, Eq, Clone, Copy)]
pub enum SyntaxError {
    ExpectedAssignment,
    InvalidAssignment,
    InvalidEnvironmentReference,
    UnquotedValue,
    ExpectedStringList,
    UnquotedListValue,
    ExpectedInteger,
}

/// `key = value`: split at the first `=`, both sides trimmed and non-empty.
pub open spec fn assignment_of(line: Seq<char>) -> Result<(Seq<char>, Seq<char>), SyntaxError> {
    match first_position(line, '=') {
        None => Err(SyntaxError::ExpectedAssignment),
        Some(p) => {
            let key = trim(line.take(p));
            let value = trim(line.skip(p + 1));
            if key.len() == 0 || value.len() == 0 {
                Err(SyntaxError::InvalidAssignment)
            } else {
                Ok((key, value))
            }
        },
    }
}

pub open spec fn is_env_name_char(c: char) -> bool {
    is_ascii_uppercase(c) || is_ascii_digit(c) || c == '_'
}

/// A name of an environment variable: upper-case letters, digits and
/// underscores, at least one of them.
pub open spec fn is_env_name(name: Seq<char>) -> bool {
    &&& name.len() > 0
    &&& forall|i: int| 0 <= i < name.len() ==> is_env_name_char(#[trigger] name[i])
}

/// The text between `env("` and `")`, where `raw` has that shape.
pub open spec fn env_reference(raw: Seq<char>) -> Option<Seq<char>> {
    match strip_prefix(raw, "env(\""@) {
        Some(rest) => strip_suffix(rest, "\")"@),
        None => None,
    }
}

/// The text between two double quotes, where `raw` has that shape.
pub open spec fn quoted(raw: Seq<char>) -> Option<Seq<char>> {
    match strip_prefix(raw, "\""@) {
        Some(rest) => strip_suffix(rest, "\""@),
        None => None,
    }
}

/// `env("NAME")` names an environment variable; `"text"` is a literal.
pub open spec fn value_ref_of(raw: Seq<char>) -> Result<ValueRefView, SyntaxError> {
    match env_reference(raw) {
        Some(name) => if is_env_name(name) {
            Ok(ValueRefView::Environment(name))
        } else {
            Err(SyntaxError::InvalidEnvironmentReference)
        },
        None => match quoted(raw) {
            Some(text) => Ok(ValueRefView::Literal(text)),
            None => Err(SyntaxError::UnquotedValue),
        },
    }
}

/// One quoted list entry.
pub open spec fn list_entry_of(entry: Seq<char>) -> Option<Seq<char>> {
    quoted(trim(entry))
}

/// The entries of the first `n` comma-separated pieces, or the error of the
/// first piece that is not quoted.
pub open spec fn list_entries(pieces: Seq<Seq<char>>, n: int) -> Result<Seq<Seq<char>>, SyntaxError>
    decreases n,
{
    if n <= 0 {
        Ok(Seq::empty())
    } else {
        match list_entries(pieces, n - 1) {
            Err(e) => Err(e),
            Ok(entries) => match list_entry_of(pieces[n - 1]) {
                Some(entry) => Ok(entries.push(entry)),
                None => Err(SyntaxError::UnquotedListValue),
            },
        }
    }
}

/// `["a", "b"]`: a bracketed, comma-separated list of quoted strings.
pub open spec fn string_list_of(raw: Seq<char>) -> Result<Seq<Seq<char>>, SyntaxError> {
    let inner = match strip_prefix(raw, "["@) {
        Some(rest) => strip_suffix(rest, "]"@),
        None => None,
    };
    match inner {
        None => Err(SyntaxError::ExpectedStringList),
        Some(inner) => {
            let body = trim(inner);
            if body.len() == 0 {
                Ok(Seq::empty())
            } else {
                let pieces = split_on(body, ',');
                list_entries(pieces, pieces.len() as int)
            }
        },
    }
}

/// The number that a sequence of decimal digits denotes.
pub open spec fn digits_value(s: Seq<char>) -> int
    decreases s.len(),
{
    if s.len() == 0 {
        0
    } else {
        digits_value(s.drop_last()) * 10 + (s.last() as int - '0' as int)
    }
}

pub open spec fn all_digits(s: Seq<char>) -> bool {
    forall|i: int| 0 <= i < s.len() ==> is_ascii_digit(#[trigger] s[i])
}

/// Rust's parse of an unsigned integer of at most `max`: an optional `+`, then
/// one or more decimal digits.
pub open spec fn unsigned_of(s: Seq<char>, max: int) -> Option<int> {
    let digits = if s.len() > 1 && s[0] == '+' {
        s.drop_first()
    } else {
        s
    };
    if digits.len() > 0 && all_digits(digits) && digits_value(digits) <= max {
        Some(digits_value(digits))
    } else {
        None
    }
}

/// Rust's parse of an `i64`: an optional sign, then one or more decimal digits.
pub open spec fn i64_of(s: Seq<char>) -> Option<i64> {
    if s.len() > 1 && s[0] == '-' {
        let digits = s.drop_first();
        if all_digits(digits) && digits_value(digits) <= 0x8000_0000_0000_0000 {
            Some((-digits_value(digits)) as i64)
        } else {
            None
        }
    } else {
        match unsigned_of(s, 0x7fff_ffff_ffff_ffff) {
            Some(v) => Some(v as i64),
            None => None,
        }
    }
}

pub open spec fn is_identifier_char(c: char) -> bool {
    is_ascii_alphanumeric(c) || c == '-' || c == '_' || c == '.'
}

/// A block identifier: 1 to 64 ASCII letters, digits, dots, dashes or
/// underscores.
pub open spec fn is_identifier(s: Seq<char>) -> bool {
    &&& 0 < s.len() <= 64
    &&& forall|i: int| 0 <= i < s.len() ==> is_identifier_char(#[trigger] s[i])
}

/// `kind "id" {`: the id of a named block of the given kind.
pub open spec fn named_block_of(line: Seq<char>, kind: Seq<char>) -> Option<Seq<char>> {
    match strip_prefix(line, kind + " \""@) {
        Some(rest) => strip_suffix(rest, "\" {"@),
        None => None,
    }
}

/// The values of the first `n` comma-separated pieces that are not blank, or
/// `None` at the first one that is not an `i64`.
pub open spec fn id_values(pieces: Seq<Seq<char>>, n: int) -> Option<Seq<i64>>
    decreases n,
{
    if n <= 0 {
        Some(Seq::empty())
    } else {
        match id_values(pieces, n - 1) {
            None => None,
            Some(values) => {
                let piece = trim(pieces[n - 1]);
                if piece.len() == 0 {
                    Some(values)
                } else {
                    match i64_of(piece) {
                        Some(v) => Some(values.push(v)),
                        None => None,
                    }
                }
            },
        }
    }
}

/// A comma-separated list of `i64` values, blank entries skipped.
pub open spec fn id_list_of(s: Seq<char>) -> Option<Seq<i64>> {
    let pieces = split_on(s, ',');
    id_values(pieces, pieces.len() as int)
}

/// `s` without repeated elements, each kept where it first occurs.
pub open spec fn dedup<A>(s: Seq<A>) -> Seq<A>
    decreases s.len(),
{
    if s.len() == 0 {
        s
    } else {
        let d = dedup(s.drop_last());
        if d.contains(s.last()) {
            d
        } else {
            d.push(s.last())
        }
    }
}

// ---------------------------------------------------------------------------

pub proof fn lemma_dedup<A>(s: Seq<A>)
    ensures
        dedup(s).no_duplicates(),
        dedup(s).to_set() == s.to_set(),
    decreases s.len(),
{
    if s.len() > 0 {
        lemma_dedup(s.drop_last());
        let d = dedup(s.drop_last());
        assert(s.to_set() =~= s.drop_last().to_set().insert(s.last())) by {
            assert forall|x: A| s.to_set().contains(x) implies s.drop_last().to_set().insert(
                s.last(),
            ).contains(x) by {
                let i = choose|i: int| 0 <= i < s.len() && s[i] == x;
                if i < s.len() - 1 {
                    assert(s.drop_last()[i] == x);
                }
            }
            assert forall|x: A| s.drop_last().to_set().contains(x) implies s.to_set().contains(
                x,
            ) by {
                let i = choose|i: int| 0 <= i < s.drop_last().len() && s.drop_last()[i] == x;
                assert(s[i] == x);
            }
        }
        if !d.contains(s.last()) {
            assert(d.push(s.last()).to_set() =~= d.to_set().insert(s.last())) by {
                assert forall|x: A| d.push(s.last()).to_set().contains(x) implies d.to_set().insert(
                    s.last(),
                ).contains(x) by {
                    let i = choose|i: int|
                        0 <= i < d.push(s.last()).len() && d.push(s.last())[i] == x;
                    if i < d.len() {
                        assert(d[i] == x);
                    }
                }
                assert forall|x: A| d.to_set().contains(x) implies d.push(
                    s.last(),
                ).to_set().contains(x) by {
                    let i = choose|i: int| 0 <= i < d.len() && d[i] == x;
                    assert(d.push(s.last())[i] == x);
                }
                assert(d.push(s.last())[d.len() as int] == s.last());
            }
        } else {
            assert(d.to_set().contains(s.last()));
            assert(d.to_set() =~= d.to_set().insert(s.last()));
        }
    }
}

/// Whether `chars[from..to]` is the text `word`.
pub fn is_word(chars: &[char], from: usize, to: usize, word: &str) -> (same: bool)
    requires
        from <= to <= chars@.len(),
    ensures
        same == (chars@.subrange(from as int, to as int) == word@),
{
    let w = chars_of(word);
    range_equals(chars, from, to, w.as_slice())
}

/// Whether `chars[from..to]` starts with `prefix`.
pub fn has_prefix(chars: &[char], from: usize, to: usize, prefix: &str) -> (starts: bool)
    requires
        from <= to <= chars@.len(),
    ensures
        starts == (strip_prefix(chars@.subrange(from as int, to as int), prefix@) is Some),
        starts ==> from + prefix@.len() <= to && strip_prefix(
            chars@.subrange(from as int, to as int),
            prefix@,
        ) == Some(chars@.subrange(from + prefix@.len(), to as int)),
{
    let p = chars_of(prefix);
    if p.len() > to - from {
        return false;
    }
    let same = range_equals(chars, from, from + p.len(), p.as_slice());
    proof {
        let s = chars@.subrange(from as int, to as int);
        assert(s.take(p@.len() as int) =~= chars@.subrange(from as int, from + p@.len()));
        assert(s.skip(p@.len() as int) =~= chars@.subrange(from + p@.len(), to as int));
    }
    same
}

/// Whether `chars[from..to]` ends with `suffix`.
pub fn has_suffix(chars: &[char], from: usize, to: usize, suffix: &str) -> (ends: bool)
    requires
        from <= to <= chars@.len(),
    ensures
        ends == (strip_suffix(chars@.subrange(from as int, to as int), suffix@) is Some),
        ends ==> from + suffix@.len() <= to && strip_suffix(
            chars@.subrange(from as int, to as int),
            suffix@,
        ) == Some(chars@.subrange(from as int, to - suffix@.len())),
{
    let p = chars_of(suffix);
    if p.len() > to - from {
        return false;
    }
    let same = range_equals(chars, to - p.len(), to, p.as_slice());
    proof {
        let s = chars@.subrange(from as int, to as int);
        assert(s.skip(s.len() - p@.len()) =~= chars@.subrange(to - p@.len(), to as int));
        assert(s.take(s.len() - p@.len()) =~= chars@.subrange(from as int, to - p@.len()));
    }
    same
}

/// Splits the assignment in `chars[from..to]`; the key and value come back as
/// bounds into `chars`.
pub fn assignment(chars: &[char], from: usize, to: usize) -> (parts: Result<
    ((usize, usize), (usize, usize)),
    SyntaxError,
>)
    requires
        from <= to <= chars@.len(),
    ensures
        match parts {
            Ok(((ka, kb), (va, vb))) => ka <= kb <= to && va <= vb <= to && from <= ka && from
                <= va && assignment_of(chars@.subrange(from as int, to as int)) == Ok::<
                (Seq<char>, Seq<char>),
                SyntaxError,
            >((chars@.subrange(ka as int, kb as int), chars@.subrange(va as int, vb as int))),
            Err(e) => assignment_of(chars@.subrange(from as int, to as int)) == Err::<
                (Seq<char>, Seq<char>),
                SyntaxError,
            >(e),
        },
{
    let ghost line = chars@.subrange(from as int, to as int);
    let p = match find_char(chars, from, to, '=') {
        Some(p) => p,
        None => {
            return Err(SyntaxError::ExpectedAssignment);
        },
    };
    let (ka, kb) = trim_bounds(chars, from, from + p);
    let (va, vb) = trim_bounds(chars, from + p + 1, to);
    assert(line.take(p as int) =~= chars@.subrange(from as int, from + p));
    assert(line.skip(p + 1) =~= chars@.subrange(from + p + 1, to as int));
    if ka == kb || va == vb {
        return Err(SyntaxError::InvalidAssignment);
    }
    Ok(((ka, kb), (va, vb)))
}

/// Reads the value reference in `chars[from..to]`.
pub fn value_ref(chars: &[char], from: usize, to: usize) -> (value: Result<ValueRef, SyntaxError>)
    requires
        from <= to <= chars@.len(),
    ensures
        match value {
            Ok(v) => value_ref_of(chars@.subrange(from as int, to as int)) == Ok::<
                ValueRefView,
                SyntaxError,
            >(v@),
            Err(e) => value_ref_of(chars@.subrange(from as int, to as int)) == Err::<
                ValueRefView,
                SyntaxError,
            >(e),
        },
{
    let ghost raw = chars@.subrange(from as int, to as int);
    proof {
        reveal_strlit("env(\"");
        reveal_strlit("\")");
        reveal_strlit("\"");
    }
    if has_prefix(chars, from, to, "env(\"") {
        let a = from + 5;
        if has_suffix(chars, a, to, "\")") {
            let b = to - 2;
            let ghost name = chars@.subrange(a as int, b as int);
            assert(env_reference(raw) == Some(name));
            let mut i = a;
            while i < b
                invariant
                    a <= i <= b <= to <= chars@.len(),
                    raw == chars@.subrange(from as int, to as int),
                    name == chars@.subrange(a as int, b as int),
                    env_reference(raw) == Some(name),
                    forall|j: int| a <= j < i ==> is_env_name_char(#[trigger] chars@[j]),
                decreases b - i,
            {
                let c = chars[i];
                if !(ascii_uppercase(c) || ascii_digit(c) || c == '_') {
                    assert(name[i - a] == c);
                    assert(!is_env_name(name));
                    return Err(SyntaxError::InvalidEnvironmentReference);
                }
                i = i + 1;
            }
            if a == b {
                return Err(SyntaxError::InvalidEnvironmentReference);
            }
            assert forall|j: int| 0 <= j < name.len() implies is_env_name_char(
                #[trigger] name[j],
            ) by {
                assert(name[j] == chars@[a + j]);
            }
            return Ok(ValueRef::Environment(string_of(chars, a, b)));
        }
    }
    if has_prefix(chars, from, to, "\"") {
        if has_suffix(chars, from + 1, to, "\"") {
            return Ok(ValueRef::Literal(string_of(chars, from + 1, to - 1)));
        }
    }
    Err(SyntaxError::UnquotedValue)
}

proof fn lemma_list_error_sticks(pieces: Seq<Seq<char>>, k: int, m: int)
    requires
        0 <= k <= m,
        list_entries(pieces, k) is Err,
    ensures
        list_entries(pieces, m) == list_entries(pieces, k),
    decreases m - k,
{
    if m > k {
        lemma_list_error_sticks(pieces, k, m - 1);
    }
}

proof fn lemma_ids_error_sticks(pieces: Seq<Seq<char>>, k: int, m: int)
    requires
        0 <= k <= m,
        id_values(pieces, k) is None,
    ensures
        id_values(pieces, m) is None,
    decreases m - k,
{
    if m > k {
        lemma_ids_error_sticks(pieces, k, m - 1);
    }
}

/// Reads the quoted list entry in `chars[from..to]`.
fn list_entry(chars: &[char], from: usize, to: usize) -> (entry: Option<String>)
    requires
        from <= to <= chars@.len(),
    ensures
        match entry {
            Some(e) => list_entry_of(chars@.subrange(from as int, to as int)) == Some(e@),
            None => list_entry_of(chars@.subrange(from as int, to as int)) is None,
        },
{
    let (a, b) = trim_bounds(chars, from, to);
    proof {
        reveal_strlit("\"");
    }
    if has_prefix(chars, a, b, "\"") && has_suffix(chars, a + 1, b, "\"") {
        Some(string_of(chars, a + 1, b - 1))
    } else {
        None
    }
}

/// Reads the string list in `chars[from..to]`.
pub fn string_list(chars: &[char], from: usize, to: usize) -> (list: Result<
    Vec<String>,
    SyntaxError,
>)
    requires
        from <= to <= chars@.len(),
    ensures
        match list {
            Ok(v) => string_list_of(chars@.subrange(from as int, to as int)) == Ok::<
                Seq<Seq<char>>,
                SyntaxError,
            >(v@.map_values(|s: String| s@)),
            Err(e) => string_list_of(chars@.subrange(from as int, to as int)) == Err::<
                Seq<Seq<char>>,
                SyntaxError,
            >(e),
        },
{
    proof {
        reveal_strlit("[");
        reveal_strlit("]");
    }
    if !has_prefix(chars, from, to, "[") || !has_suffix(chars, from + 1, to, "]") {
        return Err(SyntaxError::ExpectedStringList);
    }
    let (a, b) = trim_bounds(chars, from + 1, to - 1);
    let mut entries: Vec<String> = Vec::new();
    if a == b {
        assert(entries@.map_values(|s: String| s@) =~= Seq::<Seq<char>>::empty());
        return Ok(entries);
    }
    let ghost body = chars@.subrange(a as int, b as int);
    let ghost pieces = split_on(body, ',');
    let bounds = split_bounds(chars, a, b, ',');
    assert(entries@.map_values(|s: String| s@) =~= Seq::<Seq<char>>::empty());
    assert(string_list_of(chars@.subrange(from as int, to as int)) == list_entries(
        pieces,
        pieces.len() as int,
    ));
    let mut k: usize = 0;
    while k < bounds.len()
        invariant
            0 <= k <= bounds@.len(),
            a <= b <= chars@.len(),
            pieces == split_on(chars@.subrange(a as int, b as int), ','),
            bounds@.len() == pieces.len(),
            forall|j: int|
                0 <= j < bounds@.len() ==> a <= (#[trigger] bounds@[j]).0 <= bounds@[j].1 <= b
                    && chars@.subrange(bounds@[j].0 as int, bounds@[j].1 as int) == pieces[j],
            list_entries(pieces, k as int) == Ok::<Seq<Seq<char>>, SyntaxError>(
                entries@.map_values(|s: String| s@),
            ),
            string_list_of(chars@.subrange(from as int, to as int)) == list_entries(
                pieces,
                pieces.len() as int,
            ),
        decreases bounds@.len() - k,
    {
        let (pa, pb) = bounds[k];
        match list_entry(chars, pa, pb) {
            Some(entry) => {
                entries.push(entry);
                assert(entries@.map_values(|s: String| s@) =~= list_entries(
                    pieces,
                    k as int,
                ).unwrap().push(entry@));
            },
            None => {
                proof {
                    lemma_list_error_sticks(pieces, k + 1, pieces.len() as int);
                }
                return Err(SyntaxError::UnquotedListValue);
            },
        }
        k = k + 1;
    }
    Ok(entries)
}

proof fn lemma_digits_prefix(s: Seq<char>, k: int)
    requires
        all_digits(s),
        0 <= k <= s.len(),
    ensures
        0 <= digits_value(s.take(k)) <= digits_value(s),
    decreases s.len(),
{
    if k == s.len() {
        assert(s.take(k) =~= s);
        if s.len() > 0 {
            lemma_digits_prefix(s.drop_last(), 0);
        }
    } else {
        let t = s.drop_last();
        assert(t.take(k) =~= s.take(k));
        lemma_digits_prefix(t, k);
    }
}

/// Reads the decimal digits `chars[from..to]` as a number of at most `max`.
fn parse_digits(chars: &[char], from: usize, to: usize, max: u64) -> (value: Option<u64>)
    requires
        from <= to <= chars@.len(),
    ensures
        ({
            let s = chars@.subrange(from as int, to as int);
            match value {
                Some(v) => all_digits(s) && digits_value(s) == v && v <= max,
                None => !(all_digits(s) && digits_value(s) <= max),
            }
        }),
{
    let ghost s = chars@.subrange(from as int, to as int);
    let mut value: u64 = 0;
    let mut i = from;
    assert(chars@.subrange(from as int, from as int) =~= Seq::<char>::empty());
    while i < to
        invariant
            from <= i <= to <= chars@.len(),
            s == chars@.subrange(from as int, to as int),
            all_digits(chars@.subrange(from as int, i as int)),
            value == digits_value(chars@.subrange(from as int, i as int)),
            value <= max,
        decreases to - i,
    {
        let c = chars[i];
        assert(s[i - from] == c);
        if !ascii_digit(c) {
            return None;
        }
        let d = ((c as u32) - ('0' as u32)) as u64;
        let ghost next = chars@.subrange(from as int, i + 1);
        assert(next.drop_last() =~= chars@.subrange(from as int, i as int));
        assert(digits_value(next) == value * 10 + d);
        assert(all_digits(next)) by {
            assert forall|j: int| 0 <= j < next.len() implies is_ascii_digit(#[trigger] next[j]) by {
                if j < next.len() - 1 {
                    assert(next[j] == chars@.subrange(from as int, i as int)[j]);
                }
            }
        }
        if d > max || value > (max - d) / 10 {
            proof {
                if all_digits(s) {
                    assert(s.take(i + 1 - from) =~= next);
                    lemma_digits_prefix(s, i + 1 - from);
                }
            }
            return None;
        }
        value = value * 10 + d;
        i = i + 1;
    }
    Some(value)
}

/// Reads `chars[from..to]` as an unsigned integer of at most `max`.
pub fn parse_unsigned(chars: &[char], from: usize, to: usize, max: u64) -> (value: Option<u64>)
    requires
        from <= to <= chars@.len(),
    ensures
        match value {
            Some(v) => unsigned_of(chars@.subrange(from as int, to as int), max as int) == Some(
                v as int,
            ),
            None => unsigned_of(chars@.subrange(from as int, to as int), max as int) is None,
        },
{
    let ghost s = chars@.subrange(from as int, to as int);
    let mut a = from;
    if to - from > 1 && chars[from] == '+' {
        a = from + 1;
        assert(s.drop_first() =~= chars@.subrange(a as int, to as int));
    } else {
        assert(s =~= chars@.subrange(a as int, to as int));
    }
    if a == to {
        return None;
    }
    parse_digits(chars, a, to, max)
}

/// Reads `chars[from..to]` as an `i64`.
pub fn parse_i64(chars: &[char], from: usize, to: usize) -> (value: Option<i64>)
    requires
        from <= to <= chars@.len(),
    ensures
        value == i64_of(chars@.subrange(from as int, to as int)),
{
    let ghost s = chars@.subrange(from as int, to as int);
    if to - from > 1 && chars[from] == '-' {
        assert(s.drop_first() =~= chars@.subrange(from + 1, to as int));
        match parse_digits(chars, from + 1, to, 0x8000_0000_0000_0000) {
            None => None,
            Some(v) => {
                if v == 0x8000_0000_0000_0000 {
                    Some(i64::MIN)
                } else {
                    let w = v as i64;
                    Some(-w)
                }
            },
        }
    } else {
        match parse_unsigned(chars, from, to, 0x7fff_ffff_ffff_ffff) {
            Some(v) => Some(v as i64),
            None => None,
        }
    }
}

/// Whether `chars[from..to]` is a valid block identifier.
pub fn identifier(chars: &[char], from: usize, to: usize) -> (valid: bool)
    requires
        from <= to <= chars@.len(),
    ensures
        valid == is_identifier(chars@.subrange(from as int, to as int)),
{
    let ghost s = chars@.subrange(from as int, to as int);
    if from == to || to - from > 64 {
        return false;
    }
    let mut i = from;
    while i < to
        invariant
            from <= i <= to <= chars@.len(),
            s == chars@.subrange(from as int, to as int),
            forall|j: int| from <= j < i ==> is_identifier_char(#[trigger] chars@[j]),
        decreases to - i,
    {
        let c = chars[i];
        if !(ascii_alphanumeric(c) || c == '-' || c == '_' || c == '.') {
            assert(s[i - from] == c);
            return false;
        }
        i = i + 1;
    }
    assert forall|j: int| 0 <= j < s.len() implies is_identifier_char(#[trigger] s[j]) by {
        assert(s[j] == chars@[from + j]);
    }
    true
}

/// The bounds of the id of a `kind "id" {` line in `chars[from..to]`, where
/// `opener` is the text `kind "`.
pub fn named_block(chars: &[char], from: usize, to: usize, kind: &str, opener: &str) -> (id:
    Option<(usize, usize)>)
    requires
        from <= to <= chars@.len(),
        opener@ == kind@ + " \""@,
    ensures
        match id {
            Some((a, b)) => from <= a <= b <= to && named_block_of(
                chars@.subrange(from as int, to as int),
                kind@,
            ) == Some(chars@.subrange(a as int, b as int)),
            None => named_block_of(chars@.subrange(from as int, to as int), kind@) is None,
        },
{
    proof {
        reveal_strlit("\" {");
    }
    if has_prefix(chars, from, to, opener) {
        let a = from + opener.unicode_len();
        if has_suffix(chars, a, to, "\" {") {
            return Some((a, to - 3));
        }
    }
    None
}

/// Reads a comma-separated list of `i64` values, blank entries skipped.
pub fn parse_id_list(text: &str) -> (ids: Option<Vec<i64>>)
    ensures
        match ids {
            Some(v) => id_list_of(text@) == Some(v@),
            None => id_list_of(text@) is None,
        },
{
    let chars = chars_of(text);
    let n = chars.len();
    let ghost pieces = split_on(chars@.subrange(0, n as int), ',');
    assert(chars@.subrange(0, n as int) =~= text@);
    let bounds = split_bounds(chars.as_slice(), 0, n, ',');
    let mut ids: Vec<i64> = Vec::new();
    let mut k: usize = 0;
    while k < bounds.len()
        invariant
            0 <= k <= bounds@.len(),
            n == chars@.len(),
            pieces == split_on(text@, ','),
            bounds@.len() == pieces.len(),
            forall|j: int|
                0 <= j < bounds@.len() ==> 0 <= (#[trigger] bounds@[j]).0 <= bounds@[j].1 <= n
                    && chars@.subrange(bounds@[j].0 as int, bounds@[j].1 as int) == pieces[j],
            id_values(pieces, k as int) == Some(ids@),
        decreases bounds@.len() - k,
    {
        let (pa, pb) = bounds[k];
        let (a, b) = trim_bounds(chars.as_slice(), pa, pb);
        if a < b {
            match parse_i64(chars.as_slice(), a, b) {
                Some(v) => {
                    ids.push(v);
                },
                None => {
                    proof {
                        lemma_ids_error_sticks(pieces, k + 1, pieces.len() as int);
                    }
                    return None;
                },
            }
        }
        k = k + 1;
    }
    Some(ids)
}

/// The elements of `values`, each kept where it first occurs.
pub fn dedup_ids(values: &Vec<i64>) -> (unique: Vec<i64>)
    ensures
        unique@ == dedup(values@),
{
    let mut unique: Vec<i64> = Vec::new();
    let mut i: usize = 0;
    while i < values.len()
        invariant
            0 <= i <= values@.len(),
            unique@ == dedup(values@.take(i as int)),
        decreases values@.len() - i,
    {
        let v = values[i];
        assert(values@.take(i + 1).drop_last() =~= values@.take(i as int));
        let mut seen = false;
        let mut j: usize = 0;
        while j < unique.len()
            invariant
                0 <= j <= unique@.len(),
                seen == exists|t: int| 0 <= t < j && unique@[t] == v,
            decreases unique@.len() - j,
        {
            if unique[j] == v {
                seen = true;
            }
            j = j + 1;
        }
        if !seen {
            unique.push(v);
        }
        i = i + 1;
    }
    assert(values@.take(values@.len() as int) =~= values@);
    unique
}

/// The texts of `values`, each kept where it first occurs.
pub fn dedup_texts(values: Vec<String>) -> (unique: Vec<String>)
    ensures
        unique@.map_values(|s: String| s@) == dedup(values@.map_values(|s: String| s@)),
{
    let ghost views = values@.map_values(|s: String| s@);
    let mut unique: Vec<String> = Vec::new();
    let mut i: usize = 0;
    while i < values.len()
        invariant
            0 <= i <= values@.len(),
            views == values@.map_values(|s: String| s@),
            unique@.map_values(|s: String| s@) == dedup(views.take(i as int)),
        decreases values@.len() - i,
    {
        assert(views.take(i + 1).drop_last() =~= views.take(i as int));
        let mut seen = false;
        let mut j: usize = 0;
        while j < unique.len()
            invariant
                0 <= j <= unique@.len(),
                i < values@.len(),
                seen == exists|t: int| 0 <= t < j && unique@[t]@ == values@[i as int]@,
            decreases unique@.len() - j,
        {
            if unique[j] == values[i] {
                seen = true;
            }
            j = j + 1;
        }
        let ghost before = unique@.map_values(|s: String| s@);
        if !seen {
            unique.push(values[i].clone());
            assert(unique@.map_values(|s: String| s@) =~= before.push(views[i as int]));
        } else {
            proof {
                let t = choose|t: int| 0 <= t < unique@.len() && unique@[t]@ == values@[i as int]@;
                assert(before[t] == views[i as int]);
            }
        }
        i = i + 1;
    }
    assert(views.take(values@.len() as int) =~= views);
    unique
}
} // verus!
