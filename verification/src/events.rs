//! Event notifications: which events are accepted, how they are rendered for
//! Telegram, and which chats receive them; and the comparison of secrets.
use crate::config::RecipientConfig;
use crate::primitives::constant_time_eq;
use crate::text::{ascii_alphanumeric, chars_of, control, is_ascii_alphanumeric, is_control, string_of, trim, trim_bounds};
use vstd::utf8::encode_utf8;
use vstd::prelude::*;

verus! {

/// Compares two secrets in time independent of their contents (of equal
/// length): true exactly when they are the same text.
pub fn secure_eq(left: &str, right: &str) -> (same: bool)
    ensures
        same == (left@ == right@),
{
    proof {
        vstd::utf8::encode_utf8_decode_utf8(left@);
        vstd::utf8::encode_utf8_decode_utf8(right@);
    }
    left.as_bytes().len() == right.as_bytes().len() && constant_time_eq(left.as_bytes(), right.as_bytes())
}


/// An event a CLI asks to deliver. `fields` are in ascending order of their
/// names, each name once (the order in which they are rendered).
pub struct EventRequest {
    pub kind: String,
    pub project: String,
    pub service: Option<String>,
    pub status: Option<String>,
    pub message: String,
    pub fields: Vec<(String, String)>,
}

/// A character allowed in an event kind or a field name.
pub open spec fn is_token_char(c: char) -> bool {
    is_ascii_alphanumeric(c) || c == '.' || c == '-' || c == '_'
}

/// A non-empty identifier of at most `maximum` UTF-8 bytes, made of ASCII
/// letters, digits, dots, dashes and underscores.
pub open spec fn is_valid_token(value: Seq<char>, maximum: int) -> bool {
    &&& value.len() > 0
    &&& encode_utf8(value).len() <= maximum
    &&& forall|i: int| 0 <= i < value.len() ==> is_token_char(#[trigger] value[i])
}

/// Text that is not only whitespace, of at most `maximum` UTF-8 bytes, with no
/// control character.
pub open spec fn is_valid_text(value: Seq<char>, maximum: int) -> bool {
    &&& trim(value).len() > 0
    &&& encode_utf8(value).len() <= maximum
    &&& forall|i: int| 0 <= i < value.len() ==> !is_control(#[trigger] value[i])
}

/// The total UTF-8 length of the first `n` field values.
pub open spec fn field_value_bytes(fields: Seq<(String, String)>, n: int) -> int
    decreases n,
{
    if n <= 0 {
        0
    } else {
        field_value_bytes(fields, n - 1) + encode_utf8(fields[n - 1].1@).len()
    }
}

/// `a` comes before `b` from position `i` on: at the first place from `i`
/// where they differ `a` has the smaller character, or `a` ends first.
pub open spec fn text_before_from(a: Seq<char>, b: Seq<char>, i: nat) -> bool
    decreases a.len() - i,
{
    if i >= a.len() {
        i < b.len()
    } else if i >= b.len() {
        false
    } else if a[i as int] != b[i as int] {
        (a[i as int] as u32) < (b[i as int] as u32)
    } else {
        text_before_from(a, b, i + 1)
    }
}

/// `a` comes strictly before `b` in the order of their characters (for UTF-8
/// text the order of its bytes, the order of `String`).
pub open spec fn text_before(a: Seq<char>, b: Seq<char>) -> bool {
    text_before_from(a, b, 0)
}

/// Each field name comes strictly after the one before it: the names
/// ascend, and none occurs twice.
pub open spec fn names_ascending(fields: Seq<(String, String)>) -> bool {
    forall|i: int| 0 < i < fields.len() ==> text_before(fields[i - 1].0@, (#[trigger] fields[i]).0@)
}

/// Whether `a` comes strictly before `b`.
pub fn text_is_before(a: &str, b: &str) -> (before: bool)
    ensures
        before == text_before(a@, b@),
{
    let x = chars_of(a);
    let y = chars_of(b);
    let mut i: usize = 0;
    while i < x.len() && i < y.len()
        invariant
            0 <= i <= x@.len(),
            i <= y@.len(),
            x@ == a@,
            y@ == b@,
            text_before(a@, b@) == text_before_from(a@, b@, i as nat),
        decreases x@.len() - i,
    {
        if x[i] != y[i] {
            return (x[i] as u32) < (y[i] as u32);
        }
        i = i + 1;
    }
    i < y.len()
}

/// The limits an event must keep to be delivered.
pub open spec fn is_valid_event(event: EventRequest) -> bool {
    &&& is_valid_token(event.kind@, 128)
    &&& is_valid_text(event.project@, 128)
    &&& (event.service matches Some(s) ==> is_valid_text(s@, 128))
    &&& (event.status matches Some(s) ==> is_valid_text(s@, 64))
    &&& is_valid_text(event.message@, 4000)
    &&& event.fields@.len() <= 24
    &&& forall|i: int|
        0 <= i < event.fields@.len() ==> is_valid_token((#[trigger] event.fields@[i]).0@, 64)
            && is_valid_text(event.fields@[i].1@, 512)
    &&& field_value_bytes(event.fields@, event.fields@.len() as int) <= 4096
    &&& names_ascending(event.fields@)
}

pub fn valid_token(value: &str, maximum: usize) -> (valid: bool)
    ensures
        valid == is_valid_token(value@, maximum as int),
{
    let chars = chars_of(value);
    if chars.len() == 0 || value.as_bytes().len() > maximum {
        return false;
    }
    let mut i: usize = 0;
    while i < chars.len()
        invariant
            0 <= i <= chars@.len(),
            chars@ == value@,
            chars@.len() > 0,
            encode_utf8(value@).len() <= maximum,
            forall|j: int| 0 <= j < i ==> is_token_char(#[trigger] chars@[j]),
        decreases chars@.len() - i,
    {
        let c = chars[i];
        if !(ascii_alphanumeric(c) || c == '.' || c == '-' || c == '_') {
            return false;
        }
        i = i + 1;
    }
    true
}

pub fn valid_text(value: &str, maximum: usize) -> (valid: bool)
    ensures
        valid == is_valid_text(value@, maximum as int),
{
    let chars = chars_of(value);
    let (a, b) = trim_bounds(chars.as_slice(), 0, chars.len());
    assert(chars@.subrange(0, chars@.len() as int) =~= value@);
    if a == b || value.as_bytes().len() > maximum {
        return false;
    }
    let mut i: usize = 0;
    while i < chars.len()
        invariant
            0 <= i <= chars@.len(),
            chars@ == value@,
            trim(value@).len() > 0,
            encode_utf8(value@).len() <= maximum,
            forall|j: int| 0 <= j < i ==> !is_control(#[trigger] chars@[j]),
        decreases chars@.len() - i,
    {
        if control(chars[i]) {
            return false;
        }
        i = i + 1;
    }
    true
}

/// Whether an event keeps to the limits for delivery.
pub fn valid_event(event: &EventRequest) -> (valid: bool)
    ensures
        valid == is_valid_event(*event),
{
    if !valid_token(event.kind.as_str(), 128) || !valid_text(event.project.as_str(), 128) {
        return false;
    }
    match &event.service {
        Some(s) => {
            if !valid_text(s.as_str(), 128) {
                return false;
            }
        },
        None => {},
    }
    match &event.status {
        Some(s) => {
            if !valid_text(s.as_str(), 64) {
                return false;
            }
        },
        None => {},
    }
    if !valid_text(event.message.as_str(), 4000) || event.fields.len() > 24 {
        return false;
    }
    let mut i: usize = 0;
    while i < event.fields.len()
        invariant
            0 <= i <= event.fields@.len(),
            forall|j: int|
                0 <= j < i ==> is_valid_token((#[trigger] event.fields@[j]).0@, 64)
                    && is_valid_text(event.fields@[j].1@, 512),
        decreases event.fields@.len() - i,
    {
        if !valid_token(event.fields[i].0.as_str(), 64) || !valid_text(
            event.fields[i].1.as_str(),
            512,
        ) {
            return false;
        }
        i = i + 1;
    }
    let mut total: usize = 0;
    let mut k: usize = 0;
    while k < event.fields.len()
        invariant
            0 <= k <= event.fields@.len() <= 24,
            forall|j: int|
                0 <= j < event.fields@.len() ==> is_valid_text(
                    (#[trigger] event.fields@[j]).1@,
                    512,
                ),
            total == field_value_bytes(event.fields@, k as int),
            total <= 512 * k,
        decreases event.fields@.len() - k,
    {
        total = total + event.fields[k].1.as_str().as_bytes().len();
        k = k + 1;
    }
    if total > 4096 {
        return false;
    }
    let mut m: usize = 1;
    while m < event.fields.len()
        invariant
            1 <= m <= event.fields@.len() || event.fields@.len() == 0,
            forall|j: int| 0 < j < m && j < event.fields@.len() ==> text_before(
                event.fields@[j - 1].0@,
                (#[trigger] event.fields@[j]).0@,
            ),
        decreases event.fields@.len() - m,
    {
        if !text_is_before(event.fields[m - 1].0.as_str(), event.fields[m].0.as_str()) {
            return false;
        }
        m = m + 1;
    }
    true
}

/// Whether a recipient wants events of `kind` (`"*"` wants every kind).
pub open spec fn wants(recipient: RecipientConfig, kind: Seq<char>) -> bool {
    exists|i: int|
        0 <= i < recipient.events@.len() && ((#[trigger] recipient.events@[i])@ == "*"@
            || recipient.events@[i]@ == kind)
}

pub fn recipient_matches(recipient: &RecipientConfig, kind: &str) -> (matches: bool)
    ensures
        matches == wants(*recipient, kind@),
{
    let wildcard = "*".to_owned();
    let wanted = kind.to_owned();
    let mut i: usize = 0;
    while i < recipient.events.len()
        invariant
            0 <= i <= recipient.events@.len(),
            wildcard@ == "*"@,
            wanted@ == kind@,
            forall|j: int|
                0 <= j < i ==> (#[trigger] recipient.events@[j])@ != "*"@ && recipient.events@[j]@
                    != kind@,
        decreases recipient.events@.len() - i,
    {
        if recipient.events[i] == wildcard || recipient.events[i] == wanted {
            return true;
        }
        i = i + 1;
    }
    false
}


/// The lines of a rendered event: kind and project, source, then either the
/// fields (when there are any) or the service and status, a blank line, and
/// the trimmed message.
pub open spec fn event_lines(source: Seq<char>, event: EventRequest) -> Seq<Seq<char>> {
    let head = seq![event.kind@ + " · "@ + event.project@, "source: "@ + source];
    let details = if event.fields@.len() == 0 {
        (match event.service {
            Some(s) => seq!["service: "@ + s@],
            None => Seq::<Seq<char>>::empty(),
        }) + (match event.status {
            Some(s) => seq!["status: "@ + s@],
            None => Seq::<Seq<char>>::empty(),
        })
    } else {
        event.fields@.map_values(|f: (String, String)| f.0@ + ": "@ + f.1@)
    };
    head + details + seq![Seq::<char>::empty(), trim(event.message@)]
}

/// Lines joined by newlines.
pub open spec fn join_lines(lines: Seq<Seq<char>>) -> Seq<char>
    decreases lines.len(),
{
    if lines.len() == 0 {
        Seq::empty()
    } else if lines.len() == 1 {
        lines[0]
    } else {
        join_lines(lines.drop_last()) + seq!['\n'] + lines.last()
    }
}

pub open spec fn rendered_event(source: Seq<char>, event: EventRequest) -> Seq<char> {
    join_lines(event_lines(source, event))
}

fn concat3(a: &str, b: &str, c: &str) -> (text: String)
    ensures
        text@ == a@ + b@ + c@,
{
    let mut text = String::new();
    text.append(a);
    text.append(b);
    text.append(c);
    assert(text@ =~= a@ + b@ + c@);
    text
}

fn join_with_newlines(lines: &Vec<String>) -> (text: String)
    ensures
        text@ == join_lines(lines@.map_values(|l: String| l@)),
{
    let ghost views = lines@.map_values(|l: String| l@);
    let mut text = String::new();
    let mut i: usize = 0;
    while i < lines.len()
        invariant
            0 <= i <= lines@.len(),
            views == lines@.map_values(|l: String| l@),
            text@ == join_lines(views.take(i as int)),
        decreases lines@.len() - i,
    {
        proof {
            assert(views.take(i + 1).drop_last() =~= views.take(i as int));
        }
        if i > 0 {
            text.append("\n");
            proof {
                reveal_strlit("\n");
            }
        }
        text.append(lines[i].as_str());
        proof {
            if i == 0 {
                assert(views.take(1) =~= seq![views[0]]);
                assert(text@ =~= join_lines(views.take(1)));
            } else {
                assert(text@ =~= join_lines(views.take(i + 1)));
            }
        }
        i = i + 1;
    }
    assert(views.take(lines@.len() as int) =~= views);
    text
}

/// Renders an event from `source` as a Telegram message.
pub fn render_event(source: &str, event: &EventRequest) -> (text: String)
    ensures
        text@ == rendered_event(source@, *event),
{
    let ghost expected = event_lines(source@, *event);
    let mut lines: Vec<String> = Vec::new();
    lines.push(concat3(event.kind.as_str(), " · ", event.project.as_str()));
    lines.push(concat3("source: ", source, ""));
    proof {
        reveal_strlit(" · ");
        reveal_strlit("source: ");
        reveal_strlit("");
        reveal_strlit("service: ");
        reveal_strlit("status: ");
        reveal_strlit(": ");
    }
    let ghost head_len: int = 2;
    if event.fields.len() == 0 {
        match &event.service {
            Some(s) => {
                lines.push(concat3("service: ", s.as_str(), ""));
            },
            None => {},
        }
        match &event.status {
            Some(s) => {
                lines.push(concat3("status: ", s.as_str(), ""));
            },
            None => {},
        }
    } else {
        let mut i: usize = 0;
        while i < event.fields.len()
            invariant
                0 <= i <= event.fields@.len(),
                event.fields@.len() > 0,
                lines@.len() == 2 + i,
                expected == event_lines(source@, *event),
                forall|j: int|
                    0 <= j < 2 + i ==> (#[trigger] lines@[j])@ == expected[j],
            decreases event.fields@.len() - i,
        {
            lines.push(concat3(event.fields[i].0.as_str(), ": ", event.fields[i].1.as_str()));
            i = i + 1;
        }
    }
    lines.push(String::new());
    let message = chars_of(event.message.as_str());
    let (a, b) = trim_bounds(message.as_slice(), 0, message.len());
    assert(message@.subrange(0, message@.len() as int) =~= event.message@);
    lines.push(string_of(message.as_slice(), a, b));
    let text = join_with_newlines(&lines);
    assert(lines@.map_values(|l: String| l@) =~= expected);
    text
}

/// The lines of a rendered event: the kind and project, then the source; for
/// an event with fields one line `name: value` per field, in order; for one
/// without, a `service:` line exactly when a service is given and a `status:`
/// line exactly when a status is given, each independent of the other; then
/// a blank line and the trimmed message.
pub proof fn law_rendered_lines(source: Seq<char>, event: EventRequest)
    ensures
        ({
            let lines = event_lines(source, event);
            let n = event.fields@.len();
            let service_lines: int = if event.service is Some { 1 } else { 0 };
            let status_lines: int = if event.status is Some { 1 } else { 0 };
            &&& lines[0] == event.kind@ + " · "@ + event.project@
            &&& lines[1] == "source: "@ + source
            &&& lines[lines.len() - 2] == Seq::<char>::empty()
            &&& lines[lines.len() - 1] == trim(event.message@)
            &&& n > 0 ==> lines.len() == 4 + n && forall|i: int|
                0 <= i < n ==> lines[2 + i] == (#[trigger] event.fields@[i]).0@ + ": "@
                    + event.fields@[i].1@
            &&& n == 0 ==> lines.len() == 4 + service_lines + status_lines
            &&& n == 0 ==> (event.service matches Some(v) ==> lines[2] == "service: "@ + v@)
            &&& n == 0 ==> (event.status matches Some(t) ==> lines[2 + service_lines] == "status: "@
                + t@)
        }),
{
    let lines = event_lines(source, event);
    let n = event.fields@.len();
    if n > 0 {
        assert forall|i: int| 0 <= i < n implies lines[2 + i] == (#[trigger] event.fields@[i]).0@
            + ": "@ + event.fields@[i].1@ by {}
    }
}

/// A recipient wants a kind exactly when some entry of its events list,
/// wherever it stands, is that kind or `"*"`.
pub proof fn law_recipient_wants_any_listed_kind(recipient: RecipientConfig, kind: Seq<char>)
    ensures
        forall|i: int|
            0 <= i < recipient.events@.len() && ((#[trigger] recipient.events@[i])@ == "*"@
                || recipient.events@[i]@ == kind) ==> wants(recipient, kind),
        wants(recipient, kind) ==> exists|i: int|
            0 <= i < recipient.events@.len() && ((#[trigger] recipient.events@[i])@ == "*"@
                || recipient.events@[i]@ == kind),
{
}

} // verus!
