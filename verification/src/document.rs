//! The structure of the configuration document: its significant lines, and
//! the `infrabot { ... }` block with its `telegram`, `source "id"` and
//! `recipient "id"` blocks, read line by line into a draft of field values.
use crate::config::{Block, ConfigError, ConfigErrorView, Field};
use crate::text::{chars_of, split_on, split_bounds, string_of, strip_prefix, trim, trim_bounds};
use crate::values::{
    assignment, assignment_of, has_prefix, identifier, is_identifier, is_word, named_block,
    named_block_of, parse_unsigned, string_list, string_list_of, unsigned_of, value_ref,
    value_ref_of, SyntaxError, ValueRef, ValueRefView,
};
use vstd::prelude::*;

verus! {

/// The value of one field, of the kind the field takes.
pub enum FieldValue {
    Reference(ValueRef),
    List(Vec<String>),
    Number(u64),
}

pub enum FieldValueView {
    Reference(ValueRefView),
    List(Seq<Seq<char>>),
    Number(u64),
}

impl View for FieldValue {
    type V = FieldValueView;

    open spec fn view(&self) -> FieldValueView {
        match self {
            FieldValue::Reference(r) => FieldValueView::Reference(r@),
            FieldValue::List(l) => FieldValueView::List(l@.map_values(|s: String| s@)),
            FieldValue::Number(n) => FieldValueView::Number(*n),
        }
    }
}

/// The fields set in one block, in the order of their lines.
pub open spec fn entries_view(entries: Seq<(Field, FieldValue)>) -> Seq<(Field, FieldValueView)> {
    entries.map_values(|e: (Field, FieldValue)| (e.0, e.1@))
}

/// What the `infrabot` block has set: its own fields, the fields of its
/// `telegram` block once that block has opened, and each `source` and
/// `recipient` block with its id and fields, in the order of the document.
pub struct Draft {
    pub fields: Vec<(Field, FieldValue)>,
    pub telegram: Option<Vec<(Field, FieldValue)>>,
    pub sources: Vec<(String, Vec<(Field, FieldValue)>)>,
    pub recipients: Vec<(String, Vec<(Field, FieldValue)>)>,
}

pub struct DraftView {
    pub fields: Seq<(Field, FieldValueView)>,
    pub telegram: Option<Seq<(Field, FieldValueView)>>,
    pub sources: Seq<(Seq<char>, Seq<(Field, FieldValueView)>)>,
    pub recipients: Seq<(Seq<char>, Seq<(Field, FieldValueView)>)>,
}

pub open spec fn blocks_view(blocks: Seq<(String, Vec<(Field, FieldValue)>)>) -> Seq<
    (Seq<char>, Seq<(Field, FieldValueView)>),
> {
    blocks.map_values(|b: (String, Vec<(Field, FieldValue)>)| (b.0@, entries_view(b.1@)))
}

impl View for Draft {
    type V = DraftView;

    open spec fn view(&self) -> DraftView {
        DraftView {
            fields: entries_view(self.fields@),
            telegram: match self.telegram {
                Some(t) => Some(entries_view(t@)),
                None => None,
            },
            sources: blocks_view(self.sources@),
            recipients: blocks_view(self.recipients@),
        }
    }
}

pub open spec fn empty_draft() -> DraftView {
    DraftView {
        fields: Seq::empty(),
        telegram: None,
        sources: Seq::empty(),
        recipients: Seq::empty(),
    }
}

/// A line that carries content: not blank, not a `#` or `//` comment.
pub open spec fn is_significant(line: Seq<char>) -> bool {
    &&& line.len() > 0
    &&& strip_prefix(line, "#"@) is None
    &&& strip_prefix(line, "//"@) is None
}

/// The significant lines among the first `n` pieces, trimmed, each with its
/// line number (counted from 1).
pub open spec fn significant(pieces: Seq<Seq<char>>, n: int) -> Seq<(int, Seq<char>)>
    decreases n,
{
    if n <= 0 {
        Seq::empty()
    } else {
        let earlier = significant(pieces, n - 1);
        let line = trim(pieces[n - 1]);
        if is_significant(line) {
            earlier.push((n, line))
        } else {
            earlier
        }
    }
}

/// The significant lines of a document, trimmed, with their line numbers.
pub open spec fn significant_lines(input: Seq<char>) -> Seq<(int, Seq<char>)> {
    let pieces = split_on(input, '\n');
    significant(pieces, pieces.len() as int)
}

/// The index of the first line from `from` on whose text is `text`.
pub open spec fn line_index(lines: Seq<(int, Seq<char>)>, text: Seq<char>, from: int) -> Option<
    int,
>
    decreases lines.len() - from,
{
    if from < 0 || from >= lines.len() {
        None
    } else if lines[from].1 == text {
        Some(from)
    } else {
        line_index(lines, text, from + 1)
    }
}

/// The field that `key` names in a block of the given kind.
pub open spec fn field_of(block: Block, key: Seq<char>) -> Option<Field> {
    match block {
        Block::Infrabot => if key == "bind"@ {
            Some(Field::Bind)
        } else if key == "public_url"@ {
            Some(Field::PublicUrl)
        } else if key == "pairing_ttl_seconds"@ {
            Some(Field::PairingTtlSeconds)
        } else if key == "access_token_ttl_seconds"@ {
            Some(Field::AccessTokenTtlSeconds)
        } else if key == "poll_interval_seconds"@ {
            Some(Field::PollIntervalSeconds)
        } else if key == "max_active_pairings"@ {
            Some(Field::MaxActivePairings)
        } else if key == "max_exchange_attempts"@ {
            Some(Field::MaxExchangeAttempts)
        } else {
            None
        },
        Block::Telegram => if key == "subscriber_events"@ {
            Some(Field::SubscriberEvents)
        } else if key == "bot_username"@ {
            Some(Field::BotUsername)
        } else if key == "bot_token"@ {
            Some(Field::BotToken)
        } else if key == "webhook_secret"@ {
            Some(Field::WebhookSecret)
        } else if key == "signing_secret"@ {
            Some(Field::SigningSecret)
        } else if key == "allowed_user_ids"@ {
            Some(Field::AllowedUserIds)
        } else if key == "subscriber_user_ids"@ {
            Some(Field::SubscriberUserIds)
        } else if key == "subscriber_store"@ {
            Some(Field::SubscriberStore)
        } else {
            None
        },
        Block::Source => if key == "address"@ {
            Some(Field::SourceAddress)
        } else {
            None
        },
        Block::Recipient => if key == "chat_id"@ {
            Some(Field::RecipientChatId)
        } else if key == "events"@ {
            Some(Field::RecipientEvents)
        } else {
            None
        },
    }
}

/// The largest value a numeric field can be written with (the range of its
/// integer type); `None` for a field that is not numeric.
pub open spec fn number_limit(field: Field) -> Option<int> {
    match field {
        Field::PairingTtlSeconds => Some(u64::MAX as int),
        Field::AccessTokenTtlSeconds => Some(u64::MAX as int),
        Field::PollIntervalSeconds => Some(u64::MAX as int),
        Field::MaxActivePairings => Some(usize::MAX as int),
        Field::MaxExchangeAttempts => Some(u8::MAX as int),
        _ => None,
    }
}

pub open spec fn is_list_field(field: Field) -> bool {
    field == Field::SubscriberEvents || field == Field::RecipientEvents
}

/// Reads the value text of a field: an integer for the numeric fields, a
/// string list for the event lists, a value reference for the others.
pub open spec fn field_value_of(field: Field, raw: Seq<char>) -> Result<
    FieldValueView,
    SyntaxError,
> {
    match number_limit(field) {
        Some(max) => match unsigned_of(raw, max) {
            Some(v) => Ok(FieldValueView::Number(v as u64)),
            None => Err(SyntaxError::ExpectedInteger),
        },
        None => if is_list_field(field) {
            match string_list_of(raw) {
                Ok(l) => Ok(FieldValueView::List(l)),
                Err(e) => Err(e),
            }
        } else {
            match value_ref_of(raw) {
                Ok(r) => Ok(FieldValueView::Reference(r)),
                Err(e) => Err(e),
            }
        },
    }
}

/// Whether `field` is already set among `entries`.
pub open spec fn has_field(entries: Seq<(Field, FieldValueView)>, field: Field) -> bool {
    exists|i: int| 0 <= i < entries.len() && (#[trigger] entries[i]).0 == field
}

/// An assignment line of a block: the field its key names, set once, to the
/// value its text reads as.
pub open spec fn field_line(
    number: int,
    line: Seq<char>,
    block: Block,
    entries: Seq<(Field, FieldValueView)>,
) -> Result<Seq<(Field, FieldValueView)>, ConfigErrorView> {
    match assignment_of(line) {
        Err(e) => Err(ConfigErrorView::Syntax { line: number, error: e }),
        Ok((key, raw)) => match field_of(block, key) {
            None => Err(ConfigErrorView::UnknownField { line: number, block, key }),
            Some(field) => match field_value_of(field, raw) {
                Err(e) => Err(ConfigErrorView::Syntax { line: number, error: e }),
                Ok(value) => if has_field(entries, field) {
                    Err(ConfigErrorView::DuplicateField { line: number, field })
                } else {
                    Ok(entries.push((field, value)))
                },
            },
        },
    }
}

/// The fields of the last block of `blocks`, replaced.
pub open spec fn with_last_fields(
    blocks: Seq<(Seq<char>, Seq<(Field, FieldValueView)>)>,
    fields: Seq<(Field, FieldValueView)>,
) -> Seq<(Seq<char>, Seq<(Field, FieldValueView)>)> {
    blocks.update(blocks.len() - 1, (blocks.last().0, fields))
}

/// One significant line, read inside a block of kind `mode`: the new draft,
/// and the block the next line is read in (`None` once the `infrabot` block
/// has closed).
pub open spec fn step(draft: DraftView, mode: Block, number: int, line: Seq<char>) -> Result<
    (DraftView, Option<Block>),
    ConfigErrorView,
> {
    if line == "}"@ {
        Ok(
            (
                draft,
                match mode {
                    Block::Infrabot => None,
                    _ => Some(Block::Infrabot),
                },
            ),
        )
    } else {
        match mode {
            Block::Infrabot => if line == "telegram {"@ {
                if draft.telegram is Some {
                    Err(ConfigErrorView::DuplicateTelegramBlock { line: number })
                } else {
                    Ok(
                        (
                            DraftView {
                                fields: draft.fields,
                                telegram: Some(Seq::empty()),
                                sources: draft.sources,
                                recipients: draft.recipients,
                            },
                            Some(Block::Telegram),
                        ),
                    )
                }
            } else {
                match named_block_of(line, "source"@) {
                    Some(id) => if is_identifier(id) {
                        Ok(
                            (
                                DraftView {
                                    fields: draft.fields,
                                    telegram: draft.telegram,
                                    sources: draft.sources.push((id, Seq::empty())),
                                    recipients: draft.recipients,
                                },
                                Some(Block::Source),
                            ),
                        )
                    } else {
                        Err(ConfigErrorView::InvalidIdentifier { block: Block::Source })
                    },
                    None => match named_block_of(line, "recipient"@) {
                        Some(id) => if is_identifier(id) {
                            Ok(
                                (
                                    DraftView {
                                        fields: draft.fields,
                                        telegram: draft.telegram,
                                        sources: draft.sources,
                                        recipients: draft.recipients.push((id, Seq::empty())),
                                    },
                                    Some(Block::Recipient),
                                ),
                            )
                        } else {
                            Err(ConfigErrorView::InvalidIdentifier { block: Block::Recipient })
                        },
                        None => match field_line(number, line, Block::Infrabot, draft.fields) {
                            Err(e) => Err(e),
                            Ok(fields) => Ok(
                                (
                                    DraftView {
                                        fields,
                                        telegram: draft.telegram,
                                        sources: draft.sources,
                                        recipients: draft.recipients,
                                    },
                                    Some(Block::Infrabot),
                                ),
                            ),
                        },
                    },
                }
            },
            Block::Telegram => {
                let entries = match draft.telegram {
                    Some(t) => t,
                    None => Seq::empty(),
                };
                match field_line(number, line, Block::Telegram, entries) {
                    Err(e) => Err(e),
                    Ok(t) => Ok(
                        (
                            DraftView {
                                fields: draft.fields,
                                telegram: Some(t),
                                sources: draft.sources,
                                recipients: draft.recipients,
                            },
                            Some(Block::Telegram),
                        ),
                    ),
                }
            },
            Block::Source => match field_line(
                number,
                line,
                Block::Source,
                draft.sources.last().1,
            ) {
                Err(e) => Err(e),
                Ok(f) => Ok(
                    (
                        DraftView {
                            fields: draft.fields,
                            telegram: draft.telegram,
                            sources: with_last_fields(draft.sources, f),
                            recipients: draft.recipients,
                        },
                        Some(Block::Source),
                    ),
                ),
            },
            Block::Recipient => match field_line(
                number,
                line,
                Block::Recipient,
                draft.recipients.last().1,
            ) {
                Err(e) => Err(e),
                Ok(f) => Ok(
                    (
                        DraftView {
                            fields: draft.fields,
                            telegram: draft.telegram,
                            sources: draft.sources,
                            recipients: with_last_fields(draft.recipients, f),
                        },
                        Some(Block::Recipient),
                    ),
                ),
            },
        }
    }
}

/// Reads the lines from `from` on, inside a block of kind `mode`, until the
/// `infrabot` block closes; the lines running out first leave `mode` unclosed.
pub open spec fn run(lines: Seq<(int, Seq<char>)>, from: int, draft: DraftView, mode: Block) -> Result<
    DraftView,
    ConfigErrorView,
>
    decreases lines.len() - from,
{
    if from < 0 || from >= lines.len() {
        Err(ConfigErrorView::UnclosedBlock { block: mode })
    } else {
        match step(draft, mode, lines[from].0, lines[from].1) {
            Err(e) => Err(e),
            Ok((next, None)) => Ok(next),
            Ok((next, Some(m))) => run(lines, from + 1, next, m),
        }
    }
}

/// The draft of a whole document: the `infrabot` block opened by the first
/// line `infrabot {`, read to its end.
pub open spec fn draft_of(input: Seq<char>) -> Result<DraftView, ConfigErrorView> {
    let lines = significant_lines(input);
    match line_index(lines, "infrabot {"@, 0) {
        None => Err(ConfigErrorView::MissingInfrabotBlock),
        Some(start) => run(lines, start + 1, empty_draft(), Block::Infrabot),
    }
}


/// Exec lines `(number, start, end)` into `chars` that match `lines`.
pub open spec fn lines_match(
    chars: Seq<char>,
    bounds: Seq<(usize, usize, usize)>,
    lines: Seq<(int, Seq<char>)>,
) -> bool {
    &&& bounds.len() == lines.len()
    &&& forall|k: int|
        0 <= k < bounds.len() ==> (#[trigger] bounds[k]).1 <= bounds[k].2 <= chars.len()
            && lines[k] == (bounds[k].0 as int, chars.subrange(bounds[k].1 as int, bounds[k].2 as int))
}

/// The significant lines of `chars`, as line numbers and bounds.
fn line_bounds(chars: &[char]) -> (lines: Vec<(usize, usize, usize)>)
    ensures
        lines_match(chars@, lines@, significant_lines(chars@)),
{
    let n = chars.len();
    let ghost pieces = split_on(chars@, '\n');
    assert(chars@.subrange(0, n as int) =~= chars@);
    let bounds = split_bounds(chars, 0, n, '\n');
    let mut lines: Vec<(usize, usize, usize)> = Vec::new();
    let mut k: usize = 0;
    while k < bounds.len()
        invariant
            0 <= k <= bounds@.len(),
            n == chars@.len(),
            pieces == split_on(chars@, '\n'),
            bounds@.len() == pieces.len(),
            forall|j: int|
                0 <= j < bounds@.len() ==> 0 <= (#[trigger] bounds@[j]).0 <= bounds@[j].1 <= n
                    && chars@.subrange(bounds@[j].0 as int, bounds@[j].1 as int) == pieces[j],
            lines_match(chars@, lines@, significant(pieces, k as int)),
        decreases bounds@.len() - k,
    {
        let (pa, pb) = bounds[k];
        let (a, b) = trim_bounds(chars, pa, pb);
        let ghost before = significant(pieces, k as int);
        if a < b && !has_prefix(chars, a, b, "#") && !has_prefix(chars, a, b, "//") {
            lines.push((k + 1, a, b));
            assert(significant(pieces, k + 1) == before.push((k + 1, trim(pieces[k as int]))));
        }
        k = k + 1;
    }
    lines
}

/// The field that `chars[from..to]` names in a block of kind `block`.
fn field_named(block: Block, chars: &[char], from: usize, to: usize) -> (field: Option<Field>)
    requires
        from <= to <= chars@.len(),
    ensures
        field == field_of(block, chars@.subrange(from as int, to as int)),
{
    match block {
        Block::Infrabot => if is_word(chars, from, to, "bind") {
            Some(Field::Bind)
        } else if is_word(chars, from, to, "public_url") {
            Some(Field::PublicUrl)
        } else if is_word(chars, from, to, "pairing_ttl_seconds") {
            Some(Field::PairingTtlSeconds)
        } else if is_word(chars, from, to, "access_token_ttl_seconds") {
            Some(Field::AccessTokenTtlSeconds)
        } else if is_word(chars, from, to, "poll_interval_seconds") {
            Some(Field::PollIntervalSeconds)
        } else if is_word(chars, from, to, "max_active_pairings") {
            Some(Field::MaxActivePairings)
        } else if is_word(chars, from, to, "max_exchange_attempts") {
            Some(Field::MaxExchangeAttempts)
        } else {
            None
        },
        Block::Telegram => if is_word(chars, from, to, "subscriber_events") {
            Some(Field::SubscriberEvents)
        } else if is_word(chars, from, to, "bot_username") {
            Some(Field::BotUsername)
        } else if is_word(chars, from, to, "bot_token") {
            Some(Field::BotToken)
        } else if is_word(chars, from, to, "webhook_secret") {
            Some(Field::WebhookSecret)
        } else if is_word(chars, from, to, "signing_secret") {
            Some(Field::SigningSecret)
        } else if is_word(chars, from, to, "allowed_user_ids") {
            Some(Field::AllowedUserIds)
        } else if is_word(chars, from, to, "subscriber_user_ids") {
            Some(Field::SubscriberUserIds)
        } else if is_word(chars, from, to, "subscriber_store") {
            Some(Field::SubscriberStore)
        } else {
            None
        },
        Block::Source => if is_word(chars, from, to, "address") {
            Some(Field::SourceAddress)
        } else {
            None
        },
        Block::Recipient => if is_word(chars, from, to, "chat_id") {
            Some(Field::RecipientChatId)
        } else if is_word(chars, from, to, "events") {
            Some(Field::RecipientEvents)
        } else {
            None
        },
    }
}

/// Reads the value text `chars[from..to]` of `field`.
fn read_field_value(field: Field, chars: &[char], from: usize, to: usize) -> (value: Result<
    FieldValue,
    SyntaxError,
>)
    requires
        from <= to <= chars@.len(),
    ensures
        match value {
            Ok(v) => field_value_of(field, chars@.subrange(from as int, to as int)) == Ok::<
                FieldValueView,
                SyntaxError,
            >(v@),
            Err(e) => field_value_of(field, chars@.subrange(from as int, to as int)) == Err::<
                FieldValueView,
                SyntaxError,
            >(e),
        },
{
    let limit: Option<u64> = match field {
        Field::PairingTtlSeconds => Some(u64::MAX),
        Field::AccessTokenTtlSeconds => Some(u64::MAX),
        Field::PollIntervalSeconds => Some(u64::MAX),
        Field::MaxActivePairings => Some(usize::MAX as u64),
        Field::MaxExchangeAttempts => Some(255),
        _ => None,
    };
    assert(limit matches Some(m) ==> number_limit(field) == Some(m as int));
    assert(limit is None ==> number_limit(field) is None);
    match limit {
        Some(max) => match parse_unsigned(chars, from, to, max) {
            Some(v) => Ok(FieldValue::Number(v)),
            None => Err(SyntaxError::ExpectedInteger),
        },
        None => if field == Field::SubscriberEvents || field == Field::RecipientEvents {
            match string_list(chars, from, to) {
                Ok(l) => Ok(FieldValue::List(l)),
                Err(e) => Err(e),
            }
        } else {
            match value_ref(chars, from, to) {
                Ok(r) => Ok(FieldValue::Reference(r)),
                Err(e) => Err(e),
            }
        },
    }
}

/// Whether `field` is set among `entries`.
fn field_is_set(entries: &Vec<(Field, FieldValue)>, field: Field) -> (set: bool)
    ensures
        set == has_field(entries_view(entries@), field),
{
    let mut i: usize = 0;
    while i < entries.len()
        invariant
            0 <= i <= entries@.len(),
            forall|j: int| 0 <= j < i ==> (#[trigger] entries@[j]).0 != field,
        decreases entries@.len() - i,
    {
        if entries[i].0 == field {
            assert(entries_view(entries@)[i as int].0 == field);
            return true;
        }
        i = i + 1;
    }
    assert forall|j: int| 0 <= j < entries_view(entries@).len() implies (#[trigger] entries_view(
        entries@,
    )[j]).0 != field by {
        assert(entries_view(entries@)[j].0 == entries@[j].0);
    }
    false
}

/// Reads the assignment line `chars[from..to]` of a block into `entries`.
fn read_field_line(
    number: usize,
    chars: &[char],
    from: usize,
    to: usize,
    block: Block,
    entries: &mut Vec<(Field, FieldValue)>,
) -> (done: Result<(), ConfigError>)
    requires
        from <= to <= chars@.len(),
    ensures
        match done {
            Ok(()) => field_line(
                number as int,
                chars@.subrange(from as int, to as int),
                block,
                entries_view(old(entries)@),
            ) == Ok::<Seq<(Field, FieldValueView)>, ConfigErrorView>(entries_view(final(entries)@)),
            Err(e) => field_line(
                number as int,
                chars@.subrange(from as int, to as int),
                block,
                entries_view(old(entries)@),
            ) == Err::<Seq<(Field, FieldValueView)>, ConfigErrorView>(e@),
        },
{
    let ((ka, kb), (va, vb)) = match assignment(chars, from, to) {
        Ok(parts) => parts,
        Err(e) => {
            return Err(ConfigError::Syntax { line: number, error: e });
        },
    };
    let field = match field_named(block, chars, ka, kb) {
        Some(f) => f,
        None => {
            return Err(ConfigError::UnknownField { line: number, block, key: string_of(chars, ka, kb) });
        },
    };
    let value = match read_field_value(field, chars, va, vb) {
        Ok(v) => v,
        Err(e) => {
            return Err(ConfigError::Syntax { line: number, error: e });
        },
    };
    if field_is_set(entries, field) {
        return Err(ConfigError::DuplicateField { line: number, field });
    }
    let ghost before = entries_view(entries@);
    let ghost added = value@;
    entries.push((field, value));
    assert(entries_view(entries@) =~= before.push((field, added)));
    Ok(())
}


/// Reads one significant line `chars[from..to]` inside a block of kind
/// `mode` into `draft`; the block the next line is read in comes back.
fn read_line(
    draft: &mut Draft,
    mode: Block,
    number: usize,
    chars: &[char],
    from: usize,
    to: usize,
) -> (next: Result<Option<Block>, ConfigError>)
    requires
        from <= to <= chars@.len(),
        mode == Block::Source ==> old(draft).sources@.len() > 0,
        mode == Block::Recipient ==> old(draft).recipients@.len() > 0,
    ensures
        match next {
            Ok(m) => step(
                old(draft)@,
                mode,
                number as int,
                chars@.subrange(from as int, to as int),
            ) == Ok::<(DraftView, Option<Block>), ConfigErrorView>((final(draft)@, m)),
            Err(e) => step(
                old(draft)@,
                mode,
                number as int,
                chars@.subrange(from as int, to as int),
            ) == Err::<(DraftView, Option<Block>), ConfigErrorView>(e@),
        },
        next == Ok::<Option<Block>, ConfigError>(Some(Block::Source)) ==> final(draft).sources@.len()
            > 0,
        next == Ok::<Option<Block>, ConfigError>(Some(Block::Recipient))
            ==> final(draft).recipients@.len() > 0,
{
    let ghost line = chars@.subrange(from as int, to as int);
    let ghost old_view = draft@;
    if is_word(chars, from, to, "}") {
        return Ok(
            match mode {
                Block::Infrabot => None,
                _ => Some(Block::Infrabot),
            },
        );
    }
    match mode {
        Block::Infrabot => {
            if is_word(chars, from, to, "telegram {") {
                if draft.telegram.is_some() {
                    return Err(ConfigError::DuplicateTelegramBlock { line: number });
                }
                draft.telegram = Some(Vec::new());
                assert(draft@.telegram == Some(Seq::<(Field, FieldValueView)>::empty()));
                return Ok(Some(Block::Telegram));
            }
            proof {
                reveal_strlit("source");
                reveal_strlit("source \"");
                reveal_strlit("recipient");
                reveal_strlit("recipient \"");
                reveal_strlit(" \"");
                assert("source \""@ =~= "source"@ + " \""@);
                assert("recipient \""@ =~= "recipient"@ + " \""@);
            }
            match named_block(chars, from, to, "source", "source \"") {
                Some((a, b)) => {
                    if !identifier(chars, a, b) {
                        return Err(ConfigError::InvalidIdentifier { block: Block::Source });
                    }
                    let id = string_of(chars, a, b);
                    let fresh: Vec<(Field, FieldValue)> = Vec::new();
                    assert(entries_view(fresh@) =~= Seq::<(Field, FieldValueView)>::empty());
                    let ghost entry = (id@, entries_view(fresh@));
                    draft.sources.push((id, fresh));
                    assert(draft@.sources =~= old_view.sources.push(entry));
                    return Ok(Some(Block::Source));
                },
                None => {},
            }
            match named_block(chars, from, to, "recipient", "recipient \"") {
                Some((a, b)) => {
                    if !identifier(chars, a, b) {
                        return Err(ConfigError::InvalidIdentifier { block: Block::Recipient });
                    }
                    let id = string_of(chars, a, b);
                    let fresh: Vec<(Field, FieldValue)> = Vec::new();
                    assert(entries_view(fresh@) =~= Seq::<(Field, FieldValueView)>::empty());
                    let ghost entry = (id@, entries_view(fresh@));
                    draft.recipients.push((id, fresh));
                    assert(draft@.recipients =~= old_view.recipients.push(entry));
                    return Ok(Some(Block::Recipient));
                },
                None => {},
            }
            match read_field_line(number, chars, from, to, Block::Infrabot, &mut draft.fields) {
                Ok(()) => Ok(Some(Block::Infrabot)),
                Err(e) => Err(e),
            }
        },
        Block::Telegram => {
            let mut entries = match draft.telegram.take() {
                Some(t) => t,
                None => Vec::new(),
            };
            assert(entries_view(entries@) == match old_view.telegram {
                Some(t) => t,
                None => Seq::<(Field, FieldValueView)>::empty(),
            });
            let done = read_field_line(number, chars, from, to, Block::Telegram, &mut entries);
            draft.telegram = Some(entries);
            match done {
                Ok(()) => Ok(Some(Block::Telegram)),
                Err(e) => Err(e),
            }
        },
        Block::Source => {
            let (id, mut entries) = draft.sources.pop().unwrap();
            let ghost rest = draft.sources@;
            assert(old_view.sources.last() == (id@, entries_view(entries@)));
            let done = read_field_line(number, chars, from, to, Block::Source, &mut entries);
            let ghost changed = (id@, entries_view(entries@));
            draft.sources.push((id, entries));
            assert(blocks_view(draft.sources@) =~= with_last_fields(
                old_view.sources,
                changed.1,
            ));
            match done {
                Ok(()) => Ok(Some(Block::Source)),
                Err(e) => Err(e),
            }
        },
        Block::Recipient => {
            let (id, mut entries) = draft.recipients.pop().unwrap();
            assert(old_view.recipients.last() == (id@, entries_view(entries@)));
            let done = read_field_line(number, chars, from, to, Block::Recipient, &mut entries);
            let ghost changed = (id@, entries_view(entries@));
            draft.recipients.push((id, entries));
            assert(blocks_view(draft.recipients@) =~= with_last_fields(
                old_view.recipients,
                changed.1,
            ));
            match done {
                Ok(()) => Ok(Some(Block::Recipient)),
                Err(e) => Err(e),
            }
        },
    }
}

/// Reads a whole document into a draft of its `infrabot` block.
pub fn read_draft(input: &str) -> (draft: Result<Draft, ConfigError>)
    ensures
        match draft {
            Ok(d) => draft_of(input@) == Ok::<DraftView, ConfigErrorView>(d@),
            Err(e) => draft_of(input@) == Err::<DraftView, ConfigErrorView>(e@),
        },
{
    let chars = chars_of(input);
    let lines = line_bounds(chars.as_slice());
    let ghost spec_lines = significant_lines(input@);
    let mut k: usize = 0;
    while k < lines.len()
        invariant
            0 <= k <= lines@.len(),
            chars@ == input@,
            spec_lines == significant_lines(input@),
            lines_match(chars@, lines@, spec_lines),
            line_index(spec_lines, "infrabot {"@, 0) == line_index(spec_lines, "infrabot {"@, k as int),
        ensures
            0 <= k <= lines@.len(),
            line_index(spec_lines, "infrabot {"@, 0) == line_index(spec_lines, "infrabot {"@, k as int),
            k < lines@.len() ==> spec_lines[k as int].1 == "infrabot {"@,
        decreases lines@.len() - k,
    {
        let (_, a, b) = lines[k];
        if is_word(chars.as_slice(), a, b, "infrabot {") {
            break;
        }
        k = k + 1;
    }
    if k == lines.len() {
        return Err(ConfigError::MissingInfrabotBlock);
    }
    let mut draft = Draft {
        fields: Vec::new(),
        telegram: None,
        sources: Vec::new(),
        recipients: Vec::new(),
    };
    assert(draft@ == empty_draft()) by {
        assert(draft@.fields =~= Seq::<(Field, FieldValueView)>::empty());
        assert(draft@.sources =~= Seq::<(Seq<char>, Seq<(Field, FieldValueView)>)>::empty());
        assert(draft@.recipients =~= Seq::<(Seq<char>, Seq<(Field, FieldValueView)>)>::empty());
    }
    let mut mode = Block::Infrabot;
    let mut i = k + 1;
    while i < lines.len()
        invariant
            k < i <= lines@.len(),
            chars@ == input@,
            spec_lines == significant_lines(input@),
            lines_match(chars@, lines@, spec_lines),
            draft_of(input@) == run(spec_lines, i as int, draft@, mode),
            mode == Block::Source ==> draft.sources@.len() > 0,
            mode == Block::Recipient ==> draft.recipients@.len() > 0,
        decreases lines@.len() - i,
    {
        let (number, a, b) = lines[i];
        match read_line(&mut draft, mode, number, chars.as_slice(), a, b) {
            Err(e) => {
                return Err(e);
            },
            Ok(None) => {
                return Ok(draft);
            },
            Ok(Some(m)) => {
                mode = m;
            },
        }
        i = i + 1;
    }
    Err(ConfigError::UnclosedBlock { block: mode })
}

} // verus!
