//! What the parser makes of well-formed lines.

use crate::chunks::lemma_parse_all_resumes;
use crate::chunks::parse_all;
use crate::error::Blocked;
use crate::error::Error;
use crate::lexer::feed;
use crate::lexer::next_event;
use crate::lexer::transition;
use crate::lexer::Event;
use crate::lexer::LexerView;
use crate::lexer::Machine;
use crate::lexer::MachineState;
use crate::lexer::ParserView;
use crate::text::lemma_encode_concat;
use crate::text::lemma_scalar_width;
use crate::text::lemma_text_bytes_push;
use crate::text::scalar_width;
use crate::text::text_bytes;
use crate::tokenizer::delimiter_lexeme;
use crate::tokenizer::is_delimiter;
use crate::tokenizer::next_scalar;
use crate::tokenizer::next_token;
use crate::tokenizer::Lexeme;
use crate::tokenizer::TokenizerView;
use vstd::prelude::*;
use vstd::utf8::encode_scalar;
use vstd::utf8::encode_utf8;

verus! {

/// Whether `c` is one of the delimiters: space, `=`, carriage return, line
/// feed.
pub open spec fn is_delimiter_char(c: char) -> bool {
    c == ' ' || c == '=' || c == '\r' || c == '\n'
}

/// Whether no character of `t` is a delimiter.
pub open spec fn is_plain(t: Seq<char>) -> bool {
    forall|i: int| 0 <= i < t.len() ==> !is_delimiter_char(#[trigger] t[i])
}

/// Whether `t` can be a command name, a key or a value: it is not empty,
/// holds no delimiter, and fits into `cap` bytes.
pub open spec fn is_word(t: Seq<char>, cap: nat) -> bool {
    t.len() > 0 && is_plain(t) && text_bytes(t) <= cap
}

/// The first byte of a one-byte encoding is the scalar itself.
proof fn lemma_ascii_byte(v: u32)
    by (bit_vector)
    requires
        v < 0x80,
    ensures
        (v & 0x7F) as u8 == v,
{
}

/// Decoding undoes encoding: in front of any bytes, the encoding of `c` is
/// taken off as `c`, whole; and it begins with a delimiter only if `c` is
/// one.
pub proof fn lemma_encoded_scalar(c: char, rest: Seq<u8>)
    ensures
        ({
            let q = encode_scalar(c as u32) + rest;
            &&& encode_scalar(c as u32).len() == scalar_width(c)
            &&& q.len() > 0
            &&& is_delimiter(q[0]) == is_delimiter_char(c)
            &&& next_scalar(q) == (rest, Ok::<char, Blocked<Error>>(c))
        }),
{
    lemma_scalar_width(c);
    vstd::utf8::encode_utf8_first_scalar(seq![c]);
    vstd::utf8::char_u32_cast(c, c as u32);
    if (c as u32) < 0x80 {
        lemma_ascii_byte(c as u32);
    }
}

/// A tokenizer gathers the encoding of delimiter-free text that fits, and
/// goes on with what follows it.
pub proof fn lemma_scan_text(t: Seq<char>, text: Seq<char>, rest: Seq<u8>, cap: nat)
    requires
        is_plain(t),
        text_bytes(text + t) <= cap,
    ensures
        next_token(TokenizerView { queue: encode_utf8(t) + rest, text: text }, cap) == next_token(
            TokenizerView { queue: rest, text: text + t },
            cap,
        ),
    decreases t.len(),
{
    if t.len() > 0 {
        let c = t[0];
        let tail = t.drop_first();
        let after = encode_utf8(tail) + rest;
        assert(encode_utf8(t) + rest =~= encode_scalar(c as u32) + after);
        lemma_encoded_scalar(c, after);
        lemma_encode_concat(text, t);
        lemma_encode_concat(seq![c], tail);
        lemma_scalar_width(c);
        assert(text.push(c) + tail =~= text + t);
        lemma_scan_text(tail, text.push(c), rest, cap);
    }
}

/// A word in front of a delimiter comes out as one `Value`, and the
/// delimiter stays.
pub proof fn lemma_word_token(t: Seq<char>, rest: Seq<u8>, cap: nat)
    requires
        is_word(t, cap),
        rest.len() > 0,
        is_delimiter(rest[0]),
    ensures
        next_token(TokenizerView { queue: encode_utf8(t) + rest, text: Seq::empty() }, cap) == (
            TokenizerView { queue: rest, text: Seq::empty() },
            Ok::<Option<Lexeme>, Blocked<Error>>(Some(Lexeme::Value(t))),
        ),
{
    lemma_scan_text(t, Seq::empty(), rest, cap);
}

/// A delimiter, when no text has been gathered, comes out as its token.
pub proof fn lemma_delimiter_token(b: u8, rest: Seq<u8>, cap: nat)
    requires
        is_delimiter(b),
    ensures
        next_token(TokenizerView { queue: seq![b] + rest, text: Seq::empty() }, cap) == (
            TokenizerView { queue: rest, text: Seq::empty() },
            Ok::<Option<Lexeme>, Blocked<Error>>(Some(delimiter_lexeme(b))),
        ),
{
    assert((seq![b] + rest).drop_first() =~= rest);
}

/// Text that outgrows the token capacity fails at the very scalar whose
/// encoding no longer fits: the scalars before it have been gathered, it is
/// dropped with `Error::CapacityExceeded`, and what follows it stays
/// buffered.
pub proof fn law_token_overflow(
    t: Seq<char>,
    text: Seq<char>,
    i: int,
    rest: Seq<u8>,
    cap: nat,
)
    requires
        is_plain(t),
        0 <= i < t.len(),
        text_bytes(text + t.take(i)) <= cap < text_bytes(text + t.take(i + 1)),
    ensures
        next_token(TokenizerView { queue: encode_utf8(t) + rest, text: text }, cap) == (
            TokenizerView { queue: encode_utf8(t.skip(i + 1)) + rest, text: text + t.take(i) },
            Err::<Option<Lexeme>, Blocked<Error>>(Blocked::Other(Error::CapacityExceeded)),
        ),
{
    let head = t.take(i);
    let c = t[i];
    let tail = t.skip(i + 1);
    let after = encode_utf8(tail) + rest;
    assert(t =~= head + t.skip(i));
    lemma_encode_concat(head, t.skip(i));
    assert(t.skip(i).drop_first() =~= tail);
    assert(encode_utf8(t) + rest =~= encode_utf8(head) + (encode_scalar(c as u32) + after));
    lemma_scan_text(head, text, encode_scalar(c as u32) + after, cap);
    lemma_encoded_scalar(c, after);
    assert(text + t.take(i + 1) =~= (text + head).push(c));
    lemma_text_bytes_push(text + head, c);
}

/// A parser that holds `queue`, with no text gathered and no event due,
/// and whose machine is `m`.
pub open spec fn parser_at(queue: Seq<u8>, m: Machine) -> ParserView {
    ParserView {
        tokenizer: TokenizerView { queue: queue, text: Seq::empty() },
        lexer: LexerView { machine: m, due: Seq::empty() },
    }
}

/// A machine that remembers nothing.
pub open spec fn machine_at_rest(state: MachineState) -> Machine {
    Machine { state: state, command: Seq::empty(), key: Seq::empty() }
}

/// A parser at rest at the start of a line: nothing buffered, nothing
/// remembered.
pub open spec fn parser_at_rest(state: MachineState) -> ParserView {
    parser_at(Seq::empty(), machine_at_rest(state))
}

/// Whether `m` is at the start of a line.
pub open spec fn at_line_start(m: Machine) -> bool {
    m.state == MachineState::NewCommand || m.state == MachineState::AfterCR
}

/// One attribute as it is written in a line: a key, and the value that
/// follows it behind a `=`, if there is one.
pub struct LineAttribute {
    pub key: Seq<char>,
    pub value: Option<Seq<char>>,
}

/// How a line ends.
pub enum LineEnd {
    LineFeed,
    CarriageReturn,
    CarriageReturnLineFeed,
}

/// A line: the name of a command, its attributes, and the end of the line.
pub struct Line {
    pub command: Seq<char>,
    pub attributes: Seq<LineAttribute>,
    pub end: LineEnd,
}

/// Whether `a` is well formed: the key is a word, and the value, which may
/// be empty, holds no delimiter and fits into `cap` bytes.
pub open spec fn is_attribute(a: LineAttribute, cap: nat) -> bool {
    &&& is_word(a.key, cap)
    &&& (a.value matches Some(v) ==> is_plain(v) && text_bytes(v) <= cap)
}

/// Whether `l` is well formed: the name is a word and every attribute is
/// well formed.
pub open spec fn is_line(l: Line, cap: nat) -> bool {
    &&& is_word(l.command, cap)
    &&& forall|i: int| 0 <= i < l.attributes.len() ==> is_attribute(#[trigger] l.attributes[i], cap)
}

/// The bytes of one attribute: a space, the key, and `=` and the value
/// where there is one.
pub open spec fn attribute_bytes(a: LineAttribute) -> Seq<u8> {
    seq![0x20u8] + (encode_utf8(a.key) + match a.value {
        Some(v) => seq![0x3Du8] + encode_utf8(v),
        None => Seq::empty(),
    })
}

/// The bytes that end a line.
pub open spec fn end_bytes(end: LineEnd) -> Seq<u8> {
    match end {
        LineEnd::LineFeed => seq![0x0Au8],
        LineEnd::CarriageReturn => seq![0x0Du8],
        LineEnd::CarriageReturnLineFeed => seq![0x0Du8, 0x0Au8],
    }
}

/// The bytes of the attributes of a line and of its end.
pub open spec fn tail_bytes(attributes: Seq<LineAttribute>, end: LineEnd) -> Seq<u8>
    decreases attributes.len(),
{
    if attributes.len() == 0 {
        end_bytes(end)
    } else {
        attribute_bytes(attributes[0]) + tail_bytes(attributes.drop_first(), end)
    }
}

/// The bytes of a line.
pub open spec fn line_bytes(l: Line) -> Seq<u8> {
    encode_utf8(l.command) + tail_bytes(l.attributes, l.end)
}

/// The event that an attribute of the command `cmd` gives: a value that is
/// not written is the empty one.
pub open spec fn attribute_event(cmd: Seq<char>, a: LineAttribute) -> Event {
    Event::Attribute(
        cmd,
        a.key,
        match a.value {
            Some(v) => v,
            None => Seq::empty(),
        },
    )
}

/// The events that the attributes of the command `cmd` and the end of its
/// line give: one for each attribute, in their order, and then the command.
pub open spec fn tail_events(cmd: Seq<char>, attributes: Seq<LineAttribute>) -> Seq<Event>
    decreases attributes.len(),
{
    if attributes.len() == 0 {
        seq![Event::Command(cmd)]
    } else {
        seq![attribute_event(cmd, attributes[0])] + tail_events(cmd, attributes.drop_first())
    }
}

/// The events that a line gives.
pub open spec fn line_events(l: Line) -> Seq<Event> {
    tail_events(l.command, l.attributes)
}

/// The state in which the end of a line leaves the machine.
pub open spec fn state_after(end: LineEnd) -> MachineState {
    match end {
        LineEnd::CarriageReturn => MachineState::AfterCR,
        _ => MachineState::NewCommand,
    }
}

/// A parser that holds nothing and owes nothing rests where it is.
proof fn lemma_rest(m: Machine, cap: nat)
    ensures
        parse_all(parser_at(Seq::empty(), m), cap) == (
            parser_at(Seq::empty(), m),
            Seq::<Event>::empty(),
            Ok::<(), Blocked<Error>>(()),
        ),
{
}

/// A token that gives no event adds nothing to what the parser makes of
/// the rest.
proof fn lemma_pass(queue: Seq<u8>, rest: Seq<u8>, token: Lexeme, m: Machine, m2: Machine, cap: nat)
    requires
        next_token(TokenizerView { queue: queue, text: Seq::empty() }, cap) == (
            TokenizerView { queue: rest, text: Seq::empty() },
            Ok::<Option<Lexeme>, Blocked<Error>>(Some(token)),
        ),
        transition(m, token) == (m2, Seq::<Event>::empty()),
    ensures
        parse_all(parser_at(queue, m), cap) == parse_all(parser_at(rest, m2), cap),
{
}

/// A token that gives events puts them in front of what the parser makes
/// of the rest.
proof fn lemma_emit(
    queue: Seq<u8>,
    rest: Seq<u8>,
    token: Lexeme,
    m: Machine,
    m2: Machine,
    events: Seq<Event>,
    cap: nat,
)
    requires
        next_token(TokenizerView { queue: queue, text: Seq::empty() }, cap) == (
            TokenizerView { queue: rest, text: Seq::empty() },
            Ok::<Option<Lexeme>, Blocked<Error>>(Some(token)),
        ),
        transition(m, token) == (m2, events),
        1 <= events.len() <= 2,
    ensures
        parse_all(parser_at(queue, m), cap) == ({
            let (rested, others, outcome) = parse_all(parser_at(rest, m2), cap);
            (rested, events + others, outcome)
        }),
{
    let (rested, others, outcome) = parse_all(parser_at(rest, m2), cap);
    let owing = ParserView {
        tokenizer: TokenizerView { queue: rest, text: Seq::empty() },
        lexer: LexerView { machine: m2, due: events.drop_first() },
    };
    assert(next_event(parser_at(queue, m), cap) == (
        owing,
        Ok::<Option<Event>, Blocked<Error>>(Some(events[0])),
    ));
    if events.len() == 1 {
        assert(events.drop_first() =~= Seq::<Event>::empty());
    } else {
        assert(events.drop_first().drop_first() =~= Seq::<Event>::empty());
        assert(parse_all(owing, cap) == (rested, seq![events[1]] + others, outcome));
    }
}

/// The bytes that follow a command name or a key begin with a delimiter.
proof fn lemma_tail_begins(attributes: Seq<LineAttribute>, end: LineEnd)
    ensures
        tail_bytes(attributes, end).len() > 0,
        is_delimiter(tail_bytes(attributes, end)[0]),
{
}

/// What the parser makes of the rest of a line, after the command name or
/// after a key: the event of a key that still waits for its value, the
/// events of the attributes that follow, and the command.
proof fn lemma_rest_of_line(
    cmd: Seq<char>,
    key: Seq<char>,
    waiting: bool,
    attributes: Seq<LineAttribute>,
    end: LineEnd,
    cap: nat,
)
    requires
        forall|i: int| 0 <= i < attributes.len() ==> is_attribute(#[trigger] attributes[i], cap),
    ensures
        parse_all(
            parser_at(
                tail_bytes(attributes, end),
                Machine {
                    state: if waiting {
                        MachineState::Value
                    } else {
                        MachineState::Key
                    },
                    command: cmd,
                    key: key,
                },
            ),
            cap,
        ) == (
            parser_at_rest(state_after(end)),
            (if waiting {
                seq![Event::Attribute(cmd, key, Seq::empty())]
            } else {
                Seq::empty()
            }) + tail_events(cmd, attributes),
            Ok::<(), Blocked<Error>>(()),
        ),
    decreases attributes.len(),
{
    let here = Machine {
        state: if waiting {
            MachineState::Value
        } else {
            MachineState::Key
        },
        command: cmd,
        key: key,
    };
    let owed = if waiting {
        seq![Event::Attribute(cmd, key, Seq::empty())]
    } else {
        Seq::empty()
    };
    let none = Seq::<u8>::empty();
    let line_feed = seq![0x0Au8] + none;
    if attributes.len() == 0 {
        let events = if waiting {
            seq![Event::Attribute(cmd, key, Seq::empty()), Event::Command(cmd)]
        } else {
            seq![Event::Command(cmd)]
        };
        let at_rest = machine_at_rest(MachineState::NewCommand);
        let after_cr = machine_at_rest(MachineState::AfterCR);
        lemma_rest(at_rest, cap);
        lemma_rest(after_cr, cap);
        match end {
            LineEnd::LineFeed => {
                lemma_delimiter_token(0x0Au8, none, cap);
                lemma_emit(line_feed, none, Lexeme::NewLine, here, at_rest, events, cap);
            },
            LineEnd::CarriageReturn => {
                lemma_delimiter_token(0x0Du8, none, cap);
                lemma_emit(
                    seq![0x0Du8] + none,
                    none,
                    Lexeme::CarriageReturn,
                    here,
                    after_cr,
                    events,
                    cap,
                );
            },
            LineEnd::CarriageReturnLineFeed => {
                assert(end_bytes(end) =~= seq![0x0Du8] + line_feed);
                lemma_delimiter_token(0x0Du8, line_feed, cap);
                lemma_emit(
                    seq![0x0Du8] + line_feed,
                    line_feed,
                    Lexeme::CarriageReturn,
                    here,
                    after_cr,
                    events,
                    cap,
                );
                lemma_delimiter_token(0x0Au8, none, cap);
                lemma_pass(line_feed, none, Lexeme::NewLine, after_cr, at_rest, cap);
            },
        }
    } else {
        let a = attributes[0];
        let others = attributes.drop_first();
        let tail = tail_bytes(others, end);
        let in_key = Machine { state: MachineState::Key, command: cmd, key: key };
        let in_value = Machine { state: MachineState::Value, command: cmd, key: a.key };
        let done = Machine { state: MachineState::Key, command: cmd, key: a.key };
        assert(forall|i: int|
            0 <= i < others.len() ==> is_attribute(#[trigger] others[i], cap));
        lemma_tail_begins(others, end);
        // the space in front of the key gives a waiting key its empty value
        let written = match a.value {
            Some(v) => seq![0x3Du8] + (encode_utf8(v) + tail),
            None => tail,
        };
        let from_key = encode_utf8(a.key) + written;
        assert(tail_bytes(attributes, end) =~= seq![0x20u8] + from_key);
        lemma_delimiter_token(0x20u8, from_key, cap);
        if waiting {
            lemma_emit(seq![0x20u8] + from_key, from_key, Lexeme::Space, here, in_key, owed, cap);
        } else {
            lemma_pass(seq![0x20u8] + from_key, from_key, Lexeme::Space, here, in_key, cap);
        }
        // the key
        lemma_word_token(a.key, written, cap);
        lemma_pass(from_key, written, Lexeme::Value(a.key), in_key, in_value, cap);
        // the value, where one is written
        match a.value {
            Some(v) => {
                let from_value = encode_utf8(v) + tail;
                lemma_delimiter_token(0x3Du8, from_value, cap);
                lemma_pass(written, from_value, Lexeme::Equals, in_value, in_value, cap);
                if v.len() > 0 {
                    lemma_word_token(v, tail, cap);
                    lemma_emit(
                        from_value,
                        tail,
                        Lexeme::Value(v),
                        in_value,
                        done,
                        seq![attribute_event(cmd, a)],
                        cap,
                    );
                    lemma_rest_of_line(cmd, a.key, false, others, end, cap);
                } else {
                    assert(v =~= Seq::<char>::empty());
                    lemma_rest_of_line(cmd, a.key, true, others, end, cap);
                }
            },
            None => {
                lemma_rest_of_line(cmd, a.key, true, others, end, cap);
            },
        }
    }
}

/// A well-formed line, met at the start of a line, gives one `Attribute`
/// for each of its attributes, in their order, and then exactly one
/// `Command`; it is consumed whole, and the parser is left at the start of
/// the next line. A key without a value, and one with `=` and nothing
/// behind it, give the empty value. A line feed behind a carriage return
/// adds nothing.
pub proof fn law_line(m: Machine, l: Line, cap: nat)
    requires
        at_line_start(m),
        is_line(l, cap),
    ensures
        parse_all(parser_at(line_bytes(l), m), cap) == (
            parser_at_rest(state_after(l.end)),
            line_events(l),
            Ok::<(), Blocked<Error>>(()),
        ),
{
    let tail = tail_bytes(l.attributes, l.end);
    let named = Machine { state: MachineState::Key, command: l.command, key: m.key };
    lemma_tail_begins(l.attributes, l.end);
    lemma_word_token(l.command, tail, cap);
    lemma_pass(line_bytes(l), tail, Lexeme::Value(l.command), m, named, cap);
    lemma_rest_of_line(l.command, m.key, false, l.attributes, l.end, cap);
}

/// The bytes of `lines`, one line after the other.
pub open spec fn lines_bytes(lines: Seq<Line>) -> Seq<u8>
    decreases lines.len(),
{
    if lines.len() == 0 {
        Seq::empty()
    } else {
        lines_bytes(lines.drop_last()) + line_bytes(lines.last())
    }
}

/// The events that `lines` give, one line after the other.
pub open spec fn lines_events(lines: Seq<Line>) -> Seq<Event>
    decreases lines.len(),
{
    if lines.len() == 0 {
        Seq::empty()
    } else {
        lines_events(lines.drop_last()) + line_events(lines.last())
    }
}

/// The state in which `lines` leave a machine that was in state `start`.
pub open spec fn state_after_lines(start: MachineState, lines: Seq<Line>) -> MachineState {
    if lines.len() == 0 {
        start
    } else {
        state_after(lines.last().end)
    }
}

/// Well-formed lines give the events of the first, then those of the
/// second, and so on: every event in the order of the bytes that make it
/// up, and nothing else. All bytes are consumed.
pub proof fn law_lines(start: MachineState, lines: Seq<Line>, cap: nat)
    requires
        start == MachineState::NewCommand || start == MachineState::AfterCR,
        forall|i: int| 0 <= i < lines.len() ==> is_line(#[trigger] lines[i], cap),
    ensures
        parse_all(parser_at(lines_bytes(lines), machine_at_rest(start)), cap) == (
            parser_at_rest(state_after_lines(start, lines)),
            lines_events(lines),
            Ok::<(), Blocked<Error>>(()),
        ),
    decreases lines.len(),
{
    let m = machine_at_rest(start);
    if lines.len() == 0 {
        lemma_rest(m, cap);
    } else {
        let init = lines.drop_last();
        let last = lines.last();
        let between = machine_at_rest(state_after_lines(start, init));
        law_lines(start, init, cap);
        lemma_parse_all_resumes(parser_at(lines_bytes(init), m), line_bytes(last), cap);
        assert(feed(parser_at(lines_bytes(init), m), line_bytes(last)) == parser_at(
            lines_bytes(lines),
            m,
        ));
        assert(feed(parser_at(Seq::empty(), between), line_bytes(last)).tokenizer.queue
            =~= line_bytes(last));
        law_line(between, last, cap);
    }
}

/// The bytes of the line `cmd key=value`, with the line feed that ends it.
pub open spec fn attribute_line(cmd: Seq<char>, key: Seq<char>, value: Seq<char>) -> Seq<u8> {
    encode_utf8(cmd) + seq![0x20u8] + encode_utf8(key) + seq![0x3Du8] + encode_utf8(value)
        + seq![0x0Au8]
}

/// The bytes of the line `cmd key`, with the line feed that ends it.
pub open spec fn bare_key_line(cmd: Seq<char>, key: Seq<char>) -> Seq<u8> {
    encode_utf8(cmd) + seq![0x20u8] + encode_utf8(key) + seq![0x0Au8]
}

/// The bytes of the line `cmd`, with the line feed that ends it.
pub open spec fn command_line(cmd: Seq<char>) -> Seq<u8> {
    encode_utf8(cmd) + seq![0x0Au8]
}

/// The bytes of the line `cmd key=value`, ended by a carriage return and a
/// line feed.
pub open spec fn attribute_line_crlf(cmd: Seq<char>, key: Seq<char>, value: Seq<char>) -> Seq<
    u8,
> {
    encode_utf8(cmd) + seq![0x20u8] + encode_utf8(key) + seq![0x3Du8] + encode_utf8(value)
        + seq![0x0Du8] + seq![0x0Au8]
}

/// The line `cmd key=value`, met at the start of a line, gives exactly one
/// `Attribute` with the three texts and then exactly one `Command` with the
/// name, consumes every byte, and leaves the parser at the start of the
/// next line.
pub proof fn law_attribute_line(
    m: Machine,
    cmd: Seq<char>,
    key: Seq<char>,
    value: Seq<char>,
    cap: nat,
)
    requires
        at_line_start(m),
        is_word(cmd, cap),
        is_word(key, cap),
        is_word(value, cap),
    ensures
        parse_all(parser_at(attribute_line(cmd, key, value), m), cap) == (
            parser_at_rest(MachineState::NewCommand),
            seq![Event::Attribute(cmd, key, value), Event::Command(cmd)],
            Ok::<(), Blocked<Error>>(()),
        ),
{
    let attributes = seq![LineAttribute { key: key, value: Some(value) }];
    let l = Line { command: cmd, attributes: attributes, end: LineEnd::LineFeed };
    assert(tail_bytes(attributes.drop_first(), l.end) == end_bytes(l.end));
    assert(line_bytes(l) =~= attribute_line(cmd, key, value));
    assert(tail_events(cmd, attributes.drop_first()) == seq![Event::Command(cmd)]);
    law_line(m, l, cap);
}

/// The line `cmd key`, whose key has no value, gives the `Attribute` with
/// the empty value and then the `Command`.
pub proof fn law_bare_key_line(m: Machine, cmd: Seq<char>, key: Seq<char>, cap: nat)
    requires
        at_line_start(m),
        is_word(cmd, cap),
        is_word(key, cap),
    ensures
        parse_all(parser_at(bare_key_line(cmd, key), m), cap) == (
            parser_at_rest(MachineState::NewCommand),
            seq![Event::Attribute(cmd, key, Seq::empty()), Event::Command(cmd)],
            Ok::<(), Blocked<Error>>(()),
        ),
{
    let attributes = seq![LineAttribute { key: key, value: None }];
    let l = Line { command: cmd, attributes: attributes, end: LineEnd::LineFeed };
    assert(tail_bytes(attributes.drop_first(), l.end) == end_bytes(l.end));
    assert(line_bytes(l) =~= bare_key_line(cmd, key));
    assert(tail_events(cmd, attributes.drop_first()) == seq![Event::Command(cmd)]);
    law_line(m, l, cap);
}

/// The line `cmd`, with no key at all, gives the `Command` and no
/// `Attribute`.
pub proof fn law_command_line(m: Machine, cmd: Seq<char>, cap: nat)
    requires
        at_line_start(m),
        is_word(cmd, cap),
    ensures
        parse_all(parser_at(command_line(cmd), m), cap) == (
            parser_at_rest(MachineState::NewCommand),
            seq![Event::Command(cmd)],
            Ok::<(), Blocked<Error>>(()),
        ),
{
    let l = Line { command: cmd, attributes: Seq::empty(), end: LineEnd::LineFeed };
    law_line(m, l, cap);
}

/// The line `cmd key=value` that ends with a carriage return and a line
/// feed gives the `Attribute` and then exactly one `Command`: the line feed
/// adds none.
pub proof fn law_attribute_line_crlf(
    m: Machine,
    cmd: Seq<char>,
    key: Seq<char>,
    value: Seq<char>,
    cap: nat,
)
    requires
        at_line_start(m),
        is_word(cmd, cap),
        is_word(key, cap),
        is_word(value, cap),
    ensures
        parse_all(parser_at(attribute_line_crlf(cmd, key, value), m), cap) == (
            parser_at_rest(MachineState::NewCommand),
            seq![Event::Attribute(cmd, key, value), Event::Command(cmd)],
            Ok::<(), Blocked<Error>>(()),
        ),
{
    let attributes = seq![LineAttribute { key: key, value: Some(value) }];
    let l = Line { command: cmd, attributes: attributes, end: LineEnd::CarriageReturnLineFeed };
    assert(tail_bytes(attributes.drop_first(), l.end) == end_bytes(l.end));
    assert(line_bytes(l) =~= attribute_line_crlf(cmd, key, value));
    assert(tail_events(cmd, attributes.drop_first()) == seq![Event::Command(cmd)]);
    law_line(m, l, cap);
}

} // verus!
