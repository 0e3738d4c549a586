//! From tokens to events: the state machine that recognises commands and
//! their attributes.

use crate::error::Blocked;
use crate::error::Error;
use crate::text::TokenText;
use crate::tokenizer::buffered;
use crate::tokenizer::lemma_next_token_local;
use crate::tokenizer::lemma_next_token_progress;
use crate::tokenizer::next_token;
use crate::tokenizer::waits;
use crate::tokenizer::Lexeme;
use crate::tokenizer::Token;
use crate::tokenizer::Tokenizer;
use crate::tokenizer::TokenizerView;
use vstd::prelude::*;

verus! {

/// Where in a line the lexer is.
#[derive(Clone, Copy, Debug, PartialEq, Eq, Structural)]
pub enum MachineState {
    /// At the start of a line: the next text is a command name.
    NewCommand,
    /// Right after a carriage return: a line feed that follows belongs to
    /// the same line end.
    AfterCR,
    /// After a command name or a finished attribute: the next text is a key.
    Key,
    /// After a key: the next text is its value.
    Value,
}

/// An event: an attribute of a command, with the command's name, the key and
/// the value, or the end of a command, with its name.
#[derive(Debug)]
pub enum CallbackCommand<const N: usize> {
    Attribute(TokenText<N>, TokenText<N>, TokenText<N>),
    Command(TokenText<N>),
}

/// What a [`CallbackCommand`] stands for.
pub enum Event {
    Attribute(Seq<char>, Seq<char>, Seq<char>),
    Command(Seq<char>),
}

impl<const N: usize> CallbackCommand<N> {
    /// What the event stands for.
    pub open spec fn view(&self) -> Event {
        match *self {
            CallbackCommand::Attribute(c, k, v) => Event::Attribute(c@, k@, v@),
            CallbackCommand::Command(c) => Event::Command(c@),
        }
    }
}

/// The state machine proper: where in the line it is, and the command name
/// and the key that it remembers.
pub struct Machine {
    pub state: MachineState,
    pub command: Seq<char>,
    pub key: Seq<char>,
}

/// The machine at the start of input.
pub open spec fn initial_machine() -> Machine {
    Machine { state: MachineState::NewCommand, command: Seq::empty(), key: Seq::empty() }
}

/// What the end of a line does in state `m`: a key that still waits for its
/// value gets the empty one, the command is complete, and both remembered
/// texts are cleared.
pub open spec fn end_of_line(m: Machine, next: MachineState) -> (Machine, Seq<Event>) {
    let cleared = Machine { state: next, command: Seq::empty(), key: Seq::empty() };
    if m.state == MachineState::Value {
        (cleared, seq![Event::Attribute(m.command, m.key, Seq::empty()), Event::Command(m.command)])
    } else {
        (cleared, seq![Event::Command(m.command)])
    }
}

/// The transition function: the machine after token `t`, and the events
/// that the token gives rise to, in order.
///
/// - Text is the command name at the start of a line, the key after that,
///   and the value after a key; a value completes an attribute.
/// - A space after a key completes the attribute with the empty value;
///   elsewhere it does nothing.
/// - `=` does nothing.
/// - A carriage return ends the line. A line feed ends the line unless it
///   comes right after a carriage return, which has ended it already.
pub open spec fn transition(m: Machine, t: Lexeme) -> (Machine, Seq<Event>) {
    match t {
        Lexeme::Value(s) => match m.state {
            MachineState::NewCommand | MachineState::AfterCR => (
                Machine { state: MachineState::Key, command: s, key: m.key },
                Seq::empty(),
            ),
            MachineState::Key => (
                Machine { state: MachineState::Value, command: m.command, key: s },
                Seq::empty(),
            ),
            MachineState::Value => (
                Machine { state: MachineState::Key, command: m.command, key: m.key },
                seq![Event::Attribute(m.command, m.key, s)],
            ),
        },
        Lexeme::Space => match m.state {
            MachineState::Value => (
                Machine { state: MachineState::Key, command: m.command, key: m.key },
                seq![Event::Attribute(m.command, m.key, Seq::empty())],
            ),
            _ => (m, Seq::empty()),
        },
        Lexeme::Equals => (m, Seq::empty()),
        Lexeme::NewLine => match m.state {
            MachineState::AfterCR => (
                Machine { state: MachineState::NewCommand, command: m.command, key: m.key },
                Seq::empty(),
            ),
            _ => end_of_line(m, MachineState::NewCommand),
        },
        Lexeme::CarriageReturn => end_of_line(m, MachineState::AfterCR),
    }
}

/// The state of a [`Lexer`]: the machine, and the events that the last
/// token gave rise to and that have not been handed out yet.
pub struct LexerView {
    pub machine: Machine,
    pub due: Seq<Event>,
}

/// The state of a tokenizer and a lexer that work together.
pub struct ParserView {
    pub tokenizer: TokenizerView,
    pub lexer: LexerView,
}

/// What asking for the next event gives, for a text capacity of `cap`
/// bytes: the state afterwards, and the event or the reason why there is
/// none.
///
/// An event that is due is handed out first. Otherwise tokens are taken
/// (see [`next_token`]) and run through [`transition`] until one gives rise
/// to an event, whose first is handed out, or until no token is to be had;
/// the tokenizer's reason is then the answer, and the machine stays as the
/// tokens taken so far have left it.
pub open spec fn next_event(p: ParserView, cap: nat) -> (
    ParserView,
    Result<Option<Event>, Blocked<Error>>,
)
    decreases p.tokenizer.queue.len(), (if p.tokenizer.text.len() > 0 {
        1nat
    } else {
        0nat
    }) + p.lexer.due.len(),
{
    if p.lexer.due.len() > 0 {
        (
            ParserView {
                tokenizer: p.tokenizer,
                lexer: LexerView { machine: p.lexer.machine, due: p.lexer.due.drop_first() },
            },
            Ok(Some(p.lexer.due[0])),
        )
    } else {
        let (t2, r) = next_token(p.tokenizer, cap);
        match r {
            Err(e) => (ParserView { tokenizer: t2, lexer: p.lexer }, Err(e)),
            Ok(None) => (ParserView { tokenizer: t2, lexer: p.lexer }, Ok(None)),
            Ok(Some(token)) => {
                let (m2, events) = transition(p.lexer.machine, token);
                if events.len() == 0 {
                    proof {
                        lemma_next_token_progress(p.tokenizer, cap);
                    }
                    next_event(
                        ParserView {
                            tokenizer: t2,
                            lexer: LexerView { machine: m2, due: Seq::empty() },
                        },
                        cap,
                    )
                } else {
                    (
                        ParserView {
                            tokenizer: t2,
                            lexer: LexerView { machine: m2, due: events.drop_first() },
                        },
                        Ok(Some(events[0])),
                    )
                }
            },
        }
    }
}

/// The parser state `p` after `bytes` more have been buffered.
pub open spec fn feed(p: ParserView, bytes: Seq<u8>) -> ParserView {
    ParserView { tokenizer: buffered(p.tokenizer, bytes), lexer: p.lexer }
}

/// An event costs a byte of the buffer, the text gathered, or an event that
/// was due.
pub proof fn lemma_next_event_progress(p: ParserView, cap: nat)
    ensures
        ({
            let (next, r) = next_event(p, cap);
            &&& next.tokenizer.queue.len() <= p.tokenizer.queue.len()
            &&& (r matches Ok(Some(_)) ==> (next.tokenizer.queue.len() < p.tokenizer.queue.len()
                || ((if next.tokenizer.text.len() > 0 {
                1nat
            } else {
                0nat
            }) + next.lexer.due.len() < (if p.tokenizer.text.len() > 0 {
                1nat
            } else {
                0nat
            }) + p.lexer.due.len())))
        }),
    decreases p.tokenizer.queue.len(), (if p.tokenizer.text.len() > 0 {
        1nat
    } else {
        0nat
    }) + p.lexer.due.len(),
{
    if p.lexer.due.len() == 0 {
        lemma_next_token_progress(p.tokenizer, cap);
        let (t2, r) = next_token(p.tokenizer, cap);
        if let Ok(Some(token)) = r {
            let (m2, events) = transition(p.lexer.machine, token);
            if events.len() == 0 {
                lemma_next_event_progress(
                    ParserView {
                        tokenizer: t2,
                        lexer: LexerView { machine: m2, due: Seq::empty() },
                    },
                    cap,
                );
            }
        }
    }
}

/// Bytes that arrive later change nothing of an event that is complete, nor
/// of a fatal error; and a parser that waits goes on, when they have
/// arrived, from where it came to rest.
pub proof fn lemma_next_event_local(p: ParserView, more: Seq<u8>, cap: nat)
    ensures
        ({
            let (next, r) = next_event(p, cap);
            if waits(r) {
                next_event(feed(p, more), cap) == next_event(feed(next, more), cap)
            } else {
                next_event(feed(p, more), cap) == (feed(next, more), r)
            }
        }),
    decreases p.tokenizer.queue.len(), (if p.tokenizer.text.len() > 0 {
        1nat
    } else {
        0nat
    }) + p.lexer.due.len(),
{
    if p.lexer.due.len() == 0 {
        lemma_next_token_local(p.tokenizer, more, cap);
        lemma_next_token_progress(p.tokenizer, cap);
        let (t2, r) = next_token(p.tokenizer, cap);
        if let Ok(Some(token)) = r {
            let (m2, events) = transition(p.lexer.machine, token);
            if events.len() == 0 {
                lemma_next_event_local(
                    ParserView {
                        tokenizer: t2,
                        lexer: LexerView { machine: m2, due: Seq::empty() },
                    },
                    more,
                    cap,
                );
            }
        }
    }
}

/// What the outcome of [`Lexer::parse_data`] stands for.
pub open spec fn event_outcome<const N: usize>(
    r: Result<Option<CallbackCommand<N>>, Blocked<Error>>,
) -> Result<Option<Event>, Blocked<Error>> {
    match r {
        Ok(Some(e)) => Ok(Some(e@)),
        Ok(None) => Ok(None),
        Err(e) => Err(e),
    }
}

/// The events that one step of a [`Lexer`] hands out.
pub open spec fn first_event<const N: usize>(r: Option<CallbackCommand<N>>) -> Seq<Event> {
    match r {
        Some(e) => seq![e@],
        None => Seq::empty(),
    }
}

/// The state machine that turns tokens into events, with text of at most
/// `N` bytes.
pub struct Lexer<const N: usize> {
    current_cmd: TokenText<N>,
    current_key: TokenText<N>,
    state: MachineState,
    command_due: bool,
}

impl<const N: usize> Lexer<N> {
    /// The machine and the events that are due.
    ///
    /// While the end of a command is due, its name is still held for the
    /// event; the machine has let go of it already.
    pub closed spec fn view(&self) -> LexerView {
        if self.command_due {
            LexerView {
                machine: Machine {
                    state: self.state,
                    command: Seq::empty(),
                    key: self.current_key@,
                },
                due: seq![Event::Command(self.current_cmd@)],
            }
        } else {
            LexerView {
                machine: Machine {
                    state: self.state,
                    command: self.current_cmd@,
                    key: self.current_key@,
                },
                due: Seq::empty(),
            }
        }
    }

    /// A lexer at the start of input.
    pub fn new() -> (r: Self)
        ensures
            r@.machine == initial_machine(),
            r@.due == Seq::<Event>::empty(),
    {
        Lexer {
            current_cmd: TokenText::new(),
            current_key: TokenText::new(),
            state: MachineState::NewCommand,
            command_due: false,
        }
    }

    /// Ends the line: hands out the first event of [`end_of_line`] and keeps
    /// the second, if there is one, as due.
    fn end_line(&mut self, next: MachineState) -> (r: Option<CallbackCommand<N>>)
        requires
            old(self)@.due.len() == 0,
        ensures
            final(self)@.machine == end_of_line(old(self)@.machine, next).0,
            first_event(r) + final(self)@.due == end_of_line(old(self)@.machine, next).1,
            r is Some,
    {
        if self.state == MachineState::Value {
            let command = self.current_cmd.clone();
            let key = self.current_key.take();
            self.state = next;
            self.command_due = true;
            Some(CallbackCommand::Attribute(command, key, TokenText::new()))
        } else {
            let command = self.current_cmd.take();
            self.current_key.clear();
            self.state = next;
            Some(CallbackCommand::Command(command))
        }
    }

    /// Runs one token through the machine and hands out the first event
    /// that it gives rise to; a second one is kept as due.
    fn advance(&mut self, token: Token<N>) -> (r: Option<CallbackCommand<N>>)
        requires
            old(self)@.due.len() == 0,
        ensures
            final(self)@.machine == transition(old(self)@.machine, token@).0,
            first_event(r) + final(self)@.due == transition(old(self)@.machine, token@).1,
            r is None ==> final(self)@.due.len() == 0,
    {
        match token {
            Token::NewLine => {
                if self.state == MachineState::AfterCR {
                    self.state = MachineState::NewCommand;
                    None
                } else {
                    self.end_line(MachineState::NewCommand)
                }
            },
            Token::CarriageReturn => self.end_line(MachineState::AfterCR),
            Token::Value(s) => {
                match self.state {
                    MachineState::NewCommand | MachineState::AfterCR => {
                        self.current_cmd = s;
                        self.state = MachineState::Key;
                        None
                    },
                    MachineState::Key => {
                        self.current_key = s;
                        self.state = MachineState::Value;
                        None
                    },
                    MachineState::Value => {
                        self.state = MachineState::Key;
                        Some(
                            CallbackCommand::Attribute(
                                self.current_cmd.clone(),
                                self.current_key.clone(),
                                s,
                            ),
                        )
                    },
                }
            },
            Token::Space => {
                match self.state {
                    MachineState::Value => {
                        self.state = MachineState::Key;
                        Some(
                            CallbackCommand::Attribute(
                                self.current_cmd.clone(),
                                self.current_key.clone(),
                                TokenText::new(),
                            ),
                        )
                    },
                    _ => None,
                }
            },
            Token::Equals => None,
        }
    }

    /// Hands out the event that is due, if there is one.
    fn take_due(&mut self) -> (r: Option<CallbackCommand<N>>)
        ensures
            final(self)@.machine == old(self)@.machine,
            old(self)@.due.len() == 0 ==> r is None && final(self)@ == old(self)@,
            old(self)@.due.len() > 0 ==> (r matches Some(e) && e@ == old(self)@.due[0]
                && final(self)@.due == old(self)@.due.drop_first()),
    {
        if self.command_due {
            self.command_due = false;
            let command = self.current_cmd.take();
            Some(CallbackCommand::Command(command))
        } else {
            None
        }
    }

    /// Gives the next event, if the bytes that `tokenizer` has buffered so
    /// far hold one.
    ///
    /// `Ok(None)` says that every buffered byte has been consumed;
    /// `Err(Blocked::WouldBlock)` that the bytes left are the beginning of a
    /// scalar whose end has not arrived. Either way the call can be repeated
    /// when more bytes have been buffered. A fatal error comes from the
    /// tokenizer and is handed on unchanged.
    pub fn parse_data(&mut self, tokenizer: &mut Tokenizer<N>) -> (r: Result<
        Option<CallbackCommand<N>>,
        Blocked<Error>,
    >)
        ensures
            (ParserView { tokenizer: final(tokenizer)@, lexer: final(self)@ }, event_outcome(r))
                == next_event(
                ParserView { tokenizer: old(tokenizer)@, lexer: old(self)@ },
                TokenText::<N>::spec_capacity(),
            ),
    {
        let ghost cap = TokenText::<N>::spec_capacity();
        match self.take_due() {
            Some(e) => {
                return Ok(Some(e));
            },
            None => {},
        }
        loop
            invariant
                self@.due.len() == 0,
                cap == TokenText::<N>::spec_capacity(),
                next_event(ParserView { tokenizer: tokenizer@, lexer: self@ }, cap) == next_event(
                    ParserView { tokenizer: old(tokenizer)@, lexer: old(self)@ },
                    cap,
                ),
            decreases tokenizer@.queue.len(), tokenizer@.text.len(),
        {
            proof {
                lemma_next_token_progress(tokenizer@, cap);
            }
            match tokenizer.get_tokens() {
                Err(e) => {
                    return Err(e);
                },
                Ok(None) => {
                    return Ok(None);
                },
                Ok(Some(token)) => {
                    let ghost machine = self@.machine;
                    match self.advance(token) {
                        Some(e) => {
                            proof {
                                let events = transition(machine, token@).1;
                                assert(events.drop_first() =~= self@.due);
                            }
                            return Ok(Some(e));
                        },
                        None => {},
                    }
                },
            }
        }
    }
}

} // verus!
