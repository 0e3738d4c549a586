//! What a parser makes of input that arrives in chunks.

use crate::error::Blocked;
use crate::error::Error;
use crate::lexer::feed;
use crate::lexer::lemma_next_event_local;
use crate::lexer::lemma_next_event_progress;
use crate::lexer::next_event;
use crate::lexer::Event;
use crate::lexer::ParserView;
use vstd::prelude::*;

verus! {

/// Everything that a parser makes of the bytes it holds: the state in which
/// it comes to rest, the events on the way, and why it rests: `Ok` when
/// every byte is consumed, "would block" when a scalar is incomplete, or
/// the fatal error at which it stopped.
pub open spec fn parse_all(p: ParserView, cap: nat) -> (
    ParserView,
    Seq<Event>,
    Result<(), Blocked<Error>>,
)
    decreases p.tokenizer.queue.len(), (if p.tokenizer.text.len() > 0 {
        1nat
    } else {
        0nat
    }) + p.lexer.due.len(),
{
    let (next, r) = next_event(p, cap);
    match r {
        Ok(Some(e)) => {
            proof {
                lemma_next_event_progress(p, cap);
            }
            let (rested, events, status) = parse_all(next, cap);
            (rested, seq![e] + events, status)
        },
        Ok(None) => (next, Seq::empty(), Ok(())),
        Err(e) => (next, Seq::empty(), Err(e)),
    }
}

/// Bytes that arrive while a parser rests, after it has made all it could
/// of the earlier ones without a fatal error, give the events that they
/// would have given had they been there from the start.
pub proof fn lemma_parse_all_resumes(p: ParserView, more: Seq<u8>, cap: nat)
    requires
        !(parse_all(p, cap).2 matches Err(Blocked::Other(_))),
    ensures
        ({
            let (rested, before, _) = parse_all(p, cap);
            let (last, after, outcome) = parse_all(feed(rested, more), cap);
            parse_all(feed(p, more), cap) == (last, before + after, outcome)
        }),
    decreases p.tokenizer.queue.len(), (if p.tokenizer.text.len() > 0 {
        1nat
    } else {
        0nat
    }) + p.lexer.due.len(),
{
    lemma_next_event_local(p, more, cap);
    let (next, r) = next_event(p, cap);
    if r matches Ok(Some(_)) {
        lemma_next_event_progress(p, cap);
        lemma_parse_all_resumes(next, more, cap);
    }
}

/// Chunk invariance: delivering input in two parts, and parsing after each,
/// gives the events, the final state and the final outcome that delivering
/// it at once gives, provided that the first part alone runs into no fatal
/// error.
pub proof fn law_chunk_invariance(p: ParserView, first: Seq<u8>, second: Seq<u8>, cap: nat)
    requires
        !(parse_all(feed(p, first), cap).2 matches Err(Blocked::Other(_))),
    ensures
        ({
            let (rested, before, _) = parse_all(feed(p, first), cap);
            let (last, after, outcome) = parse_all(feed(rested, second), cap);
            parse_all(feed(p, first + second), cap) == (last, before + after, outcome)
        }),
{
    lemma_parse_all_resumes(feed(p, first), second, cap);
    assert(feed(feed(p, first), second).tokenizer.queue =~= feed(
        p,
        first + second,
    ).tokenizer.queue);
}

/// The bytes of `chunks`, one chunk after the other.
pub open spec fn joined(chunks: Seq<Seq<u8>>) -> Seq<u8>
    decreases chunks.len(),
{
    if chunks.len() == 0 {
        Seq::empty()
    } else {
        joined(chunks.drop_last()) + chunks.last()
    }
}

/// What a parser makes of input that is delivered chunk by chunk, when it
/// parses all it can after each delivery: the state in which it comes to
/// rest, the events of all cycles, and the outcome of the last cycle. After
/// a fatal error nothing more is delivered.
pub open spec fn parse_chunks(p: ParserView, chunks: Seq<Seq<u8>>, cap: nat) -> (
    ParserView,
    Seq<Event>,
    Result<(), Blocked<Error>>,
)
    decreases chunks.len(),
{
    if chunks.len() == 0 {
        parse_all(p, cap)
    } else {
        let (rested, before, stopped) = parse_chunks(p, chunks.drop_last(), cap);
        if stopped matches Err(Blocked::Other(_)) {
            (rested, before, stopped)
        } else {
            let (last, after, outcome) = parse_all(feed(rested, chunks.last()), cap);
            (last, before + after, outcome)
        }
    }
}

/// Chunk invariance: however input is cut into chunks, delivering it chunk
/// by chunk and parsing after each delivery gives the events, the final
/// state and the final outcome that delivering it at once gives, provided
/// that no cycle before the last runs into a fatal error.
pub proof fn law_chunks_as_one(p: ParserView, chunks: Seq<Seq<u8>>, cap: nat)
    requires
        chunks.len() > 0 ==> !(parse_chunks(p, chunks.drop_last(), cap).2 matches Err(
            Blocked::Other(_),
        )),
    ensures
        parse_chunks(p, chunks, cap) == parse_all(feed(p, joined(chunks)), cap),
    decreases chunks.len(),
{
    if chunks.len() > 0 {
        let init = chunks.drop_last();
        law_chunks_as_one(p, init, cap);
        law_chunk_invariance(p, joined(init), chunks.last(), cap);
    }
}

} // verus!
