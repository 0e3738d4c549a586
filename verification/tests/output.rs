use light_cli::Blocked;
use light_cli::Flush;
use light_cli::LightCliOutput;

/// A sink that takes a number of bytes and then gives one answer for ever.
struct Sink {
    taken: Vec<u8>,
    room: usize,
    then: Blocked<&'static str>,
    asked: usize,
}

impl Sink {
    fn new(room: usize, then: Blocked<&'static str>) -> Sink {
        Sink { taken: Vec::new(), room, then, asked: 0 }
    }

    fn write(&mut self, b: u8) -> Result<(), Blocked<&'static str>> {
        self.asked += 1;
        if self.room > 0 {
            self.room -= 1;
            self.taken.push(b);
            Ok(())
        } else {
            match &self.then {
                Blocked::WouldBlock => Err(Blocked::WouldBlock),
                Blocked::Other(e) => Err(Blocked::Other(*e)),
            }
        }
    }
}

/// Runs one flush against `sink`.
fn flush(out: &mut LightCliOutput, sink: &mut Sink) -> Result<(), Blocked<&'static str>> {
    let mut sent = None;
    loop {
        match out.flush(sent) {
            Flush::Send(b) => sent = Some(sink.write(b)),
            Flush::Done(r) => return r,
        }
    }
}

#[test]
fn flush_of_nothing_succeeds_and_asks_nothing() {
    let mut out = LightCliOutput::new();
    let mut sink = Sink::new(0, Blocked::Other("broken"));
    assert_eq!(out.peek(), None);
    assert_eq!(flush(&mut out, &mut sink), Ok(()));
    assert_eq!(sink.asked, 0);
    assert_eq!(out.peek(), None);
    assert_eq!(out.write_str("x", 0), 1);
    assert_eq!(out.peek(), Some(b'x'));
}

#[test]
fn flush_hands_out_in_order() {
    let mut out = LightCliOutput::new();
    assert_eq!(out.write_str("Name set\n", 0), 9);
    assert_eq!(out.peek(), Some(b'N'));
    let mut sink = Sink::new(100, Blocked::WouldBlock);
    assert_eq!(flush(&mut out, &mut sink), Ok(()));
    assert_eq!(sink.taken, b"Name set\n");
    assert_eq!(out.peek(), None);
}

#[test]
fn interrupted_flush_keeps_the_rest_in_order() {
    let mut out = LightCliOutput::new();
    assert_eq!(out.write_str("EHLO Name=Jöhnson\n", 0), 19);
    let mut sink = Sink::new(7, Blocked::WouldBlock);
    assert_eq!(flush(&mut out, &mut sink), Err(Blocked::WouldBlock));
    assert_eq!(sink.taken, b"EHLO Na");
    assert_eq!(out.peek(), Some(b'm'));
    // nothing moves while the sink takes nothing
    assert_eq!(flush(&mut out, &mut sink), Err(Blocked::WouldBlock));
    assert_eq!(out.peek(), Some(b'm'));
    assert_eq!(out.write_str("more", 0), 4);
    sink.room = 100;
    assert_eq!(flush(&mut out, &mut sink), Ok(()));
    assert_eq!(sink.taken, "EHLO Name=Jöhnson\nmore".as_bytes());
    assert_eq!(out.peek(), None);
}

#[test]
fn failure_of_the_sink_ends_the_flush_at_once() {
    let mut out = LightCliOutput::new();
    assert_eq!(out.write_str("abc", 0), 3);
    let mut sink = Sink::new(1, Blocked::Other("framing"));
    assert_eq!(flush(&mut out, &mut sink), Err(Blocked::Other("framing")));
    assert_eq!(sink.taken, b"a");
    assert_eq!(sink.asked, 2);
    assert_eq!(out.peek(), Some(b'b'));
}

#[test]
fn flush_steps_one_by_one() {
    let mut out = LightCliOutput::new();
    assert_eq!(out.write_str("hi", 0), 2);
    assert_eq!(out.flush::<u8>(None), Flush::Send(b'h'));
    // asking again without an answer offers the same byte
    assert_eq!(out.flush::<u8>(None), Flush::Send(b'h'));
    assert_eq!(out.flush::<u8>(Some(Ok(()))), Flush::Send(b'i'));
    assert_eq!(
        out.flush(Some(Err(Blocked::Other(3u8)))),
        Flush::Done(Err(Blocked::Other(3u8)))
    );
    assert_eq!(out.peek(), Some(b'i'));
    assert_eq!(out.flush::<u8>(None), Flush::Send(b'i'));
    assert_eq!(
        out.flush::<u8>(Some(Err(Blocked::WouldBlock))),
        Flush::Done(Err(Blocked::WouldBlock))
    );
    assert_eq!(out.flush::<u8>(None), Flush::Send(b'i'));
    assert_eq!(out.flush::<u8>(Some(Ok(()))), Flush::Done(Ok(())));
    assert_eq!(out.flush::<u8>(Some(Ok(()))), Flush::Done(Ok(())));
    assert_eq!(out.peek(), None);
}

#[test]
fn write_stops_when_the_queue_is_full() {
    let mut out = LightCliOutput::new();
    let text = "0123456789".repeat(15);
    assert_eq!(out.write_str(&text, 0), 128);
    assert_eq!(out.write_str(&text, 128), 128);
    let mut sink = Sink::new(28, Blocked::WouldBlock);
    assert_eq!(flush(&mut out, &mut sink), Err(Blocked::WouldBlock));
    assert_eq!(out.write_str(&text, 128), 150);
    assert_eq!(out.write_str(&text, 150), 150);
    sink.room = 1000;
    assert_eq!(flush(&mut out, &mut sink), Ok(()));
    assert_eq!(sink.taken, text.as_bytes());
}

#[test]
fn write_from_the_middle_and_beyond_the_end() {
    let mut out = LightCliOutput::new();
    assert_eq!(out.write_str("hello", 3), 5);
    assert_eq!(out.write_str("hello", 5), 5);
    assert_eq!(out.write_str("hello", 9), 9);
    assert_eq!(out.write_str("", 0), 0);
    let mut sink = Sink::new(10, Blocked::WouldBlock);
    assert_eq!(flush(&mut out, &mut sink), Ok(()));
    assert_eq!(sink.taken, b"lo");
}

#[test]
fn all_that_is_written_arrives_in_order() {
    let mut out = LightCliOutput::new();
    let mut sink = Sink::new(0, Blocked::WouldBlock);
    let mut written = Vec::new();
    for round in 0..40usize {
        let line = format!("line {} of many: ❤{}\n", round, "x".repeat(round));
        let mut at = 0;
        while at < line.len() {
            let end = out.write_str(&line, at);
            written.extend_from_slice(&line.as_bytes()[at..end]);
            at = end;
            sink.room = round % 11 + 1;
            let _ = flush(&mut out, &mut sink);
        }
    }
    sink.room = 1000;
    assert_eq!(flush(&mut out, &mut sink), Ok(()));
    assert_eq!(sink.taken, written);
    let mut expected = Vec::new();
    for round in 0..40usize {
        expected.extend_from_slice(
            format!("line {} of many: ❤{}\n", round, "x".repeat(round)).as_bytes(),
        );
    }
    assert_eq!(sink.taken, expected);
}
