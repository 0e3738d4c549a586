use light_cli::scalar::decode;
use light_cli::scalar::is_continuation;
use light_cli::scalar::sequence_width;
use light_cli::text::width_of;
use light_cli::Blocked;
use light_cli::Error;
use light_cli::Fill;
use light_cli::Lexer;
use light_cli::RingBuffer;
use light_cli::Token;
use light_cli::TokenText;
use light_cli::Tokenizer;

#[test]
fn ring_is_first_in_first_out() {
    let mut rb: RingBuffer<8> = RingBuffer::new();
    assert!(rb.is_empty());
    assert_eq!(rb.len(), 0);
    assert_eq!(rb.peek(), None);
    assert_eq!(rb.dequeue(), None);
    for b in [3u8, 1, 2] {
        assert_eq!(rb.enqueue(b), Ok(()));
    }
    assert!(!rb.is_empty());
    assert_eq!(rb.len(), 3);
    assert_eq!(rb.peek(), Some(3));
    assert_eq!(rb.len(), 3);
    assert_eq!(rb.dequeue(), Some(3));
    assert_eq!(rb.dequeue(), Some(1));
    assert_eq!(rb.peek(), Some(2));
    assert_eq!(rb.dequeue(), Some(2));
    assert_eq!(rb.dequeue(), None);
    assert!(rb.is_empty());
}

#[test]
fn ring_reports_when_full() {
    let mut rb: RingBuffer<3> = RingBuffer::new();
    assert_eq!(rb.capacity(), 3);
    assert_eq!(rb.enqueue(1), Ok(()));
    assert_eq!(rb.enqueue(2), Ok(()));
    assert_eq!(rb.enqueue(3), Ok(()));
    assert_eq!(rb.enqueue(4), Err(Error::CapacityExceeded));
    assert_eq!(rb.len(), 3);
    assert_eq!(rb.dequeue(), Some(1));
    assert_eq!(rb.enqueue(5), Ok(()));
    assert_eq!(rb.dequeue(), Some(2));
    assert_eq!(rb.dequeue(), Some(3));
    assert_eq!(rb.dequeue(), Some(5));
    assert_eq!(rb.dequeue(), None);
}

#[test]
fn ring_wraps_around_many_times() {
    let mut rb: RingBuffer<128> = RingBuffer::new();
    let mut next_in: u32 = 0;
    let mut next_out: u32 = 0;
    for round in 0..50 {
        for _ in 0..(round % 7 + 90) {
            if rb.enqueue((next_in % 251) as u8).is_ok() {
                next_in += 1;
            }
        }
        for _ in 0..(round % 5 + 80) {
            if let Some(b) = rb.dequeue() {
                assert_eq!(b, (next_out % 251) as u8);
                next_out += 1;
            }
        }
        assert_eq!(rb.len() as u32, next_in - next_out);
    }
}

#[test]
fn ring_of_no_capacity_takes_nothing() {
    let mut rb: RingBuffer<0> = RingBuffer::new();
    assert_eq!(rb.capacity(), 0);
    assert_eq!(rb.enqueue(1), Err(Error::CapacityExceeded));
    assert!(rb.is_empty());
}

#[test]
fn ring_capacity_is_limited() {
    let mut rb: RingBuffer<500> = RingBuffer::new();
    assert_eq!(rb.capacity(), 128);
    for i in 0..128u32 {
        assert_eq!(rb.enqueue(i as u8), Ok(()));
    }
    assert_eq!(rb.enqueue(0), Err(Error::CapacityExceeded));
    assert_eq!(rb.len(), 128);
    assert_eq!(rb.peek(), Some(0));
}

#[test]
fn width_of_each_range() {
    assert_eq!(width_of('\0'), 1);
    assert_eq!(width_of('A'), 1);
    assert_eq!(width_of('\u{7F}'), 1);
    assert_eq!(width_of('\u{80}'), 2);
    assert_eq!(width_of('ü'), 2);
    assert_eq!(width_of('\u{7FF}'), 2);
    assert_eq!(width_of('\u{800}'), 3);
    assert_eq!(width_of('❤'), 3);
    assert_eq!(width_of('\u{FFFF}'), 3);
    assert_eq!(width_of('\u{10000}'), 4);
    assert_eq!(width_of('\u{10FFFF}'), 4);
    for c in ['x', 'ß', '€', '𝄞'] {
        assert_eq!(width_of(c), c.len_utf8());
    }
}

#[test]
fn sequence_width_of_each_lead() {
    assert_eq!(sequence_width(0x00), 1);
    assert_eq!(sequence_width(0x7F), 1);
    assert_eq!(sequence_width(0x80), 0);
    assert_eq!(sequence_width(0xBF), 0);
    assert_eq!(sequence_width(0xC0), 2);
    assert_eq!(sequence_width(0xDF), 2);
    assert_eq!(sequence_width(0xE0), 3);
    assert_eq!(sequence_width(0xEF), 3);
    assert_eq!(sequence_width(0xF0), 4);
    assert_eq!(sequence_width(0xF7), 4);
    assert_eq!(sequence_width(0xF8), 0);
    assert_eq!(sequence_width(0xFF), 0);
}

#[test]
fn continuation_bytes() {
    assert!(!is_continuation(0x7F));
    assert!(is_continuation(0x80));
    assert!(is_continuation(0xBF));
    assert!(!is_continuation(0xC0));
}

#[test]
fn decode_gives_the_scalar() {
    assert_eq!(decode(b'A', 0, 0, 0), Some('A'));
    assert_eq!(decode(0x7F, 0xFF, 0xFF, 0xFF), Some('\u{7F}'));
    assert_eq!(decode(0xC3, 0xBC, 0, 0), Some('ü'));
    assert_eq!(decode(0xE2, 0x9D, 0xA4, 0), Some('❤'));
    assert_eq!(decode(0xE2, 0x82, 0xAC, 0x41), Some('€'));
    assert_eq!(decode(0xF0, 0x9D, 0x84, 0x9E), Some('𝄞'));
    assert_eq!(decode(0xF4, 0x8F, 0xBF, 0xBF), Some('\u{10FFFF}'));
}

#[test]
fn decode_agrees_with_the_encoder() {
    let mut v: u32 = 0;
    while v <= 0x10FFFF {
        if let Some(c) = char::from_u32(v) {
            let mut buf = [0u8; 4];
            let n = c.encode_utf8(&mut buf).len();
            assert_eq!(sequence_width(buf[0]), n);
            assert_eq!(decode(buf[0], buf[1], buf[2], buf[3]), Some(c));
            assert_eq!(decode(buf[0], buf[1], buf[2], 0xFF), if n < 4 { Some(c) } else { None });
        }
        v += if v < 0x1_0000 { 1 } else { 17 };
    }
}

#[test]
fn decode_refuses_bytes_that_start_nothing() {
    assert_eq!(decode(0x80, 0x80, 0x80, 0x80), None);
    assert_eq!(decode(0xBF, 0, 0, 0), None);
    assert_eq!(decode(0xF8, 0x88, 0x80, 0x80), None);
    assert_eq!(decode(0xFF, 0xBF, 0xBF, 0xBF), None);
}

#[test]
fn decode_refuses_ill_formed_sequences() {
    assert_eq!(decode(0xC3, 0x41, 0, 0), None);
    assert_eq!(decode(0xC0, 0x80, 0, 0), None);
    assert_eq!(decode(0xC1, 0xBF, 0, 0), None);
    assert_eq!(decode(0xE0, 0x9F, 0xBF, 0), None);
    assert_eq!(decode(0xE2, 0x9D, 0x24, 0), None);
    assert_eq!(decode(0xED, 0xA0, 0x80, 0), None);
    assert_eq!(decode(0xED, 0xBF, 0xBF, 0), None);
    assert_eq!(decode(0xF0, 0x8F, 0xBF, 0xBF), None);
    assert_eq!(decode(0xF4, 0x90, 0x80, 0x80), None);
    assert_eq!(decode(0xF7, 0xBF, 0xBF, 0xBF), None);
    assert_eq!(decode(0xF0, 0x9D, 0x84, 0xC0), None);
}

#[test]
fn text_gathers_characters() {
    let mut t: TokenText<8> = TokenText::new();
    assert!(t.is_empty());
    assert_eq!(t.len(), 0);
    assert_eq!(t.as_str(), "");
    assert_eq!(t.capacity(), 8);
    assert_eq!(t.push('a'), Ok(()));
    assert_eq!(t.push('❤'), Ok(()));
    assert_eq!(t.push('ü'), Ok(()));
    assert!(!t.is_empty());
    assert_eq!(t.as_str(), "a❤ü");
    assert_eq!(t.len(), 6);
}

#[test]
fn text_refuses_what_does_not_fit() {
    let mut t: TokenText<5> = TokenText::new();
    assert_eq!(t.push('❤'), Ok(()));
    assert_eq!(t.push('❤'), Err(Error::CapacityExceeded));
    assert_eq!(t.as_str(), "❤");
    assert_eq!(t.len(), 3);
    assert_eq!(t.push('ü'), Ok(()));
    assert_eq!(t.push('a'), Err(Error::CapacityExceeded));
    assert_eq!(t.as_str(), "❤ü");
    assert_eq!(t.len(), 5);
}

#[test]
fn text_capacity_is_limited() {
    let mut t: TokenText<65> = TokenText::new();
    assert_eq!(t.capacity(), 64);
    for _ in 0..64 {
        assert_eq!(t.push('x'), Ok(()));
    }
    assert_eq!(t.push('x'), Err(Error::CapacityExceeded));
    assert_eq!(t.len(), 64);
    let mut none: TokenText<0> = TokenText::new();
    assert_eq!(none.push('x'), Err(Error::CapacityExceeded));
    assert!(none.is_empty());
}

#[test]
fn text_clear_take_and_clone() {
    let mut t: TokenText<8> = TokenText::new();
    t.push('a').unwrap();
    t.push('b').unwrap();
    let copy = t.clone();
    assert_eq!(copy.as_str(), "ab");
    assert_eq!(copy.len(), 2);
    t.push('c').unwrap();
    assert_eq!(copy.as_str(), "ab");
    let taken = t.take();
    assert_eq!(taken.as_str(), "abc");
    assert_eq!(taken.len(), 3);
    assert!(t.is_empty());
    assert_eq!(t.as_str(), "");
    t.push('d').unwrap();
    assert_eq!(t.as_str(), "d");
    t.clear();
    assert!(t.is_empty());
    assert_eq!(t.len(), 0);
    assert_eq!(t.as_str(), "");
    for _ in 0..8 {
        assert_eq!(t.push('e'), Ok(()));
    }
    assert_eq!(t.push('e'), Err(Error::CapacityExceeded));
}

fn buffer<const N: usize>(tokenizer: &mut Tokenizer<N>, bytes: &[u8]) {
    for b in bytes {
        assert_eq!(tokenizer.fill::<()>(Ok(*b)), Ok(Fill::ReadAgain));
    }
}

fn name<const N: usize>(token: &Token<N>) -> String {
    match token {
        Token::NewLine => "NewLine".to_string(),
        Token::CarriageReturn => "CarriageReturn".to_string(),
        Token::Equals => "Equals".to_string(),
        Token::Space => "Space".to_string(),
        Token::Value(t) => format!("Value({})", t.as_str()),
    }
}

#[test]
fn tokens_of_a_line() {
    let mut tokenizer: Tokenizer<16> = Tokenizer::new();
    buffer(&mut tokenizer, "SET Größe=10 \r\nX".as_bytes());
    let mut tokens = Vec::new();
    loop {
        match tokenizer.get_tokens() {
            Ok(Some(t)) => tokens.push(name(&t)),
            Ok(None) => break,
            Err(e) => panic!("{:?}", e),
        }
    }
    assert_eq!(
        tokens,
        vec![
            "Value(SET)",
            "Space",
            "Value(Größe)",
            "Equals",
            "Value(10)",
            "Space",
            "CarriageReturn",
            "NewLine"
        ]
    );
    // the text after the last delimiter waits for its end
    assert!(matches!(tokenizer.get_tokens(), Ok(None)));
    buffer(&mut tokenizer, b"Y ");
    assert_eq!(name(&tokenizer.get_tokens().unwrap().unwrap()), "Value(XY)");
    assert_eq!(name(&tokenizer.get_tokens().unwrap().unwrap()), "Space");
    assert!(matches!(tokenizer.get_tokens(), Ok(None)));
}

#[test]
fn tokenizer_waits_for_the_end_of_a_scalar() {
    let mut tokenizer: Tokenizer<16> = Tokenizer::new();
    buffer(&mut tokenizer, &[b'a', 0xF0, 0x9D, 0x84]);
    assert!(matches!(
        tokenizer.get_tokens(),
        Err(Blocked::WouldBlock)
    ));
    buffer(&mut tokenizer, &[0x9E, b'\n']);
    assert_eq!(name(&tokenizer.get_tokens().unwrap().unwrap()), "Value(a𝄞)");
    assert_eq!(name(&tokenizer.get_tokens().unwrap().unwrap()), "NewLine");
}

#[test]
fn tokenizer_errors() {
    let mut tokenizer: Tokenizer<2> = Tokenizer::new();
    buffer(&mut tokenizer, &[b'a', 0xBF, b'b', b'c', b'=']);
    assert!(matches!(
        tokenizer.get_tokens(),
        Err(Blocked::Other(Error::InvalidEncoding))
    ));
    assert!(matches!(
        tokenizer.get_tokens(),
        Err(Blocked::Other(Error::CapacityExceeded))
    ));
    assert_eq!(name(&tokenizer.get_tokens().unwrap().unwrap()), "Value(ab)");
    assert_eq!(name(&tokenizer.get_tokens().unwrap().unwrap()), "Equals");
}

#[test]
fn tokenizer_fill_stops_on_would_block_and_failure() {
    let mut tokenizer: Tokenizer<8> = Tokenizer::new();
    assert_eq!(tokenizer.fill(Ok::<u8, Blocked<&str>>(b'\n')), Ok(Fill::ReadAgain));
    assert_eq!(
        tokenizer.fill(Err::<u8, Blocked<&str>>(Blocked::WouldBlock)),
        Ok(Fill::Drained)
    );
    assert_eq!(
        tokenizer.fill(Err(Blocked::Other("overrun"))),
        Err(light_cli::FillError::Source("overrun"))
    );
    assert_eq!(name(&tokenizer.get_tokens().unwrap().unwrap()), "NewLine");
    assert!(matches!(tokenizer.get_tokens(), Ok(None)));
}

#[test]
fn lexer_with_a_tokenizer_of_its_own() {
    let mut tokenizer: Tokenizer<16> = Tokenizer::new();
    let mut lexer: Lexer<16> = Lexer::new();
    buffer(&mut tokenizer, b"GO Fast\r");
    let mut events = Vec::new();
    loop {
        match lexer.parse_data(&mut tokenizer) {
            Ok(Some(light_cli::CallbackCommand::Attribute(c, k, v))) => {
                events.push(format!("{} {}={}", c.as_str(), k.as_str(), v.as_str()))
            }
            Ok(Some(light_cli::CallbackCommand::Command(c))) => {
                events.push(c.as_str().to_string())
            }
            Ok(None) => break,
            Err(e) => panic!("{:?}", e),
        }
    }
    assert_eq!(events, vec!["GO Fast=", "GO"]);
}
