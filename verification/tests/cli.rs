use embedded_hal::serial::Read;
use heapless::spsc::Queue;
use heapless::String;
use light_cli::Blocked;
use light_cli::CallbackCommand;
use light_cli::Error;
use light_cli::Fill;
use light_cli::FillError;
use light_cli::LightCliInput;

pub struct SerialBufferDevice {
    pub rb: Queue<u8, 513>,
}

#[allow(dead_code)]
#[derive(Debug)]
pub enum DeviceError {
    Failure,
}

impl Read<u8> for SerialBufferDevice {
    type Error = DeviceError;

    fn read(&mut self) -> nb::Result<u8, Self::Error> {
        match self.rb.dequeue() {
            Some(a) => Ok(a),
            None => Err(nb::Error::WouldBlock),
        }
    }
}

impl SerialBufferDevice {
    pub fn write_str(&mut self, s: &str) {
        let s: String<128> = String::try_from(s).unwrap();
        self.write(s.as_bytes());
    }

    pub fn write(&mut self, dat: &[u8]) {
        for b in dat {
            self.rb.enqueue(*b).unwrap()
        }
    }
}

/// Reads the device until it would block, and hands each outcome to the
/// parser.
fn fill<const N: usize>(
    cli: &mut LightCliInput<N>,
    ser: &mut SerialBufferDevice,
) -> Result<(), FillError<DeviceError>> {
    loop {
        let read = match ser.read() {
            Ok(b) => Ok(b),
            Err(nb::Error::WouldBlock) => Err(Blocked::WouldBlock),
            Err(nb::Error::Other(e)) => Err(Blocked::Other(e)),
        };
        match cli.fill(read) {
            Ok(Fill::ReadAgain) => {}
            Ok(Fill::Drained) => return Ok(()),
            Err(e) => return Err(e),
        }
    }
}

/// Hands every event that is to be had to `callback`.
fn parse_data<const N: usize, CB>(
    cli: &mut LightCliInput<N>,
    mut callback: CB,
) -> Result<(), Blocked<Error>>
where
    CB: FnMut(CallbackCommand<N>),
{
    loop {
        match cli.parse_data() {
            Ok(Some(event)) => callback(event),
            Ok(None) => return Ok(()),
            Err(e) => return Err(e),
        }
    }
}

#[test]
pub fn test1() {
    let mut sb = SerialBufferDevice { rb: Queue::new() };
    let mut cli: LightCliInput<32> = LightCliInput::new();

    sb.write_str("HELLO TE❤ST=50\n");
    fill(&mut cli, &mut sb).unwrap();

    let mut ran = false;
    let mut done = false;

    let _ = parse_data(&mut cli, |cbcmd| match cbcmd {
        CallbackCommand::Attribute(cmd, key, val) => {
            assert!(cmd.as_str() == "HELLO", "cmd={}", cmd.as_str());
            assert!(key.as_str() == "TE❤ST", "key={}", key.as_str());
            assert!(val.as_str() == "50", "val={}", val.as_str());
            ran = true;
        }
        CallbackCommand::Command(cmd) => {
            assert!(cmd.as_str() == "HELLO", "cmd={}", cmd.as_str());
            assert!(!done);
            done = true;
        }
    });

    assert!(ran);
    assert!(done);
}

#[test]
pub fn test_partial() {
    let mut sb = SerialBufferDevice { rb: Queue::new() };
    let mut cli: LightCliInput<32> = LightCliInput::new();

    // fill the buffer with some data
    sb.write_str("HELLO TE❤ST=50 Five=A");
    fill(&mut cli, &mut sb).unwrap();

    let mut ran = false;
    let mut done = false;

    // only the first attribute is complete
    let _ = parse_data(&mut cli, |cbcmd| match cbcmd {
        CallbackCommand::Attribute(cmd, key, val) => {
            assert!(cmd.as_str() == "HELLO", "cmd={}", cmd.as_str());
            assert!(key.as_str() == "TE❤ST", "key={}", key.as_str());
            assert!(val.as_str() == "50", "val={}", val.as_str());
            ran = true;
        }
        CallbackCommand::Command(_cmd) => {
            assert!(false, "Command isn't finished.");
        }
    });

    assert!(ran);

    // finish command
    sb.write_str("\n");
    fill(&mut cli, &mut sb).unwrap();

    ran = false;

    let _ = parse_data(&mut cli, |cbcmd| match cbcmd {
        CallbackCommand::Attribute(cmd, key, val) => {
            assert!(cmd.as_str() == "HELLO", "cmd={}", cmd.as_str());
            assert!(key.as_str() == "Five", "key={}", key.as_str());
            assert!(val.as_str() == "A", "val={}", val.as_str());
            ran = true;
        }
        CallbackCommand::Command(cmd) => {
            assert!(cmd.as_str() == "HELLO", "cmd={}", cmd.as_str());
            done = true;
        }
    });

    assert!(ran);
    assert!(done);
}

#[test]
pub fn test_macro() {
    let mut sb = SerialBufferDevice { rb: Queue::new() };
    let mut cli: LightCliInput<32> = LightCliInput::new();

    sb.write_str("HELLO Name=Foo\n");
    fill(&mut cli, &mut sb).unwrap();

    let mut ran = false;
    let mut done = false;

    let mut name: String<32> = String::new();

    let _ = parse_data(&mut cli, |cbcmd| match cbcmd {
        CallbackCommand::Attribute(cmd, key, val) => match cmd.as_str() {
            "HELLO" => match key.as_str() {
                "Name" => {
                    ran = true;
                    name = String::try_from(val.as_str()).unwrap()
                }
                _ => assert!(false, "Unknown key {} for cmd {}", key.as_str(), cmd.as_str()),
            },
            "EHLO" => match key.as_str() {
                _ => assert!(false, "Unknown key {} for cmd {}", key.as_str(), cmd.as_str()),
            },
            _ => assert!(false, "Unknown cmd {}", cmd.as_str()),
        },
        CallbackCommand::Command(cmd) => match cmd.as_str() {
            "HELLO" => {
                assert!(ran);
                done = true
            }
            "EHLO" => assert!(name == "Foo", "name = {}", name.as_str()),
            _ => assert!(false, "Unknown cmd done {}", cmd.as_str()),
        },
    });

    assert!(ran);
    assert!(done);
}
