use vstd::prelude::*;
use vstd::string::StringSliceAdditionalSpecFns;

verus! {

/// Error returned when a command string is not one of the known command names.
#[derive(Debug, Clone, Copy, PartialEq, Eq, Structural)]
pub struct UnknownCommand;

/// The closed vocabulary of commands a remote can send. Each command has a
/// fixed 4-bit wire code that occupies the high nibble of the frame's command
/// byte; the set admits no runtime extension.
#[derive(Debug, Clone, Copy, PartialEq, Eq, Structural)]
pub enum Command {
    My,
    Up,
    MyUp,
    Down,
    MyDown,
    UpDown,
    MyUpDown,
    Prog,
    SunFlag,
    Flag,
}

/// `b` with an ASCII capital letter folded to its small form; any other
/// byte is kept.
pub open spec fn lower_byte(b: u8) -> u8 {
    if 'A' as u8 <= b <= 'Z' as u8 {
        (b + 0x20) as u8
    } else {
        b
    }
}

/// `s` with every ASCII capital letter folded to its small form.
pub open spec fn fold_case(s: Seq<u8>) -> Seq<u8> {
    s.map_values(|b: u8| lower_byte(b))
}

/// The command a string of bytes names, comparing without regard to ASCII
/// case: exactly the ten known names parse, every other string is refused.
pub open spec fn command_of(s: Seq<u8>) -> Option<Command> {
    let folded = fold_case(s);
    if folded == "my".spec_bytes() {
        Some(Command::My)
    } else if folded == "up".spec_bytes() {
        Some(Command::Up)
    } else if folded == "myup".spec_bytes() {
        Some(Command::MyUp)
    } else if folded == "down".spec_bytes() {
        Some(Command::Down)
    } else if folded == "mydown".spec_bytes() {
        Some(Command::MyDown)
    } else if folded == "updown".spec_bytes() {
        Some(Command::UpDown)
    } else if folded == "myupdown".spec_bytes() {
        Some(Command::MyUpDown)
    } else if folded == "prog".spec_bytes() {
        Some(Command::Prog)
    } else if folded == "sunflag".spec_bytes() {
        Some(Command::SunFlag)
    } else if folded == "flag".spec_bytes() {
        Some(Command::Flag)
    } else {
        None
    }
}

/// Parsing sees only the case-folded bytes: strings that fold to the same
/// bytes name the same command, or both name none.
pub proof fn lemma_parse_case_insensitive(s1: Seq<u8>, s2: Seq<u8>)
    requires
        fold_case(s1) == fold_case(s2),
    ensures
        command_of(s1) == command_of(s2),
{
}

/// `b` with an ASCII capital letter folded to its small form.
fn lower_byte_exec(b: u8) -> (folded: u8)
    ensures
        folded == lower_byte(b),
{
    if b >= 0x41 && b <= 0x5A {
        b + 0x20
    } else {
        b
    }
}

/// Whether `s`, case-folded, equals the bytes of `name` exactly.
fn eq_ignore_case(s: &[u8], name: &str) -> (equal: bool)
    ensures
        equal == (fold_case(s@) == name.spec_bytes()),
{
    let name_bytes = name.as_bytes();
    if s.len() != name_bytes.len() {
        proof {
            assert(fold_case(s@).len() == s@.len());
        }
        return false;
    }
    let mut i: usize = 0;
    while i < s.len()
        invariant
            s@.len() == name_bytes@.len(),
            name_bytes@ == name.spec_bytes(),
            i <= s@.len(),
            forall|j: int| 0 <= j < i ==> fold_case(s@)[j] == name.spec_bytes()[j],
        decreases s@.len() - i,
    {
        let folded = lower_byte_exec(s[i]);
        if folded != name_bytes[i] {
            proof {
                assert(fold_case(s@)[i as int] == lower_byte(s@[i as int]));
            }
            return false;
        }
        proof {
            assert(fold_case(s@)[i as int] == lower_byte(s@[i as int]));
        }
        i = i + 1;
    }
    proof {
        assert(fold_case(s@) =~= name.spec_bytes());
    }
    true
}

impl Command {
    /// The 4-bit wire code of this command.
    pub open spec fn spec_code(self) -> u8 {
        match self {
            Command::My => 0x1,
            Command::Up => 0x2,
            Command::MyUp => 0x3,
            Command::Down => 0x4,
            Command::MyDown => 0x5,
            Command::UpDown => 0x6,
            Command::MyUpDown => 0x7,
            Command::Prog => 0x8,
            Command::SunFlag => 0x9,
            Command::Flag => 0xA,
        }
    }

    /// The command byte as it appears in a frame before the checksum is
    /// folded in: the wire code in the high nibble, a zero low nibble.
    pub open spec fn spec_byte(self) -> u8 {
        (self.spec_code() * 0x10) as u8
    }

    /// The command byte (wire code shifted into the high nibble).
    pub fn byte(self) -> (b: u8)
        ensures
            b == self.spec_byte(),
    {
        match self {
            Command::My => 0x10,
            Command::Up => 0x20,
            Command::MyUp => 0x30,
            Command::Down => 0x40,
            Command::MyDown => 0x50,
            Command::UpDown => 0x60,
            Command::MyUpDown => 0x70,
            Command::Prog => 0x80,
            Command::SunFlag => 0x90,
            Command::Flag => 0xA0,
        }
    }

    /// Parse a command name, without regard to ASCII case: exactly the ten
    /// known names parse, and every other string is an `UnknownCommand`
    /// error.
    pub fn from_str(s: &str) -> (result: Result<Command, UnknownCommand>)
        ensures
            match result {
                Ok(command) => command_of(s.spec_bytes()) == Some(command),
                Err(_) => command_of(s.spec_bytes()) is None,
            },
    {
        let bytes = s.as_bytes();
        if eq_ignore_case(bytes, "my") {
            Ok(Command::My)
        } else if eq_ignore_case(bytes, "up") {
            Ok(Command::Up)
        } else if eq_ignore_case(bytes, "myup") {
            Ok(Command::MyUp)
        } else if eq_ignore_case(bytes, "down") {
            Ok(Command::Down)
        } else if eq_ignore_case(bytes, "mydown") {
            Ok(Command::MyDown)
        } else if eq_ignore_case(bytes, "updown") {
            Ok(Command::UpDown)
        } else if eq_ignore_case(bytes, "myupdown") {
            Ok(Command::MyUpDown)
        } else if eq_ignore_case(bytes, "prog") {
            Ok(Command::Prog)
        } else if eq_ignore_case(bytes, "sunflag") {
            Ok(Command::SunFlag)
        } else if eq_ignore_case(bytes, "flag") {
            Ok(Command::Flag)
        } else {
            Err(UnknownCommand)
        }
    }
}

} // verus!
