//! Why a modem refuses a command.
use vstd::prelude::*;
use vstd::string::StringExecFns;

verus! {

/// NACK reason codes
#[derive(Debug, Clone, Copy, PartialEq, Eq, Structural)]
pub enum MmdvmNackReason {
    BadCommand,
    WrongMode,
    CommandTooLong,
    DataIncorrect,
    BufferFull,
    Unknown(u8),
}

/// The reason that a reason code stands for.
pub open spec fn reason_of(value: u8) -> MmdvmNackReason {
    if value == 1 {
        MmdvmNackReason::BadCommand
    } else if value == 2 {
        MmdvmNackReason::WrongMode
    } else if value == 3 {
        MmdvmNackReason::CommandTooLong
    } else if value == 4 {
        MmdvmNackReason::DataIncorrect
    } else if value == 5 {
        MmdvmNackReason::BufferFull
    } else {
        MmdvmNackReason::Unknown(value)
    }
}

impl From<u8> for MmdvmNackReason {
    fn from(value: u8) -> (reason: MmdvmNackReason) {
        match value {
            1 => MmdvmNackReason::BadCommand,
            2 => MmdvmNackReason::WrongMode,
            3 => MmdvmNackReason::CommandTooLong,
            4 => MmdvmNackReason::DataIncorrect,
            5 => MmdvmNackReason::BufferFull,
            _ => MmdvmNackReason::Unknown(value),
        }
    }
}

impl vstd::std_specs::convert::FromSpecImpl<u8> for MmdvmNackReason {
    open spec fn obeys_from_spec() -> bool {
        true
    }

    open spec fn from_spec(value: u8) -> MmdvmNackReason {
        reason_of(value)
    }
}

/// The character for a decimal digit.
pub open spec fn digit_char(digit: nat) -> char {
    (0x30 + digit) as char
}

/// The decimal notation of a number.
pub open spec fn decimal(n: nat) -> Seq<char>
    decreases n,
{
    if n < 10 {
        seq![digit_char(n)]
    } else {
        decimal(n / 10).push(digit_char(n % 10))
    }
}

/// The text for a reason.
pub open spec fn reason_text(reason: MmdvmNackReason) -> Seq<char> {
    match reason {
        MmdvmNackReason::BadCommand => "Bad command"@,
        MmdvmNackReason::WrongMode => "Wrong mode"@,
        MmdvmNackReason::CommandTooLong => "Command too long"@,
        MmdvmNackReason::DataIncorrect => "Data incorrect"@,
        MmdvmNackReason::BufferFull => "Buffer full, enhance your calm"@,
        MmdvmNackReason::Unknown(value) => "Unknown NACK reason, value "@ + decimal(value as nat),
    }
}

fn digit(value: u8) -> (text: &'static str)
    requires
        value < 10,
    ensures
        text@ == seq![digit_char(value as nat)],
{
    proof {
        reveal_strlit("0");
        reveal_strlit("1");
        reveal_strlit("2");
        reveal_strlit("3");
        reveal_strlit("4");
        reveal_strlit("5");
        reveal_strlit("6");
        reveal_strlit("7");
        reveal_strlit("8");
        reveal_strlit("9");
    }
    match value {
        0 => "0",
        1 => "1",
        2 => "2",
        3 => "3",
        4 => "4",
        5 => "5",
        6 => "6",
        7 => "7",
        8 => "8",
        _ => "9",
    }
}

impl MmdvmNackReason {
    /// The reason in words.
    pub fn text(&self) -> (text: String)
        ensures
            text@ == reason_text(*self),
    {
        match *self {
            MmdvmNackReason::BadCommand => "Bad command".to_owned(),
            MmdvmNackReason::WrongMode => "Wrong mode".to_owned(),
            MmdvmNackReason::CommandTooLong => "Command too long".to_owned(),
            MmdvmNackReason::DataIncorrect => "Data incorrect".to_owned(),
            MmdvmNackReason::BufferFull => "Buffer full, enhance your calm".to_owned(),
            MmdvmNackReason::Unknown(val) => {
                let mut text: String = "Unknown NACK reason, value ".to_owned();
                let ghost start = text@;
                proof {
                    reveal_with_fuel(decimal, 3);
                }
                if val >= 100 {
                    text.append(digit(val / 100));
                }
                if val >= 10 {
                    text.append(digit(val / 10 % 10));
                }
                text.append(digit(val % 10));
                assert(text@ =~= start + decimal(val as nat));
                text
            },
        }
    }
}

/// A modem's reason codes keep their meaning: different codes are different
/// reasons.
pub proof fn law_reason_codes_are_distinct(a: u8, b: u8)
    requires
        a != b,
    ensures
        reason_of(a) != reason_of(b),
{
}

/// A reason can be told from its code, and the code from its reason: five
/// codes have a meaning, and any other is kept as it came.
pub proof fn law_reason_tells_code(code: u8)
    ensures
        reason_of(code) == MmdvmNackReason::BadCommand <==> code == 1,
        reason_of(code) == MmdvmNackReason::WrongMode <==> code == 2,
        reason_of(code) == MmdvmNackReason::CommandTooLong <==> code == 3,
        reason_of(code) == MmdvmNackReason::DataIncorrect <==> code == 4,
        reason_of(code) == MmdvmNackReason::BufferFull <==> code == 5,
        reason_of(code) is Unknown <==> code == 0 || code > 5,
        reason_of(code) matches MmdvmNackReason::Unknown(value) ==> value == code,
{
}

/// The number that decimal digits stand for.
pub open spec fn decimal_value(digits: Seq<char>) -> int
    decreases digits.len(),
{
    if digits.len() == 0 {
        0
    } else {
        10 * decimal_value(digits.drop_last()) + (digits.last() as int - '0' as int)
    }
}

/// The decimal notation of a number can be read back: it consists of digits,
/// has no leading zero, and stands for the number.
pub proof fn law_decimal_can_be_read_back(n: nat)
    ensures
        decimal_value(decimal(n)) == n,
        decimal(n).len() > 0,
        decimal(n).len() > 1 ==> decimal(n)[0] != '0',
        forall|i: int| 0 <= i < decimal(n).len() ==> '0' <= #[trigger] decimal(n)[i] <= '9',
        n < 10 <==> decimal(n).len() == 1,
    decreases n,
{
    let digit = digit_char(n % 10);
    assert(digit as int == 0x30 + n % 10);
    if n < 10 {
        assert(decimal(n) =~= seq![digit]);
        assert(decimal(n).drop_last() =~= seq![]);
        reveal_with_fuel(decimal_value, 2);
    } else {
        law_decimal_can_be_read_back(n / 10);
        assert(decimal(n).drop_last() =~= decimal(n / 10));
        if n / 10 < 10 {
            assert(decimal(n / 10)[0] as int == 0x30 + n / 10);
        }
    }
}

} // verus!
