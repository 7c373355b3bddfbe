//! The one error of the store, and the texts that it carries.

use vstd::prelude::*;
use vstd::string::StringExecFns;

verus! {

/// Why an operation did nothing.
#[derive(Debug, PartialEq, Eq)]
pub enum Error {
    /// No mission stands under the identifier, or what was asked of the
    /// mission cannot be had; `msg` says which.
    NotFound { msg: String },
}

impl Error {
    /// The text that the error carries.
    pub open spec fn message(self) -> Seq<char> {
        self->msg@
    }

    /// The text that the error carries.
    pub fn to_text(&self) -> (text: String)
        ensures
            text@ == self.message(),
    {
        match self {
            Error::NotFound { msg } => msg.clone(),
        }
    }
}

/// The character of a decimal digit.
pub open spec fn digit(d: nat) -> char {
    if d == 0 {
        '0'
    } else if d == 1 {
        '1'
    } else if d == 2 {
        '2'
    } else if d == 3 {
        '3'
    } else if d == 4 {
        '4'
    } else if d == 5 {
        '5'
    } else if d == 6 {
        '6'
    } else if d == 7 {
        '7'
    } else if d == 8 {
        '8'
    } else {
        '9'
    }
}

/// A number as decimal digits, without leading zeros.
pub open spec fn decimal(n: nat) -> Seq<char>
    decreases n,
{
    if n < 10 {
        seq![digit(n)]
    } else {
        decimal(n / 10).push(digit(n % 10))
    }
}

/// A text that names an identifier between two fixed parts.
pub open spec fn naming(before: Seq<char>, id: u64, after: Seq<char>) -> Seq<char> {
    before + decimal(id as nat) + after
}

/// What a read of a missing mission reports.
pub open spec fn read_not_found(id: u64) -> Seq<char> {
    naming("space mission with id="@, id, " not found"@)
}

/// What a replacement of a missing mission reports.
pub open spec fn update_not_found(id: u64) -> Seq<char> {
    naming("couldn't update space mission with id="@, id, ". item not found"@)
}

/// What a removal of a missing mission reports.
pub open spec fn delete_not_found(id: u64) -> Seq<char> {
    naming("couldn't delete space mission with id="@, id, ". item not found."@)
}

/// What a change of the arrival date of a missing mission reports.
pub open spec fn arrival_not_found(id: u64) -> Seq<char> {
    naming(
        "couldn't update estimated arrival date for space mission with id="@,
        id,
        ". item not found"@,
    )
}

/// What a change of the launch date of a missing mission reports.
pub open spec fn launch_not_found(id: u64) -> Seq<char> {
    naming("Couldn't update launch date for Space Mission with id="@, id, ". Item not found"@)
}

/// What a question for the time left of a missing mission reports.
pub open spec fn remaining_not_found(id: u64) -> Seq<char> {
    naming("Couldn't find Space Mission with id="@, id, ". Item not found"@)
}

/// What a question for the time left of a mission that has arrived reports.
pub open spec fn already_arrived() -> Seq<char> {
    "Space Mission has already arrived"@
}

fn digit_text(d: u64) -> (text: &'static str)
    requires
        d < 10,
    ensures
        text@ == seq![digit(d as nat)],
{
    proof {
        reveal_strlit("0");
        reveal_strlit("1");
        reveal_strlit("2");
        reveal_strlit("3");
        reveal_strlit("4");
        reveal_strlit("5");
        reveal_strlit("6");
        reveal_strlit("7");
        reveal_strlit("8");
        reveal_strlit("9");
    }
    let text = if d == 0 {
        "0"
    } else if d == 1 {
        "1"
    } else if d == 2 {
        "2"
    } else if d == 3 {
        "3"
    } else if d == 4 {
        "4"
    } else if d == 5 {
        "5"
    } else if d == 6 {
        "6"
    } else if d == 7 {
        "7"
    } else if d == 8 {
        "8"
    } else {
        "9"
    };
    assert(text@ =~= seq![digit(d as nat)]);
    text
}

/// The decimal digits of `n`.
pub fn decimal_text(n: u64) -> (text: String)
    ensures
        text@ == decimal(n as nat),
    decreases n,
{
    if n < 10 {
        String::from_str(digit_text(n))
    } else {
        let mut text = decimal_text(n / 10);
        text.append(digit_text(n % 10));
        assert(text@ =~= decimal(n as nat));
        text
    }
}

/// The error whose text names `id` between `before` and `after`.
pub fn not_found(before: &str, id: u64, after: &str) -> (error: Error)
    ensures
        error.message() == naming(before@, id, after@),
{
    let mut msg = String::from_str(before);
    let digits = decimal_text(id);
    msg.append(digits.as_str());
    msg.append(after);
    Error::NotFound { msg }
}

} // verus!
