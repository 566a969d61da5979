//! Diagnostic text: decimal rendering of line numbers and counts, and the
//! formats in which scan, parse and runtime errors are reported.
use crate::model::token_model;
use crate::token::{Token, TokenType};
use vstd::prelude::*;
use vstd::string::StringExecFns;

verus! {

/// The decimal digit character for `d`.
pub open spec fn spec_digit(d: int) -> char {
    if d == 0 {
        '0'
    } else if d == 1 {
        '1'
    } else if d == 2 {
        '2'
    } else if d == 3 {
        '3'
    } else if d == 4 {
        '4'
    } else if d == 5 {
        '5'
    } else if d == 6 {
        '6'
    } else if d == 7 {
        '7'
    } else if d == 8 {
        '8'
    } else {
        '9'
    }
}

/// The decimal numeral for `n`, most significant digit first.
pub open spec fn spec_nat_string(n: nat) -> Seq<char>
    decreases n,
{
    if n < 10 {
        seq![spec_digit(n as int)]
    } else {
        spec_nat_string(n / 10).push(spec_digit((n % 10) as int))
    }
}

/// The one-character string for a decimal digit.
pub fn digit_str(d: u64) -> (r: &'static str)
    requires
        d < 10,
    ensures
        r@ == seq![spec_digit(d as int)],
{
    proof {
        reveal_strlit("0");
        reveal_strlit("1");
        reveal_strlit("2");
        reveal_strlit("3");
        reveal_strlit("4");
        reveal_strlit("5");
        reveal_strlit("6");
        reveal_strlit("7");
        reveal_strlit("8");
        reveal_strlit("9");
        assert("0"@ =~= seq!['0']);
        assert("1"@ =~= seq!['1']);
        assert("2"@ =~= seq!['2']);
        assert("3"@ =~= seq!['3']);
        assert("4"@ =~= seq!['4']);
        assert("5"@ =~= seq!['5']);
        assert("6"@ =~= seq!['6']);
        assert("7"@ =~= seq!['7']);
        assert("8"@ =~= seq!['8']);
        assert("9"@ =~= seq!['9']);
    }
    match d {
        0 => "0",
        1 => "1",
        2 => "2",
        3 => "3",
        4 => "4",
        5 => "5",
        6 => "6",
        7 => "7",
        8 => "8",
        _ => "9",
    }
}

/// The decimal numeral for `n`.
pub fn u64_to_string(n: u64) -> (r: String)
    ensures
        r@ == spec_nat_string(n as nat),
    decreases n,
{
    if n < 10 {
        String::from_str(digit_str(n))
    } else {
        let mut s = u64_to_string(n / 10);
        s.append(digit_str(n % 10));
        s
    }
}

/// The report format of scan and parse diagnostics.
pub open spec fn spec_report(line: nat, location: Seq<char>, message: Seq<char>) -> Seq<char> {
    "[line "@ + spec_nat_string(line) + "] Error"@ + location + ": "@ + message
}

/// The location portion of a parse diagnostic for `t`.
pub open spec fn spec_token_location(lexeme: Seq<char>, kind: TokenType) -> Seq<char> {
    if kind == TokenType::EOF {
        " at end"@
    } else {
        " at '"@ + lexeme + "'"@
    }
}

/// A scanner diagnostic: no location, just a line and a message.
pub fn error(line: usize, message: String) -> (r: String)
    ensures
        r@ == spec_report(line as nat, Seq::empty(), message@),
{
    proof {
        reveal_strlit("");
        assert(""@ =~= Seq::<char>::empty());
    }
    report(line, "", message)
}

/// A parser diagnostic: located at a token, ` at end` for the EOF token.
pub fn error_token(token: &Token, message: String) -> (r: String)
    ensures
        r@ == spec_report(
            token_model(*token).line as nat,
            spec_token_location(token.lexeme@, token.token_type),
            message@,
        ),
{
    if token.token_type == TokenType::EOF {
        report(token.line, " at end", message)
    } else {
        let mut location = String::from_str(" at '");
        location.append(token.lexeme.as_str());
        location.append("'");
        let r = report_string(token.line, location, message);
        proof {
            assert(" at '"@ + token.lexeme@ + "'"@ =~= spec_token_location(
                token.lexeme@,
                token.token_type,
            ));
        }
        r
    }
}

/// The report format of runtime errors: the message, then the line.
pub open spec fn spec_runtime_report(message: Seq<char>, line: nat) -> Seq<char> {
    message + "\n[line "@ + spec_nat_string(line) + "]"@
}

/// A runtime diagnostic for a failure at `line`.
pub fn runtime_error(message: &String, line: usize) -> (r: String)
    ensures
        r@ == spec_runtime_report(message@, line as nat),
{
    let mut s = message.clone();
    s.append("\n[line ");
    s.append(u64_to_string(line as u64).as_str());
    s.append("]");
    proof {
        assert(s@ =~= spec_runtime_report(message@, line as nat));
    }
    s
}

/// A diagnostic line with a borrowed location.
fn report(line: usize, location: &str, message: String) -> (r: String)
    ensures
        r@ == spec_report(line as nat, location@, message@),
{
    let mut s = String::from_str("[line ");
    s.append(u64_to_string(line as u64).as_str());
    s.append("] Error");
    s.append(location);
    s.append(": ");
    s.append(message.as_str());
    proof {
        assert(s@ =~= spec_report(line as nat, location@, message@));
    }
    s
}

/// A diagnostic line with an owned location.
fn report_string(line: usize, location: String, message: String) -> (r: String)
    ensures
        r@ == spec_report(line as nat, location@, message@),
{
    report(line, location.as_str(), message)
}

} // verus!
