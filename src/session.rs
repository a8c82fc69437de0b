//! What the front ends decide: the reply to one console line, and the
//! result of the form's convert button.
use vstd::prelude::*;
use crate::command::{amount_of, command_of, parse_amount, parse_command, words, ParseError};
use crate::currency::{
    exchange, find_currency, Amount, ConversionError, Currency, CurrencyTable, Quantity,
};
use crate::text::{eq_fold, eq_ignore_case};

verus! {

/// Why a request could not be answered.
#[derive(Debug, PartialEq, Eq)]
pub enum CommandError {
    InvalidAmount,
    MalformedCommand,
    UnknownSourceCurrency(String),
    UnknownDestinationCurrency(String),
    Overflow,
}

/// The console's answer to one line.
#[derive(Debug)]
pub enum Reply<'a> {
    /// The line asked to leave.
    Exit,
    /// The converted quantity, in the target currency.
    Converted(Quantity, &'a Currency),
    /// The line could not be answered; the console goes on.
    Failed(CommandError),
}

pub open spec fn parse_failure(e: ParseError) -> CommandError {
    match e {
        ParseError::InvalidAmount => CommandError::InvalidAmount,
        ParseError::MalformedCommand => CommandError::MalformedCommand,
    }
}

/// The result of converting `q` from the currency named `from` to the one
/// named `to`: the target is looked up first, then the source.
pub open spec fn request_ok(
    table: CurrencyTable,
    q: Quantity,
    from: Seq<char>,
    to: Seq<char>,
    r: Result<(Quantity, &Currency), CommandError>,
) -> bool {
    match table.spec_find(to) {
        None => r matches Err(CommandError::UnknownDestinationCurrency(x)) && x@ == to,
        Some(j) => match table.spec_find(from) {
            None => r matches Err(CommandError::UnknownSourceCurrency(x)) && x@ == from,
            Some(i) => match exchange(q, table@[i], table@[j]) {
                Some(v) => r matches Ok((x, c)) && x == v && *c == table@[j],
                None => r matches Err(CommandError::Overflow),
            },
        },
    }
}

/// Converts `q` from the currency named `from` to the one named `to`.
pub fn convert_request<'a>(table: &'a CurrencyTable, q: Quantity, from: String, to: &str) -> (r:
    Result<(Quantity, &'a Currency), CommandError>)
    ensures
        request_ok(*table, q, from@, to@, r),
{
    let to_currency = match find_currency(to, table) {
        None => {
            return Err(CommandError::UnknownDestinationCurrency(to.to_owned()));
        },
        Some(c) => c,
    };
    match Currency::convert(Amount { quantity: q, currency: from }, to_currency, table) {
        Ok(v) => Ok((v, to_currency)),
        Err(ConversionError::UnknownSourceCurrency(x)) => Err(
            CommandError::UnknownSourceCurrency(x),
        ),
        Err(ConversionError::Overflow) => Err(CommandError::Overflow),
    }
}

/// Answers a command such as `20 USD to KZT`.
pub fn run_command<'a>(table: &'a CurrencyTable, line: &str) -> (r: Result<
    (Quantity, &'a Currency),
    CommandError,
>)
    ensures
        match command_of(line@) {
            Err(e) => r == Err::<(Quantity, &Currency), CommandError>(parse_failure(e)),
            Ok((q, a, b)) => request_ok(*table, q, a, b, r),
        },
{
    match parse_command(line) {
        Err(ParseError::InvalidAmount) => Err(CommandError::InvalidAmount),
        Err(ParseError::MalformedCommand) => Err(CommandError::MalformedCommand),
        Ok((q, from, to)) => convert_request(table, q, from, to.as_str()),
    }
}

/// The line is the word `exit`, in any case, with nothing else but spaces.
pub open spec fn is_exit(s: Seq<char>) -> bool {
    words(s).len() == 1 && eq_fold(words(s)[0], seq!['e', 'x', 'i', 't'])
}

/// The console's reply to one line: leave on `exit`, else answer the
/// command or say why it cannot be answered.
pub fn respond<'a>(table: &'a CurrencyTable, line: &str) -> (r: Reply<'a>)
    ensures
        is_exit(line@) ==> r is Exit,
        !is_exit(line@) ==> match command_of(line@) {
            Err(e) => r matches Reply::Failed(x) && x == parse_failure(e),
            Ok((q, a, b)) => match r {
                Reply::Converted(x, c) => request_ok(*table, q, a, b, Ok((x, c))),
                Reply::Failed(x) => request_ok(*table, q, a, b, Err(x)),
                Reply::Exit => false,
            },
        },
{
    let ws = crate::command::split_words(line);
    proof {
        reveal_strlit("exit");
        assert("exit"@ =~= seq!['e', 'x', 'i', 't']);
    }
    if ws.len() == 1 {
        assert(ws@[0]@ == words(line@)[0]);
        if eq_ignore_case(ws[0].as_str(), "exit") {
            return Reply::Exit;
        }
    }
    match run_command(table, line) {
        Ok((x, c)) => Reply::Converted(x, c),
        Err(e) => Reply::Failed(e),
    }
}

/// The form's convert button: `amount` is read as a whole, then the
/// request goes as on the console.
pub fn convert_form<'a>(table: &'a CurrencyTable, amount: &str, from: &str, to: &str) -> (r:
    Result<(Quantity, &'a Currency), CommandError>)
    ensures
        match amount_of(amount@) {
            None => r == Err::<(Quantity, &Currency), CommandError>(CommandError::InvalidAmount),
            Some(q) => request_ok(*table, q, from@, to@, r),
        },
{
    match parse_amount(amount) {
        None => Err(CommandError::InvalidAmount),
        Some(q) => convert_request(table, q, from.to_owned(), to),
    }
}

} // verus!
