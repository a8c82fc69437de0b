//! Currency lookup, exact conversion between currencies, and the parser
//! for commands such as `20 USD to KZT`.
//!
//! Quantities are exact rationals and rates are whole numbers of
//! ten-thousandths of the base currency, so conversions carry no rounding.
pub mod command;
pub mod currency;
pub mod session;
pub mod text;

pub use command::{join_words, parse_amount, parse_command, split_words, ParseError, MAX_DIGITS};
pub use currency::{
    find_currency, init_currencies, lemma_convert_to_itself, lemma_found_by_any_alias,
    lemma_round_trip, Amount, ConversionError, Currency, CurrencyTable, Quantity, BASE_RATE,
};
pub use session::{convert_form, convert_request, respond, run_command, CommandError, Reply};
pub use text::{eq_ignore_case, is_blank};
