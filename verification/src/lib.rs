//! A small, verified command-line argument parser.
//!
//! Required positional arguments are matched in the order they were added;
//! optional arguments have a long form (`--name`), an optional short form
//! (`-n`) and always a default value. A lone `--` ends option parsing.
mod args;
mod decimal;
mod laws;
mod parser;
mod private;
mod steps;
mod values;

pub use args::{
    opt_chars, opt_str_chars, opt_value, starts_with_dash, stored_map, valid_arg, ArgModel,
    Argument, ArgumentTrait, OptionalArgument, ParsedArgs,
};
pub use decimal::{
    digit_run_value, is_decimal_digit, law_decimal_words, parse_i64, spec_parse_i64, unsigned_part,
};
pub use laws::{
    declared_name, declared_with_type, holds_every_argument, law_double_dash_ends_options,
    law_flag_given_twice_refused, law_missing_option_value_refused,
    law_option_value_of_wrong_type_refused, law_positional_words_fill_required_in_order,
    law_program_name_ignored, law_success_covers_declared_names, law_success_values_typed,
    law_unknown_option_refused, law_values_follow_word_roles, names_distinct, option_value,
    positional_outcome, positional_values, values_follow_roles, values_typed, word_roles,
    words_then_defaults, count_positional, WordRole,
};
pub use parser::{
    after_option, error_message, find_long, find_short, finish, index_of, initial_state,
    is_double_dash, kind_name, lemma_find_long_found, lemma_find_short_found, option_lookup,
    option_name, outcome, parse_from, spec_parse, starts_with_double_dash, texts, typed_value,
    with_defaults, ArgumentParser, ErrorModel, OptionalModel, ParseError, ParseState, ParserModel,
    RequiredModel,
};
pub use steps::{
    designates, designates_none, law_add_arg_records_declaration, law_double_dash_step,
    law_end_of_words, law_option_lookup_exact, law_option_step, law_parse_starts_after_program_name,
    law_positional_step, law_unknown_option_step, law_words_read_by_type, option_given,
};
pub use values::ArgumentType::{Boolean, Integer, Text};
pub use values::{ArgumentType, FromParsedValue, ParsedValue, ValueModel};
