//! What each word of a command line does to a parse, at any position and in
//! any state, stated directly over the words and the declarations.
use vstd::prelude::*;

use crate::args::{starts_with_dash, ArgModel};
use crate::decimal::spec_parse_i64;
use crate::laws::names_distinct;
use crate::parser::{
    find_long, find_short, initial_state, is_double_dash, option_lookup, parse_from, spec_parse,
    starts_with_double_dash, typed_value, with_defaults, ErrorModel, OptionalModel, ParseState,
    ParserModel, RequiredModel,
};
use crate::values::{ArgumentType, ValueModel};

verus! {

/// Option word `a` designates optional argument `j`: after `--` its long form,
/// after `-` its short form, `j` being the last declaration with that form.
pub open spec fn designates(opts: Seq<OptionalModel>, a: Seq<char>, j: int) -> bool {
    &&& 0 <= j < opts.len()
    &&& if starts_with_double_dash(a) {
        &&& opts[j].long == a.skip(2)
        &&& forall|k: int| j < k < opts.len() ==> (#[trigger] opts[k]).long != a.skip(2)
    } else {
        &&& opts[j].short == Some(a.skip(1))
        &&& forall|k: int| j < k < opts.len() ==> (#[trigger] opts[k]).short != Some(a.skip(1))
    }
}

/// Option word `a` designates no optional argument.
pub open spec fn designates_none(opts: Seq<OptionalModel>, a: Seq<char>) -> bool {
    if starts_with_double_dash(a) {
        forall|k: int| 0 <= k < opts.len() ==> (#[trigger] opts[k]).long != a.skip(2)
    } else {
        forall|k: int| 0 <= k < opts.len() ==> (#[trigger] opts[k]).short != Some(a.skip(1))
    }
}

proof fn lemma_find_long_exact(opts: Seq<OptionalModel>, name: Seq<char>, n: int)
    requires
        0 <= n <= opts.len(),
    ensures
        find_long(opts, name, n) matches Some(j) ==> 0 <= j < n && opts[j].long == name && forall|k: int|
            j < k < n ==> (#[trigger] opts[k]).long != name,
        find_long(opts, name, n) is None ==> forall|k: int| 0 <= k < n ==> (#[trigger] opts[k]).long != name,
    decreases n,
{
    if n > 0 {
        lemma_find_long_exact(opts, name, n - 1);
    }
}

proof fn lemma_find_short_exact(opts: Seq<OptionalModel>, name: Seq<char>, n: int)
    requires
        0 <= n <= opts.len(),
    ensures
        find_short(opts, name, n) matches Some(j) ==> 0 <= j < n && opts[j].short == Some(name) && forall|
            k: int,
        | j < k < n ==> (#[trigger] opts[k]).short != Some(name),
        find_short(opts, name, n) is None ==> forall|k: int|
            0 <= k < n ==> (#[trigger] opts[k]).short != Some(name),
    decreases n,
{
    if n > 0 {
        lemma_find_short_exact(opts, name, n - 1);
    }
}

/// The optional argument that the parser takes an option word for is the one
/// the word designates, and none exactly when it designates none.
pub proof fn law_option_lookup_exact(opts: Seq<OptionalModel>, a: Seq<char>)
    ensures
        forall|j: int| #[trigger] designates(opts, a, j) <==> option_lookup(opts, a) == Some(j),
        designates_none(opts, a) <==> option_lookup(opts, a) is None,
{
    lemma_find_long_exact(opts, a.skip(2), opts.len() as int);
    lemma_find_short_exact(opts, a.skip(1), opts.len() as int);
    assert forall|j: int| #[trigger] designates(opts, a, j) implies option_lookup(opts, a) == Some(j) by {
        if starts_with_double_dash(a) {
            if let Some(j2) = option_lookup(opts, a) {
                if j2 < j {
                    assert(opts[j].long == a.skip(2));
                } else if j < j2 {
                    assert(opts[j2].long == a.skip(2));
                }
            } else {
                assert(opts[j].long == a.skip(2));
            }
        } else {
            if let Some(j2) = option_lookup(opts, a) {
                if j2 < j {
                    assert(opts[j].short == Some(a.skip(1)));
                } else if j < j2 {
                    assert(opts[j2].short == Some(a.skip(1)));
                }
            } else {
                assert(opts[j].short == Some(a.skip(1)));
            }
        }
    }
    if let Some(j2) = option_lookup(opts, a) {
        if starts_with_double_dash(a) {
            assert(opts[j2].long == a.skip(2));
        } else {
            assert(opts[j2].short == Some(a.skip(1)));
        }
    }
}

/// A word read as an integer is accepted exactly when it reads as a decimal
/// `i64`, as that number (zero and negative numbers included); a word read as
/// text is accepted as itself.
pub proof fn law_words_read_by_type(s: Seq<char>)
    ensures
        spec_parse_i64(s) matches Some(v) ==> typed_value(ArgumentType::Integer, s) == Some(
            ValueModel::Integer(v),
        ),
        spec_parse_i64(s) is None ==> typed_value(ArgumentType::Integer, s) is None,
        typed_value(ArgumentType::Text, s) == Some(ValueModel::Text(s)),
{
}

/// Adding an argument records exactly its declaration: a required one after
/// the required ones, an optional one (with its long form, short form, type
/// and default unchanged) after the optional ones; the rest is kept.
pub proof fn law_add_arg_records_declaration(m: ParserModel, arg: ArgModel)
    ensures
        arg.required ==> m.with_arg(arg).required == m.required.push(
            RequiredModel { name: arg.name, argtype: arg.argtype },
        ) && m.with_arg(arg).optional == m.optional,
        !arg.required ==> m.with_arg(arg).required == m.required && m.with_arg(arg).optional.len()
            == m.optional.len() + 1 && m.with_arg(arg).optional.take(m.optional.len() as int)
            == m.optional && m.with_arg(arg).optional.last().long == arg.name && m.with_arg(
            arg,
        ).optional.last().short == arg.short && m.with_arg(arg).optional.last().argtype == arg.argtype,
        !arg.required && arg.default is Some ==> m.with_arg(arg).optional.last().default
            == arg.default.unwrap(),
{
    if !arg.required {
        assert(m.with_arg(arg).optional.take(m.optional.len() as int) =~= m.optional);
    }
}

/// A parse starts after the program name, with options on, no required
/// argument filled, no optional argument given and no value stored.
pub proof fn law_parse_starts_after_program_name(p: ParserModel, args: Seq<Seq<char>>)
    ensures
        spec_parse(p, args) == parse_from(
            p,
            args,
            1,
            ParseState {
                options: true,
                next_required: 0,
                seen: Seq::new(p.optional.len(), |j: int| false),
                values: Map::empty(),
            },
        ),
{
}

/// A `--` read while options are on, at any position, is never refused: it
/// turns options off and the parse goes on with the next word.
pub proof fn law_double_dash_step(p: ParserModel, args: Seq<Seq<char>>, i: int, st: ParseState)
    requires
        0 <= i < args.len(),
        st.options,
        is_double_dash(args[i]),
    ensures
        parse_from(p, args, i, st) == parse_from(
            p,
            args,
            i + 1,
            ParseState {
                options: false,
                next_required: st.next_required,
                seen: st.seen,
                values: st.values,
            },
        ),
{
}

/// A word that begins with `-`, read while options are on at any position, is
/// refused as unknown when it designates no optional argument, by the name
/// written after its dashes.
pub proof fn law_unknown_option_step(p: ParserModel, args: Seq<Seq<char>>, i: int, st: ParseState)
    requires
        0 <= i < args.len(),
        st.options,
        starts_with_dash(args[i]),
        !is_double_dash(args[i]),
        designates_none(p.optional, args[i]),
    ensures
        parse_from(p, args, i, st) == Err::<Map<Seq<char>, ValueModel>, ErrorModel>(
            ErrorModel::UnknownArgument(
                if starts_with_double_dash(args[i]) {
                    args[i].skip(2)
                } else {
                    args[i].skip(1)
                },
            ),
        ),
{
    law_option_lookup_exact(p.optional, args[i]);
}

/// The state after optional argument `j` received `v`.
pub open spec fn option_given(p: ParserModel, st: ParseState, j: int, v: ValueModel) -> ParseState {
    ParseState {
        options: st.options,
        next_required: st.next_required,
        seen: st.seen.update(j, true),
        values: st.values.insert(p.optional[j].long, v),
    }
}

/// A word, read while options are on at any position, that designates optional
/// argument `j`: refused as a duplicate if `j` was given already; a flag gets
/// `true`; any other option takes the next word, whatever it begins with, as
/// its value when that word reads as the option's type, is refused as wrongly
/// typed when it does not, and is refused as missing its value when there is
/// no next word.
pub proof fn law_option_step(p: ParserModel, args: Seq<Seq<char>>, i: int, st: ParseState, j: int)
    requires
        0 <= i < args.len(),
        st.options,
        starts_with_dash(args[i]),
        !is_double_dash(args[i]),
        designates(p.optional, args[i], j),
    ensures
        st.seen[j] ==> parse_from(p, args, i, st) == Err::<Map<Seq<char>, ValueModel>, ErrorModel>(
            ErrorModel::DuplicateArgument(p.optional[j].long),
        ),
        !st.seen[j] && p.optional[j].argtype == ArgumentType::Boolean ==> parse_from(p, args, i, st)
            == parse_from(p, args, i + 1, option_given(p, st, j, ValueModel::Boolean(true))),
        !st.seen[j] && p.optional[j].argtype != ArgumentType::Boolean && i + 1 >= args.len() ==> parse_from(
            p,
            args,
            i,
            st,
        ) == Err::<Map<Seq<char>, ValueModel>, ErrorModel>(ErrorModel::MissingValue(p.optional[j].long)),
        !st.seen[j] && p.optional[j].argtype != ArgumentType::Boolean && i + 1 < args.len() ==> match typed_value(
            p.optional[j].argtype,
            args[i + 1],
        ) {
            Some(v) => parse_from(p, args, i, st) == parse_from(p, args, i + 2, option_given(p, st, j, v)),
            None => parse_from(p, args, i, st) == Err::<Map<Seq<char>, ValueModel>, ErrorModel>(
                ErrorModel::WrongType {
                    name: p.optional[j].long,
                    expected: ArgumentType::Integer,
                    given: args[i + 1],
                },
            ),
        },
{
    law_option_lookup_exact(p.optional, args[i]);
    assert(option_lookup(p.optional, args[i]) == Some(j));
}

/// A word that is not an option (options are off, or it does not begin with
/// `-`), at any position, fills the next required argument with its value when
/// it reads as that argument's type, is refused as wrongly typed when it does
/// not, and is refused as one too many when every required argument is filled.
pub proof fn law_positional_step(p: ParserModel, args: Seq<Seq<char>>, i: int, st: ParseState)
    requires
        0 <= i < args.len(),
        !(st.options && starts_with_dash(args[i])),
    ensures
        st.next_required >= p.required.len() ==> parse_from(p, args, i, st) == Err::<
            Map<Seq<char>, ValueModel>,
            ErrorModel,
        >(ErrorModel::TooManyArguments),
        st.next_required < p.required.len() ==> match typed_value(
            p.required[st.next_required as int].argtype,
            args[i],
        ) {
            Some(v) => parse_from(p, args, i, st) == parse_from(
                p,
                args,
                i + 1,
                ParseState {
                    options: st.options,
                    next_required: st.next_required + 1,
                    seen: st.seen,
                    values: st.values.insert(p.required[st.next_required as int].name, v),
                },
            ),
            None => parse_from(p, args, i, st) == Err::<Map<Seq<char>, ValueModel>, ErrorModel>(
                ErrorModel::WrongType {
                    name: p.required[st.next_required as int].name,
                    expected: ArgumentType::Integer,
                    given: args[i],
                },
            ),
        },
{
    assert(!(st.options && is_double_dash(args[i])));
}

/// When the words run out, the parse fails on the first unfilled required
/// argument, if any; otherwise it succeeds with the stored values, where every
/// optional argument not given also has a value, and (names being distinct)
/// that value is its default while every other stored value is kept.
pub proof fn law_end_of_words(p: ParserModel, args: Seq<Seq<char>>, i: int, st: ParseState)
    requires
        i >= args.len(),
        st.seen.len() == p.optional.len(),
    ensures
        st.next_required < p.required.len() ==> parse_from(p, args, i, st) == Err::<
            Map<Seq<char>, ValueModel>,
            ErrorModel,
        >(ErrorModel::MissingRequired(p.required[st.next_required as int].name)),
        st.next_required >= p.required.len() ==> parse_from(p, args, i, st) is Ok,
        parse_from(p, args, i, st) matches Ok(m) ==> {
            &&& forall|k: Seq<char>| st.values.contains_key(k) ==> #[trigger] m.contains_key(k)
            &&& forall|j: int|
                0 <= j < p.optional.len() && !st.seen[j] ==> m.contains_key((#[trigger] p.optional[j]).long)
            &&& names_distinct(p) ==> forall|j: int|
                0 <= j < p.optional.len() && !st.seen[j] ==> m[(#[trigger] p.optional[j]).long]
                    == p.optional[j].default
            &&& names_distinct(p) ==> forall|k: Seq<char>|
                (forall|j: int| 0 <= j < p.optional.len() && !st.seen[j] ==> (#[trigger] p.optional[j]).long != k)
                    ==> #[trigger] m[k] == st.values[k]
        },
{
    let n = p.optional.len() as int;
    if st.next_required >= p.required.len() {
        crate::laws::lemma_with_defaults_exact(p, st.seen, st.values, n);
    }
}

} // verus!
