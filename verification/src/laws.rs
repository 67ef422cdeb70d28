//! Properties of parsing that hold for every parser and command line.
use vstd::prelude::*;

use crate::args::starts_with_dash;
use crate::parser::{
    after_option, finish, find_long, find_short, initial_state, is_double_dash,
    lemma_find_long_found, lemma_find_short_found, option_lookup, parse_from, spec_parse,
    starts_with_double_dash, typed_value, with_defaults, ErrorModel, OptionalModel, ParseState,
    ParserModel,
};
use crate::values::{ArgumentType, ValueModel};

verus! {

/// Some argument of `p` is called `k` (a required name or an optional long form).
pub open spec fn declared_name(p: ParserModel, k: Seq<char>) -> bool {
    ||| exists|j: int| 0 <= j < p.required.len() && #[trigger] p.required[j].name == k
    ||| exists|j: int| 0 <= j < p.optional.len() && #[trigger] p.optional[j].long == k
}

/// Some argument of `p` is called `k` and has type `t`.
pub open spec fn declared_with_type(p: ParserModel, k: Seq<char>, t: ArgumentType) -> bool {
    ||| exists|j: int|
        0 <= j < p.required.len() && #[trigger] p.required[j].name == k && p.required[j].argtype == t
    ||| exists|j: int|
        0 <= j < p.optional.len() && #[trigger] p.optional[j].long == k && p.optional[j].argtype == t
}

/// No two arguments of `p` share a name.
pub open spec fn names_distinct(p: ParserModel) -> bool {
    &&& forall|a: int, b: int|
        0 <= a < b < p.required.len() ==> #[trigger] p.required[a].name != #[trigger] p.required[b].name
    &&& forall|a: int, b: int|
        0 <= a < b < p.optional.len() ==> #[trigger] p.optional[a].long != #[trigger] p.optional[b].long
    &&& forall|a: int, b: int|
        0 <= a < p.required.len() && 0 <= b < p.optional.len() ==> #[trigger] p.required[a].name
            != #[trigger] p.optional[b].long
}

// ---------------------------------------------------------------------------
// The first word
// ---------------------------------------------------------------------------

proof fn lemma_parse_from_same_words(
    p: ParserModel,
    a: Seq<Seq<char>>,
    b: Seq<Seq<char>>,
    i: int,
    st: ParseState,
)
    requires
        a.len() == b.len(),
        1 <= i,
        forall|k: int| 1 <= k < a.len() ==> a[k] == b[k],
    ensures
        parse_from(p, a, i, st) == parse_from(p, b, i, st),
    decreases a.len() - i,
{
    if i < a.len() {
        let w = a[i];
        assert(b[i] == w);
        if st.options && is_double_dash(w) {
            let s1 = ParseState {
                options: false,
                next_required: st.next_required,
                seen: st.seen,
                values: st.values,
            };
            lemma_parse_from_same_words(p, a, b, i + 1, s1);
        } else if st.options && starts_with_dash(w) {
            if let Some(idx) = option_lookup(p.optional, w) {
                let o = p.optional[idx];
                if !st.seen[idx] {
                    if o.argtype == ArgumentType::Boolean {
                        lemma_parse_from_same_words(p, a, b, i + 1, after_option(p, st, idx, ValueModel::Boolean(true)));
                    } else if i + 1 < a.len() {
                        assert(a[i + 1] == b[i + 1]);
                        if let Some(v) = typed_value(o.argtype, a[i + 1]) {
                            lemma_parse_from_same_words(p, a, b, i + 2, after_option(p, st, idx, v));
                        }
                    }
                }
            }
        } else if st.next_required < p.required.len() {
            let r = p.required[st.next_required as int];
            if let Some(v) = typed_value(r.argtype, w) {
                let s1 = ParseState {
                    options: st.options,
                    next_required: st.next_required + 1,
                    seen: st.seen,
                    values: st.values.insert(r.name, v),
                };
                lemma_parse_from_same_words(p, a, b, i + 1, s1);
            }
        }
    }
}

/// The first word of a command line (the program name) never changes the outcome.
pub proof fn law_program_name_ignored(p: ParserModel, a: Seq<Seq<char>>, b: Seq<Seq<char>>)
    requires
        a.len() >= 1,
        b.len() >= 1,
        a.skip(1) == b.skip(1),
    ensures
        spec_parse(p, a) == spec_parse(p, b),
{
    assert(a.skip(1).len() == a.len() - 1);
    assert(b.skip(1).len() == b.len() - 1);
    assert(a.len() == b.len());
    assert forall|k: int| 1 <= k < a.len() implies a[k] == b[k] by {
        assert(a[k] == a.skip(1)[k - 1]);
        assert(b[k] == b.skip(1)[k - 1]);
    }
    lemma_parse_from_same_words(p, a, b, 1, initial_state(p));
}

// ---------------------------------------------------------------------------
// What a successful parse holds
// ---------------------------------------------------------------------------

/// Every argument of `p` has a value in `m`, and every key of `m` names one.
pub open spec fn holds_every_argument(p: ParserModel, m: Map<Seq<char>, ValueModel>) -> bool {
    &&& forall|j: int| 0 <= j < p.required.len() ==> m.contains_key(#[trigger] p.required[j].name)
    &&& forall|j: int| 0 <= j < p.optional.len() ==> m.contains_key(#[trigger] p.optional[j].long)
    &&& forall|k: Seq<char>| #[trigger] m.contains_key(k) ==> declared_name(p, k)
}

/// Every value in `m` has the type of an argument of `p` with that name.
pub open spec fn values_typed(p: ParserModel, m: Map<Seq<char>, ValueModel>) -> bool {
    forall|k: Seq<char>| #[trigger] m.contains_key(k) ==> declared_with_type(p, k, m[k].kind())
}

/// What stays true of the state from one word to the next.
spec fn state_inv(p: ParserModel, st: ParseState) -> bool {
    &&& st.seen.len() == p.optional.len()
    &&& st.next_required <= p.required.len()
    &&& forall|j: int| 0 <= j < st.next_required ==> st.values.contains_key(#[trigger] p.required[j].name)
    &&& forall|j: int|
        0 <= j < p.optional.len() && st.seen[j] ==> st.values.contains_key(#[trigger] p.optional[j].long)
    &&& values_typed(p, st.values)
}

proof fn lemma_typed_value_kind(t: ArgumentType, s: Seq<char>)
    ensures
        typed_value(t, s) matches Some(v) ==> v.kind() == t,
{
}

proof fn lemma_option_lookup_found(opts: Seq<OptionalModel>, w: Seq<char>)
    ensures
        option_lookup(opts, w) matches Some(i) ==> 0 <= i < opts.len(),
{
    lemma_find_long_found(opts, w.skip(2), opts.len() as int);
    lemma_find_short_found(opts, w.skip(1), opts.len() as int);
}

proof fn lemma_with_defaults(p: ParserModel, seen: Seq<bool>, values: Map<Seq<char>, ValueModel>, n: int)
    requires
        0 <= n <= p.optional.len(),
        seen.len() == p.optional.len(),
    ensures
        forall|k: Seq<char>| values.contains_key(k) ==> #[trigger] with_defaults(p.optional, seen, values, n).contains_key(k),
        forall|j: int|
            0 <= j < n && !seen[j] ==> with_defaults(p.optional, seen, values, n).contains_key(
                #[trigger] p.optional[j].long,
            ),
        forall|k: Seq<char>| #[trigger] with_defaults(p.optional, seen, values, n).contains_key(k) ==> values.contains_key(k)
            || declared_name(p, k),
        p.valid() && values_typed(p, values) ==> values_typed(p, with_defaults(p.optional, seen, values, n)),
    decreases n,
{
    if n > 0 {
        lemma_with_defaults(p, seen, values, n - 1);
        let o = p.optional[n - 1];
        if !seen[n - 1] && p.valid() {
            assert(o.valid());
        }
        assert(p.optional[n - 1].long == o.long);
        assert forall|k: Seq<char>| values.contains_key(k) implies #[trigger] with_defaults(
            p.optional,
            seen,
            values,
            n,
        ).contains_key(k) by {
            assert(with_defaults(p.optional, seen, values, n - 1).contains_key(k));
        }
        assert forall|k: Seq<char>| #[trigger] with_defaults(p.optional, seen, values, n).contains_key(k) implies values.contains_key(k)
            || declared_name(p, k) by {
            if k == o.long && !seen[n - 1] {
                assert(p.optional[n - 1].long == k);
            } else {
                assert(with_defaults(p.optional, seen, values, n - 1).contains_key(k));
            }
        }
        if p.valid() && values_typed(p, values) {
            let m = with_defaults(p.optional, seen, values, n);
            assert forall|k: Seq<char>| #[trigger] m.contains_key(k) implies declared_with_type(p, k, m[k].kind()) by {
                if k == o.long && !seen[n - 1] {
                    assert(p.optional[n - 1].long == k);
                } else {
                    assert(with_defaults(p.optional, seen, values, n - 1).contains_key(k));
                }
            }
        }
    }
}

proof fn lemma_result_holds_every_argument(p: ParserModel, args: Seq<Seq<char>>, i: int, st: ParseState)
    requires
        1 <= i,
        state_inv(p, st),
    ensures
        parse_from(p, args, i, st) matches Ok(m) ==> holds_every_argument(p, m) && (p.valid() ==> values_typed(p, m)),
    decreases args.len() - i,
{
    if i >= args.len() {
        if st.next_required >= p.required.len() {
            lemma_with_defaults(p, st.seen, st.values, p.optional.len() as int);
            let m = with_defaults(p.optional, st.seen, st.values, p.optional.len() as int);
            assert forall|k: Seq<char>| #[trigger] st.values.contains_key(k) implies declared_name(p, k) by {
                assert(declared_with_type(p, k, st.values[k].kind()));
            }
            assert forall|j: int| 0 <= j < p.optional.len() implies m.contains_key(#[trigger] p.optional[j].long) by {
                if st.seen[j] {
                    assert(st.values.contains_key(p.optional[j].long));
                }
            }
        }
    } else {
        let w = args[i];
        if st.options && is_double_dash(w) {
            let s1 = ParseState {
                options: false,
                next_required: st.next_required,
                seen: st.seen,
                values: st.values,
            };
            lemma_result_holds_every_argument(p, args, i + 1, s1);
        } else if st.options && starts_with_dash(w) {
            lemma_option_lookup_found(p.optional, w);
            if let Some(idx) = option_lookup(p.optional, w) {
                let o = p.optional[idx];
                if !st.seen[idx] {
                    if o.argtype == ArgumentType::Boolean {
                        let s1 = after_option(p, st, idx, ValueModel::Boolean(true));
                        assert(p.optional[idx].long == o.long);
                        assert(declared_with_type(p, o.long, ArgumentType::Boolean));
                        assert(state_inv(p, s1));
                        lemma_result_holds_every_argument(p, args, i + 1, s1);
                    } else if i + 1 < args.len() {
                        lemma_typed_value_kind(o.argtype, args[i + 1]);
                        if let Some(v) = typed_value(o.argtype, args[i + 1]) {
                            let s1 = after_option(p, st, idx, v);
                            assert(p.optional[idx].long == o.long);
                            assert(declared_with_type(p, o.long, v.kind()));
                            assert(state_inv(p, s1));
                            lemma_result_holds_every_argument(p, args, i + 2, s1);
                        }
                    }
                }
            }
        } else if st.next_required < p.required.len() {
            let r = p.required[st.next_required as int];
            lemma_typed_value_kind(r.argtype, w);
            if let Some(v) = typed_value(r.argtype, w) {
                let s1 = ParseState {
                    options: st.options,
                    next_required: st.next_required + 1,
                    seen: st.seen,
                    values: st.values.insert(r.name, v),
                };
                assert(p.required[st.next_required as int].name == r.name);
                assert(declared_with_type(p, r.name, v.kind()));
                assert(state_inv(p, s1));
                lemma_result_holds_every_argument(p, args, i + 1, s1);
            }
        }
    }
}

/// A successful parse has a value for every declared argument (so `get` and
/// `get_as` succeed for each declared name) and for nothing else.
pub proof fn law_success_covers_declared_names(p: ParserModel, args: Seq<Seq<char>>)
    requires
        args.len() >= 1,
    ensures
        spec_parse(p, args) matches Ok(m) ==> holds_every_argument(p, m),
{
    lemma_result_holds_every_argument(p, args, 1, initial_state(p));
}

/// For a parser built with the argument constructors and `add_arg`, each value
/// of a successful parse has the type declared for its name.
pub proof fn law_success_values_typed(p: ParserModel, args: Seq<Seq<char>>)
    requires
        p.valid(),
        args.len() >= 1,
    ensures
        spec_parse(p, args) matches Ok(m) ==> values_typed(p, m),
{
    lemma_result_holds_every_argument(p, args, 1, initial_state(p));
}

// ---------------------------------------------------------------------------
// Positional words
// ---------------------------------------------------------------------------

/// The map that gives the first `n` required arguments, in order, the values
/// of the words from position `start` on.
pub open spec fn positional_values(p: ParserModel, args: Seq<Seq<char>>, start: int, n: int) -> Map<
    Seq<char>,
    ValueModel,
>
    decreases n,
{
    if n <= 0 {
        Map::empty()
    } else {
        positional_values(p, args, start, n - 1).insert(
            p.required[n - 1].name,
            typed_value(p.required[n - 1].argtype, args[start + n - 1]).unwrap(),
        )
    }
}

/// The outcome of a command line whose words from `start` on are all
/// positional: too many words, too few, or one for each required argument.
pub open spec fn positional_outcome(p: ParserModel, args: Seq<Seq<char>>, start: int) -> Result<
    Map<Seq<char>, ValueModel>,
    ErrorModel,
> {
    let count = args.len() - start;
    if count > p.required.len() {
        Err(ErrorModel::TooManyArguments)
    } else if count < p.required.len() {
        Err(ErrorModel::MissingRequired(p.required[count].name))
    } else {
        Ok(
            with_defaults(
                p.optional,
                initial_state(p).seen,
                positional_values(p, args, start, count),
                p.optional.len() as int,
            ),
        )
    }
}

/// `r` succeeds, giving each required argument the value of its word (the
/// words from `start` on, in order) and each optional argument its default.
pub open spec fn words_then_defaults(
    p: ParserModel,
    args: Seq<Seq<char>>,
    start: int,
    r: Result<Map<Seq<char>, ValueModel>, ErrorModel>,
) -> bool {
    r matches Ok(m) && {
        &&& forall|j: int|
            0 <= j < p.required.len() ==> m[#[trigger] p.required[j].name] == typed_value(
                p.required[j].argtype,
                args[start + j],
            ).unwrap()
        &&& forall|j: int| 0 <= j < p.optional.len() ==> m[#[trigger] p.optional[j].long] == p.optional[j].default
    }
}

proof fn lemma_positional_run(p: ParserModel, args: Seq<Seq<char>>, start: int, i: int, st: ParseState)
    requires
        1 <= start <= i <= args.len(),
        st.next_required == i - start,
        i - start <= p.required.len(),
        st.seen == initial_state(p).seen,
        st.options ==> forall|k: int| i <= k < args.len() ==> !starts_with_dash(#[trigger] args[k]),
        forall|k: int|
            i <= k < args.len() && k - start < p.required.len() ==> (#[trigger] typed_value(
                p.required[k - start].argtype,
                args[k],
            )) is Some,
        st.values == positional_values(p, args, start, i - start),
    ensures
        parse_from(p, args, i, st) == positional_outcome(p, args, start),
    decreases args.len() - i,
{
    if i < args.len() {
        let w = args[i];
        assert(st.options ==> !starts_with_dash(w));
        if st.next_required < p.required.len() {
            let r = p.required[st.next_required as int];
            assert(typed_value(p.required[i - start].argtype, args[i]) is Some);
            let v = typed_value(r.argtype, w).unwrap();
            let s1 = ParseState {
                options: st.options,
                next_required: st.next_required + 1,
                seen: st.seen,
                values: st.values.insert(r.name, v),
            };
            assert(s1.values == positional_values(p, args, start, i + 1 - start));
            lemma_positional_run(p, args, start, i + 1, s1);
        }
    } else {
        let count = args.len() - start;
        if count == p.required.len() {
            assert(st.values == positional_values(p, args, start, count));
        }
    }
}

proof fn lemma_positional_lookup(p: ParserModel, args: Seq<Seq<char>>, start: int, n: int)
    requires
        0 <= n <= p.required.len(),
        names_distinct(p),
    ensures
        forall|j: int|
            0 <= j < n ==> {
                &&& positional_values(p, args, start, n).contains_key(#[trigger] p.required[j].name)
                &&& positional_values(p, args, start, n)[p.required[j].name] == typed_value(
                    p.required[j].argtype,
                    args[start + j],
                ).unwrap()
            },
        forall|k: Seq<char>|
            #[trigger] positional_values(p, args, start, n).contains_key(k) ==> exists|j: int|
                0 <= j < n && #[trigger] p.required[j].name == k,
    decreases n,
{
    if n > 0 {
        lemma_positional_lookup(p, args, start, n - 1);
        let m = positional_values(p, args, start, n);
        assert forall|j: int| 0 <= j < n implies {
            &&& m.contains_key(#[trigger] p.required[j].name)
            &&& m[p.required[j].name] == typed_value(p.required[j].argtype, args[start + j]).unwrap()
        } by {
            if j < n - 1 {
                assert(p.required[j].name != p.required[n - 1].name);
                assert(positional_values(p, args, start, n - 1).contains_key(p.required[j].name));
            }
        }
        assert forall|k: Seq<char>| #[trigger] m.contains_key(k) implies exists|j: int|
            0 <= j < n && #[trigger] p.required[j].name == k by {
            if k != p.required[n - 1].name {
                assert(positional_values(p, args, start, n - 1).contains_key(k));
            } else {
                assert(p.required[n - 1].name == k);
            }
        }
    }
}

spec fn defaults_none_seen(p: ParserModel, values: Map<Seq<char>, ValueModel>, n: int) -> Map<
    Seq<char>,
    ValueModel,
> {
    with_defaults(p.optional, initial_state(p).seen, values, n)
}

proof fn lemma_defaults_when_none_seen(p: ParserModel, values: Map<Seq<char>, ValueModel>, n: int)
    requires
        0 <= n <= p.optional.len(),
        names_distinct(p),
    ensures
        forall|j: int|
            0 <= j < n ==> {
                &&& defaults_none_seen(p, values, n).contains_key(#[trigger] p.optional[j].long)
                &&& defaults_none_seen(p, values, n)[p.optional[j].long] == p.optional[j].default
            },
        forall|k: Seq<char>|
            (forall|j: int| 0 <= j < n ==> #[trigger] p.optional[j].long != k) ==> {
                &&& #[trigger] defaults_none_seen(p, values, n).contains_key(k) == values.contains_key(k)
                &&& defaults_none_seen(p, values, n)[k] == values[k]
            },
    decreases n,
{
    let seen = initial_state(p).seen;
    if n > 0 {
        lemma_defaults_when_none_seen(p, values, n - 1);
        assert(!seen[n - 1]);
        let m = with_defaults(p.optional, seen, values, n);
        assert forall|j: int| 0 <= j < n implies {
            &&& m.contains_key(#[trigger] p.optional[j].long)
            &&& m[p.optional[j].long] == p.optional[j].default
        } by {
            if j < n - 1 {
                assert(p.optional[j].long != p.optional[n - 1].long);
            }
        }
        assert forall|k: Seq<char>|
            (forall|j: int| 0 <= j < n ==> #[trigger] p.optional[j].long != k) implies {
            &&& #[trigger] m.contains_key(k) == values.contains_key(k)
            &&& m[k] == values[k]
        } by {
            assert(p.optional[n - 1].long != k);
            assert forall|j: int| 0 <= j < n - 1 implies #[trigger] p.optional[j].long != k by {
                assert(0 <= j < n);
            }
        }
    }
}

proof fn lemma_positional_values_exact(p: ParserModel, args: Seq<Seq<char>>, start: int)
    requires
        names_distinct(p),
        args.len() - start == p.required.len(),
    ensures
        words_then_defaults(p, args, start, positional_outcome(p, args, start)),
{
    let n = p.required.len() as int;
    let pv = positional_values(p, args, start, n);
    lemma_positional_lookup(p, args, start, n);
    lemma_defaults_when_none_seen(p, pv, p.optional.len() as int);
    let m = with_defaults(p.optional, initial_state(p).seen, pv, p.optional.len() as int);
    assert(m == defaults_none_seen(p, pv, p.optional.len() as int));
    assert forall|j: int| 0 <= j < p.required.len() implies m[#[trigger] p.required[j].name] == typed_value(
        p.required[j].argtype,
        args[start + j],
    ).unwrap() by {
        let k = p.required[j].name;
        assert forall|b: int| 0 <= b < p.optional.len() implies #[trigger] p.optional[b].long != k by {
            assert(p.required[j].name != p.optional[b].long);
        }
        assert(defaults_none_seen(p, pv, p.optional.len() as int).contains_key(k) == pv.contains_key(k));
    }
    assert(m == defaults_none_seen(p, pv, p.optional.len() as int));
}

/// Words that do not begin with `-` fill the required arguments in order of
/// declaration; with exactly one word for each, the parse succeeds, and (names
/// being distinct) each required argument gets the value of its word and each
/// optional argument its default. Fewer words leave the next required argument
/// missing; more are too many.
pub proof fn law_positional_words_fill_required_in_order(p: ParserModel, args: Seq<Seq<char>>)
    requires
        args.len() >= 1,
        forall|k: int| 1 <= k < args.len() ==> !starts_with_dash(#[trigger] args[k]),
        forall|k: int|
            1 <= k < args.len() && k - 1 < p.required.len() ==> (#[trigger] typed_value(
                p.required[k - 1].argtype,
                args[k],
            )) is Some,
    ensures
        spec_parse(p, args) == positional_outcome(p, args, 1),
        args.len() - 1 > p.required.len() ==> spec_parse(p, args) == Err::<
            Map<Seq<char>, ValueModel>,
            ErrorModel,
        >(ErrorModel::TooManyArguments),
        args.len() - 1 < p.required.len() ==> spec_parse(p, args) == Err::<
            Map<Seq<char>, ValueModel>,
            ErrorModel,
        >(ErrorModel::MissingRequired(p.required[args.len() - 1].name)),
        args.len() - 1 == p.required.len() && names_distinct(p) ==> words_then_defaults(p, args, 1, spec_parse(p, args)),
{
    assert(positional_values(p, args, 1, 0) == Map::<Seq<char>, ValueModel>::empty());
    lemma_positional_run(p, args, 1, 1, initial_state(p));
    if args.len() - 1 == p.required.len() && names_distinct(p) {
        lemma_positional_values_exact(p, args, 1);
    }
}

/// After a word `--`, every word is positional, even one that begins with `-`:
/// the outcome is that of the positional words alone.
pub proof fn law_double_dash_ends_options(p: ParserModel, args: Seq<Seq<char>>)
    requires
        args.len() >= 2,
        is_double_dash(args[1]),
        forall|k: int|
            2 <= k < args.len() && k - 2 < p.required.len() ==> (#[trigger] typed_value(
                p.required[k - 2].argtype,
                args[k],
            )) is Some,
    ensures
        spec_parse(p, args) == positional_outcome(p, args, 2),
        args.len() - 2 == p.required.len() && names_distinct(p) ==> words_then_defaults(p, args, 2, spec_parse(p, args)),
{
    let st = initial_state(p);
    let s1 = ParseState {
        options: false,
        next_required: st.next_required,
        seen: st.seen,
        values: st.values,
    };
    assert(positional_values(p, args, 2, 0) == Map::<Seq<char>, ValueModel>::empty());
    lemma_positional_run(p, args, 2, 2, s1);
    if args.len() - 2 == p.required.len() && names_distinct(p) {
        lemma_positional_values_exact(p, args, 2);
    }
}

// ---------------------------------------------------------------------------
// Refused words
// ---------------------------------------------------------------------------

/// A flag designated twice in a row, by either of its forms, is refused as a
/// duplicate.
pub proof fn law_flag_given_twice_refused(p: ParserModel, args: Seq<Seq<char>>, j: int)
    requires
        args.len() >= 3,
        starts_with_dash(args[1]),
        !is_double_dash(args[1]),
        starts_with_dash(args[2]),
        !is_double_dash(args[2]),
        option_lookup(p.optional, args[1]) == Some(j),
        option_lookup(p.optional, args[2]) == Some(j),
        p.optional[j].argtype == ArgumentType::Boolean,
    ensures
        spec_parse(p, args) == Err::<Map<Seq<char>, ValueModel>, ErrorModel>(
            ErrorModel::DuplicateArgument(p.optional[j].long),
        ),
{
    lemma_option_lookup_found(p.optional, args[1]);
    let st = initial_state(p);
    assert(!st.seen[j]);
    let s1 = after_option(p, st, j, ValueModel::Boolean(true));
    assert(s1.seen[j]);
    assert(parse_from(p, args, 1, st) == parse_from(p, args, 2, s1));
}

/// A first word that begins with `-` (other than `--`) and designates no
/// optional argument is refused as unknown, by the name it gives.
pub proof fn law_unknown_option_refused(p: ParserModel, args: Seq<Seq<char>>)
    requires
        args.len() >= 2,
        starts_with_dash(args[1]),
        !is_double_dash(args[1]),
        option_lookup(p.optional, args[1]) is None,
    ensures
        spec_parse(p, args) == Err::<Map<Seq<char>, ValueModel>, ErrorModel>(
            ErrorModel::UnknownArgument(crate::parser::option_name(args[1])),
        ),
{
}

/// A first word designating an optional argument that takes a value, with no
/// word after it, is refused: the value is missing.
pub proof fn law_missing_option_value_refused(p: ParserModel, args: Seq<Seq<char>>, j: int)
    requires
        args.len() == 2,
        starts_with_dash(args[1]),
        !is_double_dash(args[1]),
        option_lookup(p.optional, args[1]) == Some(j),
        p.optional[j].argtype != ArgumentType::Boolean,
    ensures
        spec_parse(p, args) == Err::<Map<Seq<char>, ValueModel>, ErrorModel>(
            ErrorModel::MissingValue(p.optional[j].long),
        ),
{
    lemma_option_lookup_found(p.optional, args[1]);
    assert(!initial_state(p).seen[j]);
}

/// A first word designating an integer option, followed by a word that is not
/// a decimal `i64`, is refused with that word as the wrong-typed value.
pub proof fn law_option_value_of_wrong_type_refused(p: ParserModel, args: Seq<Seq<char>>, j: int)
    requires
        args.len() >= 3,
        starts_with_dash(args[1]),
        !is_double_dash(args[1]),
        option_lookup(p.optional, args[1]) == Some(j),
        p.optional[j].argtype == ArgumentType::Integer,
        crate::decimal::spec_parse_i64(args[2]) is None,
    ensures
        spec_parse(p, args) == Err::<Map<Seq<char>, ValueModel>, ErrorModel>(
            ErrorModel::WrongType { name: p.optional[j].long, expected: ArgumentType::Integer, given: args[2] },
        ),
{
    lemma_option_lookup_found(p.optional, args[1]);
    assert(!initial_state(p).seen[j]);
}

// ---------------------------------------------------------------------------
// Which word gives which argument its value
// ---------------------------------------------------------------------------

/// The part a word of the command line plays.
pub enum WordRole {
    /// A word that fills the next required argument.
    Positional,
    /// An option word designating the optional argument with this index.
    OptionWord(int),
    /// The word after an option word that takes a value.
    OptionValue,
    /// The word `--` that ends option parsing.
    EndOfOptions,
    /// A word that begins with `-` and designates no optional argument.
    Unknown,
}

/// The parts played by the words from position `i` on, one role per word;
/// `options` tells whether words beginning with `-` are still options.
pub open spec fn word_roles(p: ParserModel, args: Seq<Seq<char>>, i: int, options: bool) -> Seq<WordRole>
    decreases args.len() - i,
{
    if i < 0 || i >= args.len() {
        Seq::empty()
    } else {
        let a = args[i];
        if options && is_double_dash(a) {
            seq![WordRole::EndOfOptions] + word_roles(p, args, i + 1, false)
        } else if options && starts_with_dash(a) {
            match option_lookup(p.optional, a) {
                None => seq![WordRole::Unknown] + word_roles(p, args, i + 1, options),
                Some(idx) => if p.optional[idx].argtype == ArgumentType::Boolean || i + 1 >= args.len() {
                    seq![WordRole::OptionWord(idx)] + word_roles(p, args, i + 1, options)
                } else {
                    seq![WordRole::OptionWord(idx)] + (seq![WordRole::OptionValue] + word_roles(
                        p,
                        args,
                        i + 2,
                        options,
                    ))
                },
            }
        } else {
            seq![WordRole::Positional] + word_roles(p, args, i + 1, options)
        }
    }
}

/// How many of `roles` are positional.
pub open spec fn count_positional(roles: Seq<WordRole>) -> int
    decreases roles.len(),
{
    if roles.len() == 0 {
        0
    } else {
        (if roles[0] is Positional {
            1int
        } else {
            0int
        }) + count_positional(roles.drop_first())
    }
}

/// The value that an option word at position `k` gives optional argument `j`.
pub open spec fn option_value(p: ParserModel, args: Seq<Seq<char>>, k: int, j: int) -> ValueModel {
    if p.optional[j].argtype == ArgumentType::Boolean {
        ValueModel::Boolean(true)
    } else {
        typed_value(p.optional[j].argtype, args[k + 1]).unwrap()
    }
}

/// In `m`, the words whose roles are `roles` (starting at position `i`) gave
/// their values: a positional word to the next required argument after the
/// first `nr`, an option word to the argument it designates, and an optional
/// argument not in `seen` and designated by no word keeps its default.
pub open spec fn values_follow_roles(
    p: ParserModel,
    args: Seq<Seq<char>>,
    i: int,
    roles: Seq<WordRole>,
    nr: int,
    seen: Seq<bool>,
    m: Map<Seq<char>, ValueModel>,
) -> bool {
    &&& forall|r: int|
        0 <= r < roles.len() && (#[trigger] roles[r]) is Positional ==> {
            let c = nr + count_positional(roles.take(r));
            &&& 0 <= c < p.required.len()
            &&& m[p.required[c].name] == typed_value(p.required[c].argtype, args[i + r]).unwrap()
        }
    &&& forall|r: int|
        0 <= r < roles.len() && (#[trigger] roles[r]) is OptionWord ==> {
            let j = roles[r]->OptionWord_0;
            &&& 0 <= j < p.optional.len()
            &&& m[p.optional[j].long] == option_value(p, args, i + r, j)
        }
    &&& forall|j: int|
        0 <= j < p.optional.len() && !seen[j] && (forall|r: int|
            0 <= r < roles.len() ==> #[trigger] roles[r] != WordRole::OptionWord(j)) ==> m[(
        #[trigger] p.optional[j]).long] == p.optional[j].default
}

proof fn lemma_count_prepend(x: WordRole, rest: Seq<WordRole>, r: int)
    requires
        0 <= r <= rest.len(),
    ensures
        count_positional((seq![x] + rest).take(r + 1)) == (if x is Positional {
            1int
        } else {
            0int
        }) + count_positional(rest.take(r)),
{
    let t = (seq![x] + rest).take(r + 1);
    assert(t.drop_first() =~= rest.take(r));
    assert(t[0] == x);
}

proof fn lemma_prepend_role(
    p: ParserModel,
    args: Seq<Seq<char>>,
    i: int,
    x: WordRole,
    rest: Seq<WordRole>,
    nr: int,
    seen: Seq<bool>,
    nr_inner: int,
    seen_inner: Seq<bool>,
    m: Map<Seq<char>, ValueModel>,
)
    requires
        values_follow_roles(p, args, i + 1, rest, nr_inner, seen_inner, m),
        nr_inner == nr + (if x is Positional {
            1int
        } else {
            0int
        }),
        x is Positional ==> 0 <= nr < p.required.len() && m[p.required[nr].name] == typed_value(
            p.required[nr].argtype,
            args[i],
        ).unwrap(),
        x is OptionWord ==> 0 <= x->OptionWord_0 < p.optional.len() && m[p.optional[x->OptionWord_0].long]
            == option_value(p, args, i, x->OptionWord_0),
        forall|j: int|
            0 <= j < p.optional.len() && !seen[j] && x != WordRole::OptionWord(j) ==> !seen_inner[j],
    ensures
        values_follow_roles(p, args, i, seq![x] + rest, nr, seen, m),
{
    let roles = seq![x] + rest;
    assert forall|r: int| 0 <= r < roles.len() && (#[trigger] roles[r]) is Positional implies {
        let c = nr + count_positional(roles.take(r));
        &&& 0 <= c < p.required.len()
        &&& m[p.required[c].name] == typed_value(p.required[c].argtype, args[i + r]).unwrap()
    } by {
        if r == 0 {
            assert(roles.take(0) =~= Seq::<WordRole>::empty());
        } else {
            assert(roles[r] == rest[r - 1]);
            lemma_count_prepend(x, rest, r - 1);
            assert(i + 1 + (r - 1) == i + r);
        }
    }
    assert forall|r: int| 0 <= r < roles.len() && (#[trigger] roles[r]) is OptionWord implies {
        let j = roles[r]->OptionWord_0;
        &&& 0 <= j < p.optional.len()
        &&& m[p.optional[j].long] == option_value(p, args, i + r, j)
    } by {
        if r > 0 {
            assert(roles[r] == rest[r - 1]);
            assert(i + 1 + (r - 1) == i + r);
        }
    }
    assert forall|j: int|
        0 <= j < p.optional.len() && !seen[j] && (forall|r: int|
            0 <= r < roles.len() ==> #[trigger] roles[r] != WordRole::OptionWord(j)) implies m[(
    #[trigger] p.optional[j]).long] == p.optional[j].default by {
        assert(roles[0] != WordRole::OptionWord(j));
        assert forall|r: int| 0 <= r < rest.len() implies #[trigger] rest[r] != WordRole::OptionWord(j) by {
            assert(roles[r + 1] == rest[r]);
        }
    }
}

proof fn lemma_defaults_distinct(p: ParserModel, seen: Seq<bool>, values: Map<Seq<char>, ValueModel>, n: int)
    requires
        0 <= n <= p.optional.len(),
        seen.len() == p.optional.len(),
        names_distinct(p),
    ensures
        forall|j: int|
            0 <= j < n && !seen[j] ==> with_defaults(p.optional, seen, values, n)[(
            #[trigger] p.optional[j]).long] == p.optional[j].default,
        forall|k: Seq<char>|
            (forall|j: int| 0 <= j < n && !seen[j] ==> (#[trigger] p.optional[j]).long != k) ==> #[trigger] with_defaults(
                p.optional,
                seen,
                values,
                n,
            )[k] == values[k],
    decreases n,
{
    if n > 0 {
        lemma_defaults_distinct(p, seen, values, n - 1);
        let o = p.optional[n - 1];
        assert forall|j: int| 0 <= j < n && !seen[j] implies with_defaults(p.optional, seen, values, n)[(
        #[trigger] p.optional[j]).long] == p.optional[j].default by {
            if j < n - 1 {
                assert(p.optional[j].long != p.optional[n - 1].long);
            }
        }
        assert forall|k: Seq<char>|
            (forall|j: int| 0 <= j < n && !seen[j] ==> (#[trigger] p.optional[j]).long != k) implies #[trigger] with_defaults(
            p.optional,
            seen,
            values,
            n,
        )[k] == values[k] by {
            assert forall|j: int| 0 <= j < n - 1 && !seen[j] implies (#[trigger] p.optional[j]).long != k by {
                assert(0 <= j < n);
            }
            if !seen[n - 1] {
                assert(p.optional[n - 1].long != k);
            }
        }
    }
}

proof fn lemma_values_follow_roles(p: ParserModel, args: Seq<Seq<char>>, i: int, st: ParseState)
    requires
        1 <= i,
        names_distinct(p),
        state_inv(p, st),
    ensures
        parse_from(p, args, i, st) matches Ok(m) ==> {
            &&& forall|j: int|
                0 <= j < st.next_required ==> m[(#[trigger] p.required[j]).name] == st.values[p.required[j].name]
            &&& forall|j: int|
                0 <= j < p.optional.len() && st.seen[j] ==> m[(#[trigger] p.optional[j]).long]
                    == st.values[p.optional[j].long]
            &&& values_follow_roles(
                p,
                args,
                i,
                word_roles(p, args, i, st.options),
                st.next_required as int,
                st.seen,
                m,
            )
        },
    decreases args.len() - i,
{
    if i >= args.len() {
        if parse_from(p, args, i, st) is Ok {
            let n = p.optional.len() as int;
            lemma_defaults_distinct(p, st.seen, st.values, n);
            let m = with_defaults(p.optional, st.seen, st.values, n);
            assert forall|j: int| 0 <= j < st.next_required implies m[(#[trigger] p.required[j]).name]
                == st.values[p.required[j].name] by {
                let k = p.required[j].name;
                assert forall|b: int| 0 <= b < n && !st.seen[b] implies (#[trigger] p.optional[b]).long != k by {
                    assert(p.required[j].name != p.optional[b].long);
                }
            }
            assert forall|j: int| 0 <= j < p.optional.len() && st.seen[j] implies m[(
            #[trigger] p.optional[j]).long] == st.values[p.optional[j].long] by {
                let k = p.optional[j].long;
                assert forall|b: int| 0 <= b < n && !st.seen[b] implies (#[trigger] p.optional[b]).long != k by {
                    if b < j {
                        assert(p.optional[b].long != p.optional[j].long);
                    } else if b > j {
                        assert(p.optional[j].long != p.optional[b].long);
                    }
                }
            }
        }
    } else {
        let w = args[i];
        if st.options && is_double_dash(w) {
            let s1 = ParseState {
                options: false,
                next_required: st.next_required,
                seen: st.seen,
                values: st.values,
            };
            lemma_values_follow_roles(p, args, i + 1, s1);
            if let Ok(m) = parse_from(p, args, i, st) {
                lemma_prepend_role(
                    p,
                    args,
                    i,
                    WordRole::EndOfOptions,
                    word_roles(p, args, i + 1, false),
                    st.next_required as int,
                    st.seen,
                    st.next_required as int,
                    st.seen,
                    m,
                );
            }
        } else if st.options && starts_with_dash(w) {
            lemma_option_lookup_found(p.optional, w);
            if let Some(idx) = option_lookup(p.optional, w) {
                let o = p.optional[idx];
                if !st.seen[idx] {
                    if o.argtype == ArgumentType::Boolean || i + 1 < args.len() {
                        let boolean = o.argtype == ArgumentType::Boolean;
                        let next = if boolean {
                            i + 1
                        } else {
                            i + 2
                        };
                        lemma_typed_value_kind(o.argtype, args[i + 1]);
                        let v = if boolean {
                            ValueModel::Boolean(true)
                        } else {
                            typed_value(o.argtype, args[i + 1]).unwrap()
                        };
                        if boolean || typed_value(o.argtype, args[i + 1]) is Some {
                            let s1 = after_option(p, st, idx, v);
                            assert(p.optional[idx].long == o.long);
                            assert(declared_with_type(p, o.long, v.kind()));
                            assert(state_inv(p, s1));
                            lemma_values_follow_roles(p, args, next, s1);
                            if let Ok(m) = parse_from(p, args, i, st) {
                                assert(parse_from(p, args, next, s1) == Ok::<
                                    Map<Seq<char>, ValueModel>,
                                    ErrorModel,
                                >(m));
                                assert(s1.seen[idx]);
                                assert(m[p.optional[idx].long] == v);
                                let rest = word_roles(p, args, next, st.options);
                                assert forall|j: int|
                                    0 <= j < st.next_required implies m[(#[trigger] p.required[j]).name]
                                    == st.values[p.required[j].name] by {
                                    assert(p.required[j].name != p.optional[idx].long);
                                }
                                assert forall|j: int|
                                    0 <= j < p.optional.len() && st.seen[j] implies m[(
                                #[trigger] p.optional[j]).long] == st.values[p.optional[j].long] by {
                                    assert(s1.seen[j]);
                                    if j < idx {
                                        assert(p.optional[j].long != p.optional[idx].long);
                                    } else if j > idx {
                                        assert(p.optional[idx].long != p.optional[j].long);
                                    }
                                }
                                if boolean {
                                    lemma_prepend_role(
                                        p,
                                        args,
                                        i,
                                        WordRole::OptionWord(idx),
                                        rest,
                                        st.next_required as int,
                                        st.seen,
                                        st.next_required as int,
                                        s1.seen,
                                        m,
                                    );
                                } else {
                                    lemma_prepend_role(
                                        p,
                                        args,
                                        i + 1,
                                        WordRole::OptionValue,
                                        rest,
                                        st.next_required as int,
                                        s1.seen,
                                        st.next_required as int,
                                        s1.seen,
                                        m,
                                    );
                                    lemma_prepend_role(
                                        p,
                                        args,
                                        i,
                                        WordRole::OptionWord(idx),
                                        seq![WordRole::OptionValue] + rest,
                                        st.next_required as int,
                                        st.seen,
                                        st.next_required as int,
                                        s1.seen,
                                        m,
                                    );
                                }
                            }
                        }
                    }
                }
            }
        } else if st.next_required < p.required.len() {
            let r = p.required[st.next_required as int];
            lemma_typed_value_kind(r.argtype, w);
            if let Some(v) = typed_value(r.argtype, w) {
                let s1 = ParseState {
                    options: st.options,
                    next_required: st.next_required + 1,
                    seen: st.seen,
                    values: st.values.insert(r.name, v),
                };
                assert(p.required[st.next_required as int].name == r.name);
                assert(declared_with_type(p, r.name, v.kind()));
                assert(state_inv(p, s1));
                lemma_values_follow_roles(p, args, i + 1, s1);
                if let Ok(m) = parse_from(p, args, i, st) {
                    let nr = st.next_required as int;
                    assert(m[p.required[nr].name] == s1.values[p.required[nr].name]);
                    assert forall|j: int| 0 <= j < st.next_required implies m[(#[trigger] p.required[j]).name]
                        == st.values[p.required[j].name] by {
                        assert(p.required[j].name != p.required[nr].name);
                        assert(m[p.required[j].name] == s1.values[p.required[j].name]);
                    }
                    assert forall|j: int|
                        0 <= j < p.optional.len() && st.seen[j] implies m[(#[trigger] p.optional[j]).long]
                        == st.values[p.optional[j].long] by {
                        assert(p.required[nr].name != p.optional[j].long);
                    }
                    lemma_prepend_role(
                        p,
                        args,
                        i,
                        WordRole::Positional,
                        word_roles(p, args, i + 1, st.options),
                        nr,
                        st.seen,
                        nr + 1,
                        st.seen,
                        m,
                    );
                }
            }
        }
    }
}

/// With distinct names, each value of a successful parse comes from the word
/// whose role gives it, wherever options and positional words are mixed: the
/// `c`-th positional word (counting from zero) gives the `c`-th required
/// argument its value, an option word gives its optional argument `true` (a
/// flag) or the value of the next word, and an optional argument that no
/// option word designates has its default.
pub proof fn law_values_follow_word_roles(p: ParserModel, args: Seq<Seq<char>>)
    requires
        args.len() >= 1,
        names_distinct(p),
    ensures
        spec_parse(p, args) matches Ok(m) ==> values_follow_roles(
            p,
            args,
            1,
            word_roles(p, args, 1, true),
            0,
            initial_state(p).seen,
            m,
        ),
{
    lemma_values_follow_roles(p, args, 1, initial_state(p));
}

/// Facts about storing the defaults of the optional arguments not given.
pub(crate) proof fn lemma_with_defaults_exact(
    p: ParserModel,
    seen: Seq<bool>,
    values: Map<Seq<char>, ValueModel>,
    n: int,
)
    requires
        n == p.optional.len(),
        seen.len() == p.optional.len(),
    ensures
        forall|k: Seq<char>| values.contains_key(k) ==> #[trigger] with_defaults(p.optional, seen, values, n).contains_key(k),
        forall|j: int|
            0 <= j < p.optional.len() && !seen[j] ==> with_defaults(p.optional, seen, values, n).contains_key(
                (#[trigger] p.optional[j]).long,
            ),
        names_distinct(p) ==> forall|j: int|
            0 <= j < p.optional.len() && !seen[j] ==> with_defaults(p.optional, seen, values, n)[(
            #[trigger] p.optional[j]).long] == p.optional[j].default,
        names_distinct(p) ==> forall|k: Seq<char>|
            (forall|j: int| 0 <= j < p.optional.len() && !seen[j] ==> (#[trigger] p.optional[j]).long != k)
                ==> #[trigger] with_defaults(p.optional, seen, values, n)[k] == values[k],
{
    lemma_with_defaults(p, seen, values, n);
    assert forall|j: int|
        0 <= j < p.optional.len() && !seen[j] implies with_defaults(p.optional, seen, values, n).contains_key(
        (#[trigger] p.optional[j]).long,
    ) by {
        assert(with_defaults(p.optional, seen, values, n).contains_key(p.optional[j].long));
    }
    if names_distinct(p) {
        lemma_defaults_distinct(p, seen, values, n);
    }
}

} // verus!
