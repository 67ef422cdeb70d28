//! The argument parser: its declarations, what parsing a command line means,
//! and the parser that does it.
use vstd::prelude::*;

use crate::args::{
    opt_chars, opt_value, starts_with_dash, valid_arg, ArgModel, ArgumentTrait, ParsedArgs,
};
use crate::decimal::{parse_i64, spec_parse_i64};
use crate::values::{ArgumentType, ParsedValue, ValueModel};

verus! {

/// Why a command line was refused.
#[derive(Debug)]
pub enum ParseError {
    /// Required argument not given
    MissingRequired(String),
    /// Missing value for argument
    MissingValue(String),
    /// A value that does not read as the expected type
    WrongType { name: String, expected: ArgumentType, given: String },
    /// Unknown argument, not added to the parser
    UnknownArgument(String),
    /// Argument already seen once
    DuplicateArgument(String),
    /// More positional arguments than required arguments
    TooManyArguments,
}

/// The content of a [`ParseError`].
pub enum ErrorModel {
    MissingRequired(Seq<char>),
    MissingValue(Seq<char>),
    WrongType { name: Seq<char>, expected: ArgumentType, given: Seq<char> },
    UnknownArgument(Seq<char>),
    DuplicateArgument(Seq<char>),
    TooManyArguments,
}

impl View for ParseError {
    type V = ErrorModel;

    open spec fn view(&self) -> ErrorModel {
        match self {
            ParseError::MissingRequired(n) => ErrorModel::MissingRequired(n@),
            ParseError::MissingValue(n) => ErrorModel::MissingValue(n@),
            ParseError::WrongType { name, expected, given } => ErrorModel::WrongType {
                name: name@,
                expected: *expected,
                given: given@,
            },
            ParseError::UnknownArgument(n) => ErrorModel::UnknownArgument(n@),
            ParseError::DuplicateArgument(n) => ErrorModel::DuplicateArgument(n@),
            ParseError::TooManyArguments => ErrorModel::TooManyArguments,
        }
    }
}

/// How an argument type is written in messages.
pub open spec fn kind_name(t: ArgumentType) -> Seq<char> {
    match t {
        ArgumentType::Integer => "Integer"@,
        ArgumentType::Text => "Text"@,
        ArgumentType::Boolean => "Boolean"@,
    }
}

/// The message that describes a refusal.
pub open spec fn error_message(e: ErrorModel) -> Seq<char> {
    match e {
        ErrorModel::MissingRequired(n) => "missing required argument: "@ + n,
        ErrorModel::MissingValue(n) => "argument '"@ + n + "' requires a value but none was given"@,
        ErrorModel::WrongType { name, expected, given } => "argument '"@ + name
            + "' expects value of type "@ + kind_name(expected) + " given: "@ + given,
        ErrorModel::UnknownArgument(n) => "unknown argument: "@ + n,
        ErrorModel::DuplicateArgument(n) => "argument '"@ + n + "' was given more than once"@,
        ErrorModel::TooManyArguments => "too many positional arguments"@,
    }
}

fn kind_name_str(t: ArgumentType) -> (r: &'static str)
    ensures
        r@ == kind_name(t),
{
    match t {
        ArgumentType::Integer => "Integer",
        ArgumentType::Text => "Text",
        ArgumentType::Boolean => "Boolean",
    }
}

impl ParseError {
    /// A sentence that describes the refusal.
    pub fn message(&self) -> (r: String)
        ensures
            r@ == error_message(self@),
    {
        match self {
            ParseError::MissingRequired(n) => {
                let mut m = "missing required argument: ".to_owned();
                m.append(n.as_str());
                m
            },
            ParseError::MissingValue(n) => {
                let mut m = "argument '".to_owned();
                m.append(n.as_str());
                m.append("' requires a value but none was given");
                m
            },
            ParseError::WrongType { name, expected, given } => {
                let mut m = "argument '".to_owned();
                m.append(name.as_str());
                m.append("' expects value of type ");
                m.append(kind_name_str(*expected));
                m.append(" given: ");
                m.append(given.as_str());
                m
            },
            ParseError::UnknownArgument(n) => {
                let mut m = "unknown argument: ".to_owned();
                m.append(n.as_str());
                m
            },
            ParseError::DuplicateArgument(n) => {
                let mut m = "argument '".to_owned();
                m.append(n.as_str());
                m.append("' was given more than once");
                m
            },
            ParseError::TooManyArguments => "too many positional arguments".to_owned(),
        }
    }
}

/// A declared required argument.
pub struct RequiredModel {
    pub name: Seq<char>,
    pub argtype: ArgumentType,
}

impl RequiredModel {
    /// A name without a leading `-`, and a type other than `Boolean`.
    pub open spec fn valid(self) -> bool {
        &&& !starts_with_dash(self.name)
        &&& self.argtype != ArgumentType::Boolean
    }
}

/// A declared optional argument.
pub struct OptionalModel {
    pub long: Seq<char>,
    pub short: Option<Seq<char>>,
    pub argtype: ArgumentType,
    pub default: ValueModel,
}

impl OptionalModel {
    /// Non-empty forms without a leading `-`, and a default of the declared type.
    pub open spec fn valid(self) -> bool {
        &&& self.long.len() > 0
        &&& !starts_with_dash(self.long)
        &&& (self.short matches Some(s) ==> s.len() > 0 && !starts_with_dash(s))
        &&& self.default.kind() == self.argtype
    }
}

/// The declarations of a parser, each list in the order of `add_arg`.
pub struct ParserModel {
    pub required: Seq<RequiredModel>,
    pub optional: Seq<OptionalModel>,
}

impl ParserModel {
    /// The declarations that the argument constructors and `add_arg` allow.
    pub open spec fn valid(self) -> bool {
        &&& forall|j: int| 0 <= j < self.required.len() ==> #[trigger] self.required[j].valid()
        &&& forall|j: int| 0 <= j < self.optional.len() ==> #[trigger] self.optional[j].valid()
    }

    /// The declarations after adding `arg`.
    pub open spec fn with_arg(self, arg: ArgModel) -> ParserModel {
        if arg.required {
            ParserModel {
                required: self.required.push(RequiredModel { name: arg.name, argtype: arg.argtype }),
                optional: self.optional,
            }
        } else {
            ParserModel {
                required: self.required,
                optional: self.optional.push(
                    OptionalModel {
                        long: arg.name,
                        short: arg.short,
                        argtype: arg.argtype,
                        default: arg.default.unwrap(),
                    },
                ),
            }
        }
    }
}

/// `s` is exactly `--`.
pub open spec fn is_double_dash(s: Seq<char>) -> bool {
    s.len() == 2 && s[0] == '-' && s[1] == '-'
}

/// `s` begins with `--`.
pub open spec fn starts_with_double_dash(s: Seq<char>) -> bool {
    s.len() >= 2 && s[0] == '-' && s[1] == '-'
}

/// The last optional argument among the first `n` whose long form is `name`.
pub open spec fn find_long(opts: Seq<OptionalModel>, name: Seq<char>, n: int) -> Option<int>
    decreases n,
{
    if n <= 0 {
        None
    } else if opts[n - 1].long == name {
        Some(n - 1)
    } else {
        find_long(opts, name, n - 1)
    }
}

/// The last optional argument among the first `n` whose short form is `name`.
pub open spec fn find_short(opts: Seq<OptionalModel>, name: Seq<char>, n: int) -> Option<int>
    decreases n,
{
    if n <= 0 {
        None
    } else if opts[n - 1].short == Some(name) {
        Some(n - 1)
    } else {
        find_short(opts, name, n - 1)
    }
}

/// The name written in an option word: after `--`, or else after `-`.
pub open spec fn option_name(a: Seq<char>) -> Seq<char> {
    if starts_with_double_dash(a) {
        a.skip(2)
    } else {
        a.skip(1)
    }
}

/// The optional argument that an option word designates, if any.
pub open spec fn option_lookup(opts: Seq<OptionalModel>, a: Seq<char>) -> Option<int> {
    if starts_with_double_dash(a) {
        find_long(opts, a.skip(2), opts.len() as int)
    } else {
        find_short(opts, a.skip(1), opts.len() as int)
    }
}

/// The value that text `s` gives an argument of type `t`.
pub open spec fn typed_value(t: ArgumentType, s: Seq<char>) -> Option<ValueModel> {
    match t {
        ArgumentType::Integer => match spec_parse_i64(s) {
            Some(v) => Some(ValueModel::Integer(v)),
            None => None,
        },
        ArgumentType::Text => Some(ValueModel::Text(s)),
        ArgumentType::Boolean => Some(ValueModel::Boolean(true)),
    }
}

/// Where a parse stands between two words of the command line.
pub struct ParseState {
    /// Words starting with `-` are still options (no `--` yet).
    pub options: bool,
    /// How many required arguments have been given.
    pub next_required: nat,
    /// Which optional arguments have been given.
    pub seen: Seq<bool>,
    /// The values stored so far.
    pub values: Map<Seq<char>, ValueModel>,
}

/// The values after the defaults of the first `n` optional arguments that were
/// not given have been stored, in declaration order.
pub open spec fn with_defaults(
    opts: Seq<OptionalModel>,
    seen: Seq<bool>,
    values: Map<Seq<char>, ValueModel>,
    n: int,
) -> Map<Seq<char>, ValueModel>
    decreases n,
{
    if n <= 0 {
        values
    } else {
        let m = with_defaults(opts, seen, values, n - 1);
        if !seen[n - 1] {
            m.insert(opts[n - 1].long, opts[n - 1].default)
        } else {
            m
        }
    }
}

/// The outcome once every word has been read.
pub open spec fn finish(p: ParserModel, st: ParseState) -> Result<Map<Seq<char>, ValueModel>, ErrorModel> {
    if st.next_required < p.required.len() {
        Err(ErrorModel::MissingRequired(p.required[st.next_required as int].name))
    } else {
        Ok(with_defaults(p.optional, st.seen, st.values, p.optional.len() as int))
    }
}

/// The state after optional argument `idx` received `v`.
pub open spec fn after_option(p: ParserModel, st: ParseState, idx: int, v: ValueModel) -> ParseState {
    ParseState {
        options: st.options,
        next_required: st.next_required,
        seen: st.seen.update(idx, true),
        values: st.values.insert(p.optional[idx].long, v),
    }
}

/// The outcome of reading `args` from position `i` on, in state `st`.
pub open spec fn parse_from(p: ParserModel, args: Seq<Seq<char>>, i: int, st: ParseState) -> Result<
    Map<Seq<char>, ValueModel>,
    ErrorModel,
>
    decreases args.len() - i,
{
    if i < 0 || i >= args.len() {
        finish(p, st)
    } else {
        let a = args[i];
        if st.options && is_double_dash(a) {
            parse_from(
                p,
                args,
                i + 1,
                ParseState {
                    options: false,
                    next_required: st.next_required,
                    seen: st.seen,
                    values: st.values,
                },
            )
        } else if st.options && starts_with_dash(a) {
            match option_lookup(p.optional, a) {
                None => Err(ErrorModel::UnknownArgument(option_name(a))),
                Some(idx) => {
                    let o = p.optional[idx];
                    if st.seen[idx] {
                        Err(ErrorModel::DuplicateArgument(o.long))
                    } else if o.argtype == ArgumentType::Boolean {
                        parse_from(p, args, i + 1, after_option(p, st, idx, ValueModel::Boolean(true)))
                    } else if i + 1 >= args.len() {
                        Err(ErrorModel::MissingValue(o.long))
                    } else {
                        match typed_value(o.argtype, args[i + 1]) {
                            Some(v) => parse_from(p, args, i + 2, after_option(p, st, idx, v)),
                            None => Err(
                                ErrorModel::WrongType {
                                    name: o.long,
                                    expected: ArgumentType::Integer,
                                    given: args[i + 1],
                                },
                            ),
                        }
                    }
                },
            }
        } else if st.next_required < p.required.len() {
            let r = p.required[st.next_required as int];
            match typed_value(r.argtype, a) {
                Some(v) => parse_from(
                    p,
                    args,
                    i + 1,
                    ParseState {
                        options: st.options,
                        next_required: st.next_required + 1,
                        seen: st.seen,
                        values: st.values.insert(r.name, v),
                    },
                ),
                None => Err(
                    ErrorModel::WrongType { name: r.name, expected: ArgumentType::Integer, given: a },
                ),
            }
        } else {
            Err(ErrorModel::TooManyArguments)
        }
    }
}

/// The state before the first word after the program name.
pub open spec fn initial_state(p: ParserModel) -> ParseState {
    ParseState {
        options: true,
        next_required: 0,
        seen: Seq::new(p.optional.len(), |j: int| false),
        values: Map::empty(),
    }
}

/// The outcome of parsing command line `args`, whose first word is the
/// program name and is skipped.
pub open spec fn spec_parse(p: ParserModel, args: Seq<Seq<char>>) -> Result<
    Map<Seq<char>, ValueModel>,
    ErrorModel,
> {
    parse_from(p, args, 1, initial_state(p))
}

/// The texts of a list of strings.
pub open spec fn texts(v: Seq<String>) -> Seq<Seq<char>> {
    v.map_values(|s: String| s@)
}

/// The content of a parse result.
pub open spec fn outcome(r: Result<ParsedArgs, ParseError>) -> Result<Map<Seq<char>, ValueModel>, ErrorModel> {
    match r {
        Ok(p) => Ok(p@),
        Err(e) => Err(e@),
    }
}

struct RequiredEntry {
    name: String,
    argtype: ArgumentType,
}

struct OptionalEntry {
    long: String,
    short: Option<String>,
    argtype: ArgumentType,
    default: ParsedValue,
}

impl RequiredEntry {
    spec fn model(self) -> RequiredModel {
        RequiredModel { name: self.name@, argtype: self.argtype }
    }
}

impl OptionalEntry {
    spec fn model(self) -> OptionalModel {
        OptionalModel {
            long: self.long@,
            short: opt_chars(self.short),
            argtype: self.argtype,
            default: self.default@,
        }
    }
}

/// Parses command lines against the arguments added to it.
pub struct ArgumentParser {
    required_args: Vec<RequiredEntry>,
    optional_args: Vec<OptionalEntry>,
}

impl ArgumentParser {
    #[verifier::type_invariant]
    spec fn declarations_valid(self) -> bool {
        self@.valid()
    }
}

spec fn required_models(v: Seq<RequiredEntry>) -> Seq<RequiredModel> {
    v.map_values(|e: RequiredEntry| e.model())
}

spec fn optional_models(v: Seq<OptionalEntry>) -> Seq<OptionalModel> {
    v.map_values(|e: OptionalEntry| e.model())
}

impl View for ArgumentParser {
    type V = ParserModel;

    closed spec fn view(&self) -> ParserModel {
        ParserModel {
            required: required_models(self.required_args@),
            optional: optional_models(self.optional_args@),
        }
    }
}

impl Default for ArgumentParser {
    fn default() -> (r: ArgumentParser)
        ensures
            r@ == (ParserModel { required: Seq::empty(), optional: Seq::empty() }),
    {
        ArgumentParser::new()
    }
}

/// `s` is exactly `--`.
fn word_is_double_dash(s: &str) -> (r: bool)
    ensures
        r == is_double_dash(s@),
{
    s.unicode_len() == 2 && s.get_char(0) == '-' && s.get_char(1) == '-'
}

impl ArgumentParser {
    /// A parser with no arguments.
    pub fn new() -> (r: ArgumentParser)
        ensures
            r@ == (ParserModel { required: Seq::empty(), optional: Seq::empty() }),
            r@.valid(),
    {
        assert(required_models(Seq::empty()) =~= Seq::empty());
        assert(optional_models(Seq::empty()) =~= Seq::empty());
        let r = ArgumentParser { required_args: Vec::new(), optional_args: Vec::new() };
        assert(r@.required.len() == 0);
        r
    }

    /// Adds a required or optional argument; a required one must not be of
    /// type `Boolean`.
    pub fn add_arg<A: ArgumentTrait>(self, arg: A) -> (r: ArgumentParser)
        requires
            !(arg.model().required && arg.model().argtype == ArgumentType::Boolean),
        ensures
            r@ == self@.with_arg(arg.model()),
            r@.valid(),
    {
        proof {
            use_type_invariant(&self);
        }
        let mut s = self;
        let ghost old_view = s@;
        assert(old_view.valid());
        let required = arg.is_required();
        if required {
            let e = RequiredEntry { name: arg.name(), argtype: arg.argtype() };
            let ArgumentParser { required_args: mut req, optional_args: opt } = s;
            req.push(e);
            assert(required_models(req@) =~= old_view.required.push(e.model()));
            let ghost nr = required_models(req@);
            assert forall|j: int| 0 <= j < nr.len() implies #[trigger] nr[j].valid() by {
                if j < old_view.required.len() {
                    assert(nr[j] == old_view.required[j]);
                }
            }
            assert(optional_models(opt@) == old_view.optional);
            assert((ParserModel { required: nr, optional: optional_models(opt@) }).valid());
            s = ArgumentParser { required_args: req, optional_args: opt };
        } else {
            let d = match arg.default_value() {
                Some(d) => d,
                None => {
                    // Optional arguments always carry a default.
                    ParsedValue::Boolean(false)
                },
            };
            let e = OptionalEntry {
                long: arg.name(),
                short: arg.short_form(),
                argtype: arg.argtype(),
                default: d,
            };
            let ArgumentParser { required_args: req, optional_args: mut opt } = s;
            opt.push(e);
            assert(optional_models(opt@) =~= old_view.optional.push(e.model()));
            let ghost no = optional_models(opt@);
            assert forall|j: int| 0 <= j < no.len() implies #[trigger] no[j].valid() by {
                if j < old_view.optional.len() {
                    assert(no[j] == old_view.optional[j]);
                }
            }
            assert(required_models(req@) == old_view.required);
            assert((ParserModel { required: required_models(req@), optional: no }).valid());
            s = ArgumentParser { required_args: req, optional_args: opt };
        }
        s
    }
}


/// The position an optional index stands for.
pub open spec fn index_of(r: Option<usize>) -> Option<int> {
    match r {
        Some(i) => Some(i as int),
        None => None,
    }
}

/// A found optional argument is a valid position, and has the name looked for.
pub proof fn lemma_find_long_found(opts: Seq<OptionalModel>, name: Seq<char>, n: int)
    requires
        0 <= n <= opts.len(),
    ensures
        find_long(opts, name, n) matches Some(i) ==> 0 <= i < n && opts[i].long == name,
    decreases n,
{
    if n > 0 {
        lemma_find_long_found(opts, name, n - 1);
    }
}

/// A found optional argument is a valid position, and has the short form looked for.
pub proof fn lemma_find_short_found(opts: Seq<OptionalModel>, name: Seq<char>, n: int)
    requires
        0 <= n <= opts.len(),
    ensures
        find_short(opts, name, n) matches Some(i) ==> 0 <= i < n && opts[i].short == Some(name),
    decreases n,
{
    if n > 0 {
        lemma_find_short_found(opts, name, n - 1);
    }
}

impl ArgumentParser {
    /// The last optional argument whose long form is `name`.
    fn lookup_long(&self, name: &String) -> (r: Option<usize>)
        ensures
            index_of(r) == find_long(self@.optional, name@, self@.optional.len() as int),
            r matches Some(i) ==> i < self@.optional.len(),
    {
        let ghost opts = self@.optional;
        let mut j = self.optional_args.len();
        while j > 0
            invariant
                j <= self.optional_args.len(),
                opts == self@.optional,
                opts.len() == self.optional_args.len(),
                find_long(opts, name@, opts.len() as int) == find_long(opts, name@, j as int),
            decreases j,
        {
            assert(opts[j - 1] == self.optional_args@[j - 1].model());
            if self.optional_args[j - 1].long == *name {
                return Some(j - 1);
            }
            j = j - 1;
        }
        None
    }

    /// The last optional argument whose short form is `name`.
    fn lookup_short(&self, name: &String) -> (r: Option<usize>)
        ensures
            index_of(r) == find_short(self@.optional, name@, self@.optional.len() as int),
            r matches Some(i) ==> i < self@.optional.len(),
    {
        let ghost opts = self@.optional;
        let mut j = self.optional_args.len();
        while j > 0
            invariant
                j <= self.optional_args.len(),
                opts == self@.optional,
                opts.len() == self.optional_args.len(),
                find_short(opts, name@, opts.len() as int) == find_short(opts, name@, j as int),
            decreases j,
        {
            assert(opts[j - 1] == self.optional_args@[j - 1].model());
            let hit = match &self.optional_args[j - 1].short {
                Some(s) => *s == *name,
                None => false,
            };
            if hit {
                return Some(j - 1);
            }
            j = j - 1;
        }
        None
    }
}


impl ArgumentParser {
    /// Parses the words of a command line after the first (the program name).
    ///
    /// Words are matched against the declarations as [`spec_parse`] says:
    /// required arguments in order, options by `--long` or `-short`, `--`
    /// ending option parsing, and unseen optional arguments taking their
    /// defaults. `args` must hold at least the program name.
    pub fn parse(self, args: Vec<String>) -> (r: Result<ParsedArgs, ParseError>)
        requires
            args.len() >= 1,
        ensures
            outcome(r) == spec_parse(self@, texts(args@)),
    {
        let ghost p = self@;
        let ghost argv = texts(args@);
        let n = args.len();
        let nopt = self.optional_args.len();
        let mut seen: Vec<bool> = Vec::new();
        let mut k: usize = 0;
        while k < nopt
            invariant
                k <= nopt,
                nopt == self.optional_args.len(),
                seen@ =~= Seq::new(k as nat, |j: int| false),
            decreases nopt - k,
        {
            seen.push(false);
            k = k + 1;
        }
        let mut options = true;
        let mut next_req: usize = 0;
        let mut parsed = ParsedArgs::new();
        let mut i: usize = 1;
        assert(seen@ =~= initial_state(p).seen);
        while i < n
            invariant
                1 <= i <= n,
                n == args.len(),
                argv == texts(args@),
                p == self@,
                nopt == self.optional_args.len() == p.optional.len(),
                seen@.len() == nopt,
                next_req <= p.required.len(),
                p.required.len() == self.required_args.len(),
                spec_parse(p, argv) == parse_from(
                    p,
                    argv,
                    i as int,
                    ParseState {
                        options,
                        next_required: next_req as nat,
                        seen: seen@,
                        values: parsed@,
                    },
                ),
            decreases n - i,
        {
            let ghost st = ParseState { options, next_required: next_req as nat, seen: seen@, values: parsed@ };
            let a: &str = args[i].as_str();
            assert(a@ == argv[i as int]);
            let len = a.unicode_len();
            if options && word_is_double_dash(a) {
                options = false;
                i = i + 1;
            } else if options && len >= 1 && a.get_char(0) == '-' {
                let long = len >= 2 && a.get_char(1) == '-';
                let name = if long {
                    a.substring_char(2, len).to_owned()
                } else {
                    a.substring_char(1, len).to_owned()
                };
                assert(name@ == option_name(a@));
                let found = if long {
                    self.lookup_long(&name)
                } else {
                    self.lookup_short(&name)
                };
                assert(index_of(found) == option_lookup(p.optional, a@));
                match found {
                    None => {
                        return Err(ParseError::UnknownArgument(name));
                    },
                    Some(idx) => {
                        let entry = &self.optional_args[idx];
                        assert(p.optional[idx as int] == self.optional_args@[idx as int].model());
                        let key = entry.long.clone();
                        if seen[idx] {
                            return Err(ParseError::DuplicateArgument(key));
                        }
                        let tp = entry.argtype;
                        if tp == ArgumentType::Boolean {
                            parsed.insert(key, ParsedValue::Boolean(true));
                            seen.set(idx, true);
                            i = i + 1;
                        } else if i + 1 >= n {
                            return Err(ParseError::MissingValue(key));
                        } else {
                            let given = &args[i + 1];
                            assert(given@ == argv[i + 1]);
                            let value = if tp == ArgumentType::Text {
                                ParsedValue::Text(given.clone())
                            } else {
                                match parse_i64(given.as_str()) {
                                    Some(v) => ParsedValue::Integer(v),
                                    None => {
                                        return Err(
                                            ParseError::WrongType {
                                                name: key,
                                                expected: ArgumentType::Integer,
                                                given: given.clone(),
                                            },
                                        );
                                    },
                                }
                            };
                            assert(typed_value(tp, argv[i + 1]) == Some(value@));
                            parsed.insert(key, value);
                            seen.set(idx, true);
                            i = i + 2;
                        }
                    },
                }
            } else if next_req < self.required_args.len() {
                let entry = &self.required_args[next_req];
                assert(p.required[next_req as int] == self.required_args@[next_req as int].model());
                let value = match entry.argtype {
                    ArgumentType::Text => ParsedValue::Text(args[i].clone()),
                    ArgumentType::Integer => match parse_i64(a) {
                        Some(v) => ParsedValue::Integer(v),
                        None => {
                            return Err(
                                ParseError::WrongType {
                                    name: entry.name.clone(),
                                    expected: ArgumentType::Integer,
                                    given: args[i].clone(),
                                },
                            );
                        },
                    },
                    ArgumentType::Boolean => ParsedValue::Boolean(true),
                };
                assert(typed_value(entry.argtype, argv[i as int]) == Some(value@));
                parsed.insert(entry.name.clone(), value);
                next_req = next_req + 1;
                i = i + 1;
            } else {
                return Err(ParseError::TooManyArguments);
            }
        }
        if next_req < self.required_args.len() {
            assert(p.required[next_req as int] == self.required_args@[next_req as int].model());
            return Err(ParseError::MissingRequired(self.required_args[next_req].name.clone()));
        }
        let ghost values0 = parsed@;
        let mut j: usize = 0;
        while j < nopt
            invariant
                j <= nopt,
                p == self@,
                nopt == self.optional_args.len() == p.optional.len(),
                seen@.len() == nopt,
                parsed@ == with_defaults(p.optional, seen@, values0, j as int),
            decreases nopt - j,
        {
            assert(p.optional[j as int] == self.optional_args@[j as int].model());
            if !seen[j] {
                let entry = &self.optional_args[j];
                parsed.insert(entry.long.clone(), entry.default.duplicate());
            }
            j = j + 1;
        }
        Ok(parsed)
    }
}

} // verus!
