//! Argument declarations and the table of parsed values.
use vstd::prelude::*;

use crate::private::Sealed;
use crate::values::{ArgumentType, FromParsedValue, ParsedValue, ValueModel};

verus! {

/// `s` begins with a hyphen.
pub open spec fn starts_with_dash(s: Seq<char>) -> bool {
    s.len() > 0 && s[0] == '-'
}

/// Everything a parser learns from an argument declaration.
pub struct ArgModel {
    pub required: bool,
    /// The name of a required argument, or the long form of an optional one.
    pub name: Seq<char>,
    pub short: Option<Seq<char>>,
    pub argtype: ArgumentType,
    pub default: Option<ValueModel>,
}

/// What the constructors of [`Argument`] and [`OptionalArgument`] guarantee.
pub open spec fn valid_arg(m: ArgModel) -> bool {
    &&& !starts_with_dash(m.name)
    &&& m.required ==> m.short is None && m.default is None
    &&& !m.required ==> {
        &&& m.name.len() > 0
        &&& (m.short matches Some(s) ==> s.len() > 0 && !starts_with_dash(s))
        &&& (m.default matches Some(d) && d.kind() == m.argtype)
    }
}

/// The characters of an optional string.
pub open spec fn opt_chars(o: Option<String>) -> Option<Seq<char>> {
    match o {
        Some(s) => Some(s@),
        None => None,
    }
}

/// The content of an optional value.
pub open spec fn opt_value(o: Option<ParsedValue>) -> Option<ValueModel> {
    match o {
        Some(v) => Some(v@),
        None => None,
    }
}

/// An argument declaration that a parser accepts.
pub trait ArgumentTrait: Sealed {
    /// The declaration as plain values.
    spec fn model(&self) -> ArgModel;

    /// Whether the argument is required; every declaration obeys [`valid_arg`].
    fn is_required(&self) -> (r: bool)
        ensures
            r == self.model().required,
            valid_arg(self.model()),
    ;

    fn name(&self) -> (r: String)
        ensures
            r@ == self.model().name,
    ;

    fn short_form(&self) -> (r: Option<String>)
        ensures
            opt_chars(r) == self.model().short,
    ;

    fn argtype(&self) -> (r: ArgumentType)
        ensures
            r == self.model().argtype,
    ;

    fn default_value(&self) -> (r: Option<ParsedValue>)
        ensures
            opt_value(r) == self.model().default,
    ;
}

/// A required positional argument.
#[derive(Debug)]
pub struct Argument<'a> {
    name: &'a str,
    argtype: ArgumentType,
}

impl Sealed for Argument<'_> {
}

impl<'a> Clone for Argument<'a> {
    fn clone(&self) -> (r: Self)
        ensures
            r.model() == self.model(),
    {
        proof {
            use_type_invariant(self);
        }
        Argument { name: self.name, argtype: self.argtype }
    }
}

impl<'a> Argument<'a> {
    #[verifier::type_invariant]
    spec fn declared_validly(self) -> bool {
        valid_arg(self.model())
    }
}

impl<'a> ArgumentTrait for Argument<'a> {
    closed spec fn model(&self) -> ArgModel {
        ArgModel {
            required: true,
            name: self.name@,
            short: None,
            argtype: self.argtype,
            default: None,
        }
    }

    fn is_required(&self) -> (r: bool) {
        proof {
            use_type_invariant(self);
        }
        true
    }

    fn name(&self) -> (r: String) {
        self.name.to_owned()
    }

    fn short_form(&self) -> (r: Option<String>) {
        None
    }

    fn argtype(&self) -> (r: ArgumentType) {
        self.argtype
    }

    fn default_value(&self) -> (r: Option<ParsedValue>) {
        None
    }
}

impl<'a> Argument<'a> {
    /// A required argument called `name`, which must not start with `-`.
    pub fn new(name: &'a str, argtype: ArgumentType) -> (r: Argument<'a>)
        requires
            !starts_with_dash(name@),
        ensures
            r.model() == (ArgModel {
                required: true,
                name: name@,
                short: None,
                argtype,
                default: None,
            }),
            valid_arg(r.model()),
    {
        Argument { name, argtype }
    }
}

/// An optional argument: `--long` and maybe `-short`, with a default value.
#[derive(Debug)]
pub struct OptionalArgument<'a> {
    long: &'a str,
    short: Option<&'a str>,
    argtype: ArgumentType,
    default: ParsedValue,
}

/// The characters of an optional string slice.
pub open spec fn opt_str_chars(o: Option<&str>) -> Option<Seq<char>> {
    match o {
        Some(s) => Some(s@),
        None => None,
    }
}

impl Sealed for OptionalArgument<'_> {
}

impl<'a> Clone for OptionalArgument<'a> {
    fn clone(&self) -> (r: Self)
        ensures
            r.model() == self.model(),
    {
        proof {
            use_type_invariant(self);
        }
        OptionalArgument {
            long: self.long,
            short: self.short,
            argtype: self.argtype,
            default: self.default.duplicate(),
        }
    }
}

impl<'a> OptionalArgument<'a> {
    #[verifier::type_invariant]
    spec fn declared_validly(self) -> bool {
        valid_arg(self.model())
    }
}

impl<'a> ArgumentTrait for OptionalArgument<'a> {
    closed spec fn model(&self) -> ArgModel {
        ArgModel {
            required: false,
            name: self.long@,
            short: opt_str_chars(self.short),
            argtype: self.argtype,
            default: Some(self.default@),
        }
    }

    fn is_required(&self) -> (r: bool) {
        proof {
            use_type_invariant(self);
        }
        false
    }

    fn name(&self) -> (r: String) {
        self.long.to_owned()
    }

    fn short_form(&self) -> (r: Option<String>) {
        match self.short {
            Some(s) => Some(s.to_owned()),
            None => None,
        }
    }

    fn argtype(&self) -> (r: ArgumentType) {
        self.argtype
    }

    fn default_value(&self) -> (r: Option<ParsedValue>) {
        Some(self.default.duplicate())
    }
}

impl<'a> OptionalArgument<'a> {
    /// An optional argument with long form `long`, short form `short`, and a
    /// default of type `argtype`; neither form is empty or starts with `-`.
    pub fn new(long: &'a str, short: Option<&'a str>, argtype: ArgumentType, default: ParsedValue) -> (r:
        OptionalArgument<'a>)
        requires
            default@.kind() == argtype,
            long@.len() > 0,
            !starts_with_dash(long@),
            short matches Some(s) ==> s@.len() > 0 && !starts_with_dash(s@),
        ensures
            r.model() == (ArgModel {
                required: false,
                name: long@,
                short: opt_str_chars(short),
                argtype,
                default: Some(default@),
            }),
            valid_arg(r.model()),
    {
        OptionalArgument { long, short, argtype, default }
    }
}

/// One stored value and the argument name it belongs to.
#[derive(Debug)]
struct ParsedEntry {
    name: String,
    value: ParsedValue,
}

/// The map that a sequence of stores builds, later stores replacing earlier ones.
pub open spec fn stored_map(names: Seq<Seq<char>>, values: Seq<ValueModel>) -> Map<Seq<char>, ValueModel>
    decreases names.len(),
{
    if names.len() == 0 || values.len() == 0 {
        Map::empty()
    } else {
        stored_map(names.drop_last(), values.drop_last()).insert(names.last(), values.last())
    }
}

/// The values of the arguments after a successful parse, by argument name.
#[derive(Debug)]
pub struct ParsedArgs {
    entries: Vec<ParsedEntry>,
}

impl ParsedArgs {
    /// The names stored so far, oldest first.
    pub closed spec fn stored_names(&self) -> Seq<Seq<char>> {
        self.entries@.map_values(|e: ParsedEntry| e.name@)
    }

    /// The values stored so far, oldest first.
    pub closed spec fn stored_values(&self) -> Seq<ValueModel> {
        self.entries@.map_values(|e: ParsedEntry| e.value@)
    }
}

impl View for ParsedArgs {
    type V = Map<Seq<char>, ValueModel>;

    closed spec fn view(&self) -> Map<Seq<char>, ValueModel> {
        stored_map(self.stored_names(), self.stored_values())
    }
}

impl ParsedArgs {
    pub(crate) fn new() -> (r: ParsedArgs)
        ensures
            r@ == Map::<Seq<char>, ValueModel>::empty(),
    {
        let r = ParsedArgs { entries: Vec::new() };
        assert(r.stored_names().len() == 0);
        r
    }

    pub(crate) fn insert(&mut self, name: String, value: ParsedValue)
        ensures
            final(self)@ == old(self)@.insert(name@, value@),
    {
        let ghost names0 = self.stored_names();
        let ghost values0 = self.stored_values();
        self.entries.push(ParsedEntry { name, value });
        assert(self.stored_names().drop_last() =~= names0);
        assert(self.stored_values().drop_last() =~= values0);
    }

    /// Whether a value is stored for `name`.
    pub fn contains(&self, name: &str) -> (r: bool)
        ensures
            r == self@.contains_key(name@),
    {
        let key = name.to_owned();
        let ghost names = self.stored_names();
        let ghost values = self.stored_values();
        let mut j = self.entries.len();
        assert(names.take(j as int) =~= names);
        assert(values.take(j as int) =~= values);
        while j > 0
            invariant
                j <= self.entries.len(),
                names == self.stored_names(),
                values == self.stored_values(),
                names.len() == values.len() == self.entries.len(),
                key@ == name@,
                self@ == stored_map(names, values),
                stored_map(names.take(j as int), values.take(j as int)).contains_key(key@)
                    == self@.contains_key(key@),
            decreases j,
        {
            assert(names.take(j as int).drop_last() =~= names.take(j - 1));
            assert(values.take(j as int).drop_last() =~= values.take(j - 1));
            if self.entries[j - 1].name == key {
                return true;
            }
            j = j - 1;
        }
        assert(names.take(0) =~= Seq::<Seq<char>>::empty());
        false
    }

    /// The value stored for `name`, which must be the name of an argument of
    /// the parser.
    pub fn get(&self, name: &str) -> (r: &ParsedValue)
        requires
            self@.contains_key(name@),
        ensures
            r@ == self@[name@],
    {
        let key = name.to_owned();
        let ghost names = self.stored_names();
        let ghost values = self.stored_values();
        let mut j = self.entries.len();
        assert(names.take(j as int) =~= names);
        assert(values.take(j as int) =~= values);
        loop
            invariant
                j <= self.entries.len(),
                names == self.stored_names(),
                values == self.stored_values(),
                names.len() == values.len() == self.entries.len(),
                key@ == name@,
                self@ == stored_map(names, values),
                stored_map(names.take(j as int), values.take(j as int)).contains_key(key@),
                stored_map(names.take(j as int), values.take(j as int))[key@] == self@[key@],
            decreases j,
        {
            if j == 0 {
                assert(names.take(0) =~= Seq::<Seq<char>>::empty());
            }
            assert(j > 0);
            let e = &self.entries[j - 1];
            let ghost pre_n = names.take(j - 1);
            let ghost pre_v = values.take(j - 1);
            assert(names.take(j as int).drop_last() =~= pre_n);
            assert(values.take(j as int).drop_last() =~= pre_v);
            if e.name == key {
                return &e.value;
            }
            j = j - 1;
        }
    }

    /// The value stored for `name`, converted to `T`; `name` must be the name
    /// of an argument of the parser and its value of `T`'s kind.
    pub fn get_as<T: FromParsedValue>(&self, name: &str) -> (r: T)
        requires
            self@.contains_key(name@),
            self@[name@].kind() == T::source_kind(),
        ensures
            T::as_value(&r) == self@[name@],
    {
        T::from_parsed(self.get(name), name)
    }
}

} // verus!
