use vstd::prelude::*;

use crate::textscan::{
    char_alphabetic, char_alphanumeric, chars_of, is_alphabetic_char, is_alphanumeric_char,
    is_float_str, is_float_text, parse_natural, range_split_at, spec_parse_natural, split_range,
    str_equal,
};

verus! {

/// A parsed argument value, of one of the kinds of argument.
///
/// A floating-point value is held as the text it was parsed from, which
/// `is_float_text` holds of; the program around the library turns it into
/// a number.
#[derive(Clone, Debug)]
pub enum AnyArgumentValue {
    Identifier(String),
    Float(String),
    FloatRange(String, String),
    NaturalNumber(usize),
    FilePath(String),
}

/// The model of an `AnyArgumentValue`: each text by its characters.
pub enum ArgumentValueView {
    Identifier(Seq<char>),
    Float(Seq<char>),
    FloatRange(Seq<char>, Seq<char>),
    NaturalNumber(usize),
    FilePath(Seq<char>),
}

impl View for AnyArgumentValue {
    type V = ArgumentValueView;

    open spec fn view(&self) -> ArgumentValueView {
        match self {
            AnyArgumentValue::Identifier(s) => ArgumentValueView::Identifier(s@),
            AnyArgumentValue::Float(s) => ArgumentValueView::Float(s@),
            AnyArgumentValue::FloatRange(a, b) => ArgumentValueView::FloatRange(a@, b@),
            AnyArgumentValue::NaturalNumber(n) => ArgumentValueView::NaturalNumber(*n),
            AnyArgumentValue::FilePath(s) => ArgumentValueView::FilePath(s@),
        }
    }
}

/// An option of values, each by its view.
pub open spec fn option_view<T: View>(o: Option<T>) -> Option<T::V> {
    match o {
        Some(v) => Some(v@),
        None => None,
    }
}

/// A kind of argument that an object can be created with, under a name.
pub trait Argument {
    type ValueType: View;

    spec fn spec_name(&self) -> Seq<char>;

    /// What `try_parse` gives for the text `s`, by view.
    spec fn spec_parse(s: Seq<char>) -> Option<<Self::ValueType as View>::V>;

    /// The stored form of a value of this kind, by view.
    spec fn spec_store(v: <Self::ValueType as View>::V) -> ArgumentValueView;

    /// The value of this kind that a stored form holds, if it holds one.
    spec fn spec_fetch(v: ArgumentValueView) -> Option<<Self::ValueType as View>::V>;

    /// Fetching a stored value gives it back.
    proof fn lemma_fetch_store(v: <Self::ValueType as View>::V)
        ensures
            Self::spec_fetch(Self::spec_store(v)) == Some(v),
    ;

    fn name(&self) -> (r: &'static str)
        ensures
            r@ == self.spec_name(),
    ;

    fn try_parse(s: &str) -> (r: Option<Self::ValueType>)
        requires
            s@.len() > 0,
        ensures
            option_view(r) == Self::spec_parse(s@),
    ;

    /// The stored form of a value.
    fn store(v: Self::ValueType) -> (r: AnyArgumentValue)
        ensures
            r@ == Self::spec_store(v@),
    ;

    /// The value of this kind that `v` holds, if it holds one.
    fn fetch(v: &AnyArgumentValue) -> (r: Option<Self::ValueType>)
        ensures
            option_view(r) == Self::spec_fetch(v@),
    ;
}

/// An argument of any kind, as an argument list holds it.
pub trait AnyArgument {
    spec fn spec_arg_name(&self) -> Seq<char>;

    /// What `try_parse` gives for the text `s`, by view.
    spec fn spec_arg_parse(&self, s: Seq<char>) -> Option<ArgumentValueView>;

    fn name(&self) -> (r: &str)
        ensures
            r@ == self.spec_arg_name(),
    ;

    fn try_parse(&self, s: &str) -> (r: Option<AnyArgumentValue>)
        requires
            s@.len() > 0,
        ensures
            option_view(r) == self.spec_arg_parse(s@),
    ;
}

impl<T: Argument> AnyArgument for T {
    open spec fn spec_arg_name(&self) -> Seq<char> {
        self.spec_name()
    }

    open spec fn spec_arg_parse(&self, s: Seq<char>) -> Option<ArgumentValueView> {
        match T::spec_parse(s) {
            Some(v) => Some(T::spec_store(v)),
            None => None,
        }
    }

    fn name(&self) -> (r: &str) {
        Argument::name(self)
    }

    fn try_parse(&self, s: &str) -> (r: Option<AnyArgumentValue>) {
        match <T as Argument>::try_parse(s) {
            Some(v) => Some(T::store(v)),
            None => None,
        }
    }
}

/// An identifier: a letter, then letters and digits.
pub struct StringIdentifierArgument(pub &'static str);

/// A floating-point number.
pub struct FloatArgument(pub &'static str);

/// Two floating-point numbers with `..` between them.
pub struct FloatRangeArgument(pub &'static str);

/// A natural number.
pub struct NaturalNumberArgument(pub &'static str);

/// A path to a file; any text is one.
pub struct FilePathArgument(pub &'static str);

/// A letter first, then letters and digits only.
pub open spec fn is_identifier(s: Seq<char>) -> bool {
    &&& s.len() > 0
    &&& char_alphabetic(s[0])
    &&& forall|i: int| 0 <= i < s.len() ==> char_alphanumeric(#[trigger] s[i])
}

impl Argument for StringIdentifierArgument {
    type ValueType = String;

    open spec fn spec_name(&self) -> Seq<char> {
        self.0@
    }

    open spec fn spec_parse(s: Seq<char>) -> Option<Seq<char>> {
        if is_identifier(s) {
            Some(s)
        } else {
            None
        }
    }

    open spec fn spec_store(v: Seq<char>) -> ArgumentValueView {
        ArgumentValueView::Identifier(v)
    }

    open spec fn spec_fetch(v: ArgumentValueView) -> Option<Seq<char>> {
        match v {
            ArgumentValueView::Identifier(s) => Some(s),
            _ => None,
        }
    }

    proof fn lemma_fetch_store(v: Seq<char>) {
    }

    fn name(&self) -> (r: &'static str) {
        self.0
    }

    fn try_parse(s: &str) -> (r: Option<String>) {
        let v = chars_of(s);
        if !is_alphabetic_char(v[0]) {
            return None;
        }
        let mut i: usize = 0;
        while i < v.len()
            invariant
                v@ == s@,
                i <= v.len(),
                forall|j: int| 0 <= j < i ==> char_alphanumeric(#[trigger] v@[j]),
            decreases v.len() - i,
        {
            if !is_alphanumeric_char(v[i]) {
                return None;
            }
            i = i + 1;
        }
        Some(String::from_str(s))
    }

    fn store(v: String) -> (r: AnyArgumentValue) {
        AnyArgumentValue::Identifier(v)
    }

    fn fetch(v: &AnyArgumentValue) -> (r: Option<String>) {
        match v {
            AnyArgumentValue::Identifier(s) => Some(s.clone()),
            _ => None,
        }
    }
}

impl Argument for FloatArgument {
    type ValueType = String;

    open spec fn spec_name(&self) -> Seq<char> {
        self.0@
    }

    open spec fn spec_parse(s: Seq<char>) -> Option<Seq<char>> {
        if is_float_text(s) {
            Some(s)
        } else {
            None
        }
    }

    open spec fn spec_store(v: Seq<char>) -> ArgumentValueView {
        ArgumentValueView::Float(v)
    }

    open spec fn spec_fetch(v: ArgumentValueView) -> Option<Seq<char>> {
        match v {
            ArgumentValueView::Float(s) => Some(s),
            _ => None,
        }
    }

    proof fn lemma_fetch_store(v: Seq<char>) {
    }

    fn name(&self) -> (r: &'static str) {
        self.0
    }

    fn try_parse(s: &str) -> (r: Option<String>) {
        if is_float_str(s) {
            Some(String::from_str(s))
        } else {
            None
        }
    }

    fn store(v: String) -> (r: AnyArgumentValue) {
        AnyArgumentValue::Float(v)
    }

    fn fetch(v: &AnyArgumentValue) -> (r: Option<String>) {
        match v {
            AnyArgumentValue::Float(s) => Some(s.clone()),
            _ => None,
        }
    }
}

/// The two sides of the one `..` of `s`, when both are numbers.
pub open spec fn spec_float_range(s: Seq<char>) -> Option<(Seq<char>, Seq<char>)> {
    if exists|k: int| range_split_at(s, k) {
        let k = choose|k: int| range_split_at(s, k);
        if is_float_text(s.take(k)) && is_float_text(s.skip(k + 2)) {
            Some((s.take(k), s.skip(k + 2)))
        } else {
            None
        }
    } else {
        None
    }
}

/// Splitting at `..` gives two parts in one way only.
proof fn lemma_range_split_unique(s: Seq<char>, k: int, l: int)
    requires
        range_split_at(s, k),
        range_split_at(s, l),
    ensures
        k == l,
{
}

impl Argument for FloatRangeArgument {
    type ValueType = (String, String);

    open spec fn spec_name(&self) -> Seq<char> {
        self.0@
    }

    open spec fn spec_parse(s: Seq<char>) -> Option<(Seq<char>, Seq<char>)> {
        spec_float_range(s)
    }

    open spec fn spec_store(v: (Seq<char>, Seq<char>)) -> ArgumentValueView {
        ArgumentValueView::FloatRange(v.0, v.1)
    }

    open spec fn spec_fetch(v: ArgumentValueView) -> Option<(Seq<char>, Seq<char>)> {
        match v {
            ArgumentValueView::FloatRange(a, b) => Some((a, b)),
            _ => None,
        }
    }

    proof fn lemma_fetch_store(v: (Seq<char>, Seq<char>)) {
    }

    fn name(&self) -> (r: &'static str) {
        self.0
    }

    fn try_parse(s: &str) -> (r: Option<(String, String)>) {
        match split_range(s) {
            Some((a, b)) => {
                proof {
                    let k = choose|k: int|
                        range_split_at(s@, k) && a@ == s@.take(k) && b@ == s@.skip(k + 2);
                    let c = choose|k: int| range_split_at(s@, k);
                    lemma_range_split_unique(s@, k, c);
                }
                if is_float_str(a.as_str()) && is_float_str(b.as_str()) {
                    Some((a, b))
                } else {
                    None
                }
            },
            None => None,
        }
    }

    fn store(v: (String, String)) -> (r: AnyArgumentValue) {
        AnyArgumentValue::FloatRange(v.0, v.1)
    }

    fn fetch(v: &AnyArgumentValue) -> (r: Option<(String, String)>) {
        match v {
            AnyArgumentValue::FloatRange(a, b) => Some((a.clone(), b.clone())),
            _ => None,
        }
    }
}

impl Argument for NaturalNumberArgument {
    type ValueType = usize;

    open spec fn spec_name(&self) -> Seq<char> {
        self.0@
    }

    open spec fn spec_parse(s: Seq<char>) -> Option<usize> {
        spec_parse_natural(s)
    }

    open spec fn spec_store(v: usize) -> ArgumentValueView {
        ArgumentValueView::NaturalNumber(v)
    }

    open spec fn spec_fetch(v: ArgumentValueView) -> Option<usize> {
        match v {
            ArgumentValueView::NaturalNumber(n) => Some(n),
            _ => None,
        }
    }

    proof fn lemma_fetch_store(v: usize) {
    }

    fn name(&self) -> (r: &'static str) {
        self.0
    }

    fn try_parse(s: &str) -> (r: Option<usize>) {
        parse_natural(s)
    }

    fn store(v: usize) -> (r: AnyArgumentValue) {
        AnyArgumentValue::NaturalNumber(v)
    }

    fn fetch(v: &AnyArgumentValue) -> (r: Option<usize>) {
        match v {
            AnyArgumentValue::NaturalNumber(n) => Some(*n),
            _ => None,
        }
    }
}

impl Argument for FilePathArgument {
    type ValueType = String;

    open spec fn spec_name(&self) -> Seq<char> {
        self.0@
    }

    open spec fn spec_parse(s: Seq<char>) -> Option<Seq<char>> {
        Some(s)
    }

    open spec fn spec_store(v: Seq<char>) -> ArgumentValueView {
        ArgumentValueView::FilePath(v)
    }

    open spec fn spec_fetch(v: ArgumentValueView) -> Option<Seq<char>> {
        match v {
            ArgumentValueView::FilePath(s) => Some(s),
            _ => None,
        }
    }

    proof fn lemma_fetch_store(v: Seq<char>) {
    }

    fn name(&self) -> (r: &'static str) {
        self.0
    }

    fn try_parse(s: &str) -> (r: Option<String>) {
        Some(String::from_str(s))
    }

    fn store(v: String) -> (r: AnyArgumentValue) {
        AnyArgumentValue::FilePath(v)
    }

    fn fetch(v: &AnyArgumentValue) -> (r: Option<String>) {
        match v {
            AnyArgumentValue::FilePath(s) => Some(s.clone()),
            _ => None,
        }
    }
}

/// An entry of parsed arguments by view: the argument's name and its value.
pub type ParsedEntry = (Seq<char>, ArgumentValueView);

/// No two entries share a name.
pub open spec fn names_distinct(s: Seq<ParsedEntry>) -> bool {
    forall|i: int, j: int| 0 <= i < j < s.len() ==> #[trigger] s[i].0 != #[trigger] s[j].0
}

/// An entry under `name` stands at `i`.
pub open spec fn named_at(s: Seq<ParsedEntry>, name: Seq<char>, i: int) -> bool {
    0 <= i < s.len() && s[i].0 == name
}

/// The value under `name`, if an entry has that name.
pub open spec fn spec_lookup(s: Seq<ParsedEntry>, name: Seq<char>) -> Option<ArgumentValueView> {
    if exists|i: int| named_at(s, name, i) {
        Some(s[choose|i: int| named_at(s, name, i)].1)
    } else {
        None
    }
}

/// The entries with the value under `name` replaced by `v`, or with
/// `(name, v)` added at the end where no entry has that name.
pub open spec fn replace_or_push(s: Seq<ParsedEntry>, name: Seq<char>, v: ArgumentValueView) -> Seq<
    ParsedEntry,
> {
    if exists|i: int| named_at(s, name, i) {
        s.update(choose|i: int| named_at(s, name, i), (name, v))
    } else {
        s.push((name, v))
    }
}

/// Where names are distinct, one entry at most has a given name.
proof fn lemma_named_unique(s: Seq<ParsedEntry>, name: Seq<char>, i: int, j: int)
    requires
        names_distinct(s),
        named_at(s, name, i),
        named_at(s, name, j),
    ensures
        i == j,
{
    if i < j {
        assert(s[i].0 != s[j].0);
    } else if j < i {
        assert(s[j].0 != s[i].0);
    }
}

/// The values parsed for the arguments of an object, each under its
/// argument's name.
#[derive(Clone)]
pub struct ParsedArguments {
    argument_values: Vec<(&'static str, AnyArgumentValue)>,
}

impl View for ParsedArguments {
    type V = Seq<ParsedEntry>;

    closed spec fn view(&self) -> Seq<ParsedEntry> {
        self.argument_values@.map_values(|e: (&'static str, AnyArgumentValue)| (e.0@, e.1@))
    }
}

impl ParsedArguments {
    /// No two values are held under one name.
    pub open spec fn wf(&self) -> bool {
        names_distinct(self@)
    }

    pub fn new_empty() -> (r: ParsedArguments)
        ensures
            r@ == Seq::<ParsedEntry>::empty(),
            r.wf(),
    {
        let r = ParsedArguments { argument_values: Vec::new() };
        assert(r@ =~= Seq::<ParsedEntry>::empty());
        r
    }

    /// The index of the entry under `name`, if there is one.
    fn find(&self, name: &str) -> (r: Option<usize>)
        requires
            self.wf(),
        ensures
            match r {
                Some(i) => named_at(self@, name@, i as int) && i == choose|i: int|
                    named_at(self@, name@, i),
                None => !exists|i: int| named_at(self@, name@, i),
            },
    {
        let mut i: usize = 0;
        while i < self.argument_values.len()
            invariant
                i <= self.argument_values.len(),
                self@.len() == self.argument_values.len(),
                self.wf(),
                forall|j: int| 0 <= j < i ==> !named_at(self@, name@, j),
            decreases self.argument_values.len() - i,
        {
            assert(self@[i as int].0 == self.argument_values@[i as int].0@);
            if str_equal(self.argument_values[i].0, name) {
                proof {
                    assert(named_at(self@, name@, i as int));
                    let c = choose|j: int| named_at(self@, name@, j);
                    lemma_named_unique(self@, name@, i as int, c);
                }
                return Some(i);
            }
            i = i + 1;
        }
        None
    }

    /// Adds a value under a name that holds none yet.
    fn add(&mut self, name: &'static str, value: AnyArgumentValue)
        requires
            old(self).wf(),
            !exists|i: int| named_at(old(self)@, name@, i),
        ensures
            final(self)@ == old(self)@.push((name@, value@)),
            final(self).wf(),
    {
        let ghost before = self@;
        self.argument_values.push((name, value));
        assert(self@ =~= before.push((name@, value@)));
        assert forall|i: int, j: int| 0 <= i < j < self@.len() implies #[trigger] self@[i].0
            != #[trigger] self@[j].0 by {
            if j == before.len() {
                assert(!named_at(before, name@, i));
            }
        }
    }

    /// Stores `value` under the argument's name, in place of the value held
    /// there if there is one.
    pub fn add_or_replace<T: Argument>(self, argument: &'static T, value: T::ValueType) -> (r:
        ParsedArguments)
        requires
            self.wf(),
        ensures
            r@ == replace_or_push(self@, argument.spec_name(), T::spec_store(value@)),
            r.wf(),
    {
        let mut s = self;
        let name = Argument::name(argument);
        let stored = T::store(value);
        match s.find(name) {
            Some(i) => {
                let ghost before = s@;
                s.argument_values.set(i, (name, stored));
                proof {
                    assert(s@ =~= before.update(i as int, (name@, stored@)));
                    assert forall|a: int, b: int| 0 <= a < b < s@.len() implies #[trigger] s@[a].0
                        != #[trigger] s@[b].0 by {
                        assert(before[a].0 != before[b].0);
                    }
                }
                s
            },
            None => {
                s.add(name, stored);
                s
            },
        }
    }

    /// The value held under the argument's name, if there is one.
    pub fn get<T: Argument>(&self, argument: &'static T) -> (r: Option<T::ValueType>)
        requires
            self.wf(),
            spec_lookup(self@, argument.spec_name()) matches Some(v) ==> T::spec_fetch(v) is Some,
        ensures
            option_view(r) == match spec_lookup(self@, argument.spec_name()) {
                Some(v) => T::spec_fetch(v),
                None => None,
            },
    {
        match self.find(Argument::name(argument)) {
            Some(i) => {
                assert(self@[i as int].1 == self.argument_values@[i as int].1@);
                T::fetch(&self.argument_values[i].1)
            },
            None => None,
        }
    }

    /// The names and values, in the order they were added.
    pub fn values(&self) -> (r: &[(&'static str, AnyArgumentValue)])
        ensures
            r@.map_values(|e: (&'static str, AnyArgumentValue)| (e.0@, e.1@)) == self@,
    {
        self.argument_values.as_slice()
    }
}

/// After a value is stored under a name, looking the name up gives that
/// value and fetching it as the argument's kind gives it back, and every
/// other name keeps its value.
pub proof fn law_get_after_add_or_replace<T: Argument>(
    s: Seq<ParsedEntry>,
    name: Seq<char>,
    other: Seq<char>,
    v: <T::ValueType as View>::V,
)
    requires
        names_distinct(s),
        other != name,
    ensures
        spec_lookup(replace_or_push(s, name, T::spec_store(v)), name) == Some(T::spec_store(v)),
        T::spec_fetch(T::spec_store(v)) == Some(v),
        spec_lookup(replace_or_push(s, name, T::spec_store(v)), other) == spec_lookup(s, other),
        names_distinct(replace_or_push(s, name, T::spec_store(v))),
{
    T::lemma_fetch_store(v);
    let t = replace_or_push(s, name, T::spec_store(v));
    if exists|i: int| named_at(s, name, i) {
        let i = choose|i: int| named_at(s, name, i);
        assert(named_at(t, name, i));
        assert forall|a: int, b: int| 0 <= a < b < t.len() implies #[trigger] t[a].0
            != #[trigger] t[b].0 by {
            assert(s[a].0 != s[b].0);
        }
        let c = choose|j: int| named_at(t, name, j);
        lemma_named_unique(t, name, i, c);
        if exists|j: int| named_at(s, other, j) {
            let j = choose|j: int| named_at(s, other, j);
            assert(named_at(t, other, j));
            let d = choose|j: int| named_at(t, other, j);
            lemma_named_unique(t, other, j, d);
        } else {
            assert forall|j: int| !named_at(t, other, j) by {
                if named_at(t, other, j) {
                    assert(named_at(s, other, j));
                }
            }
        }
    } else {
        let i = s.len() as int;
        assert(named_at(t, name, i));
        assert forall|a: int, b: int| 0 <= a < b < t.len() implies #[trigger] t[a].0
            != #[trigger] t[b].0 by {
            if b == i {
                assert(!named_at(s, name, a));
            } else {
                assert(s[a].0 != s[b].0);
            }
        }
        let c = choose|j: int| named_at(t, name, j);
        lemma_named_unique(t, name, i, c);
        if exists|j: int| named_at(s, other, j) {
            let j = choose|j: int| named_at(s, other, j);
            assert(named_at(t, other, j));
            let d = choose|j: int| named_at(t, other, j);
            lemma_named_unique(t, other, j, d);
        } else {
            assert forall|j: int| !named_at(t, other, j) by {
                if named_at(t, other, j) && j < s.len() {
                    assert(named_at(s, other, j));
                }
            }
        }
    }
}

/// An argument as a list holds it.
#[derive(Clone, Copy)]
pub struct ListedArgument(pub &'static dyn AnyArgument);

/// No two arguments share a name.
pub open spec fn arg_names_distinct(a: Seq<ListedArgument>) -> bool {
    forall|i: int, j: int|
        0 <= i < j < a.len() ==> #[trigger] a[i].0.spec_arg_name() != #[trigger] a[j].0.spec_arg_name()
}

/// The names of an argument list stay distinct as it is built: the empty
/// list has distinct names, and adding an argument whose name is new keeps
/// them distinct; `ArgumentList::add` refuses a name already there.
pub proof fn law_argument_names_stay_distinct(a: Seq<ListedArgument>, x: ListedArgument)
    ensures
        arg_names_distinct(Seq::<ListedArgument>::empty()),
        arg_names_distinct(a) && (forall|i: int| 0 <= i < a.len() ==> #[trigger] a[i].0.spec_arg_name()
            != x.0.spec_arg_name()) ==> arg_names_distinct(a.push(x)),
        arg_names_distinct(a.push(x)) ==> forall|i: int| 0 <= i < a.len() ==> #[trigger] a[i].0.spec_arg_name()
            != x.0.spec_arg_name(),
{
    let b = a.push(x);
    if arg_names_distinct(a) && (forall|i: int| 0 <= i < a.len() ==> #[trigger] a[i].0.spec_arg_name()
        != x.0.spec_arg_name()) {
        assert forall|i: int, j: int| 0 <= i < j < b.len() implies #[trigger] b[i].0.spec_arg_name()
            != #[trigger] b[j].0.spec_arg_name() by {
            assert(b[i] == a[i]);
            if j < a.len() {
                assert(b[j] == a[j]);
                assert(a[i].0.spec_arg_name() != a[j].0.spec_arg_name());
            } else {
                assert(b[j] == x);
                assert(a[i].0.spec_arg_name() != x.0.spec_arg_name());
            }
        }
    }
    if arg_names_distinct(b) {
        assert forall|i: int| 0 <= i < a.len() implies #[trigger] a[i].0.spec_arg_name() != x.0.spec_arg_name() by {
            assert(b[i] == a[i]);
            assert(b[a.len() as int] == x);
        }
    }
}

/// `args[i]` is the first argument that takes the text `t`.
pub open spec fn first_accepting(args: Seq<ListedArgument>, t: Seq<char>, i: int) -> bool {
    &&& 0 <= i < args.len()
    &&& args[i].0.spec_arg_parse(t) is Some
    &&& forall|j: int| 0 <= j < i ==> #[trigger] args[j].0.spec_arg_parse(t) is None
}

/// What parsing `terms` against `args` gives: each term in turn goes to the
/// first argument not yet filled that takes it, which is then filled; a
/// term that no such argument takes is dropped.
pub open spec fn parse_terms(args: Seq<ListedArgument>, terms: Seq<Seq<char>>) -> Seq<
    ParsedEntry,
>
    decreases terms.len(),
{
    if terms.len() == 0 {
        Seq::empty()
    } else {
        let t = terms[0];
        if exists|i: int| first_accepting(args, t, i) {
            let i = choose|i: int| first_accepting(args, t, i);
            seq![(args[i].0.spec_arg_name(), args[i].0.spec_arg_parse(t)->0)] + parse_terms(
                args.remove(i),
                terms.skip(1),
            )
        } else {
            parse_terms(args, terms.skip(1))
        }
    }
}

proof fn lemma_first_accepting_unique(args: Seq<ListedArgument>, t: Seq<char>, i: int, j: int)
    requires
        first_accepting(args, t, i),
        first_accepting(args, t, j),
    ensures
        i == j,
{
    if i < j {
        assert(args[i].0.spec_arg_parse(t) is None);
    } else if j < i {
        assert(args[j].0.spec_arg_parse(t) is None);
    }
}

/// With no arguments, no term is taken.
proof fn lemma_parse_no_arguments(args: Seq<ListedArgument>, terms: Seq<Seq<char>>)
    requires
        args.len() == 0,
    ensures
        parse_terms(args, terms) == Seq::<ParsedEntry>::empty(),
    decreases terms.len(),
{
    if terms.len() > 0 {
        lemma_parse_no_arguments(args, terms.skip(1));
    }
}

/// The arguments that an object takes, each under a name of its own.
pub struct ArgumentList {
    arguments: Vec<ListedArgument>,
}

impl View for ArgumentList {
    type V = Seq<ListedArgument>;

    closed spec fn view(&self) -> Seq<ListedArgument> {
        self.arguments@
    }
}

impl ArgumentList {
    /// No two arguments share a name.
    pub open spec fn wf(&self) -> bool {
        arg_names_distinct(self@)
    }

    pub fn new_empty() -> (r: ArgumentList)
        ensures
            r@ == Seq::<ListedArgument>::empty(),
            r.wf(),
    {
        ArgumentList { arguments: Vec::new() }
    }

    /// The list with `argument` added at the end; its name must be new.
    pub fn add(self, argument: ListedArgument) -> (r: ArgumentList)
        requires
            self.wf(),
            forall|i: int| 0 <= i < self@.len() ==> #[trigger] self@[i].0.spec_arg_name()
                != argument.0.spec_arg_name(),
        ensures
            r@ == self@.push(argument),
            r.wf(),
    {
        let ghost before = self@;
        let mut s = self;
        s.arguments.push(argument);
        let ghost after = s@;
        proof {
            assert(after =~= before.push(argument));
            assert(after.len() == before.len() + 1);
            assert forall|i: int, j: int| 0 <= i < j < after.len() implies #[trigger] after[i].0.spec_arg_name()
                != #[trigger] after[j].0.spec_arg_name() by {
                assert(after[i] == before[i]);
                if j < before.len() {
                    assert(after[j] == before[j]);
                    assert(before[i].0.spec_arg_name() != before[j].0.spec_arg_name());
                } else {
                    assert(after[j] == argument);
                    assert(before[i].0.spec_arg_name() != argument.0.spec_arg_name());
                }
            }
        }
        s
    }

    pub fn arguments(&self) -> (r: &[ListedArgument])
        ensures
            r@ == self@,
    {
        self.arguments.as_slice()
    }

    /// Gives `term` to the first argument of `remaining_args` that takes it,
    /// and removes that argument from the list.
    fn try_parse_term(term: &str, remaining_args: &mut Vec<ListedArgument>) -> (r: Option<
        (&'static str, AnyArgumentValue),
    >)
        requires
            term@.len() > 0,
        ensures
            (exists|i: int| first_accepting(old(remaining_args)@, term@, i)) ==> {
                let i = choose|i: int| first_accepting(old(remaining_args)@, term@, i);
                &&& r matches Some(p)
                &&& p.0@ == old(remaining_args)@[i].0.spec_arg_name()
                &&& Some(p.1@) == old(remaining_args)@[i].0.spec_arg_parse(term@)
                &&& final(remaining_args)@ == old(remaining_args)@.remove(i)
            },
            !(exists|i: int| first_accepting(old(remaining_args)@, term@, i)) ==> {
                &&& r is None
                &&& final(remaining_args)@ == old(remaining_args)@
            },
    {
        let ghost args = remaining_args@;
        let mut i: usize = 0;
        while i < remaining_args.len()
            invariant
                term@.len() > 0,
                remaining_args@ == args,
                args == old(remaining_args)@,
                i <= args.len(),
                forall|j: int| 0 <= j < i ==> #[trigger] args[j].0.spec_arg_parse(term@) is None,
            decreases args.len() - i,
        {
            let arg: &'static dyn AnyArgument = remaining_args[i].0;
            match arg.try_parse(term) {
                Some(v) => {
                    let name = arg.name();
                    proof {
                        assert(first_accepting(args, term@, i as int));
                        let c = choose|j: int| first_accepting(args, term@, j);
                        lemma_first_accepting_unique(args, term@, i as int, c);
                    }
                    remaining_args.remove(i);
                    return Some((name, v));
                },
                None => {},
            }
            i = i + 1;
        }
        proof {
            assert forall|j: int| !first_accepting(args, term@, j) by {
                if 0 <= j < args.len() {
                    assert(args[j].0.spec_arg_parse(term@) is None);
                }
            }
        }
        None
    }

    /// Parses `terms` against the arguments: each term in turn goes to the
    /// first argument not yet filled that takes it; terms that none takes
    /// are dropped.
    pub fn parse(&self, terms: Vec<String>) -> (r: ParsedArguments)
        requires
            self.wf(),
            forall|k: int| 0 <= k < terms@.len() ==> (#[trigger] terms@[k])@.len() > 0,
        ensures
            r@ == parse_terms(self@, terms@.map_values(|t: String| t@)),
            r.wf(),
    {
        let ghost all_terms = terms@.map_values(|t: String| t@);
        if self.arguments.len() == 0 {
            proof {
                lemma_parse_no_arguments(self@, all_terms);
            }
            return ParsedArguments::new_empty();
        }
        let mut parsed = ParsedArguments::new_empty();
        let mut remaining: Vec<ListedArgument> = Vec::new();
        let mut a: usize = 0;
        while a < self.arguments.len()
            invariant
                a <= self@.len(),
                self@.len() == self.arguments.len(),
                self@ == self.arguments@,
                remaining@ == self@.take(a as int),
            decreases self.arguments.len() - a,
        {
            let x = self.arguments[a];
            remaining.push(x);
            a = a + 1;
            assert(remaining@ =~= self@.take(a as int));
        }
        assert(remaining@ =~= self@);
        assert(all_terms.skip(0) =~= all_terms);
        assert(parsed@ + parse_terms(remaining@, all_terms.skip(0)) =~= parse_terms(self@, all_terms));
        let mut k: usize = 0;
        while k < terms.len()
            invariant
                k <= terms@.len(),
                all_terms == terms@.map_values(|t: String| t@),
                forall|k: int| 0 <= k < terms@.len() ==> (#[trigger] terms@[k])@.len() > 0,
                parsed.wf(),
                arg_names_distinct(remaining@),
                forall|p: int, q: int|
                    0 <= p < parsed@.len() && 0 <= q < remaining@.len() ==> #[trigger] parsed@[p].0
                        != #[trigger] remaining@[q].0.spec_arg_name(),
                parsed@ + parse_terms(remaining@, all_terms.skip(k as int)) == parse_terms(
                    self@,
                    all_terms,
                ),
            decreases terms.len() - k,
        {
            let ghost before = remaining@;
            let ghost rest = all_terms.skip(k as int);
            assert(rest[0] == terms@[k as int]@);
            assert(rest.skip(1) =~= all_terms.skip(k + 1));
            let term = terms[k].as_str();
            match Self::try_parse_term(term, &mut remaining) {
                Some((name, value)) => {
                    let ghost i = choose|i: int| first_accepting(before, term@, i);
                    proof {
                        assert(!exists|p: int| named_at(parsed@, name@, p)) by {
                            assert forall|p: int| !named_at(parsed@, name@, p) by {
                                if 0 <= p < parsed@.len() {
                                    assert(parsed@[p].0 != before[i].0.spec_arg_name());
                                }
                            }
                        }
                    }
                    let ghost old_parsed = parsed@;
                    parsed.add(name, value);
                    proof {
                        assert(parsed@ + parse_terms(remaining@, all_terms.skip(k + 1)) =~= old_parsed
                            + parse_terms(before, rest));
                        assert forall|q: int| 0 <= q < remaining@.len() implies #[trigger] remaining@[q].0.spec_arg_name()
                            != before[i].0.spec_arg_name() by {
                            if q < i {
                                assert(remaining@[q] == before[q]);
                                assert(before[q].0.spec_arg_name() != before[i].0.spec_arg_name());
                            } else {
                                assert(remaining@[q] == before[q + 1]);
                                assert(before[i].0.spec_arg_name() != before[q + 1].0.spec_arg_name());
                            }
                        }
                        assert forall|p: int, q: int|
                            0 <= p < parsed@.len() && 0 <= q < remaining@.len() implies #[trigger] parsed@[p].0
                                != #[trigger] remaining@[q].0.spec_arg_name() by {
                            if p < old_parsed.len() {
                                if q < i {
                                    assert(remaining@[q] == before[q]);
                                } else {
                                    assert(remaining@[q] == before[q + 1]);
                                }
                                assert(old_parsed[p].0 != before[if q < i { q } else { q + 1 }].0.spec_arg_name());
                            }
                        }
                        assert forall|p: int, q: int| 0 <= p < q < remaining@.len() implies #[trigger] remaining@[p].0.spec_arg_name()
                            != #[trigger] remaining@[q].0.spec_arg_name() by {
                            let pp = if p < i { p } else { p + 1 };
                            let qq = if q < i { q } else { q + 1 };
                            assert(remaining@[p] == before[pp]);
                            assert(remaining@[q] == before[qq]);
                            assert(before[pp].0.spec_arg_name() != before[qq].0.spec_arg_name());
                        }
                    }
                },
                None => {
                    proof {
                        assert(parse_terms(before, rest) == parse_terms(before, rest.skip(1)));
                    }
                },
            }
            k = k + 1;
        }
        proof {
            assert(all_terms.skip(terms@.len() as int) =~= Seq::<Seq<char>>::empty());
            assert(parsed@ =~= parse_terms(self@, all_terms));
        }
        parsed
    }
}

} // verus!
