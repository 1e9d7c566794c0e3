//! Arguments of the `modeled_test` and `unmodeled_test` attributes.
//!
//! The arguments arrive as a list of meta items, such as
//! `notest, shuttle(iters = 10, scheduler = "pct")`. Each known field may be given once; fields
//! that are left out take their defaults. All problems in a list are reported together, in the
//! order of the items, each with the chain of fields it was found under.

use vstd::prelude::*;
use vstd::string::StrSliceExecFns;

verus! {

/// A literal in attribute arguments
#[derive(Debug, PartialEq)]
pub enum Lit {
    /// A string literal, holding its value
    Str(String),
    /// An integer literal, holding its base-10 digits without suffix
    Int(String),
    Bool(bool),
    Char(char),
    /// Any other literal, holding the name of its kind, such as `float` or `byte string`
    Other(String),
}

/// The value after `=` in a `name = value` item
#[derive(Debug, PartialEq)]
pub enum Value {
    Lit(Lit),
    /// An expression that is not a literal, holding the name of its kind, such as `path`
    Expr(String),
}

/// One item of an attribute argument list
#[derive(Debug, PartialEq)]
pub enum MetaItem {
    /// A bare literal
    Lit(Lit),
    /// A word, such as `notest`
    Path(String),
    /// A name with a parenthesized list, such as `shuttle(iters = 10)`
    List(String, Vec<MetaItem>),
    /// A name with a value, such as `iters = 10`
    NameValue(String, Value),
    /// A name with a parenthesized list whose contents do not parse, holding the parser's message
    Malformed(String, String),
}

/// A field or variant that an error can be found under
#[derive(Clone, Copy, Debug, PartialEq, Eq)]
pub enum Field {
    Notest,
    Shuttle,
    Scheduler,
    Iters,
    Depth,
    Replay,
}

/// The argument shapes whose field or variant names an unknown name is held against
#[derive(Clone, Copy, Debug, PartialEq, Eq)]
pub enum Known {
    ModeledTestArgs,
    ShuttleArgs,
    Scheduler,
}

/// Forms of an item that a place does not accept
#[derive(Clone, Copy, Debug, PartialEq, Eq)]
pub enum Format {
    Literal,
    Word,
    List,
    NonPath,
}

/// Kinds of values that a place does not accept
#[derive(Debug, PartialEq)]
pub enum LitType {
    Str,
    Int,
    Bool,
    Char,
    Named(String),
}

/// What is wrong with an item
#[derive(Debug, PartialEq)]
pub enum ErrorKind {
    UnknownField { name: String, expected: Known },
    DuplicateField(Field),
    UnsupportedFormat(Format),
    UnexpectedType(LitType),
    UnknownValue(String),
    TooFewItems,
    TooManyItems,
    IntTooLarge,
    /// The contents of a parenthesized list do not parse; the parser's message
    Syntax(String),
}

/// An error, with the fields it was found under, outermost first
#[derive(Debug, PartialEq)]
pub struct MetaError {
    pub kind: ErrorKind,
    pub locations: Vec<Field>,
}

impl View for MetaError {
    type V = (ErrorKind, Seq<Field>);

    open spec fn view(&self) -> (ErrorKind, Seq<Field>) {
        (self.kind, self.locations@)
    }
}

/// How the shuttle model checker explores schedules
#[derive(Debug, PartialEq)]
pub enum Scheduler {
    Random,
    Pct,
    Dfs,
    /// Replay one recorded schedule
    Replay(String),
}

/// Options for shuttle
#[derive(Debug, PartialEq)]
pub struct ShuttleArgs {
    pub scheduler: Scheduler,
    pub iters: Option<usize>,
    pub depth: Option<usize>,
}

/// Arguments of `modeled_test`
#[derive(Debug, PartialEq)]
pub struct ModeledTestArgs {
    pub notest: bool,
    pub shuttle: ShuttleArgs,
}

/// Arguments of `unmodeled_test`
#[derive(Debug, PartialEq)]
pub struct UnmodeledTestArgs {
    pub notest: bool,
}

// ---------------------------------------------------------------------------------------------
// Meaning of the arguments
// ---------------------------------------------------------------------------------------------

/// An error list holding one error found at the place being read
pub open spec fn one(kind: ErrorKind) -> Seq<(ErrorKind, Seq<Field>)> {
    seq![(kind, Seq::<Field>::empty())]
}

/// `errs` found under field `f`
pub open spec fn located(errs: Seq<(ErrorKind, Seq<Field>)>, f: Field) -> Seq<(ErrorKind, Seq<Field>)> {
    Seq::new(errs.len(), |i: int| (errs[i].0, seq![f] + errs[i].1))
}

/// The views of a list of errors
pub open spec fn views(errs: Seq<MetaError>) -> Seq<(ErrorKind, Seq<Field>)> {
    Seq::new(errs.len(), |i: int| errs[i]@)
}

/// The kind of a literal, as errors name it
pub open spec fn lit_type(l: Lit) -> LitType {
    match l {
        Lit::Str(_) => LitType::Str,
        Lit::Int(_) => LitType::Int,
        Lit::Bool(_) => LitType::Bool,
        Lit::Char(_) => LitType::Char,
        Lit::Other(k) => LitType::Named(k),
    }
}

/// The kind of a value that is not accepted where a literal of another kind was expected
pub open spec fn value_type(v: Value) -> LitType {
    match v {
        Value::Lit(l) => lit_type(l),
        Value::Expr(k) => LitType::Named(k),
    }
}

/// The name of an item that is not a bare literal
pub open spec fn item_name(m: MetaItem) -> String {
    match m {
        MetaItem::Path(n) => n,
        MetaItem::List(n, _) => n,
        MetaItem::Malformed(n, _) => n,
        MetaItem::NameValue(n, _) => n,
        MetaItem::Lit(_) => arbitrary(),
    }
}

/// `d` is a non-empty run of ASCII digits
pub open spec fn all_digits(d: Seq<char>) -> bool {
    d.len() > 0 && forall|i: int| 0 <= i < d.len() ==> '0' <= #[trigger] d[i] <= '9'
}

/// The number that the decimal digits `d` spell
pub open spec fn digits_value(d: Seq<char>) -> int
    decreases d.len(),
{
    if d.len() == 0 {
        0
    } else {
        digits_value(d.drop_last()) * 10 + (d.last() as int - '0' as int)
    }
}

/// What `str::parse::<usize>` gives for `s`: an optional `+`, then digits of a value that fits
pub open spec fn parsed_usize(s: Seq<char>) -> Option<usize> {
    let d = if s.len() > 0 && s[0] == '+' {
        s.drop_first()
    } else {
        s
    };
    if all_digits(d) && digits_value(d) <= usize::MAX {
        Some(digits_value(d) as usize)
    } else {
        None
    }
}

/// A flag: given as a word it is set; it may also be given a boolean or `"true"` / `"false"`
pub open spec fn bool_from_meta(m: MetaItem) -> Result<bool, Seq<(ErrorKind, Seq<Field>)>> {
    match m {
        MetaItem::NameValue(_, v) => match v {
            Value::Lit(Lit::Bool(b)) => Ok(b),
            Value::Lit(Lit::Str(s)) => if s@ == "true"@ {
                Ok(true)
            } else if s@ == "false"@ {
                Ok(false)
            } else {
                Err(one(ErrorKind::UnknownValue(s)))
            },
            _ => Err(one(ErrorKind::UnexpectedType(value_type(v)))),
        },
        MetaItem::List(_, _) => Err(one(ErrorKind::UnsupportedFormat(Format::List))),
        MetaItem::Malformed(_, e) => Err(one(ErrorKind::Syntax(e))),
        _ => Ok(true),
    }
}

/// A count: an integer literal, or a string holding one
pub open spec fn usize_from_meta(m: MetaItem) -> Result<usize, Seq<(ErrorKind, Seq<Field>)>> {
    match m {
        MetaItem::NameValue(_, v) => match v {
            Value::Lit(Lit::Str(s)) => match parsed_usize(s@) {
                Some(n) => Ok(n),
                None => Err(one(ErrorKind::UnknownValue(s))),
            },
            Value::Lit(Lit::Int(d)) => match parsed_usize(d@) {
                Some(n) => Ok(n),
                None => Err(one(ErrorKind::IntTooLarge)),
            },
            _ => Err(one(ErrorKind::UnexpectedType(value_type(v)))),
        },
        MetaItem::List(_, _) => Err(one(ErrorKind::UnsupportedFormat(Format::List))),
        MetaItem::Malformed(_, e) => Err(one(ErrorKind::Syntax(e))),
        _ => Err(one(ErrorKind::UnsupportedFormat(Format::Word))),
    }
}

/// A text: a string literal
pub open spec fn string_from_meta(m: MetaItem) -> Result<String, Seq<(ErrorKind, Seq<Field>)>> {
    match m {
        MetaItem::NameValue(_, v) => match v {
            Value::Lit(Lit::Str(s)) => Ok(s),
            _ => Err(one(ErrorKind::UnexpectedType(value_type(v)))),
        },
        MetaItem::List(_, _) => Err(one(ErrorKind::UnsupportedFormat(Format::List))),
        MetaItem::Malformed(_, e) => Err(one(ErrorKind::Syntax(e))),
        _ => Err(one(ErrorKind::UnsupportedFormat(Format::Word))),
    }
}

/// A scheduler named by a string: `"random"`, `"pct"` or `"dfs"`
pub open spec fn scheduler_from_string(s: String) -> Result<Scheduler, Seq<(ErrorKind, Seq<Field>)>> {
    if s@ == "random"@ {
        Ok(Scheduler::Random)
    } else if s@ == "pct"@ {
        Ok(Scheduler::Pct)
    } else if s@ == "dfs"@ {
        Ok(Scheduler::Dfs)
    } else if s@ == "replay"@ {
        Err(one(ErrorKind::UnsupportedFormat(Format::Literal)))
    } else {
        Err(one(ErrorKind::UnknownValue(s)))
    }
}

/// A scheduler given in a list: exactly one item, a variant name as a word, or
/// `replay = "..."`
pub open spec fn scheduler_from_list(items: Seq<MetaItem>) -> Result<Scheduler, Seq<(ErrorKind, Seq<Field>)>> {
    if items.len() == 0 {
        Err(one(ErrorKind::TooFewItems))
    } else if items.len() > 1 {
        Err(one(ErrorKind::TooManyItems))
    } else {
        let m = items[0];
        if m is Lit {
            Err(one(ErrorKind::UnsupportedFormat(Format::Literal)))
        } else {
            let n = item_name(m);
            if n@ == "random"@ || n@ == "pct"@ || n@ == "dfs"@ {
                if m is Path {
                    Ok(
                        if n@ == "random"@ {
                            Scheduler::Random
                        } else if n@ == "pct"@ {
                            Scheduler::Pct
                        } else {
                            Scheduler::Dfs
                        },
                    )
                } else {
                    Err(one(ErrorKind::UnsupportedFormat(Format::NonPath)))
                }
            } else if n@ == "replay"@ {
                match string_from_meta(m) {
                    Ok(s) => Ok(Scheduler::Replay(s)),
                    Err(e) => Err(located(e, Field::Replay)),
                }
            } else {
                Err(one(ErrorKind::UnknownField { name: n, expected: Known::Scheduler }))
            }
        }
    }
}

/// A scheduler: `scheduler = "pct"` or `scheduler(replay = "...")`
pub open spec fn scheduler_from_meta(m: MetaItem) -> Result<Scheduler, Seq<(ErrorKind, Seq<Field>)>> {
    match m {
        MetaItem::NameValue(_, v) => match v {
            Value::Lit(Lit::Str(s)) => scheduler_from_string(s),
            _ => Err(one(ErrorKind::UnexpectedType(value_type(v)))),
        },
        MetaItem::List(_, items) => scheduler_from_list(items@),
        MetaItem::Malformed(_, e) => Err(one(ErrorKind::Syntax(e))),
        _ => Err(one(ErrorKind::UnsupportedFormat(Format::Word))),
    }
}

/// The field of `ShuttleArgs` named `n`
pub open spec fn shuttle_field(n: Seq<char>) -> Option<Field> {
    if n == "scheduler"@ {
        Some(Field::Scheduler)
    } else if n == "iters"@ {
        Some(Field::Iters)
    } else if n == "depth"@ {
        Some(Field::Depth)
    } else {
        None
    }
}

/// The field of `ModeledTestArgs` named `n`
pub open spec fn modeled_field(n: Seq<char>) -> Option<Field> {
    if n == "notest"@ {
        Some(Field::Notest)
    } else if n == "shuttle"@ {
        Some(Field::Shuttle)
    } else {
        None
    }
}

/// Which argument shape a list of fields belongs to
pub open spec fn field_of(shape: Known, n: Seq<char>) -> Option<Field> {
    match shape {
        Known::ShuttleArgs => shuttle_field(n),
        _ => modeled_field(n),
    }
}

/// Item `i` of `items` names field `f` of `shape`
pub open spec fn names_field(shape: Known, items: Seq<MetaItem>, i: int, f: Field) -> bool {
    !(items[i] is Lit) && field_of(shape, item_name(items[i])@) == Some(f)
}

/// Some item before `i` names field `f` of `shape`
pub open spec fn named_before(shape: Known, items: Seq<MetaItem>, i: int, f: Field) -> bool {
    exists|j: int| 0 <= j < i && #[trigger] names_field(shape, items, j, f)
}

/// The first item that names field `f` of `shape`
pub open spec fn first_naming(shape: Known, items: Seq<MetaItem>, f: Field) -> Option<int> {
    if named_before(shape, items, items.len() as int, f) {
        Some(choose|j: int| 0 <= j < items.len() && names_field(shape, items, j, f) && !named_before(shape, items, j, f))
    } else {
        None
    }
}

/// `ShuttleArgs` read from a `shuttle(...)` item
pub open spec fn shuttle_from_meta(m: MetaItem) -> Result<ShuttleArgs, Seq<(ErrorKind, Seq<Field>)>> {
    match m {
        MetaItem::List(_, items) => shuttle_from_list(items@),
        MetaItem::NameValue(_, v) => Err(one(ErrorKind::UnexpectedType(value_type(v)))),
        MetaItem::Malformed(_, e) => Err(one(ErrorKind::Syntax(e))),
        _ => Err(one(ErrorKind::UnsupportedFormat(Format::Word))),
    }
}

/// The errors of `r`, found under field `f`
pub open spec fn errors_under<V>(r: Result<V, Seq<(ErrorKind, Seq<Field>)>>, f: Field) -> Seq<(ErrorKind, Seq<Field>)> {
    match r {
        Ok(_) => Seq::empty(),
        Err(e) => located(e, f),
    }
}

/// The errors that reading field `f` of `ShuttleArgs` from `m` yields
pub open spec fn shuttle_field_errors(f: Field, m: MetaItem) -> Seq<(ErrorKind, Seq<Field>)> {
    if f == Field::Scheduler {
        errors_under(scheduler_from_meta(m), f)
    } else {
        errors_under(usize_from_meta(m), f)
    }
}

/// The errors that reading field `f` of `ModeledTestArgs` from `m` yields
pub open spec fn modeled_field_errors(f: Field, m: MetaItem) -> Seq<(ErrorKind, Seq<Field>)> {
    if f == Field::Notest {
        errors_under(bool_from_meta(m), f)
    } else {
        errors_under(shuttle_from_meta(m), f)
    }
}

/// The errors that item `i` of a list for `shape` yields, where `read` gives the errors of a
/// known field's value
pub open spec fn item_errors(
    shape: Known,
    items: Seq<MetaItem>,
    i: int,
    read: spec_fn(Field, MetaItem) -> Seq<(ErrorKind, Seq<Field>)>,
) -> Seq<(ErrorKind, Seq<Field>)> {
    let m = items[i];
    if m is Lit {
        one(ErrorKind::UnsupportedFormat(Format::Literal))
    } else {
        match field_of(shape, item_name(m)@) {
            None => one(ErrorKind::UnknownField { name: item_name(m), expected: shape }),
            Some(f) => if named_before(shape, items, i, f) {
                one(ErrorKind::DuplicateField(f))
            } else {
                read(f, m)
            },
        }
    }
}

/// The errors that the first `n` items of a list for `shape` yield, in order
pub open spec fn list_errors(
    shape: Known,
    items: Seq<MetaItem>,
    n: int,
    read: spec_fn(Field, MetaItem) -> Seq<(ErrorKind, Seq<Field>)>,
) -> Seq<(ErrorKind, Seq<Field>)>
    decreases n,
{
    if n <= 0 {
        Seq::empty()
    } else {
        list_errors(shape, items, n - 1, read) + item_errors(shape, items, n - 1, read)
    }
}

/// The value of a field given by the first item naming it, or `default` when none does
pub open spec fn field_value<V>(shape: Known, items: Seq<MetaItem>, f: Field, default: V, read: spec_fn(MetaItem) -> V) -> V {
    match first_naming(shape, items, f) {
        Some(j) => read(items[j]),
        None => default,
    }
}

/// The errors of the fields of `ShuttleArgs`
pub open spec fn shuttle_reader() -> spec_fn(Field, MetaItem) -> Seq<(ErrorKind, Seq<Field>)> {
    |f: Field, m: MetaItem| shuttle_field_errors(f, m)
}

/// The errors of the fields of `ModeledTestArgs`
pub open spec fn modeled_reader() -> spec_fn(Field, MetaItem) -> Seq<(ErrorKind, Seq<Field>)> {
    |f: Field, m: MetaItem| modeled_field_errors(f, m)
}

/// `ShuttleArgs` read from a list of items
pub open spec fn shuttle_from_list(items: Seq<MetaItem>) -> Result<ShuttleArgs, Seq<(ErrorKind, Seq<Field>)>> {
    let errs = list_errors(Known::ShuttleArgs, items, items.len() as int, shuttle_reader());
    if errs.len() == 0 {
        Ok(ShuttleArgs {
            scheduler: field_value(Known::ShuttleArgs, items, Field::Scheduler, Scheduler::Random, |m: MetaItem| scheduler_from_meta(m)->Ok_0),
            iters: field_value(Known::ShuttleArgs, items, Field::Iters, None, |m: MetaItem| Some(usize_from_meta(m)->Ok_0)),
            depth: field_value(Known::ShuttleArgs, items, Field::Depth, None, |m: MetaItem| Some(usize_from_meta(m)->Ok_0)),
        })
    } else {
        Err(errs)
    }
}

} // verus!

verus! {

/// The default shuttle options: random scheduling with the checker's default counts
pub open spec fn default_shuttle() -> ShuttleArgs {
    ShuttleArgs { scheduler: Scheduler::Random, iters: None, depth: None }
}

/// `ModeledTestArgs` read from a list of items
pub open spec fn modeled_from_list(items: Seq<MetaItem>) -> Result<ModeledTestArgs, Seq<(ErrorKind, Seq<Field>)>> {
    let errs = list_errors(Known::ModeledTestArgs, items, items.len() as int, modeled_reader());
    if errs.len() == 0 {
        Ok(ModeledTestArgs {
            notest: field_value(Known::ModeledTestArgs, items, Field::Notest, false, |m: MetaItem| bool_from_meta(m)->Ok_0),
            shuttle: field_value(Known::ModeledTestArgs, items, Field::Shuttle, default_shuttle(), |m: MetaItem| shuttle_from_meta(m)->Ok_0),
        })
    } else {
        Err(errs)
    }
}

/// `UnmodeledTestArgs` read from a list of items: the same options as `ModeledTestArgs`, checked
/// the same way; only `notest` matters for a test that is not modeled
pub open spec fn unmodeled_from_list(items: Seq<MetaItem>) -> Result<UnmodeledTestArgs, Seq<(ErrorKind, Seq<Field>)>> {
    match modeled_from_list(items) {
        Ok(a) => Ok(UnmodeledTestArgs { notest: a.notest }),
        Err(e) => Err(e),
    }
}

/// `r` is the result `s` describes, with its errors taken by their views
pub open spec fn matches_result<V>(r: Result<V, Vec<MetaError>>, s: Result<V, Seq<(ErrorKind, Seq<Field>)>>) -> bool {
    match (r, s) {
        (Ok(a), Ok(b)) => a == b,
        (Err(e), Err(f)) => views(e@) == f,
        _ => false,
    }
}

/// The value of a successful read, if it was
pub open spec fn ok_value<V>(r: Result<V, Seq<(ErrorKind, Seq<Field>)>>) -> Option<V> {
    match r {
        Ok(v) => Some(v),
        Err(_) => None,
    }
}

/// What the scan of the first `i` items knows of field `f`: whether an item named it, and the
/// value read from the first such item when the read succeeded
pub open spec fn field_state<V>(
    shape: Known,
    items: Seq<MetaItem>,
    i: int,
    f: Field,
    seen: bool,
    value: Option<V>,
    read: spec_fn(MetaItem) -> Result<V, Seq<(ErrorKind, Seq<Field>)>>,
) -> bool {
    &&& seen == named_before(shape, items, i, f)
    &&& seen ==> value == ok_value(read(items[first_naming(shape, items, f)->Some_0]))
    &&& !seen ==> value is None
}

proof fn lemma_named_before_step(shape: Known, items: Seq<MetaItem>, i: int, f: Field)
    requires
        0 <= i < items.len(),
    ensures
        named_before(shape, items, i + 1, f) == (named_before(shape, items, i, f) || names_field(
            shape,
            items,
            i,
            f,
        )),
{
    if named_before(shape, items, i + 1, f) && !names_field(shape, items, i, f) {
        let j = choose|j: int| 0 <= j < i + 1 && #[trigger] names_field(shape, items, j, f);
        assert(j < i);
    }
}

proof fn lemma_first_naming(shape: Known, items: Seq<MetaItem>, f: Field, j: int)
    requires
        0 <= j < items.len(),
        names_field(shape, items, j, f),
        !named_before(shape, items, j, f),
    ensures
        first_naming(shape, items, f) == Some(j),
{
    assert(named_before(shape, items, items.len() as int, f));
    let k = choose|k: int| 0 <= k < items.len() && names_field(shape, items, k, f) && !named_before(shape, items, k, f);
    if k < j {
        assert(named_before(shape, items, j, f));
    } else if j < k {
        assert(named_before(shape, items, k, f));
    }
}

proof fn lemma_first_naming_within(shape: Known, items: Seq<MetaItem>, f: Field, i: int)
    requires
        0 <= i <= items.len(),
        named_before(shape, items, i, f),
    ensures
        first_naming(shape, items, f) is Some,
        0 <= first_naming(shape, items, f)->Some_0 < i,
        names_field(shape, items, first_naming(shape, items, f)->Some_0, f),
        !named_before(shape, items, first_naming(shape, items, f)->Some_0, f),
    decreases i,
{
    let j = choose|j: int| 0 <= j < i && #[trigger] names_field(shape, items, j, f);
    if named_before(shape, items, j, f) {
        lemma_first_naming_within(shape, items, f, j);
    } else {
        lemma_first_naming(shape, items, f, j);
    }
}

proof fn lemma_state_step<V>(
    shape: Known,
    items: Seq<MetaItem>,
    i: int,
    f: Field,
    seen: bool,
    value: Option<V>,
    read: spec_fn(MetaItem) -> Result<V, Seq<(ErrorKind, Seq<Field>)>>,
)
    requires
        0 <= i < items.len(),
        field_state(shape, items, i, f, seen, value, read),
    ensures
        !names_field(shape, items, i, f) ==> field_state(shape, items, i + 1, f, seen, value, read),
        names_field(shape, items, i, f) && seen ==> field_state(shape, items, i + 1, f, seen, value, read),
        names_field(shape, items, i, f) && !seen ==> field_state(
            shape,
            items,
            i + 1,
            f,
            true,
            ok_value(read(items[i])),
            read,
        ),
{
    lemma_named_before_step(shape, items, i, f);
    if names_field(shape, items, i, f) && !seen {
        lemma_first_naming(shape, items, f, i);
    }
}

proof fn lemma_list_errors_len(
    shape: Known,
    items: Seq<MetaItem>,
    n: int,
    read: spec_fn(Field, MetaItem) -> Seq<(ErrorKind, Seq<Field>)>,
    i: int,
)
    requires
        0 <= i < n,
    ensures
        list_errors(shape, items, n, read).len() >= item_errors(shape, items, i, read).len(),
    decreases n,
{
    if i < n - 1 {
        lemma_list_errors_len(shape, items, n - 1, read, i);
    }
}

proof fn lemma_readers_fail_loudly(m: MetaItem)
    ensures
        bool_from_meta(m) is Err ==> bool_from_meta(m)->Err_0.len() > 0,
        usize_from_meta(m) is Err ==> usize_from_meta(m)->Err_0.len() > 0,
        string_from_meta(m) is Err ==> string_from_meta(m)->Err_0.len() > 0,
        scheduler_from_meta(m) is Err ==> scheduler_from_meta(m)->Err_0.len() > 0,
        shuttle_from_meta(m) is Err ==> shuttle_from_meta(m)->Err_0.len() > 0,
{
    if let MetaItem::List(_, items) = m {
        let s = items@;
        if s.len() == 1 && !(s[0] is Lit) {
            let n = item_name(s[0]);
            if n@ == "replay"@ {
                assert(string_from_meta(s[0]) is Err ==> string_from_meta(s[0])->Err_0.len() > 0);
            }
        }
    }
}

/// Whether `n` is the text `lit`
fn is_named(n: &String, lit: &str) -> (r: bool)
    ensures
        r == (n@ == lit@),
{
    *n == lit.to_owned()
}

/// The name of an item that is not a bare literal
fn name_of(m: &MetaItem) -> (r: &String)
    requires
        !(m is Lit),
    ensures
        *r == item_name(*m),
{
    match m {
        MetaItem::Path(n) => n,
        MetaItem::List(n, _) => n,
        MetaItem::Malformed(n, _) => n,
        MetaItem::NameValue(n, _) => n,
        MetaItem::Lit(_) => unreached(),
    }
}

/// One error at the place being read
fn error(kind: ErrorKind) -> (r: Vec<MetaError>)
    ensures
        views(r@) == one(kind),
{
    let r = vec![MetaError { kind, locations: Vec::new() }];
    proof {
        assert(views(r@) =~= one(kind));
    }
    r
}

/// Record that `errs` were found under field `f`
fn locate(errs: &mut Vec<MetaError>, f: Field)
    ensures
        views(final(errs)@) == located(views(old(errs)@), f),
{
    let n = errs.len();
    let mut i: usize = 0;
    while i < n
        invariant
            0 <= i <= n,
            n == errs.len(),
            errs@.len() == old(errs)@.len(),
            forall|k: int| 0 <= k < i ==> #[trigger] errs@[k]@ == (old(errs)@[k]@.0, seq![f] + old(errs)@[k]@.1),
            forall|k: int| i <= k < n ==> #[trigger] errs@[k] == old(errs)@[k],
        decreases n - i,
    {
        errs[i].locations.insert(0, f);
        proof {
            assert(errs@[i as int]@.1 =~= seq![f] + old(errs)@[i as int]@.1);
        }
        i = i + 1;
    }
    proof {
        assert(views(errs@) =~= located(views(old(errs)@), f));
    }
}

proof fn lemma_digits_value_grows(d: Seq<char>, j: int)
    requires
        0 <= j <= d.len(),
        forall|i: int| 0 <= i < d.len() ==> '0' <= #[trigger] d[i] <= '9',
    ensures
        0 <= digits_value(d.subrange(0, j)) <= digits_value(d),
    decreases d.len(),
{
    if d.len() > 0 {
        if j == d.len() {
            assert(d.subrange(0, j) =~= d);
            lemma_digits_value_grows(d.drop_last(), j - 1);
            assert(d.drop_last().subrange(0, j - 1) =~= d.drop_last());
        } else {
            lemma_digits_value_grows(d.drop_last(), j);
            assert(d.drop_last().subrange(0, j) =~= d.subrange(0, j));
            assert(d.drop_last().subrange(0, d.len() - 1) =~= d.drop_last());
            lemma_digits_value_grows(d.drop_last(), d.len() - 1);
        }
    }
}

/// The value that `str::parse::<usize>` reads from `s`, if any: an optional `+`, then one or more
/// ASCII digits whose value fits in a `usize`
fn parse_usize(s: &String) -> (r: Option<usize>)
    ensures
        r == parsed_usize(s@),
{
    let t = s.as_str();
    let n = t.unicode_len();
    let mut i: usize = 0;
    if n > 0 && t.get_char(0) == '+' {
        i = 1;
    }
    let start = i;
    let ghost d = if s@.len() > 0 && s@[0] == '+' {
        s@.drop_first()
    } else {
        s@
    };
    proof {
        assert(d =~= s@.subrange(start as int, n as int));
    }
    if i == n {
        return None;
    }
    let mut value: usize = 0;
    while i < n
        invariant
            start <= i <= n,
            n == s@.len(),
            t@ == s@,
            d == s@.subrange(start as int, n as int),
            d == (if s@.len() > 0 && s@[0] == '+' {
                s@.drop_first()
            } else {
                s@
            }),
            forall|k: int| 0 <= k < i - start ==> '0' <= #[trigger] d[k] <= '9',
            value == digits_value(d.subrange(0, i - start)),
        decreases n - i,
    {
        let c = t.get_char(i);
        proof {
            assert(c == d[i - start]);
        }
        if c < '0' || c > '9' {
            proof {
                assert(!all_digits(d));
                assert(parsed_usize(s@) is None);
            }
            return None;
        }
        let digit = (c as u32 - 48u32) as usize;
        proof {
            let p = d.subrange(0, i - start + 1);
            assert(p.drop_last() =~= d.subrange(0, i - start));
            assert(p.last() == c);
        }
        let shifted = match value.checked_mul(10) {
            Some(v) => v,
            None => {
                proof {
                    let p = d.subrange(0, i - start + 1);
                    assert(digits_value(p) == value * 10 + (c as int - '0' as int));
                    assert(digits_value(p) > usize::MAX);
                    if all_digits(d) {
                        lemma_digits_value_grows(d, i - start + 1);
                    }
                    assert(parsed_usize(s@) is None);
                }
                return None;
            },
        };
        match shifted.checked_add(digit) {
            Some(v) => {
                value = v;
            },
            None => {
                proof {
                    let p = d.subrange(0, i - start + 1);
                    assert(digits_value(p) == shifted + (c as int - '0' as int));
                    assert(digits_value(p) > usize::MAX);
                    if all_digits(d) {
                        lemma_digits_value_grows(d, i - start + 1);
                    }
                    assert(parsed_usize(s@) is None);
                }
                return None;
            },
        }
        i = i + 1;
    }
    proof {
        assert(d.subrange(0, i - start) =~= d);
    }
    Some(value)
}

/// The kind of a value that a place does not accept
fn value_type_of(v: &Value) -> (r: LitType)
    ensures
        r == value_type(*v),
{
    match v {
        Value::Lit(Lit::Str(_)) => LitType::Str,
        Value::Lit(Lit::Int(_)) => LitType::Int,
        Value::Lit(Lit::Bool(_)) => LitType::Bool,
        Value::Lit(Lit::Char(_)) => LitType::Char,
        Value::Lit(Lit::Other(k)) => LitType::Named(k.clone()),
        Value::Expr(k) => LitType::Named(k.clone()),
    }
}

fn read_bool(m: &MetaItem) -> (r: Result<bool, Vec<MetaError>>)
    requires
        !(m is Lit),
    ensures
        matches_result(r, bool_from_meta(*m)),
{
    match m {
        MetaItem::NameValue(_, v) => match v {
            Value::Lit(Lit::Bool(b)) => Ok(*b),
            Value::Lit(Lit::Str(s)) => {
                if is_named(s, "true") {
                    Ok(true)
                } else if is_named(s, "false") {
                    Ok(false)
                } else {
                    Err(error(ErrorKind::UnknownValue(s.clone())))
                }
            },
            _ => Err(error(ErrorKind::UnexpectedType(value_type_of(v)))),
        },
        MetaItem::List(_, _) => Err(error(ErrorKind::UnsupportedFormat(Format::List))),
        MetaItem::Malformed(_, e) => Err(error(ErrorKind::Syntax(e.clone()))),
        _ => Ok(true),
    }
}

fn read_usize(m: &MetaItem) -> (r: Result<Option<usize>, Vec<MetaError>>)
    requires
        !(m is Lit),
    ensures
        matches_result(
            r,
            match usize_from_meta(*m) {
                Ok(n) => Ok(Some(n)),
                Err(e) => Err(e),
            },
        ),
{
    match m {
        MetaItem::NameValue(_, v) => match v {
            Value::Lit(Lit::Str(s)) => match parse_usize(s) {
                Some(n) => Ok(Some(n)),
                None => Err(error(ErrorKind::UnknownValue(s.clone()))),
            },
            Value::Lit(Lit::Int(d)) => match parse_usize(d) {
                Some(n) => Ok(Some(n)),
                None => Err(error(ErrorKind::IntTooLarge)),
            },
            _ => Err(error(ErrorKind::UnexpectedType(value_type_of(v)))),
        },
        MetaItem::List(_, _) => Err(error(ErrorKind::UnsupportedFormat(Format::List))),
        MetaItem::Malformed(_, e) => Err(error(ErrorKind::Syntax(e.clone()))),
        _ => Err(error(ErrorKind::UnsupportedFormat(Format::Word))),
    }
}

fn read_string(m: &MetaItem) -> (r: Result<String, Vec<MetaError>>)
    requires
        !(m is Lit),
    ensures
        matches_result(r, string_from_meta(*m)),
{
    match m {
        MetaItem::NameValue(_, v) => match v {
            Value::Lit(Lit::Str(s)) => Ok(s.clone()),
            _ => Err(error(ErrorKind::UnexpectedType(value_type_of(v)))),
        },
        MetaItem::List(_, _) => Err(error(ErrorKind::UnsupportedFormat(Format::List))),
        MetaItem::Malformed(_, e) => Err(error(ErrorKind::Syntax(e.clone()))),
        _ => Err(error(ErrorKind::UnsupportedFormat(Format::Word))),
    }
}

impl Scheduler {
    /// Read a scheduler from the string it is named by
    pub fn from_string(s: &String) -> (r: Result<Scheduler, Vec<MetaError>>)
        ensures
            matches_result(r, scheduler_from_string(*s)),
    {
        if is_named(s, "random") {
            Ok(Scheduler::Random)
        } else if is_named(s, "pct") {
            Ok(Scheduler::Pct)
        } else if is_named(s, "dfs") {
            Ok(Scheduler::Dfs)
        } else if is_named(s, "replay") {
            Err(error(ErrorKind::UnsupportedFormat(Format::Literal)))
        } else {
            Err(error(ErrorKind::UnknownValue(s.clone())))
        }
    }

    /// Read a scheduler from the items of `scheduler(...)`
    pub fn from_list(items: &[MetaItem]) -> (r: Result<Scheduler, Vec<MetaError>>)
        ensures
            matches_result(r, scheduler_from_list(items@)),
    {
        if items.len() == 0 {
            return Err(error(ErrorKind::TooFewItems));
        }
        if items.len() > 1 {
            return Err(error(ErrorKind::TooManyItems));
        }
        let m = &items[0];
        if let MetaItem::Lit(_) = m {
            return Err(error(ErrorKind::UnsupportedFormat(Format::Literal)));
        }
        let n = name_of(m);
        if is_named(n, "random") || is_named(n, "pct") || is_named(n, "dfs") {
            if let MetaItem::Path(_) = m {
                if is_named(n, "random") {
                    Ok(Scheduler::Random)
                } else if is_named(n, "pct") {
                    Ok(Scheduler::Pct)
                } else {
                    Ok(Scheduler::Dfs)
                }
            } else {
                Err(error(ErrorKind::UnsupportedFormat(Format::NonPath)))
            }
        } else if is_named(n, "replay") {
            match read_string(m) {
                Ok(s) => Ok(Scheduler::Replay(s)),
                Err(mut e) => {
                    locate(&mut e, Field::Replay);
                    Err(e)
                },
            }
        } else {
            Err(error(ErrorKind::UnknownField { name: n.clone(), expected: Known::Scheduler }))
        }
    }

    /// Read a scheduler from a `scheduler = "..."` or `scheduler(...)` item
    pub fn from_meta(m: &MetaItem) -> (r: Result<Scheduler, Vec<MetaError>>)
        requires
            !(m is Lit),
        ensures
            matches_result(r, scheduler_from_meta(*m)),
    {
        match m {
            MetaItem::NameValue(_, v) => match v {
                Value::Lit(Lit::Str(s)) => Scheduler::from_string(s),
                _ => Err(error(ErrorKind::UnexpectedType(value_type_of(v)))),
            },
            MetaItem::List(_, items) => Scheduler::from_list(items.as_slice()),
            MetaItem::Malformed(_, e) => Err(error(ErrorKind::Syntax(e.clone()))),
            _ => Err(error(ErrorKind::UnsupportedFormat(Format::Word))),
        }
    }
}

} // verus!

verus! {

/// A count read as an optional field value
pub open spec fn count_from_meta(m: MetaItem) -> Result<Option<usize>, Seq<(ErrorKind, Seq<Field>)>> {
    match usize_from_meta(m) {
        Ok(n) => Ok(Some(n)),
        Err(e) => Err(e),
    }
}

/// How the value of the scheduler field is read
pub open spec fn scheduler_value_reader() -> spec_fn(MetaItem) -> Result<Scheduler, Seq<(ErrorKind, Seq<Field>)>> {
    |m: MetaItem| scheduler_from_meta(m)
}

/// How the value of a count field is read
pub open spec fn count_value_reader() -> spec_fn(MetaItem) -> Result<Option<usize>, Seq<(ErrorKind, Seq<Field>)>> {
    |m: MetaItem| count_from_meta(m)
}

proof fn lemma_clean_read(
    shape: Known,
    items: Seq<MetaItem>,
    f: Field,
    read: spec_fn(Field, MetaItem) -> Seq<(ErrorKind, Seq<Field>)>,
)
    requires
        list_errors(shape, items, items.len() as int, read).len() == 0,
        named_before(shape, items, items.len() as int, f),
    ensures
        first_naming(shape, items, f) is Some,
        0 <= first_naming(shape, items, f)->Some_0 < items.len(),
        read(f, items[first_naming(shape, items, f)->Some_0]).len() == 0,
{
    lemma_first_naming_within(shape, items, f, items.len() as int);
    let j = first_naming(shape, items, f)->Some_0;
    lemma_list_errors_len(shape, items, items.len() as int, read, j);
}

impl Default for ShuttleArgs {
    /// Random scheduling with the checker's default counts
    fn default() -> (r: Self)
        ensures
            r == default_shuttle(),
    {
        ShuttleArgs { scheduler: Scheduler::Random, iters: None, depth: None }
    }
}

impl ShuttleArgs {
    /// Read shuttle options from the items of `shuttle(...)`
    pub fn from_list(items: &[MetaItem]) -> (r: Result<ShuttleArgs, Vec<MetaError>>)
        ensures
            matches_result(r, shuttle_from_list(items@)),
    {
        let mut errs: Vec<MetaError> = Vec::new();
        let mut seen_s = false;
        let mut val_s: Option<Scheduler> = None;
        let mut seen_i = false;
        let mut val_i: Option<Option<usize>> = None;
        let mut seen_d = false;
        let mut val_d: Option<Option<usize>> = None;
        let mut i: usize = 0;
        while i < items.len()
            invariant
                0 <= i <= items@.len(),
                views(errs@) == list_errors(Known::ShuttleArgs, items@, i as int, shuttle_reader()),
                field_state(Known::ShuttleArgs, items@, i as int, Field::Scheduler, seen_s, val_s, scheduler_value_reader()),
                field_state(Known::ShuttleArgs, items@, i as int, Field::Iters, seen_i, val_i, count_value_reader()),
                field_state(Known::ShuttleArgs, items@, i as int, Field::Depth, seen_d, val_d, count_value_reader()),
            decreases items@.len() - i,
        {
            let m = &items[i];
            proof {
                lemma_state_step(Known::ShuttleArgs, items@, i as int, Field::Scheduler, seen_s, val_s, scheduler_value_reader());
                lemma_state_step(Known::ShuttleArgs, items@, i as int, Field::Iters, seen_i, val_i, count_value_reader());
                lemma_state_step(Known::ShuttleArgs, items@, i as int, Field::Depth, seen_d, val_d, count_value_reader());
            }
            let ghost before = views(errs@);
            let mut found: Vec<MetaError>;
            if let MetaItem::Lit(_) = m {
                found = error(ErrorKind::UnsupportedFormat(Format::Literal));
            } else {
                let n = name_of(m);
                proof {
                    assert(item_name(items@[i as int]) == *n);
                }
                if is_named(n, "scheduler") {
                    proof {
                        assert(names_field(Known::ShuttleArgs, items@, i as int, Field::Scheduler));
                        assert(!names_field(Known::ShuttleArgs, items@, i as int, Field::Iters));
                        assert(!names_field(Known::ShuttleArgs, items@, i as int, Field::Depth));
                        assert(shuttle_reader()(Field::Scheduler, *m) == errors_under(scheduler_from_meta(*m), Field::Scheduler));
                    }
                    if seen_s {
                        found = error(ErrorKind::DuplicateField(Field::Scheduler));
                    } else {
                        seen_s = true;
                        found = Vec::new();
                        match Scheduler::from_meta(m) {
                            Ok(v) => val_s = Some(v),
                            Err(e) => {
                                found = e;
                                locate(&mut found, Field::Scheduler);
                            },
                        }
                    }
                } else if is_named(n, "iters") {
                    proof {
                        assert(!names_field(Known::ShuttleArgs, items@, i as int, Field::Scheduler));
                        assert(names_field(Known::ShuttleArgs, items@, i as int, Field::Iters));
                        assert(!names_field(Known::ShuttleArgs, items@, i as int, Field::Depth));
                        assert(shuttle_reader()(Field::Iters, *m) == errors_under(usize_from_meta(*m), Field::Iters));
                    }
                    if seen_i {
                        found = error(ErrorKind::DuplicateField(Field::Iters));
                    } else {
                        seen_i = true;
                        found = Vec::new();
                        match read_usize(m) {
                            Ok(v) => val_i = Some(v),
                            Err(e) => {
                                found = e;
                                locate(&mut found, Field::Iters);
                            },
                        }
                    }
                } else if is_named(n, "depth") {
                    proof {
                        assert(!names_field(Known::ShuttleArgs, items@, i as int, Field::Scheduler));
                        assert(!names_field(Known::ShuttleArgs, items@, i as int, Field::Iters));
                        assert(names_field(Known::ShuttleArgs, items@, i as int, Field::Depth));
                        assert(shuttle_reader()(Field::Depth, *m) == errors_under(usize_from_meta(*m), Field::Depth));
                    }
                    if seen_d {
                        found = error(ErrorKind::DuplicateField(Field::Depth));
                    } else {
                        seen_d = true;
                        found = Vec::new();
                        match read_usize(m) {
                            Ok(v) => val_d = Some(v),
                            Err(e) => {
                                found = e;
                                locate(&mut found, Field::Depth);
                            },
                        }
                    }
                } else {
                    found = error(ErrorKind::UnknownField { name: n.clone(), expected: Known::ShuttleArgs });
                }
            }
            proof {
                assert(views(found@) == item_errors(Known::ShuttleArgs, items@, i as int, shuttle_reader()));
            }
            errs.append(&mut found);
            proof {
                assert(views(errs@) =~= before + item_errors(Known::ShuttleArgs, items@, i as int, shuttle_reader()));
            }
            i = i + 1;
        }
        if errs.len() == 0 {
            proof {
                let s = items@;
                if seen_s {
                    lemma_clean_read(Known::ShuttleArgs, s, Field::Scheduler, shuttle_reader());
                    lemma_readers_fail_loudly(s[first_naming(Known::ShuttleArgs, s, Field::Scheduler)->Some_0]);
                }
                if seen_i {
                    lemma_clean_read(Known::ShuttleArgs, s, Field::Iters, shuttle_reader());
                    lemma_readers_fail_loudly(s[first_naming(Known::ShuttleArgs, s, Field::Iters)->Some_0]);
                }
                if seen_d {
                    lemma_clean_read(Known::ShuttleArgs, s, Field::Depth, shuttle_reader());
                    lemma_readers_fail_loudly(s[first_naming(Known::ShuttleArgs, s, Field::Depth)->Some_0]);
                }
            }
            let scheduler = match val_s {
                Some(v) => v,
                None => Scheduler::Random,
            };
            let iters = match val_i {
                Some(v) => v,
                None => None,
            };
            let depth = match val_d {
                Some(v) => v,
                None => None,
            };
            Ok(ShuttleArgs { scheduler, iters, depth })
        } else {
            Err(errs)
        }
    }

    /// Read shuttle options from a `shuttle(...)` item
    pub fn from_meta(m: &MetaItem) -> (r: Result<ShuttleArgs, Vec<MetaError>>)
        requires
            !(m is Lit),
        ensures
            matches_result(r, shuttle_from_meta(*m)),
    {
        match m {
            MetaItem::List(_, items) => ShuttleArgs::from_list(items.as_slice()),
            MetaItem::NameValue(_, v) => Err(error(ErrorKind::UnexpectedType(value_type_of(v)))),
            MetaItem::Malformed(_, e) => Err(error(ErrorKind::Syntax(e.clone()))),
            _ => Err(error(ErrorKind::UnsupportedFormat(Format::Word))),
        }
    }
}

} // verus!

verus! {

/// How the value of the `notest` flag is read
pub open spec fn flag_value_reader() -> spec_fn(MetaItem) -> Result<bool, Seq<(ErrorKind, Seq<Field>)>> {
    |m: MetaItem| bool_from_meta(m)
}

/// How the value of the `shuttle` field is read
pub open spec fn shuttle_value_reader() -> spec_fn(MetaItem) -> Result<ShuttleArgs, Seq<(ErrorKind, Seq<Field>)>> {
    |m: MetaItem| shuttle_from_meta(m)
}

impl Default for Scheduler {
    /// Random scheduling
    fn default() -> (r: Self)
        ensures
            r == Scheduler::Random,
    {
        Scheduler::Random
    }
}

impl Default for ModeledTestArgs {
    /// A `#[test]` function modeled with the default shuttle options
    fn default() -> (r: Self)
        ensures
            r == (ModeledTestArgs { notest: false, shuttle: default_shuttle() }),
    {
        ModeledTestArgs { notest: false, shuttle: ShuttleArgs::default() }
    }
}

impl Default for UnmodeledTestArgs {
    /// A `#[test]` function
    fn default() -> (r: Self)
        ensures
            r == (UnmodeledTestArgs { notest: false }),
    {
        UnmodeledTestArgs { notest: false }
    }
}

impl ModeledTestArgs {
    /// Read the arguments of `modeled_test` from its argument list
    pub fn from_list(items: &[MetaItem]) -> (r: Result<ModeledTestArgs, Vec<MetaError>>)
        ensures
            matches_result(r, modeled_from_list(items@)),
    {
        let mut errs: Vec<MetaError> = Vec::new();
        let mut seen_t = false;
        let mut val_t: Option<bool> = None;
        let mut seen_s = false;
        let mut val_s: Option<ShuttleArgs> = None;
        let mut i: usize = 0;
        while i < items.len()
            invariant
                0 <= i <= items@.len(),
                views(errs@) == list_errors(Known::ModeledTestArgs, items@, i as int, modeled_reader()),
                field_state(Known::ModeledTestArgs, items@, i as int, Field::Notest, seen_t, val_t, flag_value_reader()),
                field_state(Known::ModeledTestArgs, items@, i as int, Field::Shuttle, seen_s, val_s, shuttle_value_reader()),
            decreases items@.len() - i,
        {
            let m = &items[i];
            proof {
                lemma_state_step(Known::ModeledTestArgs, items@, i as int, Field::Notest, seen_t, val_t, flag_value_reader());
                lemma_state_step(Known::ModeledTestArgs, items@, i as int, Field::Shuttle, seen_s, val_s, shuttle_value_reader());
            }
            let ghost before = views(errs@);
            let mut found: Vec<MetaError>;
            if let MetaItem::Lit(_) = m {
                found = error(ErrorKind::UnsupportedFormat(Format::Literal));
            } else {
                let n = name_of(m);
                proof {
                    assert(item_name(items@[i as int]) == *n);
                }
                if is_named(n, "notest") {
                    proof {
                        assert(names_field(Known::ModeledTestArgs, items@, i as int, Field::Notest));
                        assert(!names_field(Known::ModeledTestArgs, items@, i as int, Field::Shuttle));
                        assert(modeled_reader()(Field::Notest, *m) == errors_under(bool_from_meta(*m), Field::Notest));
                    }
                    if seen_t {
                        found = error(ErrorKind::DuplicateField(Field::Notest));
                    } else {
                        seen_t = true;
                        found = Vec::new();
                        match read_bool(m) {
                            Ok(v) => val_t = Some(v),
                            Err(e) => {
                                found = e;
                                locate(&mut found, Field::Notest);
                            },
                        }
                    }
                } else if is_named(n, "shuttle") {
                    proof {
                        assert(!names_field(Known::ModeledTestArgs, items@, i as int, Field::Notest));
                        assert(names_field(Known::ModeledTestArgs, items@, i as int, Field::Shuttle));
                        assert(modeled_reader()(Field::Shuttle, *m) == errors_under(shuttle_from_meta(*m), Field::Shuttle));
                    }
                    if seen_s {
                        found = error(ErrorKind::DuplicateField(Field::Shuttle));
                    } else {
                        seen_s = true;
                        found = Vec::new();
                        match ShuttleArgs::from_meta(m) {
                            Ok(v) => val_s = Some(v),
                            Err(e) => {
                                found = e;
                                locate(&mut found, Field::Shuttle);
                            },
                        }
                    }
                } else {
                    found = error(ErrorKind::UnknownField { name: n.clone(), expected: Known::ModeledTestArgs });
                }
            }
            proof {
                assert(views(found@) == item_errors(Known::ModeledTestArgs, items@, i as int, modeled_reader()));
            }
            errs.append(&mut found);
            proof {
                assert(views(errs@) =~= before + item_errors(Known::ModeledTestArgs, items@, i as int, modeled_reader()));
            }
            i = i + 1;
        }
        if errs.len() == 0 {
            proof {
                let s = items@;
                if seen_t {
                    lemma_clean_read(Known::ModeledTestArgs, s, Field::Notest, modeled_reader());
                    lemma_readers_fail_loudly(s[first_naming(Known::ModeledTestArgs, s, Field::Notest)->Some_0]);
                }
                if seen_s {
                    lemma_clean_read(Known::ModeledTestArgs, s, Field::Shuttle, modeled_reader());
                    lemma_readers_fail_loudly(s[first_naming(Known::ModeledTestArgs, s, Field::Shuttle)->Some_0]);
                }
            }
            let notest = match val_t {
                Some(v) => v,
                None => false,
            };
            let shuttle = match val_s {
                Some(v) => v,
                None => ShuttleArgs::default(),
            };
            Ok(ModeledTestArgs { notest, shuttle })
        } else {
            Err(errs)
        }
    }
}

impl UnmodeledTestArgs {
    /// Read the arguments of `unmodeled_test` from its argument list
    ///
    /// It takes the options of `modeled_test` and checks them alike; `shuttle(...)` does not
    /// change a test that is not modeled.
    pub fn from_list(items: &[MetaItem]) -> (r: Result<UnmodeledTestArgs, Vec<MetaError>>)
        ensures
            matches_result(r, unmodeled_from_list(items@)),
    {
        match ModeledTestArgs::from_list(items) {
            Ok(a) => Ok(UnmodeledTestArgs { notest: a.notest }),
            Err(e) => Err(e),
        }
    }
}

} // verus!

verus! {

/// Item `i` is not a bare literal and is called `name`
pub open spec fn item_called(items: Seq<MetaItem>, i: int, name: Seq<char>) -> bool {
    !(items[i] is Lit) && item_name(items[i])@ == name
}

/// No item of `items` is called `name`
pub open spec fn none_called(items: Seq<MetaItem>, name: Seq<char>) -> bool {
    forall|i: int| 0 <= i < items.len() ==> !#[trigger] item_called(items, i, name)
}

proof fn lemma_field_names()
    ensures
        shuttle_field("scheduler"@) == Some(Field::Scheduler),
        shuttle_field("iters"@) == Some(Field::Iters),
        shuttle_field("depth"@) == Some(Field::Depth),
        modeled_field("notest"@) == Some(Field::Notest),
        modeled_field("shuttle"@) == Some(Field::Shuttle),
        forall|n: Seq<char>| #[trigger] shuttle_field(n) == Some(Field::Scheduler) ==> n == "scheduler"@,
        forall|n: Seq<char>| #[trigger] shuttle_field(n) == Some(Field::Iters) ==> n == "iters"@,
        forall|n: Seq<char>| #[trigger] shuttle_field(n) == Some(Field::Depth) ==> n == "depth"@,
        forall|n: Seq<char>| #[trigger] modeled_field(n) == Some(Field::Notest) ==> n == "notest"@,
        forall|n: Seq<char>| #[trigger] modeled_field(n) == Some(Field::Shuttle) ==> n == "shuttle"@,
{
    reveal_strlit("scheduler");
    reveal_strlit("iters");
    reveal_strlit("depth");
    reveal_strlit("notest");
    reveal_strlit("shuttle");
    assert("iters"@.len() != "scheduler"@.len());
    assert("depth"@.len() != "scheduler"@.len());
    assert("depth"@[0] != "iters"@[0]);
    assert("shuttle"@.len() != "notest"@.len());
}

/// In a list that reads without errors, an item that names a field is the only one to name it,
/// and its value reads without errors
proof fn lemma_clean_item_is_first(
    shape: Known,
    items: Seq<MetaItem>,
    read: spec_fn(Field, MetaItem) -> Seq<(ErrorKind, Seq<Field>)>,
    f: Field,
    i: int,
)
    requires
        0 <= i < items.len(),
        list_errors(shape, items, items.len() as int, read).len() == 0,
        names_field(shape, items, i, f),
    ensures
        first_naming(shape, items, f) == Some(i),
        read(f, items[i]).len() == 0,
{
    lemma_list_errors_len(shape, items, items.len() as int, read, i);
    assert(!named_before(shape, items, i, f));
    lemma_first_naming(shape, items, f, i);
}

/// A field that no item names has no first naming item
proof fn lemma_unnamed_field(shape: Known, items: Seq<MetaItem>, f: Field)
    requires
        forall|i: int| 0 <= i < items.len() ==> !#[trigger] names_field(shape, items, i, f),
    ensures
        first_naming(shape, items, f) is None,
{
    assert(!named_before(shape, items, items.len() as int, f));
}

/// A `shuttle(...)` list that reads without errors gives each field the value read from the item
/// that names it, wherever that item stands in the list
pub proof fn law_shuttle_fields_from_their_items(items: Seq<MetaItem>, i: int)
    requires
        0 <= i < items.len(),
        shuttle_from_list(items) is Ok,
    ensures
        item_called(items, i, "scheduler"@) ==> scheduler_from_meta(items[i]) is Ok
            && shuttle_from_list(items)->Ok_0.scheduler == scheduler_from_meta(items[i])->Ok_0,
        item_called(items, i, "iters"@) ==> usize_from_meta(items[i]) is Ok
            && shuttle_from_list(items)->Ok_0.iters == Some(usize_from_meta(items[i])->Ok_0),
        item_called(items, i, "depth"@) ==> usize_from_meta(items[i]) is Ok
            && shuttle_from_list(items)->Ok_0.depth == Some(usize_from_meta(items[i])->Ok_0),
{
    lemma_field_names();
    let m = items[i];
    lemma_readers_fail_loudly(m);
    if item_called(items, i, "scheduler"@) {
        lemma_clean_item_is_first(Known::ShuttleArgs, items, shuttle_reader(), Field::Scheduler, i);
    }
    if item_called(items, i, "iters"@) {
        lemma_clean_item_is_first(Known::ShuttleArgs, items, shuttle_reader(), Field::Iters, i);
    }
    if item_called(items, i, "depth"@) {
        lemma_clean_item_is_first(Known::ShuttleArgs, items, shuttle_reader(), Field::Depth, i);
    }
}

/// A `shuttle(...)` list that reads without errors and leaves a field out gives it its default:
/// the random scheduler, and no count of iterations or depth
pub proof fn law_shuttle_absent_fields_default(items: Seq<MetaItem>)
    requires
        shuttle_from_list(items) is Ok,
    ensures
        none_called(items, "scheduler"@) ==> shuttle_from_list(items)->Ok_0.scheduler == Scheduler::Random,
        none_called(items, "iters"@) ==> shuttle_from_list(items)->Ok_0.iters is None,
        none_called(items, "depth"@) ==> shuttle_from_list(items)->Ok_0.depth is None,
{
    lemma_field_names();
    if none_called(items, "scheduler"@) {
        assert forall|i: int| 0 <= i < items.len() implies !#[trigger] names_field(Known::ShuttleArgs, items, i, Field::Scheduler) by {
            assert(!item_called(items, i, "scheduler"@));
        }
        lemma_unnamed_field(Known::ShuttleArgs, items, Field::Scheduler);
    }
    if none_called(items, "iters"@) {
        assert forall|i: int| 0 <= i < items.len() implies !#[trigger] names_field(Known::ShuttleArgs, items, i, Field::Iters) by {
            assert(!item_called(items, i, "iters"@));
        }
        lemma_unnamed_field(Known::ShuttleArgs, items, Field::Iters);
    }
    if none_called(items, "depth"@) {
        assert forall|i: int| 0 <= i < items.len() implies !#[trigger] names_field(Known::ShuttleArgs, items, i, Field::Depth) by {
            assert(!item_called(items, i, "depth"@));
        }
        lemma_unnamed_field(Known::ShuttleArgs, items, Field::Depth);
    }
}

/// A `modeled_test(...)` list that reads without errors takes `notest` and `shuttle` from the
/// items that name them, wherever they stand; a bare `notest` word sets the flag
pub proof fn law_modeled_fields_from_their_items(items: Seq<MetaItem>, i: int)
    requires
        0 <= i < items.len(),
        modeled_from_list(items) is Ok,
    ensures
        item_called(items, i, "notest"@) ==> bool_from_meta(items[i]) is Ok
            && modeled_from_list(items)->Ok_0.notest == bool_from_meta(items[i])->Ok_0,
        item_called(items, i, "notest"@) && items[i] is Path ==> modeled_from_list(items)->Ok_0.notest,
        item_called(items, i, "shuttle"@) ==> shuttle_from_meta(items[i]) is Ok
            && modeled_from_list(items)->Ok_0.shuttle == shuttle_from_meta(items[i])->Ok_0,
{
    lemma_field_names();
    let m = items[i];
    lemma_readers_fail_loudly(m);
    if item_called(items, i, "notest"@) {
        lemma_clean_item_is_first(Known::ModeledTestArgs, items, modeled_reader(), Field::Notest, i);
    }
    if item_called(items, i, "shuttle"@) {
        lemma_clean_item_is_first(Known::ModeledTestArgs, items, modeled_reader(), Field::Shuttle, i);
    }
}

/// A `modeled_test(...)` list that reads without errors and leaves a field out gives it its
/// default: `#[test]` is added, and shuttle runs with its default options
pub proof fn law_modeled_absent_fields_default(items: Seq<MetaItem>)
    requires
        modeled_from_list(items) is Ok,
    ensures
        none_called(items, "notest"@) ==> !modeled_from_list(items)->Ok_0.notest,
        none_called(items, "shuttle"@) ==> modeled_from_list(items)->Ok_0.shuttle == (ShuttleArgs {
            scheduler: Scheduler::Random,
            iters: None,
            depth: None,
        }),
{
    lemma_field_names();
    if none_called(items, "notest"@) {
        assert forall|i: int| 0 <= i < items.len() implies !#[trigger] names_field(Known::ModeledTestArgs, items, i, Field::Notest) by {
            assert(!item_called(items, i, "notest"@));
        }
        lemma_unnamed_field(Known::ModeledTestArgs, items, Field::Notest);
    }
    if none_called(items, "shuttle"@) {
        assert forall|i: int| 0 <= i < items.len() implies !#[trigger] names_field(Known::ModeledTestArgs, items, i, Field::Shuttle) by {
            assert(!item_called(items, i, "shuttle"@));
        }
        lemma_unnamed_field(Known::ModeledTestArgs, items, Field::Shuttle);
    }
}

/// Each scheduler word names its own scheduler, as a string and as the single word of a
/// `scheduler(...)` list
pub proof fn law_scheduler_words(items: Seq<MetaItem>, s: String)
    ensures
        s@ == "random"@ ==> scheduler_from_string(s) == Ok::<Scheduler, Seq<(ErrorKind, Seq<Field>)>>(Scheduler::Random),
        s@ == "pct"@ ==> scheduler_from_string(s) == Ok::<Scheduler, Seq<(ErrorKind, Seq<Field>)>>(Scheduler::Pct),
        s@ == "dfs"@ ==> scheduler_from_string(s) == Ok::<Scheduler, Seq<(ErrorKind, Seq<Field>)>>(Scheduler::Dfs),
        items.len() == 1 && items[0] is Path && item_name(items[0])@ == "random"@ ==> scheduler_from_list(items)
            == Ok::<Scheduler, Seq<(ErrorKind, Seq<Field>)>>(Scheduler::Random),
        items.len() == 1 && items[0] is Path && item_name(items[0])@ == "pct"@ ==> scheduler_from_list(items)
            == Ok::<Scheduler, Seq<(ErrorKind, Seq<Field>)>>(Scheduler::Pct),
        items.len() == 1 && items[0] is Path && item_name(items[0])@ == "dfs"@ ==> scheduler_from_list(items)
            == Ok::<Scheduler, Seq<(ErrorKind, Seq<Field>)>>(Scheduler::Dfs),
{
    reveal_strlit("random");
    reveal_strlit("pct");
    reveal_strlit("dfs");
    reveal_strlit("replay");
    assert("pct"@.len() != "random"@.len());
    assert("dfs"@.len() != "random"@.len());
    assert("dfs"@[0] != "pct"@[0]);
}

/// The scheduler option reads the same choice in each of its forms: `scheduler = "pct"` and
/// `scheduler(pct)` both choose PCT, and likewise for `random` and `dfs`; `scheduler(replay = "s")`
/// replays the schedule `s`
pub proof fn law_scheduler_item_forms(m: MetaItem, items: Seq<MetaItem>)
    ensures
        m matches MetaItem::NameValue(_, Value::Lit(Lit::Str(s))) && s@ == "random"@ ==> scheduler_from_meta(m)
            == Ok::<Scheduler, Seq<(ErrorKind, Seq<Field>)>>(Scheduler::Random),
        m matches MetaItem::NameValue(_, Value::Lit(Lit::Str(s))) && s@ == "pct"@ ==> scheduler_from_meta(m)
            == Ok::<Scheduler, Seq<(ErrorKind, Seq<Field>)>>(Scheduler::Pct),
        m matches MetaItem::NameValue(_, Value::Lit(Lit::Str(s))) && s@ == "dfs"@ ==> scheduler_from_meta(m)
            == Ok::<Scheduler, Seq<(ErrorKind, Seq<Field>)>>(Scheduler::Dfs),
        m matches MetaItem::List(_, l) && l@ == items ==> scheduler_from_meta(m) == scheduler_from_list(items),
        items.len() == 1 ==> (items[0] matches MetaItem::NameValue(n, Value::Lit(Lit::Str(s))) ==> (n@ == "replay"@
            ==> scheduler_from_list(items) == Ok::<Scheduler, Seq<(ErrorKind, Seq<Field>)>>(Scheduler::Replay(s)))),
{
    reveal_strlit("random");
    reveal_strlit("pct");
    reveal_strlit("dfs");
    reveal_strlit("replay");
    assert("pct"@.len() != "random"@.len());
    assert("dfs"@.len() != "random"@.len());
    assert("dfs"@[0] != "pct"@[0]);
    assert("replay"@.len() != "pct"@.len());
    assert("replay"@.len() != "dfs"@.len());
    assert("replay"@[1] != "random"@[1]);
}

/// Every error of item `j` is among the errors of a list of at least `j + 1` items
proof fn lemma_item_error_listed(
    shape: Known,
    items: Seq<MetaItem>,
    read: spec_fn(Field, MetaItem) -> Seq<(ErrorKind, Seq<Field>)>,
    n: int,
    j: int,
    k: int,
)
    requires
        0 <= j < n,
        0 <= k < item_errors(shape, items, j, read).len(),
    ensures
        list_errors(shape, items, n, read).contains(item_errors(shape, items, j, read)[k]),
    decreases n,
{
    let prev = list_errors(shape, items, n - 1, read);
    let cur = item_errors(shape, items, n - 1, read);
    assert(list_errors(shape, items, n, read) == prev + cur);
    if j < n - 1 {
        lemma_item_error_listed(shape, items, read, n - 1, j, k);
        let w = choose|w: int| 0 <= w < prev.len() && prev[w] == item_errors(shape, items, j, read)[k];
        assert((prev + cur)[w] == prev[w]);
    } else {
        assert((prev + cur)[prev.len() + k] == cur[k]);
    }
}

/// The errors of the value of the first item naming a field are among the errors of the list
proof fn lemma_value_errors_listed(
    shape: Known,
    items: Seq<MetaItem>,
    read: spec_fn(Field, MetaItem) -> Seq<(ErrorKind, Seq<Field>)>,
    j: int,
    f: Field,
)
    requires
        0 <= j < items.len(),
        names_field(shape, items, j, f),
        forall|i: int| 0 <= i < j ==> !#[trigger] names_field(shape, items, i, f),
    ensures
        read(f, items[j]).len() > 0 ==> list_errors(shape, items, items.len() as int, read).len() > 0,
        forall|k: int|
            0 <= k < read(f, items[j]).len() ==> list_errors(shape, items, items.len() as int, read).contains(
                #[trigger] read(f, items[j])[k],
            ),
{
    assert(!named_before(shape, items, j, f));
    assert(item_errors(shape, items, j, read) == read(f, items[j]));
    if read(f, items[j]).len() > 0 {
        lemma_list_errors_len(shape, items, items.len() as int, read, j);
    }
    assert forall|k: int| 0 <= k < read(f, items[j]).len() implies list_errors(
        shape,
        items,
        items.len() as int,
        read,
    ).contains(#[trigger] read(f, items[j])[k]) by {
        lemma_item_error_listed(shape, items, read, items.len() as int, j, k);
    }
}

/// Item `j` is the first item called `name`
pub open spec fn first_called(items: Seq<MetaItem>, j: int, name: Seq<char>) -> bool {
    &&& item_called(items, j, name)
    &&& forall|i: int| 0 <= i < j ==> !#[trigger] item_called(items, i, name)
}

/// An error found at the place being read
pub open spec fn here(kind: ErrorKind) -> (ErrorKind, Seq<Field>) {
    (kind, Seq::<Field>::empty())
}

/// A `shuttle(...)` list is refused, with the item's error among those reported, when a bare
/// literal stands in it, when an item names no option, or when the value of an option does not
/// read (its errors then reported under that option)
pub proof fn law_shuttle_reports_bad_item(items: Seq<MetaItem>, j: int, name: Seq<char>)
    requires
        0 <= j < items.len(),
    ensures
        items[j] is Lit ==> shuttle_from_list(items) is Err && shuttle_from_list(items)->Err_0.contains(
            here(ErrorKind::UnsupportedFormat(Format::Literal)),
        ),
        item_called(items, j, name) && name != "scheduler"@ && name != "iters"@ && name != "depth"@
            ==> shuttle_from_list(items) is Err && shuttle_from_list(items)->Err_0.contains(
            here(ErrorKind::UnknownField { name: item_name(items[j]), expected: Known::ShuttleArgs }),
        ),
        first_called(items, j, "scheduler"@) && scheduler_from_meta(items[j]) is Err ==> shuttle_from_list(
            items,
        ) is Err && forall|k: int| 0 <= k < scheduler_from_meta(items[j])->Err_0.len()
            ==> shuttle_from_list(items)->Err_0.contains(
            (#[trigger] scheduler_from_meta(items[j])->Err_0[k].0, seq![Field::Scheduler] + scheduler_from_meta(
                items[j],
            )->Err_0[k].1),
        ),
        first_called(items, j, "iters"@) && usize_from_meta(items[j]) is Err ==> shuttle_from_list(items) is Err
            && forall|k: int| 0 <= k < usize_from_meta(items[j])->Err_0.len() ==> shuttle_from_list(
            items,
        )->Err_0.contains(
            (#[trigger] usize_from_meta(items[j])->Err_0[k].0, seq![Field::Iters] + usize_from_meta(
                items[j],
            )->Err_0[k].1),
        ),
        first_called(items, j, "depth"@) && usize_from_meta(items[j]) is Err ==> shuttle_from_list(items) is Err
            && forall|k: int| 0 <= k < usize_from_meta(items[j])->Err_0.len() ==> shuttle_from_list(
            items,
        )->Err_0.contains(
            (#[trigger] usize_from_meta(items[j])->Err_0[k].0, seq![Field::Depth] + usize_from_meta(
                items[j],
            )->Err_0[k].1),
        ),
{
    lemma_field_names();
    lemma_readers_fail_loudly(items[j]);
    let shape = Known::ShuttleArgs;
    let read = shuttle_reader();
    let n = items.len() as int;
    if items[j] is Lit || (item_called(items, j, name) && shuttle_field(name) is None) {
        lemma_item_error_listed(shape, items, read, n, j, 0);
    }
    if first_called(items, j, "scheduler"@) {
        assert forall|i: int| 0 <= i < j implies !#[trigger] names_field(shape, items, i, Field::Scheduler) by {
            assert(!item_called(items, i, "scheduler"@));
        }
        lemma_value_errors_listed(shape, items, read, j, Field::Scheduler);
        let m = items[j];
        if scheduler_from_meta(m) is Err {
            let e = scheduler_from_meta(m)->Err_0;
            assert(read(Field::Scheduler, m) == located(e, Field::Scheduler));
            assert forall|k: int| 0 <= k < e.len() implies list_errors(shape, items, n, read).contains(
                (#[trigger] e[k].0, seq![Field::Scheduler] + e[k].1),
            ) by {
                assert(read(Field::Scheduler, m)[k] == (e[k].0, seq![Field::Scheduler] + e[k].1));
            }
        }
    }
    if first_called(items, j, "iters"@) {
        assert forall|i: int| 0 <= i < j implies !#[trigger] names_field(shape, items, i, Field::Iters) by {
            assert(!item_called(items, i, "iters"@));
        }
        lemma_value_errors_listed(shape, items, read, j, Field::Iters);
        let m = items[j];
        if usize_from_meta(m) is Err {
            let e = usize_from_meta(m)->Err_0;
            assert(read(Field::Iters, m) == located(e, Field::Iters));
            assert forall|k: int| 0 <= k < e.len() implies list_errors(shape, items, n, read).contains(
                (#[trigger] e[k].0, seq![Field::Iters] + e[k].1),
            ) by {
                assert(read(Field::Iters, m)[k] == (e[k].0, seq![Field::Iters] + e[k].1));
            }
        }
    }
    if first_called(items, j, "depth"@) {
        assert forall|i: int| 0 <= i < j implies !#[trigger] names_field(shape, items, i, Field::Depth) by {
            assert(!item_called(items, i, "depth"@));
        }
        lemma_value_errors_listed(shape, items, read, j, Field::Depth);
        let m = items[j];
        if usize_from_meta(m) is Err {
            let e = usize_from_meta(m)->Err_0;
            assert(read(Field::Depth, m) == located(e, Field::Depth));
            assert forall|k: int| 0 <= k < e.len() implies list_errors(shape, items, n, read).contains(
                (#[trigger] e[k].0, seq![Field::Depth] + e[k].1),
            ) by {
                assert(read(Field::Depth, m)[k] == (e[k].0, seq![Field::Depth] + e[k].1));
            }
        }
    }
}

/// A `shuttle(...)` list in which two items name the same option is refused, the later item
/// being reported as a duplicate of that option
pub proof fn law_shuttle_reports_duplicate(items: Seq<MetaItem>, i: int, j: int, name: Seq<char>)
    requires
        0 <= i < j < items.len(),
        item_called(items, i, name),
        item_called(items, j, name),
    ensures
        name == "scheduler"@ ==> shuttle_from_list(items) is Err && shuttle_from_list(items)->Err_0.contains(
            here(ErrorKind::DuplicateField(Field::Scheduler)),
        ),
        name == "iters"@ ==> shuttle_from_list(items) is Err && shuttle_from_list(items)->Err_0.contains(
            here(ErrorKind::DuplicateField(Field::Iters)),
        ),
        name == "depth"@ ==> shuttle_from_list(items) is Err && shuttle_from_list(items)->Err_0.contains(
            here(ErrorKind::DuplicateField(Field::Depth)),
        ),
{
    lemma_field_names();
    let shape = Known::ShuttleArgs;
    if shuttle_field(name) is Some {
        let f = shuttle_field(name)->Some_0;
        assert(names_field(shape, items, i, f));
        assert(named_before(shape, items, j, f));
        lemma_item_error_listed(shape, items, shuttle_reader(), items.len() as int, j, 0);
    }
}

/// A `modeled_test(...)` list is refused, with the item's error among those reported, when a bare
/// literal stands in it, when an item names no option, or when the value of an option does not
/// read (its errors then reported under that option)
pub proof fn law_modeled_reports_bad_item(items: Seq<MetaItem>, j: int, name: Seq<char>)
    requires
        0 <= j < items.len(),
    ensures
        items[j] is Lit ==> modeled_from_list(items) is Err && modeled_from_list(items)->Err_0.contains(
            here(ErrorKind::UnsupportedFormat(Format::Literal)),
        ),
        item_called(items, j, name) && name != "notest"@ && name != "shuttle"@ ==> modeled_from_list(items) is Err
            && modeled_from_list(items)->Err_0.contains(
            here(ErrorKind::UnknownField { name: item_name(items[j]), expected: Known::ModeledTestArgs }),
        ),
        first_called(items, j, "notest"@) && bool_from_meta(items[j]) is Err ==> modeled_from_list(items) is Err
            && forall|k: int| 0 <= k < bool_from_meta(items[j])->Err_0.len() ==> modeled_from_list(
            items,
        )->Err_0.contains(
            (#[trigger] bool_from_meta(items[j])->Err_0[k].0, seq![Field::Notest] + bool_from_meta(
                items[j],
            )->Err_0[k].1),
        ),
        first_called(items, j, "shuttle"@) && shuttle_from_meta(items[j]) is Err ==> modeled_from_list(items) is Err
            && forall|k: int| 0 <= k < shuttle_from_meta(items[j])->Err_0.len() ==> modeled_from_list(
            items,
        )->Err_0.contains(
            (#[trigger] shuttle_from_meta(items[j])->Err_0[k].0, seq![Field::Shuttle] + shuttle_from_meta(
                items[j],
            )->Err_0[k].1),
        ),
{
    lemma_field_names();
    lemma_readers_fail_loudly(items[j]);
    let shape = Known::ModeledTestArgs;
    let read = modeled_reader();
    let n = items.len() as int;
    if items[j] is Lit || (item_called(items, j, name) && modeled_field(name) is None) {
        lemma_item_error_listed(shape, items, read, n, j, 0);
    }
    if first_called(items, j, "notest"@) {
        assert forall|i: int| 0 <= i < j implies !#[trigger] names_field(shape, items, i, Field::Notest) by {
            assert(!item_called(items, i, "notest"@));
        }
        lemma_value_errors_listed(shape, items, read, j, Field::Notest);
        let m = items[j];
        if bool_from_meta(m) is Err {
            let e = bool_from_meta(m)->Err_0;
            assert(read(Field::Notest, m) == located(e, Field::Notest));
            assert forall|k: int| 0 <= k < e.len() implies list_errors(shape, items, n, read).contains(
                (#[trigger] e[k].0, seq![Field::Notest] + e[k].1),
            ) by {
                assert(read(Field::Notest, m)[k] == (e[k].0, seq![Field::Notest] + e[k].1));
            }
        }
    }
    if first_called(items, j, "shuttle"@) {
        assert forall|i: int| 0 <= i < j implies !#[trigger] names_field(shape, items, i, Field::Shuttle) by {
            assert(!item_called(items, i, "shuttle"@));
        }
        lemma_value_errors_listed(shape, items, read, j, Field::Shuttle);
        let m = items[j];
        if shuttle_from_meta(m) is Err {
            let e = shuttle_from_meta(m)->Err_0;
            assert(read(Field::Shuttle, m) == located(e, Field::Shuttle));
            assert forall|k: int| 0 <= k < e.len() implies list_errors(shape, items, n, read).contains(
                (#[trigger] e[k].0, seq![Field::Shuttle] + e[k].1),
            ) by {
                assert(read(Field::Shuttle, m)[k] == (e[k].0, seq![Field::Shuttle] + e[k].1));
            }
        }
    }
}

/// A `modeled_test(...)` list in which two items name the same option is refused, the later item
/// being reported as a duplicate of that option
pub proof fn law_modeled_reports_duplicate(items: Seq<MetaItem>, i: int, j: int, name: Seq<char>)
    requires
        0 <= i < j < items.len(),
        item_called(items, i, name),
        item_called(items, j, name),
    ensures
        name == "notest"@ ==> modeled_from_list(items) is Err && modeled_from_list(items)->Err_0.contains(
            here(ErrorKind::DuplicateField(Field::Notest)),
        ),
        name == "shuttle"@ ==> modeled_from_list(items) is Err && modeled_from_list(items)->Err_0.contains(
            here(ErrorKind::DuplicateField(Field::Shuttle)),
        ),
{
    lemma_field_names();
    let shape = Known::ModeledTestArgs;
    if modeled_field(name) is Some {
        let f = modeled_field(name)->Some_0;
        assert(names_field(shape, items, i, f));
        assert(named_before(shape, items, j, f));
        lemma_item_error_listed(shape, items, modeled_reader(), items.len() as int, j, 0);
    }
}

/// `unmodeled_test` accepts exactly the lists that `modeled_test` accepts, with the same `notest`
pub proof fn law_unmodeled_reads_as_modeled(items: Seq<MetaItem>)
    ensures
        unmodeled_from_list(items) is Ok <==> modeled_from_list(items) is Ok,
        modeled_from_list(items) is Ok ==> unmodeled_from_list(items)->Ok_0.notest == modeled_from_list(
            items,
        )->Ok_0.notest,
        modeled_from_list(items) is Err ==> unmodeled_from_list(items)->Err_0 == modeled_from_list(items)->Err_0,
{
}

/// A flag given as a bare word is set; given a boolean it takes that boolean; given the string
/// `"true"` or `"false"` it takes the value the string spells
pub proof fn law_flag_forms(m: MetaItem)
    ensures
        m is Path ==> bool_from_meta(m) == Ok::<bool, Seq<(ErrorKind, Seq<Field>)>>(true),
        m matches MetaItem::NameValue(_, Value::Lit(Lit::Bool(b))) ==> bool_from_meta(m) == Ok::<
            bool,
            Seq<(ErrorKind, Seq<Field>)>,
        >(b),
        m matches MetaItem::NameValue(_, Value::Lit(Lit::Str(s))) && s@ == "true"@ ==> bool_from_meta(m)
            == Ok::<bool, Seq<(ErrorKind, Seq<Field>)>>(true),
        m matches MetaItem::NameValue(_, Value::Lit(Lit::Str(s))) && s@ == "false"@ ==> bool_from_meta(m)
            == Ok::<bool, Seq<(ErrorKind, Seq<Field>)>>(false),
{
    reveal_strlit("true");
    reveal_strlit("false");
    assert("true"@.len() != "false"@.len());
}

/// A count read from digits is the number they spell in base 10: appending a digit multiplies
/// by ten and adds it, a leading `+` changes nothing, and anything but a digit is refused
pub proof fn law_count_digits(d: Seq<char>, c: char)
    requires
        '0' <= c <= '9',
    ensures
        all_digits(d) && digits_value(d.push(c)) <= usize::MAX ==> parsed_usize(d.push(c)) == Some(
            (digits_value(d) * 10 + (c as int - '0' as int)) as usize,
        ),
        parsed_usize(seq![c]) == Some((c as int - '0' as int) as usize),
        d.len() == 0 || d[0] != '+' ==> parsed_usize(seq!['+'] + d) == parsed_usize(d),
        d.len() > 0 && d[0] != '+' && !('0' <= d[0] <= '9') ==> parsed_usize(d) is None,
        parsed_usize(Seq::<char>::empty()) is None,
{
    let e = d.push(c);
    if all_digits(d) {
        assert(e.drop_last() =~= d);
        assert(all_digits(e));
        assert(e[0] != '+');
    }
    let one = seq![c];
    assert(one.drop_last() =~= Seq::<char>::empty());
    assert(all_digits(one));
    assert(one[0] != '+');
    assert(digits_value(one) == digits_value(Seq::<char>::empty()) * 10 + (c as int - '0' as int));
    let p = seq!['+'] + d;
    assert(p.drop_first() =~= d);
    if d.len() > 0 && !('0' <= d[0] <= '9') {
        assert(!all_digits(d));
    }
}

} // verus!
