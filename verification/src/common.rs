//! Values, types and directives: the parts that the query language and
//! the schema language share.

use vstd::prelude::*;
use vstd::string::*;
use crate::position::Pos;
use crate::number::is_digit;
use crate::text::chars_of;
use crate::error::{Error, Info, ParseError, ErrorModel, InfoModel, Failure, unquote_message};
use crate::parser::{Parser, Parsed, Lexed, texts, outcome, failure_of, model_of};
use crate::tokenizer::{Kind, Token};
use crate::unquote::{unquoted, block_value, unquote_string, unquote_block_string, UnquoteFault};

verus! {

/// An integer value.
///
/// The language sets no limit to integers. This type holds those that fit
/// in 64 bits, and is a type of its own so that it can hold more one day.
#[derive(Debug, Clone, PartialEq)]
pub struct Number(pub i64);

/// A value: of an argument, of a variable's default, of a field of an
/// input object.
#[derive(Debug, PartialEq)]
pub enum Value {
    /// A variable, without its `$`.
    Variable(String),
    Int(Number),
    /// A float, as it is written in the source.
    Float(String),
    String(String),
    Boolean(bool),
    Null,
    Enum(String),
    List(Vec<Value>),
    /// The fields of an object, in the order of their names, each name
    /// once.
    Object(Vec<(String, Value)>),
}

/// A type as a variable or a field declares it.
#[derive(Debug, PartialEq)]
pub enum Type {
    NamedType(String),
    ListType(Box<Type>),
    NonNullType(Box<Type>),
}

/// A directive: `@name(arguments)`.
#[derive(Debug, PartialEq)]
pub struct Directive {
    pub position: Pos,
    pub name: String,
    pub arguments: Vec<(String, Value)>,
}

/// The mathematical counterpart of [`Value`].
pub enum ValueModel {
    Variable(Seq<char>),
    Int(int),
    Float(Seq<char>),
    String(Seq<char>),
    Boolean(bool),
    Null,
    Enum(Seq<char>),
    List(Seq<ValueModel>),
    Object(Seq<(Seq<char>, ValueModel)>),
}

/// The mathematical counterpart of [`Type`].
pub enum TypeModel {
    NamedType(Seq<char>),
    ListType(Box<TypeModel>),
    NonNullType(Box<TypeModel>),
}

/// The mathematical counterpart of [`Directive`].
pub struct DirectiveModel {
    pub position: Pos,
    pub name: Seq<char>,
    pub arguments: Seq<(Seq<char>, ValueModel)>,
}

/// The models of a sequence of values.
pub open spec fn values_view(v: Seq<Value>) -> Seq<ValueModel>
    decreases v,
{
    Seq::new(
        v.len(),
        |i: int|
            if 0 <= i < v.len() {
                v[i]@
            } else {
                ValueModel::Null
            },
    )
}

/// The models of a sequence of names with a value each.
pub open spec fn pairs_view(v: Seq<(String, Value)>) -> Seq<(Seq<char>, ValueModel)>
    decreases v,
{
    Seq::new(
        v.len(),
        |i: int|
            if 0 <= i < v.len() {
                (v[i].0@, v[i].1@)
            } else {
                (Seq::empty(), ValueModel::Null)
            },
    )
}

impl View for Value {
    type V = ValueModel;

    open spec fn view(&self) -> ValueModel
        decreases self,
    {
        match self {
            Value::Variable(n) => ValueModel::Variable(n@),
            Value::Int(n) => ValueModel::Int(n.0 as int),
            Value::Float(t) => ValueModel::Float(t@),
            Value::String(t) => ValueModel::String(t@),
            Value::Boolean(b) => ValueModel::Boolean(*b),
            Value::Null => ValueModel::Null,
            Value::Enum(n) => ValueModel::Enum(n@),
            Value::List(items) => ValueModel::List(values_view(items@)),
            Value::Object(fields) => ValueModel::Object(pairs_view(fields@)),
        }
    }
}

impl View for Type {
    type V = TypeModel;

    open spec fn view(&self) -> TypeModel
        decreases self,
    {
        match self {
            Type::NamedType(n) => TypeModel::NamedType(n@),
            Type::ListType(t) => TypeModel::ListType(Box::new((**t).view())),
            Type::NonNullType(t) => TypeModel::NonNullType(Box::new((**t).view())),
        }
    }
}

impl View for Directive {
    type V = DirectiveModel;

    open spec fn view(&self) -> DirectiveModel {
        DirectiveModel {
            position: self.position,
            name: self.name@,
            arguments: pairs_view(self.arguments@),
        }
    }
}

/// The models of a sequence of directives.
pub open spec fn directives_view(v: Seq<Directive>) -> Seq<DirectiveModel> {
    v.map_values(|d: Directive| d@)
}

impl Number {
    /// The number, if it fits in 64 bits; as the type stands, it does.
    pub fn as_i64(&self) -> (n: Option<i64>)
        ensures
            n == Some(self.0),
    {
        Some(self.0)
    }
}

impl vstd::std_specs::convert::FromSpecImpl<i32> for Number {
    open spec fn obeys_from_spec() -> bool {
        true
    }

    open spec fn from_spec(i: i32) -> Number {
        Number(i as i64)
    }
}

impl From<i32> for Number {
    fn from(i: i32) -> (n: Number) {
        Number(i as i64)
    }
}

/// `a` from index `i` on stands before `b` from index `i` on, in the
/// order of a dictionary that goes by the codes of the characters.
pub open spec fn text_lt_at(a: Seq<char>, b: Seq<char>, i: int) -> bool
    decreases a.len() - i,
{
    if i < 0 || i >= b.len() {
        false
    } else if i >= a.len() {
        true
    } else if a[i] != b[i] {
        a[i] < b[i]
    } else {
        text_lt_at(a, b, i + 1)
    }
}

/// `a` stands before `b` in the order of names.
pub open spec fn text_lt(a: Seq<char>, b: Seq<char>) -> bool {
    text_lt_at(a, b, 0)
}

/// Whether `a` stands before `b` in the order of names.
pub fn text_before(a: &str, b: &str) -> (before: bool)
    ensures
        before == text_lt(a@, b@),
{
    let x = chars_of(a);
    let y = chars_of(b);
    let mut i: usize = 0;
    loop
        invariant
            x@ == a@,
            y@ == b@,
            i <= x@.len(),
            i <= y@.len(),
            text_lt(a@, b@) == text_lt_at(a@, b@, i as int),
        decreases x@.len() - i,
    {
        if i >= y.len() {
            return false;
        }
        if i >= x.len() {
            return true;
        }
        if x[i] != y[i] {
            return x[i] < y[i];
        }
        i += 1;
    }
}

/// The index of the first field at or after `i` whose name does not
/// stand before `key`.
pub open spec fn slot(obj: Seq<(Seq<char>, ValueModel)>, key: Seq<char>, i: int) -> int
    decreases obj.len() - i,
{
    if 0 <= i < obj.len() && text_lt(obj[i].0, key) {
        slot(obj, key, i + 1)
    } else {
        i
    }
}

/// The object `obj` with the field `key` set to `v`: in place of the
/// field of that name, if there is one, and else at the field's place in
/// the order of names.
pub open spec fn put(obj: Seq<(Seq<char>, ValueModel)>, key: Seq<char>, v: ValueModel) -> Seq<
    (Seq<char>, ValueModel),
> {
    let p = slot(obj, key, 0);
    if 0 <= p < obj.len() && obj[p].0 == key {
        obj.update(p, (key, v))
    } else if 0 <= p <= obj.len() {
        obj.insert(p, (key, v))
    } else {
        obj
    }
}

proof fn slot_bounds(obj: Seq<(Seq<char>, ValueModel)>, key: Seq<char>, i: int)
    requires
        0 <= i <= obj.len(),
    ensures
        i <= slot(obj, key, i) <= obj.len(),
    decreases obj.len() - i,
{
    if i < obj.len() && text_lt(obj[i].0, key) {
        slot_bounds(obj, key, i + 1);
    }
}

/// Sets the field `key` of the object `fields` to `value`.
pub fn put_field(fields: &mut Vec<(String, Value)>, key: String, value: Value)
    ensures
        pairs_view(final(fields)@) == put(pairs_view(old(fields)@), key@, value@),
{
    let ghost obj = pairs_view(fields@);
    let n = fields.len();
    let mut p: usize = 0;
    while p < n && text_before(fields[p].0.as_str(), key.as_str())
        invariant
            p <= n,
            n == fields@.len(),
            fields@ == old(fields)@,
            obj == pairs_view(fields@),
            slot(obj, key@, 0) == slot(obj, key@, p as int),
        decreases n - p,
    {
        assert(obj[p as int].0 == fields@[p as int].0@);
        p += 1;
    }
    proof {
        if p < n {
            assert(obj[p as int].0 == fields@[p as int].0@);
        }
    }
    if p < n && fields[p].0 == key {
        fields.set(p, (key, value));
        assert(pairs_view(fields@) =~= obj.update(p as int, (key@, value@)));
    } else {
        fields.insert(p, (key, value));
        assert(pairs_view(fields@) =~= obj.insert(p as int, (key@, value@)));
    }
}

/// What a character counts as a decimal digit; nothing if it is none.
pub open spec fn digit_value(c: char) -> int {
    if is_digit(c) {
        c as int - '0' as int
    } else {
        0
    }
}

/// The number that the characters `s[from..to]` spell in decimal digits.
pub open spec fn digits_value(s: Seq<char>, from: int, to: int) -> int
    decreases to - from,
{
    if to <= from || from < 0 || to > s.len() {
        0
    } else {
        digits_value(s, from, to - 1) * 10 + digit_value(s[to - 1])
    }
}

/// The number that an integer literal spells.
pub open spec fn literal_value(t: Seq<char>) -> int {
    if t.len() > 0 && t[0] == '-' {
        -digits_value(t, 1, t.len() as int)
    } else {
        digits_value(t, 0, t.len() as int)
    }
}

/// What the standard library says of the text `t` where it refuses to
/// read it as an integer of 64 bits, and nothing where it reads it.
pub uninterp spec fn overflow_message(t: Seq<char>) -> Seq<char>;

/// `<i64 as FromStr>::from_str` of the standard library, for what it says
/// where it refuses: the error that it gives for `t`, shown through
/// `format!`, and the empty text where it gives a number. The text depends
/// on `t` alone.
#[verifier::external_body]
fn refusal(t: &str) -> (m: String)
    ensures
        m@ == overflow_message(t@),
{
    match t.parse::<i64>() {
        Ok(_) => String::new(),
        Err(e) => format!("{}", e),
    }
}

/// Digits spell no negative number.
proof fn digits_value_positive(s: Seq<char>, from: int, to: int)
    ensures
        0 <= digits_value(s, from, to),
    decreases to - from,
{
    if !(to <= from || from < 0 || to > s.len()) {
        digits_value_positive(s, from, to - 1);
    }
}

/// A longer run of digits spells no smaller number.
proof fn digits_value_grows(s: Seq<char>, from: int, k: int, to: int)
    requires
        0 <= from <= k <= to <= s.len(),
    ensures
        digits_value(s, from, k) <= digits_value(s, from, to),
    decreases to - k,
{
    if k < to {
        digits_value_grows(s, from, k, to - 1);
        digits_value_positive(s, from, to - 1);
    }
}

/// The number that the integer literal `t` spells, or what the standard
/// library says of it where it does not fit in 64 bits.
pub fn int_of_literal(t: &str) -> (r: Result<i64, String>)
    ensures
        match r {
            Ok(n) => n as int == literal_value(t@),
            Err(m) => !(i64::MIN <= literal_value(t@) <= i64::MAX) && m@ == overflow_message(t@),
        },
{
    let chars = chars_of(t);
    let n = chars.len();
    let negative = n > 0 && chars[0] == '-';
    let from: usize = if negative {
        1
    } else {
        0
    };
    let mut acc: u128 = 0;
    let mut i: usize = from;
    let limit: u128 = 9223372036854775808u128;
    while i < n
        invariant
            from <= i <= n,
            n == chars@.len(),
            chars@ == t@,
            acc as int == digits_value(chars@, from as int, i as int),
            negative == (n > 0 && chars@[0] == '-'),
            from == if negative { 1usize } else { 0usize },
            acc <= limit,
            limit == 9223372036854775808u128,
        decreases n - i,
    {
        let c = chars[i];
        let d: u128 = if '0' <= c && c <= '9' {
            (c as u32 - '0' as u32) as u128
        } else {
            0
        };
        let next: u128 = acc * 10 + d;
        if next > limit {
            proof {
                digits_value_grows(chars@, from as int, i + 1, n as int);
            }
            return Err(refusal(t));
        }
        acc = next;
        i += 1;
    }
    if negative {
        if acc == limit {
            Ok(i64::MIN)
        } else {
            Ok(-(acc as i64))
        }
    } else if acc == limit {
        Err(refusal(t))
    } else {
        Ok(acc as i64)
    }
}

/// The failure that an integer literal makes which does not fit in 64
/// bits.
pub open spec fn int_failure(lx: Lexed, i: int) -> Failure {
    Failure {
        position: lx.pos(i),
        errors: seq![ErrorModel::Other(overflow_message(lx.tokens[i].text))],
    }
}

/// The failure that a malformed quoted string makes.
pub open spec fn string_failure(lx: Lexed, i: int, f: UnquoteFault) -> Failure {
    Failure {
        position: lx.pos(i),
        errors: seq![ErrorModel::Unexpected(InfoModel::Owned(unquote_message(f)))],
    }
}

/// The body of the block string that is token `i`.
pub open spec fn block_body(lx: Lexed, i: int) -> Seq<char> {
    lx.tokens[i].text.subrange(3, lx.tokens[i].text.len() - 3)
}

/// An integer value at token `i`.
pub open spec fn parsed_int(lx: Lexed, i: int) -> Parsed<ValueModel> {
    if !lx.is_kind(i, Kind::IntValue) {
        Parsed::Failed(lx.failure(i, texts(seq!["IntValue"])))
    } else if i64::MIN <= literal_value(lx.tokens[i].text) <= i64::MAX {
        Parsed::Done(ValueModel::Int(literal_value(lx.tokens[i].text)), i + 1)
    } else {
        Parsed::Failed(int_failure(lx, i))
    }
}

/// A float value at token `i`: it keeps the text of its literal.
pub open spec fn parsed_float(lx: Lexed, i: int) -> Parsed<ValueModel> {
    if lx.is_kind(i, Kind::FloatValue) {
        Parsed::Done(ValueModel::Float(lx.tokens[i].text), i + 1)
    } else {
        Parsed::Failed(lx.failure(i, texts(seq!["FloatValue"])))
    }
}

/// A string at token `i`, quoted or block.
pub open spec fn parsed_string(lx: Lexed, i: int) -> Parsed<Seq<char>> {
    if lx.is_kind(i, Kind::StringValue) {
        match unquoted(lx.tokens[i].text) {
            Ok(t) => Parsed::Done(t, i + 1),
            Err(f) => Parsed::Failed(string_failure(lx, i, f)),
        }
    } else if lx.is_kind(i, Kind::BlockString) {
        Parsed::Done(block_value(block_body(lx, i)), i + 1)
    } else {
        Parsed::Failed(lx.failure(i, texts(seq!["StringValue", "BlockString"])))
    }
}

/// A quoted string as a value at token `i`.
pub open spec fn parsed_string_value(lx: Lexed, i: int) -> Parsed<ValueModel> {
    if lx.is_kind(i, Kind::StringValue) {
        match unquoted(lx.tokens[i].text) {
            Ok(t) => Parsed::Done(ValueModel::String(t), i + 1),
            Err(f) => Parsed::Failed(string_failure(lx, i, f)),
        }
    } else {
        Parsed::Failed(lx.failure(i, texts(seq!["StringValue"])))
    }
}

/// A block string as a value at token `i`.
pub open spec fn parsed_block_string_value(lx: Lexed, i: int) -> Parsed<ValueModel> {
    if lx.is_kind(i, Kind::BlockString) {
        Parsed::Done(ValueModel::String(block_value(block_body(lx, i))), i + 1)
    } else {
        Parsed::Failed(lx.failure(i, texts(seq!["BlockString"])))
    }
}

/// What is expected where a value without parts must stand.
pub open spec fn plain_expected() -> Seq<&'static str> {
    seq!["IntValue", "FloatValue", "StringValue", "BlockString", "true", "false", "null", "Name"]
}

/// A value without parts at token `i`: `true`, `false`, `null`, the name
/// of an enum value, a number or a string.
pub open spec fn parsed_plain(lx: Lexed, i: int) -> Parsed<ValueModel> {
    if lx.is_word(i, "true"@) {
        Parsed::Done(ValueModel::Boolean(true), i + 1)
    } else if lx.is_word(i, "false"@) {
        Parsed::Done(ValueModel::Boolean(false), i + 1)
    } else if lx.is_word(i, "null"@) {
        Parsed::Done(ValueModel::Null, i + 1)
    } else if lx.is_kind(i, Kind::Name) {
        Parsed::Done(ValueModel::Enum(lx.tokens[i].text), i + 1)
    } else if lx.is_kind(i, Kind::IntValue) {
        parsed_int(lx, i)
    } else if lx.is_kind(i, Kind::FloatValue) {
        parsed_float(lx, i)
    } else if lx.is_kind(i, Kind::StringValue) {
        parsed_string_value(lx, i)
    } else if lx.is_kind(i, Kind::BlockString) {
        parsed_block_string_value(lx, i)
    } else {
        Parsed::Failed(lx.failure(i, texts(plain_expected())))
    }
}

/// Token `i` begins a value without parts.
pub open spec fn starts_plain(lx: Lexed, i: int) -> bool {
    lx.is_kind(i, Kind::Name) || lx.is_kind(i, Kind::IntValue) || lx.is_kind(i, Kind::FloatValue)
        || lx.is_kind(i, Kind::StringValue) || lx.is_kind(i, Kind::BlockString)
}

/// Token `i` begins a value; `vars` says whether variables count.
pub open spec fn starts_value(lx: Lexed, i: int, vars: bool) -> bool {
    starts_plain(lx, i) || (vars && lx.is_punct(i, "$"@)) || lx.is_punct(i, "["@) || lx.is_punct(
        i,
        "{"@,
    )
}

/// What is expected where a value must stand.
pub open spec fn value_expected(vars: bool) -> Seq<&'static str> {
    if vars {
        plain_expected() + seq!["$", "[", "{"]
    } else {
        plain_expected() + seq!["[", "{"]
    }
}

/// A value at token `i`. Where `vars` is false, as in the default of a
/// variable, the value and its parts are no variables.
pub open spec fn parsed_value(lx: Lexed, i: int, vars: bool) -> Parsed<ValueModel>
    decreases lx.tokens.len() - i, 0int,
{
    if starts_plain(lx, i) {
        parsed_plain(lx, i)
    } else if vars && lx.is_punct(i, "$"@) {
        if lx.is_kind(i + 1, Kind::Name) {
            Parsed::Done(ValueModel::Variable(lx.tokens[i + 1].text), i + 2)
        } else {
            Parsed::Failed(lx.failure(i + 1, texts(seq!["Name"])))
        }
    } else if lx.is_punct(i, "["@) {
        match parsed_values(lx, i + 1, vars, Seq::empty()) {
            Parsed::Done(items, j) => if lx.is_punct(j, "]"@) {
                Parsed::Done(ValueModel::List(items), j + 1)
            } else {
                Parsed::Failed(lx.failure(j, texts(seq!["]"])))
            },
            Parsed::Failed(f) => Parsed::Failed(f),
        }
    } else if lx.is_punct(i, "{"@) {
        match parsed_fields(lx, i + 1, vars, Seq::empty()) {
            Parsed::Done(fields, j) => if lx.is_punct(j, "}"@) {
                Parsed::Done(ValueModel::Object(fields), j + 1)
            } else {
                Parsed::Failed(lx.failure(j, texts(seq!["Name", "}"])))
            },
            Parsed::Failed(f) => Parsed::Failed(f),
        }
    } else {
        Parsed::Failed(lx.failure(i, texts(value_expected(vars))))
    }
}

/// The values from token `i` on, after the values `acc`: as many as
/// there are. A value takes at least one token, which the last case
/// relies on.
pub open spec fn parsed_values(lx: Lexed, i: int, vars: bool, acc: Seq<ValueModel>) -> Parsed<
    Seq<ValueModel>,
>
    decreases lx.tokens.len() - i, 1int,
{
    if !starts_value(lx, i, vars) {
        Parsed::Done(acc, i)
    } else {
        match parsed_value(lx, i, vars) {
            Parsed::Done(v, j) => if i < j <= lx.tokens.len() {
                parsed_values(lx, j, vars, acc.push(v))
            } else {
                Parsed::Done(acc.push(v), j)
            },
            Parsed::Failed(f) => Parsed::Failed(f),
        }
    }
}

/// The fields of an object from token `i` on, put into the object `acc`:
/// as many as there are, each a name, a colon and a value. A field that
/// comes later takes the place of an earlier one of the same name.
pub open spec fn parsed_fields(
    lx: Lexed,
    i: int,
    vars: bool,
    acc: Seq<(Seq<char>, ValueModel)>,
) -> Parsed<Seq<(Seq<char>, ValueModel)>>
    decreases lx.tokens.len() - i, 1int,
{
    if !lx.is_kind(i, Kind::Name) {
        Parsed::Done(acc, i)
    } else if !lx.is_punct(i + 1, ":"@) {
        Parsed::Failed(lx.failure(i + 1, texts(seq![":"])))
    } else {
        match parsed_value(lx, i + 2, vars) {
            Parsed::Done(v, j) => if i < j <= lx.tokens.len() {
                parsed_fields(lx, j, vars, put(acc, lx.tokens[i].text, v))
            } else {
                Parsed::Done(put(acc, lx.tokens[i].text, v), j)
            },
            Parsed::Failed(f) => Parsed::Failed(f),
        }
    }
}

/// The arguments from token `i` on, after the arguments `acc`: as many
/// as there are, each a name, a colon and a value, in the order of the
/// source.
pub open spec fn parsed_pairs(lx: Lexed, i: int, acc: Seq<(Seq<char>, ValueModel)>) -> Parsed<
    Seq<(Seq<char>, ValueModel)>,
>
    decreases lx.tokens.len() - i,
{
    if !lx.is_kind(i, Kind::Name) {
        Parsed::Done(acc, i)
    } else if !lx.is_punct(i + 1, ":"@) {
        Parsed::Failed(lx.failure(i + 1, texts(seq![":"])))
    } else {
        match parsed_value(lx, i + 2, true) {
            Parsed::Done(v, j) => if i < j <= lx.tokens.len() {
                parsed_pairs(lx, j, acc.push((lx.tokens[i].text, v)))
            } else {
                Parsed::Done(acc.push((lx.tokens[i].text, v)), j)
            },
            Parsed::Failed(f) => Parsed::Failed(f),
        }
    }
}

/// The arguments at token `i`: none where no parenthesis opens, and
/// else one or more between parentheses.
pub open spec fn parsed_arguments(lx: Lexed, i: int) -> Parsed<Seq<(Seq<char>, ValueModel)>> {
    if !lx.is_punct(i, "("@) {
        Parsed::Done(Seq::empty(), i)
    } else if !lx.is_kind(i + 1, Kind::Name) {
        Parsed::Failed(lx.failure(i + 1, texts(seq!["Name"])))
    } else {
        match parsed_pairs(lx, i + 1, Seq::empty()) {
            Parsed::Done(args, j) => if lx.is_punct(j, ")"@) {
                Parsed::Done(args, j + 1)
            } else {
                Parsed::Failed(lx.failure(j, texts(seq!["Name", ")"])))
            },
            Parsed::Failed(f) => Parsed::Failed(f),
        }
    }
}

/// The directives from token `i` on, after the directives `acc`: as
/// many as there are, each an `@`, a name and arguments.
pub open spec fn parsed_directives(lx: Lexed, i: int, acc: Seq<DirectiveModel>) -> Parsed<
    Seq<DirectiveModel>,
>
    decreases lx.tokens.len() - i,
{
    if !lx.is_punct(i, "@"@) {
        Parsed::Done(acc, i)
    } else if !lx.is_kind(i + 1, Kind::Name) {
        Parsed::Failed(lx.failure(i + 1, texts(seq!["Name"])))
    } else {
        match parsed_arguments(lx, i + 2) {
            Parsed::Done(arguments, j) => if i < j <= lx.tokens.len() {
                parsed_directives(
                    lx,
                    j,
                    acc.push(
                        DirectiveModel {
                            position: lx.pos(i),
                            name: lx.tokens[i + 1].text,
                            arguments,
                        },
                    ),
                )
            } else {
                Parsed::Done(acc, j)
            },
            Parsed::Failed(f) => Parsed::Failed(f),
        }
    }
}

/// A type at token `i`: a name, or a type between square brackets, and
/// after either an exclamation mark for a type that is never null.
pub open spec fn parsed_type(lx: Lexed, i: int) -> Parsed<TypeModel>
    decreases lx.tokens.len() - i,
{
    if lx.is_kind(i, Kind::Name) {
        non_null(lx, TypeModel::NamedType(lx.tokens[i].text), i + 1)
    } else if lx.is_punct(i, "["@) {
        match parsed_type(lx, i + 1) {
            Parsed::Done(t, j) => if lx.is_punct(j, "]"@) {
                non_null(lx, TypeModel::ListType(Box::new(t)), j + 1)
            } else {
                Parsed::Failed(lx.failure(j, texts(seq!["]"])))
            },
            Parsed::Failed(f) => Parsed::Failed(f),
        }
    } else {
        Parsed::Failed(lx.failure(i, texts(seq!["Name", "["])))
    }
}

/// The type `t`, which ends before token `j`, with the exclamation mark
/// that may follow it.
pub open spec fn non_null(lx: Lexed, t: TypeModel, j: int) -> Parsed<TypeModel> {
    if lx.is_punct(j, "!"@) {
        Parsed::Done(TypeModel::NonNullType(Box::new(t)), j + 1)
    } else {
        Parsed::Done(t, j)
    }
}

/// A value takes at least one token, and so does a list of one value or
/// more.
pub proof fn value_advances(lx: Lexed, i: int, vars: bool)
    ensures
        match parsed_value(lx, i, vars) {
            Parsed::Done(_, j) => i < j <= lx.tokens.len(),
            Parsed::Failed(_) => true,
        },
    decreases lx.tokens.len() - i, 0int,
{
    if starts_plain(lx, i) {
    } else if vars && lx.is_punct(i, "$"@) {
    } else if lx.is_punct(i, "["@) {
        values_advance(lx, i + 1, vars, Seq::empty());
    } else if lx.is_punct(i, "{"@) {
        fields_advance(lx, i + 1, vars, Seq::empty());
    }
}

/// A list of values ends at or behind where it began.
pub proof fn values_advance(lx: Lexed, i: int, vars: bool, acc: Seq<ValueModel>)
    ensures
        match parsed_values(lx, i, vars, acc) {
            Parsed::Done(_, j) => i <= j,
            Parsed::Failed(_) => true,
        },
    decreases lx.tokens.len() - i, 1int,
{
    if starts_value(lx, i, vars) {
        value_advances(lx, i, vars);
        match parsed_value(lx, i, vars) {
            Parsed::Done(v, j) => {
                values_advance(lx, j, vars, acc.push(v));
            },
            Parsed::Failed(_) => {},
        }
    }
}

/// The fields of an object end at or behind where they began.
pub proof fn fields_advance(lx: Lexed, i: int, vars: bool, acc: Seq<(Seq<char>, ValueModel)>)
    ensures
        match parsed_fields(lx, i, vars, acc) {
            Parsed::Done(_, j) => i <= j,
            Parsed::Failed(_) => true,
        },
    decreases lx.tokens.len() - i, 1int,
{
    if lx.is_kind(i, Kind::Name) && lx.is_punct(i + 1, ":"@) {
        value_advances(lx, i + 2, vars);
        match parsed_value(lx, i + 2, vars) {
            Parsed::Done(v, j) => {
                fields_advance(lx, j, vars, put(acc, lx.tokens[i].text, v));
            },
            Parsed::Failed(_) => {},
        }
    }
}

/// The models of the names and values that a result holds.
pub open spec fn pairs_of(r: Result<Vec<(String, Value)>, ParseError>) -> Option<
    Seq<(Seq<char>, ValueModel)>,
> {
    match r {
        Ok(v) => Some(pairs_view(v@)),
        Err(_) => None,
    }
}

/// The models of the directives that a result holds.
pub open spec fn directives_of(r: Result<Vec<Directive>, ParseError>) -> Option<
    Seq<DirectiveModel>,
> {
    match r {
        Ok(v) => Some(directives_view(v@)),
        Err(_) => None,
    }
}

/// The text that a result holds.
pub open spec fn text_of(r: Result<String, ParseError>) -> Option<Seq<char>> {
    match r {
        Ok(v) => Some(v@),
        Err(_) => None,
    }
}

/// A parse error with one entry.
fn single_error(position: Pos, entry: Error) -> (e: ParseError)
    ensures
        e@ == (Failure { position, errors: seq![entry@] }),
{
    let mut errors: Vec<Error> = Vec::new();
    errors.push(entry);
    let e = ParseError { position, errors };
    assert(e@.errors =~= seq![entry@]);
    e
}

/// Reads an integer value.
pub fn int_value<'a>(input: &mut Parser<'a>) -> (r: Result<Value, ParseError>)
    requires
        old(input).ready(),
    ensures
        outcome(
            old(input),
            final(input),
            model_of(r),
            failure_of(r),
            parsed_int(old(input).lexed(), old(input).index()),
        ),
{
    if !input.at_kind(Kind::IntValue) {
        return Err(input.fail1("IntValue"));
    }
    let position = input.position();
    let t = input.bump();
    match int_of_literal(t.value) {
        Ok(n) => Ok(Value::Int(Number(n))),
        Err(m) => Err(single_error(position, Error::Other(m))),
    }
}

/// Reads a float value.
pub fn float_value<'a>(input: &mut Parser<'a>) -> (r: Result<Value, ParseError>)
    requires
        old(input).ready(),
    ensures
        outcome(
            old(input),
            final(input),
            model_of(r),
            failure_of(r),
            parsed_float(old(input).lexed(), old(input).index()),
        ),
{
    if !input.at_kind(Kind::FloatValue) {
        return Err(input.fail1("FloatValue"));
    }
    Ok(Value::Float(input.take_text()))
}

/// Reads a quoted string, which is the next token.
fn quoted_text<'a>(input: &mut Parser<'a>) -> (r: Result<String, ParseError>)
    requires
        old(input).ready(),
        old(input).lexed().is_kind(old(input).index(), Kind::StringValue),
    ensures
        final(input).moved(old(input), old(input).index() + 1),
        match unquoted(old(input).lexed().tokens[old(input).index()].text) {
            Ok(t) => r is Ok && r->Ok_0@ == t,
            Err(f) => r is Err && r->Err_0@ == string_failure(
                old(input).lexed(),
                old(input).index(),
                f,
            ),
        },
{
    let position = input.position();
    let t = input.bump();
    match unquote_string(t.value) {
        Ok(s) => Ok(s),
        Err(e) => Err(single_error(position, Error::Unexpected(Info::Owned(e.message())))),
    }
}

/// Reads a block string, which is the next token.
fn block_text<'a>(input: &mut Parser<'a>) -> (s: String)
    requires
        old(input).ready(),
        old(input).lexed().is_kind(old(input).index(), Kind::BlockString),
    ensures
        final(input).moved(old(input), old(input).index() + 1),
        s@ == block_value(block_body(old(input).lexed(), old(input).index())),
{
    let t = input.bump();
    match unquote_block_string(t.value) {
        Ok(s) => s,
        Err(_) => String::new(),
    }
}

/// Reads a string, quoted or block.
pub fn string<'a>(input: &mut Parser<'a>) -> (r: Result<String, ParseError>)
    requires
        old(input).ready(),
    ensures
        outcome(
            old(input),
            final(input),
            text_of(r),
            failure_of(r),
            parsed_string(old(input).lexed(), old(input).index()),
        ),
{
    if input.at_kind(Kind::StringValue) {
        quoted_text(input)
    } else if input.at_kind(Kind::BlockString) {
        Ok(block_text(input))
    } else {
        Err(input.fail2("StringValue", "BlockString"))
    }
}

/// Reads a quoted string as a value.
pub fn string_value<'a>(input: &mut Parser<'a>) -> (r: Result<Value, ParseError>)
    requires
        old(input).ready(),
    ensures
        outcome(
            old(input),
            final(input),
            model_of(r),
            failure_of(r),
            parsed_string_value(old(input).lexed(), old(input).index()),
        ),
{
    if !input.at_kind(Kind::StringValue) {
        return Err(input.fail1("StringValue"));
    }
    match quoted_text(input) {
        Ok(s) => Ok(Value::String(s)),
        Err(e) => Err(e),
    }
}

/// Reads a block string as a value.
pub fn block_string_value<'a>(input: &mut Parser<'a>) -> (r: Result<Value, ParseError>)
    requires
        old(input).ready(),
    ensures
        outcome(
            old(input),
            final(input),
            model_of(r),
            failure_of(r),
            parsed_block_string_value(old(input).lexed(), old(input).index()),
        ),
{
    if !input.at_kind(Kind::BlockString) {
        return Err(input.fail1("BlockString"));
    }
    Ok(Value::String(block_text(input)))
}

/// The failure of a grammar that finds no value where the reader stands:
/// no value without parts if `parts` is false, and else no value at all,
/// variables counted if `vars` is true.
fn fail_value<'a>(input: &Parser<'a>, parts: bool, vars: bool) -> (e: ParseError)
    requires
        input.ready(),
    ensures
        e@ == input.lexed().failure(
            input.index(),
            texts(
                if parts {
                    value_expected(vars)
                } else {
                    plain_expected()
                },
            ),
        ),
{
    let mut v = vec![
        "IntValue",
        "FloatValue",
        "StringValue",
        "BlockString",
        "true",
        "false",
        "null",
        "Name",
    ];
    assert(v@ =~= plain_expected());
    if parts {
        if vars {
            v.push("$");
        }
        v.push("[");
        v.push("{");
        assert(v@ =~= value_expected(vars));
    }
    input.fail(v)
}

/// Reads a value without parts.
pub fn plain_value<'a>(input: &mut Parser<'a>) -> (r: Result<Value, ParseError>)
    requires
        old(input).ready(),
    ensures
        outcome(
            old(input),
            final(input),
            model_of(r),
            failure_of(r),
            parsed_plain(old(input).lexed(), old(input).index()),
        ),
        r is Ok ==> final(input).index() > old(input).index(),
{
    if input.at_word("true") {
        input.bump();
        Ok(Value::Boolean(true))
    } else if input.at_word("false") {
        input.bump();
        Ok(Value::Boolean(false))
    } else if input.at_word("null") {
        input.bump();
        Ok(Value::Null)
    } else if input.at_kind(Kind::Name) {
        Ok(Value::Enum(input.take_text()))
    } else if input.at_kind(Kind::IntValue) {
        int_value(input)
    } else if input.at_kind(Kind::FloatValue) {
        float_value(input)
    } else if input.at_kind(Kind::StringValue) {
        string_value(input)
    } else if input.at_kind(Kind::BlockString) {
        block_string_value(input)
    } else {
        Err(fail_value(input, false, false))
    }
}

/// Whether the next token begins a value without parts.
fn at_plain<'a>(input: &Parser<'a>) -> (b: bool)
    requires
        input.ready(),
    ensures
        b == starts_plain(input.lexed(), input.index()),
{
    input.at_kind(Kind::Name) || input.at_kind(Kind::IntValue) || input.at_kind(Kind::FloatValue)
        || input.at_kind(Kind::StringValue) || input.at_kind(Kind::BlockString)
}

/// Whether the next token begins a value.
fn at_value<'a>(input: &Parser<'a>, vars: bool) -> (b: bool)
    requires
        input.ready(),
    ensures
        b == starts_value(input.lexed(), input.index(), vars),
{
    at_plain(input) || (vars && input.at_punct("$")) || input.at_punct("[") || input.at_punct("{")
}

/// Reads a value; `vars` says whether it may be or hold a variable.
#[verifier::loop_isolation(false)]
pub fn any_value<'a>(input: &mut Parser<'a>, vars: bool) -> (r: Result<Value, ParseError>)
    requires
        old(input).ready(),
    ensures
        outcome(
            old(input),
            final(input),
            model_of(r),
            failure_of(r),
            parsed_value(old(input).lexed(), old(input).index(), vars),
        ),
        r is Ok ==> final(input).index() > old(input).index(),
    decreases old(input).left(),
{
    let ghost lx = input.lexed();
    let ghost start = input.index();
    if at_plain(input) {
        plain_value(input)
    } else if vars && input.at_punct("$") {
        input.bump();
        if input.at_kind(Kind::Name) {
            Ok(Value::Variable(input.take_text()))
        } else {
            Err(input.fail1("Name"))
        }
    } else if input.at_punct("[") {
        input.bump();
        let mut items: Vec<Value> = Vec::new();
        assert(values_view(items@) =~= Seq::<ValueModel>::empty());
        while at_value(input, vars)
            invariant
                input.moved(old(input), input.index()),
                lx == input.lexed(),
                start == old(input).index(),
                start < input.index(),
                parsed_values(lx, start + 1, vars, Seq::empty()) == parsed_values(
                    lx,
                    input.index(),
                    vars,
                    values_view(items@),
                ),
            decreases input.left(),
        {
            let ghost before = values_view(items@);
            match any_value(input, vars) {
                Ok(v) => {
                    items.push(v);
                    assert(values_view(items@) =~= before.push(v@));
                },
                Err(e) => {
                    return Err(e);
                },
            }
        }
        if input.at_punct("]") {
            input.bump();
            Ok(Value::List(items))
        } else {
            Err(input.fail1("]"))
        }
    } else if input.at_punct("{") {
        input.bump();
        let mut fields: Vec<(String, Value)> = Vec::new();
        assert(pairs_view(fields@) =~= Seq::<(Seq<char>, ValueModel)>::empty());
        while input.at_kind(Kind::Name)
            invariant
                input.moved(old(input), input.index()),
                lx == input.lexed(),
                start == old(input).index(),
                start < input.index(),
                parsed_fields(lx, start + 1, vars, Seq::empty()) == parsed_fields(
                    lx,
                    input.index(),
                    vars,
                    pairs_view(fields@),
                ),
            decreases input.left(),
        {
            let name = input.take_text();
            if !input.at_punct(":") {
                return Err(input.fail1(":"));
            }
            input.bump();
            match any_value(input, vars) {
                Ok(v) => {
                    put_field(&mut fields, name, v);
                },
                Err(e) => {
                    return Err(e);
                },
            }
        }
        if input.at_punct("}") {
            input.bump();
            Ok(Value::Object(fields))
        } else {
            Err(input.fail2("Name", "}"))
        }
    } else {
        Err(fail_value(input, true, vars))
    }
}

/// Reads a value, which may be or hold variables.
pub fn value<'a>(input: &mut Parser<'a>) -> (r: Result<Value, ParseError>)
    requires
        old(input).ready(),
    ensures
        outcome(
            old(input),
            final(input),
            model_of(r),
            failure_of(r),
            parsed_value(old(input).lexed(), old(input).index(), true),
        ),
{
    any_value(input, true)
}

/// Reads a value that neither is nor holds a variable, as the default of
/// a variable or of an argument.
pub fn default_value<'a>(input: &mut Parser<'a>) -> (r: Result<Value, ParseError>)
    requires
        old(input).ready(),
    ensures
        outcome(
            old(input),
            final(input),
            model_of(r),
            failure_of(r),
            parsed_value(old(input).lexed(), old(input).index(), false),
        ),
{
    any_value(input, false)
}

/// Reads arguments: none where no parenthesis opens, and else one or
/// more between parentheses, kept in the order of the source.
#[verifier::loop_isolation(false)]
pub fn arguments<'a>(input: &mut Parser<'a>) -> (r: Result<Vec<(String, Value)>, ParseError>)
    requires
        old(input).ready(),
    ensures
        outcome(
            old(input),
            final(input),
            pairs_of(r),
            failure_of(r),
            parsed_arguments(old(input).lexed(), old(input).index()),
        ),
{
    let ghost lx = input.lexed();
    let ghost start = input.index();
    let mut args: Vec<(String, Value)> = Vec::new();
    assert(pairs_view(args@) =~= Seq::<(Seq<char>, ValueModel)>::empty());
    if !input.at_punct("(") {
        return Ok(args);
    }
    input.bump();
    if !input.at_kind(Kind::Name) {
        return Err(input.fail1("Name"));
    }
    while input.at_kind(Kind::Name)
        invariant
            input.moved(old(input), input.index()),
            lx == input.lexed(),
            start == old(input).index(),
            start < input.index(),
            parsed_pairs(lx, start + 1, Seq::empty()) == parsed_pairs(
                lx,
                input.index(),
                pairs_view(args@),
            ),
        decreases input.left(),
    {
        let ghost before = pairs_view(args@);
        let name = input.take_text();
        if !input.at_punct(":") {
            return Err(input.fail1(":"));
        }
        input.bump();
        match any_value(input, true) {
            Ok(v) => {
                args.push((name, v));
                assert(pairs_view(args@) =~= before.push((name@, v@)));
            },
            Err(e) => {
                return Err(e);
            },
        }
    }
    if input.at_punct(")") {
        input.bump();
        Ok(args)
    } else {
        Err(input.fail2("Name", ")"))
    }
}

/// Reads directives: as many as there are.
#[verifier::loop_isolation(false)]
pub fn directives<'a>(input: &mut Parser<'a>) -> (r: Result<Vec<Directive>, ParseError>)
    requires
        old(input).ready(),
    ensures
        outcome(
            old(input),
            final(input),
            directives_of(r),
            failure_of(r),
            parsed_directives(old(input).lexed(), old(input).index(), Seq::empty()),
        ),
        r is Ok && old(input).lexed().is_punct(old(input).index(), "@"@) ==> final(input).index()
            > old(input).index(),
{
    let ghost lx = input.lexed();
    let ghost start = input.index();
    let mut list: Vec<Directive> = Vec::new();
    assert(directives_view(list@) =~= Seq::<DirectiveModel>::empty());
    while input.at_punct("@")
        invariant
            input.moved(old(input), input.index()),
            lx == input.lexed(),
            start == old(input).index(),
            start <= input.index(),
            parsed_directives(lx, start, Seq::empty()) == parsed_directives(
                lx,
                input.index(),
                directives_view(list@),
            ),
        decreases input.left(),
    {
        let ghost before = directives_view(list@);
        let position = input.position();
        input.bump();
        if !input.at_kind(Kind::Name) {
            return Err(input.fail1("Name"));
        }
        let name = input.take_text();
        match arguments(input) {
            Ok(arguments) => {
                let d = Directive { position, name, arguments };
                list.push(d);
                assert(directives_view(list@) =~= before.push(d@));
            },
            Err(e) => {
                return Err(e);
            },
        }
    }
    Ok(list)
}

/// Reads a type.
pub fn parse_type<'a>(input: &mut Parser<'a>) -> (r: Result<Type, ParseError>)
    requires
        old(input).ready(),
    ensures
        outcome(
            old(input),
            final(input),
            model_of(r),
            failure_of(r),
            parsed_type(old(input).lexed(), old(input).index()),
        ),
        r is Ok ==> final(input).index() > old(input).index(),
    decreases old(input).left(),
{
    let base = if input.at_kind(Kind::Name) {
        Type::NamedType(input.take_text())
    } else if input.at_punct("[") {
        input.bump();
        let inner = match parse_type(input) {
            Ok(t) => t,
            Err(e) => {
                return Err(e);
            },
        };
        if !input.at_punct("]") {
            return Err(input.fail1("]"));
        }
        input.bump();
        Type::ListType(Box::new(inner))
    } else {
        return Err(input.fail2("Name", "["));
    };
    assert(parsed_type(old(input).lexed(), old(input).index()) == non_null(old(input).lexed(), base@, input.index()));
    if input.at_punct("!") {
        input.bump();
        let t = Type::NonNullType(Box::new(base));
        assert(t@ == TypeModel::NonNullType(Box::new(base@)));
        Ok(t)
    } else {
        Ok(base)
    }
}

/// Where no `@` stands, there are no directives, and the reader stays.
pub proof fn directives_start(lx: Lexed, i: int)
    ensures
        !lx.is_punct(i, "@"@) ==> parsed_directives(lx, i, Seq::empty()) == Parsed::Done(
            Seq::<DirectiveModel>::empty(),
            i,
        ),
{
}

/// A copy of a list of names with a value each.
#[verifier::loop_isolation(false)]
pub fn clone_pairs(fields: &Vec<(String, Value)>) -> (copy: Vec<(String, Value)>)
    ensures
        pairs_view(copy@) == pairs_view(fields@),
    decreases fields,
{
    let mut copy: Vec<(String, Value)> = Vec::new();
    let mut i: usize = 0;
    while i < fields.len()
        invariant
            i <= fields@.len(),
            copy@.len() == i,
            forall|k: int|
                0 <= k < i ==> (#[trigger] copy@[k]).0@ == fields@[k].0@ && copy@[k].1@
                    == fields@[k].1@,
        decreases fields@.len() - i,
    {
        let value = fields[i].1.clone();
        copy.push((fields[i].0.clone(), value));
        i += 1;
    }
    assert(pairs_view(copy@) =~= pairs_view(fields@));
    copy
}

/// A copy of a list of values.
#[verifier::loop_isolation(false)]
pub fn clone_values(items: &Vec<Value>) -> (copy: Vec<Value>)
    ensures
        values_view(copy@) == values_view(items@),
    decreases items,
{
    let mut copy: Vec<Value> = Vec::new();
    let mut i: usize = 0;
    while i < items.len()
        invariant
            i <= items@.len(),
            copy@.len() == i,
            forall|k: int| 0 <= k < i ==> (#[trigger] copy@[k])@ == items@[k]@,
        decreases items@.len() - i,
    {
        let value = items[i].clone();
        copy.push(value);
        i += 1;
    }
    assert(values_view(copy@) =~= values_view(items@));
    copy
}

impl Clone for Value {
    /// A copy of the value.
    fn clone(&self) -> (copy: Self)
        ensures
            copy@ == self@,
        decreases self,
    {
        match self {
            Value::Variable(n) => Value::Variable(n.clone()),
            Value::Int(n) => Value::Int(Number(n.0)),
            Value::Float(t) => Value::Float(t.clone()),
            Value::String(t) => Value::String(t.clone()),
            Value::Boolean(b) => Value::Boolean(*b),
            Value::Null => Value::Null,
            Value::Enum(n) => Value::Enum(n.clone()),
            Value::List(items) => Value::List(clone_values(items)),
            Value::Object(fields) => Value::Object(clone_pairs(fields)),
        }
    }
}

impl Clone for Type {
    /// A copy of the type.
    fn clone(&self) -> (copy: Self)
        ensures
            copy@ == self@,
        decreases self,
    {
        match self {
            Type::NamedType(n) => Type::NamedType(n.clone()),
            Type::ListType(t) => {
                let inner = (**t).clone();
                let copy = Type::ListType(Box::new(inner));
                assert(copy@ == TypeModel::ListType(Box::new(inner@)));
                copy
            },
            Type::NonNullType(t) => {
                let inner = (**t).clone();
                let copy = Type::NonNullType(Box::new(inner));
                assert(copy@ == TypeModel::NonNullType(Box::new(inner@)));
                copy
            },
        }
    }
}

impl Clone for Directive {
    /// A copy of the directive.
    fn clone(&self) -> (copy: Self)
        ensures
            copy@ == self@,
    {
        Directive {
            position: self.position,
            name: self.name.clone(),
            arguments: clone_pairs(&self.arguments),
        }
    }
}

/// A copy of a list of directives.
pub fn clone_directives(list: &Vec<Directive>) -> (copy: Vec<Directive>)
    ensures
        directives_view(copy@) == directives_view(list@),
{
    let mut copy: Vec<Directive> = Vec::new();
    let mut i: usize = 0;
    while i < list.len()
        invariant
            i <= list@.len(),
            copy@.len() == i,
            forall|k: int| 0 <= k < i ==> (#[trigger] copy@[k])@ == list@[k]@,
        decreases list@.len() - i,
    {
        let d = list[i].clone();
        copy.push(d);
        i += 1;
    }
    assert(directives_view(copy@) =~= directives_view(list@));
    copy
}

} // verus!
