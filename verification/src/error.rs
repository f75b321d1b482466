//! Parse errors: what was found, what was expected, and where.

use vstd::prelude::*;
use vstd::string::*;
use combine::easy;
use crate::position::Pos;
use crate::text::{push_decimal, decimal, debug_of_str, debug_of_char, debug_text, debug_char};
use crate::tokenizer::{Kind, Token, ScanError, ScanFault};
use crate::unquote::{UnquoteError, UnquoteFault};

verus! {

/// A token that owns its text.
#[derive(Debug, PartialEq, Eq, Clone)]
pub struct OwnedToken {
    pub kind: Kind,
    pub value: String,
}

/// What an entry of a parse error speaks of: a token or a text.
#[derive(Debug, PartialEq, Eq, Clone)]
pub enum Info {
    Token(OwnedToken),
    Owned(String),
}

/// One entry of a parse error.
#[derive(Debug, PartialEq, Eq, Clone)]
pub enum Error {
    /// What stands in the source at the error's position.
    Unexpected(Info),
    /// What could have stood there.
    Expected(Info),
    /// A remark of the tokenizer.
    Message(Info),
    /// A remark on a literal that is well-formed but has no value.
    Other(String),
}

/// A parse error: the position at which the source stopped being a
/// document, and what is known of that place.
#[derive(Debug, PartialEq, Eq, Clone)]
pub struct ParseError {
    /// The position where the error occurred.
    pub position: Pos,
    /// Usually one `Unexpected` entry and the `Expected` entries for what
    /// was valid at `position`.
    pub errors: Vec<Error>,
}

/// The mathematical counterpart of [`Info`].
pub enum InfoModel {
    Token(Kind, Seq<char>),
    Owned(Seq<char>),
}

/// The mathematical counterpart of [`Error`].
pub enum ErrorModel {
    Unexpected(InfoModel),
    Expected(InfoModel),
    Message(InfoModel),
    Other(Seq<char>),
}

/// The mathematical counterpart of [`ParseError`].
pub struct Failure {
    pub position: Pos,
    pub errors: Seq<ErrorModel>,
}

impl View for Info {
    type V = InfoModel;

    open spec fn view(&self) -> InfoModel {
        match self {
            Info::Token(t) => InfoModel::Token(t.kind, t.value@),
            Info::Owned(s) => InfoModel::Owned(s@),
        }
    }
}

impl View for Error {
    type V = ErrorModel;

    open spec fn view(&self) -> ErrorModel {
        match self {
            Error::Unexpected(i) => ErrorModel::Unexpected(i@),
            Error::Expected(i) => ErrorModel::Expected(i@),
            Error::Message(i) => ErrorModel::Message(i@),
            Error::Other(s) => ErrorModel::Other(s@),
        }
    }
}

impl View for ParseError {
    type V = Failure;

    open spec fn view(&self) -> Failure {
        Failure { position: self.position, errors: self.errors@.map_values(|e: Error| e@) }
    }
}

/// The name of a token class.
pub open spec fn kind_name(kind: Kind) -> Seq<char> {
    match kind {
        Kind::Punctuator => "Punctuator"@,
        Kind::Name => "Name"@,
        Kind::IntValue => "IntValue"@,
        Kind::FloatValue => "FloatValue"@,
        Kind::StringValue => "StringValue"@,
        Kind::BlockString => "BlockString"@,
    }
}

/// A token as error messages show it: its text, then its class in square
/// brackets.
pub open spec fn token_text(kind: Kind, text: Seq<char>) -> Seq<char> {
    text + seq!['['] + kind_name(kind) + seq![']']
}

/// What the tokenizer says of a fault.
pub open spec fn fault_message(f: ScanFault) -> Seq<char> {
    match f {
        ScanFault::EndOfInput => "end of input"@,
        ScanFault::UnexpectedChar(c) => "unexpected character "@ + debug_char(c),
        ScanFault::BareDot => "bare dot '.' is not suppored, only \"...\""@,
        ScanFault::UnterminatedString => "unterminated string value"@,
        ScanFault::UnterminatedBlockString => "unterminated block string value"@,
        ScanFault::BadInt(t) => "unsupported integer "@ + debug_text(t),
        ScanFault::BadFloat(t) => "unsupported float "@ + debug_text(t),
        ScanFault::RecursionLimit => "Recursion limit exceeded"@,
    }
}

/// The entry that a fault of the tokenizer makes in a parse error: a
/// remark where the brackets are nested too deep, and otherwise the
/// fault's message as the thing that was not expected.
pub open spec fn fault_entry(f: ScanFault) -> ErrorModel {
    match f {
        ScanFault::RecursionLimit => ErrorModel::Message(InfoModel::Owned(fault_message(f))),
        _ => ErrorModel::Unexpected(InfoModel::Owned(fault_message(f))),
    }
}

/// What is said of a malformed quoted string.
pub open spec fn unquote_message(f: UnquoteFault) -> Seq<char> {
    match f {
        UnquoteFault::BadEscape(c) => "bad escaped char "@ + debug_char(c),
        UnquoteFault::DanglingBackslash => "slash cant be at the end"@,
        UnquoteFault::ShortCodePoint(t) => "\\u must have 4 characters after it, only found '"@ + t
            + seq!['\''],
        UnquoteFault::BadCodePoint(t) => t + " is not a valid unicode code point"@,
    }
}

/// An entry as it is shown.
pub open spec fn info_text(i: InfoModel) -> Seq<char> {
    match i {
        InfoModel::Token(kind, text) => token_text(kind, text),
        InfoModel::Owned(text) => text,
    }
}

/// One entry as it is shown by itself.
pub open spec fn entry_text(e: ErrorModel) -> Seq<char> {
    match e {
        ErrorModel::Unexpected(i) => "Unexpected `"@ + info_text(i) + "`"@,
        ErrorModel::Expected(i) => "Expected `"@ + info_text(i) + "`"@,
        ErrorModel::Message(i) => info_text(i),
        ErrorModel::Other(t) => t,
    }
}

/// The part of a shown parse error in which an entry stands.
#[derive(Debug, PartialEq, Eq, Clone, Copy)]
pub enum Part {
    /// What was not expected.
    Unexpected,
    /// What was expected.
    Expected,
    /// The remarks.
    Remark,
}

/// The part in which an entry stands.
pub open spec fn part_of(e: ErrorModel) -> Part {
    match e {
        ErrorModel::Unexpected(_) => Part::Unexpected,
        ErrorModel::Expected(_) => Part::Expected,
        ErrorModel::Message(_) => Part::Remark,
        ErrorModel::Other(_) => Part::Remark,
    }
}

/// What an entry speaks of, as a text.
pub open spec fn part_text(e: ErrorModel) -> Seq<char> {
    match e {
        ErrorModel::Unexpected(i) => info_text(i),
        ErrorModel::Expected(i) => info_text(i),
        ErrorModel::Message(i) => info_text(i),
        ErrorModel::Other(t) => t,
    }
}

/// The texts of those of the first `n` entries that stand in `part`, in
/// their order.
pub open spec fn part_texts(errors: Seq<ErrorModel>, part: Part, n: int) -> Seq<Seq<char>>
    decreases n,
{
    if n <= 0 || n > errors.len() {
        Seq::empty()
    } else if part_of(errors[n - 1]) == part {
        part_texts(errors, part, n - 1).push(part_text(errors[n - 1]))
    } else {
        part_texts(errors, part, n - 1)
    }
}

/// A position as it is shown: the line, a colon, the column.
pub open spec fn position_text(p: Pos) -> Seq<char> {
    decimal(p.line as nat) + seq![':'] + decimal(p.column as nat)
}

/// One line for each text of `texts`, which says that the text was not
/// expected.
pub open spec fn unexpected_lines(texts: Seq<Seq<char>>) -> Seq<char>
    decreases texts.len(),
{
    if texts.len() == 0 {
        Seq::empty()
    } else {
        unexpected_lines(texts.drop_last()) + "Unexpected `"@ + texts.last() + "`\n"@
    }
}

/// What stands before the `k`-th of `total` expected things.
pub open spec fn expected_lead(k: int, total: int) -> Seq<char> {
    if k == 0 {
        "Expected"@
    } else if k < total - 1 {
        ","@
    } else {
        " or"@
    }
}

/// The list of the first `n` texts of `texts`, as things that were
/// expected.
pub open spec fn expected_list(texts: Seq<Seq<char>>, n: int) -> Seq<char>
    decreases n,
{
    if n <= 0 || n > texts.len() {
        Seq::empty()
    } else {
        expected_list(texts, n - 1) + expected_lead(n - 1, texts.len() as int) + " `"@ + texts[n
            - 1] + "`"@
    }
}

/// The line that lists what was expected; nothing, where nothing was.
pub open spec fn expected_line(texts: Seq<Seq<char>>) -> Seq<char> {
    if texts.len() == 0 {
        Seq::empty()
    } else {
        expected_list(texts, texts.len() as int) + seq!['\n']
    }
}

/// One line for each text of `texts`, which holds the text.
pub open spec fn remark_lines(texts: Seq<Seq<char>>) -> Seq<char>
    decreases texts.len(),
{
    if texts.len() == 0 {
        Seq::empty()
    } else {
        remark_lines(texts.drop_last()) + texts.last() + seq!['\n']
    }
}

/// A parse error as it is shown, at a position that is shown as
/// `position`, with the entries `unexpected`, `expected` and `remarks`: the
/// position in a first line, then what was not expected, line by line,
/// what was expected, in one line, and the remarks, line by line.
pub open spec fn shown_text(
    position: Seq<char>,
    unexpected: Seq<Seq<char>>,
    expected: Seq<Seq<char>>,
    remarks: Seq<Seq<char>>,
) -> Seq<char> {
    "Parse error at "@ + position + seq!['\n'] + unexpected_lines(unexpected) + expected_line(
        expected,
    ) + remark_lines(remarks)
}

/// The texts of a list of strings.
pub open spec fn strings(list: Seq<String>) -> Seq<Seq<char>> {
    list.map_values(|t: String| t@)
}

/// `<combine::easy::Errors<String, String, String> as Display>::fmt`,
/// through `format!`, on the error that holds `position` and, in this
/// order, an `Unexpected` entry for each text of `unexpected`, an
/// `Expected` entry for each text of `expected` and a `Message` entry for
/// each text of `remarks`. It writes `Parse error at` and the position in
/// a first line; a line `Unexpected` with the text between backticks for
/// each entry of that kind; the expected texts between backticks in one
/// line, the first after `Expected`, the last after ` or` and the others
/// after a comma; and each remark in a line of its own.
#[verifier::external_body]
pub(crate) fn shown(
    position: String,
    unexpected: Vec<String>,
    expected: Vec<String>,
    remarks: Vec<String>,
) -> (s: String)
    ensures
        s@ == shown_text(position@, strings(unexpected@), strings(expected@), strings(remarks@)),
{
    let errors = unexpected.into_iter().map(|t| easy::Error::Unexpected(easy::Info::Owned(t)))
        .chain(expected.into_iter().map(|t| easy::Error::Expected(easy::Info::Owned(t))))
        .chain(remarks.into_iter().map(|t| easy::Error::Message(easy::Info::Owned(t))))
        .collect();
    format!("{}", easy::Errors::<String, String, String> { position, errors })
}

/// A parse error as it is shown.
pub open spec fn failure_text(f: Failure) -> Seq<char> {
    let n = f.errors.len() as int;
    shown_text(
        position_text(f.position),
        part_texts(f.errors, Part::Unexpected, n),
        part_texts(f.errors, Part::Expected, n),
        part_texts(f.errors, Part::Remark, n),
    )
}

/// A shown parse error under the name of the grammar that it belongs to.
pub open spec fn titled_text(title: Seq<char>, shown: Seq<char>) -> Seq<char> {
    title + " parse error: "@ + shown
}

/// Puts the name of a grammar before a shown parse error.
pub fn titled(title: &str, shown: &str) -> (s: String)
    ensures
        s@ == titled_text(title@, shown@),
{
    let s = String::from_str(title);
    s.concat(" parse error: ").concat(shown)
}

impl Pos {
    /// The position as it is shown.
    pub fn to_string(&self) -> (s: String)
        ensures
            s@ == position_text(*self),
    {
        let mut s = String::new();
        push_decimal(&mut s, self.line as u64);
        s.push(':');
        push_decimal(&mut s, self.column as u64);
        assert(s@ =~= position_text(*self));
        s
    }
}

impl Kind {
    /// The name of the class.
    pub fn name(&self) -> (s: &'static str)
        ensures
            s@ == kind_name(*self),
    {
        match self {
            Kind::Punctuator => "Punctuator",
            Kind::Name => "Name",
            Kind::IntValue => "IntValue",
            Kind::FloatValue => "FloatValue",
            Kind::StringValue => "StringValue",
            Kind::BlockString => "BlockString",
        }
    }
}

impl<'a> Token<'a> {
    /// The token as error messages show it.
    pub fn to_string(&self) -> (s: String)
        ensures
            s@ == token_text(self.kind, self.value@),
    {
        let mut s = String::from_str(self.value);
        s.push('[');
        s.append(self.kind.name());
        s.push(']');
        assert(s@ =~= token_text(self.kind, self.value@));
        s
    }
}

impl OwnedToken {
    /// The token as error messages show it.
    pub fn to_string(&self) -> (s: String)
        ensures
            s@ == token_text(self.kind, self.value@),
    {
        let mut s = self.value.clone();
        s.push('[');
        s.append(self.kind.name());
        s.push(']');
        assert(s@ =~= token_text(self.kind, self.value@));
        s
    }
}

impl ScanError {
    /// What the tokenizer says of the error.
    pub fn message(&self) -> (s: String)
        ensures
            s@ == fault_message(self@),
    {
        match self {
            ScanError::EndOfInput => String::from_str("end of input"),
            ScanError::UnexpectedChar(c) => {
                let s = String::from_str("unexpected character ");
                s.concat(debug_of_char(*c).as_str())
            },
            ScanError::BareDot => String::from_str("bare dot '.' is not suppored, only \"...\""),
            ScanError::UnterminatedString => String::from_str("unterminated string value"),
            ScanError::UnterminatedBlockString => String::from_str(
                "unterminated block string value",
            ),
            ScanError::BadInt(t) => {
                let s = String::from_str("unsupported integer ");
                s.concat(debug_of_str(t.as_str()).as_str())
            },
            ScanError::BadFloat(t) => {
                let s = String::from_str("unsupported float ");
                s.concat(debug_of_str(t.as_str()).as_str())
            },
            ScanError::RecursionLimit => String::from_str("Recursion limit exceeded"),
        }
    }

    /// The entry that the error makes in a parse error.
    pub fn entry(&self) -> (e: Error)
        ensures
            e@ == fault_entry(self@),
    {
        match self {
            ScanError::RecursionLimit => Error::Message(Info::Owned(self.message())),
            _ => Error::Unexpected(Info::Owned(self.message())),
        }
    }

    /// The error as it is shown.
    pub fn to_string(&self) -> (s: String)
        ensures
            s@ == entry_text(fault_entry(self@)),
    {
        self.entry().to_string()
    }
}

impl Error {
    /// The entry as it is shown by itself.
    pub fn to_string(&self) -> (s: String)
        ensures
            s@ == entry_text(self@),
    {
        match self {
            Error::Unexpected(i) => {
                let s = String::from_str("Unexpected `");
                s.concat(i.to_string().as_str()).concat("`")
            },
            Error::Expected(i) => {
                let s = String::from_str("Expected `");
                s.concat(i.to_string().as_str()).concat("`")
            },
            Error::Message(i) => i.to_string(),
            Error::Other(t) => t.clone(),
        }
    }
}

impl UnquoteError {
    /// What is said of the error.
    pub fn message(&self) -> (s: String)
        ensures
            s@ == unquote_message(self@),
    {
        match self {
            UnquoteError::BadEscape(c) => {
                let s = String::from_str("bad escaped char ");
                s.concat(debug_of_char(*c).as_str())
            },
            UnquoteError::DanglingBackslash => String::from_str("slash cant be at the end"),
            UnquoteError::ShortCodePoint(t) => {
                let mut s = String::from_str("\\u must have 4 characters after it, only found '");
                s.append(t.as_str());
                s.push('\'');
                assert(s@ =~= unquote_message(self@));
                s
            },
            UnquoteError::BadCodePoint(t) => {
                let s = t.clone();
                s.concat(" is not a valid unicode code point")
            },
        }
    }
}

impl Info {
    /// The entry as it is shown.
    pub fn to_string(&self) -> (s: String)
        ensures
            s@ == info_text(self@),
    {
        match self {
            Info::Token(t) => t.to_string(),
            Info::Owned(t) => t.clone(),
        }
    }
}

impl Error {
    /// The part of a shown parse error in which the entry stands.
    pub fn part(&self) -> (p: Part)
        ensures
            p == part_of(self@),
    {
        match self {
            Error::Unexpected(_) => Part::Unexpected,
            Error::Expected(_) => Part::Expected,
            Error::Message(_) => Part::Remark,
            Error::Other(_) => Part::Remark,
        }
    }

    /// What the entry speaks of, as a text.
    pub fn text(&self) -> (s: String)
        ensures
            s@ == part_text(self@),
    {
        match self {
            Error::Unexpected(i) => i.to_string(),
            Error::Expected(i) => i.to_string(),
            Error::Message(i) => i.to_string(),
            Error::Other(t) => t.clone(),
        }
    }
}

fn same_part(a: Part, b: Part) -> (same: bool)
    ensures
        same == (a == b),
{
    match (a, b) {
        (Part::Unexpected, Part::Unexpected) => true,
        (Part::Expected, Part::Expected) => true,
        (Part::Remark, Part::Remark) => true,
        _ => false,
    }
}

/// The texts of the entries that stand in `part`, in their order.
pub fn texts_in(errors: &Vec<Error>, part: Part) -> (v: Vec<String>)
    ensures
        strings(v@) == part_texts(errors@.map_values(|e: Error| e@), part, errors@.len() as int),
{
    let ghost es = errors@.map_values(|e: Error| e@);
    let n = errors.len();
    let mut v: Vec<String> = Vec::new();
    let mut i: usize = 0;
    assert(strings(v@) =~= part_texts(es, part, 0));
    while i < n
        invariant
            i <= n,
            n == errors@.len(),
            es == errors@.map_values(|e: Error| e@),
            strings(v@) == part_texts(es, part, i as int),
        decreases n - i,
    {
        assert(es[i as int] == errors@[i as int]@);
        let ghost before = strings(v@);
        if same_part(errors[i].part(), part) {
            let t = errors[i].text();
            v.push(t);
            assert(strings(v@) =~= before.push(t@));
        }
        i += 1;
    }
    v
}

impl ParseError {
    /// The error as it is shown: a line with the position, then the
    /// entries by their parts.
    pub fn to_string(&self) -> (s: String)
        ensures
            s@ == failure_text(self@),
    {
        let unexpected = texts_in(&self.errors, Part::Unexpected);
        let expected = texts_in(&self.errors, Part::Expected);
        let remarks = texts_in(&self.errors, Part::Remark);
        shown(self.position.to_string(), unexpected, expected, remarks)
    }
}

/// Whether two entries are the same.
pub fn same_error(a: &Error, b: &Error) -> (same: bool)
    ensures
        same == (a@ == b@),
{
    match (a, b) {
        (Error::Unexpected(x), Error::Unexpected(y)) => same_info(x, y),
        (Error::Expected(x), Error::Expected(y)) => same_info(x, y),
        (Error::Message(x), Error::Message(y)) => same_info(x, y),
        (Error::Other(x), Error::Other(y)) => crate::parser::same_text(x.as_str(), y.as_str()),
        _ => false,
    }
}

fn same_info(a: &Info, b: &Info) -> (same: bool)
    ensures
        same == (a@ == b@),
{
    match (a, b) {
        (Info::Token(x), Info::Token(y)) => x.kind == y.kind && crate::parser::same_text(
            x.value.as_str(),
            y.value.as_str(),
        ),
        (Info::Owned(x), Info::Owned(y)) => crate::parser::same_text(x.as_str(), y.as_str()),
        _ => false,
    }
}

} // verus!
