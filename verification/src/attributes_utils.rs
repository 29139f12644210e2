//! Reading the attributes of a record description.
//!
//! A record is described by items `key = value` in attributes named
//! `multipart`, on the record and on its fields:
//!
//! ```text
//! #[multipart(name = "file12", max_size = 1073741824, required = true)]
//! ```

use vstd::prelude::*;
use vstd::string::StringExecFns;

verus! {

/// A literal value in an attribute.
#[derive(Debug)]
pub enum Lit {
    Str(String),
    ByteStr(Vec<u8>),
    Byte(u8),
    Char(char),
    Int(u64),
    /// The text of a literal with a fraction or an exponent.
    Float(String),
    Bool(bool),
    /// The text of a literal of no known form.
    Verbatim(String),
}

/// What a [`Lit`] holds.
pub enum LitModel {
    Str(Seq<char>),
    ByteStr(Seq<u8>),
    Byte(u8),
    Char(char),
    Int(u64),
    Float(Seq<char>),
    Bool(bool),
    Verbatim(Seq<char>),
}

impl View for Lit {
    type V = LitModel;

    open spec fn view(&self) -> LitModel {
        match self {
            Lit::Str(s) => LitModel::Str(s@),
            Lit::ByteStr(v) => LitModel::ByteStr(v@),
            Lit::Byte(b) => LitModel::Byte(*b),
            Lit::Char(c) => LitModel::Char(*c),
            Lit::Int(n) => LitModel::Int(*n),
            Lit::Float(s) => LitModel::Float(s@),
            Lit::Bool(b) => LitModel::Bool(*b),
            Lit::Verbatim(s) => LitModel::Verbatim(s@),
        }
    }
}

/// One item between the brackets of an attribute.
#[derive(Debug)]
pub enum NestedMeta {
    /// `key = value`
    NameValue(String, Lit),
    /// Anything else.
    Other,
}

/// An attribute: its name and the items between its brackets.
#[derive(Debug)]
pub struct Attribute {
    pub name: String,
    pub nested: Vec<NestedMeta>,
}

/// What is wrong with the description of a record.
#[derive(Debug)]
pub enum DeriveError {
    /// No attribute of the given name.
    AttributeNotFound(String),
    /// The value of the key `key` is not of the kind `expected`.
    WrongType { key: String, expected: LitKind, found: LitKind },
    /// The key `key` is not known on the field or record `owner`.
    UnknownAttribute { key: String, owner: String },
    /// A field without name.
    NoFieldName,
    /// The type of the named field is none that a body converts to.
    UnsupportedType(String),
    /// What is described is no record with named fields.
    NotAStruct,
}

/// The kinds of literal.
#[derive(PartialEq, Eq, Structural, Clone, Copy, Debug)]
pub enum LitKind {
    Str,
    ByteStr,
    Byte,
    Char,
    Int,
    Float,
    Bool,
    Verbatim,
}

/// What a [`DeriveError`] holds.
pub enum DeriveErrorModel {
    AttributeNotFound(Seq<char>),
    WrongType { key: Seq<char>, expected: LitKind, found: LitKind },
    UnknownAttribute { key: Seq<char>, owner: Seq<char> },
    NoFieldName,
    UnsupportedType(Seq<char>),
    NotAStruct,
}

impl View for DeriveError {
    type V = DeriveErrorModel;

    open spec fn view(&self) -> DeriveErrorModel {
        match self {
            DeriveError::AttributeNotFound(name) => DeriveErrorModel::AttributeNotFound(name@),
            DeriveError::WrongType { key, expected, found } => DeriveErrorModel::WrongType {
                key: key@,
                expected: *expected,
                found: *found,
            },
            DeriveError::UnknownAttribute { key, owner } => DeriveErrorModel::UnknownAttribute {
                key: key@,
                owner: owner@,
            },
            DeriveError::NoFieldName => DeriveErrorModel::NoFieldName,
            DeriveError::UnsupportedType(name) => DeriveErrorModel::UnsupportedType(name@),
            DeriveError::NotAStruct => DeriveErrorModel::NotAStruct,
        }
    }
}

/// The kind of a literal.
pub open spec fn kind_of(lit: LitModel) -> LitKind {
    match lit {
        LitModel::Str(_) => LitKind::Str,
        LitModel::ByteStr(_) => LitKind::ByteStr,
        LitModel::Byte(_) => LitKind::Byte,
        LitModel::Char(_) => LitKind::Char,
        LitModel::Int(_) => LitKind::Int,
        LitModel::Float(_) => LitKind::Float,
        LitModel::Bool(_) => LitKind::Bool,
        LitModel::Verbatim(_) => LitKind::Verbatim,
    }
}

/// The items `key = value` among `nested`, in order.
pub open spec fn name_values(nested: Seq<NestedMeta>) -> Seq<(Seq<char>, LitModel)>
    decreases nested.len(),
{
    if nested.len() == 0 {
        Seq::empty()
    } else {
        let front = name_values(nested.drop_last());
        match nested.last() {
            NestedMeta::NameValue(key, lit) => front.push((key@, lit@)),
            NestedMeta::Other => front,
        }
    }
}

/// The place of the first attribute named `name` among `attributes`.
pub open spec fn first_named(attributes: Seq<Attribute>, name: Seq<char>) -> Option<int>
    decreases attributes.len(),
{
    if attributes.len() == 0 {
        None
    } else {
        match first_named(attributes.drop_last(), name) {
            Some(i) => Some(i),
            None => if attributes.last().name@ == name {
                Some(attributes.len() - 1)
            } else {
                None
            },
        }
    }
}

/// The views of a list of keys and literals.
pub open spec fn items_view(v: Seq<(String, Lit)>) -> Seq<(Seq<char>, LitModel)> {
    v.map_values(|p: (String, Lit)| (p.0@, p.1@))
}

/// Whether two texts are equal.
pub fn same_text(a: &str, b: &str) -> (r: bool)
    ensures
        r == (a@ == b@),
{
    let x: String = a.to_owned();
    let y: String = b.to_owned();
    x == y
}

/// A copy of a literal.
pub fn clone_lit(lit: &Lit) -> (r: Lit)
    ensures
        r@ == lit@,
{
    match lit {
        Lit::Str(s) => Lit::Str(s.clone()),
        Lit::ByteStr(v) => Lit::ByteStr(v.clone()),
        Lit::Byte(b) => Lit::Byte(*b),
        Lit::Char(c) => Lit::Char(*c),
        Lit::Int(n) => Lit::Int(*n),
        Lit::Float(s) => Lit::Float(s.clone()),
        Lit::Bool(b) => Lit::Bool(*b),
        Lit::Verbatim(s) => Lit::Verbatim(s.clone()),
    }
}

/// The items `key = value` of the first attribute named `macro_name`.
pub fn collect_attributes(macro_name: &str, attributes: &Vec<Attribute>) -> (r: Result<
    Vec<(String, Lit)>,
    DeriveError,
>)
    ensures
        match first_named(attributes@, macro_name@) {
            Some(i) => r is Ok && items_view(r->Ok_0@) == name_values(attributes@[i].nested@),
            None => r is Err && r->Err_0@ == DeriveErrorModel::AttributeNotFound(macro_name@),
        },
{
    match find_attribute(macro_name, attributes) {
        None => Err(DeriveError::AttributeNotFound(macro_name.to_owned())),
        Some(attribute) => Ok(collect_attribute(attribute)),
    }
}

/// The first attribute named `macro_name`.
pub fn find_attribute<'a>(macro_name: &str, attributes: &'a Vec<Attribute>) -> (r: Option<
    &'a Attribute,
>)
    ensures
        match first_named(attributes@, macro_name@) {
            Some(i) => 0 <= i < attributes.len() && r == Some(&attributes@[i]),
            None => r is None,
        },
{
    let mut i: usize = 0;
    assert(attributes@.take(0) =~= Seq::<Attribute>::empty());
    while i < attributes.len()
        invariant
            i <= attributes.len(),
            first_named(attributes@.take(i as int), macro_name@) is None,
        decreases attributes.len() - i,
    {
        let ghost now = attributes@.take(i + 1);
        assert(now.drop_last() =~= attributes@.take(i as int));
        assert(now.last() == attributes@[i as int]);
        if same_text(attributes[i].name.as_str(), macro_name) {
            proof {
                lemma_first_named_front(attributes@, i + 1, macro_name@);
            }
            return Some(&attributes[i]);
        }
        i += 1;
    }
    assert(attributes@.take(i as int) =~= attributes@);
    None
}

/// The first attribute of a name among the first `n` is the first of that
/// name among all.
pub proof fn lemma_first_named_front(attributes: Seq<Attribute>, n: int, name: Seq<char>)
    requires
        0 <= n <= attributes.len(),
        first_named(attributes.take(n), name) is Some,
    ensures
        first_named(attributes, name) == first_named(attributes.take(n), name),
    decreases attributes.len() - n,
{
    if n == attributes.len() {
        assert(attributes.take(n) =~= attributes);
    } else {
        assert(attributes.drop_last().take(n) =~= attributes.take(n));
        lemma_first_named_front(attributes.drop_last(), n, name);
    }
}

/// The items `key = value` of an attribute, in order; other items are
/// passed over.
pub fn collect_attribute(attribute: &Attribute) -> (r: Vec<(String, Lit)>)
    ensures
        items_view(r@) == name_values(attribute.nested@),
{
    let mut result: Vec<(String, Lit)> = Vec::new();
    let mut i: usize = 0;
    assert(attribute.nested@.take(0) =~= Seq::<NestedMeta>::empty());
    assert(items_view(result@) =~= Seq::<(Seq<char>, LitModel)>::empty());
    while i < attribute.nested.len()
        invariant
            i <= attribute.nested.len(),
            items_view(result@) == name_values(attribute.nested@.take(i as int)),
        decreases attribute.nested.len() - i,
    {
        let ghost now = attribute.nested@.take(i + 1);
        assert(now.drop_last() =~= attribute.nested@.take(i as int));
        assert(now.last() == attribute.nested@[i as int]);
        match &attribute.nested[i] {
            NestedMeta::NameValue(key, lit) => {
                let ghost front = items_view(result@);
                let item = (key.clone(), clone_lit(lit));
                result.push(item);
                assert(items_view(result@) =~= front.push((key@, lit@)));
            },
            NestedMeta::Other => {},
        }
        i += 1;
    }
    assert(attribute.nested@.take(i as int) =~= attribute.nested@);
    result
}

/// The name of a kind of literal.
pub open spec fn kind_name(kind: LitKind) -> Seq<char> {
    match kind {
        LitKind::Str => "Str"@,
        LitKind::ByteStr => "ByteStr"@,
        LitKind::Byte => "Byte"@,
        LitKind::Char => "Char"@,
        LitKind::Int => "Int"@,
        LitKind::Float => "Float"@,
        LitKind::Bool => "Bool"@,
        LitKind::Verbatim => "Verbatim"@,
    }
}

/// What a value of a kind is called where one is asked for.
pub open spec fn expected_name(kind: LitKind) -> Seq<char> {
    match kind {
        LitKind::Str => "string"@,
        LitKind::Bool => "bool"@,
        LitKind::Int => "int"@,
        other => kind_name(other),
    }
}

/// What an error says in words.
pub open spec fn message_model(e: DeriveErrorModel) -> Seq<char> {
    match e {
        DeriveErrorModel::AttributeNotFound(name) => "Cannot found '"@ + name + "'"@,
        DeriveErrorModel::WrongType { key, expected, found } => "'"@ + key + "' must be "@
            + expected_name(expected) + ", but '"@ + kind_name(found) + "' found"@,
        DeriveErrorModel::UnknownAttribute { key, owner } => "Unknown multipart attribute '"@
            + key + "' in '"@ + owner + "'"@,
        DeriveErrorModel::NoFieldName => "Cannot get field name"@,
        DeriveErrorModel::UnsupportedType(name) =>
            "Only bool, integers, String and Vec<u8>, and Option of these, are allowed: cannot process "@
            + name,
        DeriveErrorModel::NotAStruct => "Only struct allowed"@,
    }
}

/// The name of a kind of literal.
pub fn kind_to_string(kind: LitKind) -> (r: &'static str)
    ensures
        r@ == kind_name(kind),
{
    match kind {
        LitKind::Str => "Str",
        LitKind::ByteStr => "ByteStr",
        LitKind::Byte => "Byte",
        LitKind::Char => "Char",
        LitKind::Int => "Int",
        LitKind::Float => "Float",
        LitKind::Bool => "Bool",
        LitKind::Verbatim => "Verbatim",
    }
}

/// The name of the kind of a literal.
pub fn lit_to_string(lit: &Lit) -> (r: &'static str)
    ensures
        r@ == kind_name(kind_of(lit@)),
{
    kind_to_string(lit_kind(lit))
}

impl DeriveError {
    /// What the error says in words.
    pub fn message(&self) -> (r: String)
        ensures
            r@ == message_model(self@),
    {
        match self {
            DeriveError::AttributeNotFound(name) => {
                let mut r = String::from_str("Cannot found '");
                r.append(name.as_str());
                r.append("'");
                r
            },
            DeriveError::WrongType { key, expected, found } => {
                let mut r = String::from_str("'");
                r.append(key.as_str());
                r.append("' must be ");
                r.append(
                    match expected {
                        LitKind::Str => "string",
                        LitKind::Bool => "bool",
                        LitKind::Int => "int",
                        other => kind_to_string(*other),
                    },
                );
                r.append(", but '");
                r.append(kind_to_string(*found));
                r.append("' found");
                r
            },
            DeriveError::UnknownAttribute { key, owner } => {
                let mut r = String::from_str("Unknown multipart attribute '");
                r.append(key.as_str());
                r.append("' in '");
                r.append(owner.as_str());
                r.append("'");
                r
            },
            DeriveError::NoFieldName => String::from_str("Cannot get field name"),
            DeriveError::UnsupportedType(name) => {
                let mut r = String::from_str(
                    "Only bool, integers, String and Vec<u8>, and Option of these, are allowed: cannot process ",
                );
                r.append(name.as_str());
                r
            },
            DeriveError::NotAStruct => String::from_str("Only struct allowed"),
        }
    }
}

/// The kind of a literal.
pub fn lit_kind(lit: &Lit) -> (r: LitKind)
    ensures
        r == kind_of(lit@),
{
    match lit {
        Lit::Str(_) => LitKind::Str,
        Lit::ByteStr(_) => LitKind::ByteStr,
        Lit::Byte(_) => LitKind::Byte,
        Lit::Char(_) => LitKind::Char,
        Lit::Int(_) => LitKind::Int,
        Lit::Float(_) => LitKind::Float,
        Lit::Bool(_) => LitKind::Bool,
        Lit::Verbatim(_) => LitKind::Verbatim,
    }
}

/// The text that the key `ident` is given.
pub fn get_string(ident: &str, lit: &Lit) -> (r: Result<String, DeriveError>)
    ensures
        match lit@ {
            LitModel::Str(s) => r is Ok && r->Ok_0@ == s,
            _ => r is Err && r->Err_0@ == (DeriveErrorModel::WrongType {
                key: ident@,
                expected: LitKind::Str,
                found: kind_of(lit@),
            }),
        },
{
    match lit {
        Lit::Str(s) => Ok(s.clone()),
        _ => Err(
            DeriveError::WrongType {
                key: ident.to_owned(),
                expected: LitKind::Str,
                found: lit_kind(lit),
            },
        ),
    }
}

/// The truth value that the key `ident` is given.
pub fn get_bool(ident: &str, lit: &Lit) -> (r: Result<bool, DeriveError>)
    ensures
        match lit@ {
            LitModel::Bool(b) => r is Ok && r->Ok_0 == b,
            _ => r is Err && r->Err_0@ == (DeriveErrorModel::WrongType {
                key: ident@,
                expected: LitKind::Bool,
                found: kind_of(lit@),
            }),
        },
{
    match lit {
        Lit::Bool(b) => Ok(*b),
        _ => Err(
            DeriveError::WrongType {
                key: ident.to_owned(),
                expected: LitKind::Bool,
                found: lit_kind(lit),
            },
        ),
    }
}

/// The number that the key `ident` is given.
pub fn get_int(ident: &str, lit: &Lit) -> (r: Result<u64, DeriveError>)
    ensures
        match lit@ {
            LitModel::Int(n) => r is Ok && r->Ok_0 == n,
            _ => r is Err && r->Err_0@ == (DeriveErrorModel::WrongType {
                key: ident@,
                expected: LitKind::Int,
                found: kind_of(lit@),
            }),
        },
{
    match lit {
        Lit::Int(n) => Ok(*n),
        _ => Err(
            DeriveError::WrongType {
                key: ident.to_owned(),
                expected: LitKind::Int,
                found: lit_kind(lit),
            },
        ),
    }
}

/// The number that the key `ident` is given, cut to the width of `usize`.
pub fn get_usize(ident: &str, lit: &Lit) -> (r: Result<usize, DeriveError>)
    ensures
        match lit@ {
            LitModel::Int(n) => r is Ok && r->Ok_0 == n as usize,
            _ => r is Err && r->Err_0@ == (DeriveErrorModel::WrongType {
                key: ident@,
                expected: LitKind::Int,
                found: kind_of(lit@),
            }),
        },
{
    match get_int(ident, lit) {
        Ok(n) => Ok(n as usize),
        Err(e) => Err(e),
    }
}

/// The name that the key `ident` is given.
pub fn get_ident(ident: &str, lit: &Lit) -> (r: Result<String, DeriveError>)
    ensures
        match lit@ {
            LitModel::Str(s) => r is Ok && r->Ok_0@ == s,
            _ => r is Err && r->Err_0@ == (DeriveErrorModel::WrongType {
                key: ident@,
                expected: LitKind::Str,
                found: kind_of(lit@),
            }),
        },
{
    get_string(ident, lit)
}

} // verus!
