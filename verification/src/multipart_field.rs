//! The description of one field of a record.
//!
//! ```text
//!                  name       max_size             required
//!                   /           /                    /
//!     #[multipart(name="i", max_size=1073741824, required=false)]
//!     pub i: Option<i32>,
//!        ~~~ -----------
//!        /        /
//!   field_name  field_type
//! ```

use crate::attributes_utils::{
    collect_attribute, get_bool, get_string, get_usize, items_view, kind_of, name_values,
    same_text, Attribute, DeriveError, DeriveErrorModel, LitKind, LitModel,
};
use crate::record::{BaseKind, FieldDescriptor, FieldModel, FieldProcessor, TargetKind};
use crate::text::{chars_of, string_of, string_push};
use vstd::prelude::*;
use vstd::string::StringExecFns;

verus! {

/// The first character of the uppercase form of `c`, as `char::to_uppercase`
/// gives it.
pub uninterp spec fn uppercase_first(c: char) -> char;

/// `char::to_uppercase`: the first character that it yields. It yields at
/// least one character for every character.
#[verifier::external_body]
fn char_to_uppercase(c: char) -> (r: char)
    ensures
        r == uppercase_first(c),
{
    c.to_uppercase().next().unwrap_or(c)
}

/// The camel case of the rest `s` of a name; `need` says whether the next
/// character begins a word.
pub open spec fn camel_from(s: Seq<char>, need: bool) -> Seq<char>
    decreases s.len(),
{
    if s.len() == 0 {
        Seq::empty()
    } else if need {
        seq![uppercase_first(s.first())] + camel_from(s.drop_first(), false)
    } else if s.first() == '_' {
        camel_from(s.drop_first(), true)
    } else {
        seq![s.first()] + camel_from(s.drop_first(), false)
    }
}

/// `variable_name` as `VariableName`: the first character and every
/// character after an underscore in uppercase, without those underscores.
pub open spec fn camel_case(s: Seq<char>) -> Seq<char> {
    camel_from(s, true)
}

/// `s` without its blanks.
pub open spec fn without_blanks(s: Seq<char>) -> Seq<char>
    decreases s.len(),
{
    if s.len() == 0 {
        Seq::empty()
    } else if s.last() == ' ' {
        without_blanks(s.drop_last())
    } else {
        without_blanks(s.drop_last()).push(s.last())
    }
}

/// The kind of value that the type named `t` holds.
pub open spec fn base_kind_of(t: Seq<char>) -> Option<BaseKind> {
    if t == "Vec<u8>"@ {
        Some(BaseKind::Bytes)
    } else if t == "String"@ {
        Some(BaseKind::Text)
    } else if t == "bool"@ {
        Some(BaseKind::Bool)
    } else if t == "i8"@ {
        Some(BaseKind::I8)
    } else if t == "i16"@ {
        Some(BaseKind::I16)
    } else if t == "i32"@ {
        Some(BaseKind::I32)
    } else if t == "i64"@ {
        Some(BaseKind::I64)
    } else if t == "u8"@ {
        Some(BaseKind::U8)
    } else if t == "u16"@ {
        Some(BaseKind::U16)
    } else if t == "u32"@ {
        Some(BaseKind::U32)
    } else if t == "u64"@ {
        Some(BaseKind::U64)
    } else {
        None
    }
}

/// The kind of a field of the type that `text` names: one of the kinds of
/// value, or `Option<..>` around one. Blanks in `text` do not count.
pub open spec fn kind_of_type(text: Seq<char>) -> Option<TargetKind> {
    let t = without_blanks(text);
    if t.len() >= 8 && t.take(7) == "Option<"@ && t.last() == '>' {
        match base_kind_of(t.subrange(7, t.len() - 1)) {
            Some(base) => Some(TargetKind { base, optional: true }),
            None => None,
        }
    } else {
        match base_kind_of(t) {
            Some(base) => Some(TargetKind { base, optional: false }),
            None => None,
        }
    }
}

/// The offset of the first `<` in `s`, or the length of `s` without one.
pub open spec fn first_angle(s: Seq<char>) -> int
    decreases s.len(),
{
    if s.len() == 0 || s.first() == '<' {
        0
    } else {
        1 + first_angle(s.drop_first())
    }
}

/// The type `s` as the beginning of a call: `::` stands before its first
/// `<`, unless a `:` or no character of one byte follows that `<`.
pub open spec fn turbofish(s: Seq<char>) -> Seq<char> {
    let p = first_angle(s);
    if p + 1 < s.len() && (s[p + 1] as u32) < 128 && s[p + 1] != ':' {
        s.take(p) + "::"@ + s.skip(p)
    } else {
        s
    }
}

/// The path of the conversion to the type `s`: `Option<i32>` gives
/// `Option::<i32>::try_from`.
pub open spec fn try_from_path(s: Seq<char>) -> Seq<char> {
    turbofish(s) + "::try_from"@
}

/// What the attribute of a field settles.
pub struct FieldSettings {
    pub name: Seq<char>,
    pub required: bool,
    pub max_size: Option<usize>,
}

/// The settings after the item `key = lit` on the field `owner`.
pub open spec fn apply_item(s: FieldSettings, key: Seq<char>, lit: LitModel, owner: Seq<char>)
    -> Result<FieldSettings, DeriveErrorModel> {
    if key == "name"@ {
        match lit {
            LitModel::Str(v) => Ok(FieldSettings { name: v, ..s }),
            _ => Err(
                DeriveErrorModel::WrongType { key, expected: LitKind::Str, found: kind_of(lit) },
            ),
        }
    } else if key == "required"@ {
        match lit {
            LitModel::Bool(v) => Ok(FieldSettings { required: v, ..s }),
            _ => Err(
                DeriveErrorModel::WrongType { key, expected: LitKind::Bool, found: kind_of(lit) },
            ),
        }
    } else if key == "max_size"@ {
        match lit {
            LitModel::Int(v) => Ok(FieldSettings { max_size: Some(v as usize), ..s }),
            _ => Err(
                DeriveErrorModel::WrongType { key, expected: LitKind::Int, found: kind_of(lit) },
            ),
        }
    } else {
        Err(DeriveErrorModel::UnknownAttribute { key, owner })
    }
}

/// The settings after the items `items` in order, or the first error among
/// them.
pub open spec fn apply_items(
    s: FieldSettings,
    items: Seq<(Seq<char>, LitModel)>,
    owner: Seq<char>,
) -> Result<FieldSettings, DeriveErrorModel>
    decreases items.len(),
{
    if items.len() == 0 {
        Ok(s)
    } else {
        match apply_items(s, items.drop_last(), owner) {
            Ok(t) => apply_item(t, items.last().0, items.last().1, owner),
            Err(e) => Err(e),
        }
    }
}

/// The type of a field.
#[derive(Debug)]
pub enum Type {
    /// A type that is named by a path, with the text of the path.
    Path(String),
    /// Any other type.
    Other,
}

/// A field as it is declared.
#[derive(Debug)]
pub struct Field {
    pub ident: Option<String>,
    pub ty: Type,
    pub attrs: Vec<Attribute>,
}

/// The description of a field with a `multipart` attribute.
#[derive(Debug)]
pub struct MultipartField {
    /// Name of the field in the record.
    pub field_name: String,
    /// Name of the sink of the field: `Multipart<RecordName><FieldName>`.
    pub proxy_struct_name: String,
    /// Type of the field.
    pub field_type: String,
    /// Name of the part; the name of the field unless the attribute gives
    /// one.
    pub name: String,
    /// Whether the part is required; `false` unless the attribute says so.
    pub required: bool,
    /// Size limit of the body; unlimited unless the attribute gives one.
    pub max_size: Option<usize>,
}

/// What a [`MultipartField`] holds.
pub struct MultipartFieldModel {
    pub field_name: Seq<char>,
    pub proxy_struct_name: Seq<char>,
    pub field_type: Seq<char>,
    pub name: Seq<char>,
    pub required: bool,
    pub max_size: Option<usize>,
}

impl View for MultipartField {
    type V = MultipartFieldModel;

    open spec fn view(&self) -> MultipartFieldModel {
        MultipartFieldModel {
            field_name: self.field_name@,
            proxy_struct_name: self.proxy_struct_name@,
            field_type: self.field_type@,
            name: self.name@,
            required: self.required,
            max_size: self.max_size,
        }
    }
}

/// The description of the field `field` of the record `struct_name` with
/// the attribute `attribute`, or what is wrong with it.
pub open spec fn field_model(field: Field, attribute: Attribute, struct_name: Seq<char>) -> Result<
    MultipartFieldModel,
    DeriveErrorModel,
> {
    match field.ident {
        None => Err(DeriveErrorModel::NoFieldName),
        Some(ident) => match field.ty {
            Type::Other => Err(DeriveErrorModel::UnsupportedType(ident@)),
            Type::Path(path) => match apply_items(
                FieldSettings { name: ident@, required: false, max_size: None },
                name_values(attribute.nested@),
                ident@,
            ) {
                Err(e) => Err(e),
                Ok(s) => Ok(
                    MultipartFieldModel {
                        field_name: ident@,
                        proxy_struct_name: "Multipart"@ + camel_case(struct_name) + camel_case(
                            ident@,
                        ),
                        field_type: path@,
                        name: s.name,
                        required: s.required,
                        max_size: s.max_size,
                    },
                ),
            },
        },
    }
}

/// The row of the record's table for the field `f` at place `field_id`.
pub open spec fn descriptor_model(f: MultipartFieldModel, field_id: usize) -> Result<
    FieldModel,
    DeriveErrorModel,
> {
    match kind_of_type(f.field_type) {
        Some(kind) => Ok(
            FieldModel {
                field_id,
                part_name: f.name,
                target_kind: kind,
                required: f.required,
                max_size: f.max_size,
            },
        ),
        None => Err(DeriveErrorModel::UnsupportedType(f.field_name)),
    }
}

/// `s` without its blanks.
pub fn remove_blanks(s: &Vec<char>) -> (r: Vec<char>)
    ensures
        r@ == without_blanks(s@),
{
    let mut r: Vec<char> = Vec::new();
    let mut i: usize = 0;
    assert(s@.take(0) =~= Seq::<char>::empty());
    while i < s.len()
        invariant
            i <= s.len(),
            r@ == without_blanks(s@.take(i as int)),
        decreases s.len() - i,
    {
        assert(s@.take(i + 1).drop_last() =~= s@.take(i as int));
        if s[i] != ' ' {
            r.push(s[i]);
        }
        i += 1;
    }
    assert(s@.take(i as int) =~= s@);
    r
}

/// The kind of value that the type named `t` holds.
pub fn base_kind(t: &str) -> (r: Option<BaseKind>)
    ensures
        r == base_kind_of(t@),
{
    if same_text(t, "Vec<u8>") {
        Some(BaseKind::Bytes)
    } else if same_text(t, "String") {
        Some(BaseKind::Text)
    } else if same_text(t, "bool") {
        Some(BaseKind::Bool)
    } else if same_text(t, "i8") {
        Some(BaseKind::I8)
    } else if same_text(t, "i16") {
        Some(BaseKind::I16)
    } else if same_text(t, "i32") {
        Some(BaseKind::I32)
    } else if same_text(t, "i64") {
        Some(BaseKind::I64)
    } else if same_text(t, "u8") {
        Some(BaseKind::U8)
    } else if same_text(t, "u16") {
        Some(BaseKind::U16)
    } else if same_text(t, "u32") {
        Some(BaseKind::U32)
    } else if same_text(t, "u64") {
        Some(BaseKind::U64)
    } else {
        None
    }
}

/// The kind of a field of the type that `text` names.
pub fn target_kind(text: &str) -> (r: Option<TargetKind>)
    ensures
        r == kind_of_type(text@),
{
    let chars = chars_of(text);
    let t = remove_blanks(&chars);
    let n = t.len();
    if n >= 8 && t[n - 1] == '>' {
        let head = string_of(&t, 0, 7);
        assert(t@.take(7) =~= t@.subrange(0, 7));
        if same_text(head.as_str(), "Option<") {
            let inner = string_of(&t, 7, n - 1);
            return match base_kind(inner.as_str()) {
                Some(base) => Some(TargetKind { base, optional: true }),
                None => None,
            };
        }
    }
    let whole = string_of(&t, 0, n);
    assert(t@.subrange(0, n as int) =~= t@);
    match base_kind(whole.as_str()) {
        Some(base) => Some(TargetKind { base, optional: false }),
        None => None,
    }
}

proof fn lemma_first_angle(s: Seq<char>, i: int)
    requires
        0 <= i <= s.len(),
        forall|j: int| 0 <= j < i ==> s[j] != '<',
    ensures
        first_angle(s) == i + first_angle(s.skip(i)),
    decreases i,
{
    if i == 0 {
        assert(s.skip(0) =~= s);
    } else {
        lemma_first_angle(s, i - 1);
        assert(s.skip(i - 1).drop_first() =~= s.skip(i));
    }
}

/// The path of the conversion to the type `field_type`.
pub fn conversion_path(field_type: &str) -> (r: String)
    ensures
        r@ == try_from_path(field_type@),
{
    let chars = chars_of(field_type);
    let n = chars.len();
    let mut p: usize = 0;
    while p < n && chars[p] != '<'
        invariant
            p <= n == chars.len(),
            forall|j: int| 0 <= j < p ==> chars@[j] != '<',
        decreases n - p,
    {
        p += 1;
    }
    proof {
        lemma_first_angle(chars@, p as int);
        if p < n {
            assert(chars@.skip(p as int).first() == chars@[p as int]);
        }
    }
    let mut result: String;
    if p < n && n - p > 1 && (chars[p + 1] as u32) < 128 && chars[p + 1] != ':' {
        result = string_of(&chars, 0, p);
        result.append("::");
        let tail = string_of(&chars, p, n);
        result.append(tail.as_str());
        assert(chars@.subrange(0, p as int) =~= chars@.take(p as int));
        assert(chars@.subrange(p as int, n as int) =~= chars@.skip(p as int));
    } else {
        result = string_of(&chars, 0, n);
        assert(chars@.subrange(0, n as int) =~= chars@);
    }
    result.append("::try_from");
    result
}

/// `syn::parse_str::<syn::Expr>`: whether it reads `text` as an expression.
/// Nothing is claimed of the answer: how the text is cut into tokens depends
/// on where the call is made.
#[verifier::external_body]
fn parses_as_expression(text: &str) -> (r: bool) {
    syn::parse_str::<syn::Expr>(text).is_ok()
}

/// The path `path` where it was read as an expression, and nothing where it
/// was not.
pub fn path_if_expression(path: String, is_expression: bool) -> (r: Option<String>)
    ensures
        r == if is_expression {
            Some(path)
        } else {
            None
        },
{
    if is_expression {
        Some(path)
    } else {
        None
    }
}

/// The path of the conversion to the type `field_type`, where it reads as an
/// expression.
pub fn checked_conversion_path(field_type: &str) -> (r: Option<String>)
    ensures
        r matches Some(path) ==> path@ == try_from_path(field_type@),
{
    let path = conversion_path(field_type);
    let is_expression = parses_as_expression(path.as_str());
    path_if_expression(path, is_expression)
}

impl MultipartField {
    /// `variable_name` as `VariableName`.
    pub fn to_camel_case(s: &str) -> (r: String)
        ensures
            r@ == camel_case(s@),
    {
        let chars = chars_of(s);
        let mut result = String::new();
        let mut need_uppercase: bool = true;
        let mut i: usize = 0;
        assert(chars@.skip(0) =~= chars@);
        assert(result@ + camel_from(chars@, true) =~= camel_case(s@));
        while i < chars.len()
            invariant
                i <= chars.len(),
                chars@ == s@,
                result@ + camel_from(chars@.skip(i as int), need_uppercase) == camel_case(s@),
            decreases chars.len() - i,
        {
            let c = chars[i];
            let ghost rest = chars@.skip(i as int);
            let ghost before = result@;
            assert(rest.first() == c);
            assert(rest.drop_first() =~= chars@.skip(i + 1));
            if need_uppercase {
                string_push(&mut result, char_to_uppercase(c));
                need_uppercase = false;
                assert(result@ + camel_from(chars@.skip(i + 1), false) =~= before + (seq![
                    uppercase_first(c),
                ] + camel_from(chars@.skip(i + 1), false)));
            } else {
                need_uppercase = c == '_';
                if !need_uppercase {
                    string_push(&mut result, c);
                    assert(result@ + camel_from(chars@.skip(i + 1), false) =~= before + (seq![c]
                        + camel_from(chars@.skip(i + 1), false)));
                }
            }
            i += 1;
        }
        assert(result@ + Seq::<char>::empty() =~= result@);
        result
    }

    /// The description of the field `field` of the record `struct_name`,
    /// as its attribute `attribute` settles it.
    pub fn new(field: &Field, attribute: &Attribute, struct_name: &str) -> (r: Result<
        MultipartField,
        DeriveError,
    >)
        ensures
            match field_model(*field, *attribute, struct_name@) {
                Ok(m) => r is Ok && r->Ok_0@ == m,
                Err(e) => r is Err && r->Err_0@ == e,
            },
    {
        let field_name: String = match &field.ident {
            None => {
                return Err(DeriveError::NoFieldName);
            },
            Some(ident) => ident.clone(),
        };
        let mut proxy_struct_name = String::from_str("Multipart");
        let struct_part = MultipartField::to_camel_case(struct_name);
        let field_part = MultipartField::to_camel_case(field_name.as_str());
        proxy_struct_name.append(struct_part.as_str());
        proxy_struct_name.append(field_part.as_str());
        let field_type: String = match &field.ty {
            Type::Path(path) => path.clone(),
            Type::Other => {
                return Err(DeriveError::UnsupportedType(field_name));
            },
        };
        let mut name = field_name.clone();
        let mut required = false;
        let mut max_size: Option<usize> = None;
        let items = collect_attribute(attribute);
        let ghost all = items_view(items@);
        let ghost start = FieldSettings { name: field_name@, required: false, max_size: None };
        let mut i: usize = 0;
        assert(all.take(0) =~= Seq::<(Seq<char>, LitModel)>::empty());
        while i < items.len()
            invariant
                i <= items.len(),
                all == items_view(items@),
                all == name_values(attribute.nested@),
                start == (FieldSettings { name: field_name@, required: false, max_size: None }),
                field.ident is Some,
                field.ident->0@ == field_name@,
                field.ty is Path,
                apply_items(start, all.take(i as int), field_name@) == Ok::<
                    FieldSettings,
                    DeriveErrorModel,
                >(FieldSettings { name: name@, required, max_size }),
            decreases items.len() - i,
        {
            let ghost now = all.take(i + 1);
            assert(now.drop_last() =~= all.take(i as int));
            assert(now.last() == (items@[i as int].0@, items@[i as int].1@));
            let key = items[i].0.as_str();
            let lit = &items[i].1;
            let ghost before = FieldSettings { name: name@, required, max_size };
            let mut failure: Option<DeriveError> = None;
            if same_text(key, "name") {
                match get_string(key, lit) {
                    Ok(v) => {
                        name = v;
                    },
                    Err(e) => {
                        failure = Some(e);
                    },
                }
            } else if same_text(key, "required") {
                match get_bool(key, lit) {
                    Ok(v) => {
                        required = v;
                    },
                    Err(e) => {
                        failure = Some(e);
                    },
                }
            } else if same_text(key, "max_size") {
                match get_usize(key, lit) {
                    Ok(v) => {
                        max_size = Some(v);
                    },
                    Err(e) => {
                        failure = Some(e);
                    },
                }
            } else {
                failure = Some(
                    DeriveError::UnknownAttribute { key: key.to_owned(), owner: field_name.clone() },
                );
            }
            assert(apply_items(start, now, field_name@) == apply_item(
                before,
                now.last().0,
                now.last().1,
                field_name@,
            ));
            match failure {
                Some(e) => {
                    proof {
                        assert(apply_items(start, now, field_name@) == Err::<
                            FieldSettings,
                            DeriveErrorModel,
                        >(e@));
                        lemma_apply_items_error(start, all, i + 1, field_name@);
                    }
                    return Err(e);
                },
                None => {},
            }
            i += 1;
        }
        assert(all.take(i as int) =~= all);
        Ok(MultipartField { field_name, field_type, name, proxy_struct_name, required, max_size })
    }

    /// The row of the record's table for this field: the sink that the
    /// record selects for the part `name` fills the field `field_id`.
    pub fn parser_target_generated_item(&self, field_id: usize) -> (r: Result<
        FieldDescriptor,
        DeriveError,
    >)
        ensures
            match descriptor_model(self@, field_id) {
                Ok(m) => r is Ok && r->Ok_0@ == m,
                Err(e) => r is Err && r->Err_0@ == e,
            },
    {
        match target_kind(self.field_type.as_str()) {
            Some(kind) => Ok(
                FieldDescriptor {
                    field_id,
                    part_name: self.name.clone(),
                    target_kind: kind,
                    required: self.required,
                    max_size: self.max_size,
                },
            ),
            None => Err(DeriveError::UnsupportedType(self.field_name.clone())),
        }
    }

    /// The name of the part, where the part is required.
    pub fn parser_required(&self) -> (r: Option<String>)
        ensures
            match r {
                Some(name) => self.required && name@ == self.name@,
                None => !self.required,
            },
    {
        if self.required {
            Some(self.name.clone())
        } else {
            None
        }
    }

    /// The sink of this field at place `field_id`: it gathers the body of
    /// the part `name` within the size limit and converts it to the type of
    /// the field.
    pub fn impl_process_content(&self, field_id: usize) -> (r: Result<FieldProcessor, DeriveError>)
        ensures
            match descriptor_model(self@, field_id) {
                Ok(m) => r is Ok && r->Ok_0.field() == m && r->Ok_0.processor().raw() == Seq::<
                    u8,
                >::empty() && !r->Ok_0.processor().done(),
                Err(e) => r is Err && r->Err_0@ == e,
            },
    {
        match self.parser_target_generated_item(field_id) {
            Ok(descriptor) => Ok(FieldProcessor::new(&descriptor)),
            Err(e) => Err(e),
        }
    }
}

/// Items of which a beginning fails fail with the same error.
pub proof fn lemma_apply_items_error(
    s: FieldSettings,
    items: Seq<(Seq<char>, LitModel)>,
    n: int,
    owner: Seq<char>,
)
    requires
        0 <= n <= items.len(),
        apply_items(s, items.take(n), owner) is Err,
    ensures
        apply_items(s, items, owner) == apply_items(s, items.take(n), owner),
    decreases items.len() - n,
{
    if n == items.len() {
        assert(items.take(n) =~= items);
    } else {
        assert(items.drop_last().take(n) =~= items.take(n));
        lemma_apply_items_error(s, items.drop_last(), n, owner);
    }
}

} // verus!
