//! The description of a record: its name, and its fields that parts fill.

use crate::attributes_utils::{
    collect_attributes, find_attribute, first_named, get_bool, items_view, kind_of, name_values,
    same_text, Attribute, DeriveError, DeriveErrorModel, LitKind, LitModel,
};
use crate::multipart_field::{
    descriptor_model, field_model, Field, MultipartField, MultipartFieldModel,
};
use crate::record::{default_model, FieldModel, Record, ValueModel};
use crate::OnError;
use vstd::prelude::*;

verus! {

/// The fields of a record as they are declared.
#[derive(Debug)]
pub enum Fields {
    /// Fields with names.
    Named(Vec<Field>),
    /// Fields without names.
    Unnamed,
    /// No fields.
    Unit,
}

/// What is declared.
#[derive(Debug)]
pub enum Data {
    Struct(Fields),
    Enum,
    Union,
}

/// A declaration with its attributes.
#[derive(Debug)]
pub struct DeriveInput {
    pub ident: String,
    pub attrs: Vec<Attribute>,
    pub data: Data,
}

/// The description of a record with a `multipart` attribute.
#[derive(Debug)]
pub struct MultipartStruct {
    /// Name of the record.
    pub name: String,
    /// The `debug` of the attribute; `false` unless the attribute gives it.
    pub debug: bool,
    /// The fields with a `multipart` attribute, in order.
    pub fields: Vec<MultipartField>,
}

/// What a [`MultipartStruct`] holds.
pub struct MultipartStructModel {
    pub name: Seq<char>,
    pub debug: bool,
    pub fields: Seq<MultipartFieldModel>,
}

/// The models of a list of field descriptions.
pub open spec fn described_view(v: Seq<MultipartField>) -> Seq<MultipartFieldModel> {
    v.map_values(|f: MultipartField| f@)
}

impl View for MultipartStruct {
    type V = MultipartStructModel;

    open spec fn view(&self) -> MultipartStructModel {
        MultipartStructModel {
            name: self.name@,
            debug: self.debug,
            fields: described_view(self.fields@),
        }
    }
}

/// The `debug` after the item `key = lit` on the record `owner`.
pub open spec fn debug_item(key: Seq<char>, lit: LitModel, owner: Seq<char>) -> Result<
    bool,
    DeriveErrorModel,
> {
    if key == "debug"@ {
        match lit {
            LitModel::Bool(v) => Ok(v),
            _ => Err(
                DeriveErrorModel::WrongType { key, expected: LitKind::Bool, found: kind_of(lit) },
            ),
        }
    } else {
        Err(DeriveErrorModel::UnknownAttribute { key, owner })
    }
}

/// The `debug` that the items `items` settle, or the first error among
/// them.
pub open spec fn debug_of(items: Seq<(Seq<char>, LitModel)>, owner: Seq<char>) -> Result<
    bool,
    DeriveErrorModel,
>
    decreases items.len(),
{
    if items.len() == 0 {
        Ok(false)
    } else {
        match debug_of(items.drop_last(), owner) {
            Ok(_) => debug_item(items.last().0, items.last().1, owner),
            Err(e) => Err(e),
        }
    }
}

/// The descriptions of the fields among `fields` that have a `multipart`
/// attribute, or the first error among them.
pub open spec fn described_fields(fields: Seq<Field>, struct_name: Seq<char>) -> Result<
    Seq<MultipartFieldModel>,
    DeriveErrorModel,
>
    decreases fields.len(),
{
    if fields.len() == 0 {
        Ok(Seq::empty())
    } else {
        match described_fields(fields.drop_last(), struct_name) {
            Err(e) => Err(e),
            Ok(front) => match first_named(fields.last().attrs@, "multipart"@) {
                None => Ok(front),
                Some(i) => match field_model(
                    fields.last(),
                    fields.last().attrs@[i],
                    struct_name,
                ) {
                    Ok(m) => Ok(front.push(m)),
                    Err(e) => Err(e),
                },
            },
        }
    }
}

/// The description of the record that `ast` declares, or what is wrong
/// with it.
pub open spec fn struct_model(ast: DeriveInput) -> Result<MultipartStructModel, DeriveErrorModel> {
    match first_named(ast.attrs@, "multipart"@) {
        None => Err(DeriveErrorModel::AttributeNotFound("multipart"@)),
        Some(i) => match debug_of(name_values(ast.attrs@[i].nested@), ast.ident@) {
            Err(e) => Err(e),
            Ok(debug) => match ast.data {
                Data::Struct(Fields::Named(fields)) => match described_fields(
                    fields@,
                    ast.ident@,
                ) {
                    Ok(described) => Ok(
                        MultipartStructModel { name: ast.ident@, debug, fields: described },
                    ),
                    Err(e) => Err(e),
                },
                _ => Err(DeriveErrorModel::NotAStruct),
            },
        },
    }
}

/// The table of the record with the fields `fields`: one row for each
/// field, at the place of the field; or the first error among them.
pub open spec fn table_of(fields: Seq<MultipartFieldModel>) -> Result<
    Seq<FieldModel>,
    DeriveErrorModel,
>
    decreases fields.len(),
{
    if fields.len() == 0 {
        Ok(Seq::empty())
    } else {
        match table_of(fields.drop_last()) {
            Err(e) => Err(e),
            Ok(front) => match descriptor_model(fields.last(), (fields.len() - 1) as usize) {
                Ok(row) => Ok(front.push(row)),
                Err(e) => Err(e),
            },
        }
    }
}

/// The defaults of the rows `rows`.
pub open spec fn defaults_of(rows: Seq<FieldModel>) -> Seq<ValueModel> {
    rows.map_values(|row: FieldModel| default_model(row.target_kind))
}

/// Items of which a beginning fails fail with the same error.
pub proof fn lemma_debug_of_error(items: Seq<(Seq<char>, LitModel)>, n: int, owner: Seq<char>)
    requires
        0 <= n <= items.len(),
        debug_of(items.take(n), owner) is Err,
    ensures
        debug_of(items, owner) == debug_of(items.take(n), owner),
    decreases items.len() - n,
{
    if n == items.len() {
        assert(items.take(n) =~= items);
    } else {
        assert(items.drop_last().take(n) =~= items.take(n));
        lemma_debug_of_error(items.drop_last(), n, owner);
    }
}

/// Fields of which a beginning fails fail with the same error.
pub proof fn lemma_described_fields_error(fields: Seq<Field>, n: int, struct_name: Seq<char>)
    requires
        0 <= n <= fields.len(),
        described_fields(fields.take(n), struct_name) is Err,
    ensures
        described_fields(fields, struct_name) == described_fields(fields.take(n), struct_name),
    decreases fields.len() - n,
{
    if n == fields.len() {
        assert(fields.take(n) =~= fields);
    } else {
        assert(fields.drop_last().take(n) =~= fields.take(n));
        lemma_described_fields_error(fields.drop_last(), n, struct_name);
    }
}

/// Fields of which a beginning has no table have no table, for the same
/// reason.
pub proof fn lemma_table_of_error(fields: Seq<MultipartFieldModel>, n: int)
    requires
        0 <= n <= fields.len(),
        table_of(fields.take(n)) is Err,
    ensures
        table_of(fields) == table_of(fields.take(n)),
    decreases fields.len() - n,
{
    if n == fields.len() {
        assert(fields.take(n) =~= fields);
    } else {
        assert(fields.drop_last().take(n) =~= fields.take(n));
        lemma_table_of_error(fields.drop_last(), n);
    }
}

impl MultipartStruct {
    /// The description of the record that `ast` declares. The record must
    /// have a `multipart` attribute, which may give `debug` and nothing
    /// else, and named fields; of these the ones with a `multipart`
    /// attribute are described.
    pub fn new(ast: &DeriveInput) -> (r: Result<MultipartStruct, DeriveError>)
        ensures
            match struct_model(*ast) {
                Ok(m) => r is Ok && r->Ok_0@ == m,
                Err(e) => r is Err && r->Err_0@ == e,
            },
    {
        let name = ast.ident.clone();
        let mut debug = false;
        let items = match collect_attributes("multipart", &ast.attrs) {
            Ok(items) => items,
            Err(e) => {
                return Err(e);
            },
        };
        let ghost all = items_view(items@);
        let mut i: usize = 0;
        assert(all.take(0) =~= Seq::<(Seq<char>, LitModel)>::empty());
        while i < items.len()
            invariant
                i <= items.len(),
                all == items_view(items@),
                first_named(ast.attrs@, "multipart"@) is Some,
                all == name_values(ast.attrs@[first_named(ast.attrs@, "multipart"@)->0].nested@),
                name@ == ast.ident@,
                debug_of(all.take(i as int), name@) == Ok::<bool, DeriveErrorModel>(debug),
            decreases items.len() - i,
        {
            let ghost now = all.take(i + 1);
            assert(now.drop_last() =~= all.take(i as int));
            assert(now.last() == (items@[i as int].0@, items@[i as int].1@));
            let key = items[i].0.as_str();
            let mut failure: Option<DeriveError> = None;
            if same_text(key, "debug") {
                match get_bool(key, &items[i].1) {
                    Ok(v) => {
                        debug = v;
                    },
                    Err(e) => {
                        failure = Some(e);
                    },
                }
            } else {
                failure = Some(
                    DeriveError::UnknownAttribute { key: key.to_owned(), owner: name.clone() },
                );
            }
            assert(debug_of(now, name@) == debug_item(now.last().0, now.last().1, name@));
            match failure {
                Some(e) => {
                    proof {
                        lemma_debug_of_error(all, i + 1, name@);
                    }
                    return Err(e);
                },
                None => {},
            }
            i += 1;
        }
        assert(all.take(i as int) =~= all);
        let declared: &Vec<Field> = match &ast.data {
            Data::Struct(Fields::Named(fields)) => fields,
            _ => {
                return Err(DeriveError::NotAStruct);
            },
        };
        let mut fields: Vec<MultipartField> = Vec::new();
        let mut j: usize = 0;
        assert(declared@.take(0) =~= Seq::<Field>::empty());
        assert(described_view(fields@) =~= Seq::<MultipartFieldModel>::empty());
        while j < declared.len()
            invariant
                j <= declared.len(),
                name@ == ast.ident@,
                first_named(ast.attrs@, "multipart"@) is Some,
                debug_of(
                    name_values(ast.attrs@[first_named(ast.attrs@, "multipart"@)->0].nested@),
                    ast.ident@,
                ) == Ok::<bool, DeriveErrorModel>(debug),
                ast.data == Data::Struct(Fields::Named(*declared)),
                described_fields(declared@.take(j as int), name@) == Ok::<
                    Seq<MultipartFieldModel>,
                    DeriveErrorModel,
                >(described_view(fields@)),
            decreases declared.len() - j,
        {
            let ghost now = declared@.take(j + 1);
            assert(now.drop_last() =~= declared@.take(j as int));
            assert(now.last() == declared@[j as int]);
            match find_attribute("multipart", &declared[j].attrs) {
                None => {},
                Some(attribute) => {
                    match MultipartField::new(&declared[j], attribute, name.as_str()) {
                        Ok(field) => {
                            let ghost front = described_view(fields@);
                            fields.push(field);
                            assert(described_view(fields@) =~= front.push(field@));
                        },
                        Err(e) => {
                            proof {
                                assert(described_fields(now, name@) == Err::<
                                    Seq<MultipartFieldModel>,
                                    DeriveErrorModel,
                                >(e@));
                                lemma_described_fields_error(declared@, j + 1, name@);
                            }
                            return Err(e);
                        },
                    }
                },
            }
            j += 1;
        }
        assert(declared@.take(j as int) =~= declared@);
        Ok(MultipartStruct { name, debug, fields })
    }

    /// The record that this description binds: it has one field for each
    /// described field, in order, each with the default of its kind; it
    /// selects for the part of each name the sink of the first field of
    /// that name, and the names of its required fields are the required
    /// parts.
    pub fn impl_multipart_parser_target_generated(&self) -> (r: Result<Record, DeriveError>)
        ensures
            match table_of(self@.fields) {
                Ok(rows) => {
                    &&& r is Ok
                    &&& r->Ok_0.wf()
                    &&& r->Ok_0@.fields == rows
                    &&& r->Ok_0@.values == defaults_of(rows)
                    &&& r->Ok_0@.errors.len() == 0
                    &&& r->Ok_0@.answer == OnError::ContinueWithoutError
                    &&& !r->Ok_0@.finished
                },
                Err(e) => r is Err && r->Err_0@ == e,
            },
    {
        let mut record = Record::new();
        let ghost all = described_view(self.fields@);
        let mut i: usize = 0;
        assert(all.take(0) =~= Seq::<MultipartFieldModel>::empty());
        assert(record@.fields =~= Seq::<FieldModel>::empty());
        assert(record@.values =~= defaults_of(record@.fields));
        while i < self.fields.len()
            invariant
                i <= self.fields.len(),
                all == described_view(self.fields@),
                record.wf(),
                table_of(all.take(i as int)) == Ok::<Seq<FieldModel>, DeriveErrorModel>(
                    record@.fields,
                ),
                record@.fields.len() == i,
                record@.values == defaults_of(record@.fields),
                record@.errors.len() == 0,
                record@.answer == OnError::ContinueWithoutError,
                !record@.finished,
            decreases self.fields.len() - i,
        {
            let ghost now = all.take(i + 1);
            assert(now.drop_last() =~= all.take(i as int));
            assert(now.last() == self.fields@[i as int]@);
            match self.fields[i].parser_target_generated_item(i) {
                Ok(row) => {
                    let ghost rows = record@.fields;
                    record.add_field(
                        row.part_name.as_str(),
                        row.target_kind,
                        row.required,
                        row.max_size,
                    );
                    assert(record@.values =~= defaults_of(record@.fields));
                },
                Err(e) => {
                    proof {
                        lemma_table_of_error(all, i + 1);
                    }
                    return Err(e);
                },
            }
            i += 1;
        }
        assert(all.take(i as int) =~= all);
        Ok(record)
    }
}

} // verus!
