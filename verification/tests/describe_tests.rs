use gnitive_multipart::attributes_utils::{
    collect_attribute, collect_attributes, find_attribute, get_bool, get_ident, get_int,
    get_string, get_usize, kind_to_string, lit_kind, lit_to_string, same_text, Attribute,
    DeriveError, Lit, LitKind, NestedMeta,
};
use gnitive_multipart::boundary_builder::BoundaryBuilder;
use gnitive_multipart::multipart_field::{
    base_kind, checked_conversion_path, conversion_path, path_if_expression, remove_blanks,
    target_kind, Field, MultipartField, Type,
};
use gnitive_multipart::multipart_struct::{Data, DeriveInput, Fields, MultipartStruct};
use gnitive_multipart::record::{BaseKind, Scalar, TargetKind, Value};
use gnitive_multipart::{MultipartParserTargetGenerated, OnError, ProcessContent};

fn item(key: &str, lit: Lit) -> NestedMeta {
    NestedMeta::NameValue(key.to_string(), lit)
}

fn multipart(items: Vec<NestedMeta>) -> Attribute {
    Attribute { name: "multipart".to_string(), nested: items }
}

fn field(name: &str, ty: &str, attrs: Vec<Attribute>) -> Field {
    Field { ident: Some(name.to_string()), ty: Type::Path(ty.to_string()), attrs }
}

#[test]
fn delimiters_are_built_from_pieces() {
    let mut v: Vec<u8> = Vec::new();
    v.append_prelude().append_boundary(&b"X1".to_vec()).append_crlf();
    assert_eq!(v, b"--X1\r\n".to_vec());
    let mut w: Vec<u8> = vec![b'a'];
    w.append_crlf().append_prelude().append_boundary(&vec![]);
    assert_eq!(w, b"a\r\n--".to_vec());
}

#[test]
fn literals_by_kind() {
    assert_eq!(get_string("name", &Lit::Str("x".to_string())).unwrap(), "x");
    assert_eq!(get_ident("name", &Lit::Str("x".to_string())).unwrap(), "x");
    assert!(get_bool("debug", &Lit::Bool(true)).unwrap());
    assert_eq!(get_int("n", &Lit::Int(12)).unwrap(), 12);
    assert_eq!(get_usize("max_size", &Lit::Int(1048576)).unwrap(), 1048576usize);
    match get_string("name", &Lit::Int(3)) {
        Err(DeriveError::WrongType { key, expected, found }) => {
            assert_eq!(key, "name");
            assert_eq!(expected, LitKind::Str);
            assert_eq!(found, LitKind::Int);
        }
        other => panic!("unexpected {:?}", other),
    }
    assert!(matches!(get_bool("debug", &Lit::Str("true".to_string())), Err(DeriveError::WrongType { expected: LitKind::Bool, found: LitKind::Str, .. })));
    assert!(matches!(get_int("n", &Lit::Float("1.5".to_string())), Err(DeriveError::WrongType { expected: LitKind::Int, found: LitKind::Float, .. })));
    assert!(matches!(get_usize("n", &Lit::Bool(false)), Err(DeriveError::WrongType { expected: LitKind::Int, found: LitKind::Bool, .. })));
    let kinds = [
        (Lit::Str(String::new()), LitKind::Str),
        (Lit::ByteStr(vec![]), LitKind::ByteStr),
        (Lit::Byte(0), LitKind::Byte),
        (Lit::Char('c'), LitKind::Char),
        (Lit::Int(0), LitKind::Int),
        (Lit::Float(String::new()), LitKind::Float),
        (Lit::Bool(false), LitKind::Bool),
        (Lit::Verbatim(String::new()), LitKind::Verbatim),
    ];
    let names = ["Str", "ByteStr", "Byte", "Char", "Int", "Float", "Bool", "Verbatim"];
    for ((lit, kind), name) in kinds.iter().zip(names.iter()) {
        assert_eq!(lit_kind(lit), *kind);
        assert_eq!(lit_to_string(lit), *name);
        assert_eq!(kind_to_string(*kind), *name);
    }
}

#[test]
fn attributes_are_found_by_name() {
    let attrs = vec![
        Attribute { name: "derive".to_string(), nested: vec![NestedMeta::Other] },
        multipart(vec![item("name", Lit::Str("first".to_string())), NestedMeta::Other, item("required", Lit::Bool(true))]),
        multipart(vec![item("name", Lit::Str("second".to_string()))]),
    ];
    let found = find_attribute("multipart", &attrs).unwrap();
    assert_eq!(found.nested.len(), 3);
    assert!(find_attribute("other", &attrs).is_none());
    let items = collect_attribute(found);
    assert_eq!(items.len(), 2);
    assert_eq!(items[0].0, "name");
    assert!(matches!(&items[0].1, Lit::Str(s) if s == "first"));
    assert_eq!(items[1].0, "required");
    let all = collect_attributes("multipart", &attrs).unwrap();
    assert_eq!(all.len(), 2);
    assert!(matches!(collect_attributes("serde", &attrs), Err(DeriveError::AttributeNotFound(n)) if n == "serde"));
    assert!(same_text("a", "a"));
    assert!(!same_text("a", "A"));
}

#[test]
fn camel_case() {
    assert_eq!(MultipartField::to_camel_case("variable_name"), "VariableName");
    assert_eq!(MultipartField::to_camel_case("test"), "Test");
    assert_eq!(MultipartField::to_camel_case("file_2_x"), "File2X");
    assert_eq!(MultipartField::to_camel_case("a__b"), "A_b");
    assert_eq!(MultipartField::to_camel_case("_a"), "_a");
    assert_eq!(MultipartField::to_camel_case("trailing_"), "Trailing");
    assert_eq!(MultipartField::to_camel_case(""), "");
    assert_eq!(MultipartField::to_camel_case("\u{e9}t\u{e9}_\u{df}"), "\u{c9}t\u{e9}S");
}

#[test]
fn kinds_of_types() {
    assert_eq!(target_kind("i32"), Some(TargetKind { base: BaseKind::I32, optional: false }));
    assert_eq!(target_kind("Option < i32 >"), Some(TargetKind { base: BaseKind::I32, optional: true }));
    assert_eq!(target_kind("Vec < u8 >"), Some(TargetKind { base: BaseKind::Bytes, optional: false }));
    assert_eq!(target_kind("Option<Vec<u8>>"), Some(TargetKind { base: BaseKind::Bytes, optional: true }));
    assert_eq!(target_kind("String"), Some(TargetKind { base: BaseKind::Text, optional: false }));
    assert_eq!(target_kind("Option<String>"), Some(TargetKind { base: BaseKind::Text, optional: true }));
    assert_eq!(target_kind("bool"), Some(TargetKind { base: BaseKind::Bool, optional: false }));
    for (name, base) in [("i8", BaseKind::I8), ("i16", BaseKind::I16), ("i64", BaseKind::I64), ("u8", BaseKind::U8), ("u16", BaseKind::U16), ("u32", BaseKind::U32), ("u64", BaseKind::U64)] {
        assert_eq!(base_kind(name), Some(base));
    }
    for bad in ["", "Option<>", "Option<Option<i32>>", "Vec<u16>", "usize", "Option<i32", "std::string::String", "Option<"] {
        assert_eq!(target_kind(bad), None, "{}", bad);
    }
    let s: String = remove_blanks(&" a  b ".chars().collect()).into_iter().collect();
    assert_eq!(s, "ab");
}

#[test]
fn conversion_paths() {
    assert_eq!(conversion_path("i32"), "i32::try_from");
    assert_eq!(conversion_path("Option < i32 >"), "Option ::< i32 >::try_from");
    assert_eq!(conversion_path("Option<i32>"), "Option::<i32>::try_from");
    assert_eq!(conversion_path("Vec<u8>"), "Vec::<u8>::try_from");
    assert_eq!(conversion_path("a<:b>"), "a<:b>::try_from");
    assert_eq!(conversion_path("a<b<c>>"), "a::<b<c>>::try_from");
    assert_eq!(conversion_path("Option<Vec<u8>>"), "Option::<Vec<u8>>::try_from");
    assert_eq!(conversion_path("a<"), "a<::try_from");
    assert_eq!(conversion_path("a<\u{e9}>"), "a<\u{e9}>::try_from");
    assert_eq!(conversion_path(""), "::try_from");
}

#[test]
fn field_description_defaults_and_attributes() {
    let plain = MultipartField::new(&field("file_one", "Vec < u8 >", vec![]), &multipart(vec![]), "upload_form").unwrap();
    assert_eq!(plain.field_name, "file_one");
    assert_eq!(plain.name, "file_one");
    assert_eq!(plain.proxy_struct_name, "MultipartUploadFormFileOne");
    assert_eq!(plain.field_type, "Vec < u8 >");
    assert!(!plain.required);
    assert_eq!(plain.max_size, None);
    assert_eq!(plain.parser_required(), None);

    let attr = multipart(vec![
        item("name", Lit::Str("file12".to_string())),
        item("max_size", Lit::Int(1073741824)),
        item("required", Lit::Bool(true)),
        item("name", Lit::Str("last".to_string())),
    ]);
    let f = MultipartField::new(&field("file2", "Vec<u8>", vec![]), &attr, "Test").unwrap();
    assert_eq!(f.name, "last");
    assert_eq!(f.max_size, Some(1073741824));
    assert!(f.required);
    assert_eq!(f.proxy_struct_name, "MultipartTestFile2");
    assert_eq!(f.parser_required(), Some("last".to_string()));
    let row = f.parser_target_generated_item(3).unwrap();
    assert_eq!(row.field_id, 3);
    assert_eq!(row.part_name, "last");
    assert_eq!(row.target_kind, TargetKind { base: BaseKind::Bytes, optional: false });
    assert!(row.required);
    assert_eq!(row.max_size, Some(1073741824));
    let sink = f.impl_process_content(3).unwrap();
    assert_eq!(sink.get_process_params().name, "last");
    assert_eq!(sink.get_process_params().max_size, Some(1073741824));
    assert!(sink.raw_data().is_empty());
}

#[test]
fn field_description_errors() {
    let nameless = Field { ident: None, ty: Type::Path("i32".to_string()), attrs: vec![] };
    assert!(matches!(MultipartField::new(&nameless, &multipart(vec![]), "T"), Err(DeriveError::NoFieldName)));
    let tuple = Field { ident: Some("t".to_string()), ty: Type::Other, attrs: vec![] };
    assert!(matches!(MultipartField::new(&tuple, &multipart(vec![]), "T"), Err(DeriveError::UnsupportedType(n)) if n == "t"));
    let unknown = multipart(vec![item("required", Lit::Bool(true)), item("default", Lit::Int(1)), item("name", Lit::Int(1))]);
    match MultipartField::new(&field("i", "i32", vec![]), &unknown, "T") {
        Err(DeriveError::UnknownAttribute { key, owner }) => {
            assert_eq!(key, "default");
            assert_eq!(owner, "i");
        }
        other => panic!("unexpected {:?}", other),
    }
    let wrong = multipart(vec![item("max_size", Lit::Str("big".to_string()))]);
    assert!(matches!(
        MultipartField::new(&field("i", "i32", vec![]), &wrong, "T"),
        Err(DeriveError::WrongType { key, expected: LitKind::Int, found: LitKind::Str }) if key == "max_size"
    ));
    let float_field = MultipartField::new(&field("x", "f64", vec![]), &multipart(vec![]), "T").unwrap();
    assert!(matches!(float_field.parser_target_generated_item(0), Err(DeriveError::UnsupportedType(n)) if n == "x"));
    assert!(matches!(float_field.impl_process_content(0), Err(DeriveError::UnsupportedType(n)) if n == "x"));
}

fn test_struct() -> DeriveInput {
    DeriveInput {
        ident: "Test".to_string(),
        attrs: vec![
            Attribute { name: "derive".to_string(), nested: vec![NestedMeta::Other] },
            multipart(vec![item("debug", Lit::Bool(true))]),
        ],
        data: Data::Struct(Fields::Named(vec![
            field("i", "Option < i32 >", vec![multipart(vec![item("name", Lit::Str("i".to_string())), item("required", Lit::Bool(false))])]),
            field("not_bound", "u8", vec![]),
            field("file2", "Vec < u8 >", vec![multipart(vec![item("name", Lit::Str("file12".to_string())), item("max_size", Lit::Int(1073741824)), item("required", Lit::Bool(true))])]),
            field("s", "String", vec![multipart(vec![item("name", Lit::Str("text1".to_string()))])]),
        ])),
    }
}

#[test]
fn struct_description() {
    let s = MultipartStruct::new(&test_struct()).unwrap();
    assert_eq!(s.name, "Test");
    assert!(s.debug);
    assert_eq!(s.fields.len(), 3);
    assert_eq!(s.fields[0].field_name, "i");
    assert_eq!(s.fields[1].name, "file12");
    assert_eq!(s.fields[1].proxy_struct_name, "MultipartTestFile2");
    assert_eq!(s.fields[2].name, "text1");

    let record = s.impl_multipart_parser_target_generated().unwrap();
    assert_eq!(record.fields().len(), 3);
    assert_eq!(record.fields()[1].field_id, 1);
    assert_eq!(record.fields()[1].part_name, "file12");
    assert_eq!(record.get_all_required(), vec!["file12".to_string()]);
    assert!(matches!(record.get(0), Some(Value::Optional(None))));
    assert!(matches!(record.get(1), Some(Value::Plain(Scalar::Bytes(v))) if v.is_empty()));
    assert!(matches!(record.get(2), Some(Value::Plain(Scalar::Text(t))) if t.is_empty()));
    assert!(record.errors().is_empty());
    let mut record = record;
    let e = gnitive_multipart::MultipartParseError::NoError;
    assert!(matches!(gnitive_multipart::MultipartParserTarget::error(&mut record, &e), Ok(OnError::ContinueWithoutError)));
}

#[test]
fn struct_description_errors() {
    let mut no_attribute = test_struct();
    no_attribute.attrs.pop();
    assert!(matches!(MultipartStruct::new(&no_attribute), Err(DeriveError::AttributeNotFound(n)) if n == "multipart"));

    let mut unknown = test_struct();
    unknown.attrs[1] = multipart(vec![item("verbose", Lit::Bool(true))]);
    assert!(matches!(
        MultipartStruct::new(&unknown),
        Err(DeriveError::UnknownAttribute { key, owner }) if key == "verbose" && owner == "Test"
    ));

    let mut wrong = test_struct();
    wrong.attrs[1] = multipart(vec![item("debug", Lit::Str("yes".to_string()))]);
    assert!(matches!(MultipartStruct::new(&wrong), Err(DeriveError::WrongType { expected: LitKind::Bool, .. })));

    let mut an_enum = test_struct();
    an_enum.data = Data::Enum;
    assert!(matches!(MultipartStruct::new(&an_enum), Err(DeriveError::NotAStruct)));
    an_enum.data = Data::Union;
    assert!(matches!(MultipartStruct::new(&an_enum), Err(DeriveError::NotAStruct)));
    an_enum.data = Data::Struct(Fields::Unnamed);
    assert!(matches!(MultipartStruct::new(&an_enum), Err(DeriveError::NotAStruct)));
    an_enum.data = Data::Struct(Fields::Unit);
    assert!(matches!(MultipartStruct::new(&an_enum), Err(DeriveError::NotAStruct)));

    let mut bad_field = test_struct();
    bad_field.data = Data::Struct(Fields::Named(vec![
        field("ok", "i8", vec![multipart(vec![])]),
        field("bad", "i8", vec![multipart(vec![item("size", Lit::Int(1))])]),
        field("worse", "i8", vec![multipart(vec![item("name", Lit::Int(1))])]),
    ]));
    assert!(matches!(
        MultipartStruct::new(&bad_field),
        Err(DeriveError::UnknownAttribute { key, owner }) if key == "size" && owner == "bad"
    ));

    let mut no_debug = test_struct();
    no_debug.attrs[1] = multipart(vec![]);
    no_debug.data = Data::Struct(Fields::Named(vec![field("f", "f32", vec![multipart(vec![])])]));
    let described = MultipartStruct::new(&no_debug).unwrap();
    assert!(!described.debug);
    assert!(matches!(described.impl_multipart_parser_target_generated(), Err(DeriveError::UnsupportedType(n)) if n == "f"));
}

#[test]
fn errors_in_words() {
    assert_eq!(DeriveError::AttributeNotFound("multipart".to_string()).message(), "Cannot found 'multipart'");
    assert_eq!(
        get_string("name", &Lit::Int(1)).unwrap_err().message(),
        "'name' must be string, but 'Int' found"
    );
    assert_eq!(
        get_bool("debug", &Lit::Str("x".to_string())).unwrap_err().message(),
        "'debug' must be bool, but 'Str' found"
    );
    assert_eq!(
        get_int("max_size", &Lit::Bool(true)).unwrap_err().message(),
        "'max_size' must be int, but 'Bool' found"
    );
    assert_eq!(
        DeriveError::WrongType { key: "k".to_string(), expected: LitKind::Char, found: LitKind::Byte }.message(),
        "'k' must be Char, but 'Byte' found"
    );
    assert_eq!(
        DeriveError::UnknownAttribute { key: "size".to_string(), owner: "file".to_string() }.message(),
        "Unknown multipart attribute 'size' in 'file'"
    );
    assert_eq!(DeriveError::NoFieldName.message(), "Cannot get field name");
    assert_eq!(DeriveError::NotAStruct.message(), "Only struct allowed");
    assert_eq!(
        DeriveError::UnsupportedType("x".to_string()).message(),
        "Only bool, integers, String and Vec<u8>, and Option of these, are allowed: cannot process x"
    );
}

#[test]
fn conversion_path_must_read_as_an_expression() {
    assert_eq!(checked_conversion_path("i32"), Some("i32::try_from".to_string()));
    assert_eq!(checked_conversion_path("Option < i32 >"), Some("Option ::< i32 >::try_from".to_string()));
    assert_eq!(checked_conversion_path("Option<Vec<u8>>"), Some("Option::<Vec<u8>>::try_from".to_string()));
    assert_eq!(checked_conversion_path("(i32"), None);
    assert_eq!(checked_conversion_path("Vec<u8>]"), None);
    assert_eq!(checked_conversion_path("\"open"), None);
    assert_eq!(path_if_expression("p".to_string(), true), Some("p".to_string()));
    assert_eq!(path_if_expression("p".to_string(), false), None);
}
