use pdf_object::{Dictionary, Error, IndirectObject, ObjectId, Primitive, Stream};

fn real_text(bits: u32) -> String {
    f32::from_bits(bits).to_string()
}

fn render(p: &Primitive) -> String {
    p.to_text(&real_text)
}

fn name(s: &str) -> Primitive {
    Primitive::Name(s.to_string())
}

fn wrong(expected: &'static str, found: &'static str) -> Error {
    Error::WrongObjectType { expected, found }
}

fn every_kind() -> Vec<Primitive> {
    vec![
        Primitive::Null,
        Primitive::Integer(4),
        Primitive::Number(2.5f32.to_bits()),
        Primitive::Boolean(false),
        Primitive::String(b"ab".to_vec()),
        Primitive::HexString(vec![1, 2]),
        Primitive::Stream(Stream { dictionary: Dictionary::new(), content: vec![] }),
        Primitive::Dictionary(Dictionary::new()),
        Primitive::Array(vec![]),
        Primitive::Reference(ObjectId { obj_nr: 1, gen_nr: 0 }),
        name("X"),
    ]
}

#[test]
fn set_then_get_round_trip() {
    let mut d = Dictionary::new();
    d.set("Count".to_string(), Primitive::Integer(3));
    assert_eq!(d.get("Count"), Ok(&Primitive::Integer(3)));
}

#[test]
fn set_twice_last_write_wins() {
    let mut d = Dictionary::new();
    d.set("Count".to_string(), Primitive::Integer(3));
    d.set("Other".to_string(), Primitive::Null);
    d.set("Count".to_string(), Primitive::Integer(9));
    assert_eq!(d.get("Count"), Ok(&Primitive::Integer(9)));
    assert_eq!(d.get("Other"), Ok(&Primitive::Null));
    assert_eq!(d.entries.len(), 2);
}

#[test]
fn default_dictionary_is_empty() {
    let d = Dictionary::default();
    assert!(d.entries.is_empty());
}

#[test]
fn get_absent_key_is_not_found() {
    let mut d = Dictionary::new();
    d.set("A".to_string(), Primitive::Null);
    assert_eq!(d.get("B"), Err(Error::NotFound { word: "B".to_string() }));
    assert_eq!(Dictionary::new().get(""), Err(Error::NotFound { word: String::new() }));
}

#[test]
fn accessors_on_matching_kind() {
    assert_eq!(Primitive::Integer(-3).as_integer(), Ok(-3));
    let id = ObjectId { obj_nr: 7, gen_nr: 2 };
    assert_eq!(Primitive::Reference(id).as_reference(), Ok(id));
    let arr = Primitive::Array(vec![Primitive::Integer(1), Primitive::Null]);
    assert_eq!(arr.as_array().map(|v| v.len()), Ok(2));
    assert_eq!(arr.into_array().map(|v| v.len()), Ok(2));
    let mut d = Dictionary::new();
    d.set("K".to_string(), Primitive::Boolean(true));
    let p = Primitive::Dictionary(d);
    assert_eq!(p.as_dictionary().and_then(|d| d.get("K")), Ok(&Primitive::Boolean(true)));
    assert!(p.into_dictionary().is_ok());
    let s = Primitive::Stream(Stream { dictionary: Dictionary::new(), content: vec![1, 2] });
    assert_eq!(s.as_stream().map(|s| s.content.clone()), Ok(vec![1, 2]));
    assert_eq!(s.into_stream().map(|s| s.content), Ok(vec![1, 2]));
}

#[test]
fn accessors_on_other_kinds_fail_with_wrong_object_type() {
    for p in every_kind() {
        let found = p.type_str();
        if !matches!(p, Primitive::Integer(_)) {
            assert_eq!(p.as_integer(), Err(wrong("Integer", found)));
        }
        if !matches!(p, Primitive::Reference(_)) {
            assert_eq!(p.as_reference(), Err(wrong("Reference", found)));
        }
        if !matches!(p, Primitive::Array(_)) {
            assert_eq!(p.as_array(), Err(wrong("Array", found)));
            assert_eq!(p.as_integer_array(), Err(wrong("Array", found)));
        }
        if !matches!(p, Primitive::Dictionary(_)) {
            assert_eq!(p.as_dictionary(), Err(wrong("Dictionary", found)));
        }
        if !matches!(p, Primitive::Stream(_)) {
            assert_eq!(p.as_stream(), Err(wrong("Stream", found)));
        }
    }
    for p in every_kind() {
        let found = p.type_str();
        let is_array = matches!(p, Primitive::Array(_));
        if !is_array {
            assert_eq!(p.into_integer_array(), Err(wrong("Array", found)));
        }
    }
    assert_eq!(Primitive::Number(0).into_array(), Err(wrong("Array", "Number")));
    assert_eq!(Primitive::Null.into_dictionary(), Err(wrong("Dictionary", "Null")));
    assert_eq!(name("S").into_stream(), Err(wrong("Stream", "Name")));
    assert_eq!(Primitive::Number(0).as_integer(), Err(wrong("Integer", "Number")));
}

#[test]
fn integer_array_reads_all_integers() {
    let p = Primitive::Array(vec![Primitive::Integer(1), Primitive::Integer(-2), Primitive::Integer(3)]);
    assert_eq!(p.as_integer_array(), Ok(vec![1, -2, 3]));
    assert_eq!(p.into_integer_array(), Ok(vec![1, -2, 3]));
    assert_eq!(Primitive::Array(vec![]).as_integer_array(), Ok(vec![]));
}

#[test]
fn integer_array_stops_at_first_non_integer() {
    let items = vec![
        Primitive::Integer(1),
        Primitive::Boolean(true),
        name("N"),
        Primitive::Integer(4),
    ];
    let first_error = items[1].as_integer().unwrap_err();
    let p = Primitive::Array(items);
    assert_eq!(p.as_integer_array(), Err(first_error.clone()));
    assert_eq!(first_error, wrong("Integer", "Boolean"));
    assert_eq!(p.into_integer_array(), Err(wrong("Integer", "Boolean")));
}

#[test]
fn expect_type_without_tag_passes() {
    assert_eq!(Dictionary::new().expect_type("Page"), Ok(()));
}

#[test]
fn expect_type_matching_tag_passes() {
    let mut d = Dictionary::new();
    d.set("Type".to_string(), name("Page"));
    assert_eq!(d.expect_type("Page"), Ok(()));
}

#[test]
fn expect_type_other_tag_names_both() {
    let mut d = Dictionary::new();
    d.set("Type".to_string(), name("Catalog"));
    assert_eq!(
        d.expect_type("Page"),
        Err(Error::TypeMismatch { expected_type: "Page".to_string(), found_type: "Catalog".to_string() })
    );
}

#[test]
fn expect_type_non_name_tag_fails() {
    let mut d = Dictionary::new();
    d.set("Type".to_string(), Primitive::Integer(1));
    assert!(matches!(d.expect_type("Page"), Err(Error::Msg(_))));
}

#[test]
fn type_str_labels() {
    let labels: Vec<&str> = every_kind().iter().map(|p| p.type_str()).collect();
    assert_eq!(
        labels,
        vec![
            "Null", "Integer", "Number", "Boolean", "String", "HexString", "Stream", "Dictionary",
            "Array", "Reference", "Name"
        ]
    );
    assert!(labels.iter().all(|l| !l.is_empty()));
}

#[test]
fn render_representative_values() {
    assert_eq!(render(&Primitive::Integer(-7)), "-7");
    assert_eq!(render(&Primitive::Boolean(true)), "true");
    assert_eq!(render(&Primitive::Boolean(false)), "false");
    assert_eq!(render(&name("Foo")), "/Foo");
    assert_eq!(render(&Primitive::Reference(ObjectId { obj_nr: 3, gen_nr: 0 })), "3 0 R");
    assert_eq!(render(&Primitive::Array(vec![Primitive::Integer(1), Primitive::Integer(2)])), "[1 2 ]");
    let mut d = Dictionary::new();
    d.set("Type".to_string(), name("Page"));
    assert_eq!(render(&Primitive::Dictionary(d)), "<< /Type /Page>>\n");
    assert_eq!(render(&Primitive::String(b"hi".to_vec())), "(hi)");
    assert_eq!(render(&Primitive::String(vec![0xFF])), "encoded(255,)");
    assert_eq!(render(&Primitive::Null), "Null");
}

#[test]
fn render_integers() {
    assert_eq!(render(&Primitive::Integer(0)), "0");
    assert_eq!(render(&Primitive::Integer(1234567)), "1234567");
    assert_eq!(render(&Primitive::Integer(i32::MIN)), "-2147483648");
    assert_eq!(render(&Primitive::Integer(i32::MAX)), "2147483647");
}

#[test]
fn render_numbers_through_given_renderer() {
    assert_eq!(render(&Primitive::Number(1.5f32.to_bits())), "1.5");
    assert_eq!(render(&Primitive::Number((-0.25f32).to_bits())), "-0.25");
}

#[test]
fn render_hex_string_as_nibble_list() {
    assert_eq!(render(&Primitive::HexString(vec![1, 15, 0])), "1,15,0,");
    assert_eq!(render(&Primitive::HexString(vec![])), "");
}

#[test]
fn render_byte_strings() {
    assert_eq!(render(&Primitive::String(vec![])), "()");
    assert_eq!(render(&Primitive::String(vec![104, 0xC3])), "encoded(104,195,)");
    assert_eq!(render(&Primitive::String("é".as_bytes().to_vec())), "(é)");
}

#[test]
fn render_streams() {
    let st = Stream { dictionary: Dictionary::new(), content: b"abc".to_vec() };
    assert_eq!(st.to_text(), "stream\nabc\nendstream\n");
    assert_eq!(render(&Primitive::Stream(st)), "stream\nabc\nendstream\n");
    let raw = Stream { dictionary: Dictionary::new(), content: vec![255, 0, 7] };
    assert_eq!(raw.to_text(), "stream\n[255, 0, 7]\nendstream\n");
}

#[test]
fn render_nested_values() {
    let mut inner = Dictionary::new();
    inner.set("A".to_string(), Primitive::Array(vec![Primitive::Null, Primitive::Integer(-1)]));
    inner.set("B".to_string(), Primitive::Reference(ObjectId { obj_nr: 12, gen_nr: 65535 }));
    assert_eq!(render(&Primitive::Dictionary(inner)), "<< /A [Null -1 ]/B 12 65535 R>>\n");
    assert_eq!(render(&Primitive::Dictionary(Dictionary::new())), "<< >>\n");
    assert_eq!(render(&Primitive::Array(vec![])), "[]");
}

#[test]
fn render_object_id() {
    assert_eq!(ObjectId { obj_nr: 5, gen_nr: 2 }.to_text(), "obj_id(5 2)");
    assert_eq!(ObjectId { obj_nr: u32::MAX, gen_nr: 0 }.to_text(), "obj_id(4294967295 0)");
}

#[test]
fn indirect_object_holds_id_and_value() {
    let o = IndirectObject { id: ObjectId { obj_nr: 1, gen_nr: 0 }, object: Primitive::Integer(5) };
    assert_eq!(o.id.obj_nr, 1);
    assert_eq!(o.object.as_integer(), Ok(5));
}
