use rlox::struct_info::{
    enum_has_lifetime, field_has_lifetime, parse_struct_info, split, struct_has_lifetime,
    FieldInfo, StructInfo,
};

fn shown(info: &StructInfo) -> Vec<(String, String)> {
    info.fields.iter().map(|f| (f.field_type.clone(), f.field_name.clone())).collect()
}

fn pair(field_type: &str, field_name: &str) -> (String, String) {
    (field_type.to_string(), field_name.to_string())
}

#[test]
fn split_gives_the_parts_between_separators() {
    assert_eq!(split("a:b", ':'), vec!["a", "b"]);
    assert_eq!(split("", ':'), vec![""]);
    assert_eq!(split(":", ':'), vec!["", ""]);
    assert_eq!(split("a::b:", ':'), vec!["a", "", "b", ""]);
    assert_eq!(split("no separator", ':'), vec!["no separator"]);
    assert_eq!(split("é,ü", ','), vec!["é", "ü"]);
    for text in ["a b  c", " x ", "", ",,", "Expr left, Token operator"] {
        for separator in [' ', ','] {
            let expected: Vec<&str> = text.split(separator).collect();
            assert_eq!(split(text, separator), expected);
        }
    }
}

#[test]
fn definition_is_a_name_and_its_fields() {
    let info = parse_struct_info("Binary   : Expr left, Token operator, Expr right").unwrap();
    assert_eq!(info.name, "Binary");
    assert_eq!(
        shown(&info),
        vec![pair("Expr", "left"), pair("Token", "operator"), pair("Expr", "right")]
    );
    let info = parse_struct_info("Literal  : LoxLiteral value").unwrap();
    assert_eq!(info.name, "Literal");
    assert_eq!(shown(&info), vec![pair("LoxLiteral", "value")]);
}

#[test]
fn definition_needs_exactly_one_colon() {
    assert!(parse_struct_info("Binary Expr left").is_none());
    assert!(parse_struct_info("").is_none());
    assert!(parse_struct_info("a : b c : d e").is_none());
    let info = parse_struct_info(":").unwrap();
    assert_eq!(info.name, "");
    assert!(info.fields.is_empty());
}

#[test]
fn field_that_is_not_two_words_is_passed_over() {
    let info = parse_struct_info(" Odd :Expr  left, Token operator ,, lonely,\tu8 n\n").unwrap();
    assert_eq!(info.name, "Odd");
    assert_eq!(shown(&info), vec![pair("Token", "operator"), pair("u8", "n")]);
}

#[test]
fn lifetime_is_asked_of_three_types() {
    let field = |field_type: &str| FieldInfo {
        field_name: String::from("x"),
        field_type: field_type.to_string(),
    };
    assert!(field_has_lifetime(&field("Expr")));
    assert!(field_has_lifetime(&field("Token")));
    assert!(field_has_lifetime(&field("LoxLiteral")));
    assert!(!field_has_lifetime(&field("Literal")));
    assert!(!field_has_lifetime(&field("expr")));
    assert!(!field_has_lifetime(&field("")));
    assert!(!struct_has_lifetime(&vec![]));
    assert!(!struct_has_lifetime(&vec![field("u8"), field("String")]));
    assert!(struct_has_lifetime(&vec![field("u8"), field("Token")]));
    let plain = StructInfo { name: String::from("Plain"), fields: vec![field("u8")] };
    let empty = StructInfo { name: String::from("Empty"), fields: vec![] };
    let unary = parse_struct_info("Unary    : Token operator, Expr right").unwrap();
    assert!(!enum_has_lifetime(&vec![]));
    assert!(!enum_has_lifetime(&vec![plain, empty]));
    let plain = StructInfo { name: String::from("Plain"), fields: vec![field("u8")] };
    assert!(enum_has_lifetime(&vec![plain, unary]));
}
