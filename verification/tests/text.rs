use rlox::text::{chars_of, text_of};

#[test]
fn text_is_its_characters_in_order() {
    assert_eq!(chars_of(""), Vec::<char>::new());
    assert_eq!(chars_of("a(é\n"), vec!['a', '(', 'é', '\n']);
    let chars = chars_of("print \"héllo\";");
    assert_eq!(chars.len(), 14);
    assert_eq!(text_of(&chars, 0, 5), "print");
    assert_eq!(text_of(&chars, 6, 13), "\"héllo\"");
    assert_eq!(text_of(&chars, 7, 7), "");
    assert_eq!(text_of(&chars, 0, chars.len()), "print \"héllo\";");
}
