use zero2prod::form::{parse_form_data, FormError};

#[test]
fn plus_and_percent_escapes_are_decoded() {
    let form = parse_form_data(b"name=le+guin&email=ursula_le_guin%40gmail.com").unwrap();
    assert_eq!(form.name, "le guin");
    assert_eq!(form.email, "ursula_le_guin@gmail.com");
}

#[test]
fn encoded_plus_stays_a_plus() {
    let form = parse_form_data(b"name=a%2Bb&email=x+y%40z").unwrap();
    assert_eq!(form.name, "a+b");
    assert_eq!(form.email, "x y@z");
}

#[test]
fn lowercase_hex_digits_are_accepted() {
    let form = parse_form_data(b"name=%4a%6f&email=a%2fb").unwrap();
    assert_eq!(form.name, "Jo");
    assert_eq!(form.email, "a/b");
}

#[test]
fn invalid_escapes_are_kept_literally() {
    let form = parse_form_data(b"name=%zz%4&email=a%").unwrap();
    assert_eq!(form.name, "%zz%4");
    assert_eq!(form.email, "a%");
}

#[test]
fn field_order_does_not_matter() {
    let form = parse_form_data(b"email=a%40b&name=c").unwrap();
    assert_eq!(form.name, "c");
    assert_eq!(form.email, "a@b");
}

#[test]
fn unknown_fields_and_empty_segments_are_ignored() {
    let form = parse_form_data(b"&extra=1&&name=x&email=y&other&").unwrap();
    assert_eq!(form.name, "x");
    assert_eq!(form.email, "y");
}

#[test]
fn keys_are_compared_after_decoding() {
    let form = parse_form_data(b"n%61me=x&email=y").unwrap();
    assert_eq!(form.name, "x");
    assert_eq!(form.email, "y");
}

#[test]
fn empty_values_are_accepted() {
    let form = parse_form_data(b"name=&email=").unwrap();
    assert_eq!(form.name, "");
    assert_eq!(form.email, "");

    let bare = parse_form_data(b"name&email=x").unwrap();
    assert_eq!(bare.name, "");
    assert_eq!(bare.email, "x");
}

#[test]
fn repeated_field_is_rejected_even_with_equal_values() {
    assert_eq!(
        parse_form_data(b"email=a&name=x&email=a").unwrap_err(),
        FormError::DuplicateEmail
    );
}

#[test]
fn multibyte_utf8_values_are_decoded() {
    let form = parse_form_data(b"name=%C3%A9&email=e").unwrap();
    assert_eq!(form.name, "\u{e9}");
    assert_eq!(form.email, "e");
}

#[test]
fn invalid_utf8_becomes_the_replacement_character() {
    let form = parse_form_data(b"name=%FF&email=e").unwrap();
    assert_eq!(form.name, "\u{fffd}");
    assert_eq!(form.email, "e");
}

#[test]
fn a_value_may_contain_equals_signs() {
    let form = parse_form_data(b"name=a=b&email=c").unwrap();
    assert_eq!(form.name, "a=b");
    assert_eq!(form.email, "c");
}
