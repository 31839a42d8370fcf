use scematica::presence::bot_id_of;

#[test]
fn a_bot_id_is_the_part_before_the_colon() {
    assert_eq!(bot_id_of("8849814959:AAEg4WurVrJwvq9C"), Some(8849814959));
}

#[test]
fn a_token_without_a_colon_has_no_id() {
    assert_eq!(bot_id_of("nonsense"), None);
    assert_eq!(bot_id_of(""), None);
}

#[test]
fn a_non_numeric_prefix_has_no_id() {
    assert_eq!(bot_id_of("abc:def"), None);
}

#[test]
fn the_secret_is_never_part_of_the_id() {
    let id = bot_id_of("8849814959:SECRET").unwrap();
    assert!(!id.to_string().contains("SECRET"));
}

#[test]
fn the_id_is_read_as_i64_does() {
    assert_eq!(bot_id_of(" 42 :x"), Some(42));
    assert_eq!(bot_id_of("+7:x"), Some(7));
    assert_eq!(bot_id_of("-5:x"), Some(-5));
    assert_eq!(bot_id_of("1:2:3"), Some(1));
    assert_eq!(bot_id_of(":x"), None);
    assert_eq!(bot_id_of("99999999999999999999:x"), None, "out of range");
    assert_eq!(bot_id_of("-9223372036854775808:x"), Some(i64::MIN));
    assert_eq!(bot_id_of("9223372036854775808:x"), None);
}
