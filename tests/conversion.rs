use naming_clt::{classify, join, render, tag_of, Convertor, Filter, NamingCase, Tag};
use naming_clt::convertor::{json_field_from, json_object_from, line_from, regex_object_from, result_from};

fn strings(words: &[&str]) -> Vec<String> {
    words.iter().map(|s| s.to_string()).collect()
}

#[test]
fn find_hungarian_camel_conflict() {
    assert!(Filter::has_hungarian_camel_conflict(&vec!["c", "h"]));
}

#[test]
fn filter_words_with_option() {
    let options = &vec!["S", "s", "k", "c", "p"];
    let filter = Filter::new(options).unwrap();
    let words: Vec<String> = vec!["SCREAMING_SNAKE", "snake_case",
                                  "kebab-case", "camelCase", "PascalCase",
                                  "-invalid_"].into_iter()
        .map(|s| s.to_string()).collect();

    let mut expect = words.clone();
    expect.pop();
    let actual = Filter::filter_words_with_options(&filter, words);
    assert_eq!(actual, expect);
}

#[test]
fn convert_words_as_hungarian_notation() {
    let options = vec!["h"];
    let words: Vec<String> = vec!["intPageSize".to_string()];

    let actual = Filter::new(&options).unwrap()
        .to_naming_cases_from(words);
    assert_eq!(actual, vec![NamingCase::Pascal("PageSize".to_string())]);
}

#[test]
fn convert_words_to_naming_cases() {
    let options = vec!["S", "s", "k", "c", "p"];
    let words: Vec<String> = vec!["SCREAMING_SNAKE", "snake_case",
                                  "kebab-case", "camelCase", "PascalCase",
                                  "-invalid_"].into_iter()
        .map(|s| s.to_string()).collect();

    let actual = Filter::new(&options).unwrap()
        .to_naming_cases_from(words);

    let expect = vec![
        NamingCase::ScreamingSnake("SCREAMING_SNAKE".to_string()),
        NamingCase::Snake("snake_case".to_string()),
        NamingCase::Kebab("kebab-case".to_string()),
        NamingCase::Camel("camelCase".to_string()),
        NamingCase::Pascal("PascalCase".to_string())];

    assert_eq!(actual, expect);
}

#[test]
fn output_to_lines() {
    let options = vec!["S", "s", "k", "c", "p"];

    let words = vec!["SCREAMING_SNAKE", "snake_case",
                     "kebab-case", "camelCase", "PascalCase"];
    let cases = words.into_iter()
        .map(|word| classify(word)).collect();

    let actual = Convertor::new(&options, cases).into_lines();

    let expect = "\
SCREAMING_SNAKE SCREAMING_SNAKE screaming_snake screaming-snake screamingSnake ScreamingSnake
snake_case SNAKE_CASE snake_case snake-case snakeCase SnakeCase
kebab-case KEBAB_CASE kebab_case kebab-case kebabCase KebabCase
camelCase CAMEL_CASE camel_case camel-case camelCase CamelCase
PascalCase PASCAL_CASE pascal_case pascal-case pascalCase PascalCase";

    assert_eq!(actual.as_str(), expect);
}

#[test]
fn output_bases_on_options_order() {
    let options = vec!["p", "c", "s", "k", "S"];
    let cases = vec!["a_a"].into_iter()
        .map(|word| classify(word)).collect();

    let actual = Convertor::new(&options, cases).into_lines();
    assert_eq!(actual.as_str(), "a_a AA aA a_a a-a A_A");
}

#[test]
fn output_to_json() {
    let options = vec!["S", "s", "k", "c", "p"];
    let words = vec!["snake_case", "kebab-case"];
    let cases = words.into_iter()
        .map(|word| classify(word)).collect();

    let actual = Convertor::new(&options, cases).into_json();

    let expect = r#"{"result":[{"origin":"snake_case","screaming_snake":"SNAKE_CASE","snake":"snake_case","kebab":"snake-case","camel":"snakeCase","pascal":"SnakeCase"},{"origin":"kebab-case","screaming_snake":"KEBAB_CASE","snake":"kebab_case","kebab":"kebab-case","camel":"kebabCase","pascal":"KebabCase"}]}"#;

    assert_eq!(actual.as_str(), expect);
}

#[test]
fn output_to_regex() {
    let options = vec!["S", "s", "k", "c", "p"];

    let words = vec!["SCREAMING_SNAKE", "snake_case"];
    let cases = words.into_iter()
        .map(|word| classify(word)).collect();

    let actual = Convertor::new(&options, cases).into_regex();

    let expect = "\
SCREAMING_SNAKE SCREAMING_SNAKE|screaming_snake|screaming-snake|screamingSnake|ScreamingSnake
snake_case SNAKE_CASE|snake_case|snake-case|snakeCase|SnakeCase";

    assert_eq!(actual.as_str(), expect);
}

#[test]
fn output_to_regex_json() {
    let options = vec!["S", "s", "k", "c", "p"];
    let words = vec!["SCREAMING_SNAKE", "snake_case"];
    let cases = words.into_iter()
        .map(|word| classify(word)).collect();

    let actual = Convertor::new(&options, cases).into_regex_json();

    let expect = r#"{"result":[{"origin":"SCREAMING_SNAKE","regex":"SCREAMING_SNAKE|screaming_snake|screaming-snake|screamingSnake|ScreamingSnake"},{"origin":"snake_case","regex":"SNAKE_CASE|snake_case|snake-case|snakeCase|SnakeCase"}]}"#;

    assert_eq!(actual.as_str(), expect);
}

#[test]
fn separated_cases_exclusive_with_separator() {
    let filter_screaming = Filter::new(&vec!["S"]).unwrap();
    let filter_snake = Filter::new(&vec!["s"]).unwrap();
    let filter_kebab = Filter::new(&vec!["k"]).unwrap();
    for word in ["FOO_BAR", "foo_bar", "foo-bar", "foo1_bar2", "A_B-c"] {
        let hits = [&filter_screaming, &filter_snake, &filter_kebab]
            .iter()
            .filter(|f| f.accepts_word(word))
            .count();
        assert!(hits <= 1, "{}", word);
    }
    // without a separator a single word is both snake and kebab case
    assert!(filter_snake.accepts_word("foo") && filter_kebab.accepts_word("foo"));
}

#[test]
fn camel_and_pascal_differ_by_first_letter() {
    let camel = Filter::new(&vec!["c"]).unwrap();
    let pascal = Filter::new(&vec!["p"]).unwrap();
    assert!(camel.accepts_word("fooBar") && !pascal.accepts_word("fooBar"));
    assert!(pascal.accepts_word("FooBar") && !camel.accepts_word("FooBar"));
}

#[test]
fn render_in_own_case_gives_token_back() {
    for (word, tag) in [
        ("FOO_BAR2", Tag::ScreamingSnake),
        ("foo_bar2", Tag::Snake),
        ("foo-bar2", Tag::Kebab),
        ("foo2Bar", Tag::Camel),
        ("Foo2Bar", Tag::Pascal),
    ] {
        let case = classify(word);
        assert_eq!(render(tag, &case), word);
    }
}

#[test]
fn render_converts_between_cases() {
    let case = classify("snake_case");
    assert_eq!(render(Tag::ScreamingSnake, &case), "SNAKE_CASE");
    assert_eq!(render(Tag::Kebab, &case), "snake-case");
    assert_eq!(render(Tag::Camel, &case), "snakeCase");
    assert_eq!(render(Tag::Pascal, &case), "SnakeCase");
    assert_eq!(render(Tag::Snake, &classify("PageSize")), "page_size");
}

#[test]
fn filtering_twice_keeps_the_same_words() {
    let filter = Filter::new(&vec!["s", "p"]).unwrap();
    let words = strings(&["foo_bar", "Foo", "fooBar", "x-y", "Bar", "a_b"]);
    let once = filter.filter_words_with_options(words);
    let twice = filter.filter_words_with_options(once.clone());
    assert_eq!(once, strings(&["foo_bar", "Foo", "Bar", "a_b"]));
    assert_eq!(twice, once);
}

#[test]
fn json_follows_option_order() {
    let options = vec!["p", "S"];
    let cases = vec![classify("a_a")];
    let actual = Convertor::new(&options, cases).into_json();
    assert_eq!(actual, r#"{"result":[{"origin":"a_a","pascal":"AA","screaming_snake":"A_A"}]}"#);
}

#[test]
fn conflict_in_any_order() {
    assert!(Filter::new(&vec!["h", "c"]).is_err());
    assert!(Filter::new(&vec!["c", "s", "h"]).is_err());
    assert!(Filter::new(&vec!["p", "h", "k", "c", "S"]).is_err());
    assert!(!Filter::has_hungarian_camel_conflict(&vec!["h", "h", "s"]));
    assert!(Filter::new(&vec!["h", "h"]).is_ok());
    assert!(Filter::new(&vec![]).is_ok());
}

#[test]
fn conflict_error_message() {
    let err = Filter::new(&vec!["S", "c", "p", "h", "c"]).err().unwrap();
    assert_eq!(err, "In option \"--filter\", at most one of the two, hungarian notation (h) and camel case (c) can appear.");
}

#[test]
fn empty_options_keep_nothing() {
    let filter = Filter::new(&vec![]).unwrap();
    let words = strings(&["foo", "FOO", "Foo"]);
    assert!(filter.filter_words_with_options(words).is_empty());
}

#[test]
fn unknown_options_are_ignored() {
    let filter = Filter::new(&vec!["x", "s", "snake"]).unwrap();
    let words = strings(&["foo_bar", "FOO_BAR"]);
    assert_eq!(filter.filter_words_with_options(words), strings(&["foo_bar"]));
}

#[test]
fn hungarian_keeps_digits_in_prefix() {
    let filter = Filter::new(&vec!["h"]).unwrap();
    let actual = filter.to_naming_cases_from(strings(&["int2PageSize", "Foo", "x_y"]));
    assert_eq!(actual, vec![NamingCase::Pascal("PageSize".to_string())]);
}

#[test]
fn hungarian_single_word_classified_as_is() {
    let filter = Filter::new(&vec!["h"]).unwrap();
    let actual = filter.to_naming_cases_from(strings(&["foo"]));
    assert_eq!(actual, vec![NamingCase::Snake("foo".to_string())]);
}

#[test]
fn classification_precedence() {
    assert_eq!(classify("foo"), NamingCase::Snake("foo".to_string()));
    assert_eq!(classify("FOO"), NamingCase::ScreamingSnake("FOO".to_string()));
    assert_eq!(classify("Foo"), NamingCase::Pascal("Foo".to_string()));
    assert_eq!(classify("a-b"), NamingCase::Kebab("a-b".to_string()));
    assert_eq!(classify("aB"), NamingCase::Camel("aB".to_string()));
    assert_eq!(classify("aB").to_string(), "aB");
}

#[test]
fn empty_token_list_is_well_formed() {
    let options = vec!["s"];
    assert_eq!(Convertor::new(&options, vec![]).into_json(), r#"{"result":[]}"#);
    assert_eq!(Convertor::new(&options, vec![]).into_regex_json(), r#"{"result":[]}"#);
    assert_eq!(Convertor::new(&options, vec![]).into_lines(), "");
    assert_eq!(Convertor::new(&options, vec![]).into_regex(), "");
}

#[test]
fn output_is_repeatable() {
    let options = vec!["k", "c"];
    let make = || Convertor::new(&options, vec![classify("FOO_BAR"), classify("Baz")]);
    assert_eq!(make().into_regex(), make().into_regex());
    assert_eq!(make().into_regex(), "FOO_BAR foo-bar|fooBar\nBaz baz|baz");
}

#[test]
fn tags_parse_from_codes() {
    assert_eq!(tag_of("S"), Some(Tag::ScreamingSnake));
    assert_eq!(tag_of("s"), Some(Tag::Snake));
    assert_eq!(tag_of("k"), Some(Tag::Kebab));
    assert_eq!(tag_of("c"), Some(Tag::Camel));
    assert_eq!(tag_of("h"), Some(Tag::Hungarian));
    assert_eq!(tag_of("p"), Some(Tag::Pascal));
    assert_eq!(tag_of("ss"), None);
    assert_eq!(tag_of(""), None);
}

#[test]
fn join_puts_separator_between() {
    assert_eq!(join(&strings(&["a", "b", "c"]), ", "), "a, b, c");
    assert_eq!(join(&strings(&["a"]), ","), "a");
    assert_eq!(join(&strings(&[]), ","), "");
}

#[test]
fn formats_pieces_of_output() {
    let parts = strings(&["AA", "aA"]);
    assert_eq!(line_from("a_a", &parts, " "), "a_a AA aA");
    assert_eq!(line_from("a_a", &parts, "|"), "a_a AA|aA");
    assert_eq!(line_from("a_a", &strings(&[]), " "), "a_a");
    assert_eq!(regex_object_from("a_a", &parts), r#"{"origin":"a_a","regex":"AA|aA"}"#);
    assert_eq!(json_field_from(Tag::Camel, "aA"), r#""camel":"aA""#);
    assert_eq!(json_field_from(Tag::ScreamingSnake, "A_A"), r#""screaming_snake":"A_A""#);
    let fields = strings(&[r#""camel":"aA""#, r#""kebab":"a-a""#]);
    assert_eq!(json_object_from("a_a", &fields), r#"{"origin":"a_a","camel":"aA","kebab":"a-a"}"#);
    assert_eq!(json_object_from("a_a", &strings(&[])), r#"{"origin":"a_a"}"#);
    assert_eq!(result_from(&strings(&["{}", "{}"])), r#"{"result":[{},{}]}"#);
}

#[test]
fn no_targets_leave_no_separator() {
    let options: Vec<&str> = vec![];
    let make = || Convertor::new(&options, vec![classify("a_a")]);
    assert_eq!(make().into_json(), r#"{"result":[{"origin":"a_a"}]}"#);
    assert_eq!(make().into_lines(), "a_a");
    assert_eq!(make().into_regex(), "a_a");
    assert_eq!(make().into_regex_json(), r#"{"result":[{"origin":"a_a","regex":""}]}"#);
}

#[test]
fn convertor_takes_any_options() {
    let options = vec!["x", "h", "s"];
    let _ = Convertor::new(&options, vec![classify("a_a")]);
}

#[test]
fn non_ascii_digits_have_no_shape() {
    let all = Filter::new(&vec!["S", "s", "k", "c", "p"]).unwrap();
    let words = strings(&["a\u{663}", "A\u{663}", "a\u{663}B", "A\u{663}B", "a1"]);
    assert_eq!(all.filter_words_with_options(words), strings(&["a1"]));
    let hungarian = Filter::new(&vec!["h"]).unwrap();
    assert!(hungarian.to_naming_cases_from(strings(&["a\u{663}B"])).is_empty());
}

#[test]
fn own_case_json_field_keeps_token() {
    let options = vec!["k", "s", "c"];
    let actual = Convertor::new(&options, vec![classify("snake_case")]).into_json();
    assert!(actual.contains(r#""snake":"snake_case""#));
}
