use std::cmp::Ordering;

use serde_flexitos::id::{find_separator, Id, IdObj, Ident, Key, SEPARATOR};
use serde_flexitos::text::{str_before, str_eq};

#[test]
fn separator_is_a_slash() {
    assert_eq!(SEPARATOR, '/');
}

#[test]
fn append_adds_a_segment() {
    assert_eq!(Ident::I1("a").append("b"), Ident::I2("a", "b"));
    assert_eq!(Ident::I2("a", "b").append("c"), Ident::I3("a", "b", "c"));
}

#[test]
fn extend_adds_the_segments_of_the_other() {
    assert_eq!(Ident::I1("a").extend(Ident::I1("b")), Ident::I2("a", "b"));
    assert_eq!(Ident::I2("a", "b").extend(Ident::I1("c")), Ident::I3("a", "b", "c"));
    assert_eq!(Ident::I1("a").extend(Ident::I2("b", "c")), Ident::I3("a", "b", "c"));
}

#[test]
fn len_counts_the_segments() {
    assert_eq!(Ident::I1("a").len(), 1);
    assert_eq!(Ident::I2("a", "b").len(), 2);
    assert_eq!(Ident::I3("a", "b", "c").len(), 3);
}

#[test]
fn to_string_joins_with_the_separator() {
    assert_eq!(Ident::I1("Foo").to_string(), "Foo");
    assert_eq!(Ident::I2("Vec", "u8").to_string(), "Vec/u8");
    assert_eq!(Ident::I3("Result", "u8", "String").to_string(), "Result/u8/String");
    assert_eq!(Ident::I1("").to_string(), "");
    assert_eq!(Ident::I2("", "").to_string(), "/");
    assert_eq!(Ident::I3("", "", "").to_string(), "//");
}

#[test]
fn parse_cuts_at_the_first_two_separators() {
    assert_eq!(Ident::parse("Foo"), Ident::I1("Foo"));
    assert_eq!(Ident::parse("Vec/u8"), Ident::I2("Vec", "u8"));
    assert_eq!(Ident::parse("Result/u8/String"), Ident::I3("Result", "u8", "String"));
    assert_eq!(Ident::parse("a/b/c/d"), Ident::I3("a", "b", "c/d"));
}

#[test]
fn parse_keeps_empty_segments() {
    assert_eq!(Ident::parse(""), Ident::I1(""));
    assert_eq!(Ident::parse("/"), Ident::I2("", ""));
    assert_eq!(Ident::parse("//"), Ident::I3("", "", ""));
    assert_eq!(Ident::parse("a/"), Ident::I2("a", ""));
    assert_eq!(Ident::parse("/b"), Ident::I2("", "b"));
    assert_eq!(Ident::parse("a//c"), Ident::I3("a", "", "c"));
}

#[test]
fn parse_counts_characters_not_bytes() {
    assert_eq!(Ident::parse("é/ü"), Ident::I2("é", "ü"));
    assert_eq!(Ident::parse("日本/語/テキスト"), Ident::I3("日本", "語", "テキスト"));
    assert_eq!(find_separator("日本/語"), Some(2));
}

#[test]
fn find_separator_gives_the_first() {
    assert_eq!(find_separator(""), None);
    assert_eq!(find_separator("abc"), None);
    assert_eq!(find_separator("/"), Some(0));
    assert_eq!(find_separator("ab/c/d"), Some(2));
}

#[test]
fn text_of_an_identifier_reads_back() {
    let ids = [
        Ident::I1("Foo"),
        Ident::I2("Vec", "u8"),
        Ident::I3("Result", "u8", "String"),
        Ident::I3("a", "b", "c/d"),
        Ident::I1(""),
    ];
    for id in ids {
        let text = id.to_string();
        assert_eq!(Ident::parse(&text), id);
    }
}

#[test]
fn identifier_of_a_text_writes_back() {
    for text in ["", "a", "a/b", "a/b/c", "a/b/c/d/e", "//", "///", "é/ü"] {
        assert_eq!(Ident::parse(text).to_string(), text);
    }
}

#[test]
fn a_separator_in_an_early_segment_is_not_read_back() {
    let id = Ident::I2("a/b", "c");
    assert_eq!(id.to_string(), "a/b/c");
    assert_eq!(Ident::parse("a/b/c"), Ident::I3("a", "b", "c"));
}

#[test]
fn same_compares_segment_by_segment() {
    assert!(Ident::I1("a").same(&Ident::I1("a")));
    assert!(!Ident::I1("a").same(&Ident::I1("b")));
    assert!(!Ident::I1("a").same(&Ident::I2("a", "a")));
    assert!(Ident::I2("a", "b").same(&Ident::I2("a", "b")));
    assert!(!Ident::I2("a", "b").same(&Ident::I2("a", "c")));
    assert!(Ident::I3("a", "b", "c").same(&Ident::I3("a", "b", "c")));
    assert!(!Ident::I3("a", "b", "c").same(&Ident::I3("x", "b", "c")));
    assert!(!Ident::I3("a", "b", "c").same(&Ident::I3("a", "b", "")));
}

#[test]
fn same_agrees_with_equality() {
    let ids = [
        Ident::I1("a"),
        Ident::I1("b"),
        Ident::I2("a", "b"),
        Ident::I2("a", ""),
        Ident::I3("a", "b", "c"),
        Ident::I3("a", "b", "d"),
    ];
    for x in ids {
        for y in ids {
            assert_eq!(x.same(&y), x == y);
        }
    }
}

#[test]
fn identifiers_are_ordered() {
    assert!(Ident::I1("a") < Ident::I1("b"));
    assert!(Ident::I2("a", "a") < Ident::I2("a", "b"));
    assert!(Ident::I1("z") < Ident::I2("a", "a"));
    assert!(Ident::I2("z", "z") < Ident::I3("a", "a", "a"));
    assert!(Ident::I1("a") < Ident::I1("ab"));
    assert!(Ident::I1("") < Ident::I1("a"));
    assert!(Ident::I3("a", "b", "c") < Ident::I3("a", "b", "d"));
    assert!(Ident::I3("a", "b", "z") < Ident::I3("a", "c", "a"));
    assert!(!(Ident::I1("a") < Ident::I1("a")));
    assert!(Ident::I1("a") <= Ident::I1("a"));
    assert!(Ident::I1("b") > Ident::I1("a"));
}

fn samples() -> Vec<Ident<'static>> {
    let texts = ["", "a", "ab", "b", "B", "é", "z", "日本", "a/b"];
    let mut ids = Vec::new();
    for a in texts {
        ids.push(Ident::I1(a));
        for b in texts {
            ids.push(Ident::I2(a, b));
            for c in ["", "a", "é"] {
                ids.push(Ident::I3(a, b, c));
            }
        }
    }
    ids
}

#[test]
fn before_is_the_order_of_the_identifiers() {
    let ids = samples();
    for x in &ids {
        for y in &ids {
            assert_eq!(x.before(y), x.cmp(y) == Ordering::Less);
            assert_eq!(x.partial_cmp(y), Some(x.cmp(y)));
            assert_eq!(x == y, x.cmp(y) == Ordering::Equal);
        }
    }
}

#[test]
fn the_order_is_total() {
    let ids = samples();
    for x in &ids {
        assert!(!x.before(x));
        for y in &ids {
            if x.same(y) {
                assert!(!x.before(y) && !y.before(x));
            } else {
                assert!(x.before(y) != y.before(x));
            }
        }
    }
}

#[test]
fn the_order_is_transitive() {
    let ids: Vec<Ident<'static>> = samples().into_iter().step_by(7).collect();
    for x in &ids {
        for y in &ids {
            for z in &ids {
                if x.before(y) && y.before(z) {
                    assert!(x.before(z));
                }
            }
        }
    }
}

#[test]
fn texts_stand_as_their_bytes_do() {
    assert!(str_before("", "a"));
    assert!(!str_before("", ""));
    assert!(!str_before("a", ""));
    assert!(str_before("a", "b"));
    assert!(!str_before("b", "a"));
    assert!(str_before("a", "ab"));
    assert!(!str_before("ab", "a"));
    assert!(str_before("B", "a"));
    assert!(str_before("z", "é"));
    assert!(str_before("é", "日"));
    let texts = ["", "a", "ab", "abc", "b", "B", "é", "e", "z", "日本", "日本語"];
    for a in texts {
        for b in texts {
            assert_eq!(str_before(a, b), a < b);
            assert_eq!(str_eq(a, b), a == b);
        }
    }
}

#[test]
fn text_keys_compare_by_their_characters() {
    assert!(Key::same(&"Foo", &"Foo"));
    assert!(!Key::same(&"Foo", &"Fo"));
    assert!(!Key::same(&"Foo", &"Bar"));
    assert!(Key::same(&"", &""));
    assert!(Key::same(&"é", &"é"));
    assert!(!Key::same(&"é", &"e"));
    assert!(Key::same(&String::from("Foo"), &String::from("Foo")));
    assert!(!Key::same(&String::from("Foo"), &String::from("foo")));
}

#[test]
fn debug_text_of_a_text_key_is_quoted() {
    assert_eq!(Key::to_debug(&"Foo"), "\"Foo\"");
    assert_eq!(Key::to_debug(&String::from("Foo")), "\"Foo\"");
    assert_eq!(Key::to_debug(&"a\"b\n"), "\"a\\\"b\\n\"");
    assert_eq!(Key::to_debug(&"Foo"), format!("{:?}", "Foo"));
}

#[test]
fn debug_text_of_an_identifier_names_its_segments() {
    assert_eq!(Key::to_debug(&Ident::I1("Foo")), "I1(\"Foo\")");
    assert_eq!(Key::to_debug(&Ident::I2("Vec", "u8")), "I2(\"Vec\", \"u8\")");
    assert_eq!(Key::to_debug(&Ident::I3("a", "b", "c")), "I3(\"a\", \"b\", \"c\")");
    for id in [Ident::I1("Foo"), Ident::I2("Vec", "u8"), Ident::I3("a", "b\"", "c")] {
        assert_eq!(Key::to_debug(&id), format!("{:?}", id));
    }
}

#[test]
fn duplicate_gives_the_same_key() {
    assert_eq!(Key::duplicate(&"Foo"), "Foo");
    assert_eq!(Key::duplicate(&String::from("Foo")), "Foo");
    assert_eq!(Key::duplicate(&Ident::I2("a", "b")), Ident::I2("a", "b"));
}

#[test]
fn std_types_have_text_identifiers() {
    assert_eq!(<bool as Id<&'static str>>::ID, "bool");
    assert_eq!(<() as Id<&'static str>>::ID, "()");
    assert_eq!(<u8 as Id<&'static str>>::ID, "u8");
    assert_eq!(<usize as Id<&'static str>>::ID, "usize");
    assert_eq!(<i128 as Id<&'static str>>::ID, "i128");
    assert_eq!(<str as Id<&'static str>>::ID, "str");
    assert_eq!(<String as Id<&'static str>>::ID, "String");
    assert_eq!(<char as Id<&'static str>>::ID, "char");
}

struct Probe;

impl Id for Probe {
    const ID: Ident<'static> = Ident::I2("tests", "Probe");
}

#[test]
fn a_value_has_the_identifier_of_its_type() {
    let id: Ident<'static> = Probe.id();
    assert_eq!(id, Ident::I2("tests", "Probe"));
    let text: &'static str = IdObj::<&'static str>::id(&true);
    assert_eq!(text, "bool");
}
