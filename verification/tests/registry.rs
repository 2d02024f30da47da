use serde_flexitos::id::Ident;
use serde_flexitos::{FirstMapRegistry, GetError, MapRegistry, Registry};

#[test]
fn a_new_registry_knows_no_identifier() {
    let registry = MapRegistry::<u32>::new("Shape");
    assert_eq!(registry.get_deserialize_fn("Foo"), Err(GetError::NotRegistered { id: "Foo" }));
    assert_eq!(registry.get_deserialize_fn(""), Err(GetError::NotRegistered { id: "" }));
}

#[test]
fn a_registry_keeps_its_name() {
    let mut registry = MapRegistry::<u32>::new("Shape");
    assert_eq!(registry.get_trait_object_name(), "Shape");
    registry.register("Foo", 1);
    registry.register("Foo", 2);
    assert_eq!(registry.get_trait_object_name(), "Shape");
    let first = FirstMapRegistry::<u32>::new("Other");
    assert_eq!(first.get_trait_object_name(), "Other");
}

#[test]
fn a_registered_identifier_gives_its_function() {
    let mut registry = MapRegistry::<u32>::new("Shape");
    registry.register("Foo", 1);
    registry.register("Bar", 2);
    assert_eq!(registry.get_deserialize_fn("Foo"), Ok(&1));
    assert_eq!(registry.get_deserialize_fn("Bar"), Ok(&2));
    assert_eq!(registry.get_deserialize_fn("Baz"), Err(GetError::NotRegistered { id: "Baz" }));
}

#[test]
fn an_identifier_registered_twice_is_refused() {
    let mut registry = MapRegistry::<u32>::new("Shape");
    registry.register("Foo", 1);
    registry.register("Foo", 2);
    assert_eq!(
        registry.get_deserialize_fn("Foo"),
        Err(GetError::MultipleRegistrations { id: "Foo" })
    );
}

#[test]
fn the_same_function_registered_twice_is_refused_too() {
    let mut registry = MapRegistry::<u32>::new("Shape");
    registry.register("Foo", 1);
    registry.register("Foo", 1);
    assert_eq!(
        registry.get_deserialize_fn("Foo"),
        Err(GetError::MultipleRegistrations { id: "Foo" })
    );
}

#[test]
fn a_refused_identifier_stays_refused() {
    let mut registry = MapRegistry::<u32>::new("Shape");
    registry.register("Foo", 1);
    registry.register("Foo", 2);
    registry.register("Foo", 3);
    registry.register("Foo", 4);
    assert_eq!(
        registry.get_deserialize_fn("Foo"),
        Err(GetError::MultipleRegistrations { id: "Foo" })
    );
}

#[test]
fn a_refusal_leaves_the_other_identifiers() {
    let mut registry = MapRegistry::<u32>::new("Shape");
    registry.register("Bar", 7);
    registry.register("Foo", 1);
    registry.register("Baz", 9);
    registry.register("Foo", 2);
    assert_eq!(registry.get_deserialize_fn("Bar"), Ok(&7));
    assert_eq!(registry.get_deserialize_fn("Baz"), Ok(&9));
    assert_eq!(registry.get_deserialize_fn("Qux"), Err(GetError::NotRegistered { id: "Qux" }));
}

#[test]
fn the_first_registration_is_kept_where_that_is_the_policy() {
    let mut registry = FirstMapRegistry::<u32>::new("Shape");
    assert_eq!(registry.get_deserialize_fn("Foo"), Err(GetError::NotRegistered { id: "Foo" }));
    registry.register("Foo", 1);
    registry.register("Foo", 2);
    registry.register("Bar", 3);
    registry.register("Foo", 4);
    assert_eq!(registry.get_deserialize_fn("Foo"), Ok(&1));
    assert_eq!(registry.get_deserialize_fn("Bar"), Ok(&3));
    assert_eq!(registry.get_deserialize_fn("Baz"), Err(GetError::NotRegistered { id: "Baz" }));
}

#[test]
fn owned_texts_key_a_registry() {
    let mut registry = MapRegistry::<u32, String>::new("Shape");
    registry.register(String::from("Foo"), 1);
    assert_eq!(registry.get_deserialize_fn(String::from("Foo")), Ok(&1));
    registry.register(String::from("Foo"), 2);
    assert_eq!(
        registry.get_deserialize_fn(String::from("Foo")),
        Err(GetError::MultipleRegistrations { id: String::from("Foo") })
    );
    assert_eq!(
        registry.get_deserialize_fn(String::from("Bar")),
        Err(GetError::NotRegistered { id: String::from("Bar") })
    );
}

#[test]
fn identifiers_of_several_segments_key_a_registry() {
    let mut registry = MapRegistry::<u32, Ident<'static>>::new("Shape");
    registry.register(Ident::I1("Vec"), 1);
    registry.register(Ident::I2("Vec", "u8"), 2);
    registry.register(Ident::I3("Result", "u8", "String"), 3);
    assert_eq!(registry.get_deserialize_fn(Ident::I1("Vec")), Ok(&1));
    assert_eq!(registry.get_deserialize_fn(Ident::I2("Vec", "u8")), Ok(&2));
    assert_eq!(registry.get_deserialize_fn(Ident::parse("Result/u8/String")), Ok(&3));
    assert_eq!(
        registry.get_deserialize_fn(Ident::I2("Vec", "u16")),
        Err(GetError::NotRegistered { id: Ident::I2("Vec", "u16") })
    );
    registry.register(Ident::parse("Vec/u8"), 4);
    assert_eq!(
        registry.get_deserialize_fn(Ident::I2("Vec", "u8")),
        Err(GetError::MultipleRegistrations { id: Ident::I2("Vec", "u8") })
    );
    assert_eq!(registry.get_deserialize_fn(Ident::I1("Vec")), Ok(&1));
}

#[test]
fn an_identifier_is_not_its_text() {
    let mut registry = MapRegistry::<u32, Ident<'static>>::new("Shape");
    registry.register(Ident::I1("a/b"), 1);
    assert_eq!(
        registry.get_deserialize_fn(Ident::I2("a", "b")),
        Err(GetError::NotRegistered { id: Ident::I2("a", "b") })
    );
    assert_eq!(registry.get_deserialize_fn(Ident::I1("a/b")), Ok(&1));
}

#[test]
fn many_identifiers_are_kept_apart() {
    let names: Vec<String> = (0..200).map(|i| format!("T{}", i)).collect();
    let mut registry = MapRegistry::<usize, String>::new("Shape");
    for (i, name) in names.iter().enumerate() {
        registry.register(name.clone(), i);
    }
    for (i, name) in names.iter().enumerate() {
        assert_eq!(registry.get_deserialize_fn(name.clone()), Ok(&i));
    }
    registry.register(names[17].clone(), 0);
    for (i, name) in names.iter().enumerate() {
        if i == 17 {
            assert_eq!(
                registry.get_deserialize_fn(name.clone()),
                Err(GetError::MultipleRegistrations { id: name.clone() })
            );
        } else {
            assert_eq!(registry.get_deserialize_fn(name.clone()), Ok(&i));
        }
    }
}

#[test]
fn the_error_names_the_identifier() {
    let missing = GetError::NotRegistered { id: "Foo" };
    assert_eq!(
        missing.to_string(),
        "no deserialize function was registered for id '\"Foo\"'"
    );
    let twice = GetError::MultipleRegistrations { id: "Foo" };
    assert_eq!(
        twice.to_string(),
        "multiple deserialize functions were registered for id '\"Foo\"'"
    );
    let segments = GetError::NotRegistered { id: Ident::I2("Vec", "u8") };
    assert_eq!(
        segments.to_string(),
        "no deserialize function was registered for id 'I2(\"Vec\", \"u8\")'"
    );
}
