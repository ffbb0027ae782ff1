use scribe::type_detection::{from_path, Type};

#[test]
fn from_path_works() {
    let buffer_type = from_path("file.json").unwrap();
    assert_eq!(buffer_type, Type::JSON);
}

#[test]
fn from_path_recognizes_each_extension() {
    assert_eq!(from_path("a.coffee"), Some(Type::CoffeeScript));
    assert_eq!(from_path("a.js"), Some(Type::JavaScript));
    assert_eq!(from_path("a.xml"), Some(Type::XML));
    assert_eq!(from_path("a.rake"), Some(Type::Ruby));
    assert_eq!(from_path("a.rb"), Some(Type::Ruby));
    assert_eq!(from_path("a.rs"), Some(Type::Rust));
    assert_eq!(from_path("a.erb"), Some(Type::ERB));
    assert_eq!(from_path("Makefile"), None);
}
