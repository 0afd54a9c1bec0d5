use interner::codec::decode;
use interner::interner::{InternError, InternerBuilder};

#[test]
fn can_build_interner() {
    let mut builder = InternerBuilder::new();
    let int1 = builder.get_or_intern("Hello").unwrap();
    let int2 = builder.get_or_intern("World").unwrap();
    let resolver = builder.build();
    assert_eq!(resolver.encode(), vec!["", "Hello", "World"]);
    assert_eq!(int1, 1);
    assert_eq!(int2, 2);
}

#[test]
fn can_access_after_move() {
    let mut builder = InternerBuilder::new();
    let int1 = builder.get_or_intern("Hello").unwrap();
    let int2 = builder.get_or_intern("World").unwrap();
    let resolver = builder.build();
    assert_eq!(resolver.encode(), vec!["", "Hello", "World"]);
    assert_eq!(int1, 1);
    assert_eq!(int2, 2);

    let resolver2 = resolver;

    assert_eq!(resolver2.encode(), vec!["", "Hello", "World"]);
}

#[test]
fn scenario_hello_world() {
    let mut builder = InternerBuilder::new();
    assert_eq!(builder.get_or_intern("Hello").unwrap(), 1);
    assert_eq!(builder.get_or_intern("World").unwrap(), 2);
    assert_eq!(builder.get_or_intern("Hello").unwrap(), 1);
    let resolver = builder.build();
    assert_eq!(resolver.get("World"), Some(2));
    assert_eq!(resolver.resolve(1), "Hello");
    assert_eq!(resolver.resolve(0), "");
    assert_eq!(resolver.len(), 3);
}

#[test]
fn distinct_strings_get_distinct_symbols() {
    let mut builder = InternerBuilder::new();
    let a = builder.get_or_intern("alpha").unwrap();
    let b = builder.get_or_intern("beta").unwrap();
    let c = builder.get_or_intern("gamma").unwrap();
    assert_ne!(a, b);
    assert_ne!(a, c);
    assert_ne!(b, c);
}

#[test]
fn interning_is_idempotent() {
    let mut builder = InternerBuilder::new();
    let first = builder.get_or_intern("stable").unwrap();
    for _ in 0..5 {
        assert_eq!(builder.get_or_intern("stable").unwrap(), first);
    }
    let resolver = builder.build();
    assert_eq!(resolver.len(), 2);
}

#[test]
fn empty_string_reuses_the_sentinel() {
    let mut builder = InternerBuilder::new();
    assert_eq!(builder.get_or_intern("").unwrap(), 0);
    assert_eq!(builder.get_or_intern("x").unwrap(), 1);
    assert_eq!(builder.get_or_intern("").unwrap(), 0);
    let resolver = builder.build();
    assert_eq!(resolver.len(), 2);
    assert_eq!(resolver.resolve(0), "");
}

#[test]
fn empty_builder_still_has_the_sentinel() {
    let builder = InternerBuilder::new();
    let resolver = builder.build();
    assert_eq!(resolver.len(), 1);
    assert_eq!(resolver.resolve(0), "");
    assert_eq!(resolver.encode(), vec![""]);
}

#[test]
fn len_counts_distinct_strings_plus_sentinel() {
    let mut builder = InternerBuilder::new();
    builder.get_or_intern("one").unwrap();
    builder.get_or_intern("two").unwrap();
    builder.get_or_intern("one").unwrap();
    builder.get_or_intern("three").unwrap();
    let resolver = builder.build();
    assert_eq!(resolver.len(), 4);
}

#[test]
fn get_finds_only_interned_strings() {
    let mut builder = InternerBuilder::new();
    builder.get_or_intern("here").unwrap();
    let resolver = builder.build();
    assert_eq!(resolver.get("here"), Some(1));
    assert_eq!(resolver.get("absent"), None);
    assert_eq!(resolver.get(""), None);
}

#[test]
fn try_resolve_checks_the_range() {
    let mut builder = InternerBuilder::new();
    builder.get_or_intern("only").unwrap();
    let resolver = builder.build();
    assert_eq!(resolver.try_resolve(0), Some(""));
    assert_eq!(resolver.try_resolve(1), Some("only"));
    assert_eq!(resolver.try_resolve(2), None);
}

#[test]
fn resolve_many_keeps_order_and_length() {
    let mut builder = InternerBuilder::new();
    builder.get_or_intern("red").unwrap();
    builder.get_or_intern("green").unwrap();
    builder.get_or_intern("blue").unwrap();
    let resolver = builder.build();
    let syms = [3u32, 0, 1, 1, 2];
    let strs = resolver.resolve_many(&syms);
    assert_eq!(strs, vec!["blue", "", "red", "red", "green"]);
}

#[test]
fn round_trip_through_resolver() {
    let words = ["compiler", "parser", "ast", "token"];
    let mut builder = InternerBuilder::new();
    let mut syms = Vec::new();
    for w in words.iter() {
        syms.push(builder.get_or_intern(*w).unwrap());
    }
    let resolver = builder.build();
    for (w, s) in words.iter().zip(syms.iter()) {
        assert_eq!(resolver.resolve(*s), *w);
        assert_eq!(resolver.get(*w), Some(*s));
    }
}

#[test]
fn encode_then_decode_round_trips() {
    let mut builder = InternerBuilder::new();
    builder.get_or_intern("Hello").unwrap();
    builder.get_or_intern("World").unwrap();
    let resolver = builder.build();
    let encoded = resolver.encode();
    assert_eq!(encoded, vec!["", "Hello", "World"]);
    let decoded = decode(&encoded).unwrap();
    assert_eq!(decoded.encode(), encoded);
    assert_eq!(decoded.get("Hello"), Some(1));
    assert_eq!(decoded.get("World"), Some(2));
    assert_eq!(decoded.resolve(2), "World");
    assert_eq!(decoded.len(), 3);
}

#[test]
fn decode_assigns_symbols_in_encounter_order() {
    let values = vec!["".to_string(), "c".to_string(), "a".to_string(), "b".to_string()];
    let resolver = decode(&values).unwrap();
    assert_eq!(resolver.get("c"), Some(1));
    assert_eq!(resolver.get("a"), Some(2));
    assert_eq!(resolver.get("b"), Some(3));
    assert_eq!(resolver.len(), 4);
}

#[test]
fn decode_skips_the_sentinel_position() {
    let values = vec!["ignored".to_string()];
    let resolver = decode(&values).unwrap();
    assert_eq!(resolver.len(), 1);
    assert_eq!(resolver.resolve(0), "");
    assert_eq!(resolver.get("ignored"), None);
}

#[test]
fn decode_of_an_empty_sequence_gives_the_sentinel_only() {
    let resolver = decode(&Vec::new()).unwrap();
    assert_eq!(resolver.len(), 1);
    assert_eq!(resolver.resolve(0), "");
}

#[test]
fn decode_rejects_a_repeated_value() {
    let values = vec!["".to_string(), "a".to_string(), "b".to_string(), "a".to_string()];
    match decode(&values) {
        Err(InternError::DuplicateValue) => {}
        _ => panic!("a repeated value must be rejected"),
    }
}

#[test]
fn decode_rejects_an_empty_string_outside_the_sentinel() {
    let values = vec!["".to_string(), "x".to_string(), "".to_string()];
    match decode(&values) {
        Err(InternError::DuplicateValue) => {}
        _ => panic!("the empty string already has the sentinel symbol"),
    }
}
