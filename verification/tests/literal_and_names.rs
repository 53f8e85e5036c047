use agentic_core::json::JsonValue;
use agentic_core::literal::{parse_literal, Literal};
use agentic_core::names::{join_qualified, split_qualified};

fn parse_to_json(text: &str) -> JsonValue {
    parse_literal(text).unwrap().to_json()
}

#[test]
fn join_then_split_recovers_server_and_tool() {
    let qualified = join_qualified("Alpha", "OVERVIEW");
    assert_eq!(qualified, "Alpha___OVERVIEW");
    let (server, tool) = split_qualified(&qualified).unwrap();
    assert_eq!(server, "Alpha");
    assert_eq!(tool, "OVERVIEW");
}

#[test]
fn split_without_separator_is_none() {
    assert!(split_qualified("plainname").is_none());
    assert!(split_qualified("under_scores_only").is_none());
}

#[test]
fn split_takes_the_first_two_segments() {
    let (server, tool) = split_qualified("a___b___c").unwrap();
    assert_eq!(server, "a");
    assert_eq!(tool, "b");
}

#[test]
fn conversion_is_identity_on_json_safe_scalars() {
    assert!(matches!(parse_to_json("'hello'"), JsonValue::Str(s) if s == "hello"));
    assert!(matches!(parse_to_json("\"double\""), JsonValue::Str(s) if s == "double"));
    assert!(matches!(parse_to_json("True"), JsonValue::Bool(true)));
    assert!(matches!(parse_to_json("False"), JsonValue::Bool(false)));
    assert!(matches!(parse_to_json("42"), JsonValue::Int(42)));
    assert!(matches!(parse_to_json("-17"), JsonValue::Int(-17)));
}

#[test]
fn conversion_preserves_nested_structure_and_drops_non_string_keys() {
    let value = parse_to_json("{'a': 1, 2: 'dropped', 'b': [True, None, 1.5]}");
    match &value {
        JsonValue::Obj(members) => {
            // The pair under the integer key is dropped, not retained.
            assert_eq!(members.len(), 2);
            assert_eq!(members[0].0, "a");
            assert!(matches!(members[0].1, JsonValue::Int(1)));
            assert_eq!(members[1].0, "b");
            match &members[1].1 {
                JsonValue::Arr(items) => {
                    assert_eq!(items.len(), 3);
                    assert!(matches!(items[0], JsonValue::Bool(true)));
                    assert!(matches!(items[1], JsonValue::Null));
                    // A float is an unsupported literal kind and becomes null.
                    assert!(matches!(items[2], JsonValue::Null));
                }
                _ => panic!("expected a list under b"),
            }
        }
        _ => panic!("expected an object"),
    }
}

#[test]
fn unsupported_literal_kinds_become_null() {
    assert!(matches!(parse_to_json("None"), JsonValue::Null));
    assert!(matches!(parse_to_json("1.25"), JsonValue::Null));
    assert!(matches!(parse_to_json("2e10"), JsonValue::Null));
    assert!(matches!(parse_to_json("-0.5"), JsonValue::Null));
    assert!(matches!(parse_to_json("(1, 'two')"), JsonValue::Null));
    assert!(matches!(parse_to_json("(1,)"), JsonValue::Null));
    assert!(matches!(parse_to_json("()"), JsonValue::Null));
}

#[test]
fn a_parenthesized_value_is_the_value_itself() {
    assert!(matches!(parse_to_json("(5)"), JsonValue::Int(5)));
    assert!(matches!(parse_to_json("( 'x' )"), JsonValue::Str(s) if s == "x"));
}

#[test]
fn tuples_inside_containers_become_null_members() {
    let value = parse_to_json("{'a': (1, 2), 'b': [3, (4,)]}");
    match &value {
        JsonValue::Obj(members) => {
            assert!(matches!(members[0].1, JsonValue::Null));
            match &members[1].1 {
                JsonValue::Arr(items) => {
                    assert!(matches!(items[0], JsonValue::Int(3)));
                    assert!(matches!(items[1], JsonValue::Null));
                }
                _ => panic!("expected a list under b"),
            }
        }
        _ => panic!("expected an object"),
    }
}

#[test]
fn string_escapes_are_decoded() {
    assert!(matches!(parse_to_json("'a\\nb'"), JsonValue::Str(s) if s == "a\nb"));
    assert!(matches!(parse_to_json("'tab\\there'"), JsonValue::Str(s) if s == "tab\there"));
    assert!(matches!(parse_to_json("'quote\\'s'"), JsonValue::Str(s) if s == "quote's"));
    assert!(matches!(parse_to_json("'back\\\\slash'"), JsonValue::Str(s) if s == "back\\slash"));
}

#[test]
fn empty_containers_parse() {
    assert!(matches!(parse_to_json("[]"), JsonValue::Arr(items) if items.is_empty()));
    assert!(matches!(parse_to_json("{}"), JsonValue::Obj(members) if members.is_empty()));
    assert!(matches!(parse_to_json("[ ]"), JsonValue::Arr(items) if items.is_empty()));
}

#[test]
fn trailing_commas_are_accepted() {
    assert!(matches!(parse_to_json("[1, 2,]"), JsonValue::Arr(items) if items.len() == 2));
    assert!(matches!(parse_to_json("{'a': 1,}"), JsonValue::Obj(members) if members.len() == 1));
}

#[test]
fn whitespace_around_the_value_is_ignored() {
    assert!(matches!(parse_to_json("  \n\t 7 \r\n"), JsonValue::Int(7)));
}

#[test]
fn an_integer_beyond_sixty_four_bits_coerces_to_zero() {
    assert!(matches!(parse_to_json("99999999999999999999999999"), JsonValue::Int(0)));
    assert!(matches!(parse_to_json("-99999999999999999999999999"), JsonValue::Int(0)));
    assert!(matches!(parse_to_json("9223372036854775807"), JsonValue::Int(9223372036854775807)));
    assert!(matches!(
        parse_to_json("-9223372036854775808"),
        JsonValue::Int(-9223372036854775808)
    ));
    assert!(matches!(parse_to_json("9223372036854775808"), JsonValue::Int(0)));
}

#[test]
fn malformed_literals_are_rejected() {
    assert!(parse_literal("'unterminated").is_err());
    assert!(parse_literal("[1, 2").is_err());
    assert!(parse_literal("{'a' 1}").is_err());
    assert!(parse_literal("1 trailing").is_err());
    assert!(parse_literal("").is_err());
    assert!(parse_literal("truthy").is_err());
}

#[test]
fn nested_dictionaries_convert_recursively() {
    let value = parse_to_json("{'outer': {'inner': [1, {'deep': True}]}}");
    match &value {
        JsonValue::Obj(members) => match &members[0].1 {
            JsonValue::Obj(inner) => match &inner[0].1 {
                JsonValue::Arr(items) => match &items[1] {
                    JsonValue::Obj(deep) => {
                        assert_eq!(deep[0].0, "deep");
                        assert!(matches!(deep[0].1, JsonValue::Bool(true)));
                    }
                    _ => panic!("expected the deep object"),
                },
                _ => panic!("expected the inner list"),
            },
            _ => panic!("expected the inner object"),
        },
        _ => panic!("expected the outer object"),
    }
}

#[test]
fn literal_values_convert_without_parsing() {
    let dict = Literal::Dict(vec![
        (Literal::Str("k".to_string()), Literal::Int(5)),
        (Literal::Bool(true), Literal::Int(6)),
    ]);
    match dict.to_json() {
        JsonValue::Obj(members) => {
            assert_eq!(members.len(), 1);
            assert_eq!(members[0].0, "k");
            assert!(matches!(members[0].1, JsonValue::Int(5)));
        }
        _ => panic!("expected an object"),
    }
}
