use delo::c_names::{
    default_value_for_c_type, format_helper_name, is_primitive_c_type, mangle, map_type, tuple_c_type_name,
    FunctionInstantiation, UserTypeInstantiation,
};
use delo::token::{Token, TokenType};
use delo::types::TypeExpr;

fn named(name: &str, args: Vec<TypeExpr>) -> TypeExpr {
    TypeExpr::Named {
        identifier: Token { token_type: TokenType::Identifier, lexeme: name.to_string(), literal: None, line: 1, column: 1 },
        type_parameters: None,
        type_arguments: args,
        enum_variants: None,
        struct_fields: None,
    }
}

#[test]
fn names_are_mangled_with_a_prefix() {
    assert_eq!(mangle("main"), "_delo_main");
    assert_eq!(mangle(""), "_delo_");
}

#[test]
fn primitive_c_types() {
    for t in ["int", "double", "bool", "const char*", "void"] {
        assert!(is_primitive_c_type(t));
    }
    assert!(!is_primitive_c_type("struct _delo_Point"));
    assert!(!is_primitive_c_type("Int"));
}

#[test]
fn default_values_of_c_types() {
    assert_eq!(default_value_for_c_type("int"), "0");
    assert_eq!(default_value_for_c_type("double"), "0.0");
    assert_eq!(default_value_for_c_type("bool"), "false");
    assert_eq!(default_value_for_c_type("const char*"), "\"\"");
    assert_eq!(default_value_for_c_type("Array_int"), "{0}");
}

#[test]
fn suffix_drops_struct_and_replaces_punctuation() {
    assert_eq!(UserTypeInstantiation::suffix("struct _delo_Point"), "_delo_Point");
    assert_eq!(UserTypeInstantiation::suffix("const char*"), "const_char_");
    assert_eq!(UserTypeInstantiation::suffix("int"), "int");
    assert_eq!(UserTypeInstantiation::suffix("struct"), "struct");
}

#[test]
fn instantiation_names_join_suffixes() {
    let u = UserTypeInstantiation {
        identifier: "Pair".to_string(),
        argument_c_types: vec!["int".to_string(), "const char*".to_string()],
    };
    assert_eq!(u.c_identifier(), "_delo_Pair_int_const_char_");
    let f = FunctionInstantiation { base_identifier: "id".to_string(), argument_c_types: vec!["double".to_string()] };
    assert_eq!(f.c_identifier(), "_delo_id_double");
    let plain = FunctionInstantiation { base_identifier: "f".to_string(), argument_c_types: vec![] };
    assert_eq!(plain.c_identifier(), "_delo_f");
}

#[test]
fn tuple_names() {
    assert_eq!(tuple_c_type_name(&["int".to_string(), "bool".to_string()]), "Tuple_int_bool");
    assert_eq!(tuple_c_type_name(&[]), "Tuple");
}

#[test]
fn format_helpers() {
    assert_eq!(format_helper_name("int"), "format_int");
    assert_eq!(format_helper_name("const char*"), "format_string");
    assert_eq!(format_helper_name("Array_int"), "format_Array_int");
}

#[test]
fn c_types_of_language_types() {
    assert_eq!(map_type(&named("Int", vec![])), "int");
    assert_eq!(map_type(&named("String", vec![])), "const char*");
    assert_eq!(map_type(&named("Array", vec![named("String", vec![])])), "Array_const_char_");
    assert_eq!(map_type(&named("Map", vec![named("Int", vec![]), named("Bool", vec![])])), "Map_int_bool");
    assert_eq!(map_type(&named("InclusiveRange", vec![named("Int", vec![])])), "Range_int");
    assert_eq!(map_type(&named("Point", vec![])), "_delo_Point");
    assert_eq!(map_type(&named("Box", vec![named("Double", vec![])])), "_delo_Box_double");
    assert_eq!(map_type(&TypeExpr::TypeVar { id: 1 }), "void*");
    let f = TypeExpr::Function { parameter_types: vec![], return_type: Box::new(named("Int", vec![])) };
    assert_eq!(map_type(&f), "Fn");
    let t = TypeExpr::Tuple { element_types: vec![named("Int", vec![]), named("Array", vec![named("Int", vec![])])] };
    assert_eq!(map_type(&t), "Tuple_int_Array_int");
}
