use delo::ast::{FunctionStmt, Pattern, Stmt, VariableBinding};
use delo::c_names::UserTypeInstantiation;
use delo::code_generator::{CodeGenerator, PrimitivePatternType};
use delo::error::CodegenError;
use delo::token::{Token, TokenType};
use delo::types::{EnumVariant, TypeExpr};

fn token(lexeme: &str) -> Token {
    Token { token_type: TokenType::Identifier, lexeme: lexeme.to_string(), literal: None, line: 3, column: 7 }
}

fn named(name: &str, args: Vec<TypeExpr>) -> TypeExpr {
    TypeExpr::Named {
        identifier: token(name),
        type_parameters: None,
        type_arguments: args,
        enum_variants: None,
        struct_fields: None,
    }
}

fn optional_of_int() -> TypeExpr {
    TypeExpr::Named {
        identifier: token("Optional"),
        type_parameters: Some(vec![TypeExpr::TypeVar { id: 0 }]),
        type_arguments: vec![named("Int", vec![])],
        enum_variants: Some(vec![
            EnumVariant { identifier: token("Some"), payload_types: vec![TypeExpr::TypeVar { id: 0 }] },
            EnumVariant { identifier: token("None"), payload_types: vec![] },
        ]),
        struct_fields: None,
    }
}

#[test]
fn map_type_names_and_records_instantiations() {
    let mut generator = CodeGenerator::new();
    assert_eq!(generator.map_type(&named("Array", vec![named("Int", vec![])])), "Array_int");
    assert_eq!(generator.map_type(&named("Map", vec![named("String", vec![]), named("Double", vec![])])), "Map_const_char__double");
    assert_eq!(generator.map_type(&TypeExpr::Tuple { element_types: vec![named("Int", vec![]), named("Bool", vec![])] }), "Tuple_int_bool");
    generator.write_array_types();
    let output = generator.output().clone();
    assert!(output.starts_with("typedef struct { size_t length; size_t capacity; int* data; } Array_int;\n"));
    assert!(output.contains("Array_int array_repeat_int(Array_int a, int n) {\n"));
}

#[test]
fn array_instantiations_are_written_in_sorted_order_once() {
    let mut generator = CodeGenerator::new();
    generator.map_type(&named("Array", vec![named("Int", vec![])]));
    generator.map_type(&named("Array", vec![named("String", vec![])]));
    generator.map_type(&named("Array", vec![named("Int", vec![])]));
    generator.write_array_types();
    let output = generator.output().clone();
    let string_pos = output.find("} Array_const_char_;").unwrap();
    let int_pos = output.find("} Array_int;").unwrap();
    assert!(string_pos < int_pos);
    assert_eq!(output.matches("} Array_int;").count(), 1);
}

#[test]
fn range_types_are_written_exactly() {
    let mut generator = CodeGenerator::new();
    generator.map_type(&named("InclusiveRange", vec![named("Int", vec![])]));
    generator.write_range_types();
    assert_eq!(
        generator.output().as_str(),
        "typedef struct { int start; int end; bool inclusive; } Range_int;\n\
         Range_int make_Range_int(int start, int end, bool inclusive) {\n    \
         Range_int r; r.start = start; r.end = end; r.inclusive = inclusive;\n    \
         return r;\n\
         }\n\
         \n"
    );
}

#[test]
fn map_types_hash_string_keys() {
    let mut generator = CodeGenerator::new();
    generator.map_type(&named("Map", vec![named("String", vec![]), named("Int", vec![])]));
    generator.write_map_types();
    let output = generator.output().clone();
    assert!(output.contains("typedef struct { bool occupied; const char* key; int value; } Map_const_char__int_Slot;\n"));
    assert!(output.contains("    size_t idx = string_hash(key) & mask;\n"));
    assert!(output.contains("        if (strcmp(a, b) == 0) { return idx; }\n"));
    assert!(output.contains("int map_get_const_char__int(Map_const_char__int m, const char* key) {\n"));
}

#[test]
fn tracked_variable_gets_a_history() {
    let mut generator = CodeGenerator::new();
    generator.declare_tracked_variable(&token("x"), &named("Double", vec![]));
    assert_eq!(generator.output().as_str(), "static History_double* _delo_x = NULL;\n");
    generator.write_history_types();
    let output = generator.output().clone();
    assert!(output.contains("} History_double;\n"));
    assert!(output.contains("static void history_assign_double(History_double* h, double computed_val) {\n"));
    assert!(output.contains("            h->capacity *= 2;\n"));
}

#[test]
fn nested_tuples_are_defined_inner_first() {
    let mut generator = CodeGenerator::new();
    let inner = TypeExpr::Tuple { element_types: vec![named("Int", vec![]), named("Bool", vec![])] };
    let outer = TypeExpr::Tuple { element_types: vec![named("Int", vec![]), inner] };
    assert_eq!(generator.map_type(&outer), "Tuple_int_Tuple_int_bool");
    generator.write_tuple_types();
    let output = generator.output().clone();
    let inner_pos = output.find("typedef struct Tuple_int_bool {").unwrap();
    let outer_pos = output.find("typedef struct Tuple_int_Tuple_int_bool {").unwrap();
    assert!(inner_pos < outer_pos);
    assert!(output.contains("    Tuple_int_bool _1;\n"));
    assert_eq!(output.matches("typedef struct Tuple_int_bool {").count(), 1);
}

#[test]
fn temporary_names_are_numbered() {
    let mut generator = CodeGenerator::new();
    assert_eq!(generator.new_temp_id("dest_"), "__dest_0");
    assert_eq!(generator.new_temp_id("t"), "__t1");
}

#[test]
fn indentation_is_four_spaces_and_stops_at_zero() {
    let mut generator = CodeGenerator::new();
    generator.indent();
    generator.write_line("a");
    generator.un_indent();
    generator.un_indent();
    generator.write_line("b");
    assert_eq!(generator.output().as_str(), "    a\nb\n");
}

#[test]
fn struct_declaration_lists_fields() {
    let mut generator = CodeGenerator::new();
    let fields = vec![(token("x"), named("Int", vec![])), (token("ys"), named("Array", vec![named("Double", vec![])]))];
    generator.generate_struct_declaration(&token("Point"), &fields);
    assert_eq!(
        generator.output().as_str(),
        "typedef struct _delo_Point {\n    int _delo_x;\n    Array_double _delo_ys;\n} _delo_Point;\n\n"
    );
}

#[test]
fn primitive_patterns_are_classified() {
    let generator = CodeGenerator::new();
    let int_type = named("Int", vec![]);
    match generator.classify_primitive_pattern(&Pattern::Variable(token("True")), &named("Bool", vec![]), "s", "bool") {
        Ok(PrimitivePatternType::Conditional { condition }) => assert_eq!(condition, "s == true"),
        _ => panic!("expected a condition"),
    }
    match generator.classify_primitive_pattern(&Pattern::Variable(token("n")), &int_type, "s", "int") {
        Ok(PrimitivePatternType::CatchAll { binding: Some((name, c_type)) }) => {
            assert_eq!(name, "_delo_n");
            assert_eq!(c_type, "int");
        }
        _ => panic!("expected a binding"),
    }
    let range = Pattern::Range { start: token("1"), end: token("5"), is_inclusive: false };
    match generator.classify_primitive_pattern(&range, &int_type, "s", "int") {
        Ok(PrimitivePatternType::Conditional { condition }) => assert_eq!(condition, "s >= 1 && s < 5"),
        _ => panic!("expected a condition"),
    }
    let variant = Pattern::EnumVariant { identifier: token("Some"), arguments: vec![] };
    assert!(matches!(
        generator.classify_primitive_pattern(&variant, &int_type, "s", "int"),
        Err(CodegenError::UnexpectedTypeInCodegen { line: 3, column: 7, .. })
    ));
}

#[test]
fn lowering_a_variant_pattern_binds_its_payload() {
    let mut generator = CodeGenerator::new();
    let mut out: Vec<String> = Vec::new();
    let pattern = Pattern::EnumVariant { identifier: token("Some"), arguments: vec![Pattern::Variable(token("v"))] };
    generator.lower_pattern(&mut out, &pattern, "subj", &optional_of_int()).unwrap();
    assert_eq!(out, vec!["int _delo_v = subj.data._delo_Some.value;".to_string()]);
    let wrong = Pattern::EnumVariant { identifier: token("Some"), arguments: vec![] };
    assert!(matches!(
        generator.lower_pattern(&mut out, &wrong, "subj", &optional_of_int()),
        Err(CodegenError::InvalidEnumPatternArgumentCount { expected: 1, found: 0, .. })
    ));
    let unknown = Pattern::EnumVariant { identifier: token("Other"), arguments: vec![] };
    assert!(matches!(
        generator.lower_pattern(&mut out, &unknown, "subj", &optional_of_int()),
        Err(CodegenError::UnknownEnumVariantInPattern { .. })
    ));
}

#[test]
fn lowering_a_string_literal_uses_strcmp() {
    let mut generator = CodeGenerator::new();
    let mut out: Vec<String> = Vec::new();
    generator.indent();
    generator.lower_pattern(&mut out, &Pattern::Literal(token("\"a\"")), "s", &named("String", vec![])).unwrap();
    assert_eq!(out, vec!["    if (strcmp(s, \"a\") != 0) { break; }".to_string()]);
}

#[test]
fn zero_ary_variant_is_found() {
    let generator = CodeGenerator::new();
    let found = generator.resolve_zero_ary_variant(&optional_of_int(), &Pattern::Variable(token("None")));
    assert_eq!(found.map(|v| v.identifier.lexeme), Some("None".to_string()));
    assert!(generator.resolve_zero_ary_variant(&optional_of_int(), &Pattern::Variable(token("Some"))).is_none());
}

#[test]
fn variant_payloads_are_instantiated() {
    let generator = CodeGenerator::new();
    let variant = EnumVariant { identifier: token("Some"), payload_types: vec![TypeExpr::TypeVar { id: 0 }] };
    let instantiated = generator.instantiate_enum_variant_payloads(&optional_of_int(), &variant);
    assert_eq!(instantiated.payload_types[0].to_string(), "Int");
}

#[test]
fn tuple_binding_destructures_through_a_temporary() {
    let mut generator = CodeGenerator::new();
    let mut out: Vec<String> = Vec::new();
    let binding = VariableBinding::Tuple {
        elements: vec![VariableBinding::Identifier(token("a")), VariableBinding::Identifier(token("b"))],
        left_paren: token("("),
    };
    let tuple_type = TypeExpr::Tuple { element_types: vec![named("Int", vec![]), named("Bool", vec![])] };
    generator.emit_variable_binding(&mut out, &binding, &tuple_type, "Tuple_int_bool", "make()").unwrap();
    assert_eq!(
        out,
        vec![
            "Tuple_int_bool __dest_0 = make();".to_string(),
            "int _delo_a = __dest_0._0;".to_string(),
            "bool _delo_b = __dest_0._1;".to_string(),
        ]
    );
}

#[test]
fn int_pow_helper_is_written_dedented() {
    let mut generator = CodeGenerator::new();
    generator.write_int_pow_helper();
    let out = generator.output();
    assert!(out.starts_with("int int_pow(int base, int exp) {\n    int result = 1;\n"));
    assert!(out.contains("\n    return result;\n}\n"));
}

#[test]
fn helper_functions_come_in_order() {
    let mut generator = CodeGenerator::new();
    generator.write_helper_functions();
    let out = generator.output();
    let concat = out.find("const char* string_concat(").unwrap();
    let repeat = out.find("const char* string_repeat(").unwrap();
    let pow = out.find("int int_pow(").unwrap();
    let hash = out.find("size_t string_hash(").unwrap();
    let format = out.find("void format_string(").unwrap();
    assert!(concat < repeat && repeat < pow && pow < hash && hash < format);
    assert!(out.starts_with("const char* string_concat("));
}

#[test]
fn time_travel_runtime_defines_event_ids() {
    let mut generator = CodeGenerator::new();
    generator.write_time_travel_runtime();
    let out = generator.output();
    assert!(out.starts_with("// ===== Time-travel runtime =====\ntypedef struct {\n    size_t* call_path;\n"));
}

#[test]
fn tuple_helpers_compare_and_print_each_element() {
    let mut generator = CodeGenerator::new();
    generator.map_type(&TypeExpr::Tuple { element_types: vec![named("Int", vec![]), named("String", vec![])] });
    let before = generator.output().clone();
    generator.write_tuple_helpers();
    let out = generator.output()[before.len()..].to_string();
    let expected = "bool tuple_eq_Tuple_int_const_char_(Tuple_int_const_char_ a, Tuple_int_const_char_ b) {\n\
    \x20   if (a._0 != b._0) return false;\n\
    \x20   if (strcmp(a._1, b._1) != 0) return false;\n\
    \x20   return true;\n\
    }\n\
    \n\
    void format_Tuple_int_const_char_(Tuple_int_const_char_ v, FILE* stream) {\n\
    \x20   fprintf(stream, \"(\");\n\
    \x20   format_int(v._0, stream);\n\
    \x20   fprintf(stream, \", \");\n\
    \x20   format_string(v._1, stream);\n\
    \x20   fprintf(stream, \")\");\n\
    }\n\
    \n";
    assert_eq!(out, expected);
}

#[test]
fn one_element_tuple_prints_trailing_comma_and_nested_tuples_compare_by_helper() {
    let mut generator = CodeGenerator::new();
    let inner = TypeExpr::Tuple { element_types: vec![named("Bool", vec![])] };
    generator.map_type(&TypeExpr::Tuple { element_types: vec![inner, named("Array", vec![named("Int", vec![])])] });
    generator.write_tuple_helpers();
    let out = generator.output().clone();
    assert!(out.contains("    fprintf(stream, \"(\");\n    format_bool(v._0, stream);\n    fprintf(stream, \",\");\n    fprintf(stream, \")\");\n"));
    assert!(out.contains("    if (!tuple_eq_Tuple_bool(a._0, b._0)) return false;\n"));
    assert!(out.contains("    if (memcmp(&a._1, &b._1, sizeof(a._1)) != 0) return false;\n"));
    assert!(out.contains("    format_Tuple_bool(v._0, stream);\n    fprintf(stream, \", \");\n    format_Array_int(v._1, stream);\n"));
}

#[test]
fn tuple_helper_declarations_end_with_blank_line() {
    let mut generator = CodeGenerator::new();
    generator.write_tuple_helper_declarations();
    assert_eq!(generator.output(), "");
    generator.map_type(&TypeExpr::Tuple { element_types: vec![named("Int", vec![]), named("Int", vec![])] });
    generator.write_tuple_helper_declarations();
    assert_eq!(
        generator.output(),
        "bool tuple_eq_Tuple_int_int(Tuple_int_int a, Tuple_int_int b);\nvoid format_Tuple_int_int(Tuple_int_int v, FILE* stream);\n\n"
    );
}

#[test]
fn generic_struct_is_instantiated_at_its_arguments() {
    let mut generator = CodeGenerator::new();
    let declaration = Stmt::Struct {
        identifier: token("Pair"),
        type_parameters: vec![token("A"), token("B")],
        fields: vec![
            (token("first"), named("A", vec![])),
            (token("second"), named("B", vec![])),
            (token("count"), named("Int", vec![])),
        ],
    };
    generator.generate_declarations(&declaration);
    assert_eq!(generator.output(), "");
    generator.map_type(&named("Pair", vec![named("Int", vec![]), named("String", vec![])]));
    generator.write_user_type_instantiations();
    assert_eq!(
        generator.output(),
        "typedef struct _delo_Pair_int_const_char_ {\n    int _delo_first;\n    const char* _delo_second;\n    int _delo_count;\n} _delo_Pair_int_const_char_;\n\n"
    );
}

#[test]
fn enum_without_type_parameters_is_defined_at_once() {
    let mut generator = CodeGenerator::new();
    let declaration = Stmt::Enum {
        identifier: token("Shape"),
        type_parameters: vec![],
        variants: vec![
            EnumVariant { identifier: token("Circle"), payload_types: vec![named("Double", vec![])] },
            EnumVariant { identifier: token("Rect"), payload_types: vec![named("Int", vec![]), named("Int", vec![])] },
            EnumVariant { identifier: token("Empty"), payload_types: vec![] },
        ],
    };
    generator.generate_declarations(&declaration);
    let expected = "typedef enum _delo_Shape_Tag {\n    _delo_Shape__delo_Circle,\n    _delo_Shape__delo_Rect,\n    _delo_Shape__delo_Empty,\n} _delo_Shape_Tag;\n\n\
typedef struct _delo_Shape {\n    _delo_Shape_Tag tag;\n    union {\n        struct {\n            double value;\n        } _delo_Circle;\n        struct {\n            int field0;\n            int field1;\n        } _delo_Rect;\n    } data;\n} _delo_Shape;\n\n";
    assert_eq!(generator.output(), expected);
}

#[test]
fn enum_without_payloads_has_no_union() {
    let mut generator = CodeGenerator::new();
    let declaration = Stmt::Enum {
        identifier: token("Color"),
        type_parameters: vec![],
        variants: vec![EnumVariant { identifier: token("Red"), payload_types: vec![] }],
    };
    generator.generate_declarations(&declaration);
    assert_eq!(
        generator.output(),
        "typedef enum _delo_Color_Tag {\n    _delo_Color__delo_Red,\n} _delo_Color_Tag;\n\ntypedef struct _delo_Color {\n    _delo_Color_Tag tag;\n} _delo_Color;\n\n"
    );
}

#[test]
fn optional_is_defined_as_a_tagged_union() {
    let mut generator = CodeGenerator::new();
    generator.map_type(&optional_of_int());
    generator.write_user_type_instantiations();
    let expected = "typedef enum _delo_Optional_int_Tag {\n    _delo_Optional_int__delo_Some,\n    _delo_Optional_int__delo_None,\n} _delo_Optional_int_Tag;\n\n\
typedef struct _delo_Optional_int {\n    _delo_Optional_int_Tag tag;\n    union {\n        struct {\n            int value;\n        } _delo_Some;\n    } data;\n} _delo_Optional_int;\n\n";
    assert_eq!(generator.output(), expected);
}

#[test]
fn declarations_are_kept_by_name() {
    let mut generator = CodeGenerator::new();
    let function = FunctionStmt {
        identifier: token("area"),
        type_parameters: vec![],
        parameters: vec![],
        return_type: None,
        body: vec![],
    };
    generator.generate_declarations(&Stmt::Function(std::rc::Rc::new(function)));
    let generic = Stmt::Struct { identifier: token("Box"), type_parameters: vec![token("T")], fields: vec![] };
    generator.generate_declarations(&generic);
    assert_eq!(generator.output(), "");
    assert!(generator.declarations().has_function(&"area".to_string()));
    assert!(!generator.declarations().has_function(&"Box".to_string()));
    assert!(generator.declarations().find_struct(&"Box".to_string()).is_some());
    assert!(generator.declarations().find_enum(&"Box".to_string()).is_none());
}

#[test]
fn format_helpers_declare_then_define() {
    let mut generator = CodeGenerator::new();
    let point = Stmt::Struct { identifier: token("Point"), type_parameters: vec![], fields: vec![(token("x"), named("Int", vec![]))] };
    generator.generate_declarations(&point);
    generator.map_type(&named("Array", vec![named("Int", vec![])]));
    let before = generator.output().len();
    generator.write_format_helpers();
    let out = generator.output()[before..].to_string();
    let expected = "void format_Array_int(Array_int arr, FILE* stream);\n\
void format__delo_Point(_delo_Point v, FILE* stream);\n\
void format_Array_int(Array_int arr, FILE* stream) {\n\
\x20   fprintf(stream, \"[\");\n\
\x20   for (size_t i = 0; i < arr.length; ++i) {\n\
\x20       if (i > 0) fprintf(stream, \", \");\n\
\x20       format_int(arr.data[i], stream);\n\
\x20   }\n\
\x20   fprintf(stream, \"]\");\n\
}\n\
\n\
void format__delo_Point(_delo_Point v, FILE* stream) {\n\
\x20   fprintf(stream, \"Point { \");\n\
\x20   fprintf(stream, \"x: \");\n\
\x20   format_int(v._delo_x, stream);\n\
\x20   fprintf(stream, \" }\");\n\
}\n\
\n";
    assert_eq!(out, expected);
}

#[test]
fn enum_format_helper_prints_variant_and_payload() {
    let mut generator = CodeGenerator::new();
    let shape = Stmt::Enum {
        identifier: token("Shape"),
        type_parameters: vec![],
        variants: vec![
            EnumVariant { identifier: token("Circle"), payload_types: vec![named("Double", vec![])] },
            EnumVariant { identifier: token("Rect"), payload_types: vec![named("Int", vec![]), named("Int", vec![])] },
            EnumVariant { identifier: token("Empty"), payload_types: vec![] },
        ],
    };
    generator.generate_declarations(&shape);
    let before = generator.output().len();
    generator.write_user_type_format_helper(&UserTypeInstantiation { identifier: "Shape".to_string(), argument_c_types: vec![] });
    let out = generator.output()[before..].to_string();
    let expected = "void format__delo_Shape(_delo_Shape v, FILE* stream) {\n\
\x20   switch (v.tag) {\n\
\x20   case _delo_Shape__delo_Circle:\n\
\x20       fprintf(stream, \"Circle\");\n\
\x20       fprintf(stream, \"(\");\n\
\x20       format_double(v.data._delo_Circle.value, stream);\n\
\x20       fprintf(stream, \")\");\n\
\x20       break;\n\
\x20   case _delo_Shape__delo_Rect:\n\
\x20       fprintf(stream, \"Rect\");\n\
\x20       fprintf(stream, \"(\");\n\
\x20       format_int(v.data._delo_Rect.field0, stream);\n\
\x20       fprintf(stream, \", \");\n\
\x20       format_int(v.data._delo_Rect.field1, stream);\n\
\x20       fprintf(stream, \")\");\n\
\x20       break;\n\
\x20   case _delo_Shape__delo_Empty:\n\
\x20       fprintf(stream, \"Empty\");\n\
\x20       break;\n\
\x20   }\n\
}\n\
\n";
    assert_eq!(out, expected);
}

#[test]
fn optional_format_helper_prints_some_or_none() {
    let mut generator = CodeGenerator::new();
    generator.write_user_type_format_helper(&UserTypeInstantiation {
        identifier: "Optional".to_string(),
        argument_c_types: vec!["int".to_string()],
    });
    let expected = "void format__delo_Optional_int(_delo_Optional_int v, FILE* stream) {\n\
\x20   if (v.tag == _delo_Optional_int__delo_Some) {\n\
\x20       fprintf(stream, \"Some(\");\n\
\x20       format_int(v.data._delo_Some.value, stream);\n\
\x20       fprintf(stream, \")\");\n\
\x20   } else if (v.tag == _delo_Optional_int__delo_None) {\n\
\x20       fprintf(stream, \"None\");\n\
\x20   }\n\
}\n\
\n";
    assert_eq!(generator.output(), expected);
}

#[test]
fn undeclared_user_type_gets_no_format_helper() {
    let mut generator = CodeGenerator::new();
    generator.write_user_type_format_helper(&UserTypeInstantiation {
        identifier: "Unknown".to_string(),
        argument_c_types: vec!["int".to_string()],
    });
    assert_eq!(generator.output(), "");
}

#[test]
fn a_later_declaration_replaces_an_earlier_one() {
    let mut generator = CodeGenerator::new();
    generator.generate_declarations(&Stmt::Struct { identifier: token("Cell"), type_parameters: vec![token("T")], fields: vec![] });
    generator.generate_declarations(&Stmt::Struct {
        identifier: token("Cell"),
        type_parameters: vec![],
        fields: vec![(token("v"), named("Int", vec![]))],
    });
    generator.generate_declarations(&Stmt::Struct { identifier: token("Pair"), type_parameters: vec![token("A")], fields: vec![] });
    let found = generator.declarations().find_struct(&"Cell".to_string()).unwrap();
    assert_eq!(found.type_parameters.len(), 0);
    assert_eq!(found.fields.len(), 1);
    assert_eq!(generator.declarations().plain_structs(), vec!["Cell".to_string()]);
    assert_eq!(generator.declarations().copy().plain_structs(), vec!["Cell".to_string()]);
    assert!(generator.declarations().plain_enums().is_empty());
}

#[test]
fn substitute_local_replaces_mapped_type_variables() {
    let generator = CodeGenerator::new();
    let mut mapping = std::collections::HashMap::new();
    mapping.insert(0usize, named("Int", vec![]));
    let t = TypeExpr::Tuple { element_types: vec![TypeExpr::TypeVar { id: 0 }, TypeExpr::TypeVar { id: 1 }] };
    let r = generator.substitute_local(&t, &mapping);
    match r {
        TypeExpr::Tuple { element_types } => {
            assert!(matches!(&element_types[0], TypeExpr::Named { identifier, .. } if identifier.lexeme == "Int"));
            assert!(matches!(&element_types[1], TypeExpr::TypeVar { id: 1 }));
        }
        _ => panic!("expected a tuple"),
    }
}

fn token_at(lexeme: &str, line: u32, column: u32) -> Token {
    Token { token_type: TokenType::Identifier, lexeme: lexeme.to_string(), literal: None, line, column }
}

#[test]
fn tracked_variables_get_one_history_global_each() {
    let mut info = delo::type_checker::TypeInfo::new();
    info.tracked_vars.push("x".to_string());
    info.tracked_vars.push("y".to_string());
    info.initializer_types.push(((1, 5), named("Int", vec![])));
    let number = Token { token_type: TokenType::Number, lexeme: "1".to_string(), literal: None, line: 1, column: 9 };
    let stmts = vec![
        Stmt::Variable {
            binding: VariableBinding::Identifier(token_at("x", 1, 5)),
            type_annotation: None,
            initializer: Some(delo::ast::Expr::Literal(number)),
        },
        Stmt::Block(vec![
            Stmt::Variable {
                binding: VariableBinding::Identifier(token_at("y", 2, 9)),
                type_annotation: Some(named("String", vec![])),
                initializer: None,
            },
            Stmt::Variable {
                binding: VariableBinding::Identifier(token_at("x", 3, 9)),
                type_annotation: Some(named("Bool", vec![])),
                initializer: None,
            },
            Stmt::Variable {
                binding: VariableBinding::Identifier(token_at("z", 4, 9)),
                type_annotation: None,
                initializer: None,
            },
        ]),
    ];
    let mut generator = CodeGenerator::new();
    assert!(generator.emit_tracked_var_globals(&stmts, &info).is_ok());
    assert_eq!(generator.output(), "static History_int* _delo_x = NULL;\nstatic History_const_char_* _delo_y = NULL;\n");
}

#[test]
fn tracked_variable_without_a_type_is_an_error() {
    let mut info = delo::type_checker::TypeInfo::new();
    info.tracked_vars.push("a".to_string());
    info.tracked_vars.push("b".to_string());
    let stmts = vec![
        Stmt::Variable {
            binding: VariableBinding::Identifier(token_at("a", 1, 5)),
            type_annotation: Some(named("Int", vec![])),
            initializer: None,
        },
        Stmt::Variable {
            binding: VariableBinding::Identifier(token_at("b", 2, 5)),
            type_annotation: None,
            initializer: None,
        },
    ];
    let mut generator = CodeGenerator::new();
    let result = generator.emit_tracked_var_globals(&stmts, &info);
    assert!(matches!(result, Err(CodegenError::MissingType { line: 2, column: 5, ref identifier }) if identifier == "b"));
    assert_eq!(generator.output(), "static History_int* _delo_a = NULL;\n");
}
