use gents::case::{convert_camel_from_pascal, convert_camel_from_snake, to_lower, to_upper};
use gents::text::{
    indent_string, join_lines_exec, join_with_exec, pair_before, remove_ext, same_text, str_lt,
};
use gents::TsFormatter;

#[test]
fn snake_case_becomes_camel_case() {
    assert_eq!(convert_camel_from_snake("en_name"), "enName");
    assert_eq!(convert_camel_from_snake("field_with_comment"), "fieldWithComment");
    assert_eq!(convert_camel_from_snake("set_f1"), "setF1");
    assert_eq!(convert_camel_from_snake("f1"), "f1");
    assert_eq!(convert_camel_from_snake(""), "");
}

#[test]
fn underscores_are_dropped_wherever_they_stand() {
    assert_eq!(convert_camel_from_snake("_private"), "Private");
    assert_eq!(convert_camel_from_snake("a__b"), "aB");
    assert_eq!(convert_camel_from_snake("trailing_"), "trailing");
    assert_eq!(convert_camel_from_snake("a_1"), "a1");
    assert_eq!(convert_camel_from_snake("a_é"), "aé");
}

#[test]
fn pascal_case_becomes_camel_case() {
    assert_eq!(convert_camel_from_pascal("Center"), "center");
    assert_eq!(convert_camel_from_pascal("VerticalAlignment"), "verticalAlignment");
    assert_eq!(convert_camel_from_pascal("V1"), "v1");
    assert_eq!(convert_camel_from_pascal("already"), "already");
    assert_eq!(convert_camel_from_pascal(""), "");
}

#[test]
fn only_ascii_letters_change_case() {
    assert_eq!(to_upper('a'), 'A');
    assert_eq!(to_upper('z'), 'Z');
    assert_eq!(to_upper('A'), 'A');
    assert_eq!(to_upper('1'), '1');
    assert_eq!(to_upper('é'), 'é');
    assert_eq!(to_lower('A'), 'a');
    assert_eq!(to_lower('Z'), 'z');
    assert_eq!(to_lower('a'), 'a');
    assert_eq!(to_lower('['), '[');
}

#[test]
fn texts_are_ordered_by_code_point() {
    assert!(str_lt("a", "b"));
    assert!(!str_lt("b", "a"));
    assert!(!str_lt("a", "a"));
    assert!(str_lt("", "a"));
    assert!(!str_lt("a", ""));
    assert!(!str_lt("", ""));
    assert!(str_lt("V1", "V10"));
    assert!(str_lt("Z", "a"));
    assert!(str_lt("abc", "abd"));
    assert!(str_lt("z", "é"));
    for (a, b) in [("a", "b"), ("V1", "V10"), ("", "x"), ("Zeta", "alpha"), ("é", "z")] {
        assert_eq!(str_lt(a, b), a < b);
        assert_eq!(str_lt(b, a), b < a);
    }
}

#[test]
fn texts_are_the_same_when_all_characters_are() {
    assert!(same_text("camelCase", "camelCase"));
    assert!(!same_text("camelCase", "camelcase"));
    assert!(!same_text("a", "ab"));
    assert!(same_text("", ""));
}

#[test]
fn pairs_are_ordered_by_the_first_text_then_the_second() {
    assert!(pair_before("A", "z", "B", "a"));
    assert!(pair_before("A", "a", "A", "b"));
    assert!(!pair_before("A", "b", "A", "a"));
    assert!(!pair_before("A", "a", "A", "a"));
    assert!(!pair_before("B", "a", "A", "z"));
}

#[test]
fn the_extension_is_what_follows_the_last_dot() {
    assert_eq!(remove_ext("person.ts"), "person");
    assert_eq!(remove_ext("a.b.ts"), "a.b");
    assert_eq!(remove_ext("noext"), "noext");
    assert_eq!(remove_ext(""), "");
    assert_eq!(remove_ext("models/person.ts"), "models/person");
    assert_eq!(remove_ext("models.v1/person"), "models.v1/person");
    assert_eq!(remove_ext("trailing."), "trailing");
    assert_eq!(remove_ext(".ts"), "");
}

#[test]
fn indentation_is_four_spaces_a_level() {
    assert_eq!(indent_string(0), "");
    assert_eq!(indent_string(1), "    ");
    assert_eq!(indent_string(3), "            ");
}

#[test]
fn lines_are_closed_and_parts_are_separated() {
    let v = vec!["a".to_string(), "".to_string(), "b".to_string()];
    assert_eq!(join_lines_exec(&v), "a\n\nb\n");
    assert_eq!(join_lines_exec(&vec![]), "");
    assert_eq!(join_with_exec(&v, ", "), "a, , b");
    assert_eq!(join_with_exec(&vec!["only".to_string()], ", "), "only");
    assert_eq!(join_with_exec(&vec![], ", "), "");
}

#[test]
fn a_new_formatter_writes_an_empty_file() {
    assert_eq!(TsFormatter::new().end_file(), "");
}

#[test]
fn imports_are_written_in_order_and_once() {
    let mut fmt = TsFormatter::new();
    fmt.add_import("V2", "b");
    fmt.add_import("V1", "b");
    fmt.add_import("V1", "a");
    fmt.add_import("V2", "b");
    fmt.add_import("V10", "a");
    fmt.add_method_line("x");
    assert_eq!(
        fmt.end_file(),
        "import { V1 } from './a'\nimport { V1 } from './b'\nimport { V10 } from './a'\nimport { V2 } from './b'\n\nx\n"
    );
}

#[test]
fn imports_are_ordered_by_name_before_file() {
    let mut fmt = TsFormatter::new();
    fmt.add_import("B", "a");
    fmt.add_import("A", "z");
    assert_eq!(fmt.end_file(), "import { A } from './z'\nimport { B } from './a'\n\n");
}

#[test]
fn an_interface_is_indented_by_its_blocks() {
    let mut fmt = TsFormatter::new();
    fmt.add_comment(&["first".to_string(), "second".to_string()]);
    fmt.start_interface("Person", "<T>");
    fmt.add_field("age", "number", false, &[]);
    fmt.add_field("name", "T", true, &["the name".to_string()]);
    fmt.add_method("get", vec![("id".to_string(), "number".to_string())], Some("T".to_string()));
    fmt.add_method(
        "set",
        vec![("id".to_string(), "number".to_string()), ("value".to_string(), "T".to_string())],
        None,
    );
    fmt.add_async_method("load", vec![], Some("T".to_string()));
    fmt.add_async_method("store", vec![], None);
    fmt.end_interface();
    assert_eq!(
        fmt.end_file(),
        "// first\n// second\nexport interface Person<T> {\n    age: number\n    // the name\n    name?: T\n    get(id: number): T;\n    set(id: number, value: T): void;\n    load(): Promise<T>;\n    store(): Promise<void>;\n}\n"
    );
}

#[test]
fn a_class_holds_fields_and_methods() {
    let mut fmt = TsFormatter::new();
    fmt.start_class("ABuilder");
    fmt.add_class_field("private _f1!: number");
    fmt.start_method("public f1(value: number)");
    fmt.add_method_line("this._f1 = value");
    fmt.add_method_line("return this");
    fmt.end_method();
    fmt.add_blank_line();
    fmt.end_class();
    assert_eq!(
        fmt.end_file(),
        "export class ABuilder {\n    private _f1!: number\n    public f1(value: number) {\n        this._f1 = value\n        return this\n    }\n\n}\n"
    );
}

#[test]
fn closing_without_an_open_block_stays_at_the_margin() {
    let mut fmt = TsFormatter::new();
    fmt.end_interface();
    fmt.end_method();
    fmt.end_class();
    fmt.add_method_line("x");
    assert_eq!(fmt.end_file(), "}\n}\n}\nx\n");
}

#[test]
fn the_variants_of_a_union_are_written_when_it_is_closed() {
    let mut fmt = TsFormatter::new();
    fmt.add_enum_variant_raw("'dropped'");
    fmt.start_enum("Gender");
    fmt.add_enum_variant_raw("'male'");
    fmt.add_enum_variant_raw("{ other: string }");
    fmt.end_enum();
    fmt.end_enum();
    fmt.add_enum_variant_raw("'late'");
    assert_eq!(fmt.end_file(), "export type Gender =\n    | 'male'\n    | { other: string }\n");
}

#[test]
fn a_union_that_is_opened_again_starts_anew() {
    let mut fmt = TsFormatter::new();
    fmt.start_enum("A");
    fmt.add_enum_variant_raw("'a'");
    fmt.start_enum("B");
    fmt.add_enum_variant_raw("'b'");
    fmt.end_enum();
    assert_eq!(fmt.end_file(), "export type A =\nexport type B =\n    | 'b'\n");
}

#[test]
fn a_union_inside_a_block_is_one_level_deeper() {
    let mut fmt = TsFormatter::new();
    fmt.start_class("C");
    fmt.start_enum("A");
    fmt.add_enum_variant_raw("'a'");
    fmt.end_enum();
    fmt.end_class();
    assert_eq!(fmt.end_file(), "export class C {\n    export type A =\n        | 'a'\n}\n");
}

#[test]
fn the_depth_follows_the_open_blocks() {
    let mut fmt = TsFormatter::default();
    assert_eq!(fmt.indent(), 0);
    fmt.start_class("C");
    fmt.start_method("m()");
    assert_eq!(fmt.indent(), 2);
    fmt.end_method();
    fmt.end_class();
    fmt.end_class();
    assert_eq!(fmt.indent(), 0);
    assert_eq!(fmt.end_file(), "export class C {\n    m() {\n    }\n}\n}\n");
}
