use gents::{
    gents_header, Body, Container, Declaration, DescriptorManager, FieldDecl, GentsWasmAttrs, Lit,
    MetaNameValue, Scalar, TypeRef, VariantDecl,
};

// The header `file_name = "..."`.
fn header(file_name: &str) -> GentsWasmAttrs {
    GentsWasmAttrs::parse(&vec![MetaNameValue {
        path: "file_name".to_string(),
        value: Lit::Str(file_name.to_string()),
    }])
    .unwrap()
}

fn field(ident: &str, ty: TypeRef) -> FieldDecl {
    FieldDecl {
        ident: ident.to_string(),
        rename: None,
        skip: false,
        tag_value: None,
        comments: vec![],
        ty,
    }
}

fn variant(ident: &str, payload: Vec<TypeRef>) -> VariantDecl {
    VariantDecl {
        ident: ident.to_string(),
        rename: None,
        skip: false,
        tag_value: None,
        comments: vec![],
        payload,
    }
}

fn declaration(id: u64, ident: &str, file_name: &str, body: Body) -> Declaration {
    Declaration {
        id,
        ident: ident.to_string(),
        file_name: Some(file_name.to_string()),
        rename_all: None,
        rename: None,
        tag: None,
        builder: false,
        comments: vec![],
        body,
    }
}

fn camel(mut item: Declaration) -> Declaration {
    item.rename_all = Some("camelCase".to_string());
    item
}

fn register(manager: &mut DescriptorManager, item: Declaration) -> usize {
    Container::from_ast(item).unwrap()._register(manager).unwrap()
}

fn number(s: Scalar) -> TypeRef {
    TypeRef::Scalar(s)
}

fn text() -> TypeRef {
    TypeRef::Scalar(Scalar::Text)
}

fn person() -> Declaration {
    camel(declaration(
        100,
        "Person",
        "person.ts",
        Body::Record(vec![field("age", number(Scalar::U16)), field("en_name", text())]),
    ))
}

fn group(person: usize) -> Declaration {
    camel(declaration(
        101,
        "Group",
        "group.ts",
        Body::Record(vec![
            field("name", text()),
            field("capacity", number(Scalar::U16)),
            field("members", TypeRef::Sequence(Box::new(TypeRef::Registered(person)))),
            field("leader", TypeRef::Nullable(Box::new(TypeRef::Registered(person)))),
        ]),
    ))
}

fn gender() -> Declaration {
    let mut unknown = variant("Unknown", vec![]);
    unknown.rename = Some("null".to_string());
    declaration(
        102,
        "Gender",
        "gender.ts",
        Body::Union(vec![variant("Male", vec![]), variant("Female", vec![]), unknown]),
    )
}

fn pet() -> Declaration {
    let mut none = variant("None", vec![]);
    none.rename = Some("None".to_string());
    camel(declaration(
        103,
        "Pet",
        "pet.ts",
        Body::Union(vec![variant("Cat", vec![text()]), variant("Dog", vec![text()]), none]),
    ))
}

fn test_skip() -> Declaration {
    let mut f2 = field("f2", number(Scalar::U32));
    f2.skip = true;
    camel(declaration(
        104,
        "TestSkip",
        "skip.ts",
        Body::Record(vec![field("f1", number(Scalar::U16)), f2, field("f3", number(Scalar::U64))]),
    ))
}

#[test]
fn test_gen_skip_test() {
    let mut manager = DescriptorManager::default();
    register(&mut manager, test_skip());
    let (_, content) = manager.gen_data().into_iter().next().unwrap();
    assert_eq!(
        content.trim(),
        r#"export interface TestSkip {
    f1: number
    f3: number
}"#
    )
}

#[test]
fn test_gen_data_person_test() {
    let mut manager = DescriptorManager::default();
    register(&mut manager, person());
    let (file_name, content) = manager.gen_data().into_iter().next().unwrap();
    assert_eq!(file_name, "person.ts");
    assert_eq!(
        content.trim(),
        r#"export interface Person {
    age: number
    enName: string
}"#
    )
}

#[test]
fn test_gen_data_group_test() {
    let mut manager = DescriptorManager::default();
    let person = register(&mut manager, person());
    register(&mut manager, group(person));
    let (file_name, content) = manager.gen_data().into_iter().last().unwrap();
    assert_eq!(file_name, "group.ts");
    assert_eq!(
        content.trim(),
        r#"
import { Person } from './person'

export interface Group {
    name: string
    capacity: number
    members: readonly Person[]
    leader?: Person
}
"#
        .trim()
    );
}

#[test]
fn test_gen_data_gender_test() {
    let mut manager = DescriptorManager::default();
    register(&mut manager, gender());
    let (file_name, content) = manager.gen_data().into_iter().next().unwrap();
    assert_eq!(file_name, "gender.ts");
    assert_eq!(
        content.trim(),
        r#"export type Gender =
    | 'Male'
    | 'Female'
    | 'null'"#
    );
}

#[test]
fn test_gen_data_pet_test() {
    let mut manager = DescriptorManager::default();
    register(&mut manager, pet());
    let (file_name, content) = manager.gen_data().into_iter().next().unwrap();
    assert_eq!(file_name, "pet.ts");
    assert_eq!(
        content.trim(),
        r#"export type Pet =
    | { cat: string }
    | { dog: string }
    | 'None'"#
    );
}

#[test]
fn test_gen_with_comments_test() {
    let mut f = field("field_with_comment", number(Scalar::U32));
    f.comments = vec!["field comment1".to_string(), "field comment2".to_string()];
    let mut item = camel(declaration(
        105,
        "StructWithComments",
        "struct_with_comments.ts",
        Body::Record(vec![f]),
    ));
    item.comments = vec![
        "This is a doc comment.".to_string(),
        "Another Comment".to_string(),
        "Block Comment".to_string(),
    ];

    let mut manager = DescriptorManager::default();
    register(&mut manager, item);
    let (file_name, content) = manager.gen_data().into_iter().next().unwrap();
    assert_eq!(file_name, "struct_with_comments.ts");
    assert_eq!(
        content.trim(),
        r#"// This is a doc comment.
// Another Comment
// Block Comment
export interface StructWithComments {
    // field comment1
    // field comment2
    fieldWithComment: number
}"#
    );
}

#[test]
fn test_test_uint8array() {
    let item = camel(declaration(
        106,
        "File",
        "file.ts",
        Body::Record(vec![field("data", TypeRef::Sequence(Box::new(number(Scalar::U8))))]),
    ));

    let mut manager = DescriptorManager::default();
    register(&mut manager, item);
    let (file_name, content) = manager.gen_data().into_iter().next().unwrap();
    assert_eq!(file_name, "file.ts");
    assert_eq!(
        content.trim(),
        r#"export interface File {
    data: Uint8Array
}"#
        .trim()
    );
}

// A record without tags has no empty line in front of `build`.
#[test]
fn test_test_builder() {
    let mut item = camel(declaration(
        107,
        "A",
        "a.ts",
        Body::Record(vec![field("f1", number(Scalar::U8))]),
    ));
    item.builder = true;

    let mut manager = DescriptorManager::default();
    register(&mut manager, item);
    let (file_name, content) = manager.gen_data().into_iter().next().unwrap();
    assert_eq!(file_name, "a.ts");
    assert_eq!(
        content.trim(),
        r#"
export interface A {
    f1: number
}

export class ABuilder {
    private _f1!: number
    public f1(value: number) {
        this._f1 = value
        return this
    }
    public build() {
        if (this._f1 === undefined) throw new Error('missing f1')
        return { f1: this._f1 }
    }
}
"#
        .trim(),
    );
}

#[test]
fn test_test_enum_tag_and_builder() {
    let mut payload = camel(declaration(
        108,
        "Variant",
        "a.ts",
        Body::Record(vec![field("f1", number(Scalar::U8)), field("f2", text())]),
    ));
    payload.builder = true;

    let mut manager = DescriptorManager::default();
    let payload = register(&mut manager, payload);
    let mut tagged = camel(declaration(
        109,
        "TaggedEnum",
        "a.ts",
        Body::Union(vec![variant("Variant", vec![TypeRef::Registered(payload)])]),
    ));
    tagged.tag = Some("type".to_string());
    register(&mut manager, tagged);
    let (file_name, content) = manager.gen_data().into_iter().next().unwrap();
    assert_eq!(file_name, "a.ts");
    assert_eq!(
        content.trim(),
        r#"
export interface Variant {
    type: 'variant'
    f1: number
    f2: string
}

export class VariantBuilder {
    private _type = 'variant'
    private _f1!: number
    private _f2!: string
    public f1(value: number) {
        this._f1 = value
        return this
    }

    public f2(value: string) {
        this._f2 = value
        return this
    }

    public build() {
        if (this._f1 === undefined) throw new Error('missing f1')
        if (this._f2 === undefined) throw new Error('missing f2')
        return { type: this._type, f1: this._f1, f2: this._f2 }
    }
}"#
        .trim()
    );
}

// The variants of a tagged union that carry a payload are written as
// objects with the tag and the payload.
#[test]
fn test_test_enum_tag_and_builder_2() {
    let mut v1 = camel(declaration(
        110,
        "V1",
        "a.ts",
        Body::Record(vec![field("f1", number(Scalar::U8)), field("f2", text())]),
    ));
    v1.builder = true;
    let mut v2 = camel(declaration(
        111,
        "V2",
        "b.ts",
        Body::Record(vec![field("f3", number(Scalar::U8))]),
    ));
    v2.builder = true;

    let mut manager = DescriptorManager::default();
    let v1 = register(&mut manager, v1);
    let v2 = register(&mut manager, v2);
    let mut first = variant("V1", vec![TypeRef::Registered(v1)]);
    first.tag_value = Some("tag1".to_string());
    let mut second = variant("V2", vec![TypeRef::Registered(v2)]);
    second.tag_value = Some("tag2".to_string());
    let mut third = variant("V3", vec![TypeRef::Registered(v1)]);
    third.tag_value = Some("tag3".to_string());
    let mut tagged = camel(declaration(
        112,
        "TaggedEnum",
        "c.ts",
        Body::Union(vec![first, second, third]),
    ));
    tagged.tag = Some("type".to_string());
    register(&mut manager, tagged);
    manager.gen_data().into_iter().for_each(|(f, c)| {
        if f == "a.ts" {
            assert_eq!(
                c.trim(),
                r#"
export interface V1 {
    type: 'tag1' | 'tag3'
    f1: number
    f2: string
}

export class V1Builder {
    private _type!: 'tag1' | 'tag3'
    private _f1!: number
    private _f2!: string
    public f1(value: number) {
        this._f1 = value
        return this
    }

    public f2(value: string) {
        this._f2 = value
        return this
    }
    public type(v: 'tag1' | 'tag3') {
        this._type = v
        return this
    }
    public build() {
        if (this._f1 === undefined) throw new Error('missing f1')
        if (this._f2 === undefined) throw new Error('missing f2')
        return { type: this._type, f1: this._f1, f2: this._f2 }
    }
}"#
                .trim()
            );
        }
        if f == "b.ts" {
            assert_eq!(
                c.trim(),
                r#"
export interface V2 {
    type: 'tag2'
    f3: number
}

export class V2Builder {
    private _type = 'tag2'
    private _f3!: number
    public f3(value: number) {
        this._f3 = value
        return this
    }

    public build() {
        if (this._f3 === undefined) throw new Error('missing f3')
        return { type: this._type, f3: this._f3 }
    }
}"#
                .trim()
            );
        }
        if f == "c.ts" {
            assert_eq!(
                c.trim(),
                r#"
import { V1 } from './a'
import { V2 } from './b'

export type TaggedEnum =
    | { type: 'tag1'; value: V1 }
    | { type: 'tag2'; value: V2 }
    | { type: 'tag3'; value: V1 }"#
                    .trim()
            );
        }
    });
}

#[test]
fn test_test_multiple_tags() {
    let mut v1 = camel(declaration(
        113,
        "V1",
        "a.ts",
        Body::Record(vec![field("f1", number(Scalar::U8)), field("f2", text())]),
    ));
    v1.builder = true;
    let mut v2 = camel(declaration(
        114,
        "V2",
        "b.ts",
        Body::Record(vec![field("f3", number(Scalar::U8))]),
    ));
    v2.builder = true;

    let mut manager = DescriptorManager::default();
    let v1 = register(&mut manager, v1);
    let v2 = register(&mut manager, v2);
    let variants = |v1: usize, v2: usize| {
        vec![
            variant("V1", vec![TypeRef::Registered(v1)]),
            variant("V2", vec![TypeRef::Registered(v2)]),
            variant("V3", vec![TypeRef::Registered(v1)]),
        ]
    };
    let mut a = declaration(115, "A", "a.ts", Body::Union(variants(v1, v2)));
    a.tag = Some("type".to_string());
    let mut b = declaration(116, "B", "b.ts", Body::Union(variants(v1, v2)));
    b.tag = Some("type2".to_string());
    register(&mut manager, a);
    register(&mut manager, b);
    let data = manager.gen_data();
    assert_eq!(data.len(), 4);
}

#[test]
fn test_result() {
    let attrs = header("test_struct.ts");
    let mut item = declaration(
        117,
        "TestStruct",
        "",
        Body::Record(vec![
            field("f1", number(Scalar::U8)),
            field(
                "f2",
                TypeRef::Either(Box::new(text()), Box::new(number(Scalar::U16))),
            ),
        ]),
    );
    item.file_name = None;
    let item = gents_header(&attrs, item);
    let mut manager = DescriptorManager::default();
    register(&mut manager, item);
    let (_, content) = manager.gen_data().into_iter().next().unwrap();
    assert_eq!(
        content.trim(),
        r#"export interface TestStruct {
    f1: number
    f2: string | number
}"#
    );
}

#[test]
fn test_gents_for_wasm() {
    let attrs = header("test_struct.ts");
    let mut item = declaration(
        118,
        "TestStruct",
        "",
        Body::Record(vec![field("f1", number(Scalar::U8)), field("f2", text())]),
    );
    item.file_name = None;
    let _ = gents_header(&attrs, item);
}
