use gents::imports::{get_import_deps, get_import_deps_idx, is_leaves_first};
use gents::{
    gents_header, ts_interface, ApiDescriptor, Attribute, Body, BuiltinTypeDescriptor, Container,
    Declaration, Descriptor, DescriptorManager, EnumDescriptor, FieldDecl, FieldDescriptor,
    FileGroup, GenericDescriptor, GentsWasmAttrs, ImplDecl, InterfaceDescriptor, Lit,
    MetaNameValue, MethodDecl, MethodDescriptor, RenameAll, Scalar, SchemaError, TsInterfaceArgs,
    TypeKey, TypeRef, VariantDecl,
};

fn field(ident: &str, ty: TypeRef) -> FieldDecl {
    FieldDecl {
        ident: ident.to_string(),
        rename: None,
        skip: false,
        tag_value: None,
        comments: vec![],
        ty,
    }
}

fn variant(ident: &str, payload: Vec<TypeRef>) -> VariantDecl {
    VariantDecl {
        ident: ident.to_string(),
        rename: None,
        skip: false,
        tag_value: None,
        comments: vec![],
        payload,
    }
}

fn declaration(id: u64, ident: &str, file_name: &str, body: Body) -> Declaration {
    Declaration {
        id,
        ident: ident.to_string(),
        file_name: Some(file_name.to_string()),
        rename_all: Some("camelCase".to_string()),
        rename: None,
        tag: None,
        builder: false,
        comments: vec![],
        body,
    }
}

fn register(manager: &mut DescriptorManager, item: Declaration) -> usize {
    Container::from_ast(item).unwrap()._register(manager).unwrap()
}

fn number() -> TypeRef {
    TypeRef::Scalar(Scalar::U32)
}

fn text() -> TypeRef {
    TypeRef::Scalar(Scalar::Text)
}

fn boxed(t: TypeRef) -> Box<TypeRef> {
    Box::new(t)
}

fn person() -> Declaration {
    declaration(
        100,
        "Person",
        "person.ts",
        Body::Record(vec![field("age", number()), field("en_name", text())]),
    )
}

fn record(id: u64, ident: &str, file_name: &str) -> Declaration {
    declaration(id, ident, file_name, Body::Record(vec![field("id", number())]))
}

fn builtin(name: &str) -> Descriptor {
    Descriptor::BuiltinType(BuiltinTypeDescriptor { ts_name: name.to_string() })
}

fn interface(name: &str, file_name: &str, dependencies: Vec<usize>) -> Descriptor {
    Descriptor::Interface(InterfaceDescriptor {
        dependencies,
        fields: vec![],
        file_name: file_name.to_string(),
        ts_name: name.to_string(),
        comments: vec![],
        need_builder: false,
        generic: None,
    })
}

fn file<'a>(data: &'a [(String, String)], name: &str) -> &'a str {
    data.iter().find(|(f, _)| f == name).map(|(_, c)| c.as_str()).unwrap()
}

#[test]
fn registering_an_identity_again_gives_the_same_index() {
    let mut manager = DescriptorManager::new();
    let first = manager.registry(TypeKey::Named(7), builtin("number")).unwrap();
    let len = manager.len();
    let second = manager.registry(TypeKey::Named(7), builtin("string")).unwrap();
    assert_eq!(first, second);
    assert_eq!(manager.len(), len);
    assert_eq!(manager.descriptors()[first].ts_name(), "number");
    assert_eq!(manager.index_of(TypeKey::Named(7)), Some(first));
    assert_eq!(manager.index_of(TypeKey::Named(8)), None);
}

#[test]
fn registering_a_type_again_adds_no_descriptor() {
    let mut manager = DescriptorManager::new();
    let first = register(&mut manager, person());
    let len = manager.len();
    let second = register(&mut manager, person());
    assert_eq!(first, second);
    assert_eq!(manager.len(), len);
    assert_eq!(manager.gen_data().len(), 1);
}

#[test]
fn indices_are_given_in_the_order_of_registration() {
    let mut manager = DescriptorManager::new();
    assert_eq!(manager.len(), 0);
    assert_eq!(manager.registry(TypeKey::Named(50), builtin("a")), Ok(0));
    assert_eq!(manager.registry(TypeKey::Named(51), interface("B", "b.ts", vec![0])), Ok(1));
    assert_eq!(manager.registry(TypeKey::Named(52), interface("C", "c.ts", vec![1, 0])), Ok(2));
    assert_eq!(manager.len(), 3);
}

#[test]
fn a_descriptor_that_names_what_is_not_registered_is_refused() {
    let mut manager = DescriptorManager::new();
    assert_eq!(
        manager.registry(TypeKey::Named(50), interface("A", "a.ts", vec![0])),
        Err(SchemaError::UnregisteredType)
    );
    assert_eq!(manager.len(), 0);
    assert_eq!(manager.index_of(TypeKey::Named(50)), None);
    manager.registry(TypeKey::Named(51), builtin("number")).unwrap();
    assert_eq!(
        manager.registry(TypeKey::Named(52), interface("A", "a.ts", vec![0, 1])),
        Err(SchemaError::UnregisteredType)
    );
    assert_eq!(
        manager.registry(
            TypeKey::Named(53),
            Descriptor::Generics(GenericDescriptor {
                dependencies: vec![7],
                ts_name: "readonly A[]".to_string(),
                optional: false,
            })
        ),
        Err(SchemaError::UnregisteredType)
    );
    assert_eq!(
        manager.registry(
            TypeKey::Named(54),
            Descriptor::Enum(EnumDescriptor {
                dependencies: vec![1],
                fields: vec![],
                file_name: "e.ts".to_string(),
                ts_name: "E".to_string(),
                comments: vec![],
                tag: String::new(),
                generic: None,
            })
        ),
        Err(SchemaError::UnregisteredType)
    );
    assert_eq!(manager.len(), 1);
    assert_eq!(manager.registry(TypeKey::Named(52), interface("A", "a.ts", vec![0])), Ok(1));
}

#[test]
fn a_scalar_type_is_registered_once() {
    let mut manager = DescriptorManager::new();
    let a = manager.register_scalar(Scalar::U8);
    let b = manager.register_scalar(Scalar::U16);
    let c = manager.register_scalar(Scalar::U8);
    assert_eq!((a, b, c), (0, 1, 0));
    assert_eq!(manager.descriptors()[a].ts_name(), "number");
    assert_eq!(manager.index_of(TypeKey::Scalar(Scalar::U8)), Some(0));
    assert_eq!(manager.index_of(TypeKey::Named(1)), None);
}

#[test]
fn scalar_types_have_names_marks_and_identities() {
    let all = [
        (Scalar::Str, "string", "string"),
        (Scalar::U8, "number", "u8"),
        (Scalar::U16, "number", "u16"),
        (Scalar::U32, "number", "u32"),
        (Scalar::U64, "number", "u64"),
        (Scalar::Usize, "number", "usize"),
        (Scalar::I8, "number", "i8"),
        (Scalar::I32, "number", "i32"),
        (Scalar::I64, "number", "i64"),
        (Scalar::F32, "number", "f32"),
        (Scalar::F64, "number", "f64"),
        (Scalar::Text, "string", "string"),
        (Scalar::Bool, "boolean", "bool"),
    ];
    for (i, (scalar, name, tag)) in all.iter().enumerate() {
        assert_eq!(scalar._ts_name(), *name);
        assert_eq!(scalar._tag(), *tag);
        assert_eq!(scalar.key(), i as u64);
        assert_eq!(TypeKey::Scalar(*scalar).code(), i as u128);
        assert_eq!(TypeRef::Scalar(*scalar)._tag(), Some(*tag));
    }
    assert_eq!(TypeKey::Named(0).code(), 1u128 << 64);
    assert_eq!(TypeKey::Named(u64::MAX).code(), (1u128 << 64) + u64::MAX as u128);
    assert_eq!(TypeRef::Registered(0)._tag(), None);
    assert_eq!(TypeRef::Sequence(boxed(number()))._tag(), None);
}

#[test]
fn containers_are_named_after_their_arguments() {
    let mut manager = DescriptorManager::new();
    let p = register(&mut manager, person());
    let all = manager.descriptors();
    let person = || TypeRef::Registered(p);
    assert_eq!(person()._ts_name(all), "Person");
    assert_eq!(TypeRef::Sequence(boxed(person()))._ts_name(all), "readonly Person[]");
    assert_eq!(TypeRef::Sequence(boxed(TypeRef::Scalar(Scalar::U8)))._ts_name(all), "Uint8Array");
    assert_eq!(TypeRef::Sequence(boxed(TypeRef::Scalar(Scalar::U16)))._ts_name(all), "readonly number[]");
    assert_eq!(TypeRef::Nullable(boxed(person()))._ts_name(all), "Person");
    assert_eq!(TypeRef::Either(boxed(text()), boxed(number()))._ts_name(all), "string | number");
    assert_eq!(
        TypeRef::Pair(boxed(text()), boxed(person()))._ts_name(all),
        "(readonly [string, Person])"
    );
    assert_eq!(
        TypeRef::Mapping(boxed(text()), boxed(TypeRef::Sequence(boxed(person()))))._ts_name(all),
        "Map<string, readonly Person[]>"
    );
    assert_eq!(
        TypeRef::Sequence(boxed(TypeRef::Nullable(boxed(TypeRef::Scalar(Scalar::U8)))))
            ._ts_name(all),
        "readonly number[]"
    );
    assert!(TypeRef::Nullable(boxed(person()))._is_optional(all));
    assert!(!person()._is_optional(all));
    assert!(!TypeRef::Sequence(boxed(TypeRef::Nullable(boxed(person()))))._is_optional(all));
}

#[test]
fn a_container_is_registered_after_its_arguments() {
    let mut manager = DescriptorManager::new();
    let t = TypeRef::Mapping(boxed(text()), boxed(TypeRef::Sequence(boxed(number()))));
    assert!(t.is_resolved(0));
    let idx = t._register(&mut manager).unwrap();
    assert_eq!(idx, 3);
    assert_eq!(manager.len(), 4);
    let names: Vec<&str> = manager.descriptors().iter().map(|d| d.ts_name()).collect();
    assert_eq!(names, vec!["string", "number", "readonly number[]", "Map<string, readonly number[]>"]);
    match &manager.descriptors()[3] {
        Descriptor::Generics(g) => {
            assert_eq!(g.dependencies, vec![0, 2]);
            assert!(!g.optional);
        }
        _ => panic!(),
    }
    let idx = TypeRef::Nullable(boxed(text()))._register(&mut manager).unwrap();
    match &manager.descriptors()[idx] {
        Descriptor::Generics(g) => {
            assert_eq!(g.dependencies, vec![0]);
            assert_eq!(g.ts_name, "string");
            assert!(g.optional);
        }
        _ => panic!(),
    }
    assert!(manager.descriptors()[idx].is_optional());
    assert!(TypeRef::Registered(idx)._is_optional(manager.descriptors()));
}

#[test]
fn a_reference_to_what_is_not_registered_is_refused() {
    let mut manager = DescriptorManager::new();
    let t = TypeRef::Either(boxed(text()), boxed(TypeRef::Registered(0)));
    assert!(!t.is_resolved(0));
    assert!(t.is_resolved(1));
    assert_eq!(t._register(&mut manager), Err(SchemaError::UnregisteredType));
    assert_eq!(manager.len(), 0);

    let item = declaration(
        1000,
        "A",
        "a.ts",
        Body::Record(vec![field("ok", number()), field("bad", TypeRef::Registered(5))]),
    );
    let container = Container::from_ast(item).unwrap();
    assert_eq!(container._register(&mut manager), Err(SchemaError::UnregisteredType));
    assert_eq!(manager.len(), 0);
}

#[test]
fn the_type_of_a_skipped_member_is_not_looked_at() {
    let mut manager = DescriptorManager::new();
    let mut bad = field("bad", TypeRef::Registered(5));
    bad.skip = true;
    let item = declaration(1000, "A", "a.ts", Body::Record(vec![bad, field("ok", number())]));
    assert_eq!(register(&mut manager, item), 1);
    assert_eq!(manager.gen_data()[0].1, "export interface A {\n    ok: number\n}\n");
}

#[test]
fn an_unknown_rename_policy_is_refused() {
    let mut item = person();
    item.rename_all = Some("snake_case".to_string());
    assert_eq!(Container::from_ast(item).unwrap_err(), SchemaError::UnknownRenamePolicy);
    assert_eq!(RenameAll::parse("camelCase"), Some(RenameAll::CamelCase));
    assert_eq!(RenameAll::parse("CamelCase"), None);
    assert_eq!(RenameAll::parse(""), None);
}

#[test]
fn a_tag_on_a_record_is_refused() {
    let mut item = person();
    item.tag = Some("type".to_string());
    assert_eq!(Container::from_ast(item).unwrap_err(), SchemaError::TagOnRecord);
}

#[test]
fn a_builder_on_a_union_is_refused() {
    let mut item = declaration(1, "U", "u.ts", Body::Union(vec![variant("A", vec![])]));
    item.builder = true;
    assert_eq!(Container::from_ast(item).unwrap_err(), SchemaError::BuilderOnUnion);
}

#[test]
fn a_declaration_without_a_file_is_refused() {
    let mut item = person();
    item.file_name = None;
    assert_eq!(Container::from_ast(item).unwrap_err(), SchemaError::MissingFileName);
    let mut item = declaration(1, "U", "u.ts", Body::Union(vec![variant("A", vec![])]));
    item.file_name = None;
    assert_eq!(Container::from_ast(item).unwrap_err(), SchemaError::MissingFileName);
}

#[test]
fn a_variant_with_two_payloads_is_refused() {
    let item = declaration(
        1,
        "U",
        "u.ts",
        Body::Union(vec![variant("A", vec![number()]), variant("B", vec![number(), text()])]),
    );
    assert_eq!(Container::from_ast(item).unwrap_err(), SchemaError::TooManyPayloads);
}

#[test]
fn the_first_fault_of_a_declaration_is_reported() {
    let mut item = person();
    item.rename_all = Some("kebab".to_string());
    item.tag = Some("type".to_string());
    item.file_name = None;
    assert_eq!(Container::from_ast(item).unwrap_err(), SchemaError::UnknownRenamePolicy);

    let mut item = person();
    item.tag = Some("type".to_string());
    item.file_name = None;
    assert_eq!(Container::from_ast(item).unwrap_err(), SchemaError::TagOnRecord);

    let mut item = declaration(
        1,
        "U",
        "u.ts",
        Body::Union(vec![variant("B", vec![number(), text()])]),
    );
    item.builder = true;
    item.file_name = None;
    assert_eq!(Container::from_ast(item).unwrap_err(), SchemaError::BuilderOnUnion);

    let mut item = declaration(
        1,
        "U",
        "u.ts",
        Body::Union(vec![variant("B", vec![number(), text()])]),
    );
    item.file_name = None;
    assert_eq!(Container::from_ast(item).unwrap_err(), SchemaError::TooManyPayloads);
}

#[test]
fn a_declaration_in_order_gives_its_schema() {
    let mut item = declaration(
        9,
        "U",
        "u.ts",
        Body::Union(vec![variant("A", vec![]), variant("B", vec![text()])]),
    );
    item.tag = Some("kind".to_string());
    item.rename = Some("Renamed".to_string());
    item.comments = vec!["c".to_string()];
    let c = Container::from_ast(item).unwrap();
    assert_eq!(c.id, 9);
    assert_eq!(c.file_name, "u.ts");
    assert!(c.is_enum);
    assert_eq!(c.rename_all, Some(RenameAll::CamelCase));
    assert_eq!(c.rename.as_deref(), Some("Renamed"));
    assert_eq!(c.ident, "U");
    assert_eq!(c.comments, vec!["c".to_string()]);
    assert!(!c.need_builder);
    assert_eq!(c.tag.as_deref(), Some("kind"));
    assert_eq!(c.fields.len(), 2);
    assert!(c.fields[0].ty.is_none());
    assert!(matches!(c.fields[1].ty, Some(TypeRef::Scalar(Scalar::Text))));
    assert_eq!(c._ts_name(), "Renamed");
    assert_eq!(c.fields[0].ts_ident(c.rename_all, true), "a");
    assert_eq!(c.fields[0].ts_ident(None, true), "A");
    assert_eq!(c.fields[0].tag_literal(c.rename_all, true), "a");

    let mut item = person();
    item.rename = Some("Renamed".to_string());
    let c = Container::from_ast(item).unwrap();
    assert!(!c.is_enum);
    assert_eq!(c._ts_name(), "Person");
    assert_eq!(c.fields[1].ts_ident(c.rename_all, false), "enName");
    assert_eq!(c.fields[1].ts_ident(None, false), "en_name");
}

#[test]
fn a_member_that_is_renamed_keeps_the_given_name() {
    let mut f = field("en_name", text());
    f.rename = Some("Name_Given".to_string());
    let mut manager = DescriptorManager::new();
    register(&mut manager, declaration(1, "P", "p.ts", Body::Record(vec![f])));
    assert_eq!(manager.gen_data()[0].1, "export interface P {\n    Name_Given: string\n}\n");
}

#[test]
fn a_union_of_two_unit_variants() {
    let mut manager = DescriptorManager::new();
    let item = declaration(
        1,
        "X",
        "x.ts",
        Body::Union(vec![variant("Center", vec![]), variant("Top", vec![])]),
    );
    register(&mut manager, item);
    let data = manager.gen_data();
    assert_eq!(data, vec![("x.ts".to_string(), "export type X =\n    | 'center'\n    | 'top'\n".to_string())]);
}

#[test]
fn the_variants_of_a_union_keep_their_order() {
    let mut manager = DescriptorManager::new();
    let mut renamed = variant("Zed", vec![]);
    renamed.tag_value = Some("explicit".to_string());
    let mut item = declaration(
        1,
        "X",
        "x.ts",
        Body::Union(vec![
            renamed,
            variant("Beta", vec![number()]),
            variant("Alpha", vec![]),
        ]),
    );
    item.rename_all = None;
    item.rename = Some("Renamed".to_string());
    register(&mut manager, item);
    assert_eq!(
        manager.gen_data()[0].1,
        "export type Renamed =\n    | 'explicit'\n    | { Beta: number }\n    | 'Alpha'\n"
    );
}

#[test]
fn a_nullable_field_is_optional() {
    let mut manager = DescriptorManager::new();
    let mut item = declaration(
        1,
        "X",
        "x.ts",
        Body::Record(vec![
            field("field", TypeRef::Nullable(boxed(number()))),
            field("other", number()),
        ]),
    );
    item.builder = true;
    register(&mut manager, item);
    assert_eq!(
        manager.gen_data()[0].1,
        "export interface X {
    field?: number
    other: number
}

export class XBuilder {
    private _field?: number
    private _other!: number
    public field(value: number) {
        this._field = value
        return this
    }

    public other(value: number) {
        this._other = value
        return this
    }
    public build() {
        if (this._other === undefined) throw new Error('missing other')
        return { field: this._field, other: this._other }
    }
}
"
    );
}

#[test]
fn a_builder_for_one_field() {
    let mut manager = DescriptorManager::new();
    let mut item = declaration(1, "X", "x.ts", Body::Record(vec![field("f1", number())]));
    item.builder = true;
    register(&mut manager, item);
    let text = &manager.gen_data()[0].1;
    assert!(text.contains("export class XBuilder {\n"));
    assert!(text.contains("\n    private _f1!: number\n"));
    assert!(text.contains("\n    public f1(value: number) {\n        this._f1 = value\n        return this\n    }\n"));
    assert!(text.contains("\n    public build() {\n        if (this._f1 === undefined) throw new Error('missing f1')\n"));
}

#[test]
fn a_builder_without_fields() {
    let mut manager = DescriptorManager::new();
    let mut item = declaration(1, "X", "x.ts", Body::Record(vec![]));
    item.builder = true;
    register(&mut manager, item);
    assert_eq!(
        manager.gen_data()[0].1,
        "export interface X {\n}\n\nexport class XBuilder {\n    public build() {\n        return {  }\n    }\n}\n"
    );
}

#[test]
fn imports_are_what_is_reached_through_containers() {
    let mut manager = DescriptorManager::new();
    let a = register(&mut manager, record(1, "Alpha", "alpha.ts"));
    let b = register(&mut manager, record(2, "Beta", "dir/beta.ts"));
    let c = register(&mut manager, record(3, "Gamma", "gamma.ts"));
    let _unused = register(&mut manager, record(4, "Delta", "delta.ts"));
    let holder = register(
        &mut manager,
        declaration(
            5,
            "Holder",
            "holder.ts",
            Body::Record(vec![
                field(
                    "deep",
                    TypeRef::Sequence(boxed(TypeRef::Nullable(boxed(TypeRef::Mapping(
                        boxed(text()),
                        boxed(TypeRef::Registered(c)),
                    ))))),
                ),
                field("pair", TypeRef::Pair(boxed(TypeRef::Registered(b)), boxed(number()))),
                field("again", TypeRef::Registered(c)),
            ]),
        ),
    );
    let top = register(
        &mut manager,
        declaration(
            6,
            "Top",
            "top.ts",
            Body::Record(vec![
                field("holder", TypeRef::Registered(holder)),
                field("alpha", TypeRef::Either(boxed(TypeRef::Registered(a)), boxed(text()))),
            ]),
        ),
    );
    assert_eq!(top, manager.len() - 1);
    let data = manager.gen_data();
    assert_eq!(
        file(&data, "holder.ts"),
        "import { Beta } from './dir/beta'
import { Gamma } from './gamma'

export interface Holder {
    deep: readonly Map<string, Gamma>[]
    pair: (readonly [Beta, number])
    again: Gamma
}
"
    );
    assert_eq!(
        file(&data, "top.ts"),
        "import { Alpha } from './alpha'
import { Holder } from './holder'

export interface Top {
    holder: Holder
    alpha: Alpha | string
}
"
    );
    assert_eq!(file(&data, "alpha.ts"), "export interface Alpha {\n    id: number\n}\n");
}

#[test]
fn tags_are_collected_from_every_union() {
    let mut manager = DescriptorManager::new();
    let mut payload = record(1, "Payload", "payload.ts");
    payload.builder = true;
    let p = register(&mut manager, payload);
    let other = register(&mut manager, record(2, "Other", "other.ts"));
    let mut first = declaration(
        3,
        "First",
        "first.ts",
        Body::Union(vec![
            variant("One", vec![TypeRef::Registered(p)]),
            variant("Unit", vec![]),
            variant("Two", vec![TypeRef::Registered(p)]),
            variant("Wrapped", vec![TypeRef::Sequence(boxed(TypeRef::Registered(p)))]),
        ]),
    );
    first.tag = Some("kind".to_string());
    let mut second = declaration(
        4,
        "Second",
        "second.ts",
        Body::Union(vec![
            variant("One", vec![TypeRef::Registered(p)]),
            variant("Only", vec![TypeRef::Registered(other)]),
        ]),
    );
    second.tag = Some("kind".to_string());
    let mut third = declaration(
        5,
        "Third",
        "third.ts",
        Body::Union(vec![variant("Same", vec![TypeRef::Registered(p)]), variant("Same", vec![TypeRef::Registered(p)])]),
    );
    third.tag = Some("sort".to_string());
    let untagged = declaration(
        6,
        "Untagged",
        "untagged.ts",
        Body::Union(vec![variant("Loose", vec![TypeRef::Registered(other)])]),
    );
    register(&mut manager, first);
    register(&mut manager, second);
    register(&mut manager, third);
    register(&mut manager, untagged);
    let data = manager.gen_data();
    assert_eq!(
        file(&data, "payload.ts"),
        "export interface Payload {
    kind: 'one' | 'two'
    sort: 'same'
    id: number
}

export class PayloadBuilder {
    private _kind!: 'one' | 'two'
    private _sort = 'same'
    private _id!: number
    public id(value: number) {
        this._id = value
        return this
    }
    public kind(v: 'one' | 'two') {
        this._kind = v
        return this
    }
    public build() {
        if (this._id === undefined) throw new Error('missing id')
        return { kind: this._kind, sort: this._sort, id: this._id }
    }
}
"
    );
    assert_eq!(
        file(&data, "other.ts"),
        "export interface Other {\n    kind: 'only'\n    id: number\n}\n"
    );
    assert_eq!(
        file(&data, "first.ts"),
        "import { Payload } from './payload'

export type First =
    | { kind: 'one'; value: Payload }
    | 'unit'
    | { kind: 'two'; value: Payload }
    | { kind: 'wrapped'; value: readonly Payload[] }
"
    );
    assert_eq!(
        file(&data, "untagged.ts"),
        "import { Other } from './other'\n\nexport type Untagged =\n    | { loose: Other }\n"
    );
}

#[test]
fn literals_are_noted_in_the_order_in_which_they_come() {
    let mut manager = DescriptorManager::new();
    let p = manager.registry(TypeKey::Named(1), interface("P", "p.ts", vec![])).unwrap();
    manager.add_tag(p, "t", "b");
    manager.add_tag(p, "u", "x");
    manager.add_tag(p, "t", "a");
    manager.add_tag(p, "t", "b");
    manager.add_tag(p + 1, "t", "elsewhere");
    assert_eq!(
        manager.gen_data()[0].1,
        "export interface P {\n    t: 'b' | 'a'\n    u: 'x'\n}\n"
    );
}

#[test]
fn the_generics_of_a_type_stand_behind_its_name() {
    let mut manager = DescriptorManager::new();
    let base = manager.registry(TypeKey::Named(1), interface("Box", "box.ts", vec![])).unwrap();
    manager.add_generics_map(base, "T, U".to_string());
    let mut instance = interface("Box", "box.ts", vec![base]);
    if let Descriptor::Interface(d) = &mut instance {
        d.generic = Some(base);
    }
    manager.registry(TypeKey::Named(2), instance).unwrap();
    assert_eq!(
        manager.gen_data(),
        vec![("box.ts".to_string(), "export interface Box<T, U> {\n}\n".to_string())]
    );
}

#[test]
fn types_that_share_a_file_are_given_one_after_the_other() {
    let mut manager = DescriptorManager::new();
    register(&mut manager, record(1, "A", "same.ts"));
    register(&mut manager, record(2, "B", "same.ts"));
    let names: Vec<String> = manager.gen_data().into_iter().map(|(f, c)| f + ":" + &c[..18]).collect();
    assert_eq!(names, vec!["same.ts:export interface A", "same.ts:export interface B"]);
}

#[test]
fn a_group_writes_its_files_under_the_banner() {
    let mut group = FileGroup::new();
    let p = group.add(&Container::from_ast(person()).unwrap()).unwrap();
    assert_eq!(group.add(&Container::from_ast(person()).unwrap()), Ok(p));
    let data = group.gen_data(false);
    assert_eq!(
        data,
        vec![(
            "person.ts".to_string(),
            "// DO NOT EDIT. CODE GENERATED BY gents.\nexport interface Person {\n    age: number\n    enName: string\n}\n"
                .to_string()
        )]
    );
}

#[test]
fn the_index_file_exports_every_module_once_and_in_order() {
    let mut group = FileGroup::new();
    for (id, name, file_name) in
        [(1, "Z", "zeta.ts"), (2, "A", "alpha.ts"), (3, "B", "alpha.ts"), (4, "M", "dir/mid.ts")]
    {
        group.add(&Container::from_ast(record(id, name, file_name)).unwrap()).unwrap();
    }
    let data = group.gen_data(true);
    assert_eq!(data.len(), 5);
    assert_eq!(data[4].0, "index.ts");
    assert_eq!(
        data[4].1,
        "// DO NOT EDIT. CODE GENERATED BY gents.\nexport * from \"./alpha\"\nexport * from \"./dir/mid\"\nexport * from \"./zeta\"\n"
    );
    assert_eq!(data[0].0, "zeta.ts");
    assert!(data[0].1.starts_with("// DO NOT EDIT. CODE GENERATED BY gents.\nexport interface Z {"));
}

#[test]
fn the_index_file_of_an_empty_group_holds_the_banner() {
    assert_eq!(
        FileGroup::new().gen_data(true),
        vec![("index.ts".to_string(), "// DO NOT EDIT. CODE GENERATED BY gents.\n".to_string())]
    );
    assert_eq!(FileGroup::new().gen_data(false), vec![]);
}

#[test]
fn two_runs_on_the_same_schema_write_the_same() {
    let run = || {
        let mut group = FileGroup::new();
        let p = group.add(&Container::from_ast(person()).unwrap()).unwrap();
        let mut tagged = declaration(
            7,
            "Tagged",
            "tagged.ts",
            Body::Union(vec![variant("A", vec![TypeRef::Registered(p)]), variant("B", vec![])]),
        );
        tagged.tag = Some("type".to_string());
        group.add(&Container::from_ast(tagged).unwrap()).unwrap();
        group.gen_data(true)
    };
    assert_eq!(run(), run());
    assert_eq!(run().len(), 3);
}

fn arg(path: &str, value: Lit) -> MetaNameValue {
    MetaNameValue { path: path.to_string(), value }
}

fn string(s: &str) -> Lit {
    Lit::Str(s.to_string())
}

#[test]
fn a_header_names_the_file_and_the_policy() {
    assert_eq!(GentsWasmAttrs::parse(&vec![]).err(), Some(SchemaError::MissingFileName));
    assert_eq!(
        GentsWasmAttrs::parse(&vec![arg("file_name", string(""))]).err(),
        Some(SchemaError::MissingFileName)
    );
    assert_eq!(
        GentsWasmAttrs::parse(&vec![arg("file_name", Lit::Bool(true))]).err(),
        Some(SchemaError::ExpectedString)
    );
    assert_eq!(
        GentsWasmAttrs::parse(&vec![arg("other", string("x"))]).err(),
        Some(SchemaError::UnexpectedAttribute)
    );
    assert_eq!(
        GentsWasmAttrs::parse(&vec![arg("other", Lit::Other), arg("file_name", string("a.ts"))])
            .err(),
        Some(SchemaError::ExpectedString)
    );
    let attrs = GentsWasmAttrs::parse(&vec![
        arg("file_name", string("first.ts")),
        arg("file_name", string("h.ts")),
    ])
    .unwrap();
    assert_eq!(attrs.get_file_name(), "h.ts");
    let mut item = person();
    item.file_name = Some("old.ts".to_string());
    item.rename_all = None;
    let item = gents_header(&attrs, item);
    assert_eq!(item.file_name.as_deref(), Some("h.ts"));
    assert_eq!(item.rename_all.as_deref(), Some("camelCase"));
    assert_eq!(item.ident, "Person");
    assert_eq!(item.id, 100);
}

fn written_method(
    ident: &str,
    public: bool,
    params: Vec<(Option<&str>, TypeKey)>,
    ret: Option<TypeKey>,
) -> MethodDecl {
    MethodDecl {
        ident: ident.to_string(),
        public,
        attrs: vec![],
        params: params.into_iter().map(|(n, t)| (n.map(|n| n.to_string()), t)).collect(),
        return_type: ret,
    }
}

fn block(methods: Vec<MethodDecl>) -> ImplDecl {
    ImplDecl { of_trait: false, self_ident: Some("V1".to_string()), attrs: vec![], methods }
}

fn interface_args(ident: Option<&str>) -> TsInterfaceArgs {
    TsInterfaceArgs { file_name: "v1_api.ts".to_string(), ident: ident.map(|s| s.to_string()) }
}

#[test]
fn the_arguments_of_an_interface_are_its_file_and_its_name() {
    assert_eq!(TsInterfaceArgs::parse(&vec![]).err(), Some(SchemaError::MissingFileName));
    assert_eq!(
        TsInterfaceArgs::parse(&vec![arg("ident", string("A"))]).err(),
        Some(SchemaError::MissingFileName)
    );
    assert_eq!(
        TsInterfaceArgs::parse(&vec![arg("file_name", string("a.ts")), arg("other", string("x"))])
            .err(),
        Some(SchemaError::UnexpectedAttribute)
    );
    assert_eq!(
        TsInterfaceArgs::parse(&vec![arg("other", Lit::Bool(false))]).err(),
        Some(SchemaError::ExpectedString)
    );
    let args = TsInterfaceArgs::parse(&vec![
        arg("ident", string("A")),
        arg("file_name", string("a.ts")),
        arg("ident", string("B")),
    ])
    .unwrap();
    assert_eq!(args.file_name, "a.ts");
    assert_eq!(args.ident.as_deref(), Some("B"));
    let args = TsInterfaceArgs::parse(&vec![arg("file_name", string(""))]).unwrap();
    assert_eq!(args.file_name, "");
    assert_eq!(args.ident, None);
}

#[test]
fn an_interface_of_functions_has_the_public_methods() {
    let mut set_f1 = written_method(
        "set_f1",
        true,
        vec![(Some("new_value"), TypeKey::Scalar(Scalar::U8))],
        None,
    );
    set_f1.attrs = vec![Attribute {
        path: "doc".to_string(),
        value: Some(string("  set f1 \t")),
        name_values: None,
        paths: None,
    }];
    let mut item = block(vec![
        written_method("f1", true, vec![], Some(TypeKey::Scalar(Scalar::U8))),
        written_method("hidden", false, vec![(None, TypeKey::Scalar(Scalar::U8))], None),
        set_f1,
    ]);
    item.attrs = vec![Attribute {
        path: "doc".to_string(),
        value: Some(string("API")),
        name_values: None,
        paths: None,
    }];
    let api = ts_interface(interface_args(None), item).unwrap();
    assert_eq!(api.name, "V1");
    assert_eq!(api.file_name, "v1_api.ts");
    assert_eq!(api.comment, vec!["API".to_string()]);
    assert!(!api.async_func);
    assert_eq!(api.methods.len(), 2);
    assert_eq!(api.methods[0].name, "f1");
    assert_eq!(api.methods[1].name, "setF1");
    assert_eq!(api.methods[1].params, vec![("newValue".to_string(), TypeKey::Scalar(Scalar::U8))]);
    assert_eq!(api.methods[1].comment, vec!["set f1".to_string()]);
    assert_eq!(api.methods[1].return_type, None);

    assert_eq!(ts_interface(interface_args(Some("V1Api")), block(vec![])).unwrap().name, "V1Api");
}

#[test]
fn an_implementation_block_that_is_not_in_order_is_refused() {
    let bad = || written_method("f", true, vec![(None, TypeKey::Scalar(Scalar::U8))], None);
    let mut item = block(vec![bad()]);
    item.of_trait = true;
    item.self_ident = None;
    assert_eq!(ts_interface(interface_args(None), item).err(), Some(SchemaError::TraitImpl));
    let mut item = block(vec![bad()]);
    item.self_ident = None;
    assert_eq!(
        ts_interface(interface_args(None), item).err(),
        Some(SchemaError::UnsupportedSelfType)
    );
    assert_eq!(
        ts_interface(interface_args(None), block(vec![bad()])).err(),
        Some(SchemaError::UnsupportedParameter)
    );
    let good = written_method(
        "f",
        true,
        vec![(Some("a"), TypeKey::Named(1)), (None, TypeKey::Named(2))],
        None,
    );
    assert_eq!(
        ts_interface(interface_args(None), block(vec![good])).err(),
        Some(SchemaError::UnsupportedParameter)
    );
}

#[test]
fn an_interface_of_functions_imports_what_its_types_stand_for() {
    let mut manager = DescriptorManager::new();
    let p = register(&mut manager, person());
    assert_eq!(manager.index_of(TypeKey::Named(100)), Some(p));
    let method = |name: &str, params: Vec<(String, TypeKey)>, return_type: Option<TypeKey>| MethodDescriptor {
        name: name.to_string(),
        params,
        comment: vec![],
        return_type,
    };
    manager.add_api_descriptor(ApiDescriptor {
        name: "People".to_string(),
        file_name: "people.ts".to_string(),
        methods: vec![
            method("find", vec![("name".to_string(), TypeKey::Scalar(Scalar::Str))], Some(TypeKey::Named(100))),
            method("add", vec![("person".to_string(), TypeKey::Named(100))], None),
        ],
        comment: vec![],
        async_func: true,
    });
    assert!(manager.api_types_registered());
    let data = manager.gen_data();
    assert_eq!(
        file(&data, "people.ts"),
        "import { Person } from './person'

export interface People {
    find(name: string): Promise<Person>;
    add(person: Person): Promise<void>;
}
"
    );
}

#[test]
fn an_interface_of_functions_with_an_unknown_type_is_not_resolved() {
    let mut manager = DescriptorManager::new();
    assert!(manager.api_types_registered());
    manager.add_api_descriptor(ApiDescriptor {
        name: "A".to_string(),
        file_name: "a.ts".to_string(),
        methods: vec![MethodDescriptor {
            name: "f".to_string(),
            params: vec![("x".to_string(), TypeKey::Named(4242))],
            comment: vec![],
            return_type: None,
        }],
        comment: vec![],
        async_func: false,
    });
    assert!(!manager.api_types_registered());
    manager.registry(TypeKey::Named(4242), builtin("number")).unwrap();
    assert!(manager.api_types_registered());
    assert_eq!(manager.gen_data()[0].1, "export interface A {\n    f(x: number): void;\n}\n");
}

#[test]
fn a_field_descriptor_is_written_as_it_stands() {
    let mut manager = DescriptorManager::new();
    let d = Descriptor::Interface(InterfaceDescriptor {
        dependencies: vec![],
        fields: vec![FieldDescriptor {
            ident: "a".to_string(),
            optional: true,
            ts_ty: "Custom".to_string(),
            comments: vec!["note".to_string()],
            tag_value: String::new(),
        }],
        file_name: "a.ts".to_string(),
        ts_name: "A".to_string(),
        comments: vec![],
        need_builder: false,
        generic: None,
    });
    manager.registry(TypeKey::Named(1), d).unwrap();
    assert_eq!(
        manager.gen_data()[0].1,
        "export interface A {\n    // note\n    a?: Custom\n}\n"
    );
}

#[test]
fn what_a_type_stands_for_in_an_import_list() {
    let generics = |dependencies: Vec<usize>| {
        Descriptor::Generics(GenericDescriptor {
            dependencies,
            ts_name: "container".to_string(),
            optional: false,
        })
    };
    let all = vec![
        builtin("number"),
        interface("A", "dir/a.ts", vec![0]),
        interface("B", "b.ts", vec![1]),
        generics(vec![0, 1]),
        generics(vec![3, 2, 3]),
        generics(vec![0]),
    ];
    assert!(is_leaves_first(&all));
    let sorted = |idx: usize| {
        let mut r = get_import_deps_idx(&all, idx);
        r.sort();
        r
    };
    assert_eq!(sorted(0), Vec::<usize>::new());
    assert_eq!(sorted(1), vec![1]);
    assert_eq!(sorted(2), vec![2]);
    assert_eq!(sorted(3), vec![1]);
    assert_eq!(sorted(4), vec![1, 2]);
    assert_eq!(sorted(5), Vec::<usize>::new());
    assert_eq!(get_import_deps(&all, 1), ("A".to_string(), "dir/a".to_string()));
    assert_eq!(get_import_deps(&all, 2), ("B".to_string(), "b".to_string()));
    assert_eq!(get_import_deps(&all, 0), ("number".to_string(), String::new()));

    assert!(is_leaves_first(&vec![]));
    assert!(!is_leaves_first(&vec![interface("A", "a.ts", vec![0])]));
    assert!(!is_leaves_first(&vec![builtin("number"), generics(vec![0, 2])]));
}

#[test]
fn a_group_is_made_from_a_registry() {
    let mut manager = DescriptorManager::new();
    register(&mut manager, person());
    let unresolved = ApiDescriptor {
        name: "A".to_string(),
        file_name: "a.ts".to_string(),
        methods: vec![MethodDescriptor {
            name: "f".to_string(),
            params: vec![],
            comment: vec![],
            return_type: Some(TypeKey::Named(1)),
        }],
        comment: vec![],
        async_func: false,
    };
    manager.add_api_descriptor(unresolved);
    assert_eq!(manager.api_descriptors().len(), 1);
    assert_eq!(FileGroup::from_manager(manager).err(), Some(SchemaError::UnregisteredType));

    let mut manager = DescriptorManager::new();
    register(&mut manager, person());
    let group = FileGroup::from_manager(manager).unwrap();
    let data = group.gen_data(true);
    assert_eq!(data.len(), 2);
    assert_eq!(data[1].1, "// DO NOT EDIT. CODE GENERATED BY gents.\nexport * from \"./person\"\n");
}

#[test]
fn every_fault_has_its_words() {
    let all = [
        SchemaError::UnknownRenamePolicy,
        SchemaError::TagOnRecord,
        SchemaError::BuilderOnUnion,
        SchemaError::MissingFileName,
        SchemaError::TooManyPayloads,
        SchemaError::UnregisteredType,
        SchemaError::ExpectedString,
        SchemaError::ExpectedBool,
        SchemaError::UnexpectedAttribute,
        SchemaError::UnsupportedData,
        SchemaError::TraitImpl,
        SchemaError::UnsupportedSelfType,
        SchemaError::UnsupportedParameter,
    ];
    for (i, a) in all.iter().enumerate() {
        assert!(!a.message().is_empty());
        for b in &all[i + 1..] {
            assert_ne!(a.message(), b.message());
        }
    }
    assert_eq!(SchemaError::TagOnRecord.message(), "struct types doesn't support tag");
    assert_eq!(SchemaError::BuilderOnUnion.message(), "enum does not support builder");
    assert_eq!(SchemaError::MissingFileName.message(), "file name is required");
}

#[test]
fn the_comments_of_a_union_stand_above_it() {
    let mut manager = DescriptorManager::new();
    let mut a = variant("A", vec![]);
    a.comments = vec!["not written".to_string()];
    let mut item = declaration(1000, "U", "u.ts", Body::Union(vec![a]));
    item.comments = vec!["first".to_string(), "second".to_string()];
    register(&mut manager, item);
    assert_eq!(manager.gen_data()[0].1, "// first\n// second\nexport type U =\n    | 'a'\n");
}

#[test]
fn three_literals_make_one_type() {
    let mut manager = DescriptorManager::new();
    let p = register(&mut manager, record(1000, "P", "p.ts"));
    for literal in ["a", "b", "a", "c", "b"] {
        manager.add_tag(p, "t", literal);
    }
    assert_eq!(
        manager.gen_data()[0].1,
        "export interface P {\n    t: 'a' | 'b' | 'c'\n    id: number\n}\n"
    );
}

#[test]
fn a_record_without_fields_or_a_union_without_variants() {
    let mut manager = DescriptorManager::new();
    register(&mut manager, declaration(1000, "R", "r.ts", Body::Record(vec![])));
    register(&mut manager, declaration(1001, "U", "u.ts", Body::Union(vec![])));
    assert_eq!(
        manager.gen_data(),
        vec![
            ("r.ts".to_string(), "export interface R {\n}\n".to_string()),
            ("u.ts".to_string(), "export type U =\n".to_string()),
        ]
    );
}

#[test]
fn a_container_that_is_registered_is_found_again() {
    let mut manager = DescriptorManager::new();
    let p = register(&mut manager, person());
    let list = || TypeRef::Sequence(boxed(TypeRef::Registered(p)));
    let first = list()._register(&mut manager).unwrap();
    let len = manager.len();
    assert_eq!(list()._register(&mut manager), Ok(first));
    assert_eq!(TypeRef::Nullable(boxed(list()))._register(&mut manager), Ok(len));
    assert_eq!(TypeRef::Nullable(boxed(list()))._register(&mut manager), Ok(len));
    assert_eq!(manager.len(), len + 1);
    // Another name or other arguments make another container.
    let other = TypeRef::Sequence(boxed(number()))._register(&mut manager).unwrap();
    assert_ne!(other, first);
    let either = TypeRef::Either(boxed(number()), boxed(text()))._register(&mut manager).unwrap();
    let swapped = TypeRef::Either(boxed(text()), boxed(number()))._register(&mut manager).unwrap();
    assert_ne!(either, swapped);
    let pair = TypeRef::Pair(boxed(number()), boxed(text()))._register(&mut manager).unwrap();
    assert_ne!(pair, either);
    let len = manager.len();
    let item = declaration(
        2000,
        "Lists",
        "lists.ts",
        Body::Record(vec![field("a", list()), field("b", list()), field("c", list())]),
    );
    assert_eq!(register(&mut manager, item), len);
}
