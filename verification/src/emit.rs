//! The lines of a declaration: what is written for a record, for a union,
//! and how the tags that unions give to a record show in it.

use vstd::prelude::*;
use crate::descriptor::{
    lemma_views_push, views, EnumDescriptor, EnumView, FieldDescriptor, FieldView,
    InterfaceDescriptor, InterfaceView, TagGroup, TagGroupView,
};
use crate::text::{
    indentation, join_with, join_with_exec, lemma_texts_push, same_text, texts,
};
use crate::ts_formatter::{comment_lines, field_text, variant_lines, FormatterView, TsFormatter};

verus! {

/// The tag literal of a variant: the one given to it, or else its name.
pub open spec fn literal(f: FieldView) -> Seq<char> {
    if f.tag_value.len() > 0 {
        f.tag_value
    } else {
        f.ident
    }
}

/// How a variant is written in its union. Without payload it is its literal
/// in single quotes; with a payload it is an object: under a tag, the tag
/// with the literal and the payload as `value`; without a tag, the payload
/// under the name of the variant.
pub open spec fn variant_text(tag: Seq<char>, f: FieldView) -> Seq<char> {
    if f.ts_ty.len() == 0 {
        "'"@ + literal(f) + "'"@
    } else if tag.len() > 0 {
        "{ "@ + tag + ": '"@ + literal(f) + "'; value: "@ + f.ts_ty + " }"@
    } else {
        "{ "@ + f.ident + ": "@ + f.ts_ty + " }"@
    }
}

/// The variants of a union as they are written, in the order of their declaration.
pub open spec fn variant_texts(tag: Seq<char>, fields: Seq<FieldView>) -> Seq<Seq<char>> {
    Seq::new(fields.len(), |i: int| variant_text(tag, fields[i]))
}

/// The lines of a union: its comments, `export type` with its name, and one
/// line for each variant.
pub open spec fn union_lines(e: EnumView) -> Seq<Seq<char>> {
    comment_lines(e.comments, 0) + seq!["export type "@ + e.ts_name + " ="@] + variant_lines(
        variant_texts(e.tag, e.fields),
        0,
    )
}

/// The items of `s` without repetitions, each where it first occurs.
pub open spec fn distinct(s: Seq<Seq<char>>) -> Seq<Seq<char>>
    decreases s.len(),
{
    if s.len() == 0 {
        Seq::empty()
    } else {
        let d = distinct(s.drop_last());
        if d.contains(s.last()) {
            d
        } else {
            d.push(s.last())
        }
    }
}

/// The literals in single quotes.
pub open spec fn quoted(s: Seq<Seq<char>>) -> Seq<Seq<char>> {
    Seq::new(s.len(), |i: int| "'"@ + s[i] + "'"@)
}

/// The type of a tag field: its distinct literals, with ` | ` between them.
pub open spec fn literal_union(literals: Seq<Seq<char>>) -> Seq<char> {
    join_with(quoted(distinct(literals)), " | "@)
}

/// A tag field of a record: the name of the tag, the type of the field, and
/// whether the field is fixed, which it is when no two literals differ.
pub struct TagField {
    pub name: String,
    pub ty: String,
    pub fixed: bool,
}

/// A tag field in specifications.
pub ghost struct TagFieldView {
    pub name: Seq<char>,
    pub ty: Seq<char>,
    pub fixed: bool,
}

impl View for TagField {
    type V = TagFieldView;

    open spec fn view(&self) -> TagFieldView {
        TagFieldView { name: self.name@, ty: self.ty@, fixed: self.fixed }
    }
}

/// The tag field that a group of literals makes.
pub open spec fn tag_field_of(g: TagGroupView) -> TagFieldView {
    TagFieldView {
        name: g.tag,
        ty: literal_union(g.literals),
        fixed: distinct(g.literals).len() <= 1,
    }
}

/// The tag fields of the type at `idx`: one for each tag name under which a
/// union has tagged it, in the order in which those names first came.
pub open spec fn tag_fields(tags: Seq<TagGroupView>, idx: usize) -> Seq<TagFieldView>
    decreases tags.len(),
{
    if tags.len() == 0 {
        Seq::empty()
    } else {
        let rest = tag_fields(tags.drop_last(), idx);
        if tags.last().payload == idx {
            rest.push(tag_field_of(tags.last()))
        } else {
            rest
        }
    }
}

/// The distinct items of `v`, each where it first occurs.
fn distinct_exec(v: &Vec<String>) -> (r: Vec<String>)
    ensures
        texts(r@) == distinct(texts(v@)),
{
    let mut r: Vec<String> = Vec::new();
    let mut i: usize = 0;
    assert(texts(v@).take(0) =~= Seq::empty());
    assert(texts(r@) =~= Seq::empty());
    while i < v.len()
        invariant
            i <= v.len(),
            texts(r@) == distinct(texts(v@).take(i as int)),
        decreases v.len() - i,
    {
        let ghost t = texts(v@).take(i + 1);
        assert(t.drop_last() =~= texts(v@).take(i as int));
        assert(t.last() == v@[i as int]@);
        let mut found: bool = false;
        let mut k: usize = 0;
        while k < r.len() && !found
            invariant
                k <= r.len(),
                i < v.len(),
                found ==> texts(r@).contains(v@[i as int]@),
                !found ==> forall|j: int| 0 <= j < k ==> texts(r@)[j] != v@[i as int]@,
            decreases r.len() - k + (if found { 0int } else { 1int }),
        {
            if same_text(r[k].as_str(), v[i].as_str()) {
                found = true;
                assert(texts(r@)[k as int] == v@[i as int]@);
            } else {
                k = k + 1;
            }
        }
        if !found {
            let s = v[i].clone();
            proof {
                lemma_texts_push(r@, s);
            }
            r.push(s);
        }
        i = i + 1;
    }
    assert(texts(v@).take(v.len() as int) =~= texts(v@));
    r
}

/// The literals of `v` in single quotes.
fn quoted_exec(v: &Vec<String>) -> (r: Vec<String>)
    ensures
        texts(r@) == quoted(texts(v@)),
{
    let mut r: Vec<String> = Vec::new();
    let mut i: usize = 0;
    let ghost all = quoted(texts(v@));
    assert(texts(r@) =~= all.take(0));
    while i < v.len()
        invariant
            i <= v.len(),
            all == quoted(texts(v@)),
            texts(r@) == all.take(i as int),
        decreases v.len() - i,
    {
        let mut s = String::from_str("'");
        s.append(v[i].as_str());
        s.append("'");
        proof {
            lemma_texts_push(r@, s);
            assert(all.take(i + 1) =~= all.take(i as int).push(all[i as int]));
        }
        r.push(s);
        i = i + 1;
    }
    assert(all.take(v.len() as int) =~= all);
    r
}

/// The tag fields of the type at `idx`.
pub(crate) fn tag_fields_exec(tags: &Vec<TagGroup>, idx: usize) -> (r: Vec<TagField>)
    ensures
        views(r@) == tag_fields(views(tags@), idx),
{
    let mut r: Vec<TagField> = Vec::new();
    let mut i: usize = 0;
    assert(views(tags@).take(0) =~= Seq::empty());
    assert(views(r@) =~= Seq::empty());
    while i < tags.len()
        invariant
            i <= tags.len(),
            views(r@) == tag_fields(views(tags@).take(i as int), idx),
        decreases tags.len() - i,
    {
        let ghost t = views(tags@).take(i + 1);
        assert(t.drop_last() =~= views(tags@).take(i as int));
        assert(t.last() == tags@[i as int]@);
        if tags[i].payload == idx {
            let d = distinct_exec(&tags[i].literals);
            let q = quoted_exec(&d);
            let ty = join_with_exec(&q, " | ");
            let f = TagField { name: tags[i].tag.clone(), ty, fixed: d.len() <= 1 };
            proof {
                lemma_views_push(r@, f);
                assert(f@ == tag_field_of(tags@[i as int]@));
            }
            r.push(f);
        }
        i = i + 1;
    }
    assert(views(tags@).take(tags.len() as int) =~= views(tags@));
    r
}

/// The lines of the tag fields of a record, one level deep.
pub open spec fn tag_field_lines(tags: Seq<TagFieldView>) -> Seq<Seq<char>> {
    Seq::new(tags.len(), |i: int| indentation(1) + field_text(tags[i].name, tags[i].ty, false))
}

/// The lines of one field: its comments and its declaration.
pub open spec fn field_lines(f: FieldView, depth: nat) -> Seq<Seq<char>> {
    comment_lines(f.comments, depth).push(
        indentation(depth) + field_text(f.ident, f.ts_ty, f.optional),
    )
}

/// The lines of the fields, in the order of their declaration.
pub open spec fn fields_lines(fields: Seq<FieldView>, depth: nat) -> Seq<Seq<char>>
    decreases fields.len(),
{
    if fields.len() == 0 {
        Seq::empty()
    } else {
        fields_lines(fields.drop_last(), depth) + field_lines(fields.last(), depth)
    }
}

/// The lines of an interface: its comments, the opening line with its name
/// and generics, the tag fields, the declared fields, and the closing line.
pub open spec fn interface_lines(
    d: InterfaceView,
    generics: Seq<char>,
    tags: Seq<TagFieldView>,
) -> Seq<Seq<char>> {
    comment_lines(d.comments, 0) + seq!["export interface "@ + d.ts_name + generics + " {"@]
        + tag_field_lines(tags) + fields_lines(d.fields, 1) + seq!["}"@]
}

/// Writes a union.
pub(crate) fn write_union(e: &EnumDescriptor, fmt: &mut TsFormatter)
    requires
        old(fmt)@.indent == 0,
    ensures
        final(fmt)@ == (FormatterView {
            enum_mode: false,
            enum_variants: Seq::empty(),
            ..old(fmt)@.extend(union_lines(e@))
        }),
{
    fmt.add_comment(e.comments.as_slice());
    fmt.start_enum(e.ts_name.as_str());
    let ghost all = variant_texts(e@.tag, e@.fields);
    let ghost start = fmt@;
    let mut i: usize = 0;
    assert(all.take(0) =~= Seq::empty());
    while i < e.fields.len()
        invariant
            i <= e.fields.len(),
            all == variant_texts(e@.tag, e@.fields),
            fmt@ == (FormatterView { enum_variants: all.take(i as int), ..start }),
            start.enum_mode,
        decreases e.fields.len() - i,
    {
        let fd = &e.fields[i];
        assert(e@.fields[i as int] == fd@);
        let mut v = String::new();
        if fd.ts_ty.as_str().is_empty() {
            v.append("'");
            append_literal(&mut v, fd);
            v.append("'");
        } else if !e.tag.as_str().is_empty() {
            v.append("{ ");
            v.append(e.tag.as_str());
            v.append(": '");
            append_literal(&mut v, fd);
            v.append("'; value: ");
            v.append(fd.ts_ty.as_str());
            v.append(" }");
        } else {
            v.append("{ ");
            v.append(fd.ident.as_str());
            v.append(": ");
            v.append(fd.ts_ty.as_str());
            v.append(" }");
        }
        assert(v@ =~= variant_text(e@.tag, fd@));
        fmt.add_enum_variant_raw(v.as_str());
        assert(all.take(i + 1) =~= all.take(i as int).push(all[i as int]));
        i = i + 1;
    }
    assert(all.take(e.fields.len() as int) =~= all);
    fmt.end_enum();
    proof {
        assert(indentation(0) =~= Seq::empty());
        assert(fmt@.lines =~~= old(fmt)@.lines + union_lines(e@));
    }
}

/// Appends the tag literal of a variant.
fn append_literal(s: &mut String, fd: &FieldDescriptor)
    ensures
        final(s)@ == old(s)@ + literal(fd@),
{
    if !fd.tag_value.as_str().is_empty() {
        s.append(fd.tag_value.as_str());
    } else {
        s.append(fd.ident.as_str());
    }
}

/// Writes the interface of a record.
pub(crate) fn write_interface(
    d: &InterfaceDescriptor,
    generics: &str,
    tags: &Vec<TagField>,
    fmt: &mut TsFormatter,
)
    requires
        old(fmt)@.indent == 0,
    ensures
        final(fmt)@ == old(fmt)@.extend(interface_lines(d@, generics@, views(tags@))),
{
    fmt.add_comment(d.comments.as_slice());
    fmt.start_interface(d.ts_name.as_str(), generics);
    let ghost start = fmt@;
    let ghost tag_lines = tag_field_lines(views(tags@));
    let mut i: usize = 0;
    assert(start.extend(tag_lines.take(0)) =~= start);
    while i < tags.len()
        invariant
            i <= tags.len(),
            start.indent == 1,
            tag_lines == tag_field_lines(views(tags@)),
            fmt@ == start.extend(tag_lines.take(i as int)),
        decreases tags.len() - i,
    {
        let ghost before = fmt@;
        let none: Vec<String> = Vec::new();
        fmt.add_field(tags[i].name.as_str(), tags[i].ty.as_str(), false, none.as_slice());
        proof {
            assert(comment_lines(texts(none@), 1) =~= Seq::empty());
            assert(views(tags@)[i as int] == tags@[i as int]@);
            assert(tag_lines.take(i + 1) =~= tag_lines.take(i as int).push(tag_lines[i as int]));
            assert(fmt@.lines =~= start.lines + tag_lines.take(i + 1));
        }
        i = i + 1;
    }
    assert(tag_lines.take(tags.len() as int) =~= tag_lines);
    let ghost mid = fmt@;
    let mut k: usize = 0;
    assert(views(d.fields@).take(0) =~= Seq::empty());
    assert(mid.extend(Seq::empty()) =~= mid);
    while k < d.fields.len()
        invariant
            k <= d.fields.len(),
            mid.indent == 1,
            fmt@ == mid.extend(fields_lines(views(d.fields@).take(k as int), 1)),
        decreases d.fields.len() - k,
    {
        let fd = &d.fields[k];
        fmt.add_field(fd.ident.as_str(), fd.ts_ty.as_str(), fd.optional, fd.comments.as_slice());
        proof {
            let t = views(d.fields@).take(k + 1);
            assert(t.drop_last() =~= views(d.fields@).take(k as int));
            assert(t.last() == fd@);
            assert(fmt@.lines =~= mid.lines + fields_lines(t, 1));
        }
        k = k + 1;
    }
    assert(views(d.fields@).take(d.fields.len() as int) =~= views(d.fields@));
    fmt.end_interface();
    proof {
        assert(indentation(0) =~= Seq::empty());
        assert(fmt@.lines =~~= old(fmt)@.lines + interface_lines(d@, generics@, views(tags@)));
    }
}

/// The declaration of the private field that backs a tag in a builder: a
/// fixed tag has its literal as value, another tag has to be assigned.
pub open spec fn builder_tag_field(t: TagFieldView) -> Seq<char> {
    if t.fixed {
        "private _"@ + t.name + " = "@ + t.ty
    } else {
        "private _"@ + t.name + "!: "@ + t.ty
    }
}

/// The declaration of the private field that backs a field in a builder: an
/// optional field may stay unset, another field has to be assigned.
pub open spec fn builder_field(f: FieldView) -> Seq<char> {
    if f.optional {
        "private _"@ + f.ident + "?: "@ + f.ts_ty
    } else {
        "private _"@ + f.ident + "!: "@ + f.ts_ty
    }
}

/// The private fields of a builder: those of the tags, then those of the fields.
pub open spec fn builder_field_lines(fields: Seq<FieldView>, tags: Seq<TagFieldView>) -> Seq<
    Seq<char>,
> {
    Seq::new(tags.len(), |i: int| indentation(1) + builder_tag_field(tags[i])) + Seq::new(
        fields.len(),
        |i: int| indentation(1) + builder_field(fields[i]),
    )
}

/// A setter of a builder: the method `name` takes `param` of the type `ty`,
/// keeps it in the private field, and returns the builder.
pub open spec fn setter_lines(name: Seq<char>, param: Seq<char>, ty: Seq<char>) -> Seq<Seq<char>> {
    seq![
        indentation(1) + ("public "@ + name + "("@ + param + ": "@ + ty + ")"@ + " {"@),
        indentation(2) + ("this._"@ + name + " = "@ + param),
        indentation(2) + "return this"@,
        indentation(1) + "}"@,
    ]
}

/// The setter of a field; its parameter is `value`.
pub open spec fn field_setter(f: FieldView) -> Seq<Seq<char>> {
    setter_lines(f.ident, "value"@, f.ts_ty)
}

/// The setters of the fields, with an empty line between neighbours.
pub open spec fn field_setters(fields: Seq<FieldView>) -> Seq<Seq<char>>
    decreases fields.len(),
{
    if fields.len() == 0 {
        Seq::empty()
    } else if fields.len() == 1 {
        field_setter(fields[0])
    } else {
        field_setters(fields.drop_last()) + seq![Seq::<char>::empty()] + field_setter(
            fields.last(),
        )
    }
}

/// The setter of a tag that is not fixed; its parameter is `v`. A fixed tag has none.
pub open spec fn tag_setter(t: TagFieldView) -> Seq<Seq<char>> {
    if t.fixed {
        Seq::empty()
    } else {
        setter_lines(t.name, "v"@, t.ty)
    }
}

/// The setters of the tags.
pub open spec fn tag_setters(tags: Seq<TagFieldView>) -> Seq<Seq<char>>
    decreases tags.len(),
{
    if tags.len() == 0 {
        Seq::empty()
    } else {
        tag_setters(tags.drop_last()) + tag_setter(tags.last())
    }
}

/// Whether every tag is fixed.
pub open spec fn all_fixed(tags: Seq<TagFieldView>) -> bool {
    forall|i: int| 0 <= i < tags.len() ==> (#[trigger] tags[i]).fixed
}

/// What stands between the setters of the fields and `build`: the setters
/// of the tags; an empty line where there are tags and all of them are
/// fixed; nothing where there is no tag.
pub open spec fn tag_setter_block(tags: Seq<TagFieldView>) -> Seq<Seq<char>> {
    if tags.len() > 0 && all_fixed(tags) {
        seq![Seq::<char>::empty()]
    } else {
        tag_setters(tags)
    }
}

/// The check that `build` makes for a field: one that is not optional must
/// have been set; an optional field is not checked.
pub open spec fn missing_check(f: FieldView) -> Seq<Seq<char>> {
    if f.optional {
        Seq::empty()
    } else {
        seq![
            indentation(2) + ("if (this._"@ + f.ident + " === undefined) throw new Error('missing "@
                + f.ident + "')"@),
        ]
    }
}

/// The checks of `build`, in the order in which the fields are declared.
pub open spec fn missing_checks(fields: Seq<FieldView>) -> Seq<Seq<char>>
    decreases fields.len(),
{
    if fields.len() == 0 {
        Seq::empty()
    } else {
        missing_checks(fields.drop_last()) + missing_check(fields.last())
    }
}

/// The members of the object that `build` returns: the tags first, then the
/// fields in the order of their declaration.
pub open spec fn build_parts(fields: Seq<FieldView>, tags: Seq<TagFieldView>) -> Seq<Seq<char>> {
    Seq::new(tags.len(), |i: int| tags[i].name + ": this._"@ + tags[i].name) + Seq::new(
        fields.len(),
        |i: int| fields[i].ident + ": this._"@ + fields[i].ident,
    )
}

/// The method `build`: the checks, then the object.
pub open spec fn build_lines(fields: Seq<FieldView>, tags: Seq<TagFieldView>) -> Seq<Seq<char>> {
    seq![indentation(1) + ("public build()"@ + " {"@)] + missing_checks(fields) + seq![
        indentation(2) + ("return { "@ + join_with(build_parts(fields, tags), ", "@) + " }"@),
        indentation(1) + "}"@,
    ]
}

/// The lines of the builder class of a record.
pub open spec fn builder_lines(d: InterfaceView, tags: Seq<TagFieldView>) -> Seq<Seq<char>> {
    seq!["export class "@ + (d.ts_name + "Builder"@) + " {"@] + builder_field_lines(d.fields, tags)
        + field_setters(d.fields) + tag_setter_block(tags) + build_lines(d.fields, tags)
        + seq!["}"@]
}

/// The lines of a record: its interface and, where it is asked for, an
/// empty line and its builder.
pub open spec fn record_lines(
    d: InterfaceView,
    generics: Seq<char>,
    tags: Seq<TagFieldView>,
) -> Seq<Seq<char>> {
    if d.need_builder {
        interface_lines(d, generics, tags) + seq![Seq::<char>::empty()] + builder_lines(d, tags)
    } else {
        interface_lines(d, generics, tags)
    }
}

/// Writes the private fields of a builder.
fn write_builder_fields(d: &InterfaceDescriptor, tags: &Vec<TagField>, fmt: &mut TsFormatter)
    requires
        old(fmt)@.indent == 1,
    ensures
        final(fmt)@ == old(fmt)@.extend(builder_field_lines(d@.fields, views(tags@))),
{
    let ghost a = Seq::new(tags@.len(), |i: int| indentation(1) + builder_tag_field(views(tags@)[i]));
    let ghost b = Seq::new(
        d@.fields.len(),
        |i: int| indentation(1) + builder_field(d@.fields[i]),
    );
    let mut i: usize = 0;
    assert(old(fmt)@.extend(a.take(0)) =~= old(fmt)@);
    while i < tags.len()
        invariant
            i <= tags.len(),
            old(fmt)@.indent == 1,
            a == Seq::new(tags@.len(), |i: int| indentation(1) + builder_tag_field(views(tags@)[i])),
            fmt@ == old(fmt)@.extend(a.take(i as int)),
        decreases tags.len() - i,
    {
        let t = &tags[i];
        let mut decl = String::from_str("private _");
        decl.append(t.name.as_str());
        if t.fixed {
            decl.append(" = ");
        } else {
            decl.append("!: ");
        }
        decl.append(t.ty.as_str());
        fmt.add_class_field(decl.as_str());
        proof {
            assert(views(tags@)[i as int] == t@);
            assert(decl@ =~= builder_tag_field(t@));
            assert(a.take(i + 1) =~= a.take(i as int).push(a[i as int]));
            assert(fmt@.lines =~= old(fmt)@.lines + a.take(i + 1));
        }
        i = i + 1;
    }
    assert(a.take(tags.len() as int) =~= a);
    let ghost mid = fmt@;
    let mut k: usize = 0;
    assert(mid.extend(b.take(0)) =~= mid);
    while k < d.fields.len()
        invariant
            k <= d.fields.len(),
            mid.indent == 1,
            b == Seq::new(d@.fields.len(), |i: int| indentation(1) + builder_field(d@.fields[i])),
            fmt@ == mid.extend(b.take(k as int)),
        decreases d.fields.len() - k,
    {
        let fd = &d.fields[k];
        let mut decl = String::from_str("private _");
        decl.append(fd.ident.as_str());
        if fd.optional {
            decl.append("?: ");
        } else {
            decl.append("!: ");
        }
        decl.append(fd.ts_ty.as_str());
        fmt.add_class_field(decl.as_str());
        proof {
            assert(d@.fields[k as int] == fd@);
            assert(decl@ =~= builder_field(fd@));
            assert(b.take(k + 1) =~= b.take(k as int).push(b[k as int]));
            assert(fmt@.lines =~= mid.lines + b.take(k + 1));
        }
        k = k + 1;
    }
    assert(b.take(d.fields.len() as int) =~= b);
    assert(fmt@.lines =~= old(fmt)@.lines + (a + b));
}

/// Writes a setter: the method `name` takes `param` and keeps it.
fn write_setter(name: &str, param: &str, ty: &str, fmt: &mut TsFormatter)
    requires
        old(fmt)@.indent == 1,
    ensures
        final(fmt)@ == old(fmt)@.extend(setter_lines(name@, param@, ty@)),
{
    let mut signature = String::from_str("public ");
    signature.append(name);
    signature.append("(");
    signature.append(param);
    signature.append(": ");
    signature.append(ty);
    signature.append(")");
    fmt.start_method(signature.as_str());
    let mut line = String::from_str("this._");
    line.append(name);
    line.append(" = ");
    line.append(param);
    fmt.add_method_line(line.as_str());
    fmt.add_method_line("return this");
    fmt.end_method();
    assert(fmt@.lines =~~= old(fmt)@.lines + setter_lines(name@, param@, ty@));
}

/// Writes the setters of the fields, with an empty line between neighbours.
fn write_field_setters(d: &InterfaceDescriptor, fmt: &mut TsFormatter)
    requires
        old(fmt)@.indent == 1,
    ensures
        final(fmt)@ == old(fmt)@.extend(field_setters(d@.fields)),
{
    let mut i: usize = 0;
    assert(d@.fields.take(0) =~= Seq::empty());
    assert(old(fmt)@.extend(Seq::empty()) =~= old(fmt)@);
    while i < d.fields.len()
        invariant
            i <= d.fields.len(),
            old(fmt)@.indent == 1,
            fmt@ == old(fmt)@.extend(field_setters(d@.fields.take(i as int))),
        decreases d.fields.len() - i,
    {
        let fd = &d.fields[i];
        if i > 0 {
            fmt.add_blank_line();
        }
        write_setter(fd.ident.as_str(), "value", fd.ts_ty.as_str(), fmt);
        proof {
            let t = d@.fields.take(i + 1);
            assert(t.drop_last() =~= d@.fields.take(i as int));
            assert(t.last() == fd@);
            if i == 0 {
                assert(t[0] == fd@);
            }
            assert(fmt@.lines =~= old(fmt)@.lines + field_setters(t));
        }
        i = i + 1;
    }
    assert(d@.fields.take(d.fields.len() as int) =~= d@.fields);
}

/// Whether every tag is fixed.
fn all_fixed_exec(tags: &Vec<TagField>) -> (r: bool)
    ensures
        r == all_fixed(views(tags@)),
{
    let mut i: usize = 0;
    while i < tags.len()
        invariant
            i <= tags.len(),
            forall|k: int| 0 <= k < i ==> (#[trigger] views(tags@)[k]).fixed,
        decreases tags.len() - i,
    {
        if !tags[i].fixed {
            assert(views(tags@)[i as int] == tags@[i as int]@);
            return false;
        }
        assert(views(tags@)[i as int] == tags@[i as int]@);
        i = i + 1;
    }
    true
}

/// Writes what stands between the setters of the fields and `build`.
fn write_tag_setter_block(tags: &Vec<TagField>, fmt: &mut TsFormatter)
    requires
        old(fmt)@.indent == 1,
    ensures
        final(fmt)@ == old(fmt)@.extend(tag_setter_block(views(tags@))),
{
    if tags.len() > 0 && all_fixed_exec(tags) {
        fmt.add_blank_line();
    } else {
        write_tag_setters(tags, fmt);
    }
}

/// Writes the setters of the tags that are not fixed.
fn write_tag_setters(tags: &Vec<TagField>, fmt: &mut TsFormatter)
    requires
        old(fmt)@.indent == 1,
    ensures
        final(fmt)@ == old(fmt)@.extend(tag_setters(views(tags@))),
{
    let mut i: usize = 0;
    assert(views(tags@).take(0) =~= Seq::empty());
    assert(old(fmt)@.extend(Seq::empty()) =~= old(fmt)@);
    while i < tags.len()
        invariant
            i <= tags.len(),
            old(fmt)@.indent == 1,
            fmt@ == old(fmt)@.extend(tag_setters(views(tags@).take(i as int))),
        decreases tags.len() - i,
    {
        let t = &tags[i];
        if !t.fixed {
            write_setter(t.name.as_str(), "v", t.ty.as_str(), fmt);
        }
        proof {
            let s = views(tags@).take(i + 1);
            assert(s.drop_last() =~= views(tags@).take(i as int));
            assert(s.last() == t@);
            assert(fmt@.lines =~= old(fmt)@.lines + tag_setters(s));
        }
        i = i + 1;
    }
    assert(views(tags@).take(tags.len() as int) =~= views(tags@));
}

/// The members of the object that `build` returns.
fn build_parts_exec(d: &InterfaceDescriptor, tags: &Vec<TagField>) -> (r: Vec<String>)
    ensures
        texts(r@) == build_parts(d@.fields, views(tags@)),
{
    let ghost a = Seq::new(
        tags@.len(),
        |i: int| views(tags@)[i].name + ": this._"@ + views(tags@)[i].name,
    );
    let ghost b = Seq::new(
        d@.fields.len(),
        |i: int| d@.fields[i].ident + ": this._"@ + d@.fields[i].ident,
    );
    let mut r: Vec<String> = Vec::new();
    let mut i: usize = 0;
    assert(texts(r@) =~= a.take(0));
    while i < tags.len()
        invariant
            i <= tags.len(),
            a == Seq::new(
                tags@.len(),
                |i: int| views(tags@)[i].name + ": this._"@ + views(tags@)[i].name,
            ),
            texts(r@) == a.take(i as int),
        decreases tags.len() - i,
    {
        let mut part = String::from_str(tags[i].name.as_str());
        part.append(": this._");
        part.append(tags[i].name.as_str());
        proof {
            lemma_texts_push(r@, part);
            assert(views(tags@)[i as int] == tags@[i as int]@);
            assert(a.take(i + 1) =~= a.take(i as int).push(a[i as int]));
        }
        r.push(part);
        i = i + 1;
    }
    assert(a.take(tags.len() as int) =~= a);
    let mut k: usize = 0;
    assert(a + b.take(0) =~= a);
    while k < d.fields.len()
        invariant
            k <= d.fields.len(),
            b == Seq::new(
                d@.fields.len(),
                |i: int| d@.fields[i].ident + ": this._"@ + d@.fields[i].ident,
            ),
            texts(r@) == a + b.take(k as int),
        decreases d.fields.len() - k,
    {
        let mut part = String::from_str(d.fields[k].ident.as_str());
        part.append(": this._");
        part.append(d.fields[k].ident.as_str());
        proof {
            lemma_texts_push(r@, part);
            assert(d@.fields[k as int] == d.fields@[k as int]@);
            assert(a + b.take(k + 1) =~= (a + b.take(k as int)).push(b[k as int]));
        }
        r.push(part);
        k = k + 1;
    }
    assert(b.take(d.fields.len() as int) =~= b);
    r
}

/// Writes the method `build`.
fn write_build(d: &InterfaceDescriptor, tags: &Vec<TagField>, fmt: &mut TsFormatter)
    requires
        old(fmt)@.indent == 1,
    ensures
        final(fmt)@ == old(fmt)@.extend(build_lines(d@.fields, views(tags@))),
{
    fmt.start_method("public build()");
    let ghost start = fmt@;
    let mut i: usize = 0;
    assert(d@.fields.take(0) =~= Seq::empty());
    assert(start.extend(Seq::empty()) =~= start);
    while i < d.fields.len()
        invariant
            i <= d.fields.len(),
            start.indent == 2,
            fmt@ == start.extend(missing_checks(d@.fields.take(i as int))),
        decreases d.fields.len() - i,
    {
        let fd = &d.fields[i];
        if !fd.optional {
            let mut line = String::from_str("if (this._");
            line.append(fd.ident.as_str());
            line.append(" === undefined) throw new Error('missing ");
            line.append(fd.ident.as_str());
            line.append("')");
            fmt.add_method_line(line.as_str());
        }
        proof {
            let t = d@.fields.take(i + 1);
            assert(t.drop_last() =~= d@.fields.take(i as int));
            assert(t.last() == fd@);
            assert(fmt@.lines =~= start.lines + missing_checks(t));
        }
        i = i + 1;
    }
    assert(d@.fields.take(d.fields.len() as int) =~= d@.fields);
    let parts = build_parts_exec(d, tags);
    let list = join_with_exec(&parts, ", ");
    let mut line = String::from_str("return { ");
    line.append(list.as_str());
    line.append(" }");
    fmt.add_method_line(line.as_str());
    fmt.end_method();
    assert(fmt@.lines =~~= old(fmt)@.lines + build_lines(d@.fields, views(tags@)));
}

/// Writes the builder class of a record: a private field for each tag and
/// each field, the setters, and the method `build`.
pub(crate) fn write_builder(d: &InterfaceDescriptor, tags: &Vec<TagField>, fmt: &mut TsFormatter)
    requires
        old(fmt)@.indent == 0,
    ensures
        final(fmt)@ == old(fmt)@.extend(builder_lines(d@, views(tags@))),
{
    let mut name = String::from_str(d.ts_name.as_str());
    name.append("Builder");
    fmt.start_class(name.as_str());
    write_builder_fields(d, tags, fmt);
    write_field_setters(d, fmt);
    write_tag_setter_block(tags, fmt);
    write_build(d, tags, fmt);
    fmt.end_class();
    proof {
        assert(indentation(0) =~= Seq::empty());
        assert(fmt@.lines =~~= old(fmt)@.lines + builder_lines(d@, views(tags@)));
    }
}

/// Writes a record: its interface and, where it is asked for, its builder.
pub(crate) fn write_record(
    d: &InterfaceDescriptor,
    generics: &str,
    tags: &Vec<TagField>,
    fmt: &mut TsFormatter,
)
    requires
        old(fmt)@.indent == 0,
    ensures
        final(fmt)@ == old(fmt)@.extend(record_lines(d@, generics@, views(tags@))),
{
    write_interface(d, generics, tags, fmt);
    if d.need_builder {
        fmt.add_blank_line();
        write_builder(d, tags, fmt);
        assert(fmt@.lines =~= old(fmt)@.lines + record_lines(d@, generics@, views(tags@)));
    }
}

/// Tag rendering. A type that is tagged by one literal, however often, has
/// a fixed tag field: the literal is its type in the interface and its
/// value in the builder, and the builder has no setter for it. A type that
/// is tagged by two different literals has a tag field of the type of
/// both: the builder has to have it assigned, and has a setter for it.
pub proof fn lemma_tag_rendering(payload: usize, tag: Seq<char>, a: Seq<char>, b: Seq<char>)
    requires
        a != b,
    ensures
        ({
            let one = tag_field_of(TagGroupView { payload, tag, literals: seq![a] });
            let twice = tag_field_of(TagGroupView { payload, tag, literals: seq![a, a] });
            let two = tag_field_of(TagGroupView { payload, tag, literals: seq![a, b] });
            &&& one.fixed
            &&& one.ty == "'"@ + a + "'"@
            &&& twice == one
            &&& tag_field_lines(seq![one])[0] == indentation(1) + (tag + ": "@ + one.ty)
            &&& builder_tag_field(one) == "private _"@ + tag + " = "@ + one.ty
            &&& tag_setter(one) == Seq::<Seq<char>>::empty()
            &&& !two.fixed
            &&& two.ty == "'"@ + a + "'"@ + " | "@ + ("'"@ + b + "'"@)
            &&& tag_field_lines(seq![two])[0] == indentation(1) + (tag + ": "@ + two.ty)
            &&& builder_tag_field(two) == "private _"@ + tag + "!: "@ + two.ty
            &&& tag_setter(two) == setter_lines(tag, "v"@, two.ty)
        }),
{
    let la = seq![a];
    let laa = seq![a, a];
    let lab = seq![a, b];
    assert(la.drop_last() =~= Seq::empty());
    assert(distinct(Seq::empty()) =~= Seq::empty());
    assert(!Seq::<Seq<char>>::empty().contains(a));
    assert(la.last() == a);
    assert(distinct(la) =~= seq![a]);
    assert(laa.drop_last() =~= la);
    assert(distinct(la).contains(a)) by {
        assert(distinct(la)[0] == a);
    }
    assert(distinct(laa) =~= seq![a]);
    assert(lab.drop_last() =~= la);
    assert(!distinct(la).contains(b));
    assert(distinct(lab) =~= seq![a, b]);
    assert(quoted(seq![a]) =~= seq!["'"@ + a + "'"@]);
    assert(quoted(seq![a, b]) =~= seq!["'"@ + a + "'"@, "'"@ + b + "'"@]);
    let q = quoted(seq![a, b]);
    assert(q.drop_last() =~= seq!["'"@ + a + "'"@]);
    assert(join_with(q.drop_last(), " | "@) == "'"@ + a + "'"@);
}

} // verus!
