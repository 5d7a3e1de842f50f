//! Attributes, as they stand in front of a declaration or of one of its
//! members, and what is read from them.

use vstd::prelude::*;
use crate::container::opt_text;
use crate::descriptor::{lemma_views_push, views, SchemaError};
use crate::text::{lemma_texts_push, same_text, texts, trim, trimmed};

verus! {

/// The value of an attribute, as far as it is looked at.
#[derive(Debug)]
pub enum Lit {
    Str(String),
    Bool(bool),
    /// Any other expression.
    Other,
}

/// A value in specifications.
pub ghost enum LitView {
    Str(Seq<char>),
    Bool(bool),
    Other,
}

impl View for Lit {
    type V = LitView;

    open spec fn view(&self) -> LitView {
        match self {
            Lit::Str(s) => LitView::Str(s@),
            Lit::Bool(b) => LitView::Bool(*b),
            Lit::Other => LitView::Other,
        }
    }
}

/// One argument of an attribute: `path = value`.
#[derive(Debug)]
pub struct MetaNameValue {
    pub path: String,
    pub value: Lit,
}

/// An argument in specifications.
pub ghost struct MetaNameValueView {
    pub path: Seq<char>,
    pub value: LitView,
}

impl View for MetaNameValue {
    type V = MetaNameValueView;

    open spec fn view(&self) -> MetaNameValueView {
        MetaNameValueView { path: self.path@, value: self.value@ }
    }
}

/// An attribute: `#[path = value]` or `#[path(arguments)]`.
#[derive(Debug)]
pub struct Attribute {
    pub path: String,
    /// The value of an attribute that is written with `=`.
    pub value: Option<Lit>,
    /// The arguments as a list of `name = value`, where they can be read so.
    pub name_values: Option<Vec<MetaNameValue>>,
    /// The arguments as a list of paths, where they can be read so.
    pub paths: Option<Vec<String>>,
}

/// An attribute in specifications.
pub ghost struct AttributeView {
    pub path: Seq<char>,
    pub value: Option<LitView>,
    pub name_values: Option<Seq<MetaNameValueView>>,
    pub paths: Option<Seq<Seq<char>>>,
}

impl View for Attribute {
    type V = AttributeView;

    open spec fn view(&self) -> AttributeView {
        AttributeView {
            path: self.path@,
            value: match self.value {
                Some(v) => Some(v@),
                None => None,
            },
            name_values: match self.name_values {
                Some(v) => Some(views(v@)),
                None => None,
            },
            paths: match self.paths {
                Some(v) => Some(texts(v@)),
                None => None,
            },
        }
    }
}

impl AttributeView {
    /// The arguments of a `ts` attribute that is a list of `name = value`;
    /// nothing for another attribute.
    pub open spec fn ts_name_values(self) -> Seq<MetaNameValueView> {
        if self.path == "ts"@ && self.name_values is Some {
            self.name_values->0
        } else {
            Seq::empty()
        }
    }

    /// The arguments of a `ts` attribute that is a list of paths; nothing
    /// for another attribute.
    pub open spec fn ts_paths(self) -> Seq<Seq<char>> {
        if self.path == "ts"@ && self.paths is Some {
            self.paths->0
        } else {
            Seq::empty()
        }
    }

    /// The comment that a `doc` attribute holds: its text without the
    /// white space around it.
    pub open spec fn comment(self) -> Option<Seq<char>> {
        if self.path == "doc"@ {
            match self.value {
                Some(LitView::Str(s)) => Some(trimmed(s)),
                _ => None,
            }
        } else {
            None
        }
    }
}

/// The `name = value` arguments of the `ts` attributes, in their order.
pub open spec fn ts_name_values(attrs: Seq<AttributeView>) -> Seq<MetaNameValueView>
    decreases attrs.len(),
{
    if attrs.len() == 0 {
        Seq::empty()
    } else {
        ts_name_values(attrs.drop_last()) + attrs.last().ts_name_values()
    }
}

/// The path arguments of the `ts` attributes, in their order.
pub open spec fn ts_paths(attrs: Seq<AttributeView>) -> Seq<Seq<char>>
    decreases attrs.len(),
{
    if attrs.len() == 0 {
        Seq::empty()
    } else {
        ts_paths(attrs.drop_last()) + attrs.last().ts_paths()
    }
}

/// The comments of the `doc` attributes, in their order.
pub open spec fn comments_of(attrs: Seq<AttributeView>) -> Seq<Seq<char>>
    decreases attrs.len(),
{
    if attrs.len() == 0 {
        Seq::empty()
    } else {
        let rest = comments_of(attrs.drop_last());
        match attrs.last().comment() {
            Some(c) => rest.push(c),
            None => rest,
        }
    }
}

/// The string that a value is, if it is one.
pub fn get_lit_str(lit: &Lit) -> (r: Option<&String>)
    ensures
        match r {
            Some(s) => lit@ == LitView::Str(s@),
            None => !(lit@ is Str),
        },
{
    match lit {
        Lit::Str(s) => Some(s),
        _ => None,
    }
}

/// The truth value that a value is, if it is one.
pub fn get_lit_bool(lit: &Lit) -> (r: Option<bool>)
    ensures
        match r {
            Some(b) => lit@ == LitView::Bool(b),
            None => !(lit@ is Bool),
        },
{
    match lit {
        Lit::Bool(b) => Some(*b),
        _ => None,
    }
}

/// The arguments of a `ts` attribute that is a list of `name = value`.
pub fn get_ts_meta_name_value_items(attr: &Attribute) -> (r: Option<&Vec<MetaNameValue>>)
    ensures
        match r {
            Some(v) => views(v@) == attr@.ts_name_values(),
            None => attr@.ts_name_values() == Seq::<MetaNameValueView>::empty(),
        },
{
    if !same_text(attr.path.as_str(), "ts") {
        return None;
    }
    match &attr.name_values {
        Some(v) => Some(v),
        None => None,
    }
}

/// The arguments of a `ts` attribute that is a list of paths.
pub fn get_ts_meta_path_items(attr: &Attribute) -> (r: Option<&Vec<String>>)
    ensures
        match r {
            Some(v) => texts(v@) == attr@.ts_paths(),
            None => attr@.ts_paths() == Seq::<Seq<char>>::empty(),
        },
{
    if !same_text(attr.path.as_str(), "ts") {
        return None;
    }
    match &attr.paths {
        Some(v) => Some(v),
        None => None,
    }
}

/// The comments of the `doc` attributes: the text of each, without the
/// white space around it.
pub fn parse_comments(attrs: &Vec<Attribute>) -> (r: Vec<String>)
    ensures
        texts(r@) == comments_of(views(attrs@)),
{
    let mut r: Vec<String> = Vec::new();
    let mut i: usize = 0;
    assert(views(attrs@).take(0) =~= Seq::empty());
    assert(texts(r@) =~= Seq::empty());
    while i < attrs.len()
        invariant
            i <= attrs.len(),
            texts(r@) == comments_of(views(attrs@).take(i as int)),
        decreases attrs.len() - i,
    {
        let attr = &attrs[i];
        proof {
            let t = views(attrs@).take(i + 1);
            assert(t.drop_last() =~= views(attrs@).take(i as int));
            assert(t.last() == attr@);
        }
        if same_text(attr.path.as_str(), "doc") {
            match &attr.value {
                Some(Lit::Str(s)) => {
                    let c = trim(s.as_str());
                    proof {
                        lemma_texts_push(r@, c);
                    }
                    r.push(c);
                },
                _ => {},
            }
        }
        i = i + 1;
    }
    assert(views(attrs@).take(attrs.len() as int) =~= views(attrs@));
    r
}

/// What the attributes of a member say.
pub struct FieldAttrs {
    pub skip: bool,
    pub rename: Option<String>,
    pub tag_value: Option<String>,
}

/// What the attributes of a member say, in specifications.
pub ghost struct FieldAttrsView {
    pub skip: bool,
    pub rename: Option<Seq<char>>,
    pub tag_value: Option<Seq<char>>,
}

impl View for FieldAttrs {
    type V = FieldAttrsView;

    open spec fn view(&self) -> FieldAttrsView {
        FieldAttrsView {
            skip: self.skip,
            rename: opt_text(self.rename),
            tag_value: opt_text(self.tag_value),
        }
    }
}

impl FieldAttrsView {
    /// What is said after one more argument. `rename` and `tag_value` count
    /// where their value is a string; `skip` must have a truth value; any
    /// other argument is passed over.
    pub open spec fn with(self, arg: MetaNameValueView) -> Result<FieldAttrsView, SchemaError> {
        if arg.path == "rename"@ {
            match arg.value {
                LitView::Str(s) => Ok(FieldAttrsView { rename: Some(s), ..self }),
                _ => Ok(self),
            }
        } else if arg.path == "skip"@ {
            match arg.value {
                LitView::Bool(b) => Ok(FieldAttrsView { skip: b, ..self }),
                _ => Err(SchemaError::ExpectedBool),
            }
        } else if arg.path == "tag_value"@ {
            match arg.value {
                LitView::Str(s) => Ok(FieldAttrsView { tag_value: Some(s), ..self }),
                _ => Ok(self),
            }
        } else {
            Ok(self)
        }
    }
}

/// What the arguments say of a member: each is taken in its turn, a later
/// one replaces an earlier one of the same name, and the first fault ends
/// the reading.
pub open spec fn field_attrs(args: Seq<MetaNameValueView>) -> Result<FieldAttrsView, SchemaError>
    decreases args.len(),
{
    if args.len() == 0 {
        Ok(FieldAttrsView { skip: false, rename: None, tag_value: None })
    } else {
        match field_attrs(args.drop_last()) {
            Ok(a) => a.with(args.last()),
            Err(e) => Err(e),
        }
    }
}

/// The arguments of `a` and then those of `b` say what those of `b` add to
/// what those of `a` say.
pub proof fn lemma_field_attrs_step(a: Seq<MetaNameValueView>, x: MetaNameValueView)
    ensures
        field_attrs(a.push(x)) == match field_attrs(a) {
            Ok(f) => f.with(x),
            Err(e) => Err(e),
        },
{
    assert(a.push(x).drop_last() =~= a);
}

/// What has been read of the attributes of a member: a fault, or what they say.
pub open spec fn field_outcome(
    fault: Option<SchemaError>,
    skip: bool,
    rename: Option<String>,
    tag_value: Option<String>,
) -> Result<FieldAttrsView, SchemaError> {
    match fault {
        Some(e) => Err(e),
        None => Ok(FieldAttrsView { skip, rename: opt_text(rename), tag_value: opt_text(tag_value) }),
    }
}

/// What the attributes of a member say.
pub fn parse_attrs(attrs: &Vec<Attribute>) -> (r: Result<FieldAttrs, SchemaError>)
    ensures
        match r {
            Ok(a) => field_attrs(ts_name_values(views(attrs@))) == Ok::<FieldAttrsView, SchemaError>(
                a@,
            ),
            Err(e) => field_attrs(ts_name_values(views(attrs@))) == Err::<
                FieldAttrsView,
                SchemaError,
            >(e),
        },
{
    let mut fault: Option<SchemaError> = None;
    let mut skip = false;
    let mut rename: Option<String> = None;
    let mut tag_value: Option<String> = None;
    let mut i: usize = 0;
    assert(views(attrs@).take(0) =~= Seq::empty());
    while i < attrs.len()
        invariant
            i <= attrs.len(),
            field_attrs(ts_name_values(views(attrs@).take(i as int))) == field_outcome(
                fault,
                skip,
                rename,
                tag_value,
            ),
        decreases attrs.len() - i,
    {
        let attr = &attrs[i];
        let ghost done = ts_name_values(views(attrs@).take(i as int));
        proof {
            let t = views(attrs@).take(i + 1);
            assert(t.drop_last() =~= views(attrs@).take(i as int));
            assert(t.last() == attr@);
        }
        match get_ts_meta_name_value_items(attr) {
            Some(items) => {
                let ghost all = views(items@);
                let mut k: usize = 0;
                assert(done + all.take(0) =~= done);
                while k < items.len()
                    invariant
                        k <= items.len(),
                        all == views(items@),
                        field_attrs(done + all.take(k as int)) == field_outcome(
                            fault,
                            skip,
                            rename,
                            tag_value,
                        ),
                    decreases items.len() - k,
                {
                    let m = &items[k];
                    proof {
                        assert(all[k as int] == m@);
                        assert(done + all.take(k + 1) =~= (done + all.take(k as int)).push(m@));
                        lemma_field_attrs_step(done + all.take(k as int), m@);
                    }
                    if fault.is_none() {
                        if same_text(m.path.as_str(), "rename") {
                            match get_lit_str(&m.value) {
                                Some(s) => {
                                    rename = Some(s.clone());
                                },
                                None => {},
                            }
                        } else if same_text(m.path.as_str(), "skip") {
                            match get_lit_bool(&m.value) {
                                Some(b) => {
                                    skip = b;
                                },
                                None => {
                                    fault = Some(SchemaError::ExpectedBool);
                                },
                            }
                        } else if same_text(m.path.as_str(), "tag_value") {
                            match get_lit_str(&m.value) {
                                Some(s) => {
                                    tag_value = Some(s.clone());
                                },
                                None => {},
                            }
                        }
                    }
                    k = k + 1;
                }
                assert(all.take(items.len() as int) =~= all);
            },
            None => {
                assert(done + Seq::<MetaNameValueView>::empty() =~= done);
            },
        }
        i = i + 1;
    }
    assert(views(attrs@).take(attrs.len() as int) =~= views(attrs@));
    match fault {
        Some(e) => Err(e),
        None => Ok(FieldAttrs { skip, rename, tag_value }),
    }
}

} // verus!
