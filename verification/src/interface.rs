//! Interfaces of functions as they are written: the public methods of an
//! implementation block, with their names in snake case.

use vstd::prelude::*;
use crate::case::{camel_from_snake, convert_camel_from_snake};
use crate::container::opt_text;
use crate::descriptor::{
    lemma_views_push, named, views, ApiDescriptor, ApiView, MethodDescriptor, MethodView,
    SchemaError,
};
use crate::meta::{
    comments_of, get_lit_str, parse_comments, Attribute, AttributeView, LitView, MetaNameValue,
    MetaNameValueView,
};
use crate::scalar::TypeKey;
use crate::text::same_text;

verus! {

/// What is said about an interface of functions where it is declared.
pub struct TsInterfaceArgs {
    /// The file that the interface is written to.
    pub file_name: String,
    /// The name of the interface, where it is not the name of the type.
    pub ident: Option<String>,
}

/// What is said about an interface in specifications.
pub ghost struct TsInterfaceArgsView {
    pub file_name: Seq<char>,
    pub ident: Option<Seq<char>>,
}

impl View for TsInterfaceArgs {
    type V = TsInterfaceArgsView;

    open spec fn view(&self) -> TsInterfaceArgsView {
        TsInterfaceArgsView { file_name: self.file_name@, ident: opt_text(self.ident) }
    }
}

/// What has been read of the arguments of an interface: the file and the
/// name, as far as they were given.
pub ghost struct ReadArgs {
    pub file_name: Option<Seq<char>>,
    pub ident: Option<Seq<char>>,
}

impl ReadArgs {
    /// What is read after one more argument: its value must be a string,
    /// and its name `file_name` or `ident`.
    pub open spec fn with(self, arg: MetaNameValueView) -> Result<ReadArgs, SchemaError> {
        match arg.value {
            LitView::Str(s) => if arg.path == "file_name"@ {
                Ok(ReadArgs { file_name: Some(s), ..self })
            } else if arg.path == "ident"@ {
                Ok(ReadArgs { ident: Some(s), ..self })
            } else {
                Err(SchemaError::UnexpectedAttribute)
            },
            _ => Err(SchemaError::ExpectedString),
        }
    }
}

/// What the arguments of an interface say, one after the other; the first
/// fault ends the reading.
pub open spec fn read_args(args: Seq<MetaNameValueView>) -> Result<ReadArgs, SchemaError>
    decreases args.len(),
{
    if args.len() == 0 {
        Ok(ReadArgs { file_name: None, ident: None })
    } else {
        match read_args(args.drop_last()) {
            Ok(a) => a.with(args.last()),
            Err(e) => Err(e),
        }
    }
}

/// What the arguments of an interface say; an interface without a file is refused.
pub open spec fn interface_args(args: Seq<MetaNameValueView>) -> Result<
    TsInterfaceArgsView,
    SchemaError,
> {
    match read_args(args) {
        Ok(a) => match a.file_name {
            Some(file_name) => Ok(TsInterfaceArgsView { file_name, ident: a.ident }),
            None => Err(SchemaError::MissingFileName),
        },
        Err(e) => Err(e),
    }
}

impl TsInterfaceArgs {
    /// What the arguments `file_name = "..."` and `ident = "..."` say.
    pub fn parse(args: &Vec<MetaNameValue>) -> (r: Result<TsInterfaceArgs, SchemaError>)
        ensures
            match r {
                Ok(a) => interface_args(views(args@)) == Ok::<TsInterfaceArgsView, SchemaError>(a@),
                Err(e) => interface_args(views(args@)) == Err::<TsInterfaceArgsView, SchemaError>(e),
            },
    {
        let mut fault: Option<SchemaError> = None;
        let mut file_name: Option<String> = None;
        let mut ident: Option<String> = None;
        let mut i: usize = 0;
        assert(views(args@).take(0) =~= Seq::empty());
        while i < args.len()
            invariant
                i <= args.len(),
                read_args(views(args@).take(i as int)) == match fault {
                    Some(e) => Err::<ReadArgs, SchemaError>(e),
                    None => Ok(ReadArgs { file_name: opt_text(file_name), ident: opt_text(ident) }),
                },
            decreases args.len() - i,
        {
            let m = &args[i];
            proof {
                let t = views(args@).take(i + 1);
                assert(t.drop_last() =~= views(args@).take(i as int));
                assert(t.last() == m@);
            }
            if fault.is_none() {
                match get_lit_str(&m.value) {
                    Some(s) => {
                        if same_text(m.path.as_str(), "file_name") {
                            file_name = Some(s.clone());
                        } else if same_text(m.path.as_str(), "ident") {
                            ident = Some(s.clone());
                        } else {
                            fault = Some(SchemaError::UnexpectedAttribute);
                        }
                    },
                    None => {
                        fault = Some(SchemaError::ExpectedString);
                    },
                }
            }
            i = i + 1;
        }
        assert(views(args@).take(args.len() as int) =~= views(args@));
        match fault {
            Some(e) => Err(e),
            None => match file_name {
                Some(file_name) => Ok(TsInterfaceArgs { file_name, ident }),
                None => Err(SchemaError::MissingFileName),
            },
        }
    }
}

/// A method, as it is written.
pub struct MethodDecl {
    pub ident: String,
    /// Whether the method is public.
    pub public: bool,
    pub attrs: Vec<Attribute>,
    /// The parameters behind the receiver: the name of each, where it is a
    /// name, and the identity of its type.
    pub params: Vec<(Option<String>, TypeKey)>,
    /// The identity of the type of the result, if there is one.
    pub return_type: Option<TypeKey>,
}

/// The names of parameters with the identities of their types.
pub open spec fn params_view(params: Seq<(Option<String>, TypeKey)>) -> Seq<
    (Option<Seq<char>>, TypeKey),
> {
    Seq::new(params.len(), |i: int| (opt_text(params[i].0), params[i].1))
}

/// A written method in specifications.
pub ghost struct MethodDeclView {
    pub ident: Seq<char>,
    pub public: bool,
    pub attrs: Seq<AttributeView>,
    pub params: Seq<(Option<Seq<char>>, TypeKey)>,
    pub return_type: Option<TypeKey>,
}

impl View for MethodDecl {
    type V = MethodDeclView;

    open spec fn view(&self) -> MethodDeclView {
        MethodDeclView {
            ident: self.ident@,
            public: self.public,
            attrs: views(self.attrs@),
            params: params_view(self.params@),
            return_type: self.return_type,
        }
    }
}

/// An implementation block, as it is written.
pub struct ImplDecl {
    /// Whether the block implements a trait.
    pub of_trait: bool,
    /// The name of the type that the methods belong to, where the type has a name.
    pub self_ident: Option<String>,
    pub attrs: Vec<Attribute>,
    pub methods: Vec<MethodDecl>,
}

/// A written implementation block in specifications.
pub ghost struct ImplDeclView {
    pub of_trait: bool,
    pub self_ident: Option<Seq<char>>,
    pub attrs: Seq<AttributeView>,
    pub methods: Seq<MethodDeclView>,
}

impl View for ImplDecl {
    type V = ImplDeclView;

    open spec fn view(&self) -> ImplDeclView {
        ImplDeclView {
            of_trait: self.of_trait,
            self_ident: opt_text(self.self_ident),
            attrs: views(self.attrs@),
            methods: views(self.methods@),
        }
    }
}

/// The parameters as they are written in the interface: their names in
/// camel case. A parameter that is not a name is a fault.
pub open spec fn renamed_params(params: Seq<(Option<Seq<char>>, TypeKey)>) -> Result<
    Seq<(Seq<char>, TypeKey)>,
    SchemaError,
>
    decreases params.len(),
{
    if params.len() == 0 {
        Ok(Seq::empty())
    } else {
        match renamed_params(params.drop_last()) {
            Ok(done) => match params.last().0 {
                Some(name) => Ok(done.push((camel_from_snake(name), params.last().1))),
                None => Err(SchemaError::UnsupportedParameter),
            },
            Err(e) => Err(e),
        }
    }
}

impl MethodDeclView {
    /// The method as it is written in the interface: its name and the
    /// names of its parameters in camel case.
    pub open spec fn method(self) -> Result<MethodView, SchemaError> {
        match renamed_params(self.params) {
            Ok(params) => Ok(
                MethodView {
                    name: camel_from_snake(self.ident),
                    params,
                    comment: comments_of(self.attrs),
                    return_type: self.return_type,
                },
            ),
            Err(e) => Err(e),
        }
    }
}

/// The public methods among `methods`, in their order, as they are written
/// in the interface, or the first fault among them.
pub open spec fn public_methods(methods: Seq<MethodDeclView>) -> Result<
    Seq<MethodView>,
    SchemaError,
>
    decreases methods.len(),
{
    if methods.len() == 0 {
        Ok(Seq::empty())
    } else {
        match public_methods(methods.drop_last()) {
            Ok(done) => if methods.last().public {
                match methods.last().method() {
                    Ok(m) => Ok(done.push(m)),
                    Err(e) => Err(e),
                }
            } else {
                Ok(done)
            },
            Err(e) => Err(e),
        }
    }
}

/// The interface that an implementation block declares: it has the given
/// name, or that of the type, and the public methods of the block. The
/// block of a trait is refused, and so is the block of a type without a
/// name; then the first fault among the methods counts.
pub open spec fn api_of(args: TsInterfaceArgsView, item: ImplDeclView) -> Result<
    ApiView,
    SchemaError,
> {
    if item.of_trait {
        Err(SchemaError::TraitImpl)
    } else {
        match item.self_ident {
            None => Err(SchemaError::UnsupportedSelfType),
            Some(self_ident) => match public_methods(item.methods) {
                Ok(methods) => Ok(
                    ApiView {
                        name: match args.ident {
                            Some(name) => name,
                            None => self_ident,
                        },
                        file_name: args.file_name,
                        methods,
                        comment: comments_of(item.attrs),
                        async_func: false,
                    },
                ),
                Err(e) => Err(e),
            },
        }
    }
}

/// The method as it is written in an interface.
pub fn expand_method(func: MethodDecl) -> (r: Result<MethodDescriptor, SchemaError>)
    ensures
        match r {
            Ok(m) => func@.method() == Ok::<MethodView, SchemaError>(m@),
            Err(e) => func@.method() == Err::<MethodView, SchemaError>(e),
        },
{
    let comment = parse_comments(&func.attrs);
    let MethodDecl { ident, public: _, attrs: _, params, return_type } = func;
    let name = convert_camel_from_snake(ident.as_str());
    let mut fault: Option<SchemaError> = None;
    let mut renamed: Vec<(String, TypeKey)> = Vec::new();
    let ghost all = params_view(params@);
    assert(all.take(0) =~= Seq::empty());
    assert(named(renamed@) =~= Seq::empty());
    for p in it: params
        invariant
            it.seq() == params@,
            all == params_view(params@),
            renamed_params(all.take(it.index() as int)) == match fault {
                Some(e) => Err::<Seq<(Seq<char>, TypeKey)>, SchemaError>(e),
                None => Ok(named(renamed@)),
            },
    {
        let ghost done = named(renamed@);
        proof {
            let t = all.take(it.index() + 1);
            assert(t.drop_last() =~= all.take(it.index() as int));
            assert(t.last() == (opt_text(p.0), p.1));
        }
        if fault.is_none() {
            let (n, t) = p;
            match n {
                Some(n) => {
                    let q = (convert_camel_from_snake(n.as_str()), t);
                    proof {
                        assert(named(renamed@.push(q)) =~= done.push((q.0@, q.1)));
                    }
                    renamed.push(q);
                },
                None => {
                    fault = Some(SchemaError::UnsupportedParameter);
                },
            }
        }
    }
    assert(all.take(params@.len() as int) =~= all);
    match fault {
        Some(e) => Err(e),
        None => Ok(MethodDescriptor { name, params: renamed, comment, return_type }),
    }
}

/// The interface of functions that an implementation block declares.
pub fn ts_interface(args: TsInterfaceArgs, item: ImplDecl) -> (r: Result<ApiDescriptor, SchemaError>)
    ensures
        match r {
            Ok(a) => api_of(args@, item@) == Ok::<ApiView, SchemaError>(a@),
            Err(e) => api_of(args@, item@) == Err::<ApiView, SchemaError>(e),
        },
{
    if item.of_trait {
        return Err(SchemaError::TraitImpl);
    }
    let comment = parse_comments(&item.attrs);
    let TsInterfaceArgs { file_name, ident } = args;
    let ImplDecl { of_trait: _, self_ident, attrs: _, methods } = item;
    let self_ident = match self_ident {
        Some(name) => name,
        None => {
            return Err(SchemaError::UnsupportedSelfType);
        },
    };
    let name = match ident {
        Some(name) => name,
        None => self_ident,
    };
    let mut fault: Option<SchemaError> = None;
    let mut kept: Vec<MethodDescriptor> = Vec::new();
    assert(views(methods@).take(0) =~= Seq::empty());
    assert(views(kept@) =~= Seq::empty());
    for func in it: methods
        invariant
            it.seq() == methods@,
            public_methods(views(methods@).take(it.index() as int)) == match fault {
                Some(e) => Err::<Seq<MethodView>, SchemaError>(e),
                None => Ok(views(kept@)),
            },
    {
        proof {
            let t = views(methods@).take(it.index() + 1);
            assert(t.drop_last() =~= views(methods@).take(it.index() as int));
            assert(t.last() == func@);
        }
        if fault.is_none() && func.public {
            match expand_method(func) {
                Ok(m) => {
                    proof {
                        lemma_views_push(kept@, m);
                    }
                    kept.push(m);
                },
                Err(e) => {
                    fault = Some(e);
                },
            }
        }
    }
    assert(views(methods@).take(methods@.len() as int) =~= views(methods@));
    match fault {
        Some(e) => Err(e),
        None => Ok(
            ApiDescriptor { name, file_name, methods: kept, comment, async_func: false },
        ),
    }
}

} // verus!
