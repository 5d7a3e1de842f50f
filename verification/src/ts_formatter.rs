//! A structured writer of TypeScript source text: imports are collected as a
//! set and written in order, lines are kept in the order in which they were
//! added, and the indentation follows the open blocks.

use vstd::prelude::*;
use crate::order::{ascending, in_order, lemma_in_order_is};
use crate::text::{
    indent_string, indentation, join_lines, join_lines_exec, join_with, join_with_exec,
    lemma_pair_lt_total, lemma_pair_lt_transitive, lemma_pair_order_total, lemma_texts_push,
    pair_before, pair_lt, pair_order, same_text, texts,
};

verus! {

/// An import: the imported name and the module file, without its extension.
pub type Import = (Seq<char>, Seq<char>);

/// A parameter of a method: its name and the name of its type.
pub type Param = (Seq<char>, Seq<char>);

/// A file: its name and its text.
pub type File = (Seq<char>, Seq<char>);

/// The views of a sequence of pairs of strings.
pub open spec fn pairs(v: Seq<(String, String)>) -> Seq<(Seq<char>, Seq<char>)> {
    Seq::new(v.len(), |i: int| (v[i].0@, v[i].1@))
}

/// The line that imports `p.0` from the module `p.1`.
pub open spec fn import_line(p: Import) -> Seq<char> {
    "import { "@ + p.0 + " } from './"@ + p.1 + "'"@
}

/// The import lines of a sequence of imports.
pub open spec fn import_lines(q: Seq<Import>) -> Seq<Seq<char>> {
    Seq::new(q.len(), |i: int| import_line(q[i]))
}

/// The text of a file: the imports in ascending order by name and module,
/// one per line, then an empty line if there is any import, then the lines.
pub open spec fn file_text(imports: Set<Import>, lines: Seq<Seq<char>>) -> Seq<char> {
    let block = import_lines(in_order(imports, pair_order()));
    if block.len() > 0 {
        join_lines(block) + seq!['\n'] + join_lines(lines)
    } else {
        join_lines(lines)
    }
}

/// One comment line for each comment, at the indentation `depth`.
pub open spec fn comment_lines(comments: Seq<Seq<char>>, depth: nat) -> Seq<Seq<char>> {
    Seq::new(comments.len(), |i: int| indentation(depth) + "// "@ + comments[i])
}

/// The declaration of a field: `name: ty`, or `name?: ty` for an optional one.
pub open spec fn field_text(name: Seq<char>, ty: Seq<char>, optional: bool) -> Seq<char> {
    if optional {
        name + "?: "@ + ty
    } else {
        name + ": "@ + ty
    }
}

/// The text of one parameter: `name: ty`.
pub open spec fn param_text(p: Param) -> Seq<char> {
    p.0 + ": "@ + p.1
}

/// The parameter list of a method: the parameters with `, ` between them.
pub open spec fn params_text(params: Seq<Param>) -> Seq<char> {
    join_with(Seq::new(params.len(), |i: int| param_text(params[i])), ", "@)
}

/// The return type of a method: the given one, or `void`.
pub open spec fn return_text(ret: Option<Seq<char>>) -> Seq<char> {
    match ret {
        Some(r) => r,
        None => "void"@,
    }
}

/// The signature of a method in an interface.
pub open spec fn method_text(name: Seq<char>, params: Seq<Param>, ret: Option<Seq<char>>) -> Seq<
    char,
> {
    name + "("@ + params_text(params) + "): "@ + return_text(ret) + ";"@
}

/// The signature of a method whose result comes as a promise.
pub open spec fn async_method_text(
    name: Seq<char>,
    params: Seq<Param>,
    ret: Option<Seq<char>>,
) -> Seq<char> {
    name + "("@ + params_text(params) + "): Promise<"@ + return_text(ret) + ">;"@
}

/// The lines of the variants of a union, each behind `| `, one level deeper than `depth`.
pub open spec fn variant_lines(variants: Seq<Seq<char>>, depth: nat) -> Seq<Seq<char>> {
    Seq::new(variants.len(), |i: int| indentation(depth + 1) + "| "@ + variants[i])
}

/// What a formatter holds.
pub ghost struct FormatterView {
    /// The imports asked for so far.
    pub imports: Set<Import>,
    /// The lines written so far.
    pub lines: Seq<Seq<char>>,
    /// The number of open blocks.
    pub indent: nat,
    /// Whether a union is open.
    pub enum_mode: bool,
    /// The variants of the open union.
    pub enum_variants: Seq<Seq<char>>,
}

impl FormatterView {
    /// The view after one more line, written at the current indentation.
    pub open spec fn write(self, content: Seq<char>) -> FormatterView {
        FormatterView { lines: self.lines.push(indentation(self.indent) + content), ..self }
    }

    /// The view after more lines, taken as they are.
    pub open spec fn extend(self, more: Seq<Seq<char>>) -> FormatterView {
        FormatterView { lines: self.lines + more, ..self }
    }

    /// The view after a block was opened by the line `content`.
    pub open spec fn open_block(self, content: Seq<char>) -> FormatterView {
        FormatterView { indent: self.indent + 1, ..self.write(content) }
    }

    /// The view after the innermost block, if any, was closed by `}`.
    pub open spec fn close_block(self) -> FormatterView {
        let indent = if self.indent > 0 {
            (self.indent - 1) as nat
        } else {
            0
        };
        FormatterView { indent, ..self }.write("}"@)
    }
}

/// A writer of one TypeScript file.
pub struct TsFormatter {
    imports: Vec<(String, String)>,
    lines: Vec<String>,
    indent: usize,
    enum_mode: bool,
    enum_variants: Vec<String>,
}

impl View for TsFormatter {
    type V = FormatterView;

    closed spec fn view(&self) -> FormatterView {
        FormatterView {
            imports: pairs(self.imports@).to_set(),
            lines: texts(self.lines@),
            indent: self.indent as nat,
            enum_mode: self.enum_mode,
            enum_variants: texts(self.enum_variants@),
        }
    }
}

/// Puts the import of `name` from `file` into the ascending sequence `v`,
/// unless it is there already.
fn insert_pair(v: &mut Vec<(String, String)>, name: &str, file: &str)
    requires
        ascending(pairs(old(v)@), pair_order()),
    ensures
        ascending(pairs(final(v)@), pair_order()),
        pairs(final(v)@).to_set() == pairs(old(v)@).to_set().insert((name@, file@)),
{
    let ghost p: Import = (name@, file@);
    let ghost q = pairs(v@);
    let mut i: usize = 0;
    let mut go: bool = true;
    while go && i < v.len()
        invariant
            i <= v.len(),
            v@ == old(v)@,
            q == pairs(v@),
            p == (name@, file@),
            forall|j: int| 0 <= j < i ==> pair_lt(#[trigger] q[j], p),
            !go ==> i < v.len() && !pair_lt(q[i as int], p),
        decreases v.len() - i + (if go { 1int } else { 0int }),
    {
        let before = pair_before(v[i].0.as_str(), v[i].1.as_str(), name, file);
        if before {
            i = i + 1;
        } else {
            go = false;
        }
    }
    if i < v.len() && same_text(v[i].0.as_str(), name) && same_text(v[i].1.as_str(), file) {
        proof {
            assert(q[i as int] == p);
            assert(q.to_set().contains(p));
            assert(q.to_set().insert(p) =~= q.to_set());
        }
        return ;
    }
    v.insert(i, (String::from_str(name), String::from_str(file)));
    proof {
        let r = pairs(v@);
        assert(r =~= q.insert(i as int, p));
        if i < q.len() {
            assert(q[i as int] != p);
            lemma_pair_lt_total(q[i as int], p);
            assert(pair_lt(p, q[i as int]));
        }
        assert forall|a: int, b: int| 0 <= a < b < r.len() implies #[trigger] pair_order()(
            r[a],
            r[b],
        ) by {
            if b < i {
                assert(pair_order()(q[a], q[b]));
            } else if b == i {
                assert(pair_lt(q[a], p));
            } else if a < i {
                assert(pair_order()(q[a], q[b - 1]));
            } else if a == i {
                if b - 1 > i {
                    assert(pair_order()(q[i as int], q[b - 1]));
                    lemma_pair_lt_transitive(p, q[i as int], q[b - 1]);
                }
            } else {
                assert(pair_order()(q[a - 1], q[b - 1]));
            }
        }
        assert forall|x: Import| r.to_set().contains(x) <==> q.to_set().insert(p).contains(x) by {
            if r.to_set().contains(x) {
                let k = choose|k: int| 0 <= k < r.len() && r[k] == x;
                if k < i {
                    assert(q[k] == x);
                } else if k > i {
                    assert(q[k - 1] == x);
                }
            }
            if q.to_set().contains(x) {
                let k = choose|k: int| 0 <= k < q.len() && q[k] == x;
                if k < i {
                    assert(r[k] == x);
                } else {
                    assert(r[k + 1] == x);
                }
            }
            if x == p {
                assert(r[i as int] == x);
            }
        }
        assert(r.to_set() =~= q.to_set().insert(p));
    }
}

/// The pairs of `v` in ascending order, each once.
fn sort_pairs(v: &Vec<(String, String)>) -> (r: Vec<(String, String)>)
    ensures
        ascending(pairs(r@), pair_order()),
        pairs(r@).to_set() == pairs(v@).to_set(),
{
    let mut r: Vec<(String, String)> = Vec::new();
    let mut i: usize = 0;
    assert(pairs(r@).to_set() =~= pairs(v@).take(0).to_set());
    while i < v.len()
        invariant
            i <= v.len(),
            ascending(pairs(r@), pair_order()),
            pairs(r@).to_set() == pairs(v@).take(i as int).to_set(),
        decreases v.len() - i,
    {
        insert_pair(&mut r, v[i].0.as_str(), v[i].1.as_str());
        proof {
            let q = pairs(v@);
            let a = q.take(i as int);
            let b = q.take(i + 1);
            assert forall|x: Import| b.to_set().contains(x) <==> a.to_set().insert(
                q[i as int],
            ).contains(x) by {
                if b.to_set().contains(x) {
                    let k = choose|k: int| 0 <= k < b.len() && b[k] == x;
                    if k < i {
                        assert(a[k] == x);
                    }
                }
                if a.to_set().contains(x) {
                    let k = choose|k: int| 0 <= k < a.len() && a[k] == x;
                    assert(b[k] == x);
                }
                if x == q[i as int] {
                    assert(b[i as int] == x);
                }
            }
            assert(b.to_set() =~= a.to_set().insert(q[i as int]));
        }
        i = i + 1;
    }
    assert(pairs(v@).take(v.len() as int) =~= pairs(v@));
    r
}

impl FormatterView {
    /// The view of a formatter that holds nothing.
    pub open spec fn empty() -> FormatterView {
        FormatterView {
            imports: Set::empty(),
            lines: Seq::empty(),
            indent: 0,
            enum_mode: false,
            enum_variants: Seq::empty(),
        }
    }
}

impl Default for TsFormatter {
    /// A formatter that holds nothing.
    fn default() -> (r: Self)
        ensures
            r@ == FormatterView::empty(),
    {
        TsFormatter::new()
    }
}

impl TsFormatter {
    /// A formatter that holds nothing.
    pub fn new() -> (r: Self)
        ensures
            r@ == FormatterView::empty(),
    {
        let r = TsFormatter {
            imports: Vec::new(),
            lines: Vec::new(),
            indent: 0,
            enum_mode: false,
            enum_variants: Vec::new(),
        };
        proof {
            assert(pairs(r.imports@).to_set() =~= Set::empty());
            assert(texts(r.lines@) =~= Seq::empty());
            assert(texts(r.enum_variants@) =~= Seq::empty());
        }
        r
    }

    /// The number of open blocks.
    pub fn indent(&self) -> (r: usize)
        ensures
            r == self@.indent,
    {
        self.indent
    }

    /// Asks for the import of `ts_name` from the module `file_name_no_ext`.
    /// Asking twice for the same import changes nothing.
    pub fn add_import(&mut self, ts_name: &str, file_name_no_ext: &str)
        ensures
            final(self)@ == (FormatterView {
                imports: old(self)@.imports.insert((ts_name@, file_name_no_ext@)),
                ..old(self)@
            }),
    {
        let p = (String::from_str(ts_name), String::from_str(file_name_no_ext));
        proof {
            let q = pairs(self.imports@);
            assert(pairs(self.imports@.push(p)) =~= q.push((ts_name@, file_name_no_ext@)));
            assert(q.push((ts_name@, file_name_no_ext@)).to_set() =~= q.to_set().insert(
                (ts_name@, file_name_no_ext@),
            )) by {
                let r = q.push((ts_name@, file_name_no_ext@));
                assert forall|x: Import| r.to_set().contains(x) <==> q.to_set().insert(
                    (ts_name@, file_name_no_ext@),
                ).contains(x) by {
                    if r.to_set().contains(x) {
                        let k = choose|k: int| 0 <= k < r.len() && r[k] == x;
                        if k < q.len() {
                            assert(q[k] == x);
                        }
                    }
                    if q.to_set().contains(x) {
                        let k = choose|k: int| 0 <= k < q.len() && q[k] == x;
                        assert(r[k] == x);
                    }
                    if x == (ts_name@, file_name_no_ext@) {
                        assert(r[q.len() as int] == x);
                    }
                }
            }
        }
        self.imports.push(p);
    }

    /// Adds an empty line.
    pub fn add_blank_line(&mut self)
        ensures
            final(self)@ == old(self)@.extend(seq![Seq::empty()]),
    {
        let s = String::new();
        proof {
            lemma_texts_push(self.lines@, s);
            assert(texts(self.lines@).push(s@) =~= texts(self.lines@) + seq![Seq::<char>::empty()]);
        }
        self.lines.push(s);
    }

    /// Writes one comment line for each of `comments`.
    pub fn add_comment(&mut self, comments: &[String])
        ensures
            final(self)@ == old(self)@.extend(comment_lines(texts(comments@), old(self)@.indent)),
    {
        let mut i: usize = 0;
        assert(old(self)@.extend(comment_lines(texts(comments@), old(self)@.indent).take(0))
            =~= old(self)@);
        while i < comments.len()
            invariant
                i <= comments.len(),
                self@ == old(self)@.extend(
                    comment_lines(texts(comments@), old(self)@.indent).take(i as int),
                ),
            decreases comments.len() - i,
        {
            let mut content = String::from_str("// ");
            content.append(comments[i].as_str());
            let ghost before = self@;
            self.write_line(content.as_str());
            proof {
                let all = comment_lines(texts(comments@), old(self)@.indent);
                assert(all[i as int] == indentation(before.indent) + content@);
                assert(all.take(i + 1) =~= all.take(i as int).push(all[i as int]));
                assert(self@.lines =~= old(self)@.lines + all.take(i + 1));
            }
            i = i + 1;
        }
        assert(comment_lines(texts(comments@), old(self)@.indent).take(comments.len() as int)
            =~= comment_lines(texts(comments@), old(self)@.indent));
    }

    /// Opens an interface: `export interface`, its name and its generics.
    pub fn start_interface(&mut self, name: &str, generics: &str)
        requires
            old(self)@.indent < usize::MAX,
        ensures
            final(self)@ == old(self)@.open_block(
                "export interface "@ + name@ + generics@ + " {"@,
            ),
    {
        let mut content = String::from_str("export interface ");
        content.append(name);
        content.append(generics);
        content.append(" {");
        self.open(content.as_str());
    }

    /// Writes the comments of a field and then its declaration.
    pub fn add_field(&mut self, name: &str, ty: &str, optional: bool, comments: &[String])
        ensures
            final(self)@ == old(self)@.extend(
                comment_lines(texts(comments@), old(self)@.indent),
            ).write(field_text(name@, ty@, optional)),
    {
        self.add_comment(comments);
        let mut content = String::from_str(name);
        if optional {
            content.append("?: ");
        } else {
            content.append(": ");
        }
        content.append(ty);
        self.write_line(content.as_str());
    }

    /// Writes the signature of a method: its name, its parameters and the
    /// type of its result, `void` where it has none.
    pub fn add_method(&mut self, name: &str, params: Vec<(String, String)>, ret: Option<String>)
        ensures
            final(self)@ == old(self)@.write(
                method_text(
                    name@,
                    pairs(params@),
                    match ret {
                        Some(r) => Some(r@),
                        None => None,
                    },
                ),
            ),
    {
        let mut content = String::from_str(name);
        content.append("(");
        let list = params_string(&params);
        content.append(list.as_str());
        content.append("): ");
        match ret {
            Some(r) => {
                content.append(r.as_str());
            },
            None => {
                content.append("void");
            },
        }
        content.append(";");
        self.write_line(content.as_str());
    }

    /// Writes the signature of a method whose result comes as a promise.
    pub fn add_async_method(
        &mut self,
        name: &str,
        params: Vec<(String, String)>,
        ret: Option<String>,
    )
        ensures
            final(self)@ == old(self)@.write(
                async_method_text(
                    name@,
                    pairs(params@),
                    match ret {
                        Some(r) => Some(r@),
                        None => None,
                    },
                ),
            ),
    {
        let mut content = String::from_str(name);
        content.append("(");
        let list = params_string(&params);
        content.append(list.as_str());
        content.append("): Promise<");
        match ret {
            Some(r) => {
                content.append(r.as_str());
            },
            None => {
                content.append("void");
            },
        }
        content.append(">;");
        self.write_line(content.as_str());
    }

    /// Closes an interface.
    pub fn end_interface(&mut self)
        ensures
            final(self)@ == old(self)@.close_block(),
    {
        self.close();
    }

    /// Opens a class: `export class` and its name.
    pub fn start_class(&mut self, name: &str)
        requires
            old(self)@.indent < usize::MAX,
        ensures
            final(self)@ == old(self)@.open_block("export class "@ + name@ + " {"@),
    {
        let mut content = String::from_str("export class ");
        content.append(name);
        content.append(" {");
        self.open(content.as_str());
    }

    /// Writes the declaration of a field of a class, as given.
    pub fn add_class_field(&mut self, decl: &str)
        ensures
            final(self)@ == old(self)@.write(decl@),
    {
        self.write_line(decl);
    }

    /// Opens a method: its signature, as given.
    pub fn start_method(&mut self, signature: &str)
        requires
            old(self)@.indent < usize::MAX,
        ensures
            final(self)@ == old(self)@.open_block(signature@ + " {"@),
    {
        let mut content = String::from_str(signature);
        content.append(" {");
        self.open(content.as_str());
    }

    /// Writes one line of the body of a method.
    pub fn add_method_line(&mut self, line: &str)
        ensures
            final(self)@ == old(self)@.write(line@),
    {
        self.write_line(line);
    }

    /// Closes a method.
    pub fn end_method(&mut self)
        ensures
            final(self)@ == old(self)@.close_block(),
    {
        self.close();
    }

    /// Closes a class.
    pub fn end_class(&mut self)
        ensures
            final(self)@ == old(self)@.close_block(),
    {
        self.close();
    }

    /// Opens a union: `export type`, its name and `=`. The variants of a
    /// union that was left open are dropped.
    pub fn start_enum(&mut self, name: &str)
        ensures
            final(self)@ == (FormatterView {
                enum_mode: true,
                enum_variants: Seq::empty(),
                ..old(self)@.write("export type "@ + name@ + " ="@)
            }),
    {
        self.enum_mode = true;
        self.enum_variants = Vec::new();
        assert(texts(self.enum_variants@) =~= Seq::empty());
        let mut content = String::from_str("export type ");
        content.append(name);
        content.append(" =");
        self.write_line(content.as_str());
    }

    /// Keeps one variant of the open union; without an open union nothing changes.
    pub fn add_enum_variant_raw(&mut self, raw: &str)
        ensures
            final(self)@ == if old(self)@.enum_mode {
                FormatterView { enum_variants: old(self)@.enum_variants.push(raw@), ..old(self)@ }
            } else {
                old(self)@
            },
    {
        if self.enum_mode {
            let s = String::from_str(raw);
            proof {
                lemma_texts_push(self.enum_variants@, s);
            }
            self.enum_variants.push(s);
        }
    }

    /// Closes the open union: its variants are written one per line, each
    /// behind `| ` and one level deeper than the union. Without an open
    /// union nothing changes.
    pub fn end_enum(&mut self)
        ensures
            final(self)@ == if old(self)@.enum_mode {
                FormatterView {
                    enum_mode: false,
                    enum_variants: Seq::empty(),
                    ..old(self)@.extend(
                        variant_lines(old(self)@.enum_variants, old(self)@.indent),
                    )
                }
            } else {
                old(self)@
            },
    {
        if self.enum_mode {
            let indent = self.current_indent_string(1);
            let ghost all = variant_lines(old(self)@.enum_variants, old(self)@.indent);
            let mut i: usize = 0;
            assert(texts(self.lines@) + all.take(0) =~= texts(self.lines@));
            while i < self.enum_variants.len()
                invariant
                    i <= self.enum_variants.len(),
                    self.enum_variants == old(self).enum_variants,
                    self.imports == old(self).imports,
                    self.indent == old(self).indent,
                    self.enum_mode == old(self).enum_mode,
                    indent@ == indentation(self.indent as nat + 1),
                    all == variant_lines(old(self)@.enum_variants, old(self)@.indent),
                    texts(self.lines@) == texts(old(self).lines@) + all.take(i as int),
                decreases self.enum_variants.len() - i,
            {
                let mut line = String::from_str(indent.as_str());
                line.append("| ");
                line.append(self.enum_variants[i].as_str());
                proof {
                    lemma_texts_push(self.lines@, line);
                    assert(all[i as int] == line@);
                    assert(all.take(i + 1) =~= all.take(i as int).push(all[i as int]));
                    assert(texts(self.lines@).push(line@) =~= texts(old(self).lines@) + all.take(
                        i + 1,
                    ));
                }
                self.lines.push(line);
                i = i + 1;
            }
            assert(all.take(self.enum_variants.len() as int) =~= all);
            self.enum_mode = false;
            self.enum_variants = Vec::new();
            assert(texts(self.enum_variants@) =~= Seq::empty());
        }
    }

    /// The text of the file: the imports, then the lines.
    pub fn end_file(self) -> (out: String)
        ensures
            out@ == file_text(self@.imports, self@.lines),
    {
        let sorted = sort_pairs(&self.imports);
        proof {
            lemma_pair_order_total();
            lemma_in_order_is(pairs(sorted@), pair_order());
        }
        let mut out = String::new();
        if sorted.len() > 0 {
            let ghost block = import_lines(pairs(sorted@));
            let mut i: usize = 0;
            assert(block.take(0) =~= Seq::empty());
            while i < sorted.len()
                invariant
                    i <= sorted.len(),
                    block == import_lines(pairs(sorted@)),
                    out@ == join_lines(block.take(i as int)),
                decreases sorted.len() - i,
            {
                proof {
                    assert(block.take(i + 1).drop_last() =~= block.take(i as int));
                    assert(block.take(i + 1).last() == import_line(pairs(sorted@)[i as int]));
                }
                out.append("import { ");
                out.append(sorted[i].0.as_str());
                out.append(" } from './");
                out.append(sorted[i].1.as_str());
                out.append("'");
                out.append("\n");
                proof {
                    reveal_strlit("\n");
                    assert("\n"@ =~= seq!['\n']);
                    assert(out@ =~= join_lines(block.take(i as int)) + import_line(
                        pairs(sorted@)[i as int],
                    ) + seq!['\n']);
                }
                i = i + 1;
            }
            assert(block.take(sorted.len() as int) =~= block);
            out.append("\n");
            proof {
                reveal_strlit("\n");
                assert("\n"@ =~= seq!['\n']);
            }
        }
        let body = join_lines_exec(&self.lines);
        out.append(body.as_str());
        proof {
            assert(Seq::<char>::empty() + join_lines(texts(self.lines@)) =~= join_lines(
                texts(self.lines@),
            ));
        }
        out
    }

    /// Writes `content` as one line at the current indentation.
    fn write_line(&mut self, content: &str)
        ensures
            final(self)@ == old(self)@.write(content@),
    {
        let mut line = self.current_indent_string(0);
        line.append(content);
        proof {
            lemma_texts_push(self.lines@, line);
        }
        self.lines.push(line);
    }

    /// The indentation of the open blocks and of `extra` more.
    fn current_indent_string(&self, extra: usize) -> (r: String)
        ensures
            r@ == indentation(self@.indent + extra as nat),
    {
        let mut r = indent_string(self.indent);
        let mut i: usize = 0;
        while i < extra
            invariant
                i <= extra,
                r@ == indentation(self.indent as nat + i as nat),
            decreases extra - i,
        {
            r.append("    ");
            i = i + 1;
        }
        r
    }

    /// Writes the line that opens a block, and goes one level deeper.
    fn open(&mut self, content: &str)
        requires
            old(self)@.indent < usize::MAX,
        ensures
            final(self)@ == old(self)@.open_block(content@),
    {
        self.write_line(content);
        self.indent = self.indent + 1;
    }

    /// Goes one level up, if any block is open, and writes `}`.
    fn close(&mut self)
        ensures
            final(self)@ == old(self)@.close_block(),
    {
        if self.indent > 0 {
            self.indent = self.indent - 1;
        }
        self.write_line("}");
    }
}

/// The parameter list of a method.
fn params_string(params: &Vec<(String, String)>) -> (r: String)
    ensures
        r@ == params_text(pairs(params@)),
{
    let mut parts: Vec<String> = Vec::new();
    let mut i: usize = 0;
    let ghost all = Seq::new(params@.len(), |i: int| param_text(pairs(params@)[i]));
    assert(texts(parts@) =~= all.take(0));
    while i < params.len()
        invariant
            i <= params.len(),
            all == Seq::new(params@.len(), |i: int| param_text(pairs(params@)[i])),
            texts(parts@) == all.take(i as int),
        decreases params.len() - i,
    {
        let mut part = String::from_str(params[i].0.as_str());
        part.append(": ");
        part.append(params[i].1.as_str());
        proof {
            lemma_texts_push(parts@, part);
            assert(all.take(i + 1) =~= all.take(i as int).push(all[i as int]));
        }
        parts.push(part);
        i = i + 1;
    }
    assert(all.take(params.len() as int) =~= all);
    join_with_exec(&parts, ", ")
}

} // verus!
