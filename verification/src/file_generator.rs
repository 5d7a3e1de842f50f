//! A group of types whose files are written together, each under the banner
//! of generated files, with an index file that exports every module if asked for.

use vstd::prelude::*;
use crate::container::Container;
use crate::descriptor::SchemaError;
use crate::manager::{DescriptorManager, ManagerView};
use crate::order::{ascending, in_order, lemma_in_order_is};
use crate::text::{
    join_lines, join_lines_exec, lemma_lex_lt_total, lemma_lex_lt_transitive,
    lemma_text_order_total, lex_lt, remove_ext, same_text, stem, str_lt, text_order, texts,
};
use crate::ts_formatter::{pairs, File};

verus! {

/// The first line of every generated file.
pub open spec fn banner() -> Seq<char> {
    "// DO NOT EDIT. CODE GENERATED BY gents."@
}

/// The text of a generated file: the banner on a line of its own, then the content.
pub open spec fn with_banner(content: Seq<char>) -> Seq<char> {
    banner() + seq!['\n'] + content
}

/// The line that exports everything from the module of the file `file_name`.
pub open spec fn export_line(file_name: Seq<char>) -> Seq<char> {
    "export * from \"./"@ + stem(file_name) + "\""@
}

/// The export lines of the files, as a set: one line for each module.
pub open spec fn export_set(files: Seq<File>) -> Set<Seq<char>> {
    Seq::new(files.len(), |i: int| export_line(files[i].0)).to_set()
}

/// The text of the index file: the export lines in ascending order, each
/// once and on a line of its own.
pub open spec fn index_text(files: Seq<File>) -> Seq<char> {
    join_lines(in_order(export_set(files), text_order()))
}

/// The files under their banner.
pub open spec fn bannered(files: Seq<File>) -> Seq<File> {
    Seq::new(files.len(), |i: int| (files[i].0, with_banner(files[i].1)))
}

/// Everything that is written: the files under their banner and, if asked
/// for, the index file behind them, under the banner too.
pub open spec fn output(files: Seq<File>, index_file: bool) -> Seq<File> {
    if index_file {
        bannered(files).push(("index.ts"@, with_banner(index_text(files))))
    } else {
        bannered(files)
    }
}

/// Puts `s` into the ascending sequence `v`, unless it is there already.
fn insert_text(v: &mut Vec<String>, s: String)
    requires
        ascending(texts(old(v)@), text_order()),
    ensures
        ascending(texts(final(v)@), text_order()),
        texts(final(v)@).to_set() == texts(old(v)@).to_set().insert(s@),
{
    let ghost p = s@;
    let ghost q = texts(v@);
    let mut i: usize = 0;
    let mut go: bool = true;
    while go && i < v.len()
        invariant
            i <= v.len(),
            v@ == old(v)@,
            q == texts(v@),
            p == s@,
            forall|j: int| 0 <= j < i ==> lex_lt(#[trigger] q[j], p),
            !go ==> i < v.len() && !lex_lt(q[i as int], p),
        decreases v.len() - i + (if go { 1int } else { 0int }),
    {
        if str_lt(v[i].as_str(), s.as_str()) {
            i = i + 1;
        } else {
            go = false;
        }
    }
    if i < v.len() && same_text(v[i].as_str(), s.as_str()) {
        proof {
            assert(q[i as int] == p);
            assert(q.to_set().contains(p));
            assert(q.to_set().insert(p) =~= q.to_set());
        }
        return ;
    }
    v.insert(i, s);
    proof {
        let r = texts(v@);
        assert(r =~= q.insert(i as int, p));
        if i < q.len() {
            lemma_lex_lt_total(q[i as int], p);
        }
        assert forall|a: int, b: int| 0 <= a < b < r.len() implies #[trigger] text_order()(
            r[a],
            r[b],
        ) by {
            if b < i {
                assert(text_order()(q[a], q[b]));
            } else if b == i {
                assert(lex_lt(q[a], p));
            } else if a < i {
                assert(text_order()(q[a], q[b - 1]));
            } else if a == i {
                if b - 1 > i {
                    assert(text_order()(q[i as int], q[b - 1]));
                    lemma_lex_lt_transitive(p, q[i as int], q[b - 1]);
                }
            } else {
                assert(text_order()(q[a - 1], q[b - 1]));
            }
        }
        assert forall|x: Seq<char>| r.to_set().contains(x) <==> q.to_set().insert(p).contains(
            x,
        ) by {
            if r.to_set().contains(x) {
                let k = choose|k: int| 0 <= k < r.len() && r[k] == x;
                if k < i {
                    assert(q[k] == x);
                } else if k > i {
                    assert(q[k - 1] == x);
                }
            }
            if q.to_set().contains(x) {
                let k = choose|k: int| 0 <= k < q.len() && q[k] == x;
                if k < i {
                    assert(r[k] == x);
                } else {
                    assert(r[k + 1] == x);
                }
            }
            if x == p {
                assert(r[i as int] == x);
            }
        }
        assert(r.to_set() =~= q.to_set().insert(p));
    }
}

/// The text of the index file of `files`.
pub fn index_content(files: &Vec<(String, String)>) -> (r: String)
    ensures
        r@ == index_text(pairs(files@)),
{
    let ghost all = Seq::new(files@.len(), |i: int| export_line(pairs(files@)[i].0));
    let mut lines: Vec<String> = Vec::new();
    let mut i: usize = 0;
    assert(texts(lines@).to_set() =~= all.take(0).to_set());
    while i < files.len()
        invariant
            i <= files.len(),
            all == Seq::new(files@.len(), |i: int| export_line(pairs(files@)[i].0)),
            ascending(texts(lines@), text_order()),
            texts(lines@).to_set() == all.take(i as int).to_set(),
        decreases files.len() - i,
    {
        let mut line = String::from_str("export * from \"./");
        line.append(remove_ext(files[i].0.as_str()).as_str());
        line.append("\"");
        proof {
            assert(line@ == all[i as int]);
            assert(all.take(i + 1) =~= all.take(i as int).push(all[i as int]));
            all.take(i as int).lemma_push_to_set_commute(all[i as int]);
        }
        insert_text(&mut lines, line);
        i = i + 1;
    }
    proof {
        assert(all.take(files.len() as int) =~= all);
        lemma_text_order_total();
        lemma_in_order_is(texts(lines@), text_order());
    }
    join_lines_exec(&lines)
}

/// The files under their banner and, if asked for, the index file behind them.
pub fn finish(files: Vec<(String, String)>, index_file: bool) -> (out: Vec<(String, String)>)
    ensures
        pairs(out@) == output(pairs(files@), index_file),
{
    let mut out: Vec<(String, String)> = Vec::new();
    let ghost want = bannered(pairs(files@));
    let mut i: usize = 0;
    assert(pairs(out@) =~= want.take(0));
    while i < files.len()
        invariant
            i <= files.len(),
            want == bannered(pairs(files@)),
            pairs(out@) == want.take(i as int),
        decreases files.len() - i,
    {
        let mut text = String::from_str("// DO NOT EDIT. CODE GENERATED BY gents.");
        text.append("\n");
        text.append(files[i].1.as_str());
        let f = (files[i].0.clone(), text);
        proof {
            reveal_strlit("\n");
            assert("\n"@ =~= seq!['\n']);
            assert(pairs(out@.push(f)) =~= pairs(out@).push((f.0@, f.1@)));
            assert(want.take(i + 1) =~= want.take(i as int).push(want[i as int]));
        }
        out.push(f);
        i = i + 1;
    }
    assert(want.take(files.len() as int) =~= want);
    if index_file {
        let mut text = String::from_str("// DO NOT EDIT. CODE GENERATED BY gents.");
        text.append("\n");
        text.append(index_content(&files).as_str());
        let f = (String::from_str("index.ts"), text);
        proof {
            reveal_strlit("\n");
            assert("\n"@ =~= seq!['\n']);
            assert(pairs(out@.push(f)) =~= pairs(out@).push((f.0@, f.1@)));
        }
        out.push(f);
    }
    out
}

/// The types whose files are written together. They share what they depend
/// on; where two of them name the same file, both are given under that name.
pub struct FileGroup {
    manager: DescriptorManager,
}

impl View for FileGroup {
    type V = ManagerView;

    closed spec fn view(&self) -> ManagerView {
        self.manager@
    }
}

impl FileGroup {
    /// The group is in order: its registry is well formed, and every type
    /// that an interface of functions names is registered.
    pub open spec fn wf(&self) -> bool {
        self@.wf() && self@.apis_resolved()
    }

    /// A group with no type.
    pub fn new() -> (r: Self)
        ensures
            r.wf(),
            r@ == ManagerView::empty(),
    {
        FileGroup { manager: DescriptorManager::new() }
    }

    /// The group of the types of a registry. A registry with an interface of
    /// functions that names a type that is not registered is refused.
    pub fn from_manager(manager: DescriptorManager) -> (r: Result<FileGroup, SchemaError>)
        requires
            manager@.wf(),
        ensures
            match r {
                Ok(group) => manager@.apis_resolved() && group.wf() && group@ == manager@,
                Err(e) => !manager@.apis_resolved() && e == SchemaError::UnregisteredType,
            },
    {
        if manager.api_types_registered() {
            Ok(FileGroup { manager })
        } else {
            Err(SchemaError::UnregisteredType)
        }
    }

    /// Adds a type, with the types that its members register, to the group.
    pub fn add(&mut self, container: &Container) -> (r: Result<usize, SchemaError>)
        requires
            old(self).wf(),
        ensures
            final(self).wf(),
            (final(self)@, r) == container@.register(old(self)@),
    {
        let ghost before = self.manager@;
        let r = container._register(&mut self.manager);
        proof {
            crate::container::lemma_register_grows(container@, before);
            crate::manager::lemma_grown_keeps_apis(before, self.manager@);
        }
        r
    }

    /// Everything that the group writes: the name and the text of each
    /// file, under the banner of generated files, and the index file if
    /// `index_file` asks for it.
    pub fn gen_data(self, index_file: bool) -> (out: Vec<(String, String)>)
        requires
            self.wf(),
        ensures
            pairs(out@) == output(self@.files(), index_file),
    {
        finish(self.manager.gen_data(), index_file)
    }
}

/// Determinism: what is written depends on nothing but what was
/// registered. Two schemas with the same content register alike in two
/// registries that hold the same, and two registries that hold the same
/// give the same files, with the same names and the same text.
pub proof fn lemma_same_input_same_output(
    first: Container,
    second: Container,
    a: DescriptorManager,
    b: DescriptorManager,
    index_file: bool,
)
    requires
        first@ == second@,
        a@ == b@,
    ensures
        first@.register(a@) == second@.register(b@),
        output(a@.files(), index_file) == output(b@.files(), index_file),
{
}

} // verus!
