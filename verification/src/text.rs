//! Text, seen as a sequence of characters: the lexicographic order,
//! indentation, joining, trimming, and file names without their extension.

use vstd::prelude::*;

verus! {

/// Appends one character to a string, by `String::push`: the string
/// afterwards is the string before with `c` at its end.
#[verifier::external_body]
pub(crate) fn push_char(s: &mut String, c: char)
    ensures
        final(s)@ == old(s)@.push(c),
{
    s.push(c)
}

/// The characters of a text.
pub fn chars_of(s: &str) -> (r: Vec<char>)
    ensures
        r@ == s@,
{
    let mut r: Vec<char> = Vec::new();
    for c in it: s.chars()
        invariant
            r@ == it.seq().take(it.index() as int),
            it.seq() == s@,
    {
        r.push(c);
        assert(it.seq().take(it.index() + 1) =~= it.seq().take(it.index() as int).push(c));
    }
    assert(s@.take(s@.len() as int) =~= s@);
    r
}

/// The text of the characters of `v` from `from` up to `to`.
pub fn text_of(v: &Vec<char>, from: usize, to: usize) -> (r: String)
    requires
        from <= to <= v.len(),
    ensures
        r@ == v@.subrange(from as int, to as int),
{
    let mut r = String::new();
    let mut i: usize = from;
    assert(v@.subrange(from as int, from as int) =~= Seq::empty());
    while i < to
        invariant
            from <= i <= to <= v.len(),
            r@ == v@.subrange(from as int, i as int),
        decreases to - i,
    {
        push_char(&mut r, v[i]);
        assert(v@.subrange(from as int, i + 1) =~= v@.subrange(from as int, i as int).push(
            v@[i as int],
        ));
        i = i + 1;
    }
    r
}

/// The strict lexicographic order on character sequences, by code point.
pub open spec fn lex_lt(a: Seq<char>, b: Seq<char>) -> bool
    decreases a.len(),
{
    if b.len() == 0 {
        false
    } else if a.len() == 0 {
        true
    } else if a[0] != b[0] {
        (a[0] as int) < (b[0] as int)
    } else {
        lex_lt(a.drop_first(), b.drop_first())
    }
}

/// No text comes before itself.
pub proof fn lemma_lex_lt_irreflexive(a: Seq<char>)
    ensures
        !lex_lt(a, a),
    decreases a.len(),
{
    if a.len() > 0 {
        lemma_lex_lt_irreflexive(a.drop_first());
    }
}

/// The lexicographic order is transitive.
pub proof fn lemma_lex_lt_transitive(a: Seq<char>, b: Seq<char>, c: Seq<char>)
    requires
        lex_lt(a, b),
        lex_lt(b, c),
    ensures
        lex_lt(a, c),
    decreases a.len(),
{
    if a.len() > 0 && a[0] == b[0] && b[0] == c[0] {
        lemma_lex_lt_transitive(a.drop_first(), b.drop_first(), c.drop_first());
    }
}

/// Of two different texts, one comes before the other.
pub proof fn lemma_lex_lt_total(a: Seq<char>, b: Seq<char>)
    ensures
        a == b || lex_lt(a, b) || lex_lt(b, a),
    decreases a.len(),
{
    if a.len() == 0 || b.len() == 0 {
        if a.len() == 0 && b.len() == 0 {
            assert(a =~= b);
        }
    } else if a[0] == b[0] {
        lemma_lex_lt_total(a.drop_first(), b.drop_first());
        if a.drop_first() == b.drop_first() {
            assert(a.len() == a.drop_first().len() + 1);
            assert(b.len() == b.drop_first().len() + 1);
            assert forall|i: int| 0 <= i < a.len() implies a[i] == b[i] by {
                if i > 0 {
                    assert(a[i] == a.drop_first()[i - 1]);
                    assert(b[i] == b.drop_first()[i - 1]);
                }
            }
            assert(a =~= b);
        }
    }
}

/// Whether the code point of `a` is below that of `b`.
pub fn char_before(a: char, b: char) -> (r: bool)
    ensures
        r == ((a as int) < (b as int)),
{
    (a as u32) < (b as u32)
}

/// Whether `a` comes strictly before `b` in lexicographic order.
pub fn str_lt(a: &str, b: &str) -> (r: bool)
    ensures
        r == lex_lt(a@, b@),
{
    let x = chars_of(a);
    let y = chars_of(b);
    let mut i: usize = 0;
    assert(a@.skip(0) =~= a@ && b@.skip(0) =~= b@);
    while i < x.len() && i < y.len()
        invariant
            x@ == a@,
            y@ == b@,
            i <= x.len(),
            i <= y.len(),
            lex_lt(a@, b@) == lex_lt(a@.skip(i as int), b@.skip(i as int)),
        decreases x.len() - i,
    {
        let ca: char = x[i];
        let cb: char = y[i];
        proof {
            let sa = a@.skip(i as int);
            let sb = b@.skip(i as int);
            assert(sa[0] == ca && sb[0] == cb);
            assert(sa.drop_first() =~= a@.skip(i + 1));
            assert(sb.drop_first() =~= b@.skip(i + 1));
        }
        if ca != cb {
            return char_before(ca, cb);
        }
        i = i + 1;
    }
    i < y.len()
}

/// Whether two texts hold the same characters.
pub fn same_text(a: &str, b: &str) -> (r: bool)
    ensures
        r == (a@ == b@),
{
    let x = String::from_str(a);
    let y = String::from_str(b);
    x == y
}

/// The order on pairs of texts: by the first text, then by the second.
pub open spec fn pair_lt(a: (Seq<char>, Seq<char>), b: (Seq<char>, Seq<char>)) -> bool {
    lex_lt(a.0, b.0) || (a.0 == b.0 && lex_lt(a.1, b.1))
}

/// No pair comes before itself.
pub proof fn lemma_pair_lt_irreflexive(a: (Seq<char>, Seq<char>))
    ensures
        !pair_lt(a, a),
{
    lemma_lex_lt_irreflexive(a.0);
    lemma_lex_lt_irreflexive(a.1);
}

/// The order on pairs is transitive.
pub proof fn lemma_pair_lt_transitive(
    a: (Seq<char>, Seq<char>),
    b: (Seq<char>, Seq<char>),
    c: (Seq<char>, Seq<char>),
)
    requires
        pair_lt(a, b),
        pair_lt(b, c),
    ensures
        pair_lt(a, c),
{
    if lex_lt(a.0, b.0) && lex_lt(b.0, c.0) {
        lemma_lex_lt_transitive(a.0, b.0, c.0);
    } else if a.0 == b.0 && b.0 == c.0 {
        lemma_lex_lt_transitive(a.1, b.1, c.1);
    }
}

/// Of two different pairs, one comes before the other.
pub proof fn lemma_pair_lt_total(a: (Seq<char>, Seq<char>), b: (Seq<char>, Seq<char>))
    ensures
        a == b || pair_lt(a, b) || pair_lt(b, a),
{
    lemma_lex_lt_total(a.0, b.0);
    lemma_lex_lt_total(a.1, b.1);
}

/// Whether the pair `(a0, a1)` comes strictly before `(b0, b1)`.
pub fn pair_before(a0: &str, a1: &str, b0: &str, b1: &str) -> (r: bool)
    ensures
        r == pair_lt((a0@, a1@), (b0@, b1@)),
{
    if str_lt(a0, b0) {
        true
    } else if same_text(a0, b0) {
        str_lt(a1, b1)
    } else {
        false
    }
}

/// `n` levels of indentation, four spaces each.
pub open spec fn indentation(n: nat) -> Seq<char>
    decreases n,
{
    if n == 0 {
        Seq::empty()
    } else {
        indentation((n - 1) as nat) + "    "@
    }
}

/// The text of `n` levels of indentation.
pub fn indent_string(n: usize) -> (r: String)
    ensures
        r@ == indentation(n as nat),
{
    let mut r = String::new();
    let mut i: usize = 0;
    while i < n
        invariant
            i <= n,
            r@ == indentation(i as nat),
        decreases n - i,
    {
        r.append("    ");
        i = i + 1;
    }
    r
}

/// The lines one after the other, each closed by a line feed.
pub open spec fn join_lines(lines: Seq<Seq<char>>) -> Seq<char>
    decreases lines.len(),
{
    if lines.len() == 0 {
        Seq::empty()
    } else {
        join_lines(lines.drop_last()) + lines.last() + seq!['\n']
    }
}

/// The parts one after the other, with `sep` between neighbours.
pub open spec fn join_with(parts: Seq<Seq<char>>, sep: Seq<char>) -> Seq<char>
    decreases parts.len(),
{
    if parts.len() == 0 {
        Seq::empty()
    } else if parts.len() == 1 {
        parts[0]
    } else {
        join_with(parts.drop_last(), sep) + sep + parts.last()
    }
}

/// The views of a sequence of strings.
pub open spec fn texts(v: Seq<String>) -> Seq<Seq<char>> {
    Seq::new(v.len(), |i: int| v[i]@)
}

/// Pushing a string pushes its view.
pub proof fn lemma_texts_push(v: Seq<String>, s: String)
    ensures
        texts(v.push(s)) == texts(v).push(s@),
{
    assert(texts(v.push(s)) =~= texts(v).push(s@));
}

/// The text of `lines`, each closed by a line feed.
pub fn join_lines_exec(lines: &Vec<String>) -> (r: String)
    ensures
        r@ == join_lines(texts(lines@)),
{
    let mut r = String::new();
    let mut i: usize = 0;
    assert(texts(lines@).take(0) =~= Seq::empty());
    while i < lines.len()
        invariant
            i <= lines.len(),
            r@ == join_lines(texts(lines@).take(i as int)),
        decreases lines.len() - i,
    {
        proof {
            let t = texts(lines@);
            assert(t.take(i + 1).drop_last() =~= t.take(i as int));
            assert(t.take(i + 1).last() == lines@[i as int]@);
        }
        r.append(lines[i].as_str());
        push_char(&mut r, '\n');
        i = i + 1;
    }
    assert(texts(lines@).take(lines.len() as int) =~= texts(lines@));
    r
}

/// The parts of `v` one after the other, with `sep` between neighbours.
pub fn join_with_exec(v: &Vec<String>, sep: &str) -> (r: String)
    ensures
        r@ == join_with(texts(v@), sep@),
{
    let mut r = String::new();
    let mut i: usize = 0;
    assert(texts(v@).take(0) =~= Seq::empty());
    while i < v.len()
        invariant
            i <= v.len(),
            r@ == join_with(texts(v@).take(i as int), sep@),
        decreases v.len() - i,
    {
        proof {
            let t = texts(v@);
            assert(t.take(i + 1).drop_last() =~= t.take(i as int));
            assert(t.take(i + 1).last() == v@[i as int]@);
            if i == 0 {
                assert(t.take(1)[0] == v@[0]@);
            }
        }
        if i > 0 {
            r.append(sep);
        }
        r.append(v[i].as_str());
        i = i + 1;
    }
    assert(texts(v@).take(v.len() as int) =~= texts(v@));
    r
}

/// Whether a character is white space: a character with the Unicode
/// property `White_Space`.
pub open spec fn is_white(c: char) -> bool {
    let n = c as int;
    ||| 0x09 <= n <= 0x0d
    ||| n == 0x20
    ||| n == 0x85
    ||| n == 0xa0
    ||| n == 0x1680
    ||| 0x2000 <= n <= 0x200a
    ||| n == 0x2028
    ||| n == 0x2029
    ||| n == 0x202f
    ||| n == 0x205f
    ||| n == 0x3000
}

/// Whether a character is white space.
pub fn is_white_space(c: char) -> (r: bool)
    ensures
        r == is_white(c),
{
    let n: u32 = c as u32;
    (0x09 <= n && n <= 0x0d) || n == 0x20 || n == 0x85 || n == 0xa0 || n == 0x1680 || (0x2000 <= n
        && n <= 0x200a) || n == 0x2028 || n == 0x2029 || n == 0x202f || n == 0x205f || n == 0x3000
}

/// Where the text of `s` starts: behind its leading white space.
pub open spec fn trim_start(s: Seq<char>) -> int
    decreases s.len(),
{
    if s.len() == 0 || !is_white(s[0]) {
        0
    } else {
        1 + trim_start(s.drop_first())
    }
}

/// Where the text of `s` ends: in front of its trailing white space.
pub open spec fn trim_end(s: Seq<char>) -> int
    decreases s.len(),
{
    if s.len() == 0 || !is_white(s.last()) {
        s.len() as int
    } else {
        trim_end(s.drop_last())
    }
}

/// A text without the white space at its start and at its end.
pub open spec fn trimmed(s: Seq<char>) -> Seq<char> {
    if trim_start(s) >= trim_end(s) {
        Seq::empty()
    } else {
        s.subrange(trim_start(s), trim_end(s))
    }
}

/// The leading white space ends inside the text or at its end, with white
/// space in front of that place only.
pub proof fn lemma_trim_start(s: Seq<char>)
    ensures
        0 <= trim_start(s) <= s.len(),
        forall|j: int| 0 <= j < trim_start(s) ==> is_white(#[trigger] s[j]),
        trim_start(s) < s.len() ==> !is_white(s[trim_start(s)]),
    decreases s.len(),
{
    if s.len() > 0 && is_white(s[0]) {
        let t = s.drop_first();
        lemma_trim_start(t);
        assert forall|j: int| 0 <= j < trim_start(s) implies is_white(#[trigger] s[j]) by {
            if j > 0 {
                assert(s[j] == t[j - 1]);
            }
        }
        if trim_start(s) < s.len() {
            assert(s[trim_start(s)] == t[trim_start(t)]);
        }
    }
}

/// The trailing white space starts inside the text or at its start, with
/// white space behind that place only.
pub proof fn lemma_trim_end(s: Seq<char>)
    ensures
        0 <= trim_end(s) <= s.len(),
        forall|j: int| trim_end(s) <= j < s.len() ==> is_white(#[trigger] s[j]),
        trim_end(s) > 0 ==> !is_white(s[trim_end(s) - 1]),
    decreases s.len(),
{
    if s.len() > 0 && is_white(s.last()) {
        let t = s.drop_last();
        lemma_trim_end(t);
        assert forall|j: int| trim_end(s) <= j < s.len() implies is_white(#[trigger] s[j]) by {
            if j < s.len() - 1 {
                assert(s[j] == t[j]);
            }
        }
        if trim_end(s) > 0 {
            assert(s[trim_end(s) - 1] == t[trim_end(t) - 1]);
        }
    }
}

/// The text without the white space at its start and at its end.
pub fn trim(s: &str) -> (r: String)
    ensures
        r@ == trimmed(s@),
{
    let v = chars_of(s);
    let n: usize = v.len();
    let mut from: usize = 0;
    proof {
        lemma_trim_start(s@);
        lemma_trim_end(s@);
    }
    while from < n && is_white_space(v[from])
        invariant
            v@ == s@,
            n == v.len(),
            from <= n,
            from <= trim_start(s@),
            0 <= trim_start(s@) <= s@.len(),
            forall|j: int| 0 <= j < trim_start(s@) ==> is_white(#[trigger] s@[j]),
            trim_start(s@) < s@.len() ==> !is_white(s@[trim_start(s@)]),
        decreases n - from,
    {
        from = from + 1;
    }
    assert(from == trim_start(s@));
    let mut to: usize = n;
    while to > 0 && is_white_space(v[to - 1])
        invariant
            v@ == s@,
            n == v.len(),
            to <= n,
            to >= trim_end(s@),
            0 <= trim_end(s@) <= s@.len(),
            forall|j: int| trim_end(s@) <= j < s@.len() ==> is_white(#[trigger] s@[j]),
            trim_end(s@) > 0 ==> !is_white(s@[trim_end(s@) - 1]),
        decreases to,
    {
        to = to - 1;
    }
    assert(to == trim_end(s@));
    if from >= to {
        String::new()
    } else {
        text_of(&v, from, to)
    }
}

/// Where the extension of a file name starts: at its last `.`, unless a `/`
/// follows that dot; at the end of the name when it has no such dot.
pub open spec fn ext_start(s: Seq<char>) -> int
    decreases s.len(),
{
    if s.len() == 0 {
        0
    } else if s.last() == '.' {
        s.len() - 1
    } else if s.last() == '/' {
        s.len() as int
    } else {
        let k = ext_start(s.drop_last());
        if k == s.len() - 1 {
            s.len() as int
        } else {
            k
        }
    }
}

/// A file name without its extension.
pub open spec fn stem(s: Seq<char>) -> Seq<char> {
    s.take(ext_start(s))
}

/// The extension starts inside the name or at its end.
pub proof fn lemma_ext_start_in_range(s: Seq<char>)
    ensures
        0 <= ext_start(s) <= s.len(),
    decreases s.len(),
{
    if s.len() > 0 && s.last() != '.' && s.last() != '/' {
        lemma_ext_start_in_range(s.drop_last());
    }
}

/// The file name without its extension: `person.ts` gives `person`.
pub fn remove_ext(file_name: &str) -> (r: String)
    ensures
        r@ == stem(file_name@),
{
    let name = chars_of(file_name);
    let n: usize = name.len();
    // The cut is found from the end of the name.
    let mut cut: usize = n;
    let mut i: usize = n;
    let mut found: bool = false;
    while i > 0 && !found
        invariant
            name@ == file_name@,
            n == name.len(),
            i <= n,
            cut <= n,
            !found ==> cut == n && forall|j: int|
                i <= j < n ==> file_name@[j] != '.' && file_name@[j] != '/',
            found ==> ext_start(file_name@) == cut,
        decreases i + (if found { 0int } else { 1int }),
    {
        let c: char = name[i - 1];
        if c == '.' {
            cut = i - 1;
            found = true;
            proof {
                lemma_ext_start_suffix(file_name@, (i - 1) as int);
            }
        } else if c == '/' {
            found = true;
            proof {
                lemma_ext_start_suffix(file_name@, (i - 1) as int);
            }
        } else {
            i = i - 1;
        }
    }
    proof {
        if !found {
            lemma_ext_start_plain(file_name@);
        }
    }
    text_of(&name, 0, cut)
}

/// A name without `.` and `/` has no extension.
proof fn lemma_ext_start_plain(s: Seq<char>)
    requires
        forall|j: int| 0 <= j < s.len() ==> s[j] != '.' && s[j] != '/',
    ensures
        ext_start(s) == s.len(),
    decreases s.len(),
{
    if s.len() > 0 {
        lemma_ext_start_plain(s.drop_last());
    }
}

/// What follows the last `.` or `/` of a name does not move the extension.
proof fn lemma_ext_start_suffix(s: Seq<char>, p: int)
    requires
        0 <= p < s.len(),
        s[p] == '.' || s[p] == '/',
        forall|j: int| p < j < s.len() ==> s[j] != '.' && s[j] != '/',
    ensures
        s[p] == '.' ==> ext_start(s) == p,
        s[p] == '/' ==> ext_start(s) == s.len(),
    decreases s.len(),
{
    if p < s.len() - 1 {
        let t = s.drop_last();
        lemma_ext_start_suffix(t, p);
        lemma_ext_start_in_range(t);
    }
}


/// The lexicographic order on texts, as a relation.
pub open spec fn text_order() -> spec_fn(Seq<char>, Seq<char>) -> bool {
    |a: Seq<char>, b: Seq<char>| lex_lt(a, b)
}

/// The order on pairs of texts, as a relation.
pub open spec fn pair_order() -> spec_fn((Seq<char>, Seq<char>), (Seq<char>, Seq<char>)) -> bool {
    |a: (Seq<char>, Seq<char>), b: (Seq<char>, Seq<char>)| pair_lt(a, b)
}

/// The lexicographic order is a strict total order.
pub proof fn lemma_text_order_total()
    ensures
        crate::order::strict_total_order(text_order()),
{
    let lt = text_order();
    assert forall|a: Seq<char>| !#[trigger] lt(a, a) by {
        lemma_lex_lt_irreflexive(a);
    }
    assert forall|a: Seq<char>, b: Seq<char>, c: Seq<char>| #[trigger] lt(a, b) && #[trigger] lt(
        b,
        c,
    ) implies lt(a, c) by {
        lemma_lex_lt_transitive(a, b, c);
    }
    assert forall|a: Seq<char>, b: Seq<char>| a == b || #[trigger] lt(a, b) || lt(b, a) by {
        lemma_lex_lt_total(a, b);
    }
}

/// The order on pairs is a strict total order.
pub proof fn lemma_pair_order_total()
    ensures
        crate::order::strict_total_order(pair_order()),
{
    let lt = pair_order();
    assert forall|a: (Seq<char>, Seq<char>)| !#[trigger] lt(a, a) by {
        lemma_pair_lt_irreflexive(a);
    }
    assert forall|a: (Seq<char>, Seq<char>), b: (Seq<char>, Seq<char>), c: (Seq<char>, Seq<char>)|
        #[trigger] lt(a, b) && #[trigger] lt(b, c) implies lt(a, c) by {
        lemma_pair_lt_transitive(a, b, c);
    }
    assert forall|a: (Seq<char>, Seq<char>), b: (Seq<char>, Seq<char>)|
        a == b || #[trigger] lt(a, b) || lt(b, a) by {
        lemma_pair_lt_total(a, b);
    }
}

} // verus!
