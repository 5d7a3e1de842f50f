//! The rename policy: identifiers in snake case or Pascal case become camel case.

use vstd::prelude::*;
use crate::text::{chars_of, push_char};

verus! {

/// The upper-case form of an ASCII lower-case letter; any other character unchanged.
pub open spec fn upper(c: char) -> char {
    if 'a' <= c && c <= 'z' {
        ((c as int) - 32) as char
    } else {
        c
    }
}

/// The lower-case form of an ASCII upper-case letter; any other character unchanged.
pub open spec fn lower(c: char) -> char {
    if 'A' <= c && c <= 'Z' {
        ((c as int) + 32) as char
    } else {
        c
    }
}

/// The upper-case form of `c`.
pub fn to_upper(c: char) -> (r: char)
    ensures
        r == upper(c),
{
    if 'a' <= c && c <= 'z' {
        ((c as u8) - 32) as char
    } else {
        c
    }
}

/// The lower-case form of `c`.
pub fn to_lower(c: char) -> (r: char)
    ensures
        r == lower(c),
{
    if 'A' <= c && c <= 'Z' {
        ((c as u8) + 32) as char
    } else {
        c
    }
}

/// Camel case from snake case, read from left to right: an underscore is
/// dropped, and the next character that is kept is put in upper case.
/// `raise` says whether an underscore was just dropped.
pub open spec fn camel_from_snake_from(s: Seq<char>, raise: bool) -> Seq<char>
    decreases s.len(),
{
    if s.len() == 0 {
        Seq::empty()
    } else if s[0] == '_' {
        camel_from_snake_from(s.drop_first(), true)
    } else if raise {
        seq![upper(s[0])] + camel_from_snake_from(s.drop_first(), false)
    } else {
        seq![s[0]] + camel_from_snake_from(s.drop_first(), false)
    }
}

/// Camel case from snake case: `en_name` gives `enName`.
pub open spec fn camel_from_snake(s: Seq<char>) -> Seq<char> {
    camel_from_snake_from(s, false)
}

/// Camel case from Pascal case: the first character in lower case, `Center` gives `center`.
pub open spec fn camel_from_pascal(s: Seq<char>) -> Seq<char> {
    if s.len() == 0 {
        s
    } else {
        seq![lower(s[0])] + s.drop_first()
    }
}

/// The camel-case form of a snake-case identifier.
pub fn convert_camel_from_snake(s: &str) -> (r: String)
    ensures
        r@ == camel_from_snake(s@),
{
    let v = chars_of(s);
    let n: usize = v.len();
    let mut r = String::new();
    let mut raise: bool = false;
    let mut i: usize = 0;
    assert(s@.skip(0) =~= s@);
    while i < n
        invariant
            v@ == s@,
            n == v.len(),
            i <= n,
            camel_from_snake(s@) == r@ + camel_from_snake_from(s@.skip(i as int), raise),
        decreases n - i,
    {
        let c: char = v[i];
        proof {
            let rest = s@.skip(i as int);
            assert(rest[0] == c);
            assert(rest.drop_first() =~= s@.skip(i + 1));
        }
        let ghost before = r@;
        if c == '_' {
            raise = true;
        } else if raise {
            push_char(&mut r, to_upper(c));
            raise = false;
            assert(r@ + camel_from_snake_from(s@.skip(i + 1), false) =~= before + (seq![upper(c)]
                + camel_from_snake_from(s@.skip(i + 1), false)));
        } else {
            push_char(&mut r, c);
            assert(r@ + camel_from_snake_from(s@.skip(i + 1), false) =~= before + (seq![c]
                + camel_from_snake_from(s@.skip(i + 1), false)));
        }
        i = i + 1;
    }
    assert(r@ + Seq::<char>::empty() =~= r@);
    r
}

/// The camel-case form of a Pascal-case identifier.
pub fn convert_camel_from_pascal(s: &str) -> (r: String)
    ensures
        r@ == camel_from_pascal(s@),
{
    let v = chars_of(s);
    let n: usize = v.len();
    let mut r = String::new();
    if n == 0 {
        assert(s@ =~= Seq::empty());
        return r;
    }
    push_char(&mut r, to_lower(v[0]));
    let mut i: usize = 1;
    assert(s@.drop_first().take(0) =~= Seq::empty());
    while i < n
        invariant
            v@ == s@,
            n == v.len(),
            1 <= i <= n,
            r@ == seq![lower(s@[0])] + s@.drop_first().take(i - 1),
        decreases n - i,
    {
        let c: char = v[i];
        push_char(&mut r, c);
        assert(s@.drop_first().take(i as int) =~= s@.drop_first().take(i - 1).push(c));
        i = i + 1;
    }
    assert(s@.drop_first().take(n - 1) =~= s@.drop_first());
    r
}

} // verus!
