//! Paths as the standard library splits them into components, and the
//! names, stems and extensions of files.

use vstd::prelude::*;
use std::path::Component;

use crate::order::{lex_lt, lemma_lex_irreflexive, lemma_lex_total};
use crate::text::{codes, char_codes, lemma_code_bound, text_lt};

verus! {

/// The components of `path` as `std::path::Path::components` splits it, each
/// as its kind (0 prefix, 1 root, 2 current directory, 3 parent directory,
/// 4 normal, the order of `std::path::Component`'s variants) and its text.
pub uninterp spec fn path_components(path: Seq<char>) -> Seq<(u8, Seq<char>)>;

/// Splits `path` into components with `std::path::Path::components`,
/// converting each to its kind and its text (`Component::as_os_str`).
#[verifier::external_body]
fn components_of(path: &str) -> (parts: Vec<(u8, String)>)
    ensures
        parts@.map_values(|p: (u8, String)| (p.0, p.1@)) == path_components(path@),
{
    let mut parts = Vec::new();
    for c in std::path::Path::new(path).components() {
        let kind: u8 = match c {
            Component::Prefix(_) => 0,
            Component::RootDir => 1,
            Component::CurDir => 2,
            Component::ParentDir => 3,
            Component::Normal(_) => 4,
        };
        parts.push((kind, c.as_os_str().to_string_lossy().into_owned()));
    }
    parts
}

/// The code of one path component: its kind, then its characters shifted up
/// by one, then a terminating zero (so that a shorter text that is a prefix
/// of a longer one comes first).
pub open spec fn part_code(part: (u8, Seq<char>)) -> Seq<u32> {
    seq![part.0 as u32] + codes(part.1).map_values(|c: u32| (c + 1) as u32) + seq![0u32]
}

/// The codes of a path's components, one after another.
pub open spec fn parts_code(parts: Seq<(u8, Seq<char>)>) -> Seq<u32>
    decreases parts.len(),
{
    if parts.len() == 0 {
        Seq::empty()
    } else {
        parts_code(parts.drop_last()) + part_code(parts.last())
    }
}

/// The key by which paths are ordered and told apart: component by component,
/// each by kind and then by text.
pub open spec fn path_key(path: Seq<char>) -> Seq<u32> {
    parts_code(path_components(path))
}

/// Path component `a` comes before `b`: by kind, then by text.
pub open spec fn part_lt(a: (u8, Seq<char>), b: (u8, Seq<char>)) -> bool {
    a.0 < b.0 || (a.0 == b.0 && text_lt(a.1, b.1))
}

/// Path components `a` come before `b`: the first component at which they
/// differ decides, and a path that is a proper prefix of another comes first.
pub open spec fn parts_lt(a: Seq<(u8, Seq<char>)>, b: Seq<(u8, Seq<char>)>) -> bool
    decreases a.len(),
{
    if b.len() == 0 {
        false
    } else if a.len() == 0 {
        true
    } else if a[0] != b[0] {
        part_lt(a[0], b[0])
    } else {
        parts_lt(a.drop_first(), b.drop_first())
    }
}

/// The shifted characters of a component's text, then its terminating zero.
spec fn text_code(s: Seq<char>) -> Seq<u32> {
    codes(s).map_values(|c: u32| (c + 1) as u32) + seq![0u32]
}

proof fn lemma_part_code_split(p: (u8, Seq<char>))
    ensures
        part_code(p) == seq![p.0 as u32] + text_code(p.1),
{
    assert(part_code(p) =~= seq![p.0 as u32] + text_code(p.1));
}

proof fn lemma_text_code_head(s: Seq<char>)
    requires
        s.len() > 0,
    ensures
        text_code(s)[0] == (s[0] as u32) + 1,
        text_code(s).drop_first() == text_code(s.drop_first()),
{
    lemma_code_bound(s[0]);
    assert(codes(s)[0] == s[0] as u32);
    assert(codes(s).drop_first() =~= codes(s.drop_first()));
    assert(text_code(s).drop_first() =~= text_code(s.drop_first()));
}

/// Texts followed by their terminators compare as the texts do; equal texts
/// defer to what follows.
proof fn lemma_text_code_concat(s: Seq<char>, t: Seq<char>, y: Seq<u32>, y2: Seq<u32>)
    ensures
        lex_lt(text_code(s) + y, text_code(t) + y2) == if s == t {
            lex_lt(y, y2)
        } else {
            text_lt(s, t)
        },
    decreases s.len(),
{
    let a = text_code(s) + y;
    let b = text_code(t) + y2;
    if s.len() == 0 && t.len() == 0 {
        assert(text_code(s) =~= seq![0u32]);
        assert(text_code(t) =~= seq![0u32]);
        assert(a.drop_first() =~= y);
        assert(b.drop_first() =~= y2);
        assert(s =~= t);
    } else if s.len() == 0 {
        assert(text_code(s) =~= seq![0u32]);
        lemma_text_code_head(t);
        assert(b[0] == text_code(t)[0]);
        assert(codes(s).len() == 0);
        assert(codes(t).len() > 0);
    } else if t.len() == 0 {
        assert(text_code(t) =~= seq![0u32]);
        lemma_text_code_head(s);
        assert(a[0] == text_code(s)[0]);
        assert(codes(t).len() == 0);
    } else {
        lemma_text_code_head(s);
        lemma_text_code_head(t);
        assert(a[0] == text_code(s)[0]);
        assert(b[0] == text_code(t)[0]);
        assert(codes(s)[0] == s[0] as u32);
        assert(codes(t)[0] == t[0] as u32);
        if s[0] == t[0] {
            assert(a.drop_first() =~= text_code(s.drop_first()) + y);
            assert(b.drop_first() =~= text_code(t.drop_first()) + y2);
            lemma_text_code_concat(s.drop_first(), t.drop_first(), y, y2);
            assert(codes(s).drop_first() =~= codes(s.drop_first()));
            assert(codes(t).drop_first() =~= codes(t.drop_first()));
            if s.drop_first() == t.drop_first() {
                assert(s =~= seq![s[0]] + s.drop_first());
                assert(t =~= seq![t[0]] + t.drop_first());
            } else {
                assert(s != t);
            }
        } else {
            lemma_char_code_distinct(s[0], t[0]);
        }
    }
}

proof fn lemma_char_code_distinct(c: char, d: char)
    requires
        c != d,
    ensures
        c as u32 != d as u32,
{
}

/// A component's code followed by anything compares as the components do;
/// equal components defer to what follows.
proof fn lemma_part_code_concat(p: (u8, Seq<char>), q: (u8, Seq<char>), y: Seq<u32>, y2: Seq<u32>)
    ensures
        lex_lt(part_code(p) + y, part_code(q) + y2) == if p == q {
            lex_lt(y, y2)
        } else {
            part_lt(p, q)
        },
{
    lemma_part_code_split(p);
    lemma_part_code_split(q);
    let a = part_code(p) + y;
    let b = part_code(q) + y2;
    assert(a[0] == p.0 as u32);
    assert(b[0] == q.0 as u32);
    if p.0 == q.0 {
        assert(a.drop_first() =~= text_code(p.1) + y);
        assert(b.drop_first() =~= text_code(q.1) + y2);
        lemma_text_code_concat(p.1, q.1, y, y2);
    }
}

proof fn lemma_parts_code_cons(p: (u8, Seq<char>), rest: Seq<(u8, Seq<char>)>)
    ensures
        parts_code(seq![p] + rest) == part_code(p) + parts_code(rest),
    decreases rest.len(),
{
    let all = seq![p] + rest;
    if rest.len() == 0 {
        assert(all.drop_last() =~= Seq::<(u8, Seq<char>)>::empty());
        assert(all.last() == p);
        assert(parts_code(rest) =~= Seq::<u32>::empty());
        assert(parts_code(all.drop_last()) =~= Seq::<u32>::empty());
        assert(parts_code(all) == parts_code(all.drop_last()) + part_code(all.last()));
        assert(parts_code(all) =~= part_code(p) + parts_code(rest));
    } else {
        assert(all.drop_last() =~= seq![p] + rest.drop_last());
        assert(all.last() == rest.last());
        lemma_parts_code_cons(p, rest.drop_last());
        assert(parts_code(all) == parts_code(all.drop_last()) + part_code(all.last()));
        assert(parts_code(rest) == parts_code(rest.drop_last()) + part_code(rest.last()));
        assert((part_code(p) + parts_code(rest.drop_last())) + part_code(rest.last()) =~= part_code(p)
            + (parts_code(rest.drop_last()) + part_code(rest.last())));
    }
}

/// Comparing path keys is comparing components: the key order is the
/// component order, and equal keys are equal components.
pub proof fn lemma_parts_code_order(a: Seq<(u8, Seq<char>)>, b: Seq<(u8, Seq<char>)>)
    ensures
        lex_lt(parts_code(a), parts_code(b)) == parts_lt(a, b),
        (parts_code(a) == parts_code(b)) == (a == b),
    decreases a.len(),
{
    if a.len() == 0 && b.len() == 0 {
        assert(a =~= b);
    } else if b.len() == 0 {
        lemma_parts_code_cons(a[0], a.drop_first());
        assert(a =~= seq![a[0]] + a.drop_first());
        assert(parts_code(b) =~= Seq::<u32>::empty());
        assert(parts_code(a).len() >= part_code(a[0]).len() > 0);
    } else if a.len() == 0 {
        lemma_parts_code_cons(b[0], b.drop_first());
        assert(b =~= seq![b[0]] + b.drop_first());
        assert(parts_code(a) =~= Seq::<u32>::empty());
        assert(parts_code(b).len() >= part_code(b[0]).len() > 0);
    } else {
        let ta = a.drop_first();
        let tb = b.drop_first();
        assert(a =~= seq![a[0]] + ta);
        assert(b =~= seq![b[0]] + tb);
        lemma_parts_code_cons(a[0], ta);
        lemma_parts_code_cons(b[0], tb);
        lemma_part_code_concat(a[0], b[0], parts_code(ta), parts_code(tb));
        lemma_part_code_concat(b[0], a[0], parts_code(tb), parts_code(ta));
        lemma_parts_code_order(ta, tb);
        lemma_lex_irreflexive(parts_code(a));
        if a[0] == b[0] {
            lemma_lex_irreflexive(parts_code(ta));
            lemma_lex_total(parts_code(ta), parts_code(tb));
            lemma_part_code_concat(a[0], b[0], parts_code(tb), parts_code(ta));
        } else {
            lemma_part_lt_total(a[0], b[0]);
        }
        if parts_code(a) == parts_code(b) {
            lemma_lex_irreflexive(parts_code(b));
        }
    }
}

proof fn lemma_part_lt_total(p: (u8, Seq<char>), q: (u8, Seq<char>))
    requires
        p != q,
    ensures
        part_lt(p, q) || part_lt(q, p),
{
    if p.0 == q.0 {
        lemma_lex_total(codes(p.1), codes(q.1));
        if codes(p.1) == codes(q.1) {
            crate::text::lemma_codes_injective(p.1, q.1);
        }
    }
}

/// The key order of two paths is their component order, and their keys are
/// equal exactly when their components are.
pub proof fn lemma_path_key_order(a: Seq<char>, b: Seq<char>)
    ensures
        lex_lt(path_key(a), path_key(b)) == parts_lt(path_components(a), path_components(b)),
        (path_key(a) == path_key(b)) == (path_components(a) == path_components(b)),
{
    lemma_parts_code_order(path_components(a), path_components(b));
}

fn part_code_of(kind: u8, text: &str) -> (code: Vec<u32>)
    ensures
        code@ == part_code((kind, text@)),
{
    let cs = char_codes(text);
    let mut code: Vec<u32> = Vec::new();
    code.push(kind as u32);
    let mut i: usize = 0;
    while i < cs.len()
        invariant
            cs@ == codes(text@),
            i <= cs.len(),
            code@ == seq![kind as u32] + cs@.take(i as int).map_values(|c: u32| (c + 1) as u32),
        decreases cs.len() - i,
    {
        assert(codes(text@)[i as int] == text@[i as int] as u32);
        proof {
            lemma_code_bound(text@[i as int]);
        }
        let c = cs[i] + 1;
        code.push(c);
        i = i + 1;
        assert(cs@.take(i as int).map_values(|c: u32| (c + 1) as u32) =~= cs@.take(
            (i - 1) as int,
        ).map_values(|c: u32| (c + 1) as u32).push(c));
    }
    code.push(0);
    assert(cs@.take(i as int) =~= cs@);
    code
}

/// The ordering key of `path`.
pub fn path_key_of(path: &str) -> (key: Vec<u32>)
    ensures
        key@ == path_key(path@),
{
    let parts = components_of(path);
    let ghost pv = parts@.map_values(|p: (u8, String)| (p.0, p.1@));
    let mut key: Vec<u32> = Vec::new();
    let mut i: usize = 0;
    while i < parts.len()
        invariant
            pv == parts@.map_values(|p: (u8, String)| (p.0, p.1@)),
            pv == path_components(path@),
            i <= parts.len(),
            key@ == parts_code(pv.take(i as int)),
        decreases parts.len() - i,
    {
        let mut code = part_code_of(parts[i].0, parts[i].1.as_str());
        assert(pv[i as int] == (parts@[i as int].0, parts@[i as int].1@));
        assert(pv.take(i + 1).drop_last() =~= pv.take(i as int));
        key.append(&mut code);
        i = i + 1;
    }
    assert(pv.take(i as int) =~= pv);
    key
}

/// The final component of `path` when it is a normal one (what
/// `Path::file_name` returns): none for a path that ends in a root, a `.` or
/// a `..`.
pub open spec fn file_name(path: Seq<char>) -> Option<Seq<char>> {
    let parts = path_components(path);
    if parts.len() > 0 && parts.last().0 == 4 {
        Some(parts.last().1)
    } else {
        None
    }
}

/// The position of the last `.` in `name`, or -1 if there is none.
pub open spec fn last_dot(name: Seq<char>) -> int
    decreases name.len(),
{
    if name.len() == 0 {
        -1
    } else if name.last() == '.' {
        name.len() - 1
    } else {
        last_dot(name.drop_last())
    }
}

/// The stem of a file name (as `Path::file_stem` defines it): the whole name
/// if it has no `.` other than a leading one, else the part before the last `.`.
pub open spec fn stem_of(name: Seq<char>) -> Seq<char> {
    if last_dot(name) <= 0 {
        name
    } else {
        name.take(last_dot(name))
    }
}

/// The extension of a file name (as `Path::extension` defines it): none if
/// it has no `.` other than a leading one, else the part after the last `.`.
pub open spec fn extension_of(name: Seq<char>) -> Option<Seq<char>> {
    if last_dot(name) <= 0 {
        None
    } else {
        Some(name.skip(last_dot(name) + 1))
    }
}

proof fn lemma_last_dot_bounds(name: Seq<char>)
    ensures
        -1 <= last_dot(name) < name.len(),
        last_dot(name) >= 0 ==> name[last_dot(name)] == '.',
        forall|k: int| last_dot(name) < k < name.len() ==> name[k] != '.',
    decreases name.len(),
{
    if name.len() > 0 && name.last() != '.' {
        lemma_last_dot_bounds(name.drop_last());
        assert forall|k: int| last_dot(name) < k < name.len() implies name[k] != '.' by {
            if k < name.len() - 1 {
                assert(name.drop_last()[k] == name[k]);
            }
        }
    }
}

/// The position of the last `.` in `name`, if there is one.
fn find_last_dot(name: &Vec<char>) -> (pos: Option<usize>)
    ensures
        pos matches Some(p) ==> last_dot(name@) == p,
        pos is None ==> last_dot(name@) == -1,
{
    let mut k: usize = name.len();
    assert(name@.take(k as int) =~= name@);
    while k > 0
        invariant
            k <= name.len(),
            last_dot(name@) == last_dot(name@.take(k as int)),
        decreases k,
    {
        let ghost t = name@.take(k as int);
        assert(t.last() == name@[k - 1]);
        assert(t.drop_last() =~= name@.take(k - 1));
        if name[k - 1] == '.' {
            return Some(k - 1);
        }
        k = k - 1;
    }
    assert(name@.take(0) =~= Seq::<char>::empty());
    None
}

/// The final component of `path`, if it is a normal one.
pub fn file_name_of(path: &str) -> (name: Option<String>)
    ensures
        name matches Some(n) ==> file_name(path@) == Some(n@),
        name is None ==> file_name(path@) is None,
{
    let mut parts = components_of(path);
    let ghost pv = parts@.map_values(|p: (u8, String)| (p.0, p.1@));
    if parts.len() == 0 {
        return None;
    }
    let last = parts.pop().unwrap();
    assert(pv.last() == (last.0, last.1@));
    if last.0 == 4 {
        Some(last.1)
    } else {
        None
    }
}

/// The stem of the file name `name`.
pub fn stem_of_name(name: &str) -> (stem: String)
    ensures
        stem@ == stem_of(name@),
{
    let cs = crate::text::chars_of(name);
    proof {
        lemma_last_dot_bounds(name@);
    }
    match find_last_dot(&cs) {
        Some(dot) if dot > 0 => collect_chars(&cs, 0, dot),
        _ => {
            assert(cs@.subrange(0, cs@.len() as int) =~= cs@);
            collect_chars(&cs, 0, cs.len())
        },
    }
}

/// The extension of the file name `name`, if it has one.
pub fn extension_of_name(name: &str) -> (ext: Option<String>)
    ensures
        ext matches Some(e) ==> extension_of(name@) == Some(e@),
        ext is None ==> extension_of(name@) is None,
{
    let cs = crate::text::chars_of(name);
    proof {
        lemma_last_dot_bounds(name@);
    }
    match find_last_dot(&cs) {
        Some(dot) if dot > 0 => {
            assert(dot < cs.len());
            assert(cs@.subrange(dot + 1, cs@.len() as int) =~= cs@.skip(dot + 1));
            Some(collect_chars(&cs, dot + 1, cs.len()))
        },
        _ => None,
    }
}

/// The characters of `cs` from `start` up to `end`, as a string.
fn collect_chars(cs: &Vec<char>, start: usize, end: usize) -> (s: String)
    requires
        start <= end <= cs.len(),
    ensures
        s@ == cs@.subrange(start as int, end as int),
{
    let mut s = String::new();
    let mut k: usize = start;
    while k < end
        invariant
            start <= k <= end <= cs.len(),
            s@ == cs@.subrange(start as int, k as int),
        decreases end - k,
    {
        push_char(&mut s, cs[k]);
        assert(cs@.subrange(start as int, k + 1) =~= cs@.subrange(start as int, k as int).push(
            cs@[k as int],
        ));
        k = k + 1;
    }
    s
}

/// Appends `c` to `s` with `String::push`.
#[verifier::external_body]
fn push_char(s: &mut String, c: char)
    ensures
        final(s)@ == old(s)@.push(c),
{
    s.push(c);
}

} // verus!
