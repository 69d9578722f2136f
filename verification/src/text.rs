//! Text helpers: equality and lexicographic order of strings, and the
//! handful of path operations the engine needs. Paths are strings whose
//! components are separated by `/`.

use vstd::prelude::*;
use vstd::string::*;
use vstd::utf8::*;

verus! {

/// Lexicographic order of byte sequences: the first differing byte decides,
/// and a proper prefix comes first.
pub open spec fn lex_lt(a: Seq<u8>, b: Seq<u8>) -> bool
    decreases a.len(),
{
    if b.len() == 0 {
        false
    } else if a.len() == 0 {
        true
    } else if a[0] != b[0] {
        a[0] < b[0]
    } else {
        lex_lt(a.drop_first(), b.drop_first())
    }
}

/// The order of keys: lexicographic order of their UTF-8 bytes, which is
/// how strings compare.
pub open spec fn key_lt(a: Seq<char>, b: Seq<char>) -> bool {
    lex_lt(encode_utf8(a), encode_utf8(b))
}

/// No sequence comes before itself.
pub proof fn lemma_lex_irreflexive(a: Seq<u8>)
    ensures
        !lex_lt(a, a),
    decreases a.len(),
{
    if a.len() > 0 {
        lemma_lex_irreflexive(a.drop_first());
    }
}

/// The order is transitive.
pub proof fn lemma_lex_transitive(a: Seq<u8>, b: Seq<u8>, c: Seq<u8>)
    requires
        lex_lt(a, b),
        lex_lt(b, c),
    ensures
        lex_lt(a, c),
    decreases a.len(),
{
    if a.len() > 0 && a[0] == b[0] && b[0] == c[0] {
        lemma_lex_transitive(a.drop_first(), b.drop_first(), c.drop_first());
    }
}

/// Of two different sequences one comes before the other.
pub proof fn lemma_lex_total(a: Seq<u8>, b: Seq<u8>)
    ensures
        lex_lt(a, b) || lex_lt(b, a) || a == b,
    decreases a.len(),
{
    if a.len() > 0 && b.len() > 0 && a[0] == b[0] {
        lemma_lex_total(a.drop_first(), b.drop_first());
        if a.drop_first() == b.drop_first() {
            assert(a =~= seq![a[0]] + a.drop_first());
            assert(b =~= seq![b[0]] + b.drop_first());
        }
    } else if a.len() == 0 && b.len() == 0 {
        assert(a =~= b);
    }
}

/// The order of keys is a strict total order.
pub proof fn lemma_key_order(a: Seq<char>, b: Seq<char>, c: Seq<char>)
    ensures
        !key_lt(a, a),
        key_lt(a, b) && key_lt(b, c) ==> key_lt(a, c),
        key_lt(a, b) || key_lt(b, a) || a == b,
        key_lt(a, b) ==> !key_lt(b, a),
{
    lemma_lex_irreflexive(encode_utf8(a));
    if key_lt(a, b) && key_lt(b, c) {
        lemma_lex_transitive(encode_utf8(a), encode_utf8(b), encode_utf8(c));
    }
    lemma_lex_total(encode_utf8(a), encode_utf8(b));
    encode_utf8_decode_utf8(a);
    encode_utf8_decode_utf8(b);
    if key_lt(a, b) && key_lt(b, a) {
        lemma_lex_transitive(encode_utf8(a), encode_utf8(b), encode_utf8(a));
    }
}

/// Whether two strings hold the same text.
pub fn text_eq(a: &str, b: &str) -> (same: bool)
    ensures
        same == (a@ == b@),
{
    let x = a.as_bytes();
    let y = b.as_bytes();
    proof {
        encode_utf8_decode_utf8(a@);
        encode_utf8_decode_utf8(b@);
    }
    if x.len() != y.len() {
        return false;
    }
    let mut i: usize = 0;
    while i < x.len()
        invariant
            i <= x.len(),
            x.len() == y.len(),
            x@ == encode_utf8(a@),
            y@ == encode_utf8(b@),
            forall|k: int| 0 <= k < i ==> x@[k] == y@[k],
        decreases x.len() - i,
    {
        if x[i] != y[i] {
            assert(x@[i as int] != y@[i as int]);
            return false;
        }
        i += 1;
    }
    assert(x@ =~= y@);
    true
}

/// Whether `a` comes before `b` in the order of keys.
pub fn text_lt(a: &str, b: &str) -> (before: bool)
    ensures
        before == key_lt(a@, b@),
{
    let x = a.as_bytes();
    let y = b.as_bytes();
    let mut i: usize = 0;
    assert(x@.skip(0) =~= x@ && y@.skip(0) =~= y@);
    while i < x.len() && i < y.len()
        invariant
            i <= x.len(),
            i <= y.len(),
            x@ == encode_utf8(a@),
            y@ == encode_utf8(b@),
            lex_lt(x@, y@) == lex_lt(x@.skip(i as int), y@.skip(i as int)),
        decreases x.len() - i,
    {
        let ghost xs = x@.skip(i as int);
        let ghost ys = y@.skip(i as int);
        assert(xs[0] == x@[i as int] && ys[0] == y@[i as int]);
        if x[i] != y[i] {
            return x[i] < y[i];
        }
        assert(xs.drop_first() =~= x@.skip(i + 1));
        assert(ys.drop_first() =~= y@.skip(i + 1));
        i += 1;
    }
    i < y.len()
}

/// An owned copy of a string.
pub fn copy_text(text: &str) -> (copy: String)
    ensures
        copy@ == text@,
{
    String::from_str(text)
}

/// A path below `parent`: the parent, a separator and the name.
pub open spec fn path_join(parent: Seq<char>, name: Seq<char>) -> Seq<char> {
    parent + seq!['/'] + name
}

/// Whether a path starts at the root of the file system.
pub open spec fn is_absolute(path: Seq<char>) -> bool {
    path.len() > 0 && path[0] == '/'
}

/// Whether `child` is `parent` itself or lies below it.
pub open spec fn path_under(parent: Seq<char>, child: Seq<char>) -> bool {
    child == parent || (child.len() > parent.len() && child.subrange(0, parent.len() as int)
        == parent && child[parent.len() as int] == '/')
}

/// What is left of `child` once `parent` and the separator after it are
/// taken away; empty where the two are the same path.
pub open spec fn path_relative(parent: Seq<char>, child: Seq<char>) -> Seq<char> {
    if child.len() > parent.len() {
        child.subrange(parent.len() as int + 1, child.len() as int)
    } else {
        Seq::empty()
    }
}

/// Joining and then taking the parent away gives the name back.
pub proof fn lemma_join_relative(parent: Seq<char>, name: Seq<char>)
    ensures
        path_under(parent, path_join(parent, name)),
        path_relative(parent, path_join(parent, name)) == name,
        is_absolute(parent) ==> is_absolute(path_join(parent, name)),
{
    let joined = path_join(parent, name);
    assert(joined.subrange(0, parent.len() as int) =~= parent);
    assert(joined.subrange(parent.len() as int + 1, joined.len() as int) =~= name);
}

/// What lies below a path lies below every path above it.
pub proof fn lemma_under_transitive(a: Seq<char>, b: Seq<char>, c: Seq<char>)
    requires
        path_under(a, b),
        path_under(b, c),
    ensures
        path_under(a, c),
{
    if b != a && c != b {
        assert(c.subrange(0, a.len() as int) =~= b.subrange(0, a.len() as int)) by {
            assert(c.subrange(0, b.len() as int) == b);
            assert forall|k: int| 0 <= k < a.len() implies c[k] == b[k] by {
                assert(c.subrange(0, b.len() as int)[k] == c[k]);
            }
        }
        assert(c.subrange(0, b.len() as int)[a.len() as int] == c[a.len() as int]);
    }
}

/// Joins a directory's path and the name of an entry in it.
pub fn join_path(parent: &str, name: &str) -> (joined: String)
    ensures
        joined@ == path_join(parent@, name@),
{
    proof {
        reveal_strlit("/");
    }
    let mut joined = String::from_str(parent);
    joined.append("/");
    joined.append(name);
    assert("/"@ =~= seq!['/']);
    joined
}

/// Whether a path starts at the root of the file system.
pub fn path_is_absolute(path: &str) -> (absolute: bool)
    ensures
        absolute == is_absolute(path@),
{
    path.unicode_len() > 0 && path.get_char(0) == '/'
}

/// Whether `child` is `parent` itself or lies below it.
pub fn is_path_under(parent: &str, child: &str) -> (under: bool)
    ensures
        under == path_under(parent@, child@),
{
    let n = parent.unicode_len();
    let m = child.unicode_len();
    if m < n {
        return false;
    }
    if m == n {
        return text_eq(parent, child);
    }
    let head = child.substring_char(0, n);
    text_eq(head, parent) && child.get_char(n) == '/'
}

/// The components of a path: the pieces between separators, empty pieces
/// left out.
pub open spec fn path_components(path: Seq<char>) -> Seq<Seq<char>>
    decreases path.len(),
{
    if path.len() == 0 {
        Seq::empty()
    } else {
        let head = path_components(path.drop_last());
        if path.last() == '/' {
            head
        } else if path.len() >= 2 && path[path.len() - 2] != '/' {
            head.drop_last().push(head.last().push(path.last()))
        } else {
            head.push(seq![path.last()])
        }
    }
}

/// Splits a path into its components.
pub fn split_path(path: &str) -> (parts: Vec<String>)
    ensures
        parts@.len() == path_components(path@).len(),
        forall|i: int| 0 <= i < parts@.len() ==> (#[trigger] parts@[i])@
            == path_components(path@)[i],
{
    let n = path.unicode_len();
    let mut parts: Vec<String> = Vec::new();
    let mut start: usize = 0;
    let mut i: usize = 0;
    assert(path@.take(0) =~= Seq::empty());
    // `start..i` is the component being read, closed once a separator or
    // the end of the path is met.
    while i < n
        invariant
            n == path@.len(),
            start <= i <= n,
            forall|k: int| start <= k < i ==> path@[k] != '/',
            start > 0 ==> path@[start - 1] == '/',
            start < i ==> path_components(path@.take(i as int)).len() == parts@.len() + 1,
            start < i ==> path_components(path@.take(i as int)).last() == path@.subrange(
                start as int,
                i as int,
            ),
            start == i ==> path_components(path@.take(i as int)).len() == parts@.len(),
            forall|k: int|
                0 <= k < parts@.len() ==> (#[trigger] parts@[k])@ == path_components(
                    path@.take(i as int),
                )[k],
        decreases n - i,
    {
        let ghost before = path@.take(i as int);
        let ghost after = path@.take(i + 1);
        assert(after.drop_last() =~= before);
        assert(after.last() == path@[i as int]);
        let c = path.get_char(i);
        if c == '/' {
            if start < i {
                let piece = path.substring_char(start, i);
                parts.push(String::from_str(piece));
            }
            start = i + 1;
        } else {
            proof {
                if start < i {
                    assert(after[after.len() - 2] == path@[i - 1]);
                    assert(path@.subrange(start as int, i as int).push(c) =~= path@.subrange(
                        start as int,
                        i + 1,
                    ));
                } else {
                    if i > 0 {
                        assert(after[after.len() - 2] == path@[i - 1]);
                    }
                    assert(seq![c] =~= path@.subrange(start as int, i + 1));
                }
            }
        }
        i += 1;
    }
    assert(path@.take(n as int) =~= path@);
    if start < n {
        let piece = path.substring_char(start, n);
        parts.push(String::from_str(piece));
    }
    parts
}

} // verus!
