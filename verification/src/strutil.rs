use vstd::prelude::*;
use vstd::string::*;

verus! {

/// Append every character of `piece` to `out`.
pub fn push_str_chars(out: &mut Vec<char>, piece: &str)
    ensures
        final(out)@ == old(out)@ + piece@,
{
    let n = piece.unicode_len();
    let mut i: usize = 0;
    while i < n
        invariant
            n == piece@.len(),
            0 <= i <= n,
            out@ == old(out)@ + piece@.subrange(0, i as int),
        decreases n - i,
    {
        let c = piece.get_char(i);
        out.push(c);
        proof {
            assert(piece@.subrange(0, i as int).push(piece@[i as int]) =~= piece@.subrange(
                0,
                i + 1 as int,
            ));
        }
        i += 1;
    }
    proof {
        assert(piece@.subrange(0, n as int) =~= piece@);
    }
}

/// Relies on String implementing FromIterator<char>: collecting characters
/// yields the string made of exactly those characters in order.
#[verifier::external_body]
pub fn chars_to_string(v: &Vec<char>) -> (r: String)
    ensures
        r@ == v@,
{
    v.iter().collect()
}

/// The characters of `s`, as a vector.
pub fn str_chars(s: &str) -> (r: Vec<char>)
    ensures
        r@ == s@,
{
    let mut out: Vec<char> = Vec::new();
    push_str_chars(&mut out, s);
    out
}

/// ASCII whitespace, as used to separate tokens of an HTML class attribute.
pub open spec fn is_ws(c: char) -> bool {
    c == ' ' || c == '\t' || c == '\n' || c == '\r' || c == '\u{c}'
}

pub fn is_ws_exec(c: char) -> (r: bool)
    ensures
        r == is_ws(c),
{
    c == ' ' || c == '\t' || c == '\n' || c == '\r' || c == '\u{c}'
}

/// The maximal runs of non-whitespace characters of `s`, in order: the first
/// character either is skipped (whitespace), starts a fresh token (next one
/// is whitespace or the end), or extends the first token of the rest.
pub open spec fn split_ws(s: Seq<char>) -> Seq<Seq<char>>
    decreases s.len(),
{
    if s.len() == 0 {
        Seq::empty()
    } else if is_ws(s[0]) {
        split_ws(s.drop_first())
    } else {
        let rest = split_ws(s.drop_first());
        if s.len() > 1 && !is_ws(s[1]) {
            seq![seq![s[0]] + rest[0]] + rest.drop_first()
        } else {
            seq![seq![s[0]]] + rest
        }
    }
}

fn split_ws_chars(v: &Vec<char>, i: usize) -> (r: Vec<Vec<char>>)
    requires
        i <= v@.len(),
    ensures
        r.deep_view() == split_ws(v@.skip(i as int)),
    decreases v@.len() - i,
{
    if i == v.len() {
        let r: Vec<Vec<char>> = Vec::new();
        proof {
            assert(v@.skip(i as int) =~= Seq::<char>::empty());
            assert(r.deep_view() =~~= split_ws(v@.skip(i as int)));
        }
        return r;
    }
    let c = v[i];
    let mut rest = split_ws_chars(v, i + 1);
    proof {
        assert(v@.skip(i as int).drop_first() =~= v@.skip(i + 1 as int));
    }
    if is_ws_exec(c) {
        rest
    } else if i + 1 < v.len() && !is_ws_exec(v[i + 1]) {
        let ghost spec_r = split_ws(v@.skip(i as int));
        let mut first: Vec<char> = Vec::new();
        first.push(c);
        let mut old_first = rest.remove(0);
        first.append(&mut old_first);
        rest.insert(0, first);
        proof {
            assert(rest.deep_view() =~~= spec_r);
        }
        rest
    } else {
        let mut first: Vec<char> = Vec::new();
        first.push(c);
        rest.insert(0, first);
        proof {
            assert(rest.deep_view() =~~= split_ws(v@.skip(i as int)));
        }
        rest
    }
}

/// Split `s` into its whitespace-separated tokens.
pub fn split_whitespace_vec(s: &str) -> (r: Vec<String>)
    ensures
        r.deep_view() == split_ws(s@),
{
    let v = str_chars(s);
    let parts = split_ws_chars(&v, 0);
    let mut r: Vec<String> = Vec::new();
    let mut i: usize = 0;
    while i < parts.len()
        invariant
            0 <= i <= parts@.len(),
            r@.len() == i as int,
            forall|j: int| 0 <= j < i ==> (#[trigger] r@[j])@ == parts@[j]@,
        decreases parts@.len() - i,
    {
        let t = chars_to_string(&parts[i]);
        r.push(t);
        i += 1;
    }
    proof {
        assert forall|j: int| 0 <= j < parts@.len() implies r.deep_view()[j]
            == parts.deep_view()[j] by {
            assert(r.deep_view()[j] == r@[j].deep_view());
            assert(parts.deep_view()[j] == parts@[j].deep_view());
            assert(parts@[j].deep_view() =~= parts@[j]@);
        }
        assert(r.deep_view() =~= parts.deep_view());
        assert(v@.skip(0) =~= v@);
    }
    r
}

}
