use vstd::prelude::*;
use crate::fetchers::{ContentModel, FoundItemContent, FoundModel};
use crate::serializer::{
    esc_all, esc_char, hex_digit, json_batch_items, json_found_items, json_of_batch,
    json_of_content, json_of_found, json_of_opt, json_payload, json_rel_items, json_string,
    json_str_items,
};

verus! {

// ---------------------------------------------------------------------------
// Deserialization of the structured form.  The decoder accepts exactly what
// the serializer emits; what it returns re-encodes to its input.
// ---------------------------------------------------------------------------

/// A result node as the structured form records it: name, content, and the
/// ordered optional children.  The spec node's selector, kind and root mark
/// are not part of the structured form.
#[derive(Debug, PartialEq, Eq)]
pub struct DecodedItem {
    pub name: String,
    pub content: FoundItemContent,
    pub related: Vec<Option<DecodedItem>>,
}

/// Model of a decoded node.
#[verifier::ext_equal]
pub struct DecodedModel {
    pub name: Seq<char>,
    pub content: ContentModel,
    pub related: Seq<Option<DecodedModel>>,
}

pub open spec fn decoded_model(d: DecodedItem) -> DecodedModel
    decreases d,
{
    DecodedModel {
        name: d.name@,
        content: crate::fetchers::content_model(d.content),
        related: decoded_opt_models(d.related@),
    }
}

pub open spec fn decoded_opt_model(o: Option<DecodedItem>) -> Option<DecodedModel>
    decreases o,
{
    match o {
        Option::Some(d) => Option::Some(decoded_model(d)),
        Option::None => Option::None,
    }
}

pub open spec fn decoded_opt_models(s: Seq<Option<DecodedItem>>) -> Seq<Option<DecodedModel>>
    decreases s,
{
    if s.len() == 0 {
        Seq::empty()
    } else {
        decoded_opt_models(s.drop_last()).push(decoded_opt_model(s.last()))
    }
}

pub broadcast proof fn lemma_decoded_opt_models(s: Seq<Option<DecodedItem>>)
    ensures
        (#[trigger] decoded_opt_models(s)).len() == s.len(),
        forall|i: int| 0 <= i < s.len() ==> decoded_opt_models(s)[i] == decoded_opt_model(s[i]),
    decreases s,
{
    if s.len() > 0 {
        lemma_decoded_opt_models(s.drop_last());
    }
}

pub open spec fn decoded_models(s: Seq<DecodedItem>) -> Seq<DecodedModel>
    decreases s,
{
    if s.len() == 0 {
        Seq::empty()
    } else {
        decoded_models(s.drop_last()).push(decoded_model(s.last()))
    }
}

pub broadcast proof fn lemma_decoded_models(s: Seq<DecodedItem>)
    ensures
        (#[trigger] decoded_models(s)).len() == s.len(),
        forall|i: int| 0 <= i < s.len() ==> decoded_models(s)[i] == decoded_model(s[i]),
    decreases s,
{
    if s.len() > 0 {
        lemma_decoded_models(s.drop_last());
    }
}

pub open spec fn decoded_batches_model(s: Seq<Vec<DecodedItem>>) -> Seq<Seq<DecodedModel>>
    decreases s,
{
    if s.len() == 0 {
        Seq::empty()
    } else {
        decoded_batches_model(s.drop_last()).push(decoded_models(s.last()@))
    }
}

pub broadcast proof fn lemma_decoded_batches_model(s: Seq<Vec<DecodedItem>>)
    ensures
        (#[trigger] decoded_batches_model(s)).len() == s.len(),
        forall|i: int| 0 <= i < s.len() ==> decoded_batches_model(s)[i] == decoded_models(s[i]@),
    decreases s,
{
    if s.len() > 0 {
        lemma_decoded_batches_model(s.drop_last());
    }
}

// ---------------------------------------------------------------------------
// The projection that the structured form preserves.
// ---------------------------------------------------------------------------

/// What the structured form records of a result node: its name, its content
/// tag and value, and the shape of its children.
pub open spec fn dproj(f: FoundModel) -> DecodedModel
    decreases f, 0int,
{
    DecodedModel { name: f.item.name, content: f.content, related: dproj_opts(f.related) }
}

pub open spec fn dproj_opt(o: Option<FoundModel>) -> Option<DecodedModel>
    decreases o, 1int,
{
    match o {
        Option::Some(f) => Option::Some(dproj(f)),
        Option::None => Option::None,
    }
}

pub open spec fn dproj_opts(rs: Seq<Option<FoundModel>>) -> Seq<Option<DecodedModel>>
    decreases rs, 2int,
{
    if rs.len() == 0 {
        Seq::empty()
    } else {
        seq![dproj_opt(rs[0])] + dproj_opts(rs.drop_first())
    }
}

pub open spec fn dproj_batch(b: Seq<FoundModel>) -> Seq<DecodedModel>
    decreases b.len(),
{
    if b.len() == 0 {
        Seq::empty()
    } else {
        seq![dproj(b[0])] + dproj_batch(b.drop_first())
    }
}

pub open spec fn dproj_batches(bs: Seq<Seq<FoundModel>>) -> Seq<Seq<DecodedModel>>
    decreases bs.len(),
{
    if bs.len() == 0 {
        Seq::empty()
    } else {
        seq![dproj_batch(bs[0])] + dproj_batches(bs.drop_first())
    }
}

// ---------------------------------------------------------------------------
// Character tables.
// ---------------------------------------------------------------------------

/// The value of a lowercase hex digit, if it is one.
pub open spec fn un_hex_digit(h: char) -> Option<int> {
    if h == '0' {
        Option::Some(0)
    } else if h == '1' {
        Option::Some(1)
    } else if h == '2' {
        Option::Some(2)
    } else if h == '3' {
        Option::Some(3)
    } else if h == '4' {
        Option::Some(4)
    } else if h == '5' {
        Option::Some(5)
    } else if h == '6' {
        Option::Some(6)
    } else if h == '7' {
        Option::Some(7)
    } else if h == '8' {
        Option::Some(8)
    } else if h == '9' {
        Option::Some(9)
    } else if h == 'a' {
        Option::Some(10)
    } else if h == 'b' {
        Option::Some(11)
    } else if h == 'c' {
        Option::Some(12)
    } else if h == 'd' {
        Option::Some(13)
    } else if h == 'e' {
        Option::Some(14)
    } else if h == 'f' {
        Option::Some(15)
    } else {
        Option::None
    }
}

/// The control character with the given code point.
pub open spec fn ctrl_char(n: int) -> char {
    if n == 0 {
        '\u{0}'
    } else if n == 1 {
        '\u{1}'
    } else if n == 2 {
        '\u{2}'
    } else if n == 3 {
        '\u{3}'
    } else if n == 4 {
        '\u{4}'
    } else if n == 5 {
        '\u{5}'
    } else if n == 6 {
        '\u{6}'
    } else if n == 7 {
        '\u{7}'
    } else if n == 8 {
        '\u{8}'
    } else if n == 9 {
        '\u{9}'
    } else if n == 10 {
        '\u{a}'
    } else if n == 11 {
        '\u{b}'
    } else if n == 12 {
        '\u{c}'
    } else if n == 13 {
        '\u{d}'
    } else if n == 14 {
        '\u{e}'
    } else if n == 15 {
        '\u{f}'
    } else if n == 16 {
        '\u{10}'
    } else if n == 17 {
        '\u{11}'
    } else if n == 18 {
        '\u{12}'
    } else if n == 19 {
        '\u{13}'
    } else if n == 20 {
        '\u{14}'
    } else if n == 21 {
        '\u{15}'
    } else if n == 22 {
        '\u{16}'
    } else if n == 23 {
        '\u{17}'
    } else if n == 24 {
        '\u{18}'
    } else if n == 25 {
        '\u{19}'
    } else if n == 26 {
        '\u{1a}'
    } else if n == 27 {
        '\u{1b}'
    } else if n == 28 {
        '\u{1c}'
    } else if n == 29 {
        '\u{1d}'
    } else if n == 30 {
        '\u{1e}'
    } else {
        '\u{1f}'
    }
}

// ---------------------------------------------------------------------------
// The specification decoder, over character sequences.  Each function takes
// the remaining input and returns what it decoded with the rest, or `None`.
// The guards comparing a remainder against the input's length can never be
// taken on a remainder the functions themselves produced; they make
// termination evident.
// ---------------------------------------------------------------------------

/// Consume `p` from the front of `s`.
pub open spec fn strip_prefix(s: Seq<char>, p: Seq<char>) -> Option<Seq<char>> {
    if s.len() >= p.len() && s.subrange(0, p.len() as int) == p {
        Option::Some(s.skip(p.len() as int))
    } else {
        Option::None
    }
}

pub proof fn lemma_strip_prefix(p: Seq<char>, rest: Seq<char>)
    ensures
        strip_prefix(p + rest, p) == Option::Some(rest),
{
    assert((p + rest).subrange(0, p.len() as int) =~= p);
    assert((p + rest).skip(p.len() as int) =~= rest);
}

/// Decode the body of a JSON string, the opening quote already consumed:
/// the string's characters, and what follows the closing quote.
pub open spec fn dec_string_rest(s: Seq<char>) -> Option<(Seq<char>, Seq<char>)>
    decreases s.len(),
{
    if s.len() == 0 {
        Option::None
    } else if s[0] == '"' {
        Option::Some((Seq::empty(), s.drop_first()))
    } else if s[0] == '\\' {
        if s.len() < 2 {
            Option::None
        } else {
            let e = s[1];
            if e == 'u' {
                if s.len() < 6 || s[2] != '0' || s[3] != '0' {
                    Option::None
                } else {
                    match (un_hex_digit(s[4]), un_hex_digit(s[5])) {
                        (Option::Some(d1), Option::Some(d0)) => {
                            let n = 16 * d1 + d0;
                            if n < 32 {
                                match dec_string_rest(s.skip(6)) {
                                    Option::Some((t, r)) => Option::Some(
                                        (seq![ctrl_char(n)] + t, r),
                                    ),
                                    Option::None => Option::None,
                                }
                            } else {
                                Option::None
                            }
                        },
                        _ => Option::None,
                    }
                }
            } else {
                let c = if e == '"' {
                    Option::Some('"')
                } else if e == '\\' {
                    Option::Some('\\')
                } else if e == 'b' {
                    Option::Some('\u{8}')
                } else if e == 't' {
                    Option::Some('\t')
                } else if e == 'n' {
                    Option::Some('\n')
                } else if e == 'f' {
                    Option::Some('\u{c}')
                } else if e == 'r' {
                    Option::Some('\r')
                } else {
                    Option::None
                };
                match c {
                    Option::Some(c) => {
                        match dec_string_rest(s.skip(2)) {
                            Option::Some((t, r)) => Option::Some((seq![c] + t, r)),
                            Option::None => Option::None,
                        }
                    },
                    Option::None => Option::None,
                }
            }
        }
    } else if (s[0] as u32) < 32 {
        Option::None
    } else {
        match dec_string_rest(s.drop_first()) {
            Option::Some((t, r)) => Option::Some((seq![s[0]] + t, r)),
            Option::None => Option::None,
        }
    }
}

/// Decode the items of a non-empty JSON string array, up to and including
/// the closing bracket.
pub open spec fn dec_str_items(s: Seq<char>) -> Option<(Seq<Seq<char>>, Seq<char>)>
    decreases s.len(),
{
    if s.len() == 0 || s[0] != '"' {
        Option::None
    } else {
        match dec_string_rest(s.drop_first()) {
            Option::None => Option::None,
            Option::Some((t, r)) => {
                if r.len() >= s.len() {
                    Option::None
                } else if r.len() == 0 {
                    Option::None
                } else if r[0] == ']' {
                    Option::Some((seq![t], r.drop_first()))
                } else if r[0] == ',' {
                    match dec_str_items(r.drop_first()) {
                        Option::Some((ts, r2)) => Option::Some((seq![t] + ts, r2)),
                        Option::None => Option::None,
                    }
                } else {
                    Option::None
                }
            },
        }
    }
}

/// Decode a content value: a JSON string, or a JSON array of strings.
pub open spec fn dec_content_rest(s: Seq<char>) -> Option<(ContentModel, Seq<char>)> {
    if s.len() == 0 {
        Option::None
    } else if s[0] == '"' {
        match dec_string_rest(s.drop_first()) {
            Option::Some((t, r)) => Option::Some((ContentModel::Str(t), r)),
            Option::None => Option::None,
        }
    } else if s[0] == '[' {
        if s.len() >= 2 && s[1] == ']' {
            Option::Some((ContentModel::Arr(Seq::empty()), s.skip(2)))
        } else {
            match dec_str_items(s.drop_first()) {
                Option::Some((ts, r)) => Option::Some((ContentModel::Arr(ts), r)),
                Option::None => Option::None,
            }
        }
    } else {
        Option::None
    }
}

/// Decode one result-node object.
pub open spec fn dec_found(s: Seq<char>) -> Option<(DecodedModel, Seq<char>)>
    decreases s.len(), 0int,
{
    match strip_prefix(s, seq!['{', '"', 'n', 'a', 'm', 'e', '"', ':', '"']) {
        Option::None => Option::None,
        Option::Some(s1) => {
            match dec_string_rest(s1) {
                Option::None => Option::None,
                Option::Some((name, r1)) => {
                    match strip_prefix(
                        r1,
                        seq![',', '"', 'c', 'o', 'n', 't', 'e', 'n', 't', '"', ':'],
                    ) {
                        Option::None => Option::None,
                        Option::Some(s2) => {
                            match dec_content_rest(s2) {
                                Option::None => Option::None,
                                Option::Some((content, r2)) => {
                                    match strip_prefix(
                                        r2,
                                        seq![
                                            ',',
                                            '"',
                                            'r',
                                            'e',
                                            'l',
                                            'a',
                                            't',
                                            'e',
                                            'd',
                                            '"',
                                            ':',
                                            '[',
                                        ],
                                    ) {
                                        Option::None => Option::None,
                                        Option::Some(s3) => {
                                            if s3.len() >= s.len() {
                                                Option::None
                                            } else if s3.len() >= 2 && s3[0] == ']' && s3[1]
                                                == '}' {
                                                Option::Some(
                                                    (
                                                        DecodedModel {
                                                            name,
                                                            content,
                                                            related: Seq::empty(),
                                                        },
                                                        s3.skip(2),
                                                    ),
                                                )
                                            } else {
                                                match dec_rel_items(s3) {
                                                    Option::None => Option::None,
                                                    Option::Some((related, r3)) => {
                                                        if r3.len() >= 1 && r3[0] == '}' {
                                                            Option::Some(
                                                                (
                                                                    DecodedModel {
                                                                        name,
                                                                        content,
                                                                        related,
                                                                    },
                                                                    r3.drop_first(),
                                                                ),
                                                            )
                                                        } else {
                                                            Option::None
                                                        }
                                                    },
                                                }
                                            }
                                        },
                                    }
                                },
                            }
                        },
                    }
                },
            }
        },
    }
}

/// Decode the items of a non-empty related list, up to and including the
/// closing bracket.
pub open spec fn dec_rel_items(s: Seq<char>) -> Option<(Seq<Option<DecodedModel>>, Seq<char>)>
    decreases s.len(), 1int,
{
    let item = if s.len() >= 4 && s.subrange(0, 4) == seq!['n', 'u', 'l', 'l'] {
        Option::Some((Option::<DecodedModel>::None, s.skip(4)))
    } else {
        match dec_found(s) {
            Option::Some((d, r)) => Option::Some((Option::Some(d), r)),
            Option::None => Option::None,
        }
    };
    match item {
        Option::None => Option::None,
        Option::Some((o, r)) => {
            if r.len() >= s.len() {
                Option::None
            } else if r.len() == 0 {
                Option::None
            } else if r[0] == ']' {
                Option::Some((seq![o], r.drop_first()))
            } else if r[0] == ',' {
                match dec_rel_items(r.drop_first()) {
                    Option::Some((os, r2)) => Option::Some((seq![o] + os, r2)),
                    Option::None => Option::None,
                }
            } else {
                Option::None
            }
        },
    }
}

/// Decode the items of a non-empty batch, up to and including the closing
/// bracket.
pub open spec fn dec_found_items(s: Seq<char>) -> Option<(Seq<DecodedModel>, Seq<char>)>
    decreases s.len(), 1int,
{
    match dec_found(s) {
        Option::None => Option::None,
        Option::Some((d, r)) => {
            if r.len() >= s.len() {
                Option::None
            } else if r.len() == 0 {
                Option::None
            } else if r[0] == ']' {
                Option::Some((seq![d], r.drop_first()))
            } else if r[0] == ',' {
                match dec_found_items(r.drop_first()) {
                    Option::Some((ds, r2)) => Option::Some((seq![d] + ds, r2)),
                    Option::None => Option::None,
                }
            } else {
                Option::None
            }
        },
    }
}

/// Decode one batch: a JSON array of result-node objects.
pub open spec fn dec_batch(s: Seq<char>) -> Option<(Seq<DecodedModel>, Seq<char>)>
    decreases s.len(), 2int,
{
    if s.len() >= 2 && s[0] == '[' && s[1] == ']' {
        Option::Some((Seq::empty(), s.skip(2)))
    } else if s.len() >= 1 && s[0] == '[' {
        dec_found_items(s.drop_first())
    } else {
        Option::None
    }
}

/// Decode the items of a non-empty batch list, up to and including the
/// closing bracket.
pub open spec fn dec_batch_items(s: Seq<char>) -> Option<(Seq<Seq<DecodedModel>>, Seq<char>)>
    decreases s.len(), 3int,
{
    match dec_batch(s) {
        Option::None => Option::None,
        Option::Some((b, r)) => {
            if r.len() >= s.len() {
                Option::None
            } else if r.len() == 0 {
                Option::None
            } else if r[0] == ']' {
                Option::Some((seq![b], r.drop_first()))
            } else if r[0] == ',' {
                match dec_batch_items(r.drop_first()) {
                    Option::Some((bs, r2)) => Option::Some((seq![b] + bs, r2)),
                    Option::None => Option::None,
                }
            } else {
                Option::None
            }
        },
    }
}

/// Decode a whole structured payload; the input must be consumed exactly.
pub open spec fn decode_spec(s: Seq<char>) -> Option<Seq<Seq<DecodedModel>>> {
    if s.len() == 2 && s[0] == '[' && s[1] == ']' {
        Option::Some(Seq::empty())
    } else if s.len() >= 1 && s[0] == '[' {
        match dec_batch_items(s.drop_first()) {
            Option::Some((bs, r)) => if r.len() == 0 {
                Option::Some(bs)
            } else {
                Option::None
            },
            Option::None => Option::None,
        }
    } else {
        Option::None
    }
}


// ---------------------------------------------------------------------------
// Round trip: decoding what the serializer emitted gives back what it
// serialized.
// ---------------------------------------------------------------------------

proof fn lemma_hex_inverse(d: int)
    requires
        0 <= d < 16,
    ensures
        un_hex_digit(hex_digit(d)) == Option::Some(d),
{
}

proof fn lemma_ctrl_char_inverse(c: char)
    requires
        (c as u32) < 32,
    ensures
        ctrl_char((c as u32) as int) == c,
{
}

proof fn lemma_rt_string(t: Seq<char>, rest: Seq<char>)
    ensures
        dec_string_rest(esc_all(t) + seq!['"'] + rest) == Option::Some((t, rest)),
    decreases t.len(),
{
    let input = esc_all(t) + seq!['"'] + rest;
    if t.len() == 0 {
        assert(input =~= seq!['"'] + rest);
        assert(input[0] == '"');
        assert(input.drop_first() =~= rest);
        assert(dec_string_rest(input) == Option::Some((Seq::<char>::empty(), rest)));
        assert(Seq::<char>::empty() =~= t);
    } else {
        let c = t[0];
        let tt = t.drop_first();
        let sub = esc_all(tt) + seq!['"'] + rest;
        lemma_rt_string(tt, rest);
        assert(esc_all(t) == esc_char(c) + esc_all(tt));
        assert(input =~= esc_char(c) + sub);
        if c == '"' {
            assert(input =~= seq!['\\', '"'] + sub);
            assert(input.skip(2) =~= sub);
            assert(seq![c] + tt =~= t);
        } else if c == '\\' {
            assert(input =~= seq!['\\', '\\'] + sub);
            assert(input.skip(2) =~= sub);
            assert(seq![c] + tt =~= t);
        } else if c == '\u{8}' {
            assert(input =~= seq!['\\', 'b'] + sub);
            assert(input.skip(2) =~= sub);
            assert(seq![c] + tt =~= t);
        } else if c == '\t' {
            assert(input =~= seq!['\\', 't'] + sub);
            assert(input.skip(2) =~= sub);
            assert(seq![c] + tt =~= t);
        } else if c == '\n' {
            assert(input =~= seq!['\\', 'n'] + sub);
            assert(input.skip(2) =~= sub);
            assert(seq![c] + tt =~= t);
        } else if c == '\u{c}' {
            assert(input =~= seq!['\\', 'f'] + sub);
            assert(input.skip(2) =~= sub);
            assert(seq![c] + tt =~= t);
        } else if c == '\r' {
            assert(input =~= seq!['\\', 'r'] + sub);
            assert(input.skip(2) =~= sub);
            assert(seq![c] + tt =~= t);
        } else if (c as u32) < 32 {
            let code = (c as u32) as int;
            let d1 = code / 16;
            let d0 = code % 16;
            assert(input =~= seq!['\\', 'u', '0', '0', hex_digit(d1), hex_digit(d0)] + sub);
            lemma_hex_inverse(d1);
            lemma_hex_inverse(d0);
            assert(16 * d1 + d0 == code);
            lemma_ctrl_char_inverse(c);
            assert(input.skip(6) =~= sub);
            assert(seq![c] + tt =~= t);
        } else {
            assert(input =~= seq![c] + sub);
            assert(input.drop_first() =~= sub);
            assert(seq![c] + tt =~= t);
        }
    }
}


proof fn lemma_rt_str_items(vs: Seq<Seq<char>>, rest: Seq<char>)
    requires
        vs.len() >= 1,
    ensures
        dec_str_items(json_str_items(vs) + seq![']'] + rest) == Option::Some((vs, rest)),
    decreases vs.len(),
{
    let input = json_str_items(vs) + seq![']'] + rest;
    if vs.len() == 1 {
        let tail = seq![']'] + rest;
        assert(input =~= seq!['"'] + (esc_all(vs[0]) + seq!['"'] + tail));
        lemma_rt_string(vs[0], tail);
        assert(input.drop_first() =~= esc_all(vs[0]) + seq!['"'] + tail);
        assert(tail.len() < input.len());
        assert(tail[0] == ']');
        assert(tail.drop_first() =~= rest);
        assert(seq![vs[0]] =~= vs);
    } else {
        let vt = vs.drop_first();
        let rest2 = seq![','] + json_str_items(vt) + seq![']'] + rest;
        assert(input =~= seq!['"'] + (esc_all(vs[0]) + seq!['"'] + rest2));
        lemma_rt_string(vs[0], rest2);
        assert(input.drop_first() =~= esc_all(vs[0]) + seq!['"'] + rest2);
        assert(rest2.len() < input.len());
        assert(rest2[0] == ',');
        assert(rest2.drop_first() =~= json_str_items(vt) + seq![']'] + rest);
        lemma_rt_str_items(vt, rest);
        assert(seq![vs[0]] + vt =~= vs);
    }
}

proof fn lemma_rt_content(c: ContentModel, rest: Seq<char>)
    ensures
        dec_content_rest(json_of_content(c) + rest) == Option::Some((c, rest)),
{
    let input = json_of_content(c) + rest;
    match c {
        ContentModel::Str(t) => {
            assert(input =~= seq!['"'] + (esc_all(t) + seq!['"'] + rest));
            assert(input[0] == '"');
            lemma_rt_string(t, rest);
            assert(input.drop_first() =~= esc_all(t) + seq!['"'] + rest);
        },
        ContentModel::Arr(vs) => {
            if vs.len() == 0 {
                assert(json_str_items(vs) =~= Seq::<char>::empty());
                assert(input =~= seq!['[', ']'] + rest);
                assert(input[0] == '[' && input[1] == ']');
                assert(input.skip(2) =~= rest);
            } else {
                assert(input =~= seq!['['] + (json_str_items(vs) + seq![']'] + rest));
                assert(input[0] == '[');
                assert(json_str_items(vs)[0] == '"');
                assert(input[1] == '"');
                lemma_rt_str_items(vs, rest);
                assert(input.drop_first() =~= json_str_items(vs) + seq![']'] + rest);
            }
        },
    }
}

#[verifier::rlimit(80)]
proof fn lemma_rt_found(f: FoundModel, rest: Seq<char>)
    ensures
        dec_found(json_of_found(f) + rest) == Option::Some((dproj(f), rest)),
    decreases f, 0int,
{
    let input = json_of_found(f) + rest;
    let name = f.item.name;
    let lit1 = seq!['{', '"', 'n', 'a', 'm', 'e', '"', ':', '"'];
    let lit2 = seq![',', '"', 'c', 'o', 'n', 't', 'e', 'n', 't', '"', ':'];
    let lit3 = seq![',', '"', 'r', 'e', 'l', 'a', 't', 'e', 'd', '"', ':', '['];
    let relpart = json_rel_items(f.related) + seq![']', '}'] + rest;
    let rest3 = lit3 + relpart;
    let rest2 = json_of_content(f.content) + rest3;
    let rest1 = lit2 + rest2;
    let tail = esc_all(name) + seq!['"'] + rest1;
    assert(input =~= lit1 + tail);
    lemma_strip_prefix(lit1, tail);
    assert(strip_prefix(input, lit1) == Option::Some(tail));
    lemma_rt_string(name, rest1);
    lemma_strip_prefix(lit2, rest2);
    lemma_rt_content(f.content, rest3);
    lemma_strip_prefix(lit3, relpart);
    assert(relpart.len() < input.len());
    if f.related.len() == 0 {
        assert(json_rel_items(f.related) =~= Seq::<char>::empty());
        assert(relpart =~= seq![']', '}'] + rest);
        assert(relpart[0] == ']' && relpart[1] == '}');
        assert(relpart.skip(2) =~= rest);
        assert(dproj_opts(f.related) =~= Seq::<Option<DecodedModel>>::empty());
        assert(dec_found(input) == Option::Some((dproj(f), rest)));
    } else {
        let rs = f.related;
        let close = seq!['}'] + rest;
        assert(relpart =~= json_rel_items(rs) + seq![']'] + close);
        match rs[0] {
            Option::Some(g) => {
                assert(json_of_opt(rs[0])[0] == '{');
            },
            Option::None => {
                assert(json_of_opt(rs[0])[0] == 'n');
            },
        }
        if rs.len() == 1 {
            assert(json_rel_items(rs) == json_of_opt(rs[0]));
        } else {
            assert(json_rel_items(rs) == json_of_opt(rs[0]) + seq![','] + json_rel_items(
                rs.drop_first(),
            ));
        }
        assert(relpart[0] == json_of_opt(rs[0])[0]);
        assert(relpart[0] != ']');
        lemma_rt_rel_items(rs, close);
        assert(close[0] == '}');
        assert(close.drop_first() =~= rest);
        assert(dec_found(input) == Option::Some((dproj(f), rest)));
    }
}

proof fn lemma_rt_rel_items(rs: Seq<Option<FoundModel>>, rest: Seq<char>)
    requires
        rs.len() >= 1,
    ensures
        dec_rel_items(json_rel_items(rs) + seq![']'] + rest) == Option::Some(
            (dproj_opts(rs), rest),
        ),
    decreases rs, 1int,
{
    let input = json_rel_items(rs) + seq![']'] + rest;
    let tail = if rs.len() == 1 {
        seq![']'] + rest
    } else {
        seq![','] + json_rel_items(rs.drop_first()) + seq![']'] + rest
    };
    assert(input =~= json_of_opt(rs[0]) + tail);
    match rs[0] {
        Option::None => {
            assert(input =~= seq!['n', 'u', 'l', 'l'] + tail);
            assert(input.subrange(0, 4) =~= seq!['n', 'u', 'l', 'l']);
            assert(input.skip(4) =~= tail);
            assert(tail.len() < input.len());
        },
        Option::Some(g) => {
            assert(input[0] == '{');
            assert(input.len() >= 4 ==> input.subrange(0, 4)[0] == '{');
            assert(!(input.len() >= 4 && input.subrange(0, 4) == seq!['n', 'u', 'l', 'l']));
            lemma_rt_found(g, tail);
            assert(tail.len() < input.len());
        },
    }
    if rs.len() == 1 {
        assert(tail[0] == ']');
        assert(tail.drop_first() =~= rest);
        assert(seq![dproj_opt(rs[0])] =~= dproj_opts(rs));
    } else {
        assert(tail[0] == ',');
        assert(tail.drop_first() =~= json_rel_items(rs.drop_first()) + seq![']'] + rest);
        lemma_rt_rel_items(rs.drop_first(), rest);
        assert(seq![dproj_opt(rs[0])] + dproj_opts(rs.drop_first()) =~= dproj_opts(rs));
    }
}

#[verifier::rlimit(60)]
proof fn lemma_rt_found_items(b: Seq<FoundModel>, rest: Seq<char>)
    requires
        b.len() >= 1,
    ensures
        dec_found_items(json_found_items(b) + seq![']'] + rest) == Option::Some(
            (dproj_batch(b), rest),
        ),
    decreases b.len(),
{
    let input = json_found_items(b) + seq![']'] + rest;
    let tail = if b.len() == 1 {
        seq![']'] + rest
    } else {
        seq![','] + json_found_items(b.drop_first()) + seq![']'] + rest
    };
    assert(input =~= json_of_found(b[0]) + tail);
    lemma_rt_found(b[0], tail);
    assert(tail.len() < input.len());
    if b.len() == 1 {
        assert(tail[0] == ']');
        assert(tail.drop_first() =~= rest);
        assert(seq![dproj(b[0])] =~= dproj_batch(b));
    } else {
        assert(tail[0] == ',');
        assert(tail.drop_first() =~= json_found_items(b.drop_first()) + seq![']'] + rest);
        lemma_rt_found_items(b.drop_first(), rest);
        assert(seq![dproj(b[0])] + dproj_batch(b.drop_first()) =~= dproj_batch(b));
    }
}

proof fn lemma_rt_batch(b: Seq<FoundModel>, rest: Seq<char>)
    ensures
        dec_batch(json_of_batch(b) + rest) == Option::Some((dproj_batch(b), rest)),
{
    let input = json_of_batch(b) + rest;
    if b.len() == 0 {
        assert(json_found_items(b) =~= Seq::<char>::empty());
        assert(input =~= seq!['[', ']'] + rest);
        assert(input[0] == '[' && input[1] == ']');
        assert(input.skip(2) =~= rest);
        assert(dproj_batch(b) =~= Seq::<DecodedModel>::empty());
    } else {
        assert(input =~= seq!['['] + (json_found_items(b) + seq![']'] + rest));
        assert(input[0] == '[');
        assert(json_found_items(b)[0] == '{');
        assert(input[1] == '{');
        lemma_rt_found_items(b, rest);
        assert(input.drop_first() =~= json_found_items(b) + seq![']'] + rest);
    }
}

#[verifier::rlimit(60)]
proof fn lemma_rt_batch_items(bs: Seq<Seq<FoundModel>>, rest: Seq<char>)
    requires
        bs.len() >= 1,
    ensures
        dec_batch_items(json_batch_items(bs) + seq![']'] + rest) == Option::Some(
            (dproj_batches(bs), rest),
        ),
    decreases bs.len(),
{
    let input = json_batch_items(bs) + seq![']'] + rest;
    let tail = if bs.len() == 1 {
        seq![']'] + rest
    } else {
        seq![','] + json_batch_items(bs.drop_first()) + seq![']'] + rest
    };
    assert(input =~= json_of_batch(bs[0]) + tail);
    lemma_rt_batch(bs[0], tail);
    assert(tail.len() < input.len());
    if bs.len() == 1 {
        assert(tail[0] == ']');
        assert(tail.drop_first() =~= rest);
        assert(seq![dproj_batch(bs[0])] =~= dproj_batches(bs));
    } else {
        assert(tail[0] == ',');
        assert(tail.drop_first() =~= json_batch_items(bs.drop_first()) + seq![']'] + rest);
        lemma_rt_batch_items(bs.drop_first(), rest);
        assert(seq![dproj_batch(bs[0])] + dproj_batches(bs.drop_first()) =~= dproj_batches(bs));
    }
}

/// The round-trip law of the structured form: serializing any batch
/// collection and decoding the result succeeds and reproduces every node's
/// name, its content with its scalar-or-list tag, and the exact tree shape
/// of present and absent children.
pub proof fn lemma_structured_round_trip(bs: Seq<Seq<FoundModel>>)
    ensures
        decode_spec(json_payload(bs)) == Option::Some(dproj_batches(bs)),
{
    let input = json_payload(bs);
    if bs.len() == 0 {
        assert(json_batch_items(bs) =~= Seq::<char>::empty());
        assert(input =~= seq!['[', ']']);
        assert(input.len() == 2 && input[0] == '[' && input[1] == ']');
        assert(dproj_batches(bs) =~= Seq::<Seq<DecodedModel>>::empty());
    } else {
        assert(input =~= seq!['['] + (json_batch_items(bs) + seq![']'] + Seq::<char>::empty()));
        assert(json_batch_items(bs)[0] == '[');
        assert(input[0] == '[');
        assert(input.len() >= 4);
        lemma_rt_batch_items(bs, Seq::empty());
        assert(input.drop_first() =~= json_batch_items(bs) + seq![']'] + Seq::<char>::empty());
    }
}


// ---------------------------------------------------------------------------
// The executable decoder.
// ---------------------------------------------------------------------------

fn un_hex_exec(h: char) -> (r: Option<u32>)
    ensures
        match r {
            Option::Some(d) => d < 16 && un_hex_digit(h) == Option::Some(d as int),
            Option::None => un_hex_digit(h) is None,
        },
{
    if h == '0' {
        Option::Some(0)
    } else if h == '1' {
        Option::Some(1)
    } else if h == '2' {
        Option::Some(2)
    } else if h == '3' {
        Option::Some(3)
    } else if h == '4' {
        Option::Some(4)
    } else if h == '5' {
        Option::Some(5)
    } else if h == '6' {
        Option::Some(6)
    } else if h == '7' {
        Option::Some(7)
    } else if h == '8' {
        Option::Some(8)
    } else if h == '9' {
        Option::Some(9)
    } else if h == 'a' {
        Option::Some(10)
    } else if h == 'b' {
        Option::Some(11)
    } else if h == 'c' {
        Option::Some(12)
    } else if h == 'd' {
        Option::Some(13)
    } else if h == 'e' {
        Option::Some(14)
    } else if h == 'f' {
        Option::Some(15)
    } else {
        Option::None
    }
}

fn ctrl_char_exec(n: u32) -> (c: char)
    requires
        n < 32,
    ensures
        c == ctrl_char(n as int),
{
    if n == 0 {
        '\u{0}'
    } else if n == 1 {
        '\u{1}'
    } else if n == 2 {
        '\u{2}'
    } else if n == 3 {
        '\u{3}'
    } else if n == 4 {
        '\u{4}'
    } else if n == 5 {
        '\u{5}'
    } else if n == 6 {
        '\u{6}'
    } else if n == 7 {
        '\u{7}'
    } else if n == 8 {
        '\u{8}'
    } else if n == 9 {
        '\u{9}'
    } else if n == 10 {
        '\u{a}'
    } else if n == 11 {
        '\u{b}'
    } else if n == 12 {
        '\u{c}'
    } else if n == 13 {
        '\u{d}'
    } else if n == 14 {
        '\u{e}'
    } else if n == 15 {
        '\u{f}'
    } else if n == 16 {
        '\u{10}'
    } else if n == 17 {
        '\u{11}'
    } else if n == 18 {
        '\u{12}'
    } else if n == 19 {
        '\u{13}'
    } else if n == 20 {
        '\u{14}'
    } else if n == 21 {
        '\u{15}'
    } else if n == 22 {
        '\u{16}'
    } else if n == 23 {
        '\u{17}'
    } else if n == 24 {
        '\u{18}'
    } else if n == 25 {
        '\u{19}'
    } else if n == 26 {
        '\u{1a}'
    } else if n == 27 {
        '\u{1b}'
    } else if n == 28 {
        '\u{1c}'
    } else if n == 29 {
        '\u{1d}'
    } else if n == 30 {
        '\u{1e}'
    } else {
        '\u{1f}'
    }
}

#[verifier::rlimit(80)]
fn p_string(v: &Vec<char>, i: usize) -> (r: Option<(Vec<char>, usize)>)
    requires
        i <= v@.len(),
    ensures
        match r {
            Option::Some((t, j)) => i < j <= v@.len() && dec_string_rest(v@.skip(i as int))
                == Option::Some((t@, v@.skip(j as int))),
            Option::None => dec_string_rest(v@.skip(i as int)) is None,
        },
    decreases v@.len() - i,
{
    let ghost s = v@.skip(i as int);
    proof {
        assert(s.len() == v@.len() - i);
        assert(forall|k: int| 0 <= k < s.len() ==> s[k] == v@[i + k]);
    }
    if i == v.len() {
        return Option::None;
    }
    let c0 = v[i];
    if c0 == '"' {
        let t: Vec<char> = Vec::new();
        proof {
            assert(s.drop_first() =~= v@.skip(i + 1 as int));
            assert(t@ =~= Seq::<char>::empty());
        }
        return Option::Some((t, i + 1));
    }
    if c0 == '\\' {
        if i + 1 == v.len() {
            return Option::None;
        }
        let e = v[i + 1];
        if e == 'u' {
            if v.len() - i < 6 {
                return Option::None;
            }
            if !(v[i + 2] == '0' && v[i + 3] == '0') {
                return Option::None;
            }
            proof {
                assert(s[0] == c0 && s[1] == e && s[2] == v@[i + 2] && s[3] == v@[i + 3]
                    && s[4] == v@[i + 4] && s[5] == v@[i + 5]);
            }
            let d1 = match un_hex_exec(v[i + 4]) {
                Option::Some(d) => d,
                Option::None => {
                    return Option::None;
                },
            };
            let d0 = match un_hex_exec(v[i + 5]) {
                Option::Some(d) => d,
                Option::None => {
                    return Option::None;
                },
            };
            let n = 16 * d1 + d0;
            if n >= 32 {
                return Option::None;
            }
            match p_string(v, i + 6) {
                Option::Some((t, j)) => {
                    let mut t = t;
                    let c = ctrl_char_exec(n);
                    t.insert(0, c);
                    proof {
                        assert(s.skip(6) =~= v@.skip(i + 6 as int));
                        assert(t@ =~= seq![c] + t@.drop_first());
                    }
                    return Option::Some((t, j));
                },
                Option::None => {
                    proof {
                        assert(s.skip(6) =~= v@.skip(i + 6 as int));
                    }
                    return Option::None;
                },
            }
        }
        let c = if e == '"' {
            '"'
        } else if e == '\\' {
            '\\'
        } else if e == 'b' {
            '\u{8}'
        } else if e == 't' {
            '\t'
        } else if e == 'n' {
            '\n'
        } else if e == 'f' {
            '\u{c}'
        } else if e == 'r' {
            '\r'
        } else {
            proof {
                assert(s[0] == c0);
                assert(s[1] == e);
            }
            return Option::None;
        };
        match p_string(v, i + 2) {
            Option::Some((t, j)) => {
                let mut t = t;
                t.insert(0, c);
                proof {
                    assert(s.skip(2) =~= v@.skip(i + 2 as int));
                    assert(t@ =~= seq![c] + t@.drop_first());
                }
                return Option::Some((t, j));
            },
            Option::None => {
                proof {
                    assert(s.skip(2) =~= v@.skip(i + 2 as int));
                }
                return Option::None;
            },
        }
    }
    if (c0 as u32) < 32 {
        return Option::None;
    }
    match p_string(v, i + 1) {
        Option::Some((t, j)) => {
            let mut t = t;
            t.insert(0, c0);
            proof {
                assert(s.drop_first() =~= v@.skip(i + 1 as int));
                assert(t@ =~= seq![c0] + t@.drop_first());
            }
            Option::Some((t, j))
        },
        Option::None => {
            proof {
                assert(s.drop_first() =~= v@.skip(i + 1 as int));
            }
            Option::None
        },
    }
}


fn match_lit(v: &Vec<char>, i: usize, lit: &Vec<char>) -> (r: bool)
    requires
        i <= v@.len(),
    ensures
        r <==> (v@.len() - i >= lit@.len() && v@.skip(i as int).subrange(
            0,
            lit@.len() as int,
        ) == lit@),
{
    let ghost s = v@.skip(i as int);
    let vn = v.len();
    if vn - i < lit.len() {
        return false;
    }
    let mut k: usize = 0;
    while k < lit.len()
        invariant
            i <= v@.len(),
            k <= lit@.len(),
            i + lit@.len() <= v@.len(),
            v@.len() <= usize::MAX,
            forall|m: int| 0 <= m < k ==> v@[i + m] == lit@[m],
        decreases lit@.len() - k,
    {
        if v[i + k] != lit[k] {
            proof {
                assert(v@.skip(i as int).subrange(0, lit@.len() as int)[k as int] == v@[i + k]);
            }
            return false;
        }
        k += 1;
    }
    proof {
        assert(v@.skip(i as int).subrange(0, lit@.len() as int) =~= lit@);
    }
    true
}

fn p_str_items(v: &Vec<char>, i: usize) -> (r: Option<(Vec<String>, usize)>)
    requires
        i <= v@.len(),
    ensures
        match r {
            Option::Some((ts, j)) => i < j <= v@.len() && dec_str_items(v@.skip(i as int))
                == Option::Some((ts.deep_view(), v@.skip(j as int))),
            Option::None => dec_str_items(v@.skip(i as int)) is None,
        },
    decreases v@.len() - i,
{
    let ghost s = v@.skip(i as int);
    if i == v.len() {
        return Option::None;
    }
    proof {
        assert(s[0] == v@[i as int]);
    }
    if v[i] != '"' {
        return Option::None;
    }
    proof {
        assert(s.drop_first() =~= v@.skip(i + 1 as int));
    }
    let (t, j) = match p_string(v, i + 1) {
        Option::Some(x) => x,
        Option::None => {
            return Option::None;
        },
    };
    let name = crate::strutil::chars_to_string(&t);
    proof {
        assert(v@.skip(j as int).len() < s.len());
    }
    if j == v.len() {
        return Option::None;
    }
    proof {
        assert(v@.skip(j as int)[0] == v@[j as int]);
    }
    if v[j] == ']' {
        let mut ts: Vec<String> = Vec::new();
        ts.push(name);
        proof {
            assert(v@.skip(j as int).drop_first() =~= v@.skip(j + 1 as int));
            assert(ts.deep_view() =~= seq![t@]);
        }
        return Option::Some((ts, j + 1));
    }
    if v[j] == ',' {
        proof {
            assert(v@.skip(j as int).drop_first() =~= v@.skip(j + 1 as int));
        }
        match p_str_items(v, j + 1) {
            Option::Some((ts, j2)) => {
                let mut ts = ts;
                ts.insert(0, name);
                proof {
                    assert(ts.deep_view() =~= seq![t@] + ts.deep_view().drop_first());
                }
                return Option::Some((ts, j2));
            },
            Option::None => {
                return Option::None;
            },
        }
    }
    Option::None
}

fn p_content(v: &Vec<char>, i: usize) -> (r: Option<(FoundItemContent, usize)>)
    requires
        i <= v@.len(),
    ensures
        match r {
            Option::Some((c, j)) => i < j <= v@.len() && dec_content_rest(v@.skip(i as int))
                == Option::Some((crate::fetchers::content_model(c), v@.skip(j as int))),
            Option::None => dec_content_rest(v@.skip(i as int)) is None,
        },
{
    let ghost s = v@.skip(i as int);
    if i == v.len() {
        return Option::None;
    }
    proof {
        assert(s[0] == v@[i as int]);
    }
    if v[i] == '"' {
        proof {
            assert(s.drop_first() =~= v@.skip(i + 1 as int));
        }
        match p_string(v, i + 1) {
            Option::Some((t, j)) => {
                let text = crate::strutil::chars_to_string(&t);
                return Option::Some((FoundItemContent::Str(text), j));
            },
            Option::None => {
                return Option::None;
            },
        }
    }
    if v[i] == '[' {
        if v.len() - i >= 2 && v[i + 1] == ']' {
            proof {
                assert(s[1] == v@[i + 1]);
                assert(s.skip(2) =~= v@.skip(i + 2 as int));
            }
            let empty: Vec<String> = Vec::new();
            proof {
                assert(empty.deep_view() =~= Seq::<Seq<char>>::empty());
                assert(crate::fetchers::content_model(FoundItemContent::Arr(empty))
                    =~~= ContentModel::Arr(Seq::empty()));
            }
            return Option::Some((FoundItemContent::Arr(empty), i + 2));
        }
        proof {
            if s.len() >= 2 {
                assert(s[1] == v@[i + 1]);
            }
            assert(s.drop_first() =~= v@.skip(i + 1 as int));
        }
        match p_str_items(v, i + 1) {
            Option::Some((ts, j)) => {
                return Option::Some((FoundItemContent::Arr(ts), j));
            },
            Option::None => {
                return Option::None;
            },
        }
    }
    Option::None
}

#[verifier::rlimit(100)]
fn p_found(v: &Vec<char>, i: usize) -> (r: Option<(DecodedItem, usize)>)
    requires
        i <= v@.len(),
    ensures
        match r {
            Option::Some((d, j)) => i < j <= v@.len() && dec_found(v@.skip(i as int))
                == Option::Some((decoded_model(d), v@.skip(j as int))),
            Option::None => dec_found(v@.skip(i as int)) is None,
        },
    decreases v@.len() - i, 0int,
{
    let ghost s = v@.skip(i as int);
    let vn = v.len();
    proof {
        assert(vn == v@.len());
    }
    let ghost lit1s = seq!['{', '"', 'n', 'a', 'm', 'e', '"', ':', '"'];
    let ghost lit2s = seq![',', '"', 'c', 'o', 'n', 't', 'e', 'n', 't', '"', ':'];
    let ghost lit3s = seq![',', '"', 'r', 'e', 'l', 'a', 't', 'e', 'd', '"', ':', '['];
    let lit1 = crate::strutil::str_chars("{\"name\":\"");
    proof {
        reveal_strlit("{\"name\":\"");
        assert(lit1@ =~= lit1s);
        assert(lit1@.len() == 9);
    }
    if !match_lit(v, i, &lit1) {
        return Option::None;
    }
    let i1 = i + 9;
    proof {
        assert(s.subrange(0, 9) == lit1s);
        assert(s.len() >= 9);
        assert(s.skip(9) =~= v@.skip(i1 as int));
        assert(strip_prefix(s, lit1s) == Option::Some(v@.skip(i1 as int)));
    }
    let (namev, i2) = match p_string(v, i1) {
        Option::Some(x) => x,
        Option::None => {
            return Option::None;
        },
    };
    let ghost r1 = v@.skip(i2 as int);
    let lit2 = crate::strutil::str_chars(",\"content\":");
    proof {
        reveal_strlit(",\"content\":");
        assert(lit2@ =~= lit2s);
        assert(lit2@.len() == 11);
    }
    if !match_lit(v, i2, &lit2) {
        return Option::None;
    }
    let i3 = i2 + 11;
    proof {
        assert(r1.subrange(0, 11) == lit2s);
        assert(r1.skip(11) =~= v@.skip(i3 as int));
        assert(strip_prefix(r1, lit2s) == Option::Some(v@.skip(i3 as int)));
    }
    let (content, i4) = match p_content(v, i3) {
        Option::Some(x) => x,
        Option::None => {
            return Option::None;
        },
    };
    let ghost r2 = v@.skip(i4 as int);
    let lit3 = crate::strutil::str_chars(",\"related\":[");
    proof {
        reveal_strlit(",\"related\":[");
        assert(lit3@ =~= lit3s);
        assert(lit3@.len() == 12);
    }
    if !match_lit(v, i4, &lit3) {
        return Option::None;
    }
    let i5 = i4 + 12;
    proof {
        assert(r2.subrange(0, 12) == lit3s);
        assert(r2.skip(12) =~= v@.skip(i5 as int));
        assert(strip_prefix(r2, lit3s) == Option::Some(v@.skip(i5 as int)));
        assert(v@.skip(i5 as int).len() < s.len());
    }
    let ghost s3 = v@.skip(i5 as int);
    if v.len() - i5 >= 2 && v[i5] == ']' && v[i5 + 1] == '}' {
        let name = crate::strutil::chars_to_string(&namev);
        let related: Vec<Option<DecodedItem>> = Vec::new();
        let d = DecodedItem { name, content, related };
        proof {
            assert(s3[0] == v@[i5 as int] && s3[1] == v@[i5 + 1]);
            assert(s3.skip(2) =~= v@.skip(i5 + 2 as int));
            assert(decoded_opt_models(d.related@) =~= Seq::<Option<DecodedModel>>::empty());
            assert(decoded_model(d) =~~= DecodedModel {
                name: namev@,
                content: crate::fetchers::content_model(content),
                related: Seq::empty(),
            });
        }
        return Option::Some((d, i5 + 2));
    }
    proof {
        if s3.len() >= 2 {
            assert(s3[0] == v@[i5 as int] && s3[1] == v@[i5 + 1]);
        } else if s3.len() >= 1 {
            assert(s3[0] == v@[i5 as int]);
        }
    }
    let (related, i6) = match p_rel_items(v, i5) {
        Option::Some(x) => x,
        Option::None => {
            return Option::None;
        },
    };
    let ghost r3 = v@.skip(i6 as int);
    if i6 < v.len() {
        proof {
            assert(r3[0] == v@[i6 as int]);
        }
        if v[i6] == '}' {
            let name = crate::strutil::chars_to_string(&namev);
            let d = DecodedItem { name, content, related };
            proof {
                assert(r3.drop_first() =~= v@.skip(i6 + 1 as int));
                assert(decoded_model(d) =~~= DecodedModel {
                    name: namev@,
                    content: crate::fetchers::content_model(content),
                    related: decoded_opt_models(d.related@),
                });
            }
            return Option::Some((d, i6 + 1));
        }
        return Option::None;
    }
    Option::None
}

#[verifier::rlimit(100)]
fn p_rel_items(v: &Vec<char>, i: usize) -> (r: Option<(Vec<Option<DecodedItem>>, usize)>)
    requires
        i <= v@.len(),
    ensures
        match r {
            Option::Some((os, j)) => i < j <= v@.len() && dec_rel_items(v@.skip(i as int))
                == Option::Some((decoded_opt_models(os@), v@.skip(j as int))),
            Option::None => dec_rel_items(v@.skip(i as int)) is None,
        },
    decreases v@.len() - i, 1int,
{
    let ghost s = v@.skip(i as int);
    let vn = v.len();
    proof {
        assert(vn == v@.len());
    }
    let nul = crate::strutil::str_chars("null");
    proof {
        reveal_strlit("null");
        assert(nul@ =~= seq!['n', 'u', 'l', 'l']);
        assert(nul@.len() == 4);
    }
    let is_null = match_lit(v, i, &nul);
    let (o, j) = if is_null {
        proof {
            assert(s.subrange(0, 4) == seq!['n', 'u', 'l', 'l']);
            assert(s.skip(4) =~= v@.skip(i + 4 as int));
        }
        (Option::<DecodedItem>::None, i + 4)
    } else {
        proof {
            assert(!(s.len() >= 4 && s.subrange(0, 4) == seq!['n', 'u', 'l', 'l']));
        }
        match p_found(v, i) {
            Option::Some((d, j)) => (Option::Some(d), j),
            Option::None => {
                return Option::None;
            },
        }
    };
    let ghost rr = v@.skip(j as int);
    proof {
        assert(rr.len() < s.len());
    }
    if j == v.len() {
        return Option::None;
    }
    proof {
        assert(rr[0] == v@[j as int]);
    }
    if v[j] == ']' {
        let mut os: Vec<Option<DecodedItem>> = Vec::new();
        os.push(o);
        proof {
            assert(rr.drop_first() =~= v@.skip(j + 1 as int));
            assert(os@ =~= seq![o]);
            lemma_decoded_opt_models(os@);
            assert(decoded_opt_models(os@) =~= seq![decoded_opt_model(o)]);
        }
        return Option::Some((os, j + 1));
    }
    if v[j] == ',' {
        proof {
            assert(rr.drop_first() =~= v@.skip(j + 1 as int));
        }
        match p_rel_items(v, j + 1) {
            Option::Some((os, j2)) => {
                let mut os = os;
                let ghost oss = os@;
                os.insert(0, o);
                proof {
                    assert(os@ =~= seq![o] + oss);
                    lemma_decoded_opt_models(os@);
                    lemma_decoded_opt_models(oss);
                    assert(decoded_opt_models(os@) =~= seq![decoded_opt_model(o)]
                        + decoded_opt_models(oss));
                }
                return Option::Some((os, j2));
            },
            Option::None => {
                return Option::None;
            },
        }
    }
    Option::None
}


fn p_found_items(v: &Vec<char>, i: usize) -> (r: Option<(Vec<DecodedItem>, usize)>)
    requires
        i <= v@.len(),
    ensures
        match r {
            Option::Some((ds, j)) => i < j <= v@.len() && dec_found_items(v@.skip(i as int))
                == Option::Some((decoded_models(ds@), v@.skip(j as int))),
            Option::None => dec_found_items(v@.skip(i as int)) is None,
        },
    decreases v@.len() - i, 1int,
{
    let ghost s = v@.skip(i as int);
    let vn = v.len();
    proof {
        assert(vn == v@.len());
    }
    let (d, j) = match p_found(v, i) {
        Option::Some(x) => x,
        Option::None => {
            return Option::None;
        },
    };
    let ghost rr = v@.skip(j as int);
    proof {
        assert(rr.len() < s.len());
    }
    if j == v.len() {
        return Option::None;
    }
    proof {
        assert(rr[0] == v@[j as int]);
    }
    if v[j] == ']' {
        let mut ds: Vec<DecodedItem> = Vec::new();
        ds.push(d);
        proof {
            assert(rr.drop_first() =~= v@.skip(j + 1 as int));
            assert(ds@ =~= seq![d]);
            lemma_decoded_models(ds@);
            assert(decoded_models(ds@) =~= seq![decoded_model(d)]);
        }
        return Option::Some((ds, j + 1));
    }
    if v[j] == ',' {
        proof {
            assert(rr.drop_first() =~= v@.skip(j + 1 as int));
        }
        match p_found_items(v, j + 1) {
            Option::Some((ds, j2)) => {
                let mut ds = ds;
                let ghost dss = ds@;
                ds.insert(0, d);
                proof {
                    assert(ds@ =~= seq![d] + dss);
                    lemma_decoded_models(ds@);
                    lemma_decoded_models(dss);
                    assert(decoded_models(ds@) =~= seq![decoded_model(d)] + decoded_models(
                        dss,
                    ));
                }
                return Option::Some((ds, j2));
            },
            Option::None => {
                return Option::None;
            },
        }
    }
    Option::None
}

fn p_batch(v: &Vec<char>, i: usize) -> (r: Option<(Vec<DecodedItem>, usize)>)
    requires
        i <= v@.len(),
    ensures
        match r {
            Option::Some((ds, j)) => i < j <= v@.len() && dec_batch(v@.skip(i as int))
                == Option::Some((decoded_models(ds@), v@.skip(j as int))),
            Option::None => dec_batch(v@.skip(i as int)) is None,
        },
    decreases v@.len() - i, 2int,
{
    let ghost s = v@.skip(i as int);
    let vn = v.len();
    proof {
        assert(vn == v@.len());
    }
    if vn - i >= 2 && v[i] == '[' && v[i + 1] == ']' {
        let ds: Vec<DecodedItem> = Vec::new();
        proof {
            assert(s[0] == v@[i as int] && s[1] == v@[i + 1]);
            assert(s.skip(2) =~= v@.skip(i + 2 as int));
            assert(ds@ =~= Seq::<DecodedItem>::empty());
            assert(decoded_models(ds@) =~= Seq::<DecodedModel>::empty());
        }
        return Option::Some((ds, i + 2));
    }
    if vn - i >= 1 && v[i] == '[' {
        proof {
            assert(s[0] == v@[i as int]);
            if s.len() >= 2 {
                assert(s[1] == v@[i + 1]);
            }
            assert(s.drop_first() =~= v@.skip(i + 1 as int));
        }
        return p_found_items(v, i + 1);
    }
    proof {
        if s.len() >= 1 {
            assert(s[0] == v@[i as int]);
        }
    }
    Option::None
}

fn p_batch_items(v: &Vec<char>, i: usize) -> (r: Option<(Vec<Vec<DecodedItem>>, usize)>)
    requires
        i <= v@.len(),
    ensures
        match r {
            Option::Some((bs, j)) => i < j <= v@.len() && dec_batch_items(v@.skip(i as int))
                == Option::Some((decoded_batches_model(bs@), v@.skip(j as int))),
            Option::None => dec_batch_items(v@.skip(i as int)) is None,
        },
    decreases v@.len() - i, 3int,
{
    let ghost s = v@.skip(i as int);
    let vn = v.len();
    proof {
        assert(vn == v@.len());
    }
    let (b, j) = match p_batch(v, i) {
        Option::Some(x) => x,
        Option::None => {
            return Option::None;
        },
    };
    let ghost rr = v@.skip(j as int);
    proof {
        assert(rr.len() < s.len());
    }
    if j == v.len() {
        return Option::None;
    }
    proof {
        assert(rr[0] == v@[j as int]);
    }
    if v[j] == ']' {
        let ghost bm = decoded_models(b@);
        let mut bs: Vec<Vec<DecodedItem>> = Vec::new();
        bs.push(b);
        proof {
            assert(rr.drop_first() =~= v@.skip(j + 1 as int));
            lemma_decoded_batches_model(bs@);
            assert(decoded_batches_model(bs@) =~= seq![bm]);
        }
        return Option::Some((bs, j + 1));
    }
    if v[j] == ',' {
        proof {
            assert(rr.drop_first() =~= v@.skip(j + 1 as int));
        }
        match p_batch_items(v, j + 1) {
            Option::Some((bs, j2)) => {
                let ghost bm = decoded_models(b@);
                let mut bs = bs;
                let ghost bss = bs@;
                bs.insert(0, b);
                proof {
                    assert(bs@ =~= seq![b] + bss);
                    lemma_decoded_batches_model(bs@);
                    lemma_decoded_batches_model(bss);
                    assert(decoded_batches_model(bs@) =~= seq![bm] + decoded_batches_model(
                        bss,
                    ));
                }
                return Option::Some((bs, j2));
            },
            Option::None => {
                return Option::None;
            },
        }
    }
    Option::None
}

/// Decode a structured payload, as the structured serializer emits it:
/// `None` unless the whole input is exactly such a payload.
pub fn decode_structured(s: &str) -> (r: Option<Vec<Vec<DecodedItem>>>)
    ensures
        match r {
            Option::Some(v) => decode_spec(s@) == Option::Some(decoded_batches_model(v@)),
            Option::None => decode_spec(s@) is None,
        },
{
    let v = crate::strutil::str_chars(s);
    let n = v.len();
    if n == 2 && v[0] == '[' && v[1] == ']' {
        let empty: Vec<Vec<DecodedItem>> = Vec::new();
        proof {
            assert(empty@ =~= Seq::<Vec<DecodedItem>>::empty());
            assert(decoded_batches_model(empty@) =~= Seq::<Seq<DecodedModel>>::empty());
        }
        return Option::Some(empty);
    }
    if n >= 1 && v[0] == '[' {
        proof {
            assert(v@.skip(1)[0] == v@[1] || v@.len() < 2);
        }
        match p_batch_items(&v, 1) {
            Option::Some((bs, j)) => {
                if j == n {
                    proof {
                        assert(v@.skip(j as int).len() == 0);
                    }
                    return Option::Some(bs);
                }
                proof {
                    assert(v@.skip(j as int).len() != 0);
                }
                return Option::None;
            },
            Option::None => {
                return Option::None;
            },
        }
    }
    Option::None
}

}
