use vstd::prelude::*;
use crate::fetchers::{
    ContentModel, FoundItem, FoundItemContent, FoundModel, found_model,
};

verus! {

/// The two serialized forms: a flattened human-readable one and a structured
/// tree-preserving one.
#[derive(Debug, Clone, Copy, PartialEq, Eq)]
pub enum SerType {
    Plain,
    Json,
}

// ---------------------------------------------------------------------------
// Models of batches.
// ---------------------------------------------------------------------------

pub open spec fn found_models(s: Seq<FoundItem>) -> Seq<FoundModel>
    decreases s,
{
    if s.len() == 0 {
        Seq::empty()
    } else {
        found_models(s.drop_last()).push(found_model(s.last()))
    }
}

pub open spec fn batches_model(s: Seq<Vec<FoundItem>>) -> Seq<Seq<FoundModel>>
    decreases s,
{
    if s.len() == 0 {
        Seq::empty()
    } else {
        batches_model(s.drop_last()).push(found_models(s.last()@))
    }
}

pub broadcast proof fn lemma_found_models(s: Seq<FoundItem>)
    ensures
        (#[trigger] found_models(s)).len() == s.len(),
        forall|i: int| 0 <= i < s.len() ==> found_models(s)[i] == found_model(s[i]),
    decreases s,
{
    if s.len() > 0 {
        lemma_found_models(s.drop_last());
    }
}

pub broadcast proof fn lemma_batches_model(s: Seq<Vec<FoundItem>>)
    ensures
        (#[trigger] batches_model(s)).len() == s.len(),
        forall|i: int| 0 <= i < s.len() ==> batches_model(s)[i] == found_models(s[i]@),
    decreases s,
{
    if s.len() > 0 {
        lemma_batches_model(s.drop_last());
    }
}

// ---------------------------------------------------------------------------
// The flattened (plain) form.
// ---------------------------------------------------------------------------

/// List content is concatenated without separator.
pub open spec fn concat_all(vs: Seq<Seq<char>>) -> Seq<char>
    decreases vs.len(),
{
    if vs.len() == 0 {
        Seq::empty()
    } else {
        vs[0] + concat_all(vs.drop_first())
    }
}

pub open spec fn content_text(c: ContentModel) -> Seq<char> {
    match c {
        ContentModel::Str(v) => v,
        ContentModel::Arr(vs) => concat_all(vs),
    }
}

/// One `name=value` pair.
pub open spec fn pair_text(name: Seq<char>, c: ContentModel) -> Seq<char> {
    name + seq!['='] + content_text(c)
}

/// The plain form of one result node: its pair, and, when it has related
/// slots, a colon-space group of the present children's plain forms,
/// concatenated without separator.
pub open spec fn plain_of(f: FoundModel) -> Seq<char>
    decreases f, 0int,
{
    if f.related.len() == 0 {
        pair_text(f.item.name, f.content)
    } else {
        pair_text(f.item.name, f.content) + seq![':', ' '] + plain_children(f.related)
    }
}

pub open spec fn plain_children(rs: Seq<Option<FoundModel>>) -> Seq<char>
    decreases rs, 1int,
{
    if rs.len() == 0 {
        Seq::empty()
    } else {
        (match rs[0] {
            Option::Some(f) => plain_of(f),
            Option::None => Seq::empty(),
        }) + plain_children(rs.drop_first())
    }
}

/// The plain forms of the nodes of one batch, in order.
pub open spec fn batch_texts(b: Seq<FoundModel>) -> Seq<Seq<char>>
    decreases b.len(),
{
    if b.len() == 0 {
        Seq::empty()
    } else {
        seq![plain_of(b[0])] + batch_texts(b.drop_first())
    }
}

/// The plain forms of every node of every batch, in order.
pub open spec fn plain_texts(bs: Seq<Seq<FoundModel>>) -> Seq<Seq<char>>
    decreases bs.len(),
{
    if bs.len() == 0 {
        Seq::empty()
    } else {
        batch_texts(bs[0]) + plain_texts(bs.drop_first())
    }
}

pub open spec fn join_with(parts: Seq<Seq<char>>, sep: Seq<char>) -> Seq<char>
    decreases parts.len(),
{
    if parts.len() == 0 {
        Seq::empty()
    } else if parts.len() == 1 {
        parts[0]
    } else {
        parts[0] + sep + join_with(parts.drop_first(), sep)
    }
}

/// The whole plain payload: every node's plain form, space-joined.
pub open spec fn plain_payload(bs: Seq<Seq<FoundModel>>) -> Seq<char> {
    join_with(plain_texts(bs), seq![' '])
}

// ---------------------------------------------------------------------------
// The structured (JSON) form.
// ---------------------------------------------------------------------------

pub open spec fn hex_digit(n: int) -> char {
    if n == 0 {
        '0'
    } else if n == 1 {
        '1'
    } else if n == 2 {
        '2'
    } else if n == 3 {
        '3'
    } else if n == 4 {
        '4'
    } else if n == 5 {
        '5'
    } else if n == 6 {
        '6'
    } else if n == 7 {
        '7'
    } else if n == 8 {
        '8'
    } else if n == 9 {
        '9'
    } else if n == 10 {
        'a'
    } else if n == 11 {
        'b'
    } else if n == 12 {
        'c'
    } else if n == 13 {
        'd'
    } else if n == 14 {
        'e'
    } else {
        'f'
    }
}

/// The escape of one character inside a JSON string: quote and backslash are
/// backslash-escaped, the five short control escapes are used where they
/// exist, every other control character gets a `\u00..` escape, and all else
/// stands for itself.
pub open spec fn esc_char(c: char) -> Seq<char> {
    if c == '"' {
        seq!['\\', '"']
    } else if c == '\\' {
        seq!['\\', '\\']
    } else if c == '\u{8}' {
        seq!['\\', 'b']
    } else if c == '\t' {
        seq!['\\', 't']
    } else if c == '\n' {
        seq!['\\', 'n']
    } else if c == '\u{c}' {
        seq!['\\', 'f']
    } else if c == '\r' {
        seq!['\\', 'r']
    } else if (c as u32) < 32 {
        seq!['\\', 'u', '0', '0', hex_digit((c as u32) as int / 16), hex_digit((c as u32) as int % 16)]
    } else {
        seq![c]
    }
}

pub open spec fn esc_all(s: Seq<char>) -> Seq<char>
    decreases s.len(),
{
    if s.len() == 0 {
        Seq::empty()
    } else {
        esc_char(s[0]) + esc_all(s.drop_first())
    }
}

pub proof fn lemma_esc_all_push(s: Seq<char>, c: char)
    ensures
        esc_all(s.push(c)) == esc_all(s) + esc_char(c),
    decreases s.len(),
{
    if s.len() == 0 {
        assert(s.push(c)[0] == c);
        assert(s.push(c).drop_first() =~= s);
        assert(esc_all(s.push(c)) == esc_char(c) + esc_all(s));
        assert(esc_all(s.push(c)) =~= esc_all(s) + esc_char(c));
    } else {
        assert(s.push(c).drop_first() =~= s.drop_first().push(c));
        lemma_esc_all_push(s.drop_first(), c);
        assert(s.push(c)[0] == s[0]);
        assert(esc_all(s.push(c)) == esc_char(s[0]) + esc_all(s.drop_first().push(c)));
        assert(esc_all(s.drop_first().push(c)) == esc_all(s.drop_first()) + esc_char(c));
        assert(esc_all(s.push(c)) =~= esc_all(s) + esc_char(c));
    }
}

pub open spec fn json_string(s: Seq<char>) -> Seq<char> {
    seq!['"'] + esc_all(s) + seq!['"']
}

pub open spec fn json_str_items(vs: Seq<Seq<char>>) -> Seq<char>
    decreases vs.len(),
{
    if vs.len() == 0 {
        Seq::empty()
    } else if vs.len() == 1 {
        json_string(vs[0])
    } else {
        json_string(vs[0]) + seq![','] + json_str_items(vs.drop_first())
    }
}

/// A scalar is a JSON string; a token list is a JSON array of strings.
pub open spec fn json_of_content(c: ContentModel) -> Seq<char> {
    match c {
        ContentModel::Str(s) => json_string(s),
        ContentModel::Arr(vs) => seq!['['] + json_str_items(vs) + seq![']'],
    }
}

/// One result node as a JSON object holding its name, its content, and its
/// ordered optional children, an absent child rendered as `null`.
pub open spec fn json_of_found(f: FoundModel) -> Seq<char>
    decreases f, 0int,
{
    seq!['{', '"', 'n', 'a', 'm', 'e', '"', ':'] + json_string(f.item.name) + seq![
        ',',
        '"',
        'c',
        'o',
        'n',
        't',
        'e',
        'n',
        't',
        '"',
        ':',
    ] + json_of_content(f.content) + seq![
        ',',
        '"',
        'r',
        'e',
        'l',
        'a',
        't',
        'e',
        'd',
        '"',
        ':',
        '[',
    ] + json_rel_items(f.related) + seq![']', '}']
}

pub open spec fn json_of_opt(o: Option<FoundModel>) -> Seq<char>
    decreases o, 1int,
{
    match o {
        Option::Some(f) => json_of_found(f),
        Option::None => seq!['n', 'u', 'l', 'l'],
    }
}

pub open spec fn json_rel_items(rs: Seq<Option<FoundModel>>) -> Seq<char>
    decreases rs, 2int,
{
    if rs.len() == 0 {
        Seq::empty()
    } else if rs.len() == 1 {
        json_of_opt(rs[0])
    } else {
        json_of_opt(rs[0]) + seq![','] + json_rel_items(rs.drop_first())
    }
}

pub open spec fn json_found_items(b: Seq<FoundModel>) -> Seq<char>
    decreases b.len(),
{
    if b.len() == 0 {
        Seq::empty()
    } else if b.len() == 1 {
        json_of_found(b[0])
    } else {
        json_of_found(b[0]) + seq![','] + json_found_items(b.drop_first())
    }
}

pub open spec fn json_of_batch(b: Seq<FoundModel>) -> Seq<char> {
    seq!['['] + json_found_items(b) + seq![']']
}

pub open spec fn json_batch_items(bs: Seq<Seq<FoundModel>>) -> Seq<char>
    decreases bs.len(),
{
    if bs.len() == 0 {
        Seq::empty()
    } else if bs.len() == 1 {
        json_of_batch(bs[0])
    } else {
        json_of_batch(bs[0]) + seq![','] + json_batch_items(bs.drop_first())
    }
}

/// The whole structured payload: a JSON array of batches, each a JSON array
/// of result-node objects.
pub open spec fn json_payload(bs: Seq<Seq<FoundModel>>) -> Seq<char> {
    seq!['['] + json_batch_items(bs) + seq![']']
}

/// What `serialize_all` returns for each serializer choice.
pub open spec fn payload(bs: Seq<Seq<FoundModel>>, t: SerType) -> Seq<char> {
    match t {
        SerType::Plain => plain_payload(bs),
        SerType::Json => json_payload(bs),
    }
}


// ---------------------------------------------------------------------------
// Executable serializers.
// ---------------------------------------------------------------------------

fn hex_digit_exec(n: u32) -> (r: char)
    requires
        0 <= n < 16,
    ensures
        r == hex_digit(n as int),
{
    if n == 0 {
        '0'
    } else if n == 1 {
        '1'
    } else if n == 2 {
        '2'
    } else if n == 3 {
        '3'
    } else if n == 4 {
        '4'
    } else if n == 5 {
        '5'
    } else if n == 6 {
        '6'
    } else if n == 7 {
        '7'
    } else if n == 8 {
        '8'
    } else if n == 9 {
        '9'
    } else if n == 10 {
        'a'
    } else if n == 11 {
        'b'
    } else if n == 12 {
        'c'
    } else if n == 13 {
        'd'
    } else if n == 14 {
        'e'
    } else {
        'f'
    }
}

fn emit_esc_char(out: &mut Vec<char>, c: char)
    ensures
        final(out)@ == old(out)@ + esc_char(c),
{
    let ghost start = out@;
    if c == '"' {
        out.push('\\');
        out.push('"');
    } else if c == '\\' {
        out.push('\\');
        out.push('\\');
    } else if c == '\u{8}' {
        out.push('\\');
        out.push('b');
    } else if c == '\t' {
        out.push('\\');
        out.push('t');
    } else if c == '\n' {
        out.push('\\');
        out.push('n');
    } else if c == '\u{c}' {
        out.push('\\');
        out.push('f');
    } else if c == '\r' {
        out.push('\\');
        out.push('r');
    } else {
        let code = c as u32;
        if code < 32 {
            out.push('\\');
            out.push('u');
            out.push('0');
            out.push('0');
            out.push(hex_digit_exec(code / 16));
            out.push(hex_digit_exec(code % 16));
        } else {
            out.push(c);
        }
    }
    proof {
        assert(out@ =~= start + esc_char(c));
    }
}

/// Append the JSON string form of `s`, quotes and escapes included.
fn emit_json_string(out: &mut Vec<char>, s: &str)
    ensures
        final(out)@ == old(out)@ + json_string(s@),
{
    let ghost start = out@;
    out.push('"');
    let n = s.unicode_len();
    let mut i: usize = 0;
    while i < n
        invariant
            n == s@.len(),
            0 <= i <= n,
            out@ == start + seq!['"'] + esc_all(s@.subrange(0, i as int)),
        decreases n - i,
    {
        let c = s.get_char(i);
        emit_esc_char(out, c);
        proof {
            assert(s@.subrange(0, i as int).push(s@[i as int]) =~= s@.subrange(0, i + 1 as int));
            lemma_esc_all_push(s@.subrange(0, i as int), s@[i as int]);
        }
        i += 1;
    }
    out.push('"');
    proof {
        assert(s@.subrange(0, n as int) =~= s@);
        assert(out@ =~= start + json_string(s@));
    }
}

fn emit_json_str_items(out: &mut Vec<char>, vs: &Vec<String>, i: usize)
    requires
        i <= vs@.len(),
    ensures
        final(out)@ == old(out)@ + json_str_items(vs.deep_view().skip(i as int)),
    decreases vs@.len() - i,
{
    if i == vs.len() {
        proof {
            assert(vs.deep_view().skip(i as int) =~= Seq::<Seq<char>>::empty());
        }
        return ;
    }
    let ghost rest = vs.deep_view().skip(i as int);
    proof {
        assert(rest[0] == vs@[i as int]@);
        assert(rest.drop_first() =~= vs.deep_view().skip(i + 1 as int));
    }
    emit_json_string(out, vs[i].as_str());
    if i + 1 < vs.len() {
        out.push(',');
        emit_json_str_items(out, vs, i + 1);
    }
}

fn emit_json_content(out: &mut Vec<char>, c: &FoundItemContent)
    ensures
        final(out)@ == old(out)@ + json_of_content(crate::fetchers::content_model(*c)),
{
    match c {
        FoundItemContent::Str(s) => {
            emit_json_string(out, s.as_str());
        },
        FoundItemContent::Arr(vs) => {
            let ghost start = out@;
            out.push('[');
            emit_json_str_items(out, vs, 0);
            out.push(']');
            proof {
                assert(vs.deep_view().skip(0) =~= vs.deep_view());
                assert(out@ =~= start + json_of_content(crate::fetchers::content_model(*c)));
            }
        },
    }
}

/// Append the JSON object of one result node.
#[verifier::rlimit(50)]
fn emit_json_found(out: &mut Vec<char>, f: &FoundItem)
    ensures
        final(out)@ == old(out)@ + json_of_found(found_model(*f)),
    decreases *f, 0int,
{
    let ghost start = out@;
    crate::strutil::push_str_chars(out, "{\"name\":");
    proof {
        reveal_strlit("{\"name\":");
        assert("{\"name\":"@ =~= seq!['{', '"', 'n', 'a', 'm', 'e', '"', ':']);
    }
    emit_json_string(out, f.fetch_item.name.as_str());
    crate::strutil::push_str_chars(out, ",\"content\":");
    proof {
        reveal_strlit(",\"content\":");
        assert(",\"content\":"@ =~= seq![',', '"', 'c', 'o', 'n', 't', 'e', 'n', 't', '"', ':']);
    }
    emit_json_content(out, &f.content);
    crate::strutil::push_str_chars(out, ",\"related\":[");
    proof {
        reveal_strlit(",\"related\":[");
        assert(",\"related\":["@ =~= seq![
            ',',
            '"',
            'r',
            'e',
            'l',
            'a',
            't',
            'e',
            'd',
            '"',
            ':',
            '[',
        ]);
    }
    emit_json_rel_items(out, &f.related, 0);
    crate::strutil::push_str_chars(out, "]}");
    proof {
        reveal_strlit("]}");
        assert("]}"@ =~= seq![']', '}']);
        assert(crate::fetchers::found_opt_models(f.related@).skip(0)
            =~= crate::fetchers::found_opt_models(f.related@));
        assert(out@ =~= start + json_of_found(found_model(*f)));
    }
}

#[verifier::rlimit(50)]
fn emit_json_rel_items(out: &mut Vec<char>, rs: &Vec<Option<FoundItem>>, i: usize)
    requires
        i <= rs@.len(),
    ensures
        final(out)@ == old(out)@ + json_rel_items(
            crate::fetchers::found_opt_models(rs@).skip(i as int),
        ),
    decreases *rs, 1int, rs@.len() - i,
{
    let ghost models = crate::fetchers::found_opt_models(rs@);
    proof {
        crate::fetchers::lemma_found_opt_models(rs@);
    }
    if i == rs.len() {
        proof {
            assert(models.skip(i as int) =~= Seq::<Option<FoundModel>>::empty());
        }
        return ;
    }
    let ghost rest = models.skip(i as int);
    proof {
        assert(rest[0] == models[i as int]);
        assert(rest.drop_first() =~= models.skip(i + 1 as int));
    }
    match &rs[i] {
        Option::Some(f) => {
            proof {
                assert(rs@[i as int] == Option::Some(*f));
            }
            emit_json_found(out, f);
        },
        Option::None => {
            crate::strutil::push_str_chars(out, "null");
            proof {
                assert(rs@[i as int] == Option::<FoundItem>::None);
                reveal_strlit("null");
                assert("null"@ =~= seq!['n', 'u', 'l', 'l']);
            }
        },
    }
    if i + 1 < rs.len() {
        out.push(',');
        emit_json_rel_items(out, rs, i + 1);
    }
    proof {
        assert(models[i as int] == crate::fetchers::opt_found_model(rs@[i as int]));
        assert(rest.len() == rs@.len() - i);
        if i + 1 == rs.len() {
            assert(json_rel_items(rest) == json_of_opt(rest[0]));
        } else {
            assert(rest.len() >= 2);
            assert(json_rel_items(rest) == json_of_opt(rest[0]) + seq![','] + json_rel_items(
                rest.drop_first(),
            ));
            assert(json_rel_items(rest.drop_first()) == json_rel_items(models.skip(i + 1)));
        }
        assert(out@ =~= old(out)@ + json_rel_items(models.skip(i as int)));
    }
}

fn emit_json_found_items(out: &mut Vec<char>, b: &Vec<FoundItem>, i: usize)
    requires
        i <= b@.len(),
    ensures
        final(out)@ == old(out)@ + json_found_items(found_models(b@).skip(i as int)),
    decreases b@.len() - i,
{
    let ghost models = found_models(b@);
    proof {
        lemma_found_models(b@);
    }
    if i == b.len() {
        proof {
            assert(models.skip(i as int) =~= Seq::<FoundModel>::empty());
        }
        return ;
    }
    let ghost rest = models.skip(i as int);
    proof {
        assert(rest[0] == models[i as int]);
        assert(rest.drop_first() =~= models.skip(i + 1 as int));
    }
    emit_json_found(out, &b[i]);
    if i + 1 < b.len() {
        out.push(',');
        emit_json_found_items(out, b, i + 1);
    }
}

fn emit_json_batch_items(out: &mut Vec<char>, bs: &Vec<Vec<FoundItem>>, i: usize)
    requires
        i <= bs@.len(),
    ensures
        final(out)@ == old(out)@ + json_batch_items(batches_model(bs@).skip(i as int)),
    decreases bs@.len() - i,
{
    let ghost models = batches_model(bs@);
    proof {
        lemma_batches_model(bs@);
    }
    if i == bs.len() {
        proof {
            assert(models.skip(i as int) =~= Seq::<Seq<FoundModel>>::empty());
        }
        return ;
    }
    let ghost rest = models.skip(i as int);
    proof {
        assert(rest[0] == models[i as int]);
        assert(rest.drop_first() =~= models.skip(i + 1 as int));
    }
    let ghost start = out@;
    out.push('[');
    emit_json_found_items(out, &bs[i], 0);
    out.push(']');
    proof {
        assert(found_models(bs@[i as int]@).skip(0) =~= found_models(bs@[i as int]@));
        assert(out@ =~= start + json_of_batch(models[i as int]));
    }
    if i + 1 < bs.len() {
        out.push(',');
        emit_json_batch_items(out, bs, i + 1);
    }
}


fn emit_concat(out: &mut Vec<char>, vs: &Vec<String>, i: usize)
    requires
        i <= vs@.len(),
    ensures
        final(out)@ == old(out)@ + concat_all(vs.deep_view().skip(i as int)),
    decreases vs@.len() - i,
{
    if i == vs.len() {
        proof {
            assert(vs.deep_view().skip(i as int) =~= Seq::<Seq<char>>::empty());
        }
        return ;
    }
    let ghost rest = vs.deep_view().skip(i as int);
    proof {
        assert(rest[0] == vs@[i as int]@);
        assert(rest.drop_first() =~= vs.deep_view().skip(i + 1 as int));
    }
    crate::strutil::push_str_chars(out, vs[i].as_str());
    emit_concat(out, vs, i + 1);
    proof {
        assert(out@ =~= old(out)@ + concat_all(rest));
    }
}

fn emit_content_text(out: &mut Vec<char>, c: &FoundItemContent)
    ensures
        final(out)@ == old(out)@ + content_text(crate::fetchers::content_model(*c)),
{
    match c {
        FoundItemContent::Str(s) => {
            crate::strutil::push_str_chars(out, s.as_str());
        },
        FoundItemContent::Arr(vs) => {
            emit_concat(out, vs, 0);
            proof {
                assert(vs.deep_view().skip(0) =~= vs.deep_view());
            }
        },
    }
}

/// Append the plain form of one result node.
fn emit_plain(out: &mut Vec<char>, f: &FoundItem)
    ensures
        final(out)@ == old(out)@ + plain_of(found_model(*f)),
    decreases *f, 0int,
{
    let ghost start = out@;
    crate::strutil::push_str_chars(out, f.fetch_item.name.as_str());
    out.push('=');
    emit_content_text(out, &f.content);
    proof {
        crate::fetchers::lemma_found_opt_models(f.related@);
        assert(out@ =~= start + pair_text(
            found_model(*f).item.name,
            found_model(*f).content,
        ));
    }
    if f.related.len() > 0 {
        out.push(':');
        out.push(' ');
        emit_plain_children(out, &f.related, 0);
        proof {
            assert(crate::fetchers::found_opt_models(f.related@).skip(0)
                =~= crate::fetchers::found_opt_models(f.related@));
        }
    }
    proof {
        assert(out@ =~= start + plain_of(found_model(*f)));
    }
}

fn emit_plain_children(out: &mut Vec<char>, rs: &Vec<Option<FoundItem>>, i: usize)
    requires
        i <= rs@.len(),
    ensures
        final(out)@ == old(out)@ + plain_children(
            crate::fetchers::found_opt_models(rs@).skip(i as int),
        ),
    decreases *rs, 1int, rs@.len() - i,
{
    let ghost models = crate::fetchers::found_opt_models(rs@);
    proof {
        crate::fetchers::lemma_found_opt_models(rs@);
    }
    if i == rs.len() {
        proof {
            assert(models.skip(i as int) =~= Seq::<Option<FoundModel>>::empty());
        }
        return ;
    }
    let ghost rest = models.skip(i as int);
    proof {
        assert(rest[0] == models[i as int]);
        assert(rest.drop_first() =~= models.skip(i + 1 as int));
    }
    match &rs[i] {
        Option::Some(f) => {
            proof {
                assert(rs@[i as int] == Option::Some(*f));
            }
            emit_plain(out, f);
        },
        Option::None => {
            proof {
                assert(rs@[i as int] == Option::<FoundItem>::None);
            }
        },
    }
    emit_plain_children(out, rs, i + 1);
    proof {
        assert(out@ =~= old(out)@ + plain_children(rest));
    }
}

/// The plain form of one result node, as a string.
pub fn serialize_plain(item: &FoundItem) -> (r: String)
    ensures
        r@ == plain_of(found_model(*item)),
{
    let mut out: Vec<char> = Vec::new();
    emit_plain(&mut out, item);
    crate::strutil::chars_to_string(&out)
}

fn collect_batch_texts(b: &Vec<FoundItem>, i: usize) -> (r: Vec<String>)
    requires
        i <= b@.len(),
    ensures
        r.deep_view() == batch_texts(found_models(b@).skip(i as int)),
    decreases b@.len() - i,
{
    let ghost models = found_models(b@);
    proof {
        lemma_found_models(b@);
    }
    if i == b.len() {
        let r: Vec<String> = Vec::new();
        proof {
            assert(models.skip(i as int) =~= Seq::<FoundModel>::empty());
            assert(r.deep_view() =~= batch_texts(models.skip(i as int)));
        }
        return r;
    }
    let ghost rest = models.skip(i as int);
    proof {
        assert(rest[0] == models[i as int]);
        assert(rest.drop_first() =~= models.skip(i + 1 as int));
    }
    let t = serialize_plain(&b[i]);
    let mut r: Vec<String> = Vec::new();
    r.push(t);
    let mut more = collect_batch_texts(b, i + 1);
    r.append(&mut more);
    proof {
        assert(r.deep_view() =~~= batch_texts(rest));
    }
    r
}

fn collect_plain_texts(bs: &Vec<Vec<FoundItem>>, i: usize) -> (r: Vec<String>)
    requires
        i <= bs@.len(),
    ensures
        r.deep_view() == plain_texts(batches_model(bs@).skip(i as int)),
    decreases bs@.len() - i,
{
    let ghost models = batches_model(bs@);
    proof {
        lemma_batches_model(bs@);
    }
    if i == bs.len() {
        let r: Vec<String> = Vec::new();
        proof {
            assert(models.skip(i as int) =~= Seq::<Seq<FoundModel>>::empty());
            assert(r.deep_view() =~= plain_texts(models.skip(i as int)));
        }
        return r;
    }
    let ghost rest = models.skip(i as int);
    proof {
        assert(rest[0] == models[i as int]);
        assert(rest.drop_first() =~= models.skip(i + 1 as int));
    }
    let mut r = collect_batch_texts(&bs[i], 0);
    proof {
        assert(found_models(bs@[i as int]@).skip(0) =~= found_models(bs@[i as int]@));
    }
    let mut more = collect_plain_texts(bs, i + 1);
    r.append(&mut more);
    proof {
        assert(r.deep_view() =~~= plain_texts(rest));
    }
    r
}

fn emit_join(out: &mut Vec<char>, parts: &Vec<String>, i: usize)
    requires
        i <= parts@.len(),
    ensures
        final(out)@ == old(out)@ + join_with(parts.deep_view().skip(i as int), seq![' ']),
    decreases parts@.len() - i,
{
    if i == parts.len() {
        proof {
            assert(parts.deep_view().skip(i as int) =~= Seq::<Seq<char>>::empty());
        }
        return ;
    }
    let ghost rest = parts.deep_view().skip(i as int);
    proof {
        assert(rest[0] == parts@[i as int]@);
        assert(rest.drop_first() =~= parts.deep_view().skip(i + 1 as int));
    }
    crate::strutil::push_str_chars(out, parts[i].as_str());
    if i + 1 < parts.len() {
        out.push(' ');
        emit_join(out, parts, i + 1);
    }
    proof {
        if i + 1 == parts.len() {
            assert(join_with(rest, seq![' ']) == rest[0]);
        } else {
            assert(rest.len() >= 2);
            assert(join_with(rest, seq![' ']) == rest[0] + seq![' '] + join_with(
                rest.drop_first(),
                seq![' '],
            ));
        }
        assert(out@ =~= old(out)@ + join_with(rest, seq![' ']));
    }
}

/// Serialize a collection of batches: the plain form space-joins every
/// node's flattened pairs; the structured form is the JSON array of batches.
pub fn serialize_all(fetched_configs: Vec<Vec<FoundItem>>, sertype: SerType) -> (r: String)
    ensures
        r@ == payload(batches_model(fetched_configs@), sertype),
{
    match sertype {
        SerType::Plain => {
            let parts = collect_plain_texts(&fetched_configs, 0);
            let mut out: Vec<char> = Vec::new();
            emit_join(&mut out, &parts, 0);
            proof {
                assert(batches_model(fetched_configs@).skip(0) =~= batches_model(
                    fetched_configs@,
                ));
                assert(parts.deep_view().skip(0) =~= parts.deep_view());
            }
            crate::strutil::chars_to_string(&out)
        },
        SerType::Json => {
            let mut out: Vec<char> = Vec::new();
            out.push('[');
            emit_json_batch_items(&mut out, &fetched_configs, 0);
            out.push(']');
            proof {
                assert(batches_model(fetched_configs@).skip(0) =~= batches_model(
                    fetched_configs@,
                ));
                assert(out@ =~= json_payload(batches_model(fetched_configs@)));
            }
            crate::strutil::chars_to_string(&out)
        },
    }
}

}
