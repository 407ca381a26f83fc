use crate::lang_bundle::{Message, MessageView};
use crate::output_mode::OutputMode;
use vstd::prelude::*;

verus! {

/// A character that may stand in a Rust identifier as it is.
pub open spec fn is_ident_char(c: char) -> bool {
    ('a' <= c <= 'z') || ('A' <= c <= 'Z') || ('0' <= c <= '9') || c == '_'
}

/// An id with every character that may not stand in an identifier replaced by `_`.
pub open spec fn sanitized(id: Seq<char>) -> Seq<char> {
    id.map_values(|c: char| if is_ident_char(c) { c } else { '_' })
}

/// The accessor names of the messages under `prefix`: for each message, one for
/// its value and then one for each attribute, in order.
pub open spec fn accessor_names(prefix: Seq<char>, msgs: Seq<MessageView>) -> Seq<Seq<char>>
    decreases msgs.len(),
{
    if msgs.len() == 0 {
        Seq::empty()
    } else {
        let m = msgs.last();
        accessor_names(prefix, msgs.drop_last()) + seq![prefix + sanitized(m.id)]
            + m.attribute_ids.map_values(
            |a: Seq<char>| prefix + sanitized(m.id) + seq!['_'] + sanitized(a),
        )
    }
}

/// The names of the text-returning accessors that `mode` generates.
pub open spec fn string_accessor_names(mode: OutputMode, msgs: Seq<MessageView>) -> Seq<Seq<char>> {
    match mode.spec_string_prefix() {
        Some(p) => accessor_names(p, msgs),
        None => Seq::empty(),
    }
}

/// The names of the pattern-returning accessors that `mode` generates.
pub open spec fn pattern_accessor_names(mode: OutputMode, msgs: Seq<MessageView>) -> Seq<Seq<char>> {
    match mode.spec_pattern_prefix() {
        Some(p) => accessor_names(p, msgs),
        None => Seq::empty(),
    }
}

/// The names of the text-returning accessors depend on the string prefix
/// alone, and those of the pattern-returning accessors on the pattern prefix
/// alone: changing one prefix leaves the other kind of names as they were.
pub proof fn lemma_prefixes_independent(m1: OutputMode, m2: OutputMode, msgs: Seq<MessageView>)
    ensures
        m1.spec_string_prefix() == m2.spec_string_prefix() ==> string_accessor_names(m1, msgs)
            == string_accessor_names(m2, msgs),
        m1.spec_pattern_prefix() == m2.spec_pattern_prefix() ==> pattern_accessor_names(m1, msgs)
            == pattern_accessor_names(m2, msgs),
{
}

/// `id` made fit to stand in an identifier.
pub fn sanitize(id: &str) -> (r: String)
    ensures
        r@ == sanitized(id@),
{
    let n = id.unicode_len();
    let mut r = String::new();
    let mut i: usize = 0;
    while i < n
        invariant
            n == id@.len(),
            i <= n,
            r@ == sanitized(id@.take(i as int)),
        decreases n - i,
    {
        let c = id.get_char(i);
        if ('a' <= c && c <= 'z') || ('A' <= c && c <= 'Z') || ('0' <= c && c <= '9') || c == '_' {
            r.append(id.substring_char(i, i + 1));
        } else {
            r.append("_");
        }
        proof {
            reveal_strlit("_");
            assert(sanitized(id@.take(i + 1)) =~= sanitized(id@.take(i as int)) + seq![
                if is_ident_char(c) { c } else { '_' },
            ]);
            assert(id@.subrange(i as int, i + 1) =~= seq![c]);
        }
        i = i + 1;
    }
    assert(id@.take(n as int) =~= id@);
    r
}

/// The accessor names of the messages under `prefix`.
pub fn accessor_names_for(prefix: &str, messages: &Vec<Message>) -> (r: Vec<String>)
    ensures
        r.deep_view() == accessor_names(prefix@, crate::lang_bundle::messages_view(messages@)),
{
    let ghost mv = crate::lang_bundle::messages_view(messages@);
    let mut r: Vec<String> = Vec::new();
    let mut i: usize = 0;
    while i < messages.len()
        invariant
            i <= messages.len(),
            mv == crate::lang_bundle::messages_view(messages@),
            r.deep_view() == accessor_names(prefix@, mv.take(i as int)),
        decreases messages.len() - i,
    {
        let m = &messages[i];
        let base = sanitize(m.id.as_str());
        let mut name = prefix.to_string();
        name.append(base.as_str());
        let ghost r0 = r.deep_view();
        r.push(name);
        let mut j: usize = 0;
        while j < m.attribute_ids.len()
            invariant
                j <= m.attribute_ids.len(),
                m == messages[i as int],
                base@ == sanitized(m.id@),
                r.deep_view() == r0 + seq![prefix@ + sanitized(m.id@)] + m.attribute_ids.deep_view().take(
                    j as int,
                ).map_values(|a: Seq<char>| prefix@ + sanitized(m.id@) + seq!['_'] + sanitized(a)),
            decreases m.attribute_ids.len() - j,
        {
            let mut name = prefix.to_string();
            name.append(base.as_str());
            name.append("_");
            let attr = sanitize(m.attribute_ids[j].as_str());
            name.append(attr.as_str());
            proof {
                reveal_strlit("_");
                assert("_"@ == seq!['_']);
                assert(m.attribute_ids.deep_view()[j as int] == m.attribute_ids[j as int]@);
            }
            let ghost rd = r.deep_view();
            let ghost nv = name@;
            r.push(name);
            proof {
                assert(r.deep_view() =~= rd.push(nv));
                let ad = m.attribute_ids.deep_view();
                assert(ad.take(j + 1) =~= ad.take(j as int).push(ad[j as int]));
                assert(r.deep_view() =~= r0 + seq![prefix@ + sanitized(m.id@)] + ad.take(j + 1).map_values(
                    |a: Seq<char>| prefix@ + sanitized(m.id@) + seq!['_'] + sanitized(a),
                ));
            }
            j = j + 1;
        }
        proof {
            assert(mv.take(i + 1).drop_last() =~= mv.take(i as int));
            assert(mv[i as int] == m@);
            assert(m.attribute_ids.deep_view().take(j as int) =~= m.attribute_ids.deep_view());
        }
        i = i + 1;
    }
    assert(mv.take(i as int) =~= mv);
    r
}

/// The names of the text-returning accessors that `mode` generates.
pub fn string_function_names(mode: &OutputMode, messages: &Vec<Message>) -> (r: Vec<String>)
    ensures
        r.deep_view() == string_accessor_names(*mode, crate::lang_bundle::messages_view(messages@)),
{
    match mode.string_prefix() {
        Some(p) => accessor_names_for(p, messages),
        None => {
            let r: Vec<String> = Vec::new();
            assert(r.deep_view() =~= Seq::<Seq<char>>::empty());
            r
        },
    }
}

/// The names of the pattern-returning accessors that `mode` generates.
pub fn pattern_function_names(mode: &OutputMode, messages: &Vec<Message>) -> (r: Vec<String>)
    ensures
        r.deep_view() == pattern_accessor_names(*mode, crate::lang_bundle::messages_view(messages@)),
{
    match mode.pattern_prefix() {
        Some(p) => accessor_names_for(p, messages),
        None => {
            let r: Vec<String> = Vec::new();
            assert(r.deep_view() =~= Seq::<Seq<char>>::empty());
            r
        },
    }
}

/// The call that an accessor makes on the wrapped bundle.
pub open spec fn accessor_call(pattern: bool, id: Seq<char>, attr: Option<Seq<char>>) -> Seq<char> {
    match attr {
        None => (if pattern { "msg_pattern(\""@ } else { "msg(\""@ }) + id + (if pattern {
            "\")"@
        } else {
            "\", args)"@
        }),
        Some(a) => (if pattern { "attr_pattern(\""@ } else { "attr(\""@ }) + id + "\", \""@ + a
            + (if pattern { "\")"@ } else { "\", args)"@ }),
    }
}

/// One accessor function: a text-returning one renders at once, a
/// pattern-returning one hands back the pattern for later rendering.
pub open spec fn accessor_fn(
    ind: Seq<char>,
    pattern: bool,
    name: Seq<char>,
    id: Seq<char>,
    attr: Option<Seq<char>>,
) -> Seq<char> {
    ind + "pub fn "@ + name + (if pattern {
        "(&self) -> Pattern<String> {\n"@
    } else {
        "(&self, args: Option<FluentArgs>) -> Result<String, String> {\n"@
    }) + ind + ind + "self.0."@ + accessor_call(pattern, id, attr) + "\n"@ + ind + "}\n"@
}

/// The accessors of the first `n` attributes of message `id`.
pub open spec fn attribute_fns(
    ind: Seq<char>,
    pattern: bool,
    prefix: Seq<char>,
    id: Seq<char>,
    attrs: Seq<Seq<char>>,
) -> Seq<char>
    decreases attrs.len(),
{
    if attrs.len() == 0 {
        Seq::empty()
    } else {
        let a = attrs.last();
        attribute_fns(ind, pattern, prefix, id, attrs.drop_last()) + accessor_fn(
            ind,
            pattern,
            prefix + sanitized(id) + seq!['_'] + sanitized(a),
            id,
            Some(a),
        )
    }
}

/// The accessors of the messages under `prefix`, named as `accessor_names` gives.
pub open spec fn accessor_source(
    ind: Seq<char>,
    pattern: bool,
    prefix: Seq<char>,
    msgs: Seq<MessageView>,
) -> Seq<char>
    decreases msgs.len(),
{
    if msgs.len() == 0 {
        Seq::empty()
    } else {
        let m = msgs.last();
        accessor_source(ind, pattern, prefix, msgs.drop_last()) + accessor_fn(
            ind,
            pattern,
            prefix + sanitized(m.id),
            m.id,
            None,
        ) + attribute_fns(ind, pattern, prefix, m.id, m.attribute_ids)
    }
}

fn push_accessor(
    out: &mut String,
    ind: &str,
    pattern: bool,
    name: &str,
    id: &str,
    attr: Option<&str>,
)
    ensures
        final(out)@ == old(out)@ + accessor_fn(
            ind@,
            pattern,
            name@,
            id@,
            match attr {
                Some(a) => Some(a@),
                None => None,
            },
        ),
{
    let ghost o0 = out@;
    out.append(ind);
    out.append("pub fn ");
    out.append(name);
    if pattern {
        out.append("(&self) -> Pattern<String> {\n");
    } else {
        out.append("(&self, args: Option<FluentArgs>) -> Result<String, String> {\n");
    }
    out.append(ind);
    out.append(ind);
    out.append("self.0.");
    let ghost before_call = out@;
    match attr {
        None => {
            if pattern {
                out.append("msg_pattern(\"");
            } else {
                out.append("msg(\"");
            }
            out.append(id);
            if pattern {
                out.append("\")");
            } else {
                out.append("\", args)");
            }
        },
        Some(a) => {
            if pattern {
                out.append("attr_pattern(\"");
            } else {
                out.append("attr(\"");
            }
            out.append(id);
            out.append("\", \"");
            out.append(a);
            if pattern {
                out.append("\")");
            } else {
                out.append("\", args)");
            }
        },
    }
    let ghost at = match attr {
        Some(a) => Some(a@),
        None => None::<Seq<char>>,
    };
    assert(out@ =~= before_call + accessor_call(pattern, id@, at));
    out.append("\n");
    out.append(ind);
    out.append("}\n");
    assert(out@ =~= o0 + accessor_fn(ind@, pattern, name@, id@, at));
}

/// The accessor functions of the messages under `prefix`.
pub fn accessor_functions(ind: &str, pattern: bool, prefix: &str, messages: &Vec<Message>) -> (r: String)
    ensures
        r@ == accessor_source(ind@, pattern, prefix@, crate::lang_bundle::messages_view(messages@)),
{
    let ghost mv = crate::lang_bundle::messages_view(messages@);
    let mut out = String::new();
    let mut i: usize = 0;
    while i < messages.len()
        invariant
            i <= messages.len(),
            mv == crate::lang_bundle::messages_view(messages@),
            out@ == accessor_source(ind@, pattern, prefix@, mv.take(i as int)),
        decreases messages.len() - i,
    {
        let m = &messages[i];
        let base = sanitize(m.id.as_str());
        let mut name = prefix.to_string();
        name.append(base.as_str());
        push_accessor(&mut out, ind, pattern, name.as_str(), m.id.as_str(), None);
        let ghost o1 = out@;
        let ghost ad = m.attribute_ids.deep_view();
        let mut j: usize = 0;
        while j < m.attribute_ids.len()
            invariant
                j <= m.attribute_ids.len(),
                m == messages[i as int],
                ad == m.attribute_ids.deep_view(),
                base@ == sanitized(m.id@),
                out@ == o1 + attribute_fns(ind@, pattern, prefix@, m.id@, ad.take(j as int)),
            decreases m.attribute_ids.len() - j,
        {
            let a = m.attribute_ids[j].as_str();
            let mut name = prefix.to_string();
            name.append(base.as_str());
            name.append("_");
            let sa = sanitize(a);
            name.append(sa.as_str());
            proof {
                reveal_strlit("_");
                assert("_"@ == seq!['_']);
                assert(ad[j as int] == a@);
                assert(ad.take(j + 1).drop_last() =~= ad.take(j as int));
            }
            push_accessor(&mut out, ind, pattern, name.as_str(), m.id.as_str(), Some(a));
            j = j + 1;
        }
        proof {
            assert(ad.take(j as int) =~= ad);
            assert(mv.take(i + 1).drop_last() =~= mv.take(i as int));
            assert(mv[i as int] == m@);
        }
        i = i + 1;
    }
    assert(mv.take(i as int) =~= mv);
    out
}

pub open spec fn digit_char(d: nat) -> char {
    seq!['0', '1', '2', '3', '4', '5', '6', '7', '8', '9'][d as int]
}

/// The decimal digits of `n`.
pub open spec fn decimal(n: nat) -> Seq<char>
    decreases n,
{
    if n < 10 {
        seq![digit_char(n)]
    } else {
        decimal(n / 10) + seq![digit_char(n % 10)]
    }
}

/// The decimal digits of `n`.
pub fn decimal_text(n: usize) -> (r: String)
    ensures
        r@ == decimal(n as nat),
    decreases n,
{
    let digits = "0123456789";
    proof {
        reveal_strlit("0123456789");
    }
    let d = n % 10;
    let last = digits.substring_char(d, d + 1);
    proof {
        assert(last@ =~= seq![digit_char(d as nat)]);
    }
    if n < 10 {
        last.to_string()
    } else {
        let mut r = decimal_text(n / 10);
        r.append(last);
        r
    }
}

/// One row of the language table: id, human-readable name and byte range.
pub open spec fn table_row(ind: Seq<char>, id: Seq<char>, name: Seq<char>, start: nat, end: nat) -> Seq<char> {
    ind + "(\""@ + id + "\", \""@ + name + "\", "@ + decimal(start) + ", "@ + decimal(end) + "),\n"@
}

/// One table row for a language.
pub fn table_row_text(ind: &str, id: &str, name: &str, start: usize, end: usize) -> (r: String)
    ensures
        r@ == table_row(ind@, id@, name@, start as nat, end as nat),
{
    let mut r = ind.to_string();
    r.append("(\"");
    r.append(id);
    r.append("\", \"");
    r.append(name);
    r.append("\", ");
    let a = decimal_text(start);
    r.append(a.as_str());
    r.append(", ");
    let b = decimal_text(end);
    r.append(b.as_str());
    r.append("),\n");
    r
}

} // verus!
