use crate::error::BuildError;
use crate::ftl::{entries_view, parse_entries, parsed_entries, EntryView, FtlEntry};
use vstd::prelude::*;

verus! {

/// A message of one language, as accessors are generated for it.
#[derive(Debug, Clone)]
pub struct Message {
    pub id: String,
    /// The logical name of the resource that defines the message.
    pub resource_name: String,
    pub attribute_ids: Vec<String>,
}

pub struct MessageView {
    pub id: Seq<char>,
    pub resource_name: Seq<char>,
    pub attribute_ids: Seq<Seq<char>>,
}

impl View for Message {
    type V = MessageView;

    open spec fn view(&self) -> MessageView {
        MessageView {
            id: self.id@,
            resource_name: self.resource_name@,
            attribute_ids: self.attribute_ids.deep_view(),
        }
    }
}

pub open spec fn messages_view(v: Seq<Message>) -> Seq<MessageView> {
    v.map_values(|m: Message| m@)
}

/// One message-source file of a language: its path, its logical name and its text.
#[derive(Debug, Clone)]
pub struct SourceFile {
    pub path: String,
    pub name: String,
    pub text: String,
}

pub struct SourceView {
    pub path: Seq<char>,
    pub name: Seq<char>,
    pub text: Seq<char>,
}

impl View for SourceFile {
    type V = SourceView;

    open spec fn view(&self) -> SourceView {
        SourceView { path: self.path@, name: self.name@, text: self.text@ }
    }
}

pub open spec fn sources_view(v: Seq<SourceFile>) -> Seq<SourceView> {
    v.map_values(|f: SourceFile| f@)
}

/// The messages that a resource's entries define, in order, attributed to `name`.
pub open spec fn file_messages(name: Seq<char>, es: Seq<EntryView>) -> Seq<MessageView>
    decreases es.len(),
{
    if es.len() == 0 {
        Seq::empty()
    } else {
        let rest = file_messages(name, es.drop_last());
        let e = es.last();
        if e.is_message {
            rest.push(MessageView { id: e.id, resource_name: name, attribute_ids: e.attribute_ids })
        } else {
            rest
        }
    }
}

/// The messages, each with the path `path`.
pub open spec fn tag_with(path: Seq<char>, ms: Seq<MessageView>) -> Seq<(MessageView, Seq<char>)> {
    ms.map_values(|m: MessageView| (m, path))
}

/// The reserved message id that names a language.
pub open spec fn language_name_key() -> Seq<char> {
    seq!['l', 'a', 'n', 'g', 'u', 'a', 'g', 'e', '-', 'n', 'a', 'm', 'e']
}

pub open spec fn names_language(e: EntryView) -> bool {
    e.is_message && e.id == language_name_key() && e.attribute_ids.len() == 0
        && e.leading_text is Some
}

/// The leading text of the first entry that names the language.
pub open spec fn lang_name_of(es: Seq<EntryView>) -> Option<Seq<char>>
    decreases es.len(),
{
    if es.len() == 0 {
        None
    } else if lang_name_of(es.drop_last()) is Some {
        lang_name_of(es.drop_last())
    } else if names_language(es.last()) {
        es.last().leading_text
    } else {
        None
    }
}

/// The entries of a file whose text parses.
pub open spec fn file_entries(f: SourceView) -> Seq<EntryView> {
    parsed_entries(f.text)->Some_0
}

/// Every message of the files, in file-then-entry order, with the path of its file.
pub open spec fn tagged(files: Seq<SourceView>) -> Seq<(MessageView, Seq<char>)>
    decreases files.len(),
{
    if files.len() == 0 {
        Seq::empty()
    } else {
        let f = files.last();
        tagged(files.drop_last()) + file_messages(f.name, file_entries(f)).map_values(
            |m: MessageView| (m, f.path),
        )
    }
}

/// The marker that precedes a resource's text in a language's combined text.
pub open spec fn section_marker(name: Seq<char>) -> Seq<char> {
    "\n## ########## Resource: "@ + name + " ###############\n\n"@
}

/// The combined text of the files: each marked and followed by a line break.
pub open spec fn combined_text(files: Seq<SourceView>) -> Seq<char>
    decreases files.len(),
{
    if files.len() == 0 {
        Seq::empty()
    } else {
        combined_text(files.drop_last()) + section_marker(files.last().name) + files.last().text
            + "\n"@
    }
}

/// The language name of the first file that gives one.
pub open spec fn files_lang_name(files: Seq<SourceView>) -> Option<Seq<char>>
    decreases files.len(),
{
    if files.len() == 0 {
        None
    } else if files_lang_name(files.drop_last()) is Some {
        files_lang_name(files.drop_last())
    } else {
        lang_name_of(file_entries(files.last()))
    }
}

/// The number of leading files whose text parses.
pub open spec fn parsed_prefix(files: Seq<SourceView>) -> nat
    decreases files.len(),
{
    if files.len() == 0 {
        0
    } else if parsed_prefix(files.drop_last()) < files.len() - 1 {
        parsed_prefix(files.drop_last())
    } else if parsed_entries(files.last().text) is Some {
        files.len() as nat
    } else {
        (files.len() - 1) as nat
    }
}

/// The id at `j` was defined at an earlier position.
pub open spec fn defined_before(t: Seq<(MessageView, Seq<char>)>, j: int) -> bool {
    exists|i: int| 0 <= i < j && #[trigger] t[i].0.id == t[j].0.id
}

pub open spec fn no_duplicates(t: Seq<(MessageView, Seq<char>)>) -> bool {
    forall|j: int| 0 <= j < t.len() ==> !defined_before(t, j)
}

/// `j` is the first redefinition, and `i` the first definition of its id.
pub open spec fn first_duplicate(t: Seq<(MessageView, Seq<char>)>, i: int, j: int) -> bool {
    &&& 0 <= i < j < t.len()
    &&& t[i].0.id == t[j].0.id
    &&& forall|k: int| 0 <= k < j ==> !defined_before(t, k)
    &&& forall|k: int| 0 <= k < i ==> #[trigger] t[k].0.id != t[j].0.id
}

/// All messages of one language with its combined source text.
#[derive(Debug)]
pub struct LangBundle {
    pub language_name: Option<String>,
    pub language_id: String,
    pub messages: Vec<Message>,
    pub ftl: String,
}

fn language_name_in(entries: &Vec<FtlEntry>) -> (r: Option<String>)
    ensures
        crate::ftl::opt_view(r) == lang_name_of(entries_view(entries@)),
{
    let key = String::from_str("language-name");
    proof {
        reveal_strlit("language-name");
    }
    let mut r: Option<String> = None;
    let mut j: usize = 0;
    while j < entries.len()
        invariant
            j <= entries.len(),
            key@ == language_name_key(),
            crate::ftl::opt_view(r) == lang_name_of(entries_view(entries@).take(j as int)),
        decreases entries.len() - j,
    {
        proof {
            assert(entries_view(entries@).take(j + 1).drop_last() =~= entries_view(entries@).take(
                j as int,
            ));
        }
        if r.is_none() {
            match &entries[j] {
                FtlEntry::Message { id, attribute_ids, value } => {
                    if *id == key && attribute_ids.len() == 0 {
                        match value {
                            Some(v) => {
                                if v.len() > 0 {
                                    match &v[0] {
                                        crate::ftl::PatternPiece::Text(t) => {
                                            r = Some(t.clone());
                                        },
                                        crate::ftl::PatternPiece::Placeable => {},
                                    }
                                }
                            },
                            None => {},
                        }
                    }
                },
                FtlEntry::Other => {},
            }
        }
        j = j + 1;
    }
    assert(entries_view(entries@).take(j as int) =~= entries_view(entries@));
    r
}


/// Appends the messages that `entries` define, attributed to `name`, each with
/// the path of its file.
fn collect_messages(
    name: &String,
    path: &String,
    entries: &Vec<FtlEntry>,
    messages: &mut Vec<Message>,
    origins: &mut Vec<String>,
)
    requires
        old(messages).len() == old(origins).len(),
    ensures
        ({
            let fm = file_messages(name@, entries_view(entries@));
            let n0 = old(messages).len();
            &&& final(messages).len() == final(origins).len() == n0 + fm.len()
            &&& forall|k: int|
                0 <= k < n0 ==> #[trigger] final(messages)[k]@ == old(messages)[k]@
                    && final(origins)[k]@ == old(origins)[k]@
            &&& forall|k: int|
                0 <= k < fm.len() ==> #[trigger] final(messages)[n0 + k]@ == fm[k]
                    && final(origins)[n0 + k]@ == path@
        }),
{
    let ghost ev = entries_view(entries@);
    let ghost n0 = messages.len() as int;
    let ghost m0 = messages@;
    let ghost o0 = origins@;
    let mut j: usize = 0;
    while j < entries.len()
        invariant
            j <= entries.len(),
            ev == entries_view(entries@),
            n0 == m0.len(),
            m0.len() == o0.len(),
            ({
                let fm = file_messages(name@, ev.take(j as int));
                &&& messages.len() == origins.len() == n0 + fm.len()
                &&& forall|k: int| 0 <= k < n0 ==> #[trigger] messages[k]@ == m0[k]@
                &&& forall|k: int| 0 <= k < n0 ==> #[trigger] origins[k]@ == o0[k]@
                &&& forall|k: int| 0 <= k < fm.len() ==> #[trigger] messages[n0 + k]@ == fm[k]
                &&& forall|k: int| 0 <= k < fm.len() ==> #[trigger] origins[n0 + k]@ == path@
            }),
        decreases entries.len() - j,
    {
        let ghost fm_before = file_messages(name@, ev.take(j as int));
        proof {
            assert(ev.take(j + 1).drop_last() =~= ev.take(j as int));
            assert(ev.take(j + 1).last() == entries[j as int]@);
        }
        match &entries[j] {
            FtlEntry::Message { id, attribute_ids, .. } => {
                let m = Message {
                    id: id.clone(),
                    resource_name: name.clone(),
                    attribute_ids: attribute_ids.clone(),
                };
                proof {
                    assert(attribute_ids.deep_view() =~= m.attribute_ids.deep_view());
                    assert(entries[j as int]@.is_message);
                    assert(entries[j as int]@.id == id@);
                    assert(entries[j as int]@.attribute_ids == attribute_ids.deep_view());
                }
                messages.push(m);
                origins.push(path.clone());
                proof {
                    let fm = file_messages(name@, ev.take(j + 1));
                    assert(fm == fm_before.push(m@));
                    assert forall|k: int| 0 <= k < fm.len() implies #[trigger] messages[n0 + k]@
                        == fm[k] by {
                        if k < fm_before.len() {
                            assert(messages[n0 + k]@ == fm_before[k]);
                        }
                    }
                    assert forall|k: int| 0 <= k < fm.len() implies #[trigger] origins[n0 + k]@
                        == path@ by {
                        if k < fm_before.len() {
                            assert(origins[n0 + k]@ == path@);
                        }
                    }
                }
            },
            FtlEntry::Other => {
                assert(!entries[j as int]@.is_message);
                assert(file_messages(name@, ev.take(j + 1)) == fm_before);
            },
        }
        j = j + 1;
    }
    assert(ev.take(j as int) =~= ev);
    proof {
        let fm = file_messages(name@, ev);
        assert forall|k: int| 0 <= k < fm.len() implies #[trigger] messages[n0 + k]@ == fm[k]
            && origins[n0 + k]@ == path@ by {}
        assert forall|k: int| 0 <= k < n0 implies #[trigger] messages[k]@ == m0[k]@
            && origins[k]@ == o0[k]@ by {}
    }
}

/// The first redefinition of an id among `messages`, as the positions of the
/// first definition and of the redefinition.
fn find_duplicate(messages: &Vec<Message>) -> (r: Option<(usize, usize)>)
    ensures
        r is None ==> forall|b: int, a: int|
            0 <= a < b < messages.len() ==> #[trigger] messages[a].id@ != #[trigger] messages[b].id@,
        r matches Some((i, j)) ==> {
            &&& i < j < messages.len()
            &&& messages[i as int].id@ == messages[j as int].id@
            &&& forall|b: int, a: int|
                0 <= a < b < j ==> #[trigger] messages[a].id@ != #[trigger] messages[b].id@
            &&& forall|a: int| 0 <= a < i ==> #[trigger] messages[a].id@ != messages[j as int].id@
        },
{
    let mut j: usize = 0;
    while j < messages.len()
        invariant
            j <= messages.len(),
            forall|b: int, a: int|
                0 <= a < b < j ==> #[trigger] messages[a].id@ != #[trigger] messages[b].id@,
        decreases messages.len() - j,
    {
        let mut i: usize = 0;
        while i < j
            invariant
                i <= j < messages.len(),
                forall|a: int| 0 <= a < i ==> #[trigger] messages[a].id@ != messages[j as int].id@,
                forall|b: int, a: int|
                    0 <= a < b < j ==> #[trigger] messages[a].id@ != #[trigger] messages[b].id@,
            decreases j - i,
        {
            if messages[i].id == messages[j].id {
                return Some((i, j));
            }
            i = i + 1;
        }
        j = j + 1;
    }
    None
}


pub open spec fn all_parse(files: Seq<SourceView>) -> bool {
    forall|p: int| 0 <= p < files.len() ==> (#[trigger] parsed_entries(files[p].text)) is Some
}

/// The file at `k` is the first whose text does not parse.
pub open spec fn first_unparsed(files: Seq<SourceView>, k: int) -> bool {
    &&& 0 <= k < files.len()
    &&& parsed_entries(files[k].text) is None
    &&& all_parse(files.take(k))
}

proof fn lemma_first_unparsed_unique(fv: Seq<SourceView>, k1: int, k2: int)
    requires
        first_unparsed(fv, k1),
        first_unparsed(fv, k2),
    ensures
        k1 == k2,
{
    if k1 < k2 {
        assert(fv.take(k2)[k1] == fv[k1]);
    } else if k2 < k1 {
        assert(fv.take(k1)[k2] == fv[k2]);
    }
}

proof fn lemma_all_parse_none_unparsed(fv: Seq<SourceView>, k: int)
    requires
        all_parse(fv),
    ensures
        !first_unparsed(fv, k),
{
    if 0 <= k < fv.len() {
        assert(parsed_entries(fv[k].text) is Some);
    }
}

pub open spec fn firsts(t: Seq<(MessageView, Seq<char>)>) -> Seq<MessageView> {
    t.map_values(|p: (MessageView, Seq<char>)| p.0)
}

proof fn lemma_tagged_step(fv: Seq<SourceView>, i: int)
    requires
        0 <= i < fv.len(),
    ensures
        tagged(fv.take(i + 1)) == tagged(fv.take(i)) + file_messages(
            fv[i].name,
            file_entries(fv[i]),
        ).map_values(|m: MessageView| (m, fv[i].path)),
        combined_text(fv.take(i + 1)) == combined_text(fv.take(i)) + section_marker(fv[i].name)
            + fv[i].text + "\n"@,
        files_lang_name(fv.take(i + 1)) == if files_lang_name(fv.take(i)) is Some {
            files_lang_name(fv.take(i))
        } else {
            lang_name_of(file_entries(fv[i]))
        },
{
    assert(fv.take(i + 1).drop_last() =~= fv.take(i));
}

/// The duplicate search over the collected ids, stated over the tagged messages.
proof fn lemma_duplicates(messages: Seq<Message>, t: Seq<(MessageView, Seq<char>)>, r: Option<(usize, usize)>)
    requires
        messages.len() == t.len(),
        forall|k: int| 0 <= k < t.len() ==> #[trigger] messages[k]@ == t[k].0,
        r is None ==> forall|b: int, a: int|
            0 <= a < b < messages.len() ==> #[trigger] messages[a].id@ != #[trigger] messages[b].id@,
        r matches Some((i, j)) ==> {
            &&& i < j < messages.len()
            &&& messages[i as int].id@ == messages[j as int].id@
            &&& forall|b: int, a: int|
                0 <= a < b < j ==> #[trigger] messages[a].id@ != #[trigger] messages[b].id@
            &&& forall|a: int| 0 <= a < i ==> #[trigger] messages[a].id@ != messages[j as int].id@
        },
    ensures
        r is None <==> no_duplicates(t),
        r matches Some((i, j)) ==> first_duplicate(t, i as int, j as int),
{
    assert forall|k: int| 0 <= k < t.len() implies #[trigger] t[k].0.id == messages[k].id@ by {
        assert(messages[k]@ == t[k].0);
    }
    match r {
        None => {
            assert forall|j: int| 0 <= j < t.len() implies !defined_before(t, j) by {
                if defined_before(t, j) {
                    let i = choose|i: int| 0 <= i < j && #[trigger] t[i].0.id == t[j].0.id;
                    assert(messages[i].id@ == messages[j].id@);
                }
            }
        },
        Some((i, j)) => {
            assert(t[i as int].0.id == t[j as int].0.id);
            assert(defined_before(t, j as int));
            assert forall|k: int| 0 <= k < j implies !defined_before(t, k) by {
                if defined_before(t, k) {
                    let a = choose|a: int| 0 <= a < k && #[trigger] t[a].0.id == t[k].0.id;
                    assert(messages[a].id@ == messages[k].id@);
                }
            }
            assert forall|k: int| 0 <= k < i implies #[trigger] t[k].0.id != t[j as int].0.id by {
                assert(messages[k].id@ != messages[j as int].id@);
            }
        },
    }
}

impl LangBundle {
    /// Whether the files come sorted by path, component by component.
    pub fn sorted_by_path(files: &Vec<SourceFile>) -> (r: bool)
        ensures
            r == forall|k: int|
                0 <= k < files.len() - 1 ==> !crate::analyzer::path_lt(
                    files[k + 1].path@,
                    #[trigger] files[k].path@,
                ),
    {
        if files.len() == 0 {
            return true;
        }
        let mut k: usize = 0;
        while k < files.len() - 1
            invariant
                files.len() > 0,
                forall|q: int|
                    0 <= q < k && q < files.len() - 1 ==> !crate::analyzer::path_lt(
                        files[q + 1].path@,
                        #[trigger] files[q].path@,
                    ),
            decreases files.len() - k,
        {
            if crate::analyzer::path_less(files[k + 1].path.as_str(), files[k].path.as_str()) {
                return false;
            }
            k = k + 1;
        }
        true
    }

    /// Builds a language's bundle from its files, which come sorted by path:
    /// that order decides which definition of an id is the first.
    ///
    /// The files are parsed in order up to the first one that does not parse.
    /// With `deny_duplicate_keys`, a message id defined twice among the parsed
    /// files is an error naming the file of its first definition as the original
    /// and the file of its second as the duplicate; this error comes before a
    /// parse error of a later file. Otherwise every definition is kept.
    pub fn from_sources(files: &Vec<SourceFile>, lang: &str, deny_duplicate_keys: bool) -> (r: Result<
        Self,
        BuildError,
    >)
        requires
            forall|k: int|
                0 <= k < files.len() - 1 ==> !crate::analyzer::path_lt(
                    files[k + 1].path@,
                    #[trigger] files[k].path@,
                ),
        ensures
            ({
                let fv = sources_view(files@);
                &&& r is Ok <==> all_parse(fv) && (!deny_duplicate_keys || no_duplicates(tagged(fv)))
                &&& (r matches Err(BuildError::FtlParse(_))) <==> exists|k: int|
                    first_unparsed(fv, k) && (!deny_duplicate_keys || no_duplicates(
                        tagged(fv.take(k)),
                    ))
                &&& (r matches Err(BuildError::DuplicateKey { key, original, duplicate })
                    ==> deny_duplicate_keys && exists|k: int, i: int, j: int|
                    (first_unparsed(fv, k) || (k == fv.len() && all_parse(fv)))
                        && #[trigger] first_duplicate(tagged(fv.take(k)), i, j) && key@ == tagged(
                        fv.take(k),
                    )[j].0.id && original@ == tagged(fv.take(k))[i].1 && duplicate@ == tagged(
                        fv.take(k),
                    )[j].1)
                &&& r is Ok || (r matches Err(BuildError::FtlParse(_))) || (r matches Err(
                    BuildError::DuplicateKey { .. },
                ))
                &&& (r matches Err(BuildError::FtlParse(m)) ==> exists|k: int|
                    first_unparsed(fv, k) && m@.take(fv[k].path.len() + 2int) == fv[k].path + ": "@)
                &&& (r matches Ok(b) ==> {
                    &&& b.language_id@ == lang@
                    &&& messages_view(b.messages@) == firsts(tagged(fv))
                    &&& b.ftl@ == combined_text(fv)
                    &&& crate::ftl::opt_view(b.language_name) == files_lang_name(fv)
                })
            }),
    {
        let ghost fv = sources_view(files@);
        let mut messages: Vec<Message> = Vec::new();
        let mut origins: Vec<String> = Vec::new();
        let mut ftl = String::new();
        let mut language_name: Option<String> = None;
        let mut failure: Option<String> = None;
        let mut i: usize = 0;
        while i < files.len() && failure.is_none()
            invariant
                i <= files.len(),
                fv == sources_view(files@),
                failure is None ==> all_parse(fv.take(i as int)),
                failure is Some ==> i > 0 && first_unparsed(fv, i - 1),
                ({
                    let done = if failure is None { i as int } else { i - 1 };
                    let t = tagged(fv.take(done));
                    &&& messages.len() == origins.len() == t.len()
                    &&& forall|k: int| 0 <= k < t.len() ==> #[trigger] messages[k]@ == t[k].0
                    &&& forall|k: int| 0 <= k < t.len() ==> #[trigger] origins[k]@ == t[k].1
                }),
                failure is None ==> ftl@ == combined_text(fv.take(i as int)),
                failure is None ==> crate::ftl::opt_view(language_name) == files_lang_name(
                    fv.take(i as int),
                ),
            decreases files.len() - i,
        {
            let f = &files[i];
            proof {
                assert(fv[i as int] == f@);
                lemma_tagged_step(fv, i as int);
            }
            match parse_entries(f.text.as_str()) {
                Ok(entries) => {
                    if language_name.is_none() {
                        language_name = language_name_in(&entries);
                    }
                    ftl.append("\n## ########## Resource: ");
                    ftl.append(f.name.as_str());
                    ftl.append(" ###############\n\n");
                    ftl.append(f.text.as_str());
                    ftl.append("\n");
                    let ghost m0 = messages@;
                    let ghost o0 = origins@;
                    collect_messages(&f.name, &f.path, &entries, &mut messages, &mut origins);
                    proof {
                        let t0 = tagged(fv.take(i as int));
                        let t1 = tagged(fv.take(i + 1));
                        let fm = file_messages(f.name@, entries_view(entries@));
                        assert(t1 == t0 + fm.map_values(|m: MessageView| (m, f.path@)));
                        assert forall|k: int| 0 <= k < t1.len() implies messages[k]@ == t1[k].0
                            && origins[k]@ == t1[k].1 by {
                            if k < t0.len() {
                                assert(messages[k]@ == m0[k]@);
                                assert(origins[k]@ == o0[k]@);
                                assert(m0[k]@ == t0[k].0);
                                assert(o0[k]@ == t0[k].1);
                                assert(t1[k] == t0[k]);
                            } else {
                                let k2 = k - t0.len();
                                assert(messages[m0.len() + k2]@ == fm[k2]);
                                assert(origins[m0.len() + k2]@ == f.path@);
                                assert(t1[k] == (fm[k2], f.path@));
                            }
                        }
                        assert forall|p: int| 0 <= p < i + 1 implies (#[trigger] parsed_entries(
                            fv.take(i + 1)[p].text,
                        )) is Some by {
                            if p < i {
                                assert(fv.take(i + 1)[p] == fv.take(i as int)[p]);
                            }
                        }
                    }
                },
                Err(e) => {
                    failure = Some(e);
                    proof {
                        assert(fv.take(i as int).len() == i);
                    }
                },
            }
            i = i + 1;
        }
        let ghost done: int = if failure is None { i as int } else { i - 1 };
        let ghost t = tagged(fv.take(done));
        proof {
            if failure is None {
                assert(fv.take(i as int) =~= fv);
            }
        }
        if deny_duplicate_keys {
            let dup = find_duplicate(&messages);
            proof {
                lemma_duplicates(messages@, t, dup);
            }
            match dup {
                Some((a, b)) => {
                    proof {
                        assert(messages[b as int]@ == t[b as int].0);
                        assert(origins[a as int]@ == t[a as int].1);
                        assert(origins[b as int]@ == t[b as int].1);
                        assert(first_duplicate(tagged(fv.take(done)), a as int, b as int));
                        assert(!no_duplicates(t));
                        if failure is Some {
                            assert(parsed_entries(fv[done].text) is None);
                        }
                        assert forall|k: int| first_unparsed(fv, k) implies !no_duplicates(
                            tagged(fv.take(k)),
                        ) by {
                            if failure is Some {
                                lemma_first_unparsed_unique(fv, k, done);
                            } else {
                                lemma_all_parse_none_unparsed(fv, k);
                            }
                        }
                    }
                    return Err(
                        BuildError::DuplicateKey {
                            key: messages[b].id.clone(),
                            original: origins[a].clone(),
                            duplicate: origins[b].clone(),
                        },
                    );
                },
                None => {},
            }
        }
        proof {
            if failure is Some {
                assert(first_unparsed(fv, done));
                assert(parsed_entries(fv[done].text) is None);
            } else {
                assert forall|k: int| !first_unparsed(fv, k) by {
                    lemma_all_parse_none_unparsed(fv, k);
                }
            }
        }
        match failure {
            Some(e) => {
                let mut m = files[i - 1].path.clone();
                m.append(": ");
                m.append(e.as_str());
                proof {
                    reveal_strlit(": ");
                    assert(fv[done] == files[i - 1]@);
                    assert(m@.take(fv[done].path.len() + 2int) =~= fv[done].path + ": "@);
                }
                Err(BuildError::FtlParse(m))
            },
            None => {
                proof {
                    assert(messages_view(messages@) =~= firsts(t));
                }
                Ok(LangBundle { language_name, language_id: lang.to_string(), messages, ftl })
            },
        }
    }

    /// Builds a bundle from one resource's text, every message attributed to
    /// `name`, which also stands for the resource's path.
    pub fn from_ftl(ftl: &str, name: &str, lang: &str, deny_duplicate_keys: bool) -> (r: Result<
        Self,
        BuildError,
    >)
        ensures
            ({
                let es = parsed_entries(ftl@)->Some_0;
                let t = tag_with(name@, file_messages(name@, es));
                &&& r is Ok <==> parsed_entries(ftl@) is Some && (!deny_duplicate_keys
                    || no_duplicates(t))
                &&& (r matches Err(BuildError::FtlParse(_))) <==> parsed_entries(ftl@) is None
                &&& (r matches Err(BuildError::DuplicateKey { key, original, duplicate })
                    ==> deny_duplicate_keys && exists|i: int, j: int|
                    #[trigger] first_duplicate(t, i, j) && key@ == t[j].0.id && original@ == name@
                        && duplicate@ == name@)
                &&& r is Ok || (r matches Err(BuildError::FtlParse(_))) || (r matches Err(
                    BuildError::DuplicateKey { .. },
                ))
                &&& (r matches Ok(b) ==> {
                    &&& b.language_id@ == lang@
                    &&& messages_view(b.messages@) == file_messages(name@, es)
                    &&& b.ftl@ == ftl@
                    &&& crate::ftl::opt_view(b.language_name) == lang_name_of(es)
                })
            }),
    {
        let entries = match parse_entries(ftl) {
            Ok(entries) => entries,
            Err(e) => {
                return Err(BuildError::FtlParse(e));
            },
        };
        let ghost es = entries_view(entries@);
        let ghost t = tag_with(name@, file_messages(name@, es));
        let name = name.to_string();
        let mut messages: Vec<Message> = Vec::new();
        let mut origins: Vec<String> = Vec::new();
        collect_messages(&name, &name, &entries, &mut messages, &mut origins);
        proof {
            assert forall|k: int| 0 <= k < t.len() implies #[trigger] messages[k]@ == t[k].0 by {
                assert(messages[0 + k]@ == file_messages(name@, es)[k]);
            }
        }
        if deny_duplicate_keys {
            let dup = find_duplicate(&messages);
            proof {
                lemma_duplicates(messages@, t, dup);
            }
            match dup {
                Some((_, b)) => {
                    proof {
                        assert(messages[b as int]@ == t[b as int].0);
                    }
                    return Err(
                        BuildError::DuplicateKey {
                            key: messages[b].id.clone(),
                            original: name.clone(),
                            duplicate: name,
                        },
                    );
                },
                None => {},
            }
        }
        proof {
            assert(messages_view(messages@) =~= file_messages(name@, es));
        }
        Ok(
            LangBundle {
                language_name: language_name_in(&entries),
                language_id: lang.to_string(),
                messages,
                ftl: ftl.to_string(),
            },
        )
    }
}

} // verus!
