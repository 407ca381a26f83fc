use crate::analyzer::{analyze, is_permutation, sorted_by_id, Analyzed};
use crate::build_options::BuildOptions;
use crate::codegen::{accessor_functions, accessor_source, table_row, table_row_text};
use crate::error::BuildError;
use crate::lang_bundle::{messages_view, LangBundle, MessageView};
use crate::output_mode::OutputMode;
use crate::packer::{bundle_bytes, pack_single_blob, packed_len, packs, ranges_view, LangRange, PackedBlob};
use vstd::prelude::*;

verus! {

/// The accessor code for the messages: the text-returning accessors, then
/// the pattern-returning ones, as the output mode asks.
pub open spec fn generated_source(ind: Seq<char>, mode: OutputMode, msgs: Seq<MessageView>) -> Seq<char> {
    "impl L10nLanguage {\n"@ + match mode.spec_string_prefix() {
        Some(p) => accessor_source(ind, false, p, msgs),
        None => Seq::empty(),
    } + match mode.spec_pattern_prefix() {
        Some(p) => accessor_source(ind, true, p, msgs),
        None => Seq::empty(),
    } + "}\n"@
}

/// The name shown for a language: its own, or else its id.
pub open spec fn display_name(b: LangBundle) -> Seq<char> {
    match b.language_name {
        Some(n) => n@,
        None => b.language_id@,
    }
}

/// The table rows of the first `n` languages in `order`, with their ranges.
pub open spec fn language_rows(
    ind: Seq<char>,
    bundles: Seq<LangBundle>,
    order: Seq<usize>,
    ranges: Seq<LangRange>,
    n: nat,
) -> Seq<char>
    decreases n,
{
    if n == 0 {
        Seq::empty()
    } else {
        let b = bundles[order[n - 1] as int];
        language_rows(ind, bundles, order, ranges, (n - 1) as nat) + table_row(
            ind,
            b.language_id@,
            display_name(b),
            ranges[n - 1].start as nat,
            ranges[n - 1].end as nat,
        )
    }
}

/// The generated code: the default language, the table of languages with
/// their names and byte ranges, then the accessors.
pub open spec fn generated_file(
    ind: Seq<char>,
    mode: OutputMode,
    bundles: Seq<LangBundle>,
    default_index: int,
    order: Seq<usize>,
    ranges: Seq<LangRange>,
) -> Seq<char> {
    "pub const DEFAULT_LANGUAGE: &str = \""@ + bundles[default_index].language_id@ + "\";\n"@
        + "pub const LANGUAGES: &[(&str, &str, usize, usize)] = &[\n"@ + language_rows(
        ind,
        bundles,
        order,
        ranges,
        order.len(),
    ) + "];\n\n"@ + generated_source(ind, mode, messages_view(bundles[default_index].messages@))
}

/// All languages of a build, with what the analysis found of them.
pub struct Builder {
    options: BuildOptions,
    bundles: Vec<LangBundle>,
    analyzed: Analyzed,
}

/// What a build produces: the packed texts and the accessor code.
#[derive(Debug)]
pub struct Generated {
    pub blob: PackedBlob,
    pub source: String,
}

impl Builder {
    pub closed spec fn spec_options(&self) -> BuildOptions {
        self.options
    }

    pub closed spec fn spec_bundles(&self) -> Seq<LangBundle> {
        self.bundles@
    }

    /// The position of the default language among the bundles.
    pub closed spec fn spec_default_index(&self) -> int {
        self.analyzed.default_index as int
    }

    /// The bundles' positions in order of language id.
    pub closed spec fn spec_order(&self) -> Seq<usize> {
        self.analyzed.order@
    }

    pub closed spec fn wf(&self) -> bool {
        &&& self.analyzed.default_index < self.bundles.len()
        &&& is_permutation(self.analyzed.order@, self.bundles.len() as nat)
    }

    /// Checks that the default language is among the bundles and orders them.
    pub fn from_bundles(options: BuildOptions, bundles: Vec<LangBundle>) -> (r: Result<Self, BuildError>)
        ensures
            (r matches Err(BuildError::Generation(_))) <==> forall|k: int|
                0 <= k < bundles.len() ==> #[trigger] bundles[k].language_id@
                    != options.default_language@,
            r is Ok || (r matches Err(BuildError::Generation(_))),
            r matches Ok(b) ==> {
                &&& b.wf()
                &&& b.spec_options() == options
                &&& b.spec_bundles() == bundles@
                &&& b.spec_bundles()[b.spec_default_index()].language_id@ == options.default_language@
                &&& forall|k: int|
                    0 <= k < b.spec_default_index() ==> #[trigger] bundles[k].language_id@
                        != options.default_language@
                &&& sorted_by_id(bundles@, b.spec_order())
            },
    {
        let analyzed = analyze(&bundles, options.default_language.as_str())?;
        Ok(Builder { options, bundles, analyzed })
    }

    /// A build of one language from one resource's text.
    pub fn load_one(options: BuildOptions, resource_name: &str, lang: &str, ftl: &str) -> (r: Result<
        Self,
        BuildError,
    >)
        ensures
            r matches Ok(b) ==> b.wf() && b.spec_bundles().len() == 1 && b.spec_options() == options
                && b.spec_bundles()[0].language_id@ == lang@,
            lang@ != options.default_language@ && crate::ftl::parsed_entries(ftl@) is Some
                && !options.deny_duplicate_keys ==> (r matches Err(BuildError::Generation(_))),
            ({
                let t = crate::lang_bundle::tag_with(
                    resource_name@,
                    crate::lang_bundle::file_messages(
                        resource_name@,
                        crate::ftl::parsed_entries(ftl@)->Some_0,
                    ),
                );
                lang@ == options.default_language@ && crate::ftl::parsed_entries(ftl@) is Some && (
                !options.deny_duplicate_keys || crate::lang_bundle::no_duplicates(t)) ==> r is Ok
            }),
    {
        let bundle = LangBundle::from_ftl(ftl, resource_name, lang, options.deny_duplicate_keys)?;
        let mut bundles: Vec<LangBundle> = Vec::new();
        bundles.push(bundle);
        proof {
            assert(bundles@[0].language_id@ == lang@);
        }
        Self::from_bundles(options, bundles)
    }

    pub fn bundles(&self) -> (r: &Vec<LangBundle>)
        ensures
            r@ == self.spec_bundles(),
    {
        &self.bundles
    }

    pub fn default_index(&self) -> (r: usize)
        ensures
            r == self.spec_default_index(),
    {
        self.analyzed.default_index
    }

    pub fn options(&self) -> (r: &BuildOptions)
        ensures
            *r == self.spec_options(),
    {
        &self.options
    }

    /// Packs the languages' texts in order of language id, and writes the
    /// accessors of the default language's messages. Fails only where the
    /// packed texts would not fit in memory.
    pub fn generate(&self) -> (r: Result<Generated, BuildError>)
        requires
            self.wf(),
        ensures
            ({
                let texts = bundle_bytes(self.spec_bundles(), self.spec_order());
                &&& (r is Err <==> crate::packer::joined(texts).len() > usize::MAX)
                &&& (r is Err ==> (r matches Err(BuildError::Generation(_))))
                &&& (r matches Ok(g) ==> {
                    &&& packs(texts, g.blob.bytes@, ranges_view(g.blob.ranges@))
                    &&& forall|i: int|
                        0 <= i < g.blob.ranges.len() ==> (#[trigger] g.blob.ranges[i]).language_id@
                            == self.spec_bundles()[self.spec_order()[i] as int].language_id@
                    &&& g.source@ == generated_file(
                        self.spec_options().indentation@,
                        self.spec_options().output_mode,
                        self.spec_bundles(),
                        self.spec_default_index(),
                        self.spec_order(),
                        g.blob.ranges@,
                    )
                })
            }),
    {
        let order = &self.analyzed.order;
        match packed_len(&self.bundles, order) {
            Some(_) => {},
            None => {
                return Err(BuildError::Generation(String::from_str("the packed texts are too large")));
            },
        }
        let blob = pack_single_blob(&self.bundles, order);
        let messages = &self.bundles[self.analyzed.default_index].messages;
        let ind = self.options.indentation.as_str();
        let mut head = String::from_str("pub const DEFAULT_LANGUAGE: &str = \"");
        head.append(self.bundles[self.analyzed.default_index].language_id.as_str());
        head.append("\";\n");
        head.append("pub const LANGUAGES: &[(&str, &str, usize, usize)] = &[\n");
        let ghost h0 = head@;
        let mut i: usize = 0;
        while i < order.len()
            invariant
                i <= order.len(),
                order.len() == blob.ranges.len(),
                self.wf(),
                *order == self.analyzed.order,
                head@ == h0 + language_rows(ind@, self.bundles@, order@, blob.ranges@, i as nat),
            decreases order.len() - i,
        {
            let b = &self.bundles[order[i]];
            let name = match &b.language_name {
                Some(n) => n.as_str(),
                None => b.language_id.as_str(),
            };
            let row = table_row_text(ind, b.language_id.as_str(), name, blob.ranges[i].start, blob.ranges[i].end);
            head.append(row.as_str());
            i = i + 1;
        }
        head.append("];\n\n");
        let mut source = String::from_str("impl L10nLanguage {\n");
        match self.options.output_mode.string_prefix() {
            Some(p) => {
                let block = accessor_functions(ind, false, p, messages);
                source.append(block.as_str());
            },
            None => {},
        }
        match self.options.output_mode.pattern_prefix() {
            Some(p) => {
                let block = accessor_functions(ind, true, p, messages);
                source.append(block.as_str());
            },
            None => {},
        }
        source.append("}\n");
        let ghost body = source@;
        head.append(source.as_str());
        let source = head;
        proof {
            assert(body =~= generated_source(
                self.options.indentation@,
                self.options.output_mode,
                messages_view(self.bundles@[self.analyzed.default_index as int].messages@),
            ));
            assert(source@ =~= generated_file(
                self.options.indentation@,
                self.options.output_mode,
                self.bundles@,
                self.analyzed.default_index as int,
                order@,
                blob.ranges@,
            ));
        }
        Ok(Generated { blob, source })
    }
}

} // verus!
