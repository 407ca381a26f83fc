use crate::l10n_bundle::{bundle_builds, L10nBundle};
use vstd::utf8::decode_utf8;
use crate::packer::{LangRange, PackedBlob};
use vstd::prelude::*;

verus! {

/// The position of the first range of language `lang`, if any.
pub fn find_range(ranges: &Vec<LangRange>, lang: &str) -> (r: Option<usize>)
    ensures
        match r {
            Some(i) => i < ranges.len() && ranges[i as int].language_id@ == lang@ && forall|j: int|
                0 <= j < i ==> #[trigger] ranges[j].language_id@ != lang@,
            None => forall|j: int| 0 <= j < ranges.len() ==> #[trigger] ranges[j].language_id@ != lang@,
        },
{
    let wanted = lang.to_string();
    let mut i: usize = 0;
    while i < ranges.len()
        invariant
            i <= ranges.len(),
            wanted@ == lang@,
            forall|j: int| 0 <= j < i ==> #[trigger] ranges[j].language_id@ != lang@,
        decreases ranges.len() - i,
    {
        if ranges[i].language_id == wanted {
            return Some(i);
        }
        i = i + 1;
    }
    None
}

/// The error of a load of a language that the blob does not hold.
pub open spec fn unknown_language(lang: Seq<char>) -> Seq<char> {
    "Unknown language: "@ + lang
}

/// Builds the runtime bundle of language `lang` from its range of a packed blob.
pub fn load_language(blob: &PackedBlob, lang: &str) -> (r: Result<L10nBundle, String>)
    ensures
        (forall|j: int|
            0 <= j < blob.ranges.len() ==> #[trigger] blob.ranges[j].language_id@ != lang@) ==> (r
            matches Err(e) && e@ == unknown_language(lang@)),
        r matches Ok(b) ==> b.language() == lang@,
        forall|i: int|
            0 <= i < blob.ranges.len() && (#[trigger] blob.ranges[i]).language_id@ == lang@ && (
            forall|j: int| 0 <= j < i ==> blob.ranges[j].language_id@ != lang@) && blob.ranges[i].start
                <= blob.ranges[i].end <= blob.bytes.len() ==> {
                let text = blob.bytes@.subrange(blob.ranges[i].start as int, blob.ranges[i].end as int);
                &&& (r is Ok <==> bundle_builds(lang@, text))
                &&& (r matches Ok(b) ==> b.source() == decode_utf8(text))
            },
{
    let i = match find_range(&blob.ranges, lang) {
        Some(i) => i,
        None => {
            let mut e = String::from_str("Unknown language: ");
            e.append(lang);
            return Err(e);
        },
    };
    let range = &blob.ranges[i];
    if range.start > range.end || range.end > blob.bytes.len() {
        return Err(String::from_str("The language's range lies outside the blob"));
    }
    let bytes = crate::packer::slice_range(&blob.bytes, range.start, range.end);
    proof {
        assert forall|k: int|
            0 <= k < blob.ranges.len() && (#[trigger] blob.ranges[k]).language_id@ == lang@ && (
            forall|j: int| 0 <= j < k ==> blob.ranges[j].language_id@ != lang@) implies k == i by {
            if k < i {
            } else if k > i {
                assert(blob.ranges[i as int].language_id@ == lang@);
            }
        }
    }
    L10nBundle::new(lang, bytes.as_slice())
}

} // verus!
