use crate::lang_bundle::LangBundle;
use vstd::prelude::*;
use vstd::utf8::encode_utf8;

verus! {

/// Where one language's text lies in a packed blob: bytes `start..end`.
#[derive(Debug, Clone)]
pub struct LangRange {
    pub language_id: String,
    pub start: usize,
    pub end: usize,
}

/// Every language's text in one blob, with the range of each.
#[derive(Debug, Clone)]
pub struct PackedBlob {
    pub bytes: Vec<u8>,
    pub ranges: Vec<LangRange>,
}

/// The texts one after the other.
pub open spec fn joined(texts: Seq<Seq<u8>>) -> Seq<u8>
    decreases texts.len(),
{
    if texts.len() == 0 {
        Seq::empty()
    } else {
        joined(texts.drop_last()) + texts.last()
    }
}

/// The UTF-8 bytes of the bundles' texts, taken in `order`.
pub open spec fn bundle_bytes(bundles: Seq<LangBundle>, order: Seq<usize>) -> Seq<Seq<u8>> {
    order.map_values(|k: usize| encode_utf8(bundles[k as int].ftl@))
}

/// `bytes` is the texts joined in order, and range `i` covers text `i`'s place.
pub open spec fn packs(texts: Seq<Seq<u8>>, bytes: Seq<u8>, ranges: Seq<(int, int)>) -> bool {
    &&& bytes == joined(texts)
    &&& ranges.len() == texts.len()
    &&& forall|i: int|
        0 <= i < texts.len() ==> #[trigger] ranges[i] == (
            joined(texts.take(i)).len() as int,
            joined(texts.take(i + 1)).len() as int,
        )
}

pub open spec fn ranges_view(r: Seq<LangRange>) -> Seq<(int, int)> {
    r.map_values(|x: LangRange| (x.start as int, x.end as int))
}

proof fn lemma_joined_prefix(texts: Seq<Seq<u8>>, i: int, j: int)
    requires
        0 <= i <= j <= texts.len(),
    ensures
        joined(texts.take(j)).subrange(0, joined(texts.take(i)).len() as int) == joined(
            texts.take(i),
        ),
        joined(texts.take(i)).len() <= joined(texts.take(j)).len(),
    decreases j - i,
{
    if i < j {
        lemma_joined_prefix(texts, i, j - 1);
        assert(texts.take(j).drop_last() =~= texts.take(j - 1));
        assert(joined(texts.take(j)) == joined(texts.take(j - 1)) + texts[j - 1]);
        assert(joined(texts.take(j)).subrange(0, joined(texts.take(i)).len() as int)
            =~= joined(texts.take(j - 1)).subrange(0, joined(texts.take(i)).len() as int));
    } else {
        assert(joined(texts.take(j)).subrange(0, joined(texts.take(i)).len() as int)
            =~= joined(texts.take(i)));
    }
}

/// Slicing a packed blob by a language's range gives back that language's text
/// exactly, and the ranges cover the blob in order, with no gap or overlap.
pub proof fn lemma_packed_round_trip(texts: Seq<Seq<u8>>, bytes: Seq<u8>, ranges: Seq<(int, int)>)
    requires
        packs(texts, bytes, ranges),
    ensures
        forall|i: int|
            0 <= i < texts.len() ==> 0 <= (#[trigger] ranges[i]).0 <= ranges[i].1 <= bytes.len()
                && bytes.subrange(ranges[i].0, ranges[i].1) == texts[i],
        texts.len() > 0 ==> ranges[0].0 == 0 && ranges[texts.len() - 1].1 == bytes.len(),
        forall|i: int| 0 < i < texts.len() ==> (#[trigger] ranges[i]).0 == ranges[i - 1].1,
{
    assert(texts.take(texts.len() as int) =~= texts);
    assert forall|i: int| 0 <= i < texts.len() implies 0 <= (#[trigger] ranges[i]).0 <= ranges[i].1
        <= bytes.len() && bytes.subrange(ranges[i].0, ranges[i].1) == texts[i] by {
        lemma_joined_prefix(texts, i + 1, texts.len() as int);
        assert(texts.take(i + 1).drop_last() =~= texts.take(i));
        let a = joined(texts.take(i));
        let b = joined(texts.take(i + 1));
        assert(b == a + texts[i]);
        assert(bytes.subrange(ranges[i].0, ranges[i].1) =~= b.subrange(a.len() as int, b.len() as int));
        assert(b.subrange(a.len() as int, b.len() as int) =~= texts[i]);
    }
    if texts.len() > 0 {
        assert(texts.take(0) =~= Seq::<Seq<u8>>::empty());
    }
}

/// Joins the bundles' texts in `order` and records each one's range.
pub fn pack_single_blob(bundles: &Vec<LangBundle>, order: &Vec<usize>) -> (r: PackedBlob)
    requires
        forall|k: int| 0 <= k < order.len() ==> #[trigger] order[k] < bundles.len(),
        joined(bundle_bytes(bundles@, order@)).len() <= usize::MAX,
    ensures
        packs(bundle_bytes(bundles@, order@), r.bytes@, ranges_view(r.ranges@)),
        r.ranges.len() == order.len(),
        forall|i: int|
            0 <= i < order.len() ==> (#[trigger] r.ranges[i]).language_id@ == bundles[order[i] as int].language_id@,
{
    let ghost texts = bundle_bytes(bundles@, order@);
    let mut bytes: Vec<u8> = Vec::new();
    let mut ranges: Vec<LangRange> = Vec::new();
    let mut i: usize = 0;
    while i < order.len()
        invariant
            i <= order.len(),
            forall|k: int| 0 <= k < order.len() ==> #[trigger] order[k] < bundles.len(),
            texts == bundle_bytes(bundles@, order@),
            joined(texts).len() <= usize::MAX,
            bytes@ == joined(texts.take(i as int)),
            ranges.len() == i,
            forall|k: int|
                0 <= k < i ==> (#[trigger] ranges[k]).language_id@ == bundles[order[k] as int].language_id@
                    && ranges[k].start == joined(texts.take(k)).len() && ranges[k].end == joined(
                    texts.take(k + 1),
                ).len(),
        decreases order.len() - i,
    {
        let b = order[i];
        let text = bundles[b].ftl.as_str().as_bytes();
        proof {
            lemma_joined_prefix(texts, i + 1, texts.len() as int);
            assert(texts.take(texts.len() as int) =~= texts);
            assert(texts.take(i + 1).drop_last() =~= texts.take(i as int));
            assert(text@ == texts[i as int]);
        }
        let start = bytes.len();
        let mut j: usize = 0;
        while j < text.len()
            invariant
                j <= text@.len(),
                start == joined(texts.take(i as int)).len(),
                bytes@ == joined(texts.take(i as int)) + text@.take(j as int),
                joined(texts.take(i as int)).len() + text@.len() <= usize::MAX,
            decreases text.len() - j,
        {
            bytes.push(text[j]);
            proof {
                assert(text@.take(j + 1) =~= text@.take(j as int).push(text@[j as int]));
            }
            j = j + 1;
        }
        proof {
            assert(text@.take(j as int) =~= text@);
        }
        ranges.push(LangRange { language_id: bundles[b].language_id.clone(), start, end: bytes.len() });
        i = i + 1;
    }
    proof {
        assert(texts.take(i as int) =~= texts);
        let rv = ranges_view(ranges@);
        assert forall|k: int| 0 <= k < texts.len() implies #[trigger] rv[k] == (
            joined(texts.take(k)).len() as int,
            joined(texts.take(k + 1)).len() as int,
        ) by {
            assert(ranges[k].start == joined(texts.take(k)).len());
            assert(rv[k] == (ranges[k].start as int, ranges[k].end as int));
        }
        assert forall|k: int| 0 <= k < order.len() implies (#[trigger] ranges[k]).language_id@
            == bundles[order[k] as int].language_id@ by {}
    }
    PackedBlob { bytes, ranges }
}

/// The bytes `start..end` of a blob.
pub fn slice_range(bytes: &Vec<u8>, start: usize, end: usize) -> (r: Vec<u8>)
    requires
        start <= end <= bytes.len(),
    ensures
        r@ == bytes@.subrange(start as int, end as int),
{
    let mut r: Vec<u8> = Vec::new();
    let mut k: usize = start;
    while k < end
        invariant
            start <= k <= end <= bytes.len(),
            r@ == bytes@.subrange(start as int, k as int),
        decreases end - k,
    {
        r.push(bytes[k]);
        proof {
            assert(bytes@.subrange(start as int, k + 1) =~= bytes@.subrange(start as int, k as int).push(bytes@[k as int]));
        }
        k = k + 1;
    }
    r
}

/// The length of the bundles' texts joined in `order`, or `None` where it
/// exceeds the largest `usize`.
pub fn packed_len(bundles: &Vec<LangBundle>, order: &Vec<usize>) -> (r: Option<usize>)
    requires
        forall|k: int| 0 <= k < order.len() ==> #[trigger] order[k] < bundles.len(),
    ensures
        match r {
            Some(n) => n == joined(bundle_bytes(bundles@, order@)).len(),
            None => joined(bundle_bytes(bundles@, order@)).len() > usize::MAX,
        },
{
    let ghost texts = bundle_bytes(bundles@, order@);
    let mut total: usize = 0;
    let mut i: usize = 0;
    while i < order.len()
        invariant
            i <= order.len(),
            forall|k: int| 0 <= k < order.len() ==> #[trigger] order[k] < bundles.len(),
            texts == bundle_bytes(bundles@, order@),
            total == joined(texts.take(i as int)).len(),
        decreases order.len() - i,
    {
        let n = bundles[order[i]].ftl.as_str().as_bytes().len();
        proof {
            assert(texts.take(i + 1).drop_last() =~= texts.take(i as int));
            lemma_joined_prefix(texts, i + 1, texts.len() as int);
            assert(texts.take(texts.len() as int) =~= texts);
        }
        if n > usize::MAX - total {
            return None;
        }
        total = total + n;
        i = i + 1;
    }
    assert(texts.take(i as int) =~= texts);
    Some(total)
}

} // verus!
