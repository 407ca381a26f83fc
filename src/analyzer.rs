use crate::error::BuildError;
use crate::lang_bundle::LangBundle;
use vstd::prelude::*;

verus! {

/// `a` comes before `b` in lexicographic order of characters (which is the
/// order of their UTF-8 bytes).
pub open spec fn id_lt(a: Seq<char>, b: Seq<char>) -> bool
    decreases a.len(),
{
    if a.len() == 0 {
        b.len() > 0
    } else if b.len() == 0 {
        false
    } else if a[0] != b[0] {
        (a[0] as u32) < (b[0] as u32)
    } else {
        id_lt(a.drop_first(), b.drop_first())
    }
}

proof fn lemma_id_lt_asymmetric(a: Seq<char>, b: Seq<char>)
    requires
        id_lt(a, b),
    ensures
        !id_lt(b, a),
    decreases a.len(),
{
    if a.len() > 0 && b.len() > 0 && a[0] == b[0] {
        lemma_id_lt_asymmetric(a.drop_first(), b.drop_first());
    }
}

proof fn lemma_id_lt_skip(a: Seq<char>, b: Seq<char>, i: int)
    requires
        0 <= i <= a.len(),
        i <= b.len(),
        a.take(i) == b.take(i),
    ensures
        id_lt(a, b) == id_lt(a.skip(i), b.skip(i)),
    decreases i,
{
    if i > 0 {
        assert(a[0] == a.take(i)[0]);
        assert(b[0] == b.take(i)[0]);
        assert(a.drop_first().take(i - 1) =~= a.take(i).drop_first());
        assert(b.drop_first().take(i - 1) =~= b.take(i).drop_first());
        lemma_id_lt_skip(a.drop_first(), b.drop_first(), i - 1);
        assert(a.drop_first().skip(i - 1) =~= a.skip(i));
        assert(b.drop_first().skip(i - 1) =~= b.skip(i));
    } else {
        assert(a.skip(0) =~= a);
        assert(b.skip(0) =~= b);
    }
}

/// Whether `a` comes before `b`.
pub fn id_less(a: &str, b: &str) -> (r: bool)
    ensures
        r == id_lt(a@, b@),
{
    let na = a.unicode_len();
    let nb = b.unicode_len();
    let mut i: usize = 0;
    while i < na && i < nb
        invariant
            na == a@.len(),
            nb == b@.len(),
            i <= na,
            i <= nb,
            a@.take(i as int) == b@.take(i as int),
        decreases na - i,
    {
        let ca = a.get_char(i);
        let cb = b.get_char(i);
        if ca != cb {
            proof {
                lemma_id_lt_skip(a@, b@, i as int);
                assert(a@.skip(i as int)[0] == ca);
                assert(b@.skip(i as int)[0] == cb);
            }
            return (ca as u32) < (cb as u32);
        }
        proof {
            assert(a@.take(i + 1) =~= a@.take(i as int).push(ca));
            assert(b@.take(i + 1) =~= b@.take(i as int).push(cb));
        }
        i = i + 1;
    }
    proof {
        lemma_id_lt_skip(a@, b@, i as int);
    }
    i < nb
}

/// `order` holds each index below `n` exactly once.
pub open spec fn is_permutation(order: Seq<usize>, n: nat) -> bool {
    &&& order.len() == n
    &&& forall|k: int| 0 <= k < n ==> #[trigger] order[k] < n
    &&& forall|a: int, b: int| 0 <= a < b < n ==> #[trigger] order[a] != #[trigger] order[b]
}

/// Following `order`, no bundle's language id comes before the previous one's.
pub open spec fn sorted_by_id(bundles: Seq<LangBundle>, order: Seq<usize>) -> bool {
    forall|k: int|
        0 <= k < order.len() - 1 ==> !id_lt(
            bundles[order[k + 1] as int].language_id@,
            #[trigger] bundles[order[k] as int].language_id@,
        )
}

/// The bundles' indices in order of language id; bundles with equal ids keep
/// their order.
pub fn language_order(bundles: &Vec<LangBundle>) -> (r: Vec<usize>)
    ensures
        is_permutation(r@, bundles.len() as nat),
        sorted_by_id(bundles@, r@),
{
    let mut r: Vec<usize> = Vec::new();
    let mut i: usize = 0;
    while i < bundles.len()
        invariant
            i <= bundles.len(),
            is_permutation(r@, i as nat),
            sorted_by_id(bundles@, r@),
        decreases bundles.len() - i,
    {
        let id = bundles[i].language_id.as_str();
        let mut p: usize = 0;
        while p < r.len() && !id_less(id, bundles[r[p]].language_id.as_str())
            invariant
                p <= r.len() == i,
                i < bundles.len(),
                id@ == bundles[i as int].language_id@,
                is_permutation(r@, i as nat),
                forall|q: int| 0 <= q < p ==> !id_lt(id@, #[trigger] bundles[r[q] as int].language_id@),
            decreases r.len() - p,
        {
            p = p + 1;
        }
        let ghost r0 = r@;
        proof {
            if p < r.len() {
                assert(id_lt(id@, bundles[r[p as int] as int].language_id@));
                lemma_id_lt_asymmetric(id@, bundles[r[p as int] as int].language_id@);
            }
        }
        r.insert(p, i);
        proof {
            assert(r@ == r0.insert(p as int, i));
            assert forall|k: int| 0 <= k < i + 1 implies #[trigger] r@[k] < i + 1 by {
                if k < p {
                    assert(r@[k] == r0[k]);
                } else if k > p {
                    assert(r@[k] == r0[k - 1]);
                }
            }
            assert forall|a: int, b: int| 0 <= a < b < i + 1 implies #[trigger] r@[a] != #[trigger] r@[b] by {
                let ia = if a < p { a } else { a - 1 };
                let ib = if b < p { b } else { b - 1 };
                if a != p && b != p {
                    assert(r@[a] == r0[ia]);
                    assert(r@[b] == r0[ib]);
                } else if a == p {
                    assert(r@[b] == r0[ib]);
                } else {
                    assert(r@[a] == r0[ia]);
                }
            }
            assert forall|k: int| 0 <= k < r@.len() - 1 implies !id_lt(
                bundles@[r@[k + 1] as int].language_id@,
                #[trigger] bundles@[r@[k] as int].language_id@,
            ) by {
                if k + 1 < p {
                    assert(r@[k] == r0[k]);
                    assert(r@[k + 1] == r0[k + 1]);
                } else if k + 1 == p {
                    assert(r@[k] == r0[k]);
                } else if k == p {
                    assert(r@[k + 1] == r0[k]);
                } else {
                    assert(r@[k] == r0[k - 1]);
                    assert(r@[k + 1] == r0[k]);
                }
            }
        }
        i = i + 1;
    }
    r
}

/// What the generated code is made from: the default language, whose messages
/// get accessors, and the order of the languages.
#[derive(Debug)]
pub struct Analyzed {
    pub default_index: usize,
    pub order: Vec<usize>,
}

/// Finds the default language among the bundles; its messages define the
/// accessors. Other languages may lack messages or have more.
pub fn analyze(bundles: &Vec<LangBundle>, default_language: &str) -> (r: Result<Analyzed, BuildError>)
    ensures
        (r matches Err(BuildError::Generation(_))) <==> forall|k: int|
            0 <= k < bundles.len() ==> #[trigger] bundles[k].language_id@ != default_language@,
        r is Ok || (r matches Err(BuildError::Generation(_))),
        r matches Ok(a) ==> {
            &&& a.default_index < bundles.len()
            &&& bundles[a.default_index as int].language_id@ == default_language@
            &&& forall|k: int|
                0 <= k < a.default_index ==> #[trigger] bundles[k].language_id@ != default_language@
            &&& is_permutation(a.order@, bundles.len() as nat)
            &&& sorted_by_id(bundles@, a.order@)
        },
{
    let wanted = default_language.to_string();
    let mut d: usize = 0;
    while d < bundles.len() && bundles[d].language_id != wanted
        invariant
            d <= bundles.len(),
            wanted@ == default_language@,
            forall|k: int| 0 <= k < d ==> #[trigger] bundles[k].language_id@ != default_language@,
        decreases bundles.len() - d,
    {
        d = d + 1;
    }
    if d == bundles.len() {
        let mut msg = String::from_str("default language not found: ");
        msg.append(default_language);
        return Err(BuildError::Generation(msg));
    }
    Ok(Analyzed { default_index: d, order: language_order(bundles) })
}

/// `a` comes before `b` when each is compared part by part.
pub open spec fn parts_lt(a: Seq<Seq<char>>, b: Seq<Seq<char>>) -> bool
    decreases a.len(),
{
    if a.len() == 0 {
        b.len() > 0
    } else if b.len() == 0 {
        false
    } else if a[0] != b[0] {
        id_lt(a[0], b[0])
    } else {
        parts_lt(a.drop_first(), b.drop_first())
    }
}

/// Path `a` comes before path `b`: their `/`-separated components compared
/// in order, as paths are ordered by their components.
pub open spec fn path_lt(a: Seq<char>, b: Seq<char>) -> bool {
    parts_lt(crate::text::split_on(a, '/'), crate::text::split_on(b, '/'))
}

proof fn lemma_parts_lt_skip(a: Seq<Seq<char>>, b: Seq<Seq<char>>, i: int)
    requires
        0 <= i <= a.len(),
        i <= b.len(),
        a.take(i) == b.take(i),
    ensures
        parts_lt(a, b) == parts_lt(a.skip(i), b.skip(i)),
    decreases i,
{
    if i > 0 {
        assert(a[0] == a.take(i)[0]);
        assert(b[0] == b.take(i)[0]);
        assert(a.drop_first().take(i - 1) =~= a.take(i).drop_first());
        assert(b.drop_first().take(i - 1) =~= b.take(i).drop_first());
        lemma_parts_lt_skip(a.drop_first(), b.drop_first(), i - 1);
        assert(a.drop_first().skip(i - 1) =~= a.skip(i));
        assert(b.drop_first().skip(i - 1) =~= b.skip(i));
    } else {
        assert(a.skip(0) =~= a);
        assert(b.skip(0) =~= b);
    }
}

/// Whether path `a` comes before path `b`.
pub fn path_less(a: &str, b: &str) -> (r: bool)
    ensures
        r == path_lt(a@, b@),
{
    let ca = crate::text::split_char(a, '/');
    let cb = crate::text::split_char(b, '/');
    let ghost va = ca.deep_view();
    let ghost vb = cb.deep_view();
    assert(path_lt(a@, b@) == parts_lt(va, vb));
    let mut i: usize = 0;
    while i < ca.len() && i < cb.len()
        invariant
            va == ca.deep_view(),
            vb == cb.deep_view(),
            path_lt(a@, b@) == parts_lt(va, vb),
            i <= ca.len(),
            i <= cb.len(),
            va.take(i as int) == vb.take(i as int),
        decreases ca.len() - i,
    {
        if ca[i] != cb[i] {
            proof {
                lemma_parts_lt_skip(va, vb, i as int);
                assert(va[i as int] == ca[i as int]@);
                assert(vb[i as int] == cb[i as int]@);
                assert(va.skip(i as int)[0] == ca[i as int]@);
                assert(vb.skip(i as int)[0] == cb[i as int]@);
                assert(va.skip(i as int)[0] != vb.skip(i as int)[0]);
                assert(parts_lt(va.skip(i as int), vb.skip(i as int)) == id_lt(ca[i as int]@, cb[i as int]@));
            }
            let r = id_less(ca[i].as_str(), cb[i].as_str());
            assert(r == parts_lt(va, vb));
            return r;
        }
        proof {
            assert(va.take(i + 1) =~= va.take(i as int).push(va[i as int]));
            assert(vb.take(i + 1) =~= vb.take(i as int).push(vb[i as int]));
        }
        i = i + 1;
    }
    proof {
        lemma_parts_lt_skip(va, vb, i as int);
    }
    i < cb.len()
}

} // verus!
