use crate::text::{find_char, first_index, split_char, split_on, trim, trimmed};
use vstd::prelude::*;

verus! {

/// The primary language subtag of a language tag, or `None` where the tag
/// is not a well-formed language identifier.
pub uninterp spec fn tag_language(tag: Seq<char>) -> Option<Seq<char>>;

/// Relies on icu_locale_core's `LanguageIdentifier` parser: whether a tag
/// parses, and its language subtag, depend on the tag alone.
#[verifier::external_body]
fn primary_language(tag: &str) -> (r: Option<String>)
    ensures
        crate::ftl::opt_view(r) == tag_language(tag@),
{
    icu_locale_core::LanguageIdentifier::try_from_str(tag).ok().map(|l| l.language.as_str().to_string())
}

pub open spec fn is_digit(c: char) -> bool {
    '0' <= c && c <= '9'
}

pub open spec fn digit_val(c: char) -> int {
    c as int - '0' as int
}

pub open spec fn all_digits(s: Seq<char>) -> bool {
    forall|i: int| 0 <= i < s.len() ==> is_digit(#[trigger] s[i])
}

/// The number that a string of decimal digits writes.
pub open spec fn digits_value(s: Seq<char>) -> int
    decreases s.len(),
{
    if s.len() == 0 {
        0
    } else {
        digits_value(s.drop_last()) * 10 + digit_val(s.last())
    }
}

pub open spec fn min_int(a: int, b: int) -> int {
    if a < b { a } else { b }
}

/// `v` spells the word whose letters are `lower`, in either case.
pub open spec fn spells(v: Seq<char>, lower: Seq<char>, upper: Seq<char>) -> bool {
    &&& v.len() == lower.len()
    &&& upper.len() == lower.len()
    &&& forall|i: int| 0 <= i < v.len() ==> #[trigger] v[i] == lower[i] || v[i] == upper[i]
}

/// An unsigned quality value in thousandths: infinity counts as the largest
/// `u16` and not-a-number as zero, as a float's conversion to `u16` gives.
pub open spec fn unsigned_permille(v: Seq<char>) -> Option<int> {
    if spells(v, "inf"@, "INF"@) || spells(v, "infinity"@, "INFINITY"@) {
        Some(65535)
    } else if spells(v, "nan"@, "NAN"@) {
        Some(0)
    } else {
        decimal_permille(v)
    }
}

/// The position of the first exponent mark `e` or `E` in `s`, or its length.
pub open spec fn first_exp(s: Seq<char>) -> int
    decreases s.len(),
{
    if s.len() == 0 {
        0
    } else if s[0] == 'e' || s[0] == 'E' {
        0
    } else {
        1 + first_exp(s.drop_first())
    }
}

pub open spec fn pow10(k: nat) -> nat
    decreases k,
{
    if k == 0 {
        1
    } else {
        10 * pow10((k - 1) as nat)
    }
}

/// An exponent: an optional sign, then at least one digit.
pub open spec fn exponent_value(x: Seq<char>) -> Option<int> {
    if x.len() > 0 && (x[0] == '-' || x[0] == '+') {
        let d = x.drop_first();
        if d.len() > 0 && all_digits(d) {
            Some(if x[0] == '-' { -digits_value(d) } else { digits_value(d) })
        } else {
            None
        }
    } else if x.len() > 0 && all_digits(x) {
        Some(digits_value(x))
    } else {
        None
    }
}

/// The integer part of the number whose digits are `d` and whose point
/// stands after the first `p` of them.
pub open spec fn int_part(d: Seq<char>, p: int) -> int {
    if p <= 0 {
        0
    } else if p <= d.len() {
        digits_value(d.take(p))
    } else {
        digits_value(d) * pow10((p - d.len()) as nat)
    }
}

/// A number `digits[.digits][(e|E)[+|-]digits]`, at least one digit before
/// the exponent, scaled by 1000, truncated, and capped at the largest `u16`.
pub open spec fn decimal_permille(v: Seq<char>) -> Option<int> {
    let e = first_exp(v);
    let m = v.take(e);
    let ex = if e < v.len() { exponent_value(v.skip(e + 1)) } else { Some(0) };
    let k = first_index(m, '.');
    let ip = m.take(k);
    let fp = if k < m.len() { m.skip(k + 1) } else { Seq::empty() };
    if all_digits(ip) && all_digits(fp) && ip.len() + fp.len() > 0 && ex is Some {
        Some(min_int(int_part(ip + fp, ip.len() + 3 + ex->Some_0), 65535))
    } else {
        None
    }
}

/// A quality value in thousandths; a negative one counts as zero.
pub open spec fn permille(v: Seq<char>) -> Option<int> {
    if v.len() > 0 && v[0] == '-' {
        match unsigned_permille(v.drop_first()) {
            Some(_) => Some(0),
            None => None,
        }
    } else if v.len() > 0 && v[0] == '+' {
        unsigned_permille(v.drop_first())
    } else {
        unsigned_permille(v)
    }
}

/// The quality that the parameters of an entry give, in thousandths: that of
/// `q=<value>`, and 1000 where there is none or it is malformed.
pub open spec fn quality_of(params: Seq<char>) -> int {
    if params.len() >= 2 && params[0] == 'q' && params[1] == '=' {
        match permille(params.skip(2)) {
            Some(q) => q,
            None => 1000,
        }
    } else {
        1000
    }
}

/// One entry of a preference list: the primary language it asks for and its
/// quality, or `None` where it is empty or its tag does not parse.
pub open spec fn parse_entry(e: Seq<char>) -> Option<(Seq<char>, int)> {
    let t = trimmed(e);
    let k = first_index(t, ';');
    let tag = if k < t.len() { trimmed(t.take(k)) } else { t };
    let q = if k < t.len() { quality_of(trimmed(t.skip(k + 1))) } else { 1000 };
    if t.len() == 0 {
        None
    } else {
        match tag_language(tag) {
            Some(l) => Some((l, q)),
            None => None,
        }
    }
}

/// The requests of a preference list, in the order written.
pub open spec fn requests_of(entries: Seq<Seq<char>>) -> Seq<(Seq<char>, int)>
    decreases entries.len(),
{
    if entries.len() == 0 {
        Seq::empty()
    } else {
        match parse_entry(entries.last()) {
            Some(r) => requests_of(entries.drop_last()).push(r),
            None => requests_of(entries.drop_last()),
        }
    }
}

/// The requests of an `Accept-Language`-style header.
pub open spec fn requests(header: Seq<char>) -> Seq<(Seq<char>, int)> {
    requests_of(split_on(header, ','))
}

/// Request `i` asks for a language that some available entry has.
pub open spec fn request_matches(
    reqs: Seq<(Seq<char>, int)>,
    avail: Seq<Option<Seq<char>>>,
    i: int,
) -> bool {
    exists|a: int| 0 <= a < avail.len() && avail[a] == Some(reqs[i].0)
}

/// Request `i` is the one served: it matches, no matching request has a
/// higher quality, and none before it has the same.
pub open spec fn best_request(
    reqs: Seq<(Seq<char>, int)>,
    avail: Seq<Option<Seq<char>>>,
    i: int,
) -> bool {
    &&& 0 <= i < reqs.len()
    &&& request_matches(reqs, avail, i)
    &&& forall|j: int|
        0 <= j < reqs.len() && #[trigger] request_matches(reqs, avail, j) ==> reqs[j].1 < reqs[i].1
            || (reqs[j].1 == reqs[i].1 && i <= j)
}

/// `a` is the first available entry with language `l`.
pub open spec fn first_available(avail: Seq<Option<Seq<char>>>, l: Seq<char>, a: int) -> bool {
    &&& 0 <= a < avail.len()
    &&& avail[a] == Some(l)
    &&& forall|b: int| 0 <= b < a ==> avail[b] != Some(l)
}

proof fn lemma_cap_step(v: int, d: int, c: int)
    requires
        v >= 0,
        0 <= d <= 9,
        c >= 0,
    ensures
        min_int(min_int(v, c) * 10 + d, c) == min_int(v * 10 + d, c),
{
}

/// Whether `s[from..to]` is all digits, and then the value of `prefix`
/// followed by them, capped at `cap`, where `acc` is that of `prefix`.
fn digits_capped(s: &str, from: usize, to: usize, acc: u128, cap: u128, Ghost(prefix): Ghost<Seq<char>>) -> (r: Option<u128>)
    requires
        from <= to <= s@.len(),
        cap <= 0x1_0000_0000_0000_0000_0000_0000,
        all_digits(prefix),
        acc == min_int(digits_value(prefix), cap as int),
    ensures
        r is Some <==> all_digits(s@.subrange(from as int, to as int)),
        r matches Some(v) ==> v == min_int(digits_value(prefix + s@.subrange(from as int, to as int)), cap as int),
{
    let mut acc = acc;
    let mut i: usize = from;
    proof {
        assert(prefix + s@.subrange(from as int, from as int) =~= prefix);
    }
    while i < to
        invariant
            from <= i <= to <= s@.len(),
            cap <= 0x1_0000_0000_0000_0000_0000_0000,
            all_digits(prefix),
            all_digits(s@.subrange(from as int, i as int)),
            acc <= cap,
            acc == min_int(digits_value(prefix + s@.subrange(from as int, i as int)), cap as int),
        decreases to - i,
    {
        let c = s.get_char(i);
        if !('0' <= c && c <= '9') {
            proof {
                assert(s@.subrange(from as int, to as int)[i - from] == c);
            }
            return None;
        }
        let ghost prev = prefix + s@.subrange(from as int, i as int);
        let ghost next = prefix + s@.subrange(from as int, i + 1);
        proof {
            assert(next.drop_last() =~= prev);
            assert(next.last() == c);
            assert(all_digits(prev)) by {
                assert forall|k: int| 0 <= k < prev.len() implies is_digit(#[trigger] prev[k]) by {
                    if k >= prefix.len() {
                        assert(prev[k] == s@.subrange(from as int, i as int)[k - prefix.len()]);
                    }
                }
            }
            lemma_digits_nonneg(prev);
            lemma_cap_step(digits_value(prev), digit_val(c), cap as int);
            assert forall|k: int| 0 <= k < i + 1 - from implies is_digit(#[trigger] s@.subrange(from as int, i + 1)[k]) by {
                if k < i - from {
                    assert(s@.subrange(from as int, i + 1)[k] == s@.subrange(from as int, i as int)[k]);
                }
            }
        }
        let d = (c as u32 - '0' as u32) as u128;
        let v = acc * 10 + d;
        acc = if v < cap { v } else { cap };
        i = i + 1;
    }
    Some(acc)
}

proof fn lemma_digits_nonneg(s: Seq<char>)
    requires
        all_digits(s),
    ensures
        digits_value(s) >= 0,
    decreases s.len(),
{
    if s.len() > 0 {
        assert(is_digit(s[s.len() - 1]));
        assert(all_digits(s.drop_last())) by {
            assert forall|i: int| 0 <= i < s.drop_last().len() implies is_digit(
                #[trigger] s.drop_last()[i],
            ) by {
                assert(s.drop_last()[i] == s[i]);
            }
        }
        lemma_digits_nonneg(s.drop_last());
    }
}

fn spells_word(v: &str, lower: &str, upper: &str) -> (r: bool)
    requires
        lower@.len() == upper@.len(),
    ensures
        r == spells(v@, lower@, upper@),
{
    let n = v.unicode_len();
    if n != lower.unicode_len() {
        return false;
    }
    let mut i: usize = 0;
    while i < n
        invariant
            n == v@.len() == lower@.len() == upper@.len(),
            i <= n,
            forall|k: int| 0 <= k < i ==> #[trigger] v@[k] == lower@[k] || v@[k] == upper@[k],
        decreases n - i,
    {
        let c = v.get_char(i);
        if c != lower.get_char(i) && c != upper.get_char(i) {
            return false;
        }
        i = i + 1;
    }
    true
}

fn parse_unsigned_permille(v: &str) -> (r: Option<u32>)
    ensures
        match r {
            Some(q) => unsigned_permille(v@) == Some(q as int),
            None => unsigned_permille(v@) is None,
        },
{
    proof {
        reveal_strlit("inf");
        reveal_strlit("INF");
        reveal_strlit("infinity");
        reveal_strlit("INFINITY");
        reveal_strlit("nan");
        reveal_strlit("NAN");
    }
    if spells_word(v, "inf", "INF") || spells_word(v, "infinity", "INFINITY") {
        return Some(65535);
    }
    if spells_word(v, "nan", "NAN") {
        return Some(0);
    }
    parse_decimal_permille(v)
}

fn find_exp(s: &str) -> (r: usize)
    ensures
        r == first_exp(s@),
        r <= s@.len(),
{
    let n = s.unicode_len();
    let mut i: usize = 0;
    assert(s@.skip(0) =~= s@);
    while i < n && s.get_char(i) != 'e' && s.get_char(i) != 'E'
        invariant
            n == s@.len(),
            i <= n,
            first_exp(s@) == i + first_exp(s@.skip(i as int)),
        decreases n - i,
    {
        proof {
            assert(s@.skip(i + 1) =~= s@.skip(i as int).drop_first());
        }
        i = i + 1;
    }
    i
}

proof fn lemma_pow10_big(k: nat)
    requires
        k >= 5,
    ensures
        pow10(k) >= 100000,
    decreases k,
{
    if k > 5 {
        lemma_pow10_big((k - 1) as nat);
    } else {
        assert(pow10(0) == 1);
        assert(pow10(1) == 10);
        assert(pow10(2) == 100);
        assert(pow10(3) == 1000);
        assert(pow10(4) == 10000);
        assert(pow10(5) == 100000);
    }
}

proof fn lemma_big_product(a: int, b: int)
    requires
        a >= 1,
        b >= 100000,
    ensures
        a * b >= 100000,
{
    assert(a * b >= b) by (nonlinear_arith)
        requires
            a >= 1,
            b >= 0,
    ;
}

pub open spec fn exponent_of(v: Seq<char>, e: int) -> Option<int> {
    if e < v.len() { exponent_value(v.skip(e + 1)) } else { Some(0) }
}

/// The exponent after the mark at `e`, as its sign and its magnitude capped at 2^70.
fn parse_exponent(v: &str, e: usize) -> (r: Option<(bool, u128)>)
    requires
        e <= v@.len(),
        e < v@.len() ==> v@[e as int] == 'e' || v@[e as int] == 'E',
    ensures
        r is None <==> exponent_of(v@, e as int) is None,
        r matches Some((neg, x)) ==> {
            let ex = exponent_of(v@, e as int)->Some_0;
            &&& (neg ==> ex <= 0 && x == min_int(-ex, 0x40_0000_0000_0000_0000))
            &&& (!neg ==> ex >= 0 && x == min_int(ex, 0x40_0000_0000_0000_0000))
        },
{
    let n = v.unicode_len();
    if e == n {
        return Some((false, 0));
    }
    let ghost empty = Seq::<char>::empty();
    let ghost x = v@.skip(e + 1);
    let mut neg = false;
    let mut ds = e + 1;
    if ds < n && (v.get_char(ds) == '-' || v.get_char(ds) == '+') {
        neg = v.get_char(ds) == '-';
        ds = ds + 1;
    }
    proof {
        assert(empty + v@.subrange(ds as int, n as int) =~= v@.subrange(ds as int, n as int));
        if ds == e + 2 {
            assert(x.drop_first() =~= v@.subrange(ds as int, n as int));
            assert(x[0] == v@[e + 1]);
        } else {
            assert(x =~= v@.subrange(ds as int, n as int));
            if x.len() > 0 {
                assert(x[0] == v@[e + 1]);
            }
        }
    }
    if ds == n {
        return None;
    }
    match digits_capped(v, ds, n, 0, 0x40_0000_0000_0000_0000, Ghost(empty)) {
        Some(m) => {
            proof {
                lemma_digits_nonneg(v@.subrange(ds as int, n as int));
            }
            Some((neg, m))
        },
        None => None,
    }
}

/// The capped, truncated value in thousandths of the number with digits
/// `ip + fp`, the point after `ip`, and exponent `ex`.
fn scaled_permille(
    v: &str,
    k: usize,
    fstart: usize,
    e: usize,
    acc_i: u128,
    acc_d: u128,
    neg: bool,
    exc: u128,
    Ghost(ex): Ghost<int>,
) -> (r: u32)
    requires
        k <= fstart <= e <= v@.len(),
        all_digits(v@.subrange(0, k as int)),
        all_digits(v@.subrange(fstart as int, e as int)),
        acc_i == min_int(digits_value(v@.subrange(0, k as int)), 65535),
        acc_d == min_int(digits_value(v@.subrange(0, k as int) + v@.subrange(fstart as int, e as int)), 65535),
        neg ==> ex <= 0 && exc == min_int(-ex, 0x40_0000_0000_0000_0000),
        !neg ==> ex >= 0 && exc == min_int(ex, 0x40_0000_0000_0000_0000),
    ensures
        r == min_int(
            int_part(v@.subrange(0, k as int) + v@.subrange(fstart as int, e as int), k + 3 + ex),
            65535,
        ),
{
    let ghost empty = Seq::<char>::empty();
    let ghost ip = v@.subrange(0, k as int);
    let ghost fp = v@.subrange(fstart as int, e as int);
    let ghost d = ip + fp;
    proof {
        assert forall|q: int| 0 <= q < d.len() implies is_digit(#[trigger] d[q]) by {
            if q < ip.len() {
                assert(d[q] == ip[q]);
            } else {
                assert(d[q] == fp[q - ip.len()]);
            }
        }
        lemma_digits_nonneg(d);
        assert(usize::MAX <= 0xffff_ffff_ffff_ffff);
    }
    let dlen: usize = k + (e - fstart);
    if exc == 0x40_0000_0000_0000_0000 {
        if neg {
            return 0;
        }
        if acc_d == 0 {
            return 0;
        }
        proof {
            let p = k + 3 + ex;
            lemma_pow10_big((p - d.len()) as nat);
            lemma_big_product(digits_value(d), pow10((p - d.len()) as nat) as int);
        }
        return 65535;
    }
    let p: i128 = if neg { k as i128 + 3 - exc as i128 } else { k as i128 + 3 + exc as i128 };
    if p <= 0 {
        return 0;
    }
    if p <= dlen as i128 {
        let pu = p as usize;
        if pu <= k {
            proof {
                assert(d.take(pu as int) =~= empty + v@.subrange(0, pu as int));
                assert forall|q: int| 0 <= q < pu implies is_digit(#[trigger] v@.subrange(0, pu as int)[q]) by {
                    assert(v@.subrange(0, pu as int)[q] == ip[q]);
                }
            }
            return match digits_capped(v, 0, pu, 0, 65535, Ghost(empty)) {
                Some(x) => x as u32,
                None => 0,
            };
        } else {
            let end = fstart + (pu - k);
            proof {
                assert(d.take(pu as int) =~= ip + v@.subrange(fstart as int, end as int));
                assert forall|q: int| 0 <= q < end - fstart implies is_digit(#[trigger] v@.subrange(fstart as int, end as int)[q]) by {
                    assert(v@.subrange(fstart as int, end as int)[q] == fp[q]);
                }
            }
            return match digits_capped(v, fstart, end, acc_i, 65535, Ghost(ip)) {
                Some(x) => x as u32,
                None => 0,
            };
        }
    }
    if acc_d == 0 {
        return 0;
    }
    let t = p - dlen as i128;
    if t >= 5 {
        proof {
            lemma_pow10_big(t as nat);
            lemma_big_product(digits_value(d), pow10(t as nat) as int);
        }
        return 65535;
    }
    let mut acc: u128 = acc_d;
    let mut j: i128 = 0;
    proof {
        assert(pow10(0) == 1);
        assert(digits_value(d) * pow10(0) == digits_value(d));
    }
    while j < t
        invariant
            0 <= j <= t < 5,
            digits_value(d) >= 0,
            acc <= 65535,
            acc == min_int(digits_value(d) * pow10(j as nat), 65535),
        decreases t - j,
    {
        proof {
            assert(digits_value(d) * pow10(j as nat) >= 0) by (nonlinear_arith)
                requires
                    digits_value(d) >= 0,
                    pow10(j as nat) >= 0,
            ;
            lemma_cap_step(digits_value(d) * pow10(j as nat), 0, 65535);
            assert(digits_value(d) * pow10((j + 1) as nat) == (digits_value(d) * pow10(j as nat)) * 10) by (nonlinear_arith)
                requires
                    pow10((j + 1) as nat) == 10 * pow10(j as nat),
            ;
        }
        let w = acc * 10;
        acc = if w < 65535 { w } else { 65535 };
        j = j + 1;
    }
    acc as u32
}

fn parse_decimal_permille(v: &str) -> (r: Option<u32>)
    ensures
        match r {
            Some(q) => decimal_permille(v@) == Some(q as int),
            None => decimal_permille(v@) is None,
        },
{
    let e = find_exp(v);
    let ghost m = v@.take(e as int);
    let ghost empty = Seq::<char>::empty();
    proof {
        if (e as int) < v@.len() {
            assert(v@[e as int] == 'e' || v@[e as int] == 'E') by {
                lemma_first_exp(v@);
            }
        }
    }
    let (neg, exc) = match parse_exponent(v, e) {
        Some(x) => x,
        None => {
            return None;
        },
    };
    let ghost ex = exponent_of(v@, e as int)->Some_0;
    let ms = v.substring_char(0, e);
    let k = find_char(ms, '.');
    let fstart = if k < e { k + 1 } else { e };
    let ghost ip = v@.subrange(0, k as int);
    let ghost fp = v@.subrange(fstart as int, e as int);
    proof {
        assert(ms@ =~= m);
        assert(m.take(k as int) =~= ip);
        if k < e {
            assert(m.skip(k + 1) =~= fp);
        } else {
            assert(fp =~= Seq::<char>::empty());
        }
        assert(empty + ip =~= ip);
    }
    let acc_i = match digits_capped(v, 0, k, 0, 65535, Ghost(empty)) {
        Some(x) => x,
        None => {
            return None;
        },
    };
    let acc_d = match digits_capped(v, fstart, e, acc_i, 65535, Ghost(ip)) {
        Some(x) => x,
        None => {
            return None;
        },
    };
    if k == 0 && fstart == e {
        return None;
    }
    Some(scaled_permille(v, k, fstart, e, acc_i, acc_d, neg, exc, Ghost(ex)))
}

proof fn lemma_first_exp(s: Seq<char>)
    ensures
        0 <= first_exp(s) <= s.len(),
        first_exp(s) < s.len() ==> s[first_exp(s)] == 'e' || s[first_exp(s)] == 'E',
    decreases s.len(),
{
    if s.len() > 0 && !(s[0] == 'e' || s[0] == 'E') {
        lemma_first_exp(s.drop_first());
        if first_exp(s) < s.len() {
            assert(s[first_exp(s)] == s.drop_first()[first_exp(s.drop_first())]);
        }
    }
}

fn parse_permille(v: &str) -> (r: Option<u32>)
    ensures
        match r {
            Some(q) => permille(v@) == Some(q as int),
            None => permille(v@) is None,
        },
{
    let n = v.unicode_len();
    if n > 0 && (v.get_char(0) == '-' || v.get_char(0) == '+') {
        let rest = v.substring_char(1, n);
        proof {
            assert(rest@ =~= v@.drop_first());
        }
        match parse_unsigned_permille(rest) {
            Some(q) => if v.get_char(0) == '-' {
                Some(0)
            } else {
                Some(q)
            },
            None => None,
        }
    } else {
        parse_unsigned_permille(v)
    }
}

fn parse_quality(params: &str) -> (r: u32)
    ensures
        r == quality_of(params@),
{
    let n = params.unicode_len();
    if n >= 2 && params.get_char(0) == 'q' && params.get_char(1) == '=' {
        let v = params.substring_char(2, n);
        proof {
            assert(v@ =~= params@.skip(2));
        }
        match parse_permille(v) {
            Some(q) => q,
            None => 1000,
        }
    } else {
        1000
    }
}

/// A requested language and its quality in thousandths.
#[derive(Debug, Clone)]
pub struct Request {
    pub language: String,
    pub quality: u32,
}

fn parse_request(entry: &str) -> (r: Option<Request>)
    ensures
        match r {
            Some(q) => parse_entry(entry@) == Some((q.language@, q.quality as int)),
            None => parse_entry(entry@) is None,
        },
{
    let t = trim(entry);
    if t.unicode_len() == 0 {
        return None;
    }
    let n = t.unicode_len();
    let k = find_char(t.as_str(), ';');
    let (tag, quality) = if k < n {
        let left = trim(t.as_str().substring_char(0, k));
        let right = trim(t.as_str().substring_char(k + 1, n));
        proof {
            assert(t@.subrange(0, k as int) =~= t@.take(k as int));
            assert(t@.subrange(k + 1, n as int) =~= t@.skip(k + 1));
        }
        (left, parse_quality(right.as_str()))
    } else {
        (t, 1000)
    };
    match primary_language(tag.as_str()) {
        Some(language) => Some(Request { language, quality }),
        None => None,
    }
}

/// The requests of an `Accept-Language`-style header, in the order written.
pub fn parse_accept_language(header: &str) -> (r: Vec<Request>)
    ensures
        requests_view(r@) == requests(header@),
{
    let entries = split_char(header, ',');
    let ghost ev = entries.deep_view();
    let mut r: Vec<Request> = Vec::new();
    let mut i: usize = 0;
    while i < entries.len()
        invariant
            i <= entries.len(),
            ev == entries.deep_view(),
            r@.map_values(|q: Request| (q.language@, q.quality as int)) == requests_of(
                ev.take(i as int),
            ),
        decreases entries.len() - i,
    {
        proof {
            assert(ev.take(i + 1).drop_last() =~= ev.take(i as int));
            assert(ev.take(i + 1).last() == entries[i as int]@);
        }
        let ghost r0 = r@;
        match parse_request(entries[i].as_str()) {
            Some(q) => {
                r.push(q);
                proof {
                    assert(r@.map_values(|q: Request| (q.language@, q.quality as int)) =~= r0.map_values(
                        |q: Request| (q.language@, q.quality as int),
                    ).push((q.language@, q.quality as int)));
                }
            },
            None => {},
        }
        i = i + 1;
    }
    assert(ev.take(i as int) =~= ev);
    assert(requests_view(r@) =~= r@.map_values(|q: Request| (q.language@, q.quality as int)));
    r
}

pub open spec fn requests_view(r: Seq<Request>) -> Seq<(Seq<char>, int)> {
    r.map_values(|q: Request| (q.language@, q.quality as int))
}

/// The primary language of each available tag.
pub open spec fn available_languages(available: Seq<String>) -> Seq<Option<Seq<char>>> {
    available.map_values(|a: String| tag_language(a@))
}

/// The available entry that serves the requests: the first available entry
/// whose primary language is that of the best request, where the best request
/// is the one of highest quality among those that some entry serves, and the
/// earliest of them on a tie; `default` where no request is served.
pub fn pick_language(reqs: &Vec<Request>, available: &Vec<String>, default: usize) -> (r: usize)
    ensures
        ({
            let rv = requests_view(reqs@);
            let av = available_languages(available@);
            &&& (forall|i: int| 0 <= i < rv.len() ==> !#[trigger] request_matches(rv, av, i))
                ==> r == default
            &&& (exists|i: int| 0 <= i < rv.len() && #[trigger] request_matches(rv, av, i))
                ==> exists|i: int| #[trigger] best_request(rv, av, i) && first_available(av, rv[i].0, r as int)
        }),
{
    let ghost rv = requests_view(reqs@);
    let ghost av = available_languages(available@);
    let mut langs: Vec<Option<String>> = Vec::new();
    let mut k: usize = 0;
    while k < available.len()
        invariant
            k <= available.len(),
            av == available_languages(available@),
            langs.len() == k,
            forall|b: int| 0 <= b < k ==> crate::ftl::opt_view(#[trigger] langs[b]) == av[b],
        decreases available.len() - k,
    {
        langs.push(primary_language(available[k].as_str()));
        k = k + 1;
    }
    let mut best: Option<(usize, usize)> = None;
    let mut best_q: u32 = 0;
    let mut i: usize = 0;
    while i < reqs.len()
        invariant
            i <= reqs.len(),
            rv == requests_view(reqs@),
            av == available_languages(available@),
            langs.len() == av.len(),
            forall|b: int| 0 <= b < langs.len() ==> crate::ftl::opt_view(#[trigger] langs[b]) == av[b],
            best is None ==> forall|j: int| 0 <= j < i ==> !#[trigger] request_matches(rv, av, j),
            best matches Some((bi, ba)) ==> {
                &&& bi < i
                &&& best_q == rv[bi as int].1
                &&& request_matches(rv, av, bi as int)
                &&& first_available(av, rv[bi as int].0, ba as int)
                &&& forall|j: int|
                    0 <= j < i && #[trigger] request_matches(rv, av, j) ==> rv[j].1 < rv[bi as int].1
                        || (rv[j].1 == rv[bi as int].1 && bi <= j)
            },
        decreases reqs.len() - i,
    {
        let want = &reqs[i].language;
        proof {
            assert(rv[i as int] == (want@, reqs[i as int].quality as int));
        }
        let mut a: usize = 0;
        let mut found = false;
        while a < langs.len() && !found
            invariant
                a <= langs.len() == av.len(),
                forall|b: int| 0 <= b < langs.len() ==> crate::ftl::opt_view(#[trigger] langs[b]) == av[b],
                !found ==> forall|b: int| 0 <= b < a ==> av[b] != Some(want@),
                found ==> a > 0 && av[a - 1] == Some(want@) && forall|b: int| 0 <= b < a - 1 ==> av[b] != Some(want@),
            decreases langs.len() - a + (if found { 0int } else { 1int }),
        {
            let hit = match &langs[a] {
                Some(l) => *l == *want,
                None => false,
            };
            proof {
                assert(crate::ftl::opt_view(langs[a as int]) == av[a as int]);
            }
            if hit {
                found = true;
            }
            a = a + 1;
        }
        proof {
            if found {
                assert(request_matches(rv, av, i as int));
            } else {
                assert forall|b: int| 0 <= b < av.len() implies av[b] != Some(rv[i as int].0) by {}
                assert(!request_matches(rv, av, i as int));
            }
        }
        if found {
            let q = reqs[i].quality;
            match best {
                None => {
                    best = Some((i, a - 1));
                    best_q = q;
                },
                Some(_) => {
                    if q > best_q {
                        best = Some((i, a - 1));
                        best_q = q;
                    }
                },
            }
        }
        i = i + 1;
    }
    match best {
        Some((bi, ba)) => {
            proof {
                assert(rv.len() == reqs.len());
                assert(best_request(rv, av, bi as int));
            }
            ba
        },
        None => default,
    }
}

/// The available entry that best serves an `Accept-Language`-style header,
/// or `default` where none serves any of its requests.
pub fn negotiate_languages(accept_language: &str, available: &Vec<String>, default: usize) -> (r: usize)
    ensures
        ({
            let rv = requests(accept_language@);
            let av = available_languages(available@);
            &&& (forall|i: int| 0 <= i < rv.len() ==> !#[trigger] request_matches(rv, av, i))
                ==> r == default
            &&& (exists|i: int| 0 <= i < rv.len() && #[trigger] request_matches(rv, av, i))
                ==> exists|i: int| #[trigger] best_request(rv, av, i) && first_available(av, rv[i].0, r as int)
        }),
{
    let reqs = parse_accept_language(accept_language);
    pick_language(&reqs, available, default)
}

} // verus!
