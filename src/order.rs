use vstd::prelude::*;
use vstd::multiset::Multiset;
use vstd::utf8::{encode_utf8, encode_utf8_decode_utf8};
use crate::media::{Media, sources, densely_indexed};
use rand::seq::SliceRandom;

verus! {

broadcast use vstd::seq_lib::group_to_multiset_ensures;

/// Lexicographic order on byte strings, a prefix coming first.
pub open spec fn bytes_le(a: Seq<u8>, b: Seq<u8>) -> bool
    decreases a.len(),
{
    if a.len() == 0 {
        true
    } else if b.len() == 0 {
        false
    } else if a[0] != b[0] {
        a[0] < b[0]
    } else {
        bytes_le(a.drop_first(), b.drop_first())
    }
}

/// The raw path order: byte-wise comparison of the UTF-8 encodings.
pub open spec fn raw_le(a: Seq<char>, b: Seq<char>) -> bool {
    bytes_le(encode_utf8(a), encode_utf8(b))
}

/// What `lexical_sort::natural_lexical_cmp` returns for two strings.
pub uninterp spec fn natural_cmp_of(a: Seq<char>, b: Seq<char>) -> std::cmp::Ordering;

/// The order used for a list: natural-lexical, or raw.
pub open spec fn key_le(natural: bool, a: Seq<char>, b: Seq<char>) -> bool {
    if natural {
        natural_cmp_of(a, b) != std::cmp::Ordering::Greater
    } else {
        raw_le(a, b)
    }
}

/// The order is total and transitive.
pub open spec fn order_is_total(natural: bool) -> bool {
    &&& forall|a: Seq<char>, b: Seq<char>|
        #[trigger] key_le(natural, a, b) || key_le(natural, b, a)
    &&& forall|a: Seq<char>, b: Seq<char>, c: Seq<char>|
        #[trigger] key_le(natural, a, b) && #[trigger] key_le(natural, b, c) ==> key_le(
            natural,
            a,
            c,
        )
}

/// Every item comes no later in the order than every item after it.
pub open spec fn sorted_by_source(s: Seq<Media>, natural: bool) -> bool {
    forall|i: int, j: int|
        0 <= i < j < s.len() ==> key_le(natural, #[trigger] s[i].source@, #[trigger] s[j].source@)
}

/// A sequence of paths in raw order.
pub open spec fn raw_sorted(k: Seq<Seq<char>>) -> bool {
    forall|i: int, j: int| 0 <= i < j < k.len() ==> raw_le(#[trigger] k[i], #[trigger] k[j])
}

proof fn lemma_bytes_total(a: Seq<u8>, b: Seq<u8>)
    ensures
        bytes_le(a, b) || bytes_le(b, a),
    decreases a.len(),
{
    if a.len() > 0 && b.len() > 0 && a[0] == b[0] {
        lemma_bytes_total(a.drop_first(), b.drop_first());
    }
}

proof fn lemma_bytes_trans(a: Seq<u8>, b: Seq<u8>, c: Seq<u8>)
    requires
        bytes_le(a, b),
        bytes_le(b, c),
    ensures
        bytes_le(a, c),
    decreases a.len(),
{
    if a.len() > 0 && b.len() > 0 && c.len() > 0 && a[0] == b[0] && b[0] == c[0] {
        lemma_bytes_trans(a.drop_first(), b.drop_first(), c.drop_first());
    }
}

proof fn lemma_bytes_antisym(a: Seq<u8>, b: Seq<u8>)
    requires
        bytes_le(a, b),
        bytes_le(b, a),
    ensures
        a == b,
    decreases a.len(),
{
    if a.len() > 0 && b.len() > 0 {
        lemma_bytes_antisym(a.drop_first(), b.drop_first());
        assert(a =~= seq![a[0]] + a.drop_first());
        assert(b =~= seq![b[0]] + b.drop_first());
    } else {
        assert(a =~= b);
    }
}

proof fn lemma_bytes_skip(a: Seq<u8>, b: Seq<u8>, i: int)
    requires
        0 <= i <= a.len(),
        i <= b.len(),
        a.subrange(0, i) == b.subrange(0, i),
    ensures
        bytes_le(a, b) == bytes_le(a.skip(i), b.skip(i)),
    decreases i,
{
    if i == 0 {
        assert(a.skip(0) =~= a);
        assert(b.skip(0) =~= b);
    } else {
        assert(a[0] == a.subrange(0, i)[0]);
        assert(b[0] == b.subrange(0, i)[0]);
        assert(a.drop_first().subrange(0, i - 1) =~= a.subrange(0, i).drop_first());
        assert(b.drop_first().subrange(0, i - 1) =~= b.subrange(0, i).drop_first());
        lemma_bytes_skip(a.drop_first(), b.drop_first(), i - 1);
        assert(a.drop_first().skip(i - 1) =~= a.skip(i));
        assert(b.drop_first().skip(i - 1) =~= b.skip(i));
    }
}

/// The raw path order is total and transitive.
pub proof fn lemma_raw_order_total()
    ensures
        order_is_total(false),
{
    assert forall|a: Seq<char>, b: Seq<char>| #[trigger]
        key_le(false, a, b) || key_le(false, b, a) by {
        lemma_bytes_total(encode_utf8(a), encode_utf8(b));
    }
    assert forall|a: Seq<char>, b: Seq<char>, c: Seq<char>|
        #[trigger] key_le(false, a, b) && #[trigger] key_le(false, b, c) implies key_le(
            false,
            a,
            c,
        ) by {
        lemma_bytes_trans(encode_utf8(a), encode_utf8(b), encode_utf8(c));
    }
}

/// Two paths that each come no later than the other are the same path.
pub proof fn lemma_raw_antisym(a: Seq<char>, b: Seq<char>)
    requires
        raw_le(a, b),
        raw_le(b, a),
    ensures
        a == b,
{
    lemma_bytes_antisym(encode_utf8(a), encode_utf8(b));
    encode_utf8_decode_utf8(a);
    encode_utf8_decode_utf8(b);
}

/// Compares two paths in raw (byte-wise) order.
pub fn raw_path_le(a: &str, b: &str) -> (r: bool)
    ensures
        r == raw_le(a@, b@),
{
    let x = a.as_bytes();
    let y = b.as_bytes();
    let mut i: usize = 0;
    while i < x.len() && i < y.len() && x[i] == y[i]
        invariant
            x@ == encode_utf8(a@),
            y@ == encode_utf8(b@),
            i <= x@.len(),
            i <= y@.len(),
            x@.subrange(0, i as int) == y@.subrange(0, i as int),
        decreases x@.len() - i,
    {
        assert(x@.subrange(0, i + 1) =~= x@.subrange(0, i as int).push(x@[i as int]));
        assert(y@.subrange(0, i + 1) =~= y@.subrange(0, i as int).push(y@[i as int]));
        i = i + 1;
    }
    proof {
        lemma_bytes_skip(x@, y@, i as int);
    }
    if i == x.len() {
        true
    } else if i == y.len() {
        false
    } else {
        assert(x@.skip(i as int)[0] == x@[i as int]);
        assert(y@.skip(i as int)[0] == y@[i as int]);
        x[i] < y[i]
    }
}

/// Length of the run of ASCII digits at the end of `s`.
pub open spec fn trailing_digits(s: Seq<char>) -> nat
    decreases s.len(),
{
    if s.len() > 0 && '0' <= s.last() <= '9' {
        trailing_digits(s.drop_last()) + 1
    } else {
        0
    }
}

/// The path is ASCII and has no more than 19 ASCII digits in a row, so
/// that the number a run of digits spells fits in a `u64`.
pub open spec fn natural_safe(s: Seq<char>) -> bool
    decreases s.len(),
{
    s.len() == 0 || (s.last() <= '\u{7f}' && trailing_digits(s) <= 19 && natural_safe(
        s.drop_last(),
    ))
}

/// Whether a path can take part in a natural-order comparison.
pub fn natural_order_safe(s: &str) -> (r: bool)
    ensures
        r == natural_safe(s@),
{
    let n: usize = s.unicode_len();
    let mut run: usize = 0;
    let mut ok: bool = true;
    let mut i: usize = 0;
    while i < n
        invariant
            n == s@.len(),
            i <= n,
            run <= i,
            run == trailing_digits(s@.subrange(0, i as int)),
            ok == natural_safe(s@.subrange(0, i as int)),
        decreases n - i,
    {
        let c = s.get_char(i);
        assert(s@.subrange(0, i + 1).drop_last() =~= s@.subrange(0, i as int));
        assert(s@.subrange(0, i + 1).last() == c);
        if '0' <= c && c <= '9' {
            run = run + 1;
        } else {
            run = 0;
        }
        ok = ok && c <= '\u{7f}' && run <= 19;
        i = i + 1;
    }
    assert(s@.subrange(0, n as int) =~= s@);
    ok
}

/// Relies on lexical_sort::natural_lexical_cmp: number-aware comparison of
/// two strings, a function of the strings alone. It adds up the digits of
/// a run in a `u64` unchecked; for an ASCII string the compared characters
/// are the string's own, lowercased, so when one side has no run of over
/// 19 digits the sums fit. Every step of the comparison treats its two
/// sides alike, so swapping them reverses the result.
#[verifier::external_body]
fn natural_cmp(a: &str, b: &str) -> (r: std::cmp::Ordering)
    requires
        natural_safe(a@) || natural_safe(b@),
    ensures
        r == natural_cmp_of(a@, b@),
        (r == std::cmp::Ordering::Greater) == (natural_cmp_of(b@, a@) == std::cmp::Ordering::Less),
{
    lexical_sort::natural_lexical_cmp(a, b)
}

/// Compares two paths in the chosen order.
pub fn path_le(natural: bool, a: &str, b: &str) -> (r: bool)
    requires
        natural ==> natural_safe(a@) || natural_safe(b@),
    ensures
        r == key_le(natural, a@, b@),
        !r ==> key_le(natural, b@, a@),
{
    if natural {
        match natural_cmp(a, b) {
            std::cmp::Ordering::Greater => false,
            _ => true,
        }
    } else {
        proof {
            lemma_bytes_total(encode_utf8(a@), encode_utf8(b@));
        }
        raw_path_le(a, b)
    }
}

/// Each item comes no later in the order than the next one.
pub open spec fn adjacent_sorted(s: Seq<Media>, natural: bool) -> bool {
    forall|i: int|
        0 <= i < s.len() - 1 ==> key_le(natural, #[trigger] s[i].source@, s[i + 1].source@)
}

/// Every path of the list can take part in a natural-order comparison.
pub open spec fn all_natural_safe(s: Seq<Media>) -> bool {
    forall|i: int| 0 <= i < s.len() ==> natural_safe(#[trigger] s[i].source@)
}

/// The items with their index cleared.
pub open spec fn unindexed(s: Seq<Media>) -> Seq<Media> {
    s.map_values(|m: Media| Media { index: None, ..m })
}

proof fn lemma_insert_multiset<A>(s: Seq<A>, p: int, x: A)
    requires
        0 <= p <= s.len(),
    ensures
        s.insert(p, x).to_multiset() =~= s.to_multiset().insert(x),
{
    let t = s.insert(p, x);
    assert(t.remove(p) =~= s);
    assert(t[p] == x);
    assert(t.contains(x));
}

proof fn lemma_insert_in_order(s: Seq<Media>, p: int, x: Media, natural: bool)
    requires
        0 <= p <= s.len(),
        forall|k: int| 0 <= k < p ==> key_le(natural, #[trigger] s[k].source@, x.source@),
        p < s.len() ==> key_le(natural, x.source@, s[p].source@),
        adjacent_sorted(s, natural),
        order_is_total(natural) ==> sorted_by_source(s, natural),
    ensures
        adjacent_sorted(s.insert(p, x), natural),
        order_is_total(natural) ==> sorted_by_source(s.insert(p, x), natural),
{
    let t = s.insert(p, x);
    assert forall|i: int| 0 <= i < t.len() - 1 implies key_le(
        natural,
        #[trigger] t[i].source@,
        t[i + 1].source@,
    ) by {
        if i + 1 < p {
            assert(t[i] == s[i] && t[i + 1] == s[i + 1]);
        } else if i + 1 == p {
            assert(t[i] == s[i]);
        } else if i == p {
            assert(t[i + 1] == s[i]);
        } else {
            assert(t[i] == s[i - 1] && t[i + 1] == s[i]);
        }
    }
    if order_is_total(natural) {
        assert forall|k: int| p <= k < s.len() implies key_le(
            natural,
            x.source@,
            #[trigger] s[k].source@,
        ) by {
            if k > p {
                assert(key_le(natural, s[p].source@, s[k].source@));
            }
        }
        assert forall|i: int, j: int| 0 <= i < j < t.len() implies key_le(
            natural,
            #[trigger] t[i].source@,
            #[trigger] t[j].source@,
        ) by {
            if j < p {
                assert(t[i] == s[i] && t[j] == s[j]);
            } else if j == p {
                assert(t[i] == s[i]);
            } else if i < p {
                assert(t[i] == s[i] && t[j] == s[j - 1]);
                assert(key_le(natural, t[i].source@, x.source@));
                assert(key_le(natural, x.source@, s[j - 1].source@));
            } else if i == p {
                assert(t[j] == s[j - 1]);
            } else {
                assert(t[i] == s[i - 1] && t[j] == s[j - 1]);
            }
        }
    }
}

/// Re-orders the list by source path in the chosen order, keeping items
/// with equal paths in their order (a stable insertion sort). The result is
/// a permutation with each item in order against the next; under a total
/// and transitive order it is sorted; a list already in order is kept.
pub fn sort_by_source(v: &mut Vec<Media>, natural: bool)
    requires
        natural ==> all_natural_safe(old(v)@),
    ensures
        final(v)@.to_multiset() == old(v)@.to_multiset(),
        final(v)@.len() == old(v)@.len(),
        adjacent_sorted(final(v)@, natural),
        order_is_total(natural) ==> sorted_by_source(final(v)@, natural),
        adjacent_sorted(old(v)@, natural) ==> final(v)@ == old(v)@,
{
    let ghost orig = v@;
    let mut out: Vec<Media> = Vec::new();
    while v.len() > 0
        invariant
            v@.len() <= orig.len(),
            v@ == orig.subrange(0, v@.len() as int),
            natural ==> all_natural_safe(orig),
            out@.to_multiset().add(v@.to_multiset()) == orig.to_multiset(),
            adjacent_sorted(out@, natural),
            order_is_total(natural) ==> sorted_by_source(out@, natural),
            adjacent_sorted(orig, natural) ==> out@ == orig.subrange(
                v@.len() as int,
                orig.len() as int,
            ),
        decreases v@.len(),
    {
        let ghost before = v@;
        let x = v.pop().unwrap();
        let ghost m = v@.len() as int;
        assert(before =~= v@.push(x));
        assert(v@ =~= orig.subrange(0, m));
        assert(x == orig[m]);
        assert(natural ==> natural_safe(x.source@));
        let mut p: usize = 0;
        while p < out.len() && !path_le(natural, x.source.as_str(), out[p].source.as_str())
            invariant
                p <= out@.len(),
                0 <= m < orig.len(),
                x == orig[m],
                natural ==> natural_safe(x.source@),
                forall|k: int| 0 <= k < p ==> key_le(natural, #[trigger] out@[k].source@, x.source@),
                adjacent_sorted(orig, natural) && out@ == orig.subrange(m + 1, orig.len() as int)
                    && m + 1 < orig.len() ==> p == 0,
            decreases out@.len() - p,
        {
            proof {
                if adjacent_sorted(orig, natural) && out@ == orig.subrange(m + 1, orig.len() as int)
                    && m + 1 < orig.len() {
                    assert(key_le(natural, orig[m].source@, orig[m + 1].source@));
                    assert(out@[0] == orig[m + 1]);
                }
            }
            p = p + 1;
        }
        let ghost old_out = out@;
        proof {
            lemma_insert_multiset(old_out, p as int, x);
            lemma_insert_in_order(old_out, p as int, x, natural);
        }
        out.insert(p, x);
        proof {
            if adjacent_sorted(orig, natural) {
                if m + 1 < orig.len() {
                    assert(key_le(natural, orig[m].source@, orig[m + 1].source@));
                    assert(old_out[0] == orig[m + 1]);
                }
                assert(out@ =~= orig.subrange(m, orig.len() as int));
            }
        }
    }
    assert(v@.to_multiset() =~= Multiset::empty());
    assert(out@.to_multiset() =~= orig.to_multiset());
    assert(out@.to_multiset().len() == out@.len());
    assert(orig.to_multiset().len() == orig.len());
    assert(orig.subrange(0, orig.len() as int) =~= orig);
    *v = out;
}

/// Gives each item its position as index; nothing else changes.
pub fn assign_indices(v: &mut Vec<Media>)
    ensures
        final(v)@.len() == old(v)@.len(),
        densely_indexed(final(v)@),
        sources(final(v)@) == sources(old(v)@),
        forall|i: int|
            0 <= i < old(v)@.len() ==> (#[trigger] final(v)@[i]) == (Media {
                index: Some(i as usize),
                ..old(v)@[i]
            }),
{
    let ghost orig = v@;
    let mut i: usize = 0;
    while i < v.len()
        invariant
            v@.len() == orig.len(),
            i <= v@.len(),
            forall|k: int| 0 <= k < i ==> (#[trigger] v@[k]) == (Media {
                index: Some(k as usize),
                ..orig[k]
            }),
            forall|k: int| i <= k < v@.len() ==> #[trigger] v@[k] == orig[k],
        decreases v@.len() - i,
    {
        v[i].index = Some(i);
        i = i + 1;
    }
    assert(sources(v@) =~= sources(orig));
}

/// Relies on rand's SliceRandom::shuffle driven by rand::thread_rng: the
/// slice is re-ordered by swaps only, so it keeps its items. (thread_rng
/// panics only when the system's random source cannot be opened.)
#[verifier::external_body]
fn shuffle_items(v: &mut Vec<Media>)
    ensures
        final(v)@.to_multiset() == old(v)@.to_multiset(),
{
    v.shuffle(&mut rand::thread_rng());
}

/// Lists with the same items have the same source paths, and the same
/// items with their index cleared, counted with their multiplicity.
pub proof fn lemma_same_items_same_sources(s1: Seq<Media>, s2: Seq<Media>)
    requires
        s1.to_multiset() == s2.to_multiset(),
    ensures
        sources(s1).to_multiset() == sources(s2).to_multiset(),
        unindexed(s1).to_multiset() == unindexed(s2).to_multiset(),
    decreases s1.len(),
{
    if s1.len() == 0 {
        assert(s2.to_multiset().len() == 0);
        assert(sources(s1) =~= sources(s2));
        assert(unindexed(s1) =~= unindexed(s2));
    } else {
        let x = s1.last();
        let ux = Media { index: None, ..x };
        let r1 = s1.drop_last();
        assert(s1 =~= r1.push(x));
        assert(s1.contains(x));
        assert(s2.to_multiset().count(x) > 0);
        assert(s2.contains(x));
        let j = choose|j: int| 0 <= j < s2.len() && s2[j] == x;
        let r2 = s2.remove(j);
        assert(r2.to_multiset() =~= s2.to_multiset().remove(x));
        assert(r1.to_multiset() =~= s1.to_multiset().remove(x));
        lemma_same_items_same_sources(r1, r2);
        assert(sources(s1) =~= sources(r1).push(x.source@));
        assert(sources(r2) =~= sources(s2).remove(j));
        assert(sources(s2)[j] == x.source@);
        assert(sources(s2).contains(x.source@));
        assert(sources(s2).to_multiset() =~= sources(r2).to_multiset().insert(x.source@));
        assert(unindexed(s1) =~= unindexed(r1).push(ux));
        assert(unindexed(r2) =~= unindexed(s2).remove(j));
        assert(unindexed(s2)[j] == ux);
        assert(unindexed(s2).contains(ux));
        assert(unindexed(s2).to_multiset() =~= unindexed(r2).to_multiset().insert(ux));
    }
}

/// Re-orders the list for a new round, shuffled or sorted by path (stably),
/// and gives every item its new position as index. The items are only
/// permuted and re-indexed; a sorted, densely indexed list is kept as is.
pub fn reorder(v: &mut Vec<Media>, shuffle: bool, natural: bool)
    requires
        !shuffle && natural ==> all_natural_safe(old(v)@),
    ensures
        final(v)@.len() == old(v)@.len(),
        unindexed(final(v)@).to_multiset() == unindexed(old(v)@).to_multiset(),
        sources(final(v)@).to_multiset() == sources(old(v)@).to_multiset(),
        densely_indexed(final(v)@),
        !shuffle ==> adjacent_sorted(final(v)@, natural),
        !shuffle && !natural ==> sorted_by_source(final(v)@, false),
        !shuffle && order_is_total(natural) ==> sorted_by_source(final(v)@, natural),
        !shuffle && adjacent_sorted(old(v)@, natural) && densely_indexed(old(v)@) ==> final(v)@
            == old(v)@,
{
    let ghost orig = v@;
    if shuffle {
        shuffle_items(v);
    } else {
        sort_by_source(v, natural);
    }
    proof {
        lemma_same_items_same_sources(v@, orig);
        assert(sources(v@).len() == v@.len());
        assert(sources(orig).len() == orig.len());
        assert(sources(v@).to_multiset().len() == sources(orig).to_multiset().len());
        lemma_raw_order_total();
    }
    let ghost mid = v@;
    assign_indices(v);
    proof {
        assert forall|i: int| 0 <= i < v@.len() implies #[trigger] v@[i].source@ == mid[i].source@
            by {
            assert(v@[i] == (Media { index: Some(i as usize), ..mid[i] }));
        }
        assert forall|i: int, j: int| 0 <= i < j < v@.len() implies #[trigger] v@[i].source@
            == mid[i].source@ && #[trigger] v@[j].source@ == mid[j].source@ by {
            assert(v@[i] == (Media { index: Some(i as usize), ..mid[i] }));
            assert(v@[j] == (Media { index: Some(j as usize), ..mid[j] }));
        }
        assert forall|i: int| 0 <= i < v@.len() implies #[trigger] unindexed(v@)[i] == unindexed(
            mid,
        )[i] by {
            assert(v@[i] == (Media { index: Some(i as usize), ..mid[i] }));
        }
        assert(unindexed(v@) =~= unindexed(mid));
        if !shuffle && adjacent_sorted(orig, natural) && densely_indexed(orig) {
            assert forall|i: int| 0 <= i < v@.len() implies #[trigger] v@[i] == orig[i] by {
                assert(v@[i] == (Media { index: Some(i as usize), ..mid[i] }));
                assert(mid[i] == orig[i]);
                assert(orig[i].index == Some(i as usize));
            }
            assert(v@ =~= orig);
        }
    }
}

proof fn lemma_raw_sorted_unique(k1: Seq<Seq<char>>, k2: Seq<Seq<char>>)
    requires
        raw_sorted(k1),
        raw_sorted(k2),
        k1.to_multiset() == k2.to_multiset(),
    ensures
        k1 == k2,
    decreases k1.len(),
{
    if k1.len() == 0 {
        assert(k2.to_multiset().len() == 0);
        assert(k1 =~= k2);
    } else {
        assert(k2.to_multiset().len() == k1.len());
        let a = k1[0];
        let b = k2[0];
        assert(k1.contains(a));
        assert(k2.contains(b));
        assert(k2.to_multiset().count(a) > 0);
        assert(k1.to_multiset().count(b) > 0);
        assert(k2.contains(a));
        assert(k1.contains(b));
        let ja = choose|j: int| 0 <= j < k2.len() && k2[j] == a;
        let jb = choose|j: int| 0 <= j < k1.len() && k1[j] == b;
        lemma_bytes_total(encode_utf8(a), encode_utf8(a));
        lemma_bytes_total(encode_utf8(b), encode_utf8(b));
        if ja > 0 {
            assert(raw_le(k2[0], k2[ja]));
        }
        if jb > 0 {
            assert(raw_le(k1[0], k1[jb]));
        }
        lemma_raw_antisym(a, b);
        assert(k1.remove(0) =~= k1.drop_first());
        assert(k2.remove(0) =~= k2.drop_first());
        assert(k1.drop_first().to_multiset() =~= k2.drop_first().to_multiset());
        assert forall|i: int, j: int| 0 <= i < j < k1.len() - 1 implies raw_le(#[trigger] k1.drop_first()[i], #[trigger] k1.drop_first()[j]) by {
            assert(raw_le(k1[i + 1], k1[j + 1]));
        }
        assert forall|i: int, j: int| 0 <= i < j < k2.len() - 1 implies raw_le(#[trigger] k2.drop_first()[i], #[trigger] k2.drop_first()[j]) by {
            assert(raw_le(k2[i + 1], k2[j + 1]));
        }
        lemma_raw_sorted_unique(k1.drop_first(), k2.drop_first());
        assert(k1 =~= seq![a] + k1.drop_first());
        assert(k2 =~= seq![b] + k2.drop_first());
    }
}

/// Raw sorting is deterministic: two lists in raw path order over the same
/// source paths, counted with multiplicity, hold them in the same order,
/// whatever order they were built in.
pub proof fn lemma_raw_sort_deterministic(s1: Seq<Media>, s2: Seq<Media>)
    requires
        sorted_by_source(s1, false),
        sorted_by_source(s2, false),
        sources(s1).to_multiset() == sources(s2).to_multiset(),
    ensures
        sources(s1) == sources(s2),
{
    assert forall|i: int, j: int| 0 <= i < j < sources(s1).len() implies raw_le(
        #[trigger] sources(s1)[i],
        #[trigger] sources(s1)[j],
    ) by {
        assert(key_le(false, s1[i].source@, s1[j].source@));
    }
    assert forall|i: int, j: int| 0 <= i < j < sources(s2).len() implies raw_le(
        #[trigger] sources(s2)[i],
        #[trigger] sources(s2)[j],
    ) by {
        assert(key_le(false, s2[i].source@, s2[j].source@));
    }
    lemma_raw_sorted_unique(sources(s1), sources(s2));
}

} // verus!
