use vstd::prelude::*;
use crate::ratio::Ratio;

verus! {

/// A record ranked by an exact rational key: an expected value or a
/// profit percentage. The detectors hand their results out sorted in
/// descending key order.
pub trait RankKey: Sized {
    spec fn key(&self) -> Ratio;

    fn key_exec(&self) -> (r: Ratio)
        ensures
            r == self.key(),
    ;
}

/// Stable descending insertion: `x` goes after every existing record
/// whose key is at least as large, so records with equal keys keep their
/// original order.
pub open spec fn insert_desc<T: RankKey>(x: T, s: Seq<T>) -> Seq<T>
    decreases s.len(),
{
    if s.len() == 0 {
        seq![x]
    } else if s[0].key().spec_ge(x.key()) {
        seq![s[0]] + insert_desc(x, s.drop_first())
    } else {
        seq![x] + s
    }
}

/// Stable descending insertion sort, processing the input left to right.
pub open spec fn sort_desc<T: RankKey>(s: Seq<T>) -> Seq<T>
    decreases s.len(),
{
    if s.len() == 0 {
        Seq::empty()
    } else {
        insert_desc(s.last(), sort_desc(s.drop_last()))
    }
}

/// Inserting at the first position whose key is strictly below the new
/// key realizes `insert_desc`.
pub proof fn lemma_insert_desc_at<T: RankKey>(x: T, s: Seq<T>, pos: int)
    requires
        0 <= pos <= s.len(),
        forall|j: int| 0 <= j < pos ==> (#[trigger] s[j]).key().spec_ge(x.key()),
        pos < s.len() ==> !s[pos].key().spec_ge(x.key()),
    ensures
        insert_desc(x, s) == s.take(pos) + seq![x] + s.skip(pos),
    decreases s.len(),
{
    if pos == 0 {
        if s.len() == 0 {
            assert(insert_desc(x, s) =~= s.take(0) + seq![x] + s.skip(0));
        } else {
            assert(insert_desc(x, s) =~= s.take(0) + seq![x] + s.skip(0));
        }
    } else {
        lemma_insert_desc_at(x, s.drop_first(), pos - 1);
        assert(s.drop_first().take(pos - 1) =~= s.take(pos).drop_first());
        assert(seq![s[0]] + (s.drop_first().take(pos - 1) + seq![x] + s.drop_first().skip(
            pos - 1,
        )) =~= s.take(pos) + seq![x] + s.skip(pos));
    }
}

/// First position in `out` whose key falls strictly below the key of
/// `x`, or the length when there is none.
fn scan_pos<T: RankKey>(out: &Vec<T>, x: &T) -> (pos: usize)
    ensures
        pos <= out@.len(),
        forall|j: int| 0 <= j < pos ==> (#[trigger] out@[j]).key().spec_ge(x.key()),
        pos < out@.len() ==> !out@[pos as int].key().spec_ge(x.key()),
{
    let xkey = x.key_exec();
    let mut pos: usize = 0;
    while pos < out.len()
        invariant
            pos <= out@.len(),
            xkey == x.key(),
            forall|j: int| 0 <= j < pos ==> (#[trigger] out@[j]).key().spec_ge(x.key()),
        decreases out@.len() - pos,
    {
        let k = out[pos].key_exec();
        if !k.ge(&xkey) {
            return pos;
        }
        pos += 1;
    }
    pos
}

/// Sort the records in place, descending by key, stably: the result is
/// exactly `sort_desc` of the input.
pub fn sort_desc_exec<T: RankKey>(v: Vec<T>) -> (r: Vec<T>)
    ensures
        r@ == sort_desc(v@),
{
    let ghost orig = v@;
    let mut v = v;
    let mut out: Vec<T> = Vec::new();
    let mut i: usize = 0;
    let n = v.len();
    proof {
        assert(orig.skip(0) =~= orig);
        assert(orig.take(0) =~= Seq::<T>::empty());
    }
    while v.len() > 0
        invariant
            i + v@.len() == orig.len(),
            orig.len() == n,
            v@ == orig.skip(i as int),
            out@ == sort_desc(orig.take(i as int)),
        decreases v@.len(),
    {
        let x = v.remove(0);
        proof {
            assert(orig.skip(i as int).remove(0) =~= orig.skip(i as int + 1));
            assert(x == orig[i as int]);
        }
        let pos = scan_pos(&out, &x);
        proof {
            lemma_insert_desc_at(x, out@, pos as int);
        }
        let ghost oldout = out@;
        out.insert(pos, x);
        i += 1;
        proof {
            assert(out@ =~= oldout.take(pos as int) + seq![x] + oldout.skip(pos as int));
            assert(orig.take(i as int).drop_last() =~= orig.take(i as int - 1));
            assert(orig.take(i as int).last() == orig[i as int - 1]);
            assert(out@ == sort_desc(orig.take(i as int)));
        }
    }
    proof {
        assert(orig.take(orig.len() as int) =~= orig);
    }
    out
}

/// The subsequence of records with strictly positive key.
pub open spec fn keep_pos<T: RankKey>(s: Seq<T>) -> Seq<T>
    decreases s.len(),
{
    if s.len() == 0 {
        Seq::empty()
    } else {
        keep_pos(s.drop_last()) + (if s.last().key().spec_pos() {
            seq![s.last()]
        } else {
            Seq::<T>::empty()
        })
    }
}

/// Drop every record whose key is not strictly positive, keeping order.
pub fn filter_pos<T: RankKey>(v: Vec<T>) -> (r: Vec<T>)
    ensures
        r@ == keep_pos(v@),
{
    let ghost orig = v@;
    let mut v = v;
    let mut out: Vec<T> = Vec::new();
    let mut i: usize = 0;
    let n = v.len();
    proof {
        assert(orig.skip(0) =~= orig);
        assert(out@ =~= keep_pos(orig.take(0)));
    }
    while v.len() > 0
        invariant
            i + v@.len() == orig.len(),
            orig.len() == n,
            v@ == orig.skip(i as int),
            out@ == keep_pos(orig.take(i as int)),
        decreases v@.len(),
    {
        let x = v.remove(0);
        proof {
            assert(orig.skip(i as int).remove(0) =~= orig.skip(i as int + 1));
            assert(x == orig[i as int]);
        }
        let k = x.key_exec();
        if k.is_positive() {
            out.push(x);
        }
        i += 1;
        proof {
            assert(orig.take(i as int).drop_last() =~= orig.take(i as int - 1));
            assert(orig.take(i as int).last() == orig[i as int - 1]);
            assert(out@ =~= keep_pos(orig.take(i as int)));
        }
    }
    proof {
        assert(orig.take(orig.len() as int) =~= orig);
    }
    out
}

/// The first `n` records when a cap is requested, everything otherwise.
pub open spec fn top_slice<T>(s: Seq<T>, top_n: Option<usize>) -> Seq<T> {
    match top_n {
        Some(n) => if n <= s.len() {
            s.take(n as int)
        } else {
            s
        },
        None => s,
    }
}

/// Keep only the leading `n` records when a cap is requested.
pub fn take_top<T>(v: Vec<T>, top_n: Option<usize>) -> (r: Vec<T>)
    ensures
        r@ == top_slice(v@, top_n),
{
    let mut v = v;
    match top_n {
        Some(n) => {
            if n <= v.len() {
                v.truncate(n);
            }
            v
        },
        None => v,
    }
}

/// In a `sort_desc` image of records with well-formed keys, keys are
/// pairwise descending, and the records are a permutation of the input:
/// sorting reorders, it never invents or drops a record.
pub open spec fn sorted_desc<T: RankKey>(s: Seq<T>) -> bool {
    forall|i: int, j: int| 0 <= i <= j < s.len() ==> (#[trigger] s[i]).key().spec_ge(
        (#[trigger] s[j]).key(),
    )
}

pub open spec fn wf_keys<T: RankKey>(s: Seq<T>) -> bool {
    forall|i: int| 0 <= i < s.len() ==> (#[trigger] s[i]).key().wf()
}

pub proof fn lemma_insert_desc_sorted<T: RankKey>(x: T, s: Seq<T>)
    requires
        sorted_desc(s),
        wf_keys(s),
        x.key().wf(),
    ensures
        sorted_desc(insert_desc(x, s)),
        wf_keys(insert_desc(x, s)),
        insert_desc(x, s).to_multiset() == s.to_multiset().insert(x),
    decreases s.len(),
{
    broadcast use vstd::seq_lib::group_to_multiset_ensures;

    if s.len() == 0 {
        assert(insert_desc(x, s) =~= seq![x]);
        assert(seq![x] =~= Seq::<T>::empty().push(x));
        assert(s.to_multiset().insert(x) == insert_desc(x, s).to_multiset());
    } else if s[0].key().spec_ge(x.key()) {
        assert(forall|i: int, j: int|
            0 <= i <= j < s.drop_first().len() ==> (#[trigger] s.drop_first()[i]).key().spec_ge(
                (#[trigger] s.drop_first()[j]).key(),
            ));
        lemma_insert_desc_sorted(x, s.drop_first());
        let t = insert_desc(x, s.drop_first());
        let r = insert_desc(x, s);
        assert(r == seq![s[0]] + t);
        assert forall|i: int, j: int| 0 <= i <= j < r.len() implies (#[trigger] r[i]).key().spec_ge(
            (#[trigger] r[j]).key(),
        ) by {
            if i == 0 {
                if j > 0 {
                    assert(r[j] == t[j - 1]);
                    if t.len() > 0 {
                        // every key in t is either x's key or a key from s's tail,
                        // and both are at most s[0]'s key
                        lemma_insert_desc_member(x, s.drop_first(), j - 1);
                        if t[j - 1] == x {
                            crate::ratio::lemma_ratio_ge_trans(
                                s[0].key(),
                                s[0].key(),
                                x.key(),
                            );
                        } else {
                            let k = choose|k: int|
                                0 <= k < s.drop_first().len() && t[j - 1] == s.drop_first()[k];
                            assert(s[0].key().spec_ge(s[k + 1].key()));
                        }
                    }
                }
            } else {
                assert(r[i] == t[i - 1]);
                assert(r[j] == t[j - 1]);
            }
        }
        assert(r.to_multiset() == s.to_multiset().insert(x)) by {
            broadcast use vstd::multiset::group_multiset_axioms;

            lemma_to_multiset_drop_first(r);
            assert(r.drop_first() =~= t);
            assert(r.to_multiset() == t.to_multiset().insert(s[0]));
            lemma_to_multiset_drop_first(s);
            assert(s.drop_first().to_multiset().insert(x).insert(s[0])
                =~= s.drop_first().to_multiset().insert(s[0]).insert(x));
        }
        assert(wf_keys(r)) by {
            assert forall|i: int| 0 <= i < r.len() implies (#[trigger] r[i]).key().wf() by {
                if i > 0 {
                    assert(r[i] == t[i - 1]);
                }
            }
        }
    } else {
        let r = insert_desc(x, s);
        assert(r == seq![x] + s);
        assert forall|i: int, j: int| 0 <= i <= j < r.len() implies (#[trigger] r[i]).key().spec_ge(
            (#[trigger] r[j]).key(),
        ) by {
            if i == 0 && j > 0 {
                // x's key strictly exceeds s[0]'s, which bounds the rest
                assert(s[0].key().spec_ge(s[j - 1].key()));
                assert(x.key().spec_ge(s[0].key())) by (nonlinear_arith)
                    requires
                        0 < x.key().den,
                        0 < s[0].key().den,
                        !(x.key().num * s[0].key().den <= s[0].key().num * x.key().den),
                ;
                crate::ratio::lemma_ratio_ge_trans(x.key(), s[0].key(), s[j - 1].key());
                assert(r[j] == s[j - 1]);
            } else if i > 0 {
                assert(r[i] == s[i - 1]);
                assert(r[j] == s[j - 1]);
            }
        }
        assert(r.to_multiset() == s.to_multiset().insert(x)) by {
            lemma_to_multiset_drop_first(r);
            assert(r.drop_first() =~= s);
        }
        assert(wf_keys(r)) by {
            assert forall|i: int| 0 <= i < r.len() implies (#[trigger] r[i]).key().wf() by {
                if i > 0 {
                    assert(r[i] == s[i - 1]);
                }
            }
        }
    }
}

/// A non-empty sequence is its first element plus the rest, as multisets.
pub proof fn lemma_to_multiset_drop_first<T>(s: Seq<T>)
    requires
        s.len() > 0,
    ensures
        s.to_multiset() == s.drop_first().to_multiset().insert(s[0]),
{
    broadcast use vstd::seq_lib::group_to_multiset_ensures;
    broadcast use vstd::multiset::group_multiset_axioms;

    assert(s.drop_first() =~= s.remove(0));
    assert(s.remove(0).to_multiset() =~= s.to_multiset().remove(s[0]));
    assert(s.contains(s[0]));
    assert(s.to_multiset().count(s[0]) > 0);
    assert(s.to_multiset().remove(s[0]).insert(s[0]) =~= s.to_multiset());
}

/// Every member of `insert_desc(x, s)` is `x` or a member of `s`.
pub proof fn lemma_insert_desc_member<T: RankKey>(x: T, s: Seq<T>, i: int)
    requires
        0 <= i < insert_desc(x, s).len(),
    ensures
        insert_desc(x, s)[i] == x || exists|k: int|
            0 <= k < s.len() && insert_desc(x, s)[i] == s[k],
    decreases s.len(),
{
    if s.len() == 0 {
    } else if s[0].key().spec_ge(x.key()) {
        if i > 0 {
            lemma_insert_desc_member(x, s.drop_first(), i - 1);
            let t = insert_desc(x, s.drop_first());
            if t[i - 1] == x {
            } else {
                let k = choose|k: int| 0 <= k < s.drop_first().len() && t[i - 1] == s.drop_first()[
                    k
                ];
                assert(insert_desc(x, s)[i] == s[k + 1]);
            }
        } else {
            assert(insert_desc(x, s)[0] == s[0]);
        }
    } else {
        if i > 0 {
            assert(insert_desc(x, s)[i] == s[i - 1]);
        }
    }
}

/// The sorted output is pairwise descending in key and is a permutation
/// of its input, whenever all keys are well formed.
pub proof fn lemma_sort_desc_sorted<T: RankKey>(s: Seq<T>)
    requires
        wf_keys(s),
    ensures
        sorted_desc(sort_desc(s)),
        sort_desc(s).to_multiset() == s.to_multiset(),
    decreases s.len(),
{
    broadcast use vstd::seq_lib::group_to_multiset_ensures;

    if s.len() == 0 {
        assert(sort_desc(s) =~= Seq::<T>::empty());
    } else {
        assert(wf_keys(s.drop_last())) by {
            assert forall|i: int| 0 <= i < s.drop_last().len() implies (#[trigger] s.drop_last()[
                i
            ]).key().wf() by {
                assert(s.drop_last()[i] == s[i]);
            }
        }
        lemma_sort_desc_sorted(s.drop_last());
        assert(wf_keys(sort_desc(s.drop_last()))) by {
            lemma_to_multiset_wf_keys(s.drop_last(), sort_desc(s.drop_last()));
        }
        lemma_insert_desc_sorted(s.last(), sort_desc(s.drop_last()));
        assert(s =~= s.drop_last().push(s.last()));
        assert(s.to_multiset() == s.drop_last().to_multiset().insert(s.last()));
    }
}

/// Filtering by positive key keeps keys well formed.
pub proof fn lemma_keep_pos_wf<T: RankKey>(s: Seq<T>)
    requires
        wf_keys(s),
    ensures
        wf_keys(keep_pos(s)),
    decreases s.len(),
{
    if s.len() > 0 {
        assert(wf_keys(s.drop_last())) by {
            assert forall|i: int| 0 <= i < s.drop_last().len() implies (#[trigger] s.drop_last()[
                i
            ]).key().wf() by {
                assert(s.drop_last()[i] == s[i]);
            }
        }
        lemma_keep_pos_wf(s.drop_last());
        let r = keep_pos(s);
        let p = keep_pos(s.drop_last());
        assert forall|i: int| 0 <= i < r.len() implies (#[trigger] r[i]).key().wf() by {
            if i < p.len() {
                assert(r[i] == p[i]);
            } else {
                assert(r[i] == s.last());
            }
        }
    }
}

/// Every record the positive filter keeps has a strictly positive key
/// and is a record of the input.
pub proof fn lemma_keep_pos_members<T: RankKey>(s: Seq<T>)
    ensures
        forall|i: int|
            0 <= i < keep_pos(s).len() ==> (#[trigger] keep_pos(s)[i]).key().spec_pos()
                && s.contains(keep_pos(s)[i]),
    decreases s.len(),
{
    if s.len() > 0 {
        lemma_keep_pos_members(s.drop_last());
        let r = keep_pos(s);
        let p = keep_pos(s.drop_last());
        assert forall|i: int| 0 <= i < r.len() implies (#[trigger] r[i]).key().spec_pos()
            && s.contains(r[i]) by {
            if i < p.len() {
                assert(r[i] == p[i]);
                let k = choose|k: int| 0 <= k < s.drop_last().len() && s.drop_last()[k] == p[i];
                assert(s[k] == r[i]);
            } else {
                assert(r[i] == s.last());
                assert(s[s.len() - 1] == r[i]);
            }
        }
    }
}

/// Every record that survives filtering, sorting and capping has a
/// strictly positive key: ranking only reorders and shortens the
/// filtered list, it never reintroduces a non-positive record.
pub proof fn lemma_ranking_keeps_positives<T: RankKey>(s: Seq<T>, top_n: Option<usize>)
    requires
        wf_keys(s),
    ensures
        forall|i: int|
            0 <= i < top_slice(sort_desc(keep_pos(s)), top_n).len() ==> (#[trigger] top_slice(
                sort_desc(keep_pos(s)),
                top_n,
            )[i]).key().spec_pos(),
{
    broadcast use vstd::seq_lib::group_to_multiset_ensures;

    lemma_keep_pos_members(s);
    lemma_keep_pos_wf(s);
    lemma_sort_desc_sorted(keep_pos(s));
    let kept = keep_pos(s);
    let sorted = sort_desc(kept);
    assert forall|i: int| 0 <= i < top_slice(sorted, top_n).len() implies (#[trigger] top_slice(
        sorted,
        top_n,
    )[i]).key().spec_pos() by {
        let x = top_slice(sorted, top_n)[i];
        assert(x == sorted[i]);
        assert(sorted.contains(x));
        assert(sorted.to_multiset().count(x) > 0);
        assert(kept.to_multiset().count(x) > 0);
        assert(kept.contains(x));
        let k = choose|k: int| 0 <= k < kept.len() && kept[k] == x;
        assert(kept[k].key().spec_pos());
    }
}

/// A prefix of a descending sequence is descending.
pub proof fn lemma_top_slice_sorted<T: RankKey>(s: Seq<T>, top_n: Option<usize>)
    requires
        sorted_desc(s),
    ensures
        sorted_desc(top_slice(s, top_n)),
{
    match top_n {
        Some(n) => {
            if n <= s.len() {
                let t = s.take(n as int);
                assert forall|i: int, j: int| 0 <= i <= j < t.len() implies (#[trigger] t[
                    i
                ]).key().spec_ge((#[trigger] t[j]).key()) by {
                    assert(t[i] == s[i]);
                    assert(t[j] == s[j]);
                }
            }
        },
        None => {},
    }
}

/// Two sequences with equal multisets have well-formed keys together.
proof fn lemma_to_multiset_wf_keys<T: RankKey>(a: Seq<T>, b: Seq<T>)
    requires
        wf_keys(a),
        a.to_multiset() == b.to_multiset(),
    ensures
        wf_keys(b),
{
    broadcast use vstd::seq_lib::group_to_multiset_ensures;

    assert forall|i: int| 0 <= i < b.len() implies (#[trigger] b[i]).key().wf() by {
        assert(b.to_multiset().count(b[i]) > 0);
        assert(a.to_multiset().count(b[i]) > 0);
        assert(a.contains(b[i]));
        let k = choose|k: int| 0 <= k < a.len() && a[k] == b[i];
        assert(a[k].key().wf());
    }
}

} // verus!
