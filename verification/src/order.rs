//! The row orderer: rearranges extracted rows so that rows whose
//! label stands in the caller's preference list come first, in the
//! list's order, and everything else follows in discovery order.
//! Nothing is added or removed.
use crate::config::ConfigStore;
use crate::data::{Row, RowModel, rows_bounded, rows_model};
use vstd::prelude::*;
use vstd::seq_lib::lemma_multiset_commutative;

verus! {

/// The preference rank of a label: the position of the first entry
/// of `prefs` equal to it, or `prefs.len()` when none is.
pub open spec fn spec_key(prefs: Seq<Seq<char>>, label: Seq<char>) -> int
    decreases prefs.len(),
{
    if prefs.len() == 0 {
        0
    } else if prefs[0] == label {
        0
    } else {
        1 + spec_key(prefs.skip(1), label)
    }
}

/// The rank is at most `prefs.len()`; a rank below it names an equal
/// entry, the rank `prefs.len()` says no entry is equal, and entries
/// before the rank differ from the label.
pub proof fn lemma_key_props(prefs: Seq<Seq<char>>, label: Seq<char>)
    ensures
        0 <= spec_key(prefs, label) <= prefs.len(),
        spec_key(prefs, label) < prefs.len() ==> prefs[spec_key(prefs, label)] == label,
        forall|k: int| 0 <= k < spec_key(prefs, label) ==> prefs[k] != label,
    decreases prefs.len(),
{
    if prefs.len() > 0 && prefs[0] != label {
        lemma_key_props(prefs.skip(1), label);
        assert forall|k: int| 0 <= k < spec_key(prefs, label) implies prefs[k] != label by {
            if k > 0 {
                assert(prefs.skip(1)[k - 1] == prefs[k]);
            }
        }
    }
}

/// The test for one preference rank, as a function value.
pub open spec fn key_pred(prefs: Seq<Seq<char>>, k: int) -> spec_fn(RowModel) -> bool {
    |r: RowModel| spec_key(prefs, r.label) == k
}

/// The rows of rank `k`, in their input order.
pub open spec fn sort_bucket(rows: Seq<RowModel>, prefs: Seq<Seq<char>>, k: int) -> Seq<
    RowModel,
> {
    rows.filter(key_pred(prefs, k))
}

/// The buckets of ranks below `k`, in rank order.
pub open spec fn spec_sort_upto(rows: Seq<RowModel>, prefs: Seq<Seq<char>>, k: nat) -> Seq<
    RowModel,
>
    decreases k,
{
    if k == 0 {
        Seq::empty()
    } else {
        spec_sort_upto(rows, prefs, (k - 1) as nat) + sort_bucket(rows, prefs, k - 1)
    }
}

/// The ordered rows: the buckets of every preference rank, then the
/// rows that match no preference, each bucket in input order.
pub open spec fn spec_sort(rows: Seq<RowModel>, prefs: Seq<Seq<char>>) -> Seq<RowModel> {
    spec_sort_upto(rows, prefs, prefs.len()) + sort_bucket(rows, prefs, prefs.len() as int)
}

/// A filtered sequence whose every element satisfies the test is the
/// sequence itself.
proof fn lemma_filter_all_pos<A>(s: Seq<A>, pred: spec_fn(A) -> bool)
    requires
        forall|i: int| 0 <= i < s.len() ==> pred(#[trigger] s[i]),
    ensures
        s.filter(pred) == s,
    decreases s.len(),
{
    reveal(Seq::filter);
    if s.len() > 0 {
        assert(forall|i: int|
            0 <= i < s.drop_last().len() ==> pred(#[trigger] s.drop_last()[i]));
        lemma_filter_all_pos(s.drop_last(), pred);
        assert(s.drop_last().push(s.last()) =~= s);
    }
}

/// A filtered sequence whose no element satisfies the test is empty.
proof fn lemma_filter_all_neg<A>(s: Seq<A>, pred: spec_fn(A) -> bool)
    requires
        forall|i: int| 0 <= i < s.len() ==> !pred(#[trigger] s[i]),
    ensures
        s.filter(pred) == Seq::<A>::empty(),
    decreases s.len(),
{
    reveal(Seq::filter);
    if s.len() > 0 {
        assert(forall|i: int|
            0 <= i < s.drop_last().len() ==> !pred(#[trigger] s.drop_last()[i]));
        lemma_filter_all_neg(s.drop_last(), pred);
    }
}

/// Every element of a filtered sequence satisfies the test, and the
/// filter of a filter collapses.
proof fn lemma_filter_of_bucket(rows: Seq<RowModel>, prefs: Seq<Seq<char>>, j: int, k: int)
    ensures
        sort_bucket(rows, prefs, j).filter(key_pred(prefs, k)) == if j == k {
            sort_bucket(rows, prefs, k)
        } else {
            Seq::<RowModel>::empty()
        },
{
    let b = sort_bucket(rows, prefs, j);
    assert(forall|i: int| 0 <= i < b.len() ==> key_pred(prefs, j)(#[trigger] b[i])) by {
        assert forall|i: int| 0 <= i < b.len() implies key_pred(prefs, j)(#[trigger] b[i]) by {
            rows.lemma_filter_pred(key_pred(prefs, j), i);
        }
    }
    if j == k {
        assert(forall|i: int| 0 <= i < b.len() ==> key_pred(prefs, k)(#[trigger] b[i]));
        lemma_filter_all_pos(b, key_pred(prefs, k));
    } else {
        assert(forall|i: int| 0 <= i < b.len() ==> !key_pred(prefs, k)(#[trigger] b[i]));
        lemma_filter_all_neg(b, key_pred(prefs, k));
    }
}

/// Filtering the ordered output by one rank gives exactly the input
/// rows of that rank, in input order: the orderer is stable.
pub proof fn lemma_sort_stable(rows: Seq<RowModel>, prefs: Seq<Seq<char>>, k: int)
    requires
        0 <= k <= prefs.len(),
    ensures
        spec_sort(rows, prefs).filter(key_pred(prefs, k)) == sort_bucket(rows, prefs, k),
{
    lemma_upto_filter(rows, prefs, prefs.len(), k);
    Seq::filter_distributes_over_add(
        spec_sort_upto(rows, prefs, prefs.len()),
        sort_bucket(rows, prefs, prefs.len() as int),
        key_pred(prefs, k),
    );
    lemma_filter_of_bucket(rows, prefs, prefs.len() as int, k);
    if k < prefs.len() {
        assert(spec_sort(rows, prefs).filter(key_pred(prefs, k)) =~= sort_bucket(rows, prefs, k));
    } else {
        assert(spec_sort(rows, prefs).filter(key_pred(prefs, k)) =~= sort_bucket(rows, prefs, k));
    }
}

/// Filtering the first `m` buckets by rank `k` gives the bucket of
/// `k` when `k < m`, and nothing otherwise.
proof fn lemma_upto_filter(rows: Seq<RowModel>, prefs: Seq<Seq<char>>, m: nat, k: int)
    ensures
        spec_sort_upto(rows, prefs, m).filter(key_pred(prefs, k)) == if 0 <= k < m {
            sort_bucket(rows, prefs, k)
        } else {
            Seq::<RowModel>::empty()
        },
    decreases m,
{
    reveal(Seq::filter);
    if m == 0 {
    } else {
        lemma_upto_filter(rows, prefs, (m - 1) as nat, k);
        Seq::filter_distributes_over_add(
            spec_sort_upto(rows, prefs, (m - 1) as nat),
            sort_bucket(rows, prefs, m - 1),
            key_pred(prefs, k),
        );
        lemma_filter_of_bucket(rows, prefs, m - 1, k);
        if 0 <= k < m {
            assert(spec_sort_upto(rows, prefs, m).filter(key_pred(prefs, k)) =~= sort_bucket(
                rows,
                prefs,
                k,
            ));
        } else {
            assert(spec_sort_upto(rows, prefs, m).filter(key_pred(prefs, k))
                =~= Seq::<RowModel>::empty());
        }
    }
}

/// The first `m` buckets of `rows.push(x)`, as a multiset: those of
/// `rows` plus `x` if its rank is below `m`.
proof fn lemma_upto_push(rows: Seq<RowModel>, x: RowModel, prefs: Seq<Seq<char>>, m: nat)
    ensures
        spec_sort_upto(rows.push(x), prefs, m).to_multiset() == if 0 <= spec_key(prefs, x.label)
            < m {
            spec_sort_upto(rows, prefs, m).to_multiset().insert(x)
        } else {
            spec_sort_upto(rows, prefs, m).to_multiset()
        },
    decreases m,
{
    broadcast use vstd::seq_lib::group_seq_properties;

    reveal(Seq::filter);
    if m == 0 {
        assert(spec_sort_upto(rows.push(x), prefs, 0).to_multiset() =~= spec_sort_upto(
            rows,
            prefs,
            0,
        ).to_multiset());
    } else {
        lemma_upto_push(rows, x, prefs, (m - 1) as nat);
        let a1 = spec_sort_upto(rows.push(x), prefs, (m - 1) as nat);
        let b1 = sort_bucket(rows.push(x), prefs, m - 1);
        let a0 = spec_sort_upto(rows, prefs, (m - 1) as nat);
        let b0 = sort_bucket(rows, prefs, m - 1);
        lemma_multiset_commutative(a1, b1);
        lemma_multiset_commutative(a0, b0);
        assert(rows.push(x).drop_last() =~= rows);
        assert(rows.push(x).last() == x);
        if key_pred(prefs, m - 1)(x) {
            assert(b1 == b0.push(x));
            b0.to_multiset_ensures();
        } else {
            assert(b1 == b0);
        }
        assert(spec_sort_upto(rows.push(x), prefs, m).to_multiset() == a1.to_multiset().add(
            b1.to_multiset(),
        ));
    }
}

/// Ordering the rows neither adds nor removes any: the output is a
/// permutation of the input.
pub proof fn lemma_sort_permutes(rows: Seq<RowModel>, prefs: Seq<Seq<char>>)
    ensures
        spec_sort(rows, prefs).to_multiset() == rows.to_multiset(),
    decreases rows.len(),
{
    broadcast use vstd::seq_lib::group_seq_properties;

    reveal(Seq::filter);
    let kall = prefs.len() as int;
    if rows.len() == 0 {
        lemma_filter_all_neg(rows, key_pred(prefs, kall));
        assert(spec_sort_upto(rows, prefs, prefs.len()).to_multiset() =~= rows.to_multiset()) by {
            lemma_upto_empty(rows, prefs, prefs.len());
            assert(rows.to_multiset() =~= Seq::<RowModel>::empty().to_multiset());
        }
        lemma_multiset_commutative(
            spec_sort_upto(rows, prefs, prefs.len()),
            sort_bucket(rows, prefs, kall),
        );
        assert(sort_bucket(rows, prefs, kall).to_multiset() =~= Seq::<RowModel>::empty().to_multiset());
        assert(spec_sort(rows, prefs).to_multiset() =~= rows.to_multiset());
    } else {
        let rows0 = rows.drop_last();
        let x = rows.last();
        assert(rows0.push(x) =~= rows);
        lemma_sort_permutes(rows0, prefs);
        lemma_key_props(prefs, x.label);
        let kx = spec_key(prefs, x.label);
        lemma_upto_push(rows0, x, prefs, prefs.len());
        let a1 = spec_sort_upto(rows, prefs, prefs.len());
        let b1 = sort_bucket(rows, prefs, kall);
        let a0 = spec_sort_upto(rows0, prefs, prefs.len());
        let b0 = sort_bucket(rows0, prefs, kall);
        lemma_multiset_commutative(a1, b1);
        lemma_multiset_commutative(a0, b0);
        assert(rows.drop_last() =~= rows0);
        if kx == kall {
            assert(b1 == b0.push(x));
            b0.to_multiset_ensures();
        } else {
            assert(b1 == b0);
        }
        rows0.to_multiset_ensures();
        assert(rows.to_multiset() =~= rows0.to_multiset().insert(x));
        assert(spec_sort(rows, prefs).to_multiset() =~= rows.to_multiset());
    }
}

proof fn lemma_upto_empty(rows: Seq<RowModel>, prefs: Seq<Seq<char>>, m: nat)
    requires
        rows.len() == 0,
    ensures
        spec_sort_upto(rows, prefs, m).len() == 0,
    decreases m,
{
    reveal(Seq::filter);
    if m > 0 {
        lemma_upto_empty(rows, prefs, (m - 1) as nat);
    }
}

/// Every row of the first `m` buckets has rank below `m`, and ranks
/// never fall from left to right.
proof fn lemma_upto_sorted(rows: Seq<RowModel>, prefs: Seq<Seq<char>>, m: nat)
    ensures
        forall|i: int|
            0 <= i < spec_sort_upto(rows, prefs, m).len() ==> 0 <= spec_key(
                prefs,
                (#[trigger] spec_sort_upto(rows, prefs, m)[i]).label,
            ) < m,
        forall|i: int, j: int|
            0 <= i <= j < spec_sort_upto(rows, prefs, m).len() ==> spec_key(
                prefs,
                (#[trigger] spec_sort_upto(rows, prefs, m)[i]).label,
            ) <= spec_key(prefs, (#[trigger] spec_sort_upto(rows, prefs, m)[j]).label),
    decreases m,
{
    if m > 0 {
        lemma_upto_sorted(rows, prefs, (m - 1) as nat);
        let a = spec_sort_upto(rows, prefs, (m - 1) as nat);
        let b = sort_bucket(rows, prefs, m - 1);
        assert(forall|i: int|
            0 <= i < b.len() ==> spec_key(prefs, (#[trigger] b[i]).label) == m - 1) by {
            assert forall|i: int|
                0 <= i < b.len() implies spec_key(prefs, (#[trigger] b[i]).label) == m - 1 by {
                rows.lemma_filter_pred(key_pred(prefs, m - 1), i);
            }
        }
        assert(forall|i: int|
            0 <= i < spec_sort_upto(rows, prefs, m).len() ==> #[trigger] spec_sort_upto(
                rows,
                prefs,
                m,
            )[i] == if i < a.len() {
                a[i]
            } else {
                b[i - a.len()]
            });
    }
}

/// Rows whose label has a lower preference rank stand earlier in the
/// ordered output; unmatched rows, of rank `prefs.len()`, stand last.
pub proof fn lemma_sort_key_order(rows: Seq<RowModel>, prefs: Seq<Seq<char>>)
    ensures
        forall|i: int, j: int|
            0 <= i <= j < spec_sort(rows, prefs).len() ==> spec_key(
                prefs,
                (#[trigger] spec_sort(rows, prefs)[i]).label,
            ) <= spec_key(prefs, (#[trigger] spec_sort(rows, prefs)[j]).label),
{
    let kall = prefs.len() as int;
    let a = spec_sort_upto(rows, prefs, prefs.len());
    let b = sort_bucket(rows, prefs, kall);
    lemma_upto_sorted(rows, prefs, prefs.len());
    assert(forall|i: int|
        0 <= i < b.len() ==> spec_key(prefs, (#[trigger] b[i]).label) == kall) by {
        assert forall|i: int|
            0 <= i < b.len() implies spec_key(prefs, (#[trigger] b[i]).label) == kall by {
            rows.lemma_filter_pred(key_pred(prefs, kall), i);
        }
    }
    assert(forall|i: int|
        0 <= i < spec_sort(rows, prefs).len() ==> #[trigger] spec_sort(rows, prefs)[i] == if i
            < a.len() {
            a[i]
        } else {
            b[i - a.len()]
        });
}

/// Ordering an already ordered sequence changes nothing: the orderer
/// is idempotent.
pub proof fn lemma_sort_idempotent(rows: Seq<RowModel>, prefs: Seq<Seq<char>>)
    ensures
        spec_sort(spec_sort(rows, prefs), prefs) == spec_sort(rows, prefs),
{
    let out = spec_sort(rows, prefs);
    assert forall|m: nat| m <= prefs.len() implies spec_sort_upto(out, prefs, m) == spec_sort_upto(
        rows,
        prefs,
        m,
    ) by {
        lemma_upto_same(rows, prefs, m);
    }
    lemma_sort_stable(rows, prefs, prefs.len() as int);
    assert(spec_sort(out, prefs) == spec_sort_upto(out, prefs, prefs.len()) + sort_bucket(
        out,
        prefs,
        prefs.len() as int,
    ));
}

proof fn lemma_upto_same(rows: Seq<RowModel>, prefs: Seq<Seq<char>>, m: nat)
    requires
        m <= prefs.len(),
    ensures
        spec_sort_upto(spec_sort(rows, prefs), prefs, m) == spec_sort_upto(rows, prefs, m),
    decreases m,
{
    if m > 0 {
        lemma_upto_same(rows, prefs, (m - 1) as nat);
        lemma_sort_stable(rows, prefs, m - 1);
    }
}


/// Ordering keeps every value within the parser's bounds: the output
/// rows are the input rows.
pub proof fn lemma_sort_bounded(rows: Seq<RowModel>, prefs: Seq<Seq<char>>)
    requires
        rows_bounded(rows),
    ensures
        rows_bounded(spec_sort(rows, prefs)),
{
    let out = spec_sort(rows, prefs);
    lemma_sort_permutes(rows, prefs);
    assert forall|i: int|
        0 <= i < out.len() implies crate::decimal::val_bounded(
        (#[trigger] out[i]).value,
        18,
        18,
    ) by {
        let e = out[i];
        assert(out.contains(e));
        out.to_multiset_ensures();
        rows.to_multiset_ensures();
        assert(rows.to_multiset().count(e) > 0);
        assert(rows.contains(e));
        let j = choose|j: int| 0 <= j < rows.len() && rows[j] == e;
        assert(val_bounded_row(rows, j));
    }
}

spec fn val_bounded_row(rows: Seq<RowModel>, j: int) -> bool {
    0 <= j < rows.len() && crate::decimal::val_bounded(rows[j].value, 18, 18)
}

/// Reorders the rows by the configured preference list: rows whose
/// label stands in the list come first, in the list's order, rows of
/// one label in their input order, and all unmatched rows after them,
/// in their input order.  No row is added, dropped or changed.
#[verifier::loop_isolation(false)]
pub fn sort_row_data(row_data: Vec<Row>, config: &ConfigStore) -> (r: Vec<Row>)
    ensures
        rows_model(r@) == spec_sort(rows_model(row_data@), config.row_order_preference.deep_view()),
{
    proof {
        reveal(Seq::filter);
    }
    let ghost rows = rows_model(row_data@);
    let ghost prefs = config.row_order_preference.deep_view();
    let n = row_data.len();
    let mut out: Vec<Row> = Vec::new();
    let mut taken: Vec<bool> = Vec::new();
    let mut t: usize = 0;
    while t < n
        invariant
            t <= n,
            taken@.len() == t,
            forall|i: int| 0 <= i < t ==> !taken@[i],
        decreases n - t,
    {
        taken.push(false);
        t = t + 1;
    }
    proof {
        assert forall|i: int| 0 <= i < n implies spec_key(prefs, rows[i].label) >= 0 by {
            lemma_key_props(prefs, rows[i].label);
        }
        assert(rows_model(out@) =~= spec_sort_upto(rows, prefs, 0));
    }
    let mut k: usize = 0;
    while k < config.row_order_preference.len()
        invariant
            n == row_data@.len(),
            rows == rows_model(row_data@),
            prefs == config.row_order_preference.deep_view(),
            k <= prefs.len(),
            taken@.len() == n,
            forall|i: int|
                0 <= i < n ==> #[trigger] taken@[i] == (spec_key(prefs, rows[i].label) < k),
            rows_model(out@) == spec_sort_upto(rows, prefs, k as nat),
        decreases prefs.len() - k,
    {
        let ghost pk = key_pred(prefs, k as int);
        let mut i: usize = 0;
        proof {
            assert(rows.take(0) =~= Seq::<RowModel>::empty());
            assert(rows_model(out@) + rows.take(0).filter(pk) =~= rows_model(out@));
        }
        while i < n
            invariant
                n == row_data@.len(),
                rows == rows_model(row_data@),
                prefs == config.row_order_preference.deep_view(),
                k < prefs.len(),
                pk == key_pred(prefs, k as int),
                i <= n,
                taken@.len() == n,
                forall|j: int|
                    0 <= j < i ==> #[trigger] taken@[j] == (spec_key(prefs, rows[j].label) <= k),
                forall|j: int|
                    i <= j < n ==> #[trigger] taken@[j] == (spec_key(prefs, rows[j].label) < k),
                rows_model(out@) == spec_sort_upto(rows, prefs, k as nat) + rows.take(
                    i as int,
                ).filter(pk),
            decreases n - i,
        {
            let ghost prev_out = rows_model(out@);
            let ghost prev_taken = taken@;
            proof {
                assert(rows.take(i + 1).drop_last() =~= rows.take(i as int));
                assert(rows.take(i + 1).last() == rows[i as int]);
                lemma_key_props(prefs, rows[i as int].label);
            }
            let matches_pref = crate::text::str_eq(
                row_data[i].header.as_str(),
                config.row_order_preference[k].as_str(),
            );
            if matches_pref && !taken[i] {
                out.push(row_data[i].clone());
                taken.set(i, true);
                proof {
                    assert(spec_key(prefs, rows[i as int].label) == k) by {
                        assert(prefs[k as int] == rows[i as int].label);
                        assert(!(spec_key(prefs, rows[i as int].label) < k));
                        lemma_key_props(prefs, rows[i as int].label);
                    }
                    assert(rows_model(out@) =~= prev_out.push(rows[i as int]));
                    assert(rows.take(i + 1).filter(pk) == rows.take(i as int).filter(pk).push(
                        rows[i as int],
                    ));
                    assert(rows_model(out@) =~= spec_sort_upto(rows, prefs, k as nat) + rows.take(
                        i + 1,
                    ).filter(pk));
                }
            } else {
                proof {
                    assert(!pk(rows[i as int])) by {
                        if matches_pref {
                            assert(spec_key(prefs, rows[i as int].label) < k);
                        } else {
                            assert(prefs[k as int] != rows[i as int].label);
                            if spec_key(prefs, rows[i as int].label) == k {
                                lemma_key_props(prefs, rows[i as int].label);
                            }
                        }
                    }
                    assert(rows.take(i + 1).filter(pk) == rows.take(i as int).filter(pk));
                }
            }
            i = i + 1;
        }
        proof {
            assert(rows.take(n as int) =~= rows);
            assert(rows_model(out@) == spec_sort_upto(rows, prefs, (k + 1) as nat));
        }
        k = k + 1;
    }
    // the unmatched rows, in their input order
    let ghost pall = key_pred(prefs, prefs.len() as int);
    let mut i: usize = 0;
    proof {
        assert(rows.take(0) =~= Seq::<RowModel>::empty());
        assert(rows_model(out@) + rows.take(0).filter(pall) =~= rows_model(out@));
    }
    while i < n
        invariant
            n == row_data@.len(),
            rows == rows_model(row_data@),
            prefs == config.row_order_preference.deep_view(),
            pall == key_pred(prefs, prefs.len() as int),
            i <= n,
            taken@.len() == n,
            forall|j: int|
                0 <= j < n ==> #[trigger] taken@[j] == (spec_key(prefs, rows[j].label)
                    < prefs.len()),
            rows_model(out@) == spec_sort_upto(rows, prefs, prefs.len()) + rows.take(
                i as int,
            ).filter(pall),
        decreases n - i,
    {
        let ghost prev_out = rows_model(out@);
        proof {
            assert(rows.take(i + 1).drop_last() =~= rows.take(i as int));
            assert(rows.take(i + 1).last() == rows[i as int]);
            lemma_key_props(prefs, rows[i as int].label);
        }
        if !taken[i] {
            out.push(row_data[i].clone());
            proof {
                assert(pall(rows[i as int]));
                assert(rows_model(out@) =~= prev_out.push(rows[i as int]));
                assert(rows.take(i + 1).filter(pall) == rows.take(i as int).filter(pall).push(
                    rows[i as int],
                ));
                assert(rows_model(out@) =~= spec_sort_upto(rows, prefs, prefs.len()) + rows.take(
                    i + 1,
                ).filter(pall));
            }
        } else {
            proof {
                assert(!pall(rows[i as int]));
                assert(rows.take(i + 1).filter(pall) == rows.take(i as int).filter(pall));
            }
        }
        i = i + 1;
    }
    proof {
        assert(rows.take(n as int) =~= rows);
    }
    out
}

} // verus!
