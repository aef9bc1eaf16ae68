//! The environment-path primitives: splitting a PATH-like byte string into
//! its ordered entries, purging chosen entries, and rejoining.
//!
//! A PATH-like value is a list of directory entries joined by a single
//! separator byte. Splitting an empty value yields one empty entry, and an
//! entry holding the separator cannot be rejoined: both mirror how the
//! platform's own search-path routines behave.

use vstd::prelude::*;

verus! {

/// The search-path separator byte, ASCII `:`.
pub const SEP: u8 = 58;

/// The views of a list of byte-string entries.
pub open spec fn entry_views(es: Seq<Vec<u8>>) -> Seq<Seq<u8>> {
    es.map_values(|e: Vec<u8>| e@)
}

/// The length of the first entry of `s`: the number of bytes before the
/// first separator, or all of `s` when it holds none.
pub open spec fn entry_len(s: Seq<u8>) -> int
    decreases s.len(),
{
    if s.len() == 0 || s[0] == SEP {
        0
    } else {
        1 + entry_len(s.drop_first())
    }
}

/// The ordered entries of a PATH-like byte string: the (possibly empty)
/// runs of bytes between separators. A string of `n` separators splits
/// into `n + 1` entries; in particular an empty string has one empty entry.
pub open spec fn spec_split(s: Seq<u8>) -> Seq<Seq<u8>>
    decreases s.len(),
{
    let k = entry_len(s);
    if 0 <= k < s.len() {
        seq![s.take(k)] + spec_split(s.skip(k + 1))
    } else {
        seq![s]
    }
}

/// The entries joined by single separators, the inverse direction of
/// [`spec_split`] for separator-free entries.
pub open spec fn spec_join(es: Seq<Seq<u8>>) -> Seq<u8>
    decreases es.len(),
{
    if es.len() == 0 {
        seq![]
    } else if es.len() == 1 {
        es[0]
    } else {
        es[0] + seq![SEP] + spec_join(es.drop_first())
    }
}

/// Holds when no entry of `es` contains the separator, the condition under
/// which the entries can be rejoined into a PATH-like string.
pub open spec fn all_joinable(es: Seq<Seq<u8>>) -> bool {
    forall|i: int| 0 <= i < es.len() ==> !(#[trigger] es[i]).contains(SEP)
}

/// Holds of the entries that survive a purge: those not listed in `purge`.
pub open spec fn keep_pred(purge: Seq<Seq<u8>>) -> spec_fn(Seq<u8>) -> bool {
    |e: Seq<u8>| !purge.contains(e)
}

/// The entries of `es` that are not listed in `purge`, in their original
/// order.
pub open spec fn spec_purge(es: Seq<Seq<u8>>, purge: Seq<Seq<u8>>) -> Seq<Seq<u8>> {
    es.filter(keep_pred(purge))
}

/// `entry_len` names the position of the first separator: it is the unique
/// `k` with no separator before it and one at it (or the string's end).
proof fn lemma_entry_len_is(s: Seq<u8>, k: int)
    requires
        0 <= k <= s.len(),
        forall|j: int| 0 <= j < k ==> s[j] != SEP,
        k < s.len() ==> s[k] == SEP,
    ensures
        entry_len(s) == k,
    decreases s.len(),
{
    if k == 0 {
    } else {
        assert(s[0] != SEP);
        assert forall|j: int| 0 <= j < k - 1 implies s.drop_first()[j] != SEP by {
            assert(s.drop_first()[j] == s[j + 1]);
        }
        lemma_entry_len_is(s.drop_first(), k - 1);
    }
}

/// The first entry runs up to the first separator: no separator stands
/// before `entry_len`, and one stands at it unless the string ends there.
proof fn lemma_entry_len_char(s: Seq<u8>)
    ensures
        0 <= entry_len(s) <= s.len(),
        entry_len(s) < s.len() ==> s[entry_len(s)] == SEP,
        forall|j: int| 0 <= j < entry_len(s) ==> s[j] != SEP,
    decreases s.len(),
{
    if s.len() == 0 || s[0] == SEP {
    } else {
        lemma_entry_len_char(s.drop_first());
        assert forall|j: int| 0 <= j < entry_len(s) implies s[j] != SEP by {
            if j > 0 {
                assert(s.drop_first()[j - 1] == s[j]);
            }
        }
    }
}

/// A split has at least one entry.
proof fn lemma_split_nonempty(s: Seq<u8>)
    ensures
        spec_split(s).len() >= 1,
{
}

/// No entry of a split holds the separator: whatever the value, its split
/// can always be rejoined.
pub proof fn lemma_split_joinable(s: Seq<u8>)
    ensures
        all_joinable(spec_split(s)),
    decreases s.len(),
{
    let k = entry_len(s);
    lemma_entry_len_char(s);
    if k < s.len() {
        lemma_split_joinable(s.skip(k + 1));
        assert forall|i: int| 0 <= i < spec_split(s).len() implies !(#[trigger] spec_split(
            s,
        )[i]).contains(SEP) by {
            if i == 0 {
                if s.take(k).contains(SEP) {
                    let j = choose|j: int| 0 <= j < k && s.take(k)[j] == SEP;
                    assert(s[j] == SEP);
                }
            } else {
                assert(spec_split(s)[i] == spec_split(s.skip(k + 1))[i - 1]);
            }
        }
    } else {
        if s.contains(SEP) {
            let j = choose|j: int| 0 <= j < s.len() && s[j] == SEP;
            assert(s[j] != SEP);
        }
    }
}

/// Every survivor of a purge stood in the original list.
pub proof fn lemma_purge_subset(es: Seq<Seq<u8>>, purge: Seq<Seq<u8>>)
    ensures
        forall|i: int|
            0 <= i < spec_purge(es, purge).len() ==> es.contains(
                #[trigger] spec_purge(es, purge)[i],
            ),
    decreases es.len(),
{
    reveal_with_fuel(Seq::filter, 2);
    if es.len() > 0 {
        lemma_purge_subset(es.drop_last(), purge);
        let prev = spec_purge(es.drop_last(), purge);
        assert forall|i: int| 0 <= i < spec_purge(es, purge).len() implies es.contains(
            #[trigger] spec_purge(es, purge)[i],
        ) by {
            if i < prev.len() {
                assert(es.drop_last().contains(prev[i]));
                let j = choose|j: int|
                    0 <= j < es.drop_last().len() && es.drop_last()[j] == prev[i];
                assert(es[j] == prev[i]);
            } else {
                assert(spec_purge(es, purge)[i] == es.last());
            }
        }
    }
}

/// Splitting never loses a byte: rejoining the split of any PATH-like
/// value gives the value back.
pub proof fn lemma_join_split_inverse(s: Seq<u8>)
    ensures
        spec_join(spec_split(s)) == s,
    decreases s.len(),
{
    let k = entry_len(s);
    lemma_entry_len_char(s);
    if k < s.len() {
        lemma_join_split_inverse(s.skip(k + 1));
        lemma_split_nonempty(s.skip(k + 1));
        let rest = spec_split(s.skip(k + 1));
        let whole = seq![s.take(k)] + rest;
        assert(whole[0] == s.take(k));
        assert(whole.drop_first() =~= rest);
        assert(s.take(k) + seq![SEP] + s.skip(k + 1) =~= s);
    }
}

/// Copies `s[a..b]` into a fresh byte vector.
fn subvec(s: &Vec<u8>, a: usize, b: usize) -> (r: Vec<u8>)
    requires
        a <= b <= s.len(),
    ensures
        r@ == s@.subrange(a as int, b as int),
{
    let mut r: Vec<u8> = Vec::new();
    let mut i: usize = a;
    while i < b
        invariant
            a <= i <= b <= s.len(),
            r@ == s@.subrange(a as int, i as int),
        decreases b - i,
    {
        r.push(s[i]);
        i = i + 1;
        assert(r@ =~= s@.subrange(a as int, i as int));
    }
    r
}

/// Splits a PATH-like byte string into its ordered entries, duplicates and
/// empty entries preserved.
pub fn split_entries(s: &Vec<u8>) -> (r: Vec<Vec<u8>>)
    ensures
        entry_views(r@) == spec_split(s@),
{
    let mut r: Vec<Vec<u8>> = Vec::new();
    let mut start: usize = 0;
    let mut i: usize = 0;
    proof {
        assert(s@.skip(0) =~= s@);
        assert(entry_views(r@) + spec_split(s@) =~= spec_split(s@));
    }
    while i < s.len()
        invariant
            start <= i <= s.len(),
            forall|j: int| start <= j < i ==> s@[j] != SEP,
            spec_split(s@) == entry_views(r@) + spec_split(s@.skip(start as int)),
        decreases s.len() - i,
    {
        if s[i] == SEP {
            let e = subvec(s, start, i);
            proof {
                let suf = s@.skip(start as int);
                assert forall|j: int| 0 <= j < i - start implies suf[j] != SEP by {
                    assert(suf[j] == s@[start + j]);
                }
                assert(suf[i - start] == s@[i as int]);
                lemma_entry_len_is(suf, i - start);
                assert(suf.take(i - start) =~= e@);
                assert(suf.skip(i - start + 1) =~= s@.skip(i as int + 1));
                assert(entry_views(r@.push(e)) =~= entry_views(r@).push(e@));
                assert(spec_split(s@) =~= entry_views(r@.push(e)) + spec_split(
                    s@.skip(i as int + 1),
                ));
            }
            r.push(e);
            start = i + 1;
        }
        i = i + 1;
    }
    let e = subvec(s, start, s.len());
    proof {
        let suf = s@.skip(start as int);
        assert forall|j: int| 0 <= j < suf.len() implies suf[j] != SEP by {
            assert(suf[j] == s@[start + j]);
        }
        lemma_entry_len_is(suf, suf.len() as int);
        assert(spec_split(suf) == seq![suf]);
        assert(suf =~= e@);
        assert(entry_views(r@.push(e)) =~= entry_views(r@).push(e@));
        assert(spec_split(s@) =~= entry_views(r@.push(e)));
    }
    r.push(e);
    r
}

/// Appending one entry to a purge extends the kept remainder by that entry
/// exactly when it is not purged.
proof fn lemma_purge_push(es: Seq<Seq<u8>>, e: Seq<u8>, purge: Seq<Seq<u8>>)
    ensures
        spec_purge(es.push(e), purge) == (if purge.contains(e) {
            spec_purge(es, purge)
        } else {
            spec_purge(es, purge).push(e)
        }),
{
    reveal_with_fuel(Seq::filter, 2);
    assert(es.push(e).drop_last() =~= es);
    assert(es.push(e).last() == e);
}

/// A purge removes what it should: no purged entry survives it.
pub proof fn lemma_purge_removes(es: Seq<Seq<u8>>, purge: Seq<Seq<u8>>)
    ensures
        forall|d: Seq<u8>| purge.contains(d) ==> !spec_purge(es, purge).contains(d),
{
    assert forall|d: Seq<u8>| purge.contains(d) implies !spec_purge(es, purge).contains(d) by {
        if spec_purge(es, purge).contains(d) {
            let i = choose|i: int|
                0 <= i < spec_purge(es, purge).len() && spec_purge(es, purge)[i] == d;
            es.lemma_filter_pred(keep_pred(purge), i);
        }
    }
}

/// A purge keeps what it should: every entry not listed in `purge`
/// survives it.
pub proof fn lemma_purge_keeps(es: Seq<Seq<u8>>, purge: Seq<Seq<u8>>)
    ensures
        forall|i: int|
            0 <= i < es.len() && !purge.contains(#[trigger] es[i]) ==> spec_purge(
                es,
                purge,
            ).contains(es[i]),
{
    assert forall|i: int|
        0 <= i < es.len() && !purge.contains(es[i]) implies spec_purge(es, purge).contains(
        es[i],
    ) by {
        es.lemma_filter_contains(keep_pred(purge), i);
    }
}

/// Holds when `m` lists, in strictly increasing order, a position in
/// `from` for each entry of `to`, holding that entry: `to` is then a
/// subsequence of `from`, in `from`'s own order.
pub open spec fn is_order_embedding(m: Seq<int>, from: Seq<Seq<u8>>, to: Seq<Seq<u8>>) -> bool {
    &&& m.len() == to.len()
    &&& forall|i: int| 0 <= i < m.len() ==> 0 <= #[trigger] m[i] < from.len() && from[m[i]] == to[i]
    &&& forall|i: int, j: int| 0 <= i < j < m.len() ==> m[i] < m[j]
}

/// The survivors of a purge keep their relative order: some strictly
/// increasing choice of positions in the original list yields exactly
/// them.
pub proof fn lemma_purge_keeps_order(es: Seq<Seq<u8>>, purge: Seq<Seq<u8>>)
    ensures
        exists|m: Seq<int>| is_order_embedding(m, es, spec_purge(es, purge)),
    decreases es.len(),
{
    reveal_with_fuel(Seq::filter, 2);
    let kept = spec_purge(es, purge);
    if es.len() == 0 {
        let m = Seq::<int>::empty();
        assert(is_order_embedding(m, es, kept));
    } else {
        lemma_purge_keeps_order(es.drop_last(), purge);
        let prev = spec_purge(es.drop_last(), purge);
        let m0 = choose|m: Seq<int>| is_order_embedding(m, es.drop_last(), prev);
        assert forall|i: int| 0 <= i < m0.len() implies 0 <= #[trigger] m0[i] < es.len()
            && es[m0[i]] == prev[i] by {
            assert(es[m0[i]] == es.drop_last()[m0[i]]);
        }
        if keep_pred(purge)(es.last()) {
            let m = m0.push(es.len() - 1);
            assert(kept == prev.push(es.last()));
            assert forall|i: int| 0 <= i < m.len() implies 0 <= #[trigger] m[i] < es.len()
                && es[m[i]] == kept[i] by {
                if i < m0.len() {
                    assert(m[i] == m0[i]);
                } else {
                    assert(m[i] == es.len() - 1);
                }
            }
            assert(is_order_embedding(m, es, kept));
        } else {
            assert(kept == prev);
            assert(is_order_embedding(m0, es, kept));
        }
    }
}

/// Tests whether `e` occurs in `list`, by byte-for-byte comparison.
fn contains_entry(list: &Vec<Vec<u8>>, e: &Vec<u8>) -> (r: bool)
    ensures
        r == entry_views(list@).contains(e@),
{
    let mut i: usize = 0;
    while i < list.len()
        invariant
            i <= list.len(),
            forall|j: int| 0 <= j < i ==> entry_views(list@)[j] != e@,
        decreases list.len() - i,
    {
        if &list[i] == e {
            proof {
                assert(entry_views(list@)[i as int] == e@);
            }
            return true;
        }
        proof {
            assert(list@[i as int]@ != e@);
        }
        i = i + 1;
    }
    proof {
        if entry_views(list@).contains(e@) {
            let j = choose|j: int| 0 <= j < entry_views(list@).len() && entry_views(list@)[j] == e@;
            assert(entry_views(list@)[j] != e@);
        }
    }
    false
}

/// Removes from `es` every entry that occurs in `purge`, keeping the
/// remaining entries in their original order.
pub fn purge_entries(es: Vec<Vec<u8>>, purge: &Vec<Vec<u8>>) -> (r: Vec<Vec<u8>>)
    ensures
        entry_views(r@) == spec_purge(entry_views(es@), entry_views(purge@)),
{
    let ghost full = entry_views(es@);
    let ghost p = entry_views(purge@);
    let mut r: Vec<Vec<u8>> = Vec::new();
    let mut i: usize = 0;
    proof {
        assert(full.take(0) =~= Seq::<Seq<u8>>::empty());
        assert(entry_views(r@) =~= spec_purge(full.take(0), p));
    }
    while i < es.len()
        invariant
            i <= es.len(),
            full == entry_views(es@),
            p == entry_views(purge@),
            entry_views(r@) == spec_purge(full.take(i as int), p),
        decreases es.len() - i,
    {
        let keep = !contains_entry(purge, &es[i]);
        proof {
            assert(full.take(i + 1) =~= full.take(i as int).push(full[i as int]));
            lemma_purge_push(full.take(i as int), full[i as int], p);
        }
        if keep {
            let e = es[i].clone();
            proof {
                assert(e@ =~= es@[i as int]@);
                assert(entry_views(r@.push(e)) =~= entry_views(r@).push(e@));
            }
            r.push(e);
        }
        i = i + 1;
    }
    proof {
        assert(full.take(es@.len() as int) =~= full);
    }
    r
}

/// Joining one further entry appends a separator and the entry, except to
/// an empty list.
proof fn lemma_join_push(es: Seq<Seq<u8>>, e: Seq<u8>)
    ensures
        spec_join(es.push(e)) == (if es.len() == 0 {
            e
        } else {
            spec_join(es) + seq![SEP] + e
        }),
    decreases es.len(),
{
    if es.len() == 0 {
        assert(es.push(e)[0] == e);
    } else {
        lemma_join_push(es.drop_first(), e);
        assert(es.push(e).drop_first() =~= es.drop_first().push(e));
        assert(es.push(e)[0] == es[0]);
        assert(spec_join(es.push(e)) =~= spec_join(es) + seq![SEP] + e);
    }
}

/// Scans `e` for the separator byte.
fn entry_has_sep(e: &Vec<u8>) -> (r: bool)
    ensures
        r == e@.contains(SEP),
{
    let mut i: usize = 0;
    while i < e.len()
        invariant
            i <= e.len(),
            forall|j: int| 0 <= j < i ==> e@[j] != SEP,
        decreases e.len() - i,
    {
        if e[i] == SEP {
            return true;
        }
        i = i + 1;
    }
    proof {
        if e@.contains(SEP) {
            let j = choose|j: int| 0 <= j < e@.len() && e@[j] == SEP;
            assert(e@[j] != SEP);
        }
    }
    false
}

/// Joins the entries into one PATH-like byte string with single separators
/// between them. An entry that itself holds the separator cannot be
/// represented; the first such entry is returned as the error.
pub fn join_entries(es: &Vec<Vec<u8>>) -> (r: Result<Vec<u8>, Vec<u8>>)
    ensures
        r is Ok <==> all_joinable(entry_views(es@)),
        r is Ok ==> r->Ok_0@ == spec_join(entry_views(es@)),
        r matches Err(e) ==> exists|i: int|
            0 <= i < entry_views(es@).len() && e@ == #[trigger] entry_views(es@)[i]
                && entry_views(es@)[i].contains(SEP) && (forall|j: int|
                0 <= j < i ==> !(#[trigger] entry_views(es@)[j]).contains(SEP)),
{
    let mut out: Vec<u8> = Vec::new();
    let mut i: usize = 0;
    proof {
        assert(entry_views(es@).take(0) =~= Seq::<Seq<u8>>::empty());
        assert(out@ =~= spec_join(entry_views(es@).take(0)));
    }
    while i < es.len()
        invariant
            i <= es.len(),
            out@ == spec_join(entry_views(es@).take(i as int)),
            forall|j: int| 0 <= j < i ==> !(#[trigger] entry_views(es@)[j]).contains(SEP),
        decreases es.len() - i,
    {
        if entry_has_sep(&es[i]) {
            let e = es[i].clone();
            proof {
                let views = entry_views(es@);
                assert(e@ =~= es@[i as int]@);
                assert(0 <= i < views.len() && e@ == views[i as int] && views[i as int].contains(
                    SEP,
                ) && (forall|j: int| 0 <= j < i ==> !(#[trigger] views[j]).contains(SEP)));
            }
            return Err(e);
        }
        if i > 0 {
            out.push(SEP);
        }
        let mut k: usize = 0;
        let ghost mid = out@;
        while k < es[i].len()
            invariant
                i < es.len(),
                k <= es@[i as int]@.len(),
                out@ == mid + es@[i as int]@.take(k as int),
            decreases es@[i as int]@.len() - k,
        {
            out.push(es[i][k]);
            k = k + 1;
            assert(out@ =~= mid + es@[i as int]@.take(k as int));
        }
        proof {
            let views = entry_views(es@);
            assert(views.take(i + 1) =~= views.take(i as int).push(views[i as int]));
            lemma_join_push(views.take(i as int), views[i as int]);
            assert(es@[i as int]@.take(es@[i as int]@.len() as int) =~= es@[i as int]@);
            assert(out@ =~= spec_join(views.take(i + 1)));
        }
        i = i + 1;
    }
    proof {
        assert(entry_views(es@).take(es@.len() as int) =~= entry_views(es@));
    }
    Ok(out)
}

} // verus!
