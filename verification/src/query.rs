//! Query-string parsing.
//!
//! A query string is a run of `key=value` pairs separated by `&` or `?`
//! (historical clients of this gateway used either, so both are accepted).
//! A pair must contain exactly one `=`; anything else is silently dropped,
//! never an error. On a repeated key the later value wins, stored at the
//! position of the key's first occurrence.

use vstd::prelude::*;
use vstd::string::*;

verus! {

/// The characters that separate `key=value` pairs.
pub open spec fn is_sep(c: char) -> bool {
    c == '&' || c == '?'
}

/// Index of the first separator in `s`, or `s.len()` if there is none.
pub open spec fn first_sep(s: Seq<char>) -> int
    decreases s.len(),
{
    if s.len() == 0 {
        0
    } else if is_sep(s[0]) {
        0
    } else {
        1 + first_sep(s.drop_first())
    }
}

/// How many `=` characters `s` holds.
pub open spec fn count_eq(s: Seq<char>) -> nat
    decreases s.len(),
{
    if s.len() == 0 {
        0
    } else if s[0] == '=' {
        1 + count_eq(s.drop_first())
    } else {
        count_eq(s.drop_first())
    }
}

/// Index of the first `=` in `s`, or `s.len()` if there is none.
pub open spec fn first_eq(s: Seq<char>) -> int
    decreases s.len(),
{
    if s.len() == 0 {
        0
    } else if s[0] == '=' {
        0
    } else {
        1 + first_eq(s.drop_first())
    }
}

/// The key/value pair a single segment yields: `Some((key, value))` when the
/// segment holds exactly one `=`, split there; `None` otherwise (the segment
/// is malformed and dropped).
pub open spec fn segment_pair(s: Seq<char>) -> Option<(Seq<char>, Seq<char>)> {
    if count_eq(s) == 1 {
        Some((s.subrange(0, first_eq(s)), s.subrange(first_eq(s) + 1, s.len() as int)))
    } else {
        None
    }
}

pub proof fn lemma_first_sep_bounds(s: Seq<char>)
    ensures
        0 <= first_sep(s) <= s.len(),
    decreases s.len(),
{
    if s.len() != 0 && !is_sep(s[0]) {
        lemma_first_sep_bounds(s.drop_first());
    }
}

/// The segments of `s`: the maximal runs between separators, in order.
/// A string without separators is one segment (possibly empty).
pub open spec fn segments(s: Seq<char>) -> Seq<Seq<char>>
    decreases s.len(),
    via segments_decreases
{
    let i = first_sep(s);
    if i == s.len() {
        seq![s]
    } else {
        seq![s.subrange(0, i)] + segments(s.subrange(i + 1, s.len() as int))
    }
}

#[via_fn]
proof fn segments_decreases(s: Seq<char>) {
    lemma_first_sep_bounds(s);
}

/// The well-formed pairs of a segment list, in order, duplicates kept.
pub open spec fn raw_pairs(segs: Seq<Seq<char>>) -> Seq<(Seq<char>, Seq<char>)>
    decreases segs.len(),
{
    if segs.len() == 0 {
        Seq::empty()
    } else {
        match segment_pair(segs[0]) {
            Some(p) => seq![p] + raw_pairs(segs.drop_first()),
            None => raw_pairs(segs.drop_first()),
        }
    }
}

/// Whether some pair in `ps` has key `k`.
pub open spec fn has_key(ps: Seq<(Seq<char>, Seq<char>)>, k: Seq<char>) -> bool {
    exists|i: int| 0 <= i < ps.len() && ps[i].0 == k
}

/// Index of the first pair in `ps` whose key is `k` (meaningful only when
/// `has_key(ps, k)`).
pub open spec fn key_index(ps: Seq<(Seq<char>, Seq<char>)>, k: Seq<char>) -> int
    decreases ps.len(),
{
    if ps.len() == 0 {
        0
    } else if ps[0].0 == k {
        0
    } else {
        1 + key_index(ps.drop_first(), k)
    }
}

/// Adds pair `p` to `ps` under the duplicate policy: if the key is already
/// present, the value is replaced at the key's existing position; otherwise
/// the pair is appended.
pub open spec fn insert_pair(
    ps: Seq<(Seq<char>, Seq<char>)>,
    p: (Seq<char>, Seq<char>),
) -> Seq<(Seq<char>, Seq<char>)> {
    if has_key(ps, p.0) {
        ps.update(key_index(ps, p.0), p)
    } else {
        ps.push(p)
    }
}

/// Folds `insert_pair` over `ps`, starting from `acc`.
pub open spec fn dedup_from(
    acc: Seq<(Seq<char>, Seq<char>)>,
    ps: Seq<(Seq<char>, Seq<char>)>,
) -> Seq<(Seq<char>, Seq<char>)>
    decreases ps.len(),
{
    if ps.len() == 0 {
        acc
    } else {
        dedup_from(insert_pair(acc, ps[0]), ps.drop_first())
    }
}

/// The pairs a whole query string parses to: its segments' well-formed pairs,
/// in order, with the duplicate policy applied.
pub open spec fn query_pairs(s: Seq<char>) -> Seq<(Seq<char>, Seq<char>)> {
    dedup_from(Seq::empty(), raw_pairs(segments(s)))
}

/// Distinct keys: no two pairs share a key.
pub open spec fn distinct_keys(ps: Seq<(Seq<char>, Seq<char>)>) -> bool {
    forall|i: int, j: int| 0 <= i < j < ps.len() ==> ps[i].0 != ps[j].0
}

/// The value stored under key `k`, if any.
pub open spec fn lookup(ps: Seq<(Seq<char>, Seq<char>)>, k: Seq<char>) -> Option<Seq<char>> {
    if has_key(ps, k) {
        Some(ps[key_index(ps, k)].1)
    } else {
        None
    }
}

pub proof fn lemma_first_sep_at(s: Seq<char>, j: int)
    requires
        0 <= j <= s.len(),
        forall|k: int| 0 <= k < j ==> !is_sep(s[k]),
        j < s.len() ==> is_sep(s[j]),
    ensures
        first_sep(s) == j,
    decreases j,
{
    if j == 0 {
    } else {
        assert(!is_sep(s[0]));
        let t = s.drop_first();
        assert forall|k: int| 0 <= k < j - 1 implies !is_sep(t[k]) by {
            assert(t[k] == s[k + 1]);
        }
        lemma_first_sep_at(t, j - 1);
    }
}

pub proof fn lemma_count_eq_zero(s: Seq<char>)
    requires
        forall|k: int| 0 <= k < s.len() ==> s[k] != '=',
    ensures
        count_eq(s) == 0,
    decreases s.len(),
{
    if s.len() != 0 {
        let t = s.drop_first();
        assert forall|k: int| 0 <= k < t.len() implies t[k] != '=' by {
            assert(t[k] == s[k + 1]);
        }
        lemma_count_eq_zero(t);
    }
}

pub proof fn lemma_count_eq_one(s: Seq<char>, i: int)
    requires
        0 <= i < s.len(),
        s[i] == '=',
        forall|k: int| 0 <= k < s.len() && k != i ==> s[k] != '=',
    ensures
        count_eq(s) == 1,
        first_eq(s) == i,
    decreases s.len(),
{
    let t = s.drop_first();
    if i == 0 {
        assert forall|k: int| 0 <= k < t.len() implies t[k] != '=' by {
            assert(t[k] == s[k + 1]);
        }
        lemma_count_eq_zero(t);
    } else {
        assert(s[0] != '=');
        assert(t[i - 1] == s[i]);
        assert forall|k: int| 0 <= k < t.len() && k != i - 1 implies t[k] != '=' by {
            assert(t[k] == s[k + 1]);
        }
        lemma_count_eq_one(t, i - 1);
    }
}

pub proof fn lemma_count_eq_two(s: Seq<char>, i: int, j: int)
    requires
        0 <= i < j < s.len(),
        s[i] == '=',
        s[j] == '=',
    ensures
        count_eq(s) >= 2,
    decreases s.len(),
{
    let t = s.drop_first();
    if i == 0 {
        assert(t[j - 1] == s[j]);
        lemma_count_eq_at_least_one(t, j - 1);
    } else {
        assert(t[i - 1] == s[i]);
        assert(t[j - 1] == s[j]);
        lemma_count_eq_two(t, i - 1, j - 1);
    }
}

pub proof fn lemma_count_eq_at_least_one(s: Seq<char>, i: int)
    requires
        0 <= i < s.len(),
        s[i] == '=',
    ensures
        count_eq(s) >= 1,
    decreases s.len(),
{
    if i != 0 {
        let t = s.drop_first();
        assert(t[i - 1] == s[i]);
        lemma_count_eq_at_least_one(t, i - 1);
    }
}

pub proof fn lemma_key_index_at(ps: Seq<(Seq<char>, Seq<char>)>, k: Seq<char>, idx: int)
    requires
        0 <= idx < ps.len(),
        ps[idx].0 == k,
        forall|m: int| 0 <= m < idx ==> ps[m].0 != k,
    ensures
        key_index(ps, k) == idx,
    decreases idx,
{
    if idx != 0 {
        assert(ps[0].0 != k);
        let t = ps.drop_first();
        assert(t[idx - 1] == ps[idx]);
        assert forall|m: int| 0 <= m < idx - 1 implies t[m].0 != k by {
            assert(t[m] == ps[m + 1]);
        }
        lemma_key_index_at(t, k, idx - 1);
    }
}

proof fn lemma_insert_pair_distinct(ps: Seq<(Seq<char>, Seq<char>)>, p: (Seq<char>, Seq<char>))
    requires
        distinct_keys(ps),
    ensures
        distinct_keys(insert_pair(ps, p)),
{
    if has_key(ps, p.0) {
        let idx = key_index(ps, p.0);
        lemma_key_index_first(ps, p.0);
        let r = ps.update(idx, p);
        assert forall|i: int, j: int| 0 <= i < j < r.len() implies r[i].0 != r[j].0 by {
            if i != idx && j != idx {
                assert(r[i] == ps[i] && r[j] == ps[j]);
            } else if i == idx {
                assert(r[j] == ps[j]);
                assert(ps[idx].0 == p.0);
            } else {
                assert(r[i] == ps[i]);
                assert(ps[idx].0 == p.0);
            }
        }
    } else {
        let r = ps.push(p);
        assert forall|i: int, j: int| 0 <= i < j < r.len() implies r[i].0 != r[j].0 by {
            if j == ps.len() {
                assert(r[i] == ps[i]);
                assert(!(0 <= i < ps.len() && ps[i].0 == p.0));
            } else {
                assert(r[i] == ps[i] && r[j] == ps[j]);
            }
        }
    }
}

/// When `k` is present, `key_index` points at its first occurrence.
pub proof fn lemma_key_index_first(ps: Seq<(Seq<char>, Seq<char>)>, k: Seq<char>)
    requires
        has_key(ps, k),
    ensures
        0 <= key_index(ps, k) < ps.len(),
        ps[key_index(ps, k)].0 == k,
        forall|m: int| 0 <= m < key_index(ps, k) ==> ps[m].0 != k,
    decreases ps.len(),
{
    if ps.len() != 0 && ps[0].0 != k {
        let t = ps.drop_first();
        let w = choose|i: int| 0 <= i < ps.len() && ps[i].0 == k;
        assert(t[w - 1] == ps[w]);
        assert(has_key(t, k));
        lemma_key_index_first(t, k);
        assert forall|m: int| 0 <= m < key_index(ps, k) implies ps[m].0 != k by {
            if m > 0 {
                assert(t[m - 1] == ps[m]);
            }
        }
    }
}

pub proof fn lemma_dedup_distinct(
    acc: Seq<(Seq<char>, Seq<char>)>,
    ps: Seq<(Seq<char>, Seq<char>)>,
)
    requires
        distinct_keys(acc),
    ensures
        distinct_keys(dedup_from(acc, ps)),
    decreases ps.len(),
{
    if ps.len() != 0 {
        lemma_insert_pair_distinct(acc, ps[0]);
        lemma_dedup_distinct(insert_pair(acc, ps[0]), ps.drop_first());
    }
}

/// The pairs any query string parses to have distinct keys.
pub proof fn lemma_query_pairs_distinct(s: Seq<char>)
    ensures
        distinct_keys(query_pairs(s)),
{
    lemma_dedup_distinct(Seq::empty(), raw_pairs(segments(s)));
}

/// A pair whose key and value hold no separator and no `=`: one that a query
/// string can carry verbatim.
pub open spec fn plain_pair(p: (Seq<char>, Seq<char>)) -> bool {
    &&& forall|i: int| 0 <= i < p.0.len() ==> !is_sep(#[trigger] p.0[i]) && p.0[i] != '='
    &&& forall|i: int| 0 <= i < p.1.len() ==> !is_sep(#[trigger] p.1[i]) && p.1[i] != '='
}

/// The text of one `key=value` pair.
pub open spec fn pair_text(p: (Seq<char>, Seq<char>)) -> Seq<char> {
    p.0 + "="@ + p.1
}

/// The query string that carries the pairs `ps`, joined with `&`.
pub open spec fn join_pairs(ps: Seq<(Seq<char>, Seq<char>)>) -> Seq<char>
    decreases ps.len(),
{
    if ps.len() == 0 {
        Seq::empty()
    } else if ps.len() == 1 {
        pair_text(ps[0])
    } else {
        pair_text(ps[0]) + "&"@ + join_pairs(ps.drop_first())
    }
}

proof fn lemma_raw_pairs_of_join(ps: Seq<(Seq<char>, Seq<char>)>)
    requires
        ps.len() >= 1,
        forall|i: int| 0 <= i < ps.len() ==> plain_pair(#[trigger] ps[i]),
    ensures
        raw_pairs(segments(join_pairs(ps))) == ps,
    decreases ps.len(),
{
    reveal_strlit("=");
    reveal_strlit("&");
    let s = join_pairs(ps);
    let p0 = ps[0];
    let head = pair_text(p0);
    let kl = p0.0.len() as int;
    let hl = head.len() as int;
    assert(hl == p0.0.len() + 1 + p0.1.len());
    assert(head[kl] == '=');
    assert forall|m: int| 0 <= m < hl && m != kl implies !is_sep(head[m]) && head[m] != '=' by {
        if m < kl {
            assert(head[m] == p0.0[m]);
        } else {
            assert(head[m] == p0.1[m - kl - 1]);
        }
    }
    assert(!is_sep(head[kl]));
    lemma_count_eq_one(head, kl);
    assert(head.subrange(0, kl) =~= p0.0);
    assert(head.subrange(kl + 1, hl) =~= p0.1);
    assert(segment_pair(head) == Some((p0.0, p0.1)));
    assert(raw_pairs(Seq::<Seq<char>>::empty()) == Seq::<(Seq<char>, Seq<char>)>::empty());
    if ps.len() == 1 {
        assert(s == head);
        lemma_first_sep_at(s, hl);
        assert(s.subrange(0, hl) =~= head);
        assert(segments(s) == seq![s]);
        assert(seq![s].drop_first() =~= Seq::<Seq<char>>::empty());
        assert(raw_pairs(segments(s)) =~= seq![(p0.0, p0.1)] + Seq::<(
            Seq<char>,
            Seq<char>,
        )>::empty());
        assert(raw_pairs(segments(s)) =~= ps);
    } else {
        let rest = ps.drop_first();
        let tail = join_pairs(rest);
        assert(s =~= head + "&"@ + tail);
        assert(s[hl] == '&');
        assert forall|m: int| 0 <= m < hl implies !is_sep(s[m]) by {
            assert(s[m] == head[m]);
        }
        lemma_first_sep_at(s, hl);
        assert(s.subrange(0, hl) =~= head);
        assert(s.subrange(hl + 1, s.len() as int) =~= tail);
        assert(segments(s) == seq![head] + segments(tail));
        let ss = seq![head] + segments(tail);
        assert(ss[0] == head);
        assert(ss.drop_first() =~= segments(tail));
        assert forall|i: int| 0 <= i < rest.len() implies plain_pair(#[trigger] rest[i]) by {
            assert(rest[i] == ps[i + 1]);
        }
        lemma_raw_pairs_of_join(rest);
        assert(raw_pairs(segments(s)) == seq![(p0.0, p0.1)] + rest);
        assert(seq![(p0.0, p0.1)] + rest =~= ps);
    }
}

proof fn lemma_dedup_of_distinct(
    acc: Seq<(Seq<char>, Seq<char>)>,
    ps: Seq<(Seq<char>, Seq<char>)>,
)
    requires
        distinct_keys(acc + ps),
    ensures
        dedup_from(acc, ps) == acc + ps,
    decreases ps.len(),
{
    if ps.len() == 0 {
        assert(acc + ps =~= acc);
    } else {
        let p0 = ps[0];
        assert((acc + ps)[acc.len() as int] == p0);
        assert forall|i: int| 0 <= i < acc.len() implies acc[i].0 != p0.0 by {
            assert((acc + ps)[i] == acc[i]);
        }
        assert(!has_key(acc, p0.0));
        assert(insert_pair(acc, p0) == acc.push(p0));
        assert(acc.push(p0) + ps.drop_first() =~= acc + ps);
        lemma_dedup_of_distinct(acc.push(p0), ps.drop_first());
        assert(dedup_from(acc, ps) == dedup_from(acc.push(p0), ps.drop_first()));
    }
}

/// A query string made of well-formed `key=value` pairs with distinct keys,
/// joined with the separator, parses back to exactly those pairs; a malformed
/// segment (no `=`, or more than one) contributes nothing, so dropping it
/// never disturbs the pairs around it.
pub proof fn lemma_parse_recovers_pairs(ps: Seq<(Seq<char>, Seq<char>)>)
    requires
        forall|i: int| 0 <= i < ps.len() ==> plain_pair(#[trigger] ps[i]),
        distinct_keys(ps),
    ensures
        query_pairs(join_pairs(ps)) == ps,
{
    if ps.len() == 0 {
        let s = join_pairs(ps);
        assert(s.len() == 0);
        lemma_first_sep_at(s, 0);
        assert(segments(s) == seq![s]);
        lemma_count_eq_zero(s);
        assert(segment_pair(s) is None);
        assert(seq![s].drop_first() =~= Seq::<Seq<char>>::empty());
        assert(raw_pairs(Seq::<Seq<char>>::empty()) == Seq::<(Seq<char>, Seq<char>)>::empty());
        assert(raw_pairs(segments(s)) =~= Seq::<(Seq<char>, Seq<char>)>::empty());
        assert(query_pairs(s) =~= ps);
    } else {
        lemma_raw_pairs_of_join(ps);
        assert(Seq::<(Seq<char>, Seq<char>)>::empty() + ps =~= ps);
        lemma_dedup_of_distinct(Seq::empty(), ps);
    }
}

/// The value of the last pair in `ps` whose key is `k`, if any.
pub open spec fn last_value_of(
    ps: Seq<(Seq<char>, Seq<char>)>,
    k: Seq<char>,
) -> Option<Seq<char>>
    decreases ps.len(),
{
    if ps.len() == 0 {
        None
    } else if ps.last().0 == k {
        Some(ps.last().1)
    } else {
        last_value_of(ps.drop_last(), k)
    }
}

proof fn lemma_last_value_cons(ps: Seq<(Seq<char>, Seq<char>)>, k: Seq<char>)
    requires
        ps.len() > 0,
    ensures
        last_value_of(ps, k) == (match last_value_of(ps.drop_first(), k) {
            Some(v) => Some(v),
            None => if ps[0].0 == k {
                Some(ps[0].1)
            } else {
                None
            },
        }),
    decreases ps.len(),
{
    let rest = ps.drop_first();
    if ps.len() == 1 {
        assert(rest =~= Seq::<(Seq<char>, Seq<char>)>::empty());
        assert(last_value_of(rest, k) is None);
        assert(ps.last() == ps[0]);
        assert(ps.drop_last() =~= Seq::<(Seq<char>, Seq<char>)>::empty());
        assert(last_value_of(ps.drop_last(), k) is None);
    } else {
        assert(rest.len() > 0);
        assert(rest.last() == ps.last());
        if ps.last().0 == k {
            assert(last_value_of(ps, k) == Some(ps.last().1));
            assert(last_value_of(rest, k) == Some(rest.last().1));
        } else {
            let front = ps.drop_last();
            assert(front.len() > 0);
            assert(front[0] == ps[0]);
            assert(last_value_of(ps, k) == last_value_of(front, k));
            assert(last_value_of(rest, k) == last_value_of(rest.drop_last(), k));
            lemma_last_value_cons(front, k);
            assert(front.drop_first() =~= rest.drop_last());
            assert(last_value_of(front.drop_first(), k) == last_value_of(rest.drop_last(), k));
        }
    }
}

proof fn lemma_lookup_insert_pair(
    acc: Seq<(Seq<char>, Seq<char>)>,
    p: (Seq<char>, Seq<char>),
    k: Seq<char>,
)
    ensures
        lookup(insert_pair(acc, p), k) == if k == p.0 {
            Some(p.1)
        } else {
            lookup(acc, k)
        },
{
    let r = insert_pair(acc, p);
    if has_key(acc, p.0) {
        let i = key_index(acc, p.0);
        lemma_key_index_first(acc, p.0);
        assert(r == acc.update(i, p));
        if k == p.0 {
            assert(r[i].0 == k);
            assert forall|m: int| 0 <= m < i implies r[m].0 != k by {
                assert(r[m] == acc[m]);
            }
            lemma_key_index_at(r, k, i);
            assert(lookup(r, k) == Some(p.1));
        } else {
            if has_key(acc, k) {
                let j = key_index(acc, k);
                lemma_key_index_first(acc, k);
                assert(acc[j].0 == k);
                assert(j != i);
                assert(r[j] == acc[j]);
                assert forall|m: int| 0 <= m < j implies r[m].0 != k by {
                    if m != i {
                        assert(r[m] == acc[m]);
                    } else {
                        assert(r[m].0 == p.0);
                    }
                }
                lemma_key_index_at(r, k, j);
                assert(lookup(r, k) == Some(acc[j].1));
            } else {
                assert forall|m: int| 0 <= m < r.len() implies r[m].0 != k by {
                    if m != i {
                        assert(r[m] == acc[m]);
                        assert(!(0 <= m < acc.len() && acc[m].0 == k));
                    } else {
                        assert(r[m].0 == p.0);
                    }
                }
                assert(!has_key(r, k));
            }
        }
    } else {
        assert(r == acc.push(p));
        if k == p.0 {
            assert(r[acc.len() as int].0 == k);
            assert forall|m: int| 0 <= m < acc.len() implies r[m].0 != k by {
                assert(r[m] == acc[m]);
                assert(!(0 <= m < acc.len() && acc[m].0 == p.0));
            }
            lemma_key_index_at(r, k, acc.len() as int);
            assert(lookup(r, k) == Some(p.1));
        } else {
            if has_key(acc, k) {
                let j = key_index(acc, k);
                lemma_key_index_first(acc, k);
                assert(r[j] == acc[j]);
                assert forall|m: int| 0 <= m < j implies r[m].0 != k by {
                    assert(r[m] == acc[m]);
                }
                lemma_key_index_at(r, k, j);
                assert(lookup(r, k) == Some(acc[j].1));
            } else {
                assert forall|m: int| 0 <= m < r.len() implies r[m].0 != k by {
                    if m < acc.len() {
                        assert(r[m] == acc[m]);
                        assert(!(0 <= m < acc.len() && acc[m].0 == k));
                    } else {
                        assert(r[m].0 == p.0);
                    }
                }
                assert(!has_key(r, k));
            }
        }
    }
}

proof fn lemma_lookup_dedup(
    acc: Seq<(Seq<char>, Seq<char>)>,
    ps: Seq<(Seq<char>, Seq<char>)>,
    k: Seq<char>,
)
    ensures
        lookup(dedup_from(acc, ps), k) == (match last_value_of(ps, k) {
            Some(v) => Some(v),
            None => lookup(acc, k),
        }),
    decreases ps.len(),
{
    if ps.len() > 0 {
        let p0 = ps[0];
        let rest = ps.drop_first();
        lemma_lookup_insert_pair(acc, p0, k);
        lemma_lookup_dedup(insert_pair(acc, p0), rest, k);
        lemma_last_value_cons(ps, k);
    }
}

/// For any run of well-formed pairs, duplicate keys allowed, the joined
/// query string parses to a mapping that holds, under each key, exactly the
/// value of the last pair carrying it -- and no key that no pair carries.
/// No well-formed pair is lost or altered beyond that duplicate policy.
pub proof fn lemma_parse_last_value_wins(ps: Seq<(Seq<char>, Seq<char>)>)
    requires
        forall|i: int| 0 <= i < ps.len() ==> plain_pair(#[trigger] ps[i]),
    ensures
        forall|k: Seq<char>| lookup(query_pairs(join_pairs(ps)), k) == last_value_of(ps, k),
{
    if ps.len() == 0 {
        lemma_parse_recovers_pairs(ps);
        assert forall|k: Seq<char>| lookup(query_pairs(join_pairs(ps)), k) == last_value_of(
            ps,
            k,
        ) by {
            assert(!has_key(ps, k));
        }
    } else {
        lemma_raw_pairs_of_join(ps);
        assert forall|k: Seq<char>| lookup(query_pairs(join_pairs(ps)), k) == last_value_of(
            ps,
            k,
        ) by {
            lemma_lookup_dedup(Seq::empty(), ps, k);
            assert(!has_key(Seq::<(Seq<char>, Seq<char>)>::empty(), k));
        }
    }
}

/// The character sequences a sequence of strings views as, elementwise.
pub open spec fn strings_view(s: Seq<String>) -> Seq<Seq<char>> {
    Seq::new(s.len(), |i: int| s[i]@)
}

/// The character-sequence pairs a sequence of string pairs views as.
pub open spec fn pairs_view(s: Seq<(String, String)>) -> Seq<(Seq<char>, Seq<char>)> {
    Seq::new(s.len(), |i: int| (s[i].0@, s[i].1@))
}

/// Whether `p` is a prefix of `s`.
pub open spec fn starts_with(s: Seq<char>, p: Seq<char>) -> bool {
    p.len() <= s.len() && s.subrange(0, p.len() as int) == p
}

/// The values of the pairs whose key begins with `p`, in pair order.
pub open spec fn prefix_values(ps: Seq<(Seq<char>, Seq<char>)>, p: Seq<char>) -> Seq<Seq<char>>
    decreases ps.len(),
{
    if ps.len() == 0 {
        Seq::empty()
    } else if starts_with(ps[0].0, p) {
        seq![ps[0].1] + prefix_values(ps.drop_first(), p)
    } else {
        prefix_values(ps.drop_first(), p)
    }
}

/// The parameters of one query string: a mapping from key to value that keeps
/// the order in which keys first appeared.
pub struct QueryParams {
    pairs: Vec<(String, String)>,
}

impl View for QueryParams {
    type V = Seq<(Seq<char>, Seq<char>)>;

    closed spec fn view(&self) -> Seq<(Seq<char>, Seq<char>)> {
        pairs_view(self.pairs@)
    }
}

/// Index of the first pair whose key equals `key`, if any.
fn find_key(pairs: &Vec<(String, String)>, key: &String) -> (r: Option<usize>)
    ensures
        match r {
            Some(i) => i < pairs@.len() && pairs@[i as int].0@ == key@ && forall|m: int|
                0 <= m < i ==> pairs@[m].0@ != key@,
            None => forall|m: int| 0 <= m < pairs@.len() ==> pairs@[m].0@ != key@,
        },
{
    let mut idx: usize = 0;
    while idx < pairs.len()
        invariant
            idx <= pairs@.len(),
            forall|m: int| 0 <= m < idx ==> pairs@[m].0@ != key@,
        decreases pairs@.len() - idx,
    {
        if pairs[idx].0 == *key {
            return Some(idx);
        }
        idx += 1;
    }
    None
}

/// Adds one pair under the duplicate policy: a present key has its value
/// replaced in place, a new key is appended.
fn insert_param(pairs: &mut Vec<(String, String)>, key: String, val: String)
    ensures
        pairs_view(final(pairs)@) == insert_pair(pairs_view(old(pairs)@), (key@, val@)),
{
    let ghost before = pairs_view(pairs@);
    match find_key(pairs, &key) {
        Some(i) => {
            proof {
                assert(before[i as int].0 == key@);
                assert(has_key(before, key@));
                lemma_key_index_at(before, key@, i as int);
            }
            pairs.remove(i);
            pairs.insert(i, (key, val));
            proof {
                assert(pairs_view(pairs@) =~= before.update(i as int, (key@, val@)));
            }
        },
        None => {
            proof {
                assert(!has_key(before, key@));
            }
            pairs.push((key, val));
            proof {
                assert(pairs_view(pairs@) =~= before.push((key@, val@)));
            }
        },
    }
}

/// Parses a query string into its parameters.
///
/// Pairs are separated by `&` or `?`; a pair must hold exactly one `=` and is
/// split there; malformed pairs are dropped silently; on a repeated key the
/// later value wins. The empty string parses to no parameters. Never fails.
pub fn parse_query_string(qs: &str) -> (r: QueryParams)
    ensures
        r@ == query_pairs(qs@),
        distinct_keys(r@),
{
    let n = qs.unicode_len();
    let mut pairs: Vec<(String, String)> = Vec::new();
    let mut start: usize = 0;
    let mut done = false;
    proof {
        assert(pairs_view(pairs@) =~= Seq::<(Seq<char>, Seq<char>)>::empty());
        assert(qs@.subrange(0, n as int) =~= qs@);
    }
    while !done
        invariant
            n == qs@.len(),
            start <= n,
            !done ==> dedup_from(
                pairs_view(pairs@),
                raw_pairs(segments(qs@.subrange(start as int, n as int))),
            ) == query_pairs(qs@),
            done ==> pairs_view(pairs@) == query_pairs(qs@),
        decreases n - start + (if done { 0int } else { 1int }),
    {
        // Find the end of the current segment: the next separator, or the end.
        let mut j: usize = start;
        let mut found_sep = false;
        while !found_sep && j < n
            invariant
                n == qs@.len(),
                start <= j <= n,
                forall|k: int| start <= k < j ==> !is_sep(qs@[k]),
                found_sep ==> j < n && is_sep(qs@[j as int]),
            decreases n - j + (if found_sep { 0int } else { 1int }),
        {
            let c = qs.get_char(j);
            if c == '&' || c == '?' {
                found_sep = true;
            } else {
                j += 1;
            }
        }
        let ghost seg = qs@.subrange(start as int, j as int);
        // Find where the segment's `=` characters are: none, one, or several.
        let mut k: usize = start;
        let mut eq_count: usize = 0;
        let mut eq1: usize = 0;
        let mut eq2: usize = 0;
        while k < j
            invariant
                n == qs@.len(),
                start <= k <= j <= n,
                eq_count <= 2,
                eq_count == 0 ==> forall|m: int| start <= m < k ==> qs@[m] != '=',
                eq_count == 1 ==> start <= eq1 < k && qs@[eq1 as int] == '=' && forall|m: int|
                    start <= m < k && m != eq1 ==> qs@[m] != '=',
                eq_count == 2 ==> start <= eq1 < eq2 < k && qs@[eq1 as int] == '='
                    && qs@[eq2 as int] == '=',
            decreases j - k,
        {
            let c = qs.get_char(k);
            if c == '=' {
                if eq_count == 0 {
                    eq1 = k;
                    eq_count = 1;
                } else if eq_count == 1 {
                    eq2 = k;
                    eq_count = 2;
                }
            }
            k += 1;
        }
        // Well-formed segments contribute their pair; others are dropped.
        let ghost acc0 = pairs_view(pairs@);
        if eq_count == 1 {
            proof {
                assert forall|m: int| 0 <= m < seg.len() && m != eq1 - start implies seg[m]
                    != '=' by {
                    assert(seg[m] == qs@[start + m]);
                }
                assert(seg[eq1 - start] == qs@[eq1 as int]);
                lemma_count_eq_one(seg, eq1 - start);
            }
            let key_s = qs.substring_char(start, eq1);
            let val_s = qs.substring_char(eq1 + 1, j);
            proof {
                assert(key_s@ =~= seg.subrange(0, first_eq(seg)));
                assert(val_s@ =~= seg.subrange(first_eq(seg) + 1, seg.len() as int));
            }
            insert_param(&mut pairs, key_s.to_owned(), val_s.to_owned());
            proof {
                assert(segment_pair(seg) == Some((key_s@, val_s@)));
                assert(pairs_view(pairs@) == insert_pair(acc0, (key_s@, val_s@)));
            }
        } else {
            proof {
                if eq_count == 0 {
                    assert forall|m: int| 0 <= m < seg.len() implies seg[m] != '=' by {
                        assert(seg[m] == qs@[start + m]);
                    }
                    lemma_count_eq_zero(seg);
                } else {
                    assert(seg[eq1 - start] == qs@[eq1 as int]);
                    assert(seg[eq2 - start] == qs@[eq2 as int]);
                    lemma_count_eq_two(seg, eq1 - start, eq2 - start);
                }
                assert(segment_pair(seg) is None);
            }
        }
        // The consumed segment was the head of the remaining segment list.
        proof {
            let rest = qs@.subrange(start as int, n as int);
            assert forall|m: int| 0 <= m < j - start implies !is_sep(rest[m]) by {
                assert(rest[m] == qs@[start + m]);
            }
            if (j as int) < n as int {
                assert(rest[j - start] == qs@[j as int]);
            }
            lemma_first_sep_at(rest, j - start);
            assert(rest.subrange(0, j - start) =~= seg);
            let rp = raw_pairs(segments(rest));
            assert(raw_pairs(Seq::<Seq<char>>::empty()) == Seq::<(Seq<char>, Seq<char>)>::empty());
            if j == n {
                assert(seg =~= rest);
                assert(segments(rest) =~= seq![seg]);
                assert(seq![seg].drop_first() =~= Seq::<Seq<char>>::empty());
                match segment_pair(seg) {
                    Some(p) => {
                        assert(rp =~= seq![p] + raw_pairs(Seq::<Seq<char>>::empty()));
                        assert(rp =~= seq![p]);
                        assert(seq![p].drop_first() =~= Seq::<(Seq<char>, Seq<char>)>::empty());
                        assert(dedup_from(insert_pair(acc0, p), Seq::<(Seq<char>, Seq<char>)>::empty())
                            == insert_pair(acc0, p));
                        assert(dedup_from(acc0, rp) == insert_pair(acc0, p));
                    },
                    None => {
                        assert(rp =~= Seq::<(Seq<char>, Seq<char>)>::empty());
                        assert(dedup_from(acc0, rp) == acc0);
                    },
                }
                assert(pairs_view(pairs@) == query_pairs(qs@));
            } else {
                let rest2 = qs@.subrange(j + 1, n as int);
                assert(rest.subrange(j - start + 1, rest.len() as int) =~= rest2);
                let tail = segments(rest2);
                assert(segments(rest) == seq![seg] + tail);
                let ss = seq![seg] + tail;
                assert(ss[0] == seg);
                assert(ss.drop_first() =~= tail);
                let rp2 = raw_pairs(tail);
                match segment_pair(seg) {
                    Some(p) => {
                        assert(rp == seq![p] + rp2);
                        assert((seq![p] + rp2)[0] == p);
                        assert((seq![p] + rp2).drop_first() =~= rp2);
                        assert(dedup_from(acc0, rp) == dedup_from(insert_pair(acc0, p), rp2));
                    },
                    None => {
                        assert(dedup_from(acc0, rp) == dedup_from(acc0, rp2));
                    },
                }
                assert(dedup_from(
                    pairs_view(pairs@),
                    raw_pairs(segments(qs@.subrange(j + 1, n as int))),
                ) == query_pairs(qs@));
            }
        }
        if found_sep {
            start = j + 1;
        } else {
            done = true;
        }
    }
    let r = QueryParams { pairs };
    proof {
        lemma_query_pairs_distinct(qs@);
    }
    r
}

impl QueryParams {
    /// How many parameters are held.
    pub fn len(&self) -> (r: usize)
        ensures
            r == self@.len(),
    {
        self.pairs.len()
    }

    /// The value stored under `key`, if any.
    pub fn get(&self, key: &str) -> (r: Option<&String>)
        ensures
            match r {
                Some(v) => lookup(self@, key@) == Some(v@),
                None => lookup(self@, key@) is None,
            },
    {
        let owned = key.to_owned();
        match find_key(&self.pairs, &owned) {
            Some(i) => {
                proof {
                    assert(self@[i as int].0 == key@);
                    assert(has_key(self@, key@));
                    lemma_key_index_at(self@, key@, i as int);
                }
                Some(&self.pairs[i].1)
            },
            None => {
                proof {
                    assert(!has_key(self@, key@));
                }
                None
            },
        }
    }

    /// The values of every parameter whose key begins with `prefix`, in the
    /// order the keys first appeared. Batch operations collect their
    /// identifiers this way from repeated, suffix-renamed parameters.
    pub fn values_with_key_prefix(&self, prefix: &str) -> (r: Vec<String>)
        ensures
            strings_view(r@) == prefix_values(self@, prefix@),
    {
        let mut out: Vec<String> = Vec::new();
        let mut i: usize = 0;
        proof {
            assert(strings_view(out@) =~= Seq::<Seq<char>>::empty());
            assert(self@.subrange(0, self@.len() as int) =~= self@);
            assert(Seq::<Seq<char>>::empty() + prefix_values(self@, prefix@) =~= prefix_values(
                self@,
                prefix@,
            ));
        }
        while i < self.pairs.len()
            invariant
                i <= self.pairs@.len(),
                prefix_values(self@, prefix@) == strings_view(out@) + prefix_values(
                    self@.subrange(i as int, self@.len() as int),
                    prefix@,
                ),
            decreases self.pairs@.len() - i,
        {
            let ghost pending = self@.subrange(i as int, self@.len() as int);
            let ghost pending2 = self@.subrange(i + 1, self@.len() as int);
            let ghost out_before = strings_view(out@);
            proof {
                assert(pending[0] == self@[i as int]);
                assert(pending.drop_first() =~= pending2);
            }
            if str_starts_with(self.pairs[i].0.as_str(), prefix) {
                out.push(self.pairs[i].1.clone());
                proof {
                    assert(strings_view(out@) =~= out_before + seq![self@[i as int].1]);
                    assert(out_before + seq![self@[i as int].1] + prefix_values(pending2, prefix@)
                        =~= out_before + (seq![self@[i as int].1] + prefix_values(
                        pending2,
                        prefix@,
                    )));
                }
            }
            proof {
                assert(strings_view(out@) + prefix_values(pending2, prefix@) =~= prefix_values(
                    self@,
                    prefix@,
                ));
            }
            i += 1;
        }
        proof {
            assert(self@.subrange(self@.len() as int, self@.len() as int)
                =~= Seq::<(Seq<char>, Seq<char>)>::empty());
        }
        out
    }
}

/// Whether `c` is a decimal digit.
pub open spec fn is_digit(c: char) -> bool {
    48 <= c as u32 <= 57
}

/// Whether every character of `s` is a decimal digit.
pub open spec fn all_digits(s: Seq<char>) -> bool {
    forall|i: int| 0 <= i < s.len() ==> is_digit(s[i])
}

/// The number the decimal digits of `s` denote.
pub open spec fn digits_value(s: Seq<char>) -> int
    decreases s.len(),
{
    if s.len() == 0 {
        0
    } else {
        digits_value(s.drop_last()) * 10 + (s.last() as u32 - 48)
    }
}

/// What a string parses to as an unsigned size: the denoted number when the
/// string is nothing but digits and the number fits; nothing otherwise.
pub open spec fn spec_parse_usize(s: Seq<char>) -> Option<int> {
    if s.len() >= 1 && all_digits(s) && digits_value(s) <= usize::MAX {
        Some(digits_value(s))
    } else {
        None
    }
}

proof fn lemma_digits_value_nonneg(s: Seq<char>)
    requires
        all_digits(s),
    ensures
        digits_value(s) >= 0,
    decreases s.len(),
{
    if s.len() > 0 {
        let t = s.drop_last();
        assert forall|m: int| 0 <= m < t.len() implies is_digit(t[m]) by {
            assert(t[m] == s[m]);
        }
        lemma_digits_value_nonneg(t);
    }
}

proof fn lemma_digits_prefix_le(s: Seq<char>, i: int)
    requires
        all_digits(s),
        0 <= i <= s.len(),
    ensures
        digits_value(s.subrange(0, i)) <= digits_value(s),
    decreases s.len() - i,
{
    if i < s.len() {
        let p = s.subrange(0, i);
        let p2 = s.subrange(0, i + 1);
        assert(p2.drop_last() =~= p);
        assert forall|m: int| 0 <= m < p.len() implies is_digit(p[m]) by {
            assert(p[m] == s[m]);
        }
        lemma_digits_value_nonneg(p);
        assert(p2.last() == s[i]);
        lemma_digits_prefix_le(s, i + 1);
    } else {
        assert(s.subrange(0, i) =~= s);
    }
}

/// Parses a run of decimal digits as a size. `None` when the string is
/// empty, holds any non-digit, or denotes a number too large to represent.
pub fn parse_usize(s: &str) -> (r: Option<usize>)
    ensures
        match r {
            Some(v) => spec_parse_usize(s@) == Some(v as int),
            None => spec_parse_usize(s@) is None,
        },
{
    let n = s.unicode_len();
    if n == 0 {
        return None;
    }
    let mut i: usize = 0;
    let mut val: usize = 0;
    proof {
        assert(s@.subrange(0, 0) =~= Seq::<char>::empty());
    }
    while i < n
        invariant
            n == s@.len(),
            1 <= n,
            i <= n,
            forall|m: int| 0 <= m < i ==> is_digit(s@[m]),
            val == digits_value(s@.subrange(0, i as int)),
        decreases n - i,
    {
        let c = s.get_char(i);
        let cv = c as u32;
        if cv < 48 || cv > 57 {
            proof {
                assert(!is_digit(s@[i as int]));
            }
            return None;
        }
        let d = (cv - 48) as usize;
        let ghost p = s@.subrange(0, i as int);
        let ghost p2 = s@.subrange(0, i + 1);
        proof {
            assert(p2.drop_last() =~= p);
            assert(p2.last() == s@[i as int]);
            vstd::arithmetic::div_mod::lemma_fundamental_div_mod((usize::MAX - d) as int, 10);
            vstd::arithmetic::div_mod::lemma_mod_bound((usize::MAX - d) as int, 10);
        }
        if val > (usize::MAX - d) / 10 {
            proof {
                assert(digits_value(p2) > usize::MAX);
                if all_digits(s@) {
                    lemma_digits_prefix_le(s@, i + 1);
                }
            }
            return None;
        }
        val = val * 10 + d;
        i += 1;
    }
    proof {
        assert(s@.subrange(0, n as int) =~= s@);
    }
    Some(val)
}

/// Whether the characters of `s` begin with those of `prefix`.
fn str_starts_with(s: &str, prefix: &str) -> (r: bool)
    ensures
        r == starts_with(s@, prefix@),
{
    let sn = s.unicode_len();
    let pn = prefix.unicode_len();
    if pn > sn {
        return false;
    }
    let mut i: usize = 0;
    while i < pn
        invariant
            pn <= sn,
            sn == s@.len(),
            pn == prefix@.len(),
            i <= pn,
            forall|m: int| 0 <= m < i ==> s@[m] == prefix@[m],
        decreases pn - i,
    {
        if s.get_char(i) != prefix.get_char(i) {
            proof {
                assert(s@.subrange(0, pn as int)[i as int] == s@[i as int]);
            }
            return false;
        }
        i += 1;
    }
    proof {
        assert(s@.subrange(0, pn as int) =~= prefix@);
    }
    true
}

} // verus!
