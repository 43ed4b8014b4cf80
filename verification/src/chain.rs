use vstd::prelude::*;
use vstd::string::StringExecFns;
use crate::campaign::{create_utterance_with_insight, is_hyphenated_v4_uuid, utterance_holds};
use crate::models::{ModalityAspectWithLevel, Utterance};
use crate::reply::{opt_str_view, opt_string_view};
use crate::text::str_eq;

verus! {

/// The strictly increasing sequences of `k` indices from `start` (inclusive) up
/// to `n` (exclusive), in lexicographic order: those that begin with `start`,
/// then those that do not.
pub open spec fn index_combinations(start: int, n: int, k: nat) -> Seq<Seq<int>>
    decreases n - start, k,
{
    if k == 0 {
        seq![Seq::empty()]
    } else if start >= n {
        Seq::empty()
    } else {
        index_combinations(start + 1, n, (k - 1) as nat).map_values(
            |c: Seq<int>| seq![start] + c,
        ) + index_combinations(start + 1, n, k)
    }
}

/// The entries of `items` at the indices `indices`, in that order.
pub open spec fn pick<T>(items: Seq<T>, indices: Seq<int>) -> Seq<T> {
    indices.map_values(|j: int| items[j])
}

/// Whether `c` is strictly increasing with every entry in `lo..hi`.
pub open spec fn increasing_within(c: Seq<int>, lo: int, hi: int) -> bool {
    &&& forall|i: int| 0 <= i < c.len() ==> lo <= #[trigger] c[i] < hi
    &&& forall|i: int, j: int| 0 <= i < j < c.len() ==> #[trigger] c[i] < #[trigger] c[j]
}

/// Every combination has `k` indices, strictly increasing, from `start` up to `n`.
pub proof fn lemma_combinations_are_increasing(start: int, n: int, k: nat, i: int)
    requires
        0 <= i < index_combinations(start, n, k).len(),
    ensures
        index_combinations(start, n, k)[i].len() == k,
        increasing_within(index_combinations(start, n, k)[i], start, n),
    decreases n - start, k,
{
    if k == 0 {
        assert(index_combinations(start, n, k)[i] == Seq::<int>::empty());
    } else if start >= n {
    } else {
        let with_first = index_combinations(start + 1, n, (k - 1) as nat);
        let rest = index_combinations(start + 1, n, k);
        let all = index_combinations(start, n, k);
        if i < with_first.len() {
            lemma_combinations_are_increasing(start + 1, n, (k - 1) as nat, i);
            let c = all[i];
            assert(c == seq![start] + with_first[i]);
            assert forall|a: int, b: int| 0 <= a < b < c.len() implies #[trigger] c[a]
                < #[trigger] c[b] by {
                if a > 0 {
                    assert(c[a] == with_first[i][a - 1]);
                }
                assert(c[b] == with_first[i][b - 1]);
            }
            assert forall|a: int| 0 <= a < c.len() implies start <= #[trigger] c[a] < n by {
                if a > 0 {
                    assert(c[a] == with_first[i][a - 1]);
                }
            }
        } else {
            lemma_combinations_are_increasing(start + 1, n, k, i - with_first.len());
            assert(all[i] == rest[i - with_first.len()]);
        }
    }
}

/// Every strictly increasing sequence of `k` indices from `start` up to `n` is
/// one of the combinations.
pub proof fn lemma_combinations_are_complete(start: int, n: int, k: nat, c: Seq<int>)
    requires
        c.len() == k,
        increasing_within(c, start, n),
    ensures
        index_combinations(start, n, k).contains(c),
    decreases n - start, k,
{
    if k == 0 {
        assert(c =~= Seq::<int>::empty());
        assert(index_combinations(start, n, k)[0] == c);
    } else if start >= n {
        assert(start <= c[0] < n);
    } else {
        let with_first = index_combinations(start + 1, n, (k - 1) as nat);
        let rest = index_combinations(start + 1, n, k);
        let all = index_combinations(start, n, k);
        if c[0] == start {
            let tail = c.drop_first();
            assert forall|a: int| 0 <= a < tail.len() implies start + 1 <= #[trigger] tail[a]
                < n by {
                assert(tail[a] == c[a + 1]);
                assert(c[0] < c[a + 1]);
            }
            assert forall|a: int, b: int| 0 <= a < b < tail.len() implies #[trigger] tail[a]
                < #[trigger] tail[b] by {
                assert(tail[a] == c[a + 1] && tail[b] == c[b + 1]);
            }
            lemma_combinations_are_complete(start + 1, n, (k - 1) as nat, tail);
            let j = choose|j: int| 0 <= j < with_first.len() && with_first[j] == tail;
            assert(seq![start] + tail =~= c);
            assert(all[j] == c);
        } else {
            assert forall|a: int| 0 <= a < c.len() implies start + 1 <= #[trigger] c[a] < n by {
                if a > 0 {
                    assert(c[0] < c[a]);
                }
            }
            lemma_combinations_are_complete(start + 1, n, k, c);
            let j = choose|j: int| 0 <= j < rest.len() && rest[j] == c;
            assert(all[j + with_first.len()] == c);
        }
    }
}

/// No combination is listed twice.
pub proof fn lemma_combinations_are_distinct(start: int, n: int, k: nat)
    ensures
        index_combinations(start, n, k).no_duplicates(),
    decreases n - start, k,
{
    if k > 0 && start < n {
        let with_first = index_combinations(start + 1, n, (k - 1) as nat);
        let rest = index_combinations(start + 1, n, k);
        let all = index_combinations(start, n, k);
        let w = with_first.len();
        lemma_combinations_are_distinct(start + 1, n, (k - 1) as nat);
        lemma_combinations_are_distinct(start + 1, n, k);
        assert forall|i: int, j: int| 0 <= i < all.len() && 0 <= j < all.len() && i != j implies all[i]
            != all[j] by {
            if i < w && j < w {
                assert(all[i] == seq![start] + with_first[i]);
                assert(all[j] == seq![start] + with_first[j]);
                assert(all[i].drop_first() =~= with_first[i]);
                assert(all[j].drop_first() =~= with_first[j]);
            } else if i >= w && j >= w {
                assert(all[i] == rest[i - w]);
                assert(all[j] == rest[j - w]);
            } else if i < w {
                lemma_combinations_are_increasing(start + 1, n, k, j - w);
                assert(all[j] == rest[j - w]);
                assert(all[i] == seq![start] + with_first[i]);
                assert(all[i][0] == start);
                assert(all[j][0] >= start + 1);
            } else {
                lemma_combinations_are_increasing(start + 1, n, k, i - w);
                assert(all[i] == rest[i - w]);
                assert(all[j] == seq![start] + with_first[j]);
                assert(all[j][0] == start);
                assert(all[i][0] >= start + 1);
            }
        }
    }
}

/// Whether `a` comes before `b` in lexicographic order: at the first position
/// where they differ, `a` has the smaller index.
pub open spec fn lex_before(a: Seq<int>, b: Seq<int>) -> bool {
    exists|k: int|
        0 <= k < a.len() && k < b.len() && (forall|j: int| 0 <= j < k ==> a[j] == b[j]) && #[trigger] a[k]
            < #[trigger] b[k]
}

/// The combinations come in lexicographic order.
pub proof fn lemma_combinations_are_ordered(start: int, n: int, k: nat)
    ensures
        forall|i: int, j: int|
            0 <= i < j < index_combinations(start, n, k).len() ==> lex_before(
                #[trigger] index_combinations(start, n, k)[i],
                #[trigger] index_combinations(start, n, k)[j],
            ),
    decreases n - start, k,
{
    if k > 0 && start < n {
        let with_first = index_combinations(start + 1, n, (k - 1) as nat);
        let rest = index_combinations(start + 1, n, k);
        let all = index_combinations(start, n, k);
        let w = with_first.len();
        lemma_combinations_are_ordered(start + 1, n, (k - 1) as nat);
        lemma_combinations_are_ordered(start + 1, n, k);
        assert forall|i: int, j: int| 0 <= i < j < all.len() implies lex_before(
            #[trigger] all[i],
            #[trigger] all[j],
        ) by {
            if j < w {
                let a = with_first[i];
                let b = with_first[j];
                assert(lex_before(a, b));
                let m = choose|m: int|
                    0 <= m < a.len() && m < b.len() && (forall|x: int| 0 <= x < m ==> a[x] == b[x])
                        && #[trigger] a[m] < #[trigger] b[m];
                assert(all[i] == seq![start] + a);
                assert(all[j] == seq![start] + b);
                assert(all[i][m + 1] == a[m] && all[j][m + 1] == b[m]);
                assert forall|x: int| 0 <= x < m + 1 implies all[i][x] == all[j][x] by {
                    if x > 0 {
                        assert(all[i][x] == a[x - 1] && all[j][x] == b[x - 1]);
                    }
                }
            } else if i >= w {
                assert(all[i] == rest[i - w] && all[j] == rest[j - w]);
                assert(lex_before(rest[i - w], rest[j - w]));
            } else {
                lemma_combinations_are_increasing(start + 1, n, k, j - w);
                lemma_combinations_are_increasing(start + 1, n, (k - 1) as nat, i);
                assert(all[i] == seq![start] + with_first[i]);
                assert(all[j] == rest[j - w]);
                assert(all[i][0] == start);
                assert(all[j][0] >= start + 1);
                assert(all[i][0] < all[j][0]);
            }
        }
    }
}

/// Filtering keeps the relative order of what it keeps.
proof fn lemma_filter_keeps_order(s: Seq<Seq<int>>, p: spec_fn(Seq<int>) -> bool)
    requires
        forall|i: int, j: int| 0 <= i < j < s.len() ==> lex_before(#[trigger] s[i], #[trigger] s[j]),
    ensures
        forall|i: int, j: int|
            0 <= i < j < s.filter(p).len() ==> lex_before(
                #[trigger] s.filter(p)[i],
                #[trigger] s.filter(p)[j],
            ),
    decreases s.len(),
{
    if s.len() > 0 {
        let t = s.drop_last();
        let x = s.last();
        assert(t.push(x) =~= s);
        assert forall|i: int, j: int| 0 <= i < j < t.len() implies lex_before(
            #[trigger] t[i],
            #[trigger] t[j],
        ) by {
            assert(t[i] == s[i] && t[j] == s[j]);
        }
        lemma_filter_keeps_order(t, p);
        t.lemma_filter_push(x, p);
        let f = s.filter(p);
        let ft = t.filter(p);
        if p(x) {
            assert forall|i: int, j: int| 0 <= i < j < f.len() implies lex_before(
                #[trigger] f[i],
                #[trigger] f[j],
            ) by {
                if j < ft.len() {
                    assert(f[i] == ft[i] && f[j] == ft[j]);
                } else {
                    assert(f[j] == x);
                    assert(f[i] == ft[i]);
                    assert(ft.contains(ft[i]));
                    t.lemma_filter_contains_rev(p, ft[i]);
                    let m = choose|m: int| 0 <= m < t.len() && t[m] == ft[i];
                    assert(s[m] == t[m]);
                    assert(s[s.len() - 1] == x);
                    assert(lex_before(s[m], s[s.len() - 1]));
                }
            }
        }
    }
}

/// The chains come in lexicographic order of the picked positions.
pub proof fn lemma_core_chains_are_ordered(modalities: Seq<ModalityAspectWithLevel>, k: nat)
    ensures
        forall|i: int, j: int|
            0 <= i < j < core_chains(modalities, k).len() ==> lex_before(
                #[trigger] core_chains(modalities, k)[i],
                #[trigger] core_chains(modalities, k)[j],
            ),
{
    lemma_combinations_are_ordered(0, modalities.len() as int, k);
    lemma_filter_keeps_order(
        index_combinations(0, modalities.len() as int, k),
        starts_at_core(modalities),
    );
}

/// The combinations of `k` entries of `modalities` from index `start` on, in
/// the order of `index_combinations`.
fn combinations_from(modalities: &Vec<ModalityAspectWithLevel>, start: usize, k: usize) -> (r: Vec<
    Vec<ModalityAspectWithLevel>,
>)
    requires
        start <= modalities@.len(),
    ensures
        r@.len() == index_combinations(start as int, modalities@.len() as int, k as nat).len(),
        forall|i: int|
            0 <= i < r@.len() ==> #[trigger] r@[i]@ == pick(
                modalities@,
                index_combinations(start as int, modalities@.len() as int, k as nat)[i],
            ),
    decreases modalities@.len() - start,
{
    let n = modalities.len();
    let ghost combos = index_combinations(start as int, n as int, k as nat);
    if k == 0 {
        let mut r: Vec<Vec<ModalityAspectWithLevel>> = Vec::new();
        r.push(Vec::new());
        proof {
            assert(combos[0] == Seq::<int>::empty());
            assert(r@[0]@ =~= pick(modalities@, combos[0]));
        }
        return r;
    }
    if start >= n {
        return Vec::new();
    }
    let with_first = combinations_from(modalities, start + 1, k - 1);
    let ghost with_first_idx = index_combinations(start + 1, n as int, (k - 1) as nat);
    let mut result: Vec<Vec<ModalityAspectWithLevel>> = Vec::new();
    let m = with_first.len();
    for i in 0..m
        invariant
            m == with_first@.len(),
            m == with_first_idx.len(),
            start < n,
            n == modalities@.len(),
            forall|a: int|
                0 <= a < m ==> #[trigger] with_first@[a]@ == pick(modalities@, with_first_idx[a]),
            result@.len() == i,
            forall|a: int|
                0 <= a < i ==> #[trigger] result@[a]@ == pick(
                    modalities@,
                    seq![start as int] + with_first_idx[a],
                ),
    {
        let tail = &with_first[i];
        let mut c: Vec<ModalityAspectWithLevel> = Vec::new();
        c.push(modalities[start].duplicate());
        let t = tail.len();
        for j in 0..t
            invariant
                t == tail@.len(),
                start < modalities@.len(),
                c@ == seq![modalities@[start as int]] + tail@.take(j as int),
        {
            proof {
                assert(tail@.take(j + 1) =~= tail@.take(j as int).push(tail@[j as int]));
            }
            c.push(tail[j].duplicate());
        }
        proof {
            assert(tail@.take(t as int) =~= tail@);
            assert(c@ =~= pick(modalities@, seq![start as int] + with_first_idx[i as int]));
        }
        result.push(c);
    }
    let mut rest = combinations_from(modalities, start + 1, k);
    let ghost before = result@;
    let ghost rest_view = rest@;
    result.append(&mut rest);
    proof {
        let rest_idx = index_combinations(start + 1, n as int, k as nat);
        assert(combos == with_first_idx.map_values(|c: Seq<int>| seq![start as int] + c)
            + rest_idx);
        assert forall|i: int| 0 <= i < result@.len() implies #[trigger] result@[i]@ == pick(
            modalities@,
            combos[i],
        ) by {
            if i < m {
                assert(result@[i] == before[i]);
            } else {
                assert(result@[i] == rest_view[i - m]);
            }
        }
    }
    result
}

/// The core level of a set of modalities: the lowest level among them (0 where
/// there are none).
pub open spec fn core_level(modalities: Seq<ModalityAspectWithLevel>) -> u32
    decreases modalities.len(),
{
    if modalities.len() == 0 {
        0
    } else if modalities.len() == 1 {
        modalities[0].level
    } else {
        let m = core_level(modalities.drop_last());
        if modalities.last().level < m {
            modalities.last().level
        } else {
            m
        }
    }
}

/// Whether a pick of positions starts at the core layer: it is empty, or its
/// first modality is of the core level.
pub open spec fn starts_at_core(modalities: Seq<ModalityAspectWithLevel>) -> spec_fn(Seq<int>) -> bool {
    |c: Seq<int>| c.len() == 0 || modalities[c[0]].level == core_level(modalities)
}

/// The chains of `k` modalities: the order-keeping picks of `k` positions that
/// start at the core layer, in lexicographic order.
pub open spec fn core_chains(modalities: Seq<ModalityAspectWithLevel>, k: nat) -> Seq<Seq<int>> {
    index_combinations(0, modalities.len() as int, k).filter(starts_at_core(modalities))
}

/// The core level is the lowest level: no modality is below it, and one is at
/// it where there are any.
pub proof fn lemma_core_level_is_lowest(modalities: Seq<ModalityAspectWithLevel>)
    ensures
        forall|i: int|
            0 <= i < modalities.len() ==> core_level(modalities) <= #[trigger] modalities[i].level,
        modalities.len() > 0 ==> exists|i: int|
            0 <= i < modalities.len() && #[trigger] modalities[i].level == core_level(modalities),
    decreases modalities.len(),
{
    if modalities.len() > 1 {
        let rest = modalities.drop_last();
        lemma_core_level_is_lowest(rest);
        assert forall|i: int| 0 <= i < modalities.len() implies core_level(modalities)
            <= #[trigger] modalities[i].level by {
            if i < rest.len() {
                assert(modalities[i] == rest[i]);
            }
        }
        if modalities.last().level < core_level(rest) {
            assert(modalities[modalities.len() - 1].level == core_level(modalities));
        } else {
            let j = choose|j: int| 0 <= j < rest.len() && #[trigger] rest[j].level == core_level(rest);
            assert(modalities[j] == rest[j]);
        }
    } else if modalities.len() == 1 {
        assert(modalities[0].level == core_level(modalities));
    }
}

/// Every chain has `k` positions, strictly increasing, and starts at the core
/// layer.
pub proof fn lemma_core_chains_are_sound(modalities: Seq<ModalityAspectWithLevel>, k: nat, i: int)
    requires
        0 <= i < core_chains(modalities, k).len(),
    ensures
        core_chains(modalities, k)[i].len() == k,
        increasing_within(core_chains(modalities, k)[i], 0, modalities.len() as int),
        starts_at_core(modalities)(core_chains(modalities, k)[i]),
{
    let all = index_combinations(0, modalities.len() as int, k);
    let p = starts_at_core(modalities);
    all.lemma_filter_pred(p, i);
    assert(all.filter(p).contains(all.filter(p)[i]));
    all.lemma_filter_contains_rev(p, all.filter(p)[i]);
    let j = choose|j: int| 0 <= j < all.len() && all[j] == all.filter(p)[i];
    lemma_combinations_are_increasing(0, modalities.len() as int, k, j);
}

/// Every strictly increasing pick of `k` positions that starts at the core layer
/// is one of the chains.
pub proof fn lemma_core_chains_are_complete(
    modalities: Seq<ModalityAspectWithLevel>,
    k: nat,
    c: Seq<int>,
)
    requires
        c.len() == k,
        increasing_within(c, 0, modalities.len() as int),
        starts_at_core(modalities)(c),
    ensures
        core_chains(modalities, k).contains(c),
{
    let all = index_combinations(0, modalities.len() as int, k);
    lemma_combinations_are_complete(0, modalities.len() as int, k, c);
    let j = choose|j: int| 0 <= j < all.len() && all[j] == c;
    all.lemma_filter_contains(starts_at_core(modalities), j);
}

/// The lowest level among the modalities (0 where there are none).
fn lowest_level(modalities: &Vec<ModalityAspectWithLevel>) -> (r: u32)
    ensures
        r == core_level(modalities@),
{
    let n = modalities.len();
    if n == 0 {
        return 0;
    }
    let mut m = modalities[0].level;
    proof {
        assert(modalities@.take(1) =~= seq![modalities@[0]]);
    }
    for i in 1..n
        invariant
            n == modalities@.len(),
            m == core_level(modalities@.take(i as int)),
    {
        proof {
            assert(modalities@.take(i + 1).drop_last() =~= modalities@.take(i as int));
        }
        if modalities[i].level < m {
            m = modalities[i].level;
        }
    }
    proof {
        assert(modalities@.take(n as int) =~= modalities@);
    }
    m
}

/// A copy of a chain, modality by modality.
fn copy_chain(c: &Vec<ModalityAspectWithLevel>) -> (r: Vec<ModalityAspectWithLevel>)
    ensures
        r@ == c@,
{
    let mut r: Vec<ModalityAspectWithLevel> = Vec::new();
    for i in 0..c.len()
        invariant
            r@ == c@.take(i as int),
    {
        proof {
            assert(c@.take(i + 1) =~= c@.take(i as int).push(c@[i as int]));
        }
        r.push(c[i].duplicate());
    }
    proof {
        assert(c@.take(c@.len() as int) =~= c@);
    }
    r
}

/// The chains of `length` modalities that can be built from the given ones:
/// every way to pick `length` of them keeping their order whose first pick is of
/// the core (lowest) level, as the command that builds all chains asks, in
/// lexicographic order of the picked positions.
pub fn generate_modality_combinations(
    modalities_with_levels: &Vec<ModalityAspectWithLevel>,
    length: usize,
) -> (r: Vec<Vec<ModalityAspectWithLevel>>)
    ensures
        r@.len() == core_chains(modalities_with_levels@, length as nat).len(),
        forall|i: int|
            0 <= i < r@.len() ==> #[trigger] r@[i]@ == pick(
                modalities_with_levels@,
                core_chains(modalities_with_levels@, length as nat)[i],
            ),
{
    let ghost mods = modalities_with_levels@;
    let ghost combos = index_combinations(0, mods.len() as int, length as nat);
    let ghost p = starts_at_core(mods);
    let all = combinations_from(modalities_with_levels, 0, length);
    let core = lowest_level(modalities_with_levels);
    let mut r: Vec<Vec<ModalityAspectWithLevel>> = Vec::new();
    let n = all.len();
    proof {
        assert(combos.take(0) =~= Seq::<Seq<int>>::empty());
        assert(Seq::<Seq<int>>::empty().filter(p) =~= Seq::<Seq<int>>::empty()) by {
            reveal(Seq::filter);
        }
    }
    for i in 0..n
        invariant
            n == all@.len(),
            n == combos.len(),
            mods == modalities_with_levels@,
            combos == index_combinations(0, mods.len() as int, length as nat),
            p == starts_at_core(mods),
            core == core_level(mods),
            forall|j: int| 0 <= j < n ==> #[trigger] all@[j]@ == pick(mods, combos[j]),
            r@.len() == combos.take(i as int).filter(p).len(),
            forall|j: int|
                0 <= j < r@.len() ==> #[trigger] r@[j]@ == pick(
                    mods,
                    combos.take(i as int).filter(p)[j],
                ),
    {
        let c = &all[i];
        proof {
            assert(combos.take(i + 1) =~= combos.take(i as int).push(combos[i as int]));
            combos.take(i as int).lemma_filter_push(combos[i as int], p);
            assert(c@ == pick(mods, combos[i as int]));
            assert(c@.len() == combos[i as int].len());
            if c@.len() > 0 {
                assert(c@[0] == mods[combos[i as int][0]]);
            }
        }
        let keep = c.len() == 0 || c[0].level == core;
        if keep {
            let copy = copy_chain(c);
            r.push(copy);
        }
    }
    proof {
        assert(combos.take(n as int) =~= combos);
    }
    r
}

/// How many utterances a chain gets: the length asked for, or one for each of the
/// character's modalities where none was asked for.
pub fn chain_length(requested: Option<usize>, modality_count: usize) -> (r: usize)
    ensures
        r == match requested {
            Some(n) => n,
            None => modality_count,
        },
{
    match requested {
        Some(n) => n,
        None => modality_count,
    }
}

/// The modality used at `step` of a chain: the modalities are taken in their
/// order and start over once all are used.
pub fn chain_aspect(modalities_with_levels: &Vec<ModalityAspectWithLevel>, step: usize) -> (r:
    &ModalityAspectWithLevel)
    requires
        modalities_with_levels@.len() > 0,
    ensures
        *r == modalities_with_levels@[(step as int) % (modalities_with_levels@.len() as int)],
{
    &modalities_with_levels[step % modalities_with_levels.len()]
}

/// Whether chains of `length` utterances can be built from `modality_count`
/// modalities: one modality is used once per chain, so there must be enough.
pub fn can_build_chains(modality_count: usize, length: usize) -> (r: bool)
    ensures
        r == (modality_count >= length),
{
    modality_count >= length
}

/// The first of `utterances` that the character spoke on the substant with the
/// given text at the given depth.
pub open spec fn existing_utterance(
    utterances: Seq<Utterance>,
    character_id: Seq<char>,
    substant_id: Seq<char>,
    utterance_text: Seq<char>,
    construction_depth: usize,
) -> Option<Utterance>
    decreases utterances.len(),
{
    if utterances.len() == 0 {
        None
    } else {
        let u = utterances[0];
        if u.character_id@ == character_id && u.substant_id@ == substant_id && u.utterance@
            == utterance_text && u.construction_depth == construction_depth {
            Some(u)
        } else {
            existing_utterance(
                utterances.drop_first(),
                character_id,
                substant_id,
                utterance_text,
                construction_depth,
            )
        }
    }
}

/// A reused utterance is one the character spoke on that substant with that text
/// at that depth, and it is one of the stored utterances.
pub proof fn lemma_existing_utterance_matches(
    utterances: Seq<Utterance>,
    character_id: Seq<char>,
    substant_id: Seq<char>,
    utterance_text: Seq<char>,
    construction_depth: usize,
)
    ensures
        existing_utterance(utterances, character_id, substant_id, utterance_text, construction_depth)
            matches Some(u) ==> u.character_id@ == character_id && u.substant_id@ == substant_id
            && u.utterance@ == utterance_text && u.construction_depth == construction_depth
            && utterances.contains(u),
    decreases utterances.len(),
{
    if utterances.len() > 0 {
        let rest = utterances.drop_first();
        lemma_existing_utterance_matches(rest, character_id, substant_id, utterance_text, construction_depth);
        if let Some(u) = existing_utterance(
            rest,
            character_id,
            substant_id,
            utterance_text,
            construction_depth,
        ) {
            let j = choose|j: int| 0 <= j < rest.len() && rest[j] == u;
            assert(utterances[j + 1] == u);
        }
        assert(utterances.contains(utterances[0]));
    }
}

/// The search for a stored utterance to reuse finds the first one the character
/// spoke on the substant with that text at that depth: where one exists the
/// result is the earliest such, and only where none exists is there no result.
pub proof fn lemma_existing_utterance_is_first(
    utterances: Seq<Utterance>,
    character_id: Seq<char>,
    substant_id: Seq<char>,
    utterance_text: Seq<char>,
    construction_depth: usize,
)
    ensures
        existing_utterance(utterances, character_id, substant_id, utterance_text, construction_depth)
            matches Some(u) ==> exists|i: int|
            0 <= i < utterances.len() && utterances[i] == u && ((#[trigger] utterances[i]).character_id@ == character_id && utterances[i].substant_id@ == substant_id && utterances[i].utterance@ == utterance_text && utterances[i].construction_depth == construction_depth) && forall|j: int|
                0 <= j < i ==> !((#[trigger] utterances[j]).character_id@ == character_id && utterances[j].substant_id@ == substant_id && utterances[j].utterance@ == utterance_text && utterances[j].construction_depth == construction_depth),
        (existing_utterance(utterances, character_id, substant_id, utterance_text, construction_depth)
            is None) == (forall|i: int| 0 <= i < utterances.len() ==> !((#[trigger] utterances[i]).character_id@ == character_id && utterances[i].substant_id@ == substant_id && utterances[i].utterance@ == utterance_text && utterances[i].construction_depth == construction_depth)),
    decreases utterances.len(),
{
    if utterances.len() > 0 {
        let rest = utterances.drop_first();
        lemma_existing_utterance_is_first(rest, character_id, substant_id, utterance_text, construction_depth);
        if ((#[trigger] utterances[0]).character_id@ == character_id && utterances[0].substant_id@ == substant_id && utterances[0].utterance@ == utterance_text && utterances[0].construction_depth == construction_depth) {
            assert(utterances[0] == utterances[0]);
        } else {
            if let Some(u) = existing_utterance(
                utterances,
                character_id,
                substant_id,
                utterance_text,
                construction_depth,
            ) {
                let i = choose|i: int|
                    0 <= i < rest.len() && rest[i] == u && ((#[trigger] rest[i]).character_id@ == character_id && rest[i].substant_id@ == substant_id && rest[i].utterance@ == utterance_text && rest[i].construction_depth == construction_depth) && forall|j: int|
                        0 <= j < i ==> !((#[trigger] rest[j]).character_id@ == character_id && rest[j].substant_id@ == substant_id && rest[j].utterance@ == utterance_text && rest[j].construction_depth == construction_depth);
                assert(utterances[i + 1] == rest[i]);
                assert forall|j: int| 0 <= j < i + 1 implies !((#[trigger] utterances[j]).character_id@ == character_id && utterances[j].substant_id@ == substant_id && utterances[j].utterance@ == utterance_text && utterances[j].construction_depth == construction_depth) by {
                    if j > 0 {
                        assert(utterances[j] == rest[j - 1]);
                    }
                }
            }
            if forall|i: int| 0 <= i < rest.len() ==> !((#[trigger] rest[i]).character_id@ == character_id && rest[i].substant_id@ == substant_id && rest[i].utterance@ == utterance_text && rest[i].construction_depth == construction_depth) {
                assert forall|i: int| 0 <= i < utterances.len() implies !((#[trigger] utterances[i]).character_id@ == character_id && utterances[i].substant_id@ == substant_id && utterances[i].utterance@ == utterance_text && utterances[i].construction_depth == construction_depth) by {
                    if i > 0 {
                        assert(utterances[i] == rest[i - 1]);
                    }
                }
            } else {
                let i = choose|i: int| 0 <= i < rest.len() && ((#[trigger] rest[i]).character_id@ == character_id && rest[i].substant_id@ == substant_id && rest[i].utterance@ == utterance_text && rest[i].construction_depth == construction_depth);
                assert(utterances[i + 1] == rest[i]);
            }
        }
    }
}

/// The first stored utterance that the character already spoke on the substant
/// with the same text at the same depth of a chain, so that it can be reused.
pub fn find_existing_utterance<'a>(
    utterances: &'a Vec<Utterance>,
    character_id: &str,
    substant_id: &str,
    utterance_text: &str,
    construction_depth: usize,
) -> (r: Option<&'a Utterance>)
    ensures
        match r {
            Some(u) => existing_utterance(
                utterances@,
                character_id@,
                substant_id@,
                utterance_text@,
                construction_depth,
            ) == Some(*u),
            None => existing_utterance(
                utterances@,
                character_id@,
                substant_id@,
                utterance_text@,
                construction_depth,
            ) is None,
        },
        match r {
            Some(u) => exists|i: int|
                0 <= i < utterances@.len() && utterances@[i] == *u && ((#[trigger] utterances@[i]).character_id@ == character_id@ && utterances@[i].substant_id@ == substant_id@ && utterances@[i].utterance@ == utterance_text@ && utterances@[i].construction_depth == construction_depth) && forall|j: int|
                    0 <= j < i ==> !((#[trigger] utterances@[j]).character_id@ == character_id@ && utterances@[j].substant_id@ == substant_id@ && utterances@[j].utterance@ == utterance_text@ && utterances@[j].construction_depth == construction_depth),
            None => forall|i: int| 0 <= i < utterances@.len() ==> !((#[trigger] utterances@[i]).character_id@ == character_id@ && utterances@[i].substant_id@ == substant_id@ && utterances@[i].utterance@ == utterance_text@ && utterances@[i].construction_depth == construction_depth),
        },
{
    proof {
        lemma_existing_utterance_is_first(
            utterances@,
            character_id@,
            substant_id@,
            utterance_text@,
            construction_depth,
        );
    }
    let n = utterances.len();
    let mut i: usize = 0;
    proof {
        assert(utterances@.skip(0) =~= utterances@);
    }
    while i < n
        invariant
            i <= n,
            n == utterances@.len(),
            existing_utterance(
                utterances@,
                character_id@,
                substant_id@,
                utterance_text@,
                construction_depth,
            ) == existing_utterance(
                utterances@.skip(i as int),
                character_id@,
                substant_id@,
                utterance_text@,
                construction_depth,
            ),
        decreases n - i,
    {
        proof {
            assert(utterances@.skip(i as int).drop_first() =~= utterances@.skip(i + 1));
        }
        let u = &utterances[i];
        if str_eq(u.character_id.as_str(), character_id) && str_eq(u.substant_id.as_str(), substant_id)
            && str_eq(u.utterance.as_str(), utterance_text) && u.construction_depth
            == construction_depth {
            proof {
                lemma_existing_utterance_is_first(
                    utterances@,
                    character_id@,
                    substant_id@,
                    utterance_text@,
                    construction_depth,
                );
            }
            return Some(u);
        }
        i = i + 1;
    }
    None
}

/// Where a chain of utterances stands: the message the next utterance is built
/// from, and the utterance it follows.
pub struct ChainState {
    pub current_message: String,
    pub previous_utterance_id: Option<String>,
}

/// Whether the chain stands just past `u`: it goes on from `u`'s text and
/// follows `u`.
pub open spec fn stands_after(state: ChainState, u: Utterance) -> bool {
    &&& state.current_message@ == u.utterance@
    &&& opt_string_view(state.previous_utterance_id) == Some(u.id@)
}

/// Each utterance made in a chain that stands past `u` is built on `u`: it
/// names `u` as what it was constructed from.
pub proof fn lemma_chain_links_utterances(
    state: ChainState,
    u: Utterance,
    next: Utterance,
    step: usize,
    character_id: Seq<char>,
    substant_id: Seq<char>,
    message_text: Seq<char>,
    insight: Option<Seq<char>>,
    aspect_id: Seq<char>,
)
    requires
        stands_after(state, u),
        utterance_holds(
            next,
            character_id,
            substant_id,
            message_text,
            insight,
            step,
            opt_string_view(state.previous_utterance_id),
            Some(aspect_id),
        ),
    ensures
        opt_string_view(next.constructed_from) == Some(u.id@),
        next.construction_depth == step,
{
}

/// Which command a chain runs under: a single chain (`chain`), every chain of
/// one character on one substant (`all-chains`), or every chain of the whole
/// campaign (`generate-campaign`).
#[derive(Debug, Clone, Copy, PartialEq, Eq, Structural)]
pub enum ChainMode {
    Single,
    AllChains,
    Campaign,
}

/// What came of one step of a chain.
pub enum StepOutcome {
    /// A stored utterance with the generated text was found and is reused.
    Reused(Utterance),
    /// A new utterance was made and saved.
    Saved(Utterance),
    /// A new utterance was made but saving it failed.
    SaveFailed(Utterance),
    /// The language model gave no construction.
    GenerationFailed,
}

/// What to do after a step.
#[derive(Debug, Clone, Copy, PartialEq, Eq, Structural)]
pub enum StepAction {
    /// Go on with the next step of the chain.
    Continue,
    /// Leave this chain and go on with the next one.
    StopChain,
    /// Stop the whole command.
    StopCommand,
}

/// How many utterances a run has made and reused.
pub struct GenerationTally {
    pub created: usize,
    pub reused: usize,
}

impl GenerationTally {
    /// A tally of nothing.
    pub fn new() -> (r: GenerationTally)
        ensures
            r.created == 0,
            r.reused == 0,
    {
        GenerationTally { created: 0, reused: 0 }
    }

    /// All utterances of the run, made or reused.
    pub fn total(&self) -> (r: u128)
        ensures
            r == self.created + self.reused,
    {
        self.created as u128 + self.reused as u128
    }
}

/// The state and tally after a step, and what to do next: a reused or saved
/// utterance is followed and counted; a failed save stops a single chain's
/// command, is followed anyway among all chains, and is passed over in a whole
/// campaign; a failed generation stops a single chain's command and otherwise
/// only the chain.
pub open spec fn step_effect(
    state: ChainState,
    tally: GenerationTally,
    mode: ChainMode,
    outcome: StepOutcome,
    next: ChainState,
    next_tally: GenerationTally,
    action: StepAction,
) -> bool {
    match outcome {
        StepOutcome::Reused(u) => stands_after(next, u) && next_tally.created == tally.created
            && next_tally.reused == tally.reused + 1 && action == StepAction::Continue,
        StepOutcome::Saved(u) => stands_after(next, u) && next_tally.created == tally.created + 1
            && next_tally.reused == tally.reused && action == StepAction::Continue,
        StepOutcome::SaveFailed(u) => next_tally == tally && match mode {
            ChainMode::Single => next == state && action == StepAction::StopCommand,
            ChainMode::AllChains => stands_after(next, u) && action == StepAction::Continue,
            ChainMode::Campaign => next == state && action == StepAction::Continue,
        },
        StepOutcome::GenerationFailed => next == state && next_tally == tally && action == (
        match mode {
            ChainMode::Single => StepAction::StopCommand,
            _ => StepAction::StopChain,
        }),
    }
}

/// A step that reused or saved an utterance never ends the chain or the
/// command, in any mode: the chain goes on from that utterance's text and
/// follows it, and the tally counts it once.
pub proof fn lemma_followed_steps_continue(
    state: ChainState,
    tally: GenerationTally,
    mode: ChainMode,
    outcome: StepOutcome,
    next: ChainState,
    next_tally: GenerationTally,
    action: StepAction,
)
    requires
        step_effect(state, tally, mode, outcome, next, next_tally, action),
    ensures
        outcome matches StepOutcome::Saved(u) ==> action == StepAction::Continue
            && next.current_message@ == u.utterance@ && (next.previous_utterance_id matches Some(
            p,
        ) && p@ == u.id@) && next_tally.created == tally.created + 1,
        outcome matches StepOutcome::Reused(u) ==> action == StepAction::Continue
            && next.current_message@ == u.utterance@ && (next.previous_utterance_id matches Some(
            p,
        ) && p@ == u.id@) && next_tally.reused == tally.reused + 1,
{
}

impl ChainState {
    /// Takes one step's outcome into the chain (see `step_effect`).
    pub fn record_step(
        &mut self,
        tally: &mut GenerationTally,
        mode: ChainMode,
        outcome: &StepOutcome,
    ) -> (r: StepAction)
        requires
            old(tally).created < usize::MAX,
            old(tally).reused < usize::MAX,
        ensures
            step_effect(*old(self), *old(tally), mode, *outcome, *final(self), *final(tally), r),
            match *outcome {
                StepOutcome::Saved(u) => r == StepAction::Continue && final(self).current_message@
                    == u.utterance@ && (final(self).previous_utterance_id matches Some(p) && p@
                    == u.id@) && final(tally).created == old(tally).created + 1
                    && final(tally).reused == old(tally).reused,
                StepOutcome::Reused(u) => r == StepAction::Continue && final(self).current_message@
                    == u.utterance@ && (final(self).previous_utterance_id matches Some(p) && p@
                    == u.id@) && final(tally).reused == old(tally).reused + 1
                    && final(tally).created == old(tally).created,
                StepOutcome::SaveFailed(u) => final(tally).created == old(tally).created
                    && final(tally).reused == old(tally).reused && match mode {
                    ChainMode::Single => r == StepAction::StopCommand && *final(self) == *old(self),
                    ChainMode::AllChains => r == StepAction::Continue
                        && final(self).current_message@ == u.utterance@ && (
                    final(self).previous_utterance_id matches Some(p) && p@ == u.id@),
                    ChainMode::Campaign => r == StepAction::Continue && *final(self) == *old(self),
                },
                StepOutcome::GenerationFailed => *final(self) == *old(self) && final(tally).created
                    == old(tally).created && final(tally).reused == old(tally).reused && r == (
                if mode == ChainMode::Single {
                    StepAction::StopCommand
                } else {
                    StepAction::StopChain
                }),
            },
    {
        match outcome {
            StepOutcome::Reused(u) => {
                self.follow(u);
                tally.reused = tally.reused + 1;
                StepAction::Continue
            },
            StepOutcome::Saved(u) => {
                self.follow(u);
                tally.created = tally.created + 1;
                StepAction::Continue
            },
            StepOutcome::SaveFailed(u) => match mode {
                ChainMode::Single => StepAction::StopCommand,
                ChainMode::AllChains => {
                    self.follow(u);
                    StepAction::Continue
                },
                ChainMode::Campaign => StepAction::Continue,
            },
            StepOutcome::GenerationFailed => match mode {
                ChainMode::Single => StepAction::StopCommand,
                _ => StepAction::StopChain,
            },
        }
    }

    /// A chain that starts from a substant's factoid and follows no utterance.
    pub fn start(factoid: &str) -> (r: ChainState)
        ensures
            r.current_message@ == factoid@,
            r.previous_utterance_id is None,
    {
        ChainState { current_message: String::from_str(factoid), previous_utterance_id: None }
    }

    /// Moves the chain on past `utterance`, new or reused: the next utterance is
    /// built from its text and follows it.
    pub fn follow(&mut self, utterance: &Utterance)
        ensures
            stands_after(*final(self), *utterance),
            final(self).current_message@ == utterance.utterance@,
            final(self).previous_utterance_id matches Some(p) && p@ == utterance.id@,
    {
        self.current_message = utterance.utterance.clone();
        self.previous_utterance_id = Some(utterance.id.clone());
    }

    /// The utterance made at `step` of the chain: it has a fresh id, is built
    /// from the utterance the chain follows, at depth `step`, with the aspect
    /// that was used.
    pub fn new_utterance(
        &self,
        step: usize,
        character_id: &str,
        substant_id: &str,
        message_text: &str,
        insight: Option<&str>,
        aspect_id: &str,
    ) -> (r: Utterance)
        ensures
            is_hyphenated_v4_uuid(r.id@),
            utterance_holds(
                r,
                character_id@,
                substant_id@,
                message_text@,
                opt_str_view(insight),
                step,
                opt_string_view(self.previous_utterance_id),
                Some(aspect_id@),
            ),
    {
        let previous: Option<&str> = match &self.previous_utterance_id {
            Some(id) => Some(id.as_str()),
            None => None,
        };
        create_utterance_with_insight(
            character_id,
            substant_id,
            message_text,
            insight,
            step,
            previous,
            Some(aspect_id),
        )
    }
}

} // verus!
