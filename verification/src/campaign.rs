use vstd::prelude::*;
use vstd::string::StrSliceExecFns;
use vstd::string::StringExecFns;
use crate::models::{
    CampaignData, Character, ModalityAspectWithLevel, ModalityLayer, Utterance, aspect_in_layers,
};
use crate::reply::opt_str_view;
use crate::reply::opt_string_view;
use crate::text::{chars_of, str_eq};

verus! {

/// The layer part of an aspect id written `layer:aspect`: what stands before the
/// first `:`, or the whole id where it has none.
pub open spec fn layer_id_of(aspect_id: Seq<char>) -> Seq<char>
    decreases aspect_id.len(),
{
    if aspect_id.len() == 0 || aspect_id[0] == ':' {
        Seq::empty()
    } else {
        seq![aspect_id[0]] + layer_id_of(aspect_id.drop_first())
    }
}

/// The level of the first layer whose id is `layer_id`.
pub open spec fn layer_level(layers: Seq<ModalityLayer>, layer_id: Seq<char>) -> Option<u32>
    decreases layers.len(),
{
    if layers.len() == 0 {
        None
    } else if layers[0].id@ == layer_id {
        Some(layers[0].level)
    } else {
        layer_level(layers.drop_first(), layer_id)
    }
}

/// The level an aspect is placed on: that of the layer named by its id, or 0
/// where no layer has that name.
pub open spec fn aspect_level(layers: Seq<ModalityLayer>, aspect_id: Seq<char>) -> u32 {
    match layer_level(layers, layer_id_of(aspect_id)) {
        Some(level) => level,
        None => 0,
    }
}

/// The aspects named by `ids` that some layer has, each with its level, in the
/// order of `ids`.
pub open spec fn levelled_aspects(layers: Seq<ModalityLayer>, ids: Seq<&str>) -> Seq<
    ModalityAspectWithLevel,
>
    decreases ids.len(),
{
    if ids.len() == 0 {
        Seq::empty()
    } else {
        let rest = levelled_aspects(layers, ids.drop_last());
        match aspect_in_layers(layers, ids.last()@) {
            Some(a) => rest.push(ModalityAspectWithLevel { aspect: a, level: aspect_level(layers, ids.last()@) }),
            None => rest,
        }
    }
}

/// The layer part of an aspect id is the text before its first `:`, or the
/// whole id where it has none.
pub proof fn lemma_layer_id_is_text_before_colon(aspect_id: Seq<char>)
    ensures
        exists|k: int|
            0 <= k <= aspect_id.len() && layer_id_of(aspect_id) == #[trigger] aspect_id.take(k)
                && (forall|j: int| 0 <= j < k ==> #[trigger] aspect_id[j] != ':') && (k
                < aspect_id.len() ==> aspect_id[k] == ':'),
    decreases aspect_id.len(),
{
    if aspect_id.len() == 0 || aspect_id[0] == ':' {
        assert(aspect_id.take(0) =~= Seq::<char>::empty());
    } else {
        let rest = aspect_id.drop_first();
        lemma_layer_id_is_text_before_colon(rest);
        let k = choose|k: int|
            0 <= k <= rest.len() && layer_id_of(rest) == #[trigger] rest.take(k) && (forall|j: int|
                0 <= j < k ==> #[trigger] rest[j] != ':') && (k < rest.len() ==> rest[k] == ':');
        assert(seq![aspect_id[0]] + rest.take(k) =~= aspect_id.take(k + 1));
        assert forall|j: int| 0 <= j < k + 1 implies #[trigger] aspect_id[j] != ':' by {
            if j > 0 {
                assert(aspect_id[j] == rest[j - 1]);
            }
        }
        if k + 1 < aspect_id.len() {
            assert(aspect_id[k + 1] == rest[k]);
        }
    }
}

/// The level lookup takes the first layer with the id asked for: where some
/// layer has that id the result is that layer's level, and only where none has
/// is there no result.
pub proof fn lemma_layer_level_is_first(layers: Seq<ModalityLayer>, layer_id: Seq<char>)
    ensures
        layer_level(layers, layer_id) matches Some(level) ==> exists|i: int|
            0 <= i < layers.len() && (#[trigger] layers[i]).id@ == layer_id && layers[i].level
                == level && forall|j: int| 0 <= j < i ==> (#[trigger] layers[j]).id@ != layer_id,
        (layer_level(layers, layer_id) is None) == (forall|i: int|
            0 <= i < layers.len() ==> (#[trigger] layers[i]).id@ != layer_id),
    decreases layers.len(),
{
    if layers.len() > 0 && layers[0].id@ != layer_id {
        let rest = layers.drop_first();
        lemma_layer_level_is_first(rest, layer_id);
        if let Some(level) = layer_level(layers, layer_id) {
            let i = choose|i: int|
                0 <= i < rest.len() && (#[trigger] rest[i]).id@ == layer_id && rest[i].level == level
                    && forall|j: int| 0 <= j < i ==> (#[trigger] rest[j]).id@ != layer_id;
            assert(layers[i + 1] == rest[i]);
            assert forall|j: int| 0 <= j < i + 1 implies (#[trigger] layers[j]).id@ != layer_id by {
                if j > 0 {
                    assert(layers[j] == rest[j - 1]);
                }
            }
        }
        if forall|i: int| 0 <= i < rest.len() ==> (#[trigger] rest[i]).id@ != layer_id {
            assert forall|i: int| 0 <= i < layers.len() implies (#[trigger] layers[i]).id@
                != layer_id by {
                if i > 0 {
                    assert(layers[i] == rest[i - 1]);
                }
            }
        } else {
            let i = choose|i: int| 0 <= i < rest.len() && (#[trigger] rest[i]).id@ == layer_id;
            assert(layers[i + 1] == rest[i]);
        }
    } else if layers.len() > 0 {
        assert(layers[0].id@ == layer_id);
    }
}

/// An aspect's level is that of the first layer named by the text before the
/// first `:` of its id, and 0 where no layer has that name.
pub proof fn lemma_aspect_level_of_named_layer(layers: Seq<ModalityLayer>, aspect_id: Seq<char>)
    ensures
        (forall|i: int| 0 <= i < layers.len() ==> (#[trigger] layers[i]).id@ != layer_id_of(aspect_id))
            ==> aspect_level(layers, aspect_id) == 0,
        (exists|i: int| 0 <= i < layers.len() && (#[trigger] layers[i]).id@ == layer_id_of(aspect_id))
            ==> exists|i: int|
            0 <= i < layers.len() && (#[trigger] layers[i]).id@ == layer_id_of(aspect_id)
                && aspect_level(layers, aspect_id) == layers[i].level && forall|j: int|
                0 <= j < i ==> (#[trigger] layers[j]).id@ != layer_id_of(aspect_id),
{
    lemma_layer_level_is_first(layers, layer_id_of(aspect_id));
}

/// The levelled aspects are exactly the known ones among the ids, in the order
/// of the ids: the returned positions `ks` are increasing, entry `i` is the
/// aspect found for id `ks[i]` at that id's level, and every id that names a
/// known aspect is among the positions.
pub proof fn lemma_levelled_aspects_select(layers: Seq<ModalityLayer>, ids: Seq<&str>) -> (ks: Seq<int>)
    ensures
        ks.len() == levelled_aspects(layers, ids).len(),
        forall|i: int|
            0 <= i < ks.len() ==> 0 <= #[trigger] ks[i] < ids.len() && aspect_in_layers(
                layers,
                ids[ks[i]]@,
            ) == Some(levelled_aspects(layers, ids)[i].aspect) && levelled_aspects(layers, ids)[i].level
                == aspect_level(layers, ids[ks[i]]@),
        forall|i: int, j: int| 0 <= i < j < ks.len() ==> #[trigger] ks[i] < #[trigger] ks[j],
        forall|k: int|
            0 <= k < ids.len() && aspect_in_layers(layers, (#[trigger] ids[k])@) is Some
                ==> ks.contains(k),
    decreases ids.len(),
{
    if ids.len() == 0 {
        Seq::empty()
    } else {
        let prev = ids.drop_last();
        let pk = lemma_levelled_aspects_select(layers, prev);
        let last = ids.len() - 1;
        assert forall|i: int| 0 <= i < prev.len() implies prev[i] == ids[i] by {}
        match aspect_in_layers(layers, ids.last()@) {
            Some(a) => {
                let ks = pk.push(last);
                assert forall|k: int|
                    0 <= k < ids.len() && aspect_in_layers(layers, (#[trigger] ids[k])@) is Some
                    implies ks.contains(k) by {
                    if k < last {
                        assert(prev[k] == ids[k]);
                        let i = choose|i: int| 0 <= i < pk.len() && pk[i] == k;
                        assert(ks[i] == k);
                    } else {
                        assert(ks[pk.len() as int] == k);
                    }
                }
                assert forall|i: int|
                    0 <= i < ks.len() implies 0 <= #[trigger] ks[i] < ids.len() && aspect_in_layers(
                    layers,
                    ids[ks[i]]@,
                ) == Some(levelled_aspects(layers, ids)[i].aspect) && levelled_aspects(
                    layers,
                    ids,
                )[i].level == aspect_level(layers, ids[ks[i]]@) by {
                    if i < pk.len() {
                        assert(ks[i] == pk[i]);
                        assert(prev[pk[i]] == ids[pk[i]]);
                    }
                }
                ks
            },
            None => {
                assert forall|k: int|
                    0 <= k < ids.len() && aspect_in_layers(layers, (#[trigger] ids[k])@) is Some
                    implies pk.contains(k) by {
                    assert(prev[k] == ids[k]);
                }
                assert forall|i: int|
                    0 <= i < pk.len() implies 0 <= #[trigger] pk[i] < ids.len() && aspect_in_layers(
                    layers,
                    ids[pk[i]]@,
                ) == Some(levelled_aspects(layers, ids)[i].aspect) && levelled_aspects(
                    layers,
                    ids,
                )[i].level == aspect_level(layers, ids[pk[i]]@) by {
                    assert(prev[pk[i]] == ids[pk[i]]);
                }
                pk
            },
        }
    }
}

/// The number of leading entries of `s` whose level is at most `level`: where an
/// entry of that level goes so that it follows every entry not above it.
pub open spec fn upper_bound(s: Seq<ModalityAspectWithLevel>, level: u32) -> nat
    decreases s.len(),
{
    if s.len() == 0 || s[0].level > level {
        0
    } else {
        1 + upper_bound(s.drop_first(), level)
    }
}

/// The insertion point never lies beyond the end.
pub proof fn lemma_upper_bound_within(s: Seq<ModalityAspectWithLevel>, level: u32)
    ensures
        upper_bound(s, level) <= s.len(),
    decreases s.len(),
{
    if s.len() > 0 && s[0].level <= level {
        lemma_upper_bound_within(s.drop_first(), level);
    }
}

/// `s` with `x` put after every leading entry whose level is not above that of `x`.
pub open spec fn insert_by_level(s: Seq<ModalityAspectWithLevel>, x: ModalityAspectWithLevel) -> Seq<
    ModalityAspectWithLevel,
> {
    s.insert(upper_bound(s, x.level) as int, x)
}

/// `s` ordered by level, low to high, entries of one level in the order of `s`:
/// each entry of `s` in turn put after the entries before it that are not above it.
pub open spec fn sort_by_level(s: Seq<ModalityAspectWithLevel>) -> Seq<ModalityAspectWithLevel>
    decreases s.len(),
{
    if s.len() == 0 {
        s
    } else {
        insert_by_level(sort_by_level(s.drop_last()), s.last())
    }
}

/// Whether the levels of `s` never decrease from one entry to a later one.
pub open spec fn ordered_by_level(s: Seq<ModalityAspectWithLevel>) -> bool {
    forall|i: int, j: int| 0 <= i < j < s.len() ==> #[trigger] s[i].level <= #[trigger] s[j].level
}

/// Whether an entry is of level `level`.
pub open spec fn at_level(level: u32) -> spec_fn(ModalityAspectWithLevel) -> bool {
    |m: ModalityAspectWithLevel| m.level == level
}

proof fn lemma_upper_bound_split(s: Seq<ModalityAspectWithLevel>, level: u32)
    requires
        ordered_by_level(s),
    ensures
        upper_bound(s, level) <= s.len(),
        forall|i: int| 0 <= i < upper_bound(s, level) ==> #[trigger] s[i].level <= level,
        forall|i: int| upper_bound(s, level) <= i < s.len() ==> #[trigger] s[i].level > level,
    decreases s.len(),
{
    if s.len() > 0 && s[0].level <= level {
        let t = s.drop_first();
        assert(ordered_by_level(t)) by {
            assert forall|i: int, j: int| 0 <= i < j < t.len() implies #[trigger] t[i].level
                <= #[trigger] t[j].level by {
                assert(t[i] == s[i + 1] && t[j] == s[j + 1]);
            }
        }
        lemma_upper_bound_split(t, level);
        assert forall|i: int| 0 <= i < upper_bound(s, level) implies #[trigger] s[i].level
            <= level by {
            if i > 0 {
                assert(s[i] == t[i - 1]);
            }
        }
        assert forall|i: int| upper_bound(s, level) <= i < s.len() implies #[trigger] s[i].level
            > level by {
            assert(s[i] == t[i - 1]);
        }
    } else if s.len() > 0 {
        assert forall|i: int| 0 <= i < s.len() implies #[trigger] s[i].level > level by {
            if i > 0 {
                assert(s[0].level <= s[i].level);
            }
        }
    }
}

proof fn lemma_insert_by_level_ordered(s: Seq<ModalityAspectWithLevel>, x: ModalityAspectWithLevel)
    requires
        ordered_by_level(s),
    ensures
        ordered_by_level(insert_by_level(s, x)),
{
    lemma_upper_bound_split(s, x.level);
    let k = upper_bound(s, x.level) as int;
    let t = insert_by_level(s, x);
    assert forall|i: int, j: int| 0 <= i < j < t.len() implies #[trigger] t[i].level
        <= #[trigger] t[j].level by {
        if j < k {
            assert(t[i] == s[i] && t[j] == s[j]);
        } else if j == k {
            assert(t[i] == s[i]);
        } else if i < k {
            assert(t[i] == s[i] && t[j] == s[j - 1]);
        } else if i == k {
            assert(t[j] == s[j - 1]);
        } else {
            assert(t[i] == s[i - 1] && t[j] == s[j - 1]);
        }
    }
}

/// Ordering by level gives levels that never decrease, low to high.
pub proof fn lemma_sort_by_level_ordered(s: Seq<ModalityAspectWithLevel>)
    ensures
        ordered_by_level(sort_by_level(s)),
    decreases s.len(),
{
    if s.len() > 0 {
        lemma_sort_by_level_ordered(s.drop_last());
        lemma_insert_by_level_ordered(sort_by_level(s.drop_last()), s.last());
    }
}

/// Ordering by level neither drops nor adds nor repeats an entry.
pub proof fn lemma_sort_by_level_permutes(s: Seq<ModalityAspectWithLevel>)
    ensures
        sort_by_level(s).to_multiset() == s.to_multiset(),
    decreases s.len(),
{
    broadcast use vstd::seq_lib::group_to_multiset_ensures;

    if s.len() > 0 {
        let rest = sort_by_level(s.drop_last());
        lemma_sort_by_level_permutes(s.drop_last());
        lemma_upper_bound_within(rest, s.last().level);
        let k = upper_bound(rest, s.last().level) as int;
        let t = rest.insert(k, s.last());
        assert(t.remove(k) =~= rest);
        assert(t[k] == s.last());
        assert(t.to_multiset() =~= rest.to_multiset().insert(s.last())) by {
            assert(t.remove(k).to_multiset() == t.to_multiset().remove(s.last()));
            assert(t.to_multiset().count(s.last()) > 0);
        }
        assert(s.drop_last().push(s.last()) =~= s);
    } else {
        assert(sort_by_level(s) == s);
    }
}

/// Ordering by level keeps the entries of each level in the order they had.
pub proof fn lemma_sort_by_level_stable(s: Seq<ModalityAspectWithLevel>, level: u32)
    ensures
        sort_by_level(s).filter(at_level(level)) == s.filter(at_level(level)),
    decreases s.len(),
{
    broadcast use vstd::seq_lib::group_seq_properties;

    if s.len() > 0 {
        let p = at_level(level);
        let x = s.last();
        let rest = sort_by_level(s.drop_last());
        lemma_sort_by_level_stable(s.drop_last(), level);
        lemma_sort_by_level_ordered(s.drop_last());
        lemma_upper_bound_split(rest, x.level);
        let k = upper_bound(rest, x.level) as int;
        let a = rest.take(k);
        let b = rest.skip(k);
        assert(rest =~= a + b);
        assert(rest.insert(k, x) =~= a + seq![x] + b);
        Seq::filter_distributes_over_add(a, b, p);
        Seq::filter_distributes_over_add(a + seq![x], b, p);
        Seq::filter_distributes_over_add(a, seq![x], p);
        assert(s.drop_last().push(x) =~= s);
        s.drop_last().lemma_filter_push(x, p);
        Seq::<ModalityAspectWithLevel>::empty().lemma_filter_push(x, p);
        assert(Seq::<ModalityAspectWithLevel>::empty().push(x) =~= seq![x]);
        assert(Seq::<ModalityAspectWithLevel>::empty().filter(p) =~= Seq::empty()) by {
            reveal(Seq::filter);
        }
        if x.level == level {
            assert forall|i: int| 0 <= i < b.len() implies !p(b[i]) by {
                assert(b[i] == rest[k + i]);
            }
            assert(b.all(|y: ModalityAspectWithLevel| !p(y)));
            b.lemma_all_neg_filter_empty(p);
            assert(b.filter(p) =~= Seq::empty());
            assert(a.filter(p) + seq![x] + b.filter(p) =~= (a.filter(p) + b.filter(p)).push(x));
        } else {
            assert(seq![x].filter(p) =~= Seq::empty());
            assert(a.filter(p) + Seq::empty() + b.filter(p) =~= a.filter(p) + b.filter(p));
        }
    } else {
        assert(sort_by_level(s) == s);
    }
}

/// The level of the layer named by `aspect_id` (see `aspect_level`).
fn level_of_aspect(campaign_data: &CampaignData, aspect_id: &str) -> (r: u32)
    ensures
        r == aspect_level(campaign_data.modalities@, aspect_id@),
{
    let v = chars_of(aspect_id);
    let n = v.len();
    let mut c: usize = 0;
    proof {
        assert(aspect_id@.skip(0) =~= aspect_id@);
        assert(aspect_id@.take(0) =~= Seq::<char>::empty());
    }
    while c < n && v[c] != ':'
        invariant
            c <= n,
            n == v@.len(),
            v@ == aspect_id@,
            layer_id_of(aspect_id@) == aspect_id@.take(c as int) + layer_id_of(
                aspect_id@.skip(c as int),
            ),
        decreases n - c,
    {
        proof {
            let rest = aspect_id@.skip(c as int);
            assert(rest.drop_first() =~= aspect_id@.skip(c + 1));
            assert(aspect_id@.take(c as int) + seq![rest[0]] =~= aspect_id@.take(c + 1));
            assert(aspect_id@.take(c as int) + (seq![rest[0]] + layer_id_of(rest.drop_first()))
                =~= aspect_id@.take(c + 1) + layer_id_of(rest.drop_first()));
        }
        c = c + 1;
    }
    proof {
        if c == n {
            assert(aspect_id@.skip(c as int) =~= Seq::<char>::empty());
        }
        assert(aspect_id@.take(c as int) + Seq::<char>::empty() =~= aspect_id@.take(c as int));
    }
    let layer_id = aspect_id.substring_char(0, c);
    let layers = &campaign_data.modalities;
    let m = layers.len();
    let mut i: usize = 0;
    proof {
        assert(layers@.skip(0) =~= layers@);
    }
    while i < m
        invariant
            i <= m,
            m == layers@.len(),
            layer_id@ == layer_id_of(aspect_id@),
            *layers == campaign_data.modalities,
            layer_level(layers@, layer_id@) == layer_level(layers@.skip(i as int), layer_id@),
        decreases m - i,
    {
        proof {
            assert(layers@.skip(i as int).drop_first() =~= layers@.skip(i + 1));
        }
        if str_eq(layers[i].id.as_str(), layer_id) {
            return layers[i].level;
        }
        i = i + 1;
    }
    0
}

/// The first index of `v` whose level is above `level`, or its length.
fn level_upper_bound(v: &Vec<ModalityAspectWithLevel>, level: u32) -> (r: usize)
    ensures
        r == upper_bound(v@, level),
        r <= v@.len(),
{
    let n = v.len();
    let mut i: usize = 0;
    proof {
        assert(v@.skip(0) =~= v@);
    }
    while i < n && v[i].level <= level
        invariant
            i <= n,
            n == v@.len(),
            upper_bound(v@, level) == i + upper_bound(v@.skip(i as int), level),
        decreases n - i,
    {
        proof {
            assert(v@.skip(i as int).drop_first() =~= v@.skip(i + 1));
        }
        i = i + 1;
    }
    proof {
        if i == n {
            assert(v@.skip(i as int) =~= Seq::<ModalityAspectWithLevel>::empty());
        }
    }
    i
}

/// The aspects named by `aspect_ids` that the campaign's layers have, each with
/// the level of the layer its id names (0 where no layer has that name), ordered
/// by level from low to high; aspects of one level keep the order of
/// `aspect_ids`.
pub fn get_modalities_with_levels(campaign_data: &CampaignData, aspect_ids: &[&str]) -> (r: Vec<
    ModalityAspectWithLevel,
>)
    ensures
        r@ == sort_by_level(levelled_aspects(campaign_data.modalities@, aspect_ids@)),
{
    let mut result: Vec<ModalityAspectWithLevel> = Vec::new();
    let n = aspect_ids.len();
    proof {
        assert(aspect_ids@.take(0) =~= Seq::<&str>::empty());
    }
    for k in 0..n
        invariant
            n == aspect_ids@.len(),
            result@ == sort_by_level(
                levelled_aspects(campaign_data.modalities@, aspect_ids@.take(k as int)),
            ),
    {
        let aspect_id = aspect_ids[k];
        proof {
            assert(aspect_ids@.take(k + 1).drop_last() =~= aspect_ids@.take(k as int));
            assert(aspect_ids@.take(k + 1).last() == aspect_id);
        }
        match campaign_data.find_modality_aspect(aspect_id) {
            Some(aspect) => {
                let level = level_of_aspect(campaign_data, aspect_id);
                let item = ModalityAspectWithLevel { aspect: aspect.duplicate(), level };
                let pos = level_upper_bound(&result, level);
                proof {
                    let layers = campaign_data.modalities@;
                    let prev = levelled_aspects(layers, aspect_ids@.take(k as int));
                    assert(levelled_aspects(layers, aspect_ids@.take(k + 1)) == prev.push(item));
                    assert(prev.push(item).drop_last() =~= prev);
                }
                result.insert(pos, item);
            },
            None => {},
        }
    }
    proof {
        assert(aspect_ids@.take(n as int) =~= aspect_ids@);
    }
    result
}


/// The ids of the aspects the character prefers, in its order.
pub fn get_preferential_modalities(character: &Character) -> (r: Vec<&str>)
    ensures
        r@.len() == character.preferential_modalities@.len(),
        forall|i: int|
            0 <= i < r@.len() ==> #[trigger] r@[i]@ == character.preferential_modalities@[i]@,
{
    let mut r: Vec<&str> = Vec::new();
    let n = character.preferential_modalities.len();
    for i in 0..n
        invariant
            n == character.preferential_modalities@.len(),
            r@.len() == i,
            forall|j: int|
                0 <= j < i ==> #[trigger] r@[j]@ == character.preferential_modalities@[j]@,
    {
        r.push(character.preferential_modalities[i].as_str());
    }
    r
}

/// Whether `c` is a lower-case hexadecimal digit.
pub open spec fn is_lower_hex_digit(c: char) -> bool {
    ('0' <= c && c <= '9') || ('a' <= c && c <= 'f')
}

/// Whether `s` is a version-4 UUID written hyphenated in lower case: 36
/// characters, hyphens at 8, 13, 18 and 23, hex digits elsewhere, the version
/// digit `4` at 14.
pub open spec fn is_hyphenated_v4_uuid(s: Seq<char>) -> bool {
    &&& s.len() == 36
    &&& forall|i: int|
        0 <= i < 36 ==> if i == 8 || i == 13 || i == 18 || i == 23 {
            #[trigger] s[i] == '-'
        } else {
            is_lower_hex_digit(s[i])
        }
    &&& s[14] == '4'
}

/// Draws a random identifier with `uuid::Uuid::new_v4` and writes it with
/// `to_string`. The contract states only the form of every outcome (a version-4
/// UUID in hyphenated lower-case hex, as the `uuid` source writes it); which one
/// comes out is chance. `new_v4` panics where the system gives no random bytes.
#[verifier::external_body]
fn new_utterance_id() -> (r: String)
    ensures
        is_hyphenated_v4_uuid(r@),
{
    uuid::Uuid::new_v4().to_string()
}

/// An owned copy of an optional string slice.
fn opt_to_owned(o: Option<&str>) -> (r: Option<String>)
    ensures
        opt_string_view(r) == opt_str_view(o),
{
    match o {
        Some(s) => Some(String::from_str(s)),
        None => None,
    }
}

/// Whether `u` holds the given fields (all but its id).
pub open spec fn utterance_holds(
    u: Utterance,
    character_id: Seq<char>,
    substant_id: Seq<char>,
    utterance_text: Seq<char>,
    insight: Option<Seq<char>>,
    construction_depth: usize,
    constructed_from: Option<Seq<char>>,
    used_aspect: Option<Seq<char>>,
) -> bool {
    &&& u.character_id@ == character_id
    &&& u.substant_id@ == substant_id
    &&& u.utterance@ == utterance_text
    &&& opt_string_view(u.insight) == insight
    &&& u.construction_depth == construction_depth
    &&& opt_string_view(u.constructed_from) == constructed_from
    &&& opt_string_view(u.used_aspect) == used_aspect
}

/// An utterance that holds the given fields carries each of them: character,
/// substant and text as given, and the optional fields present exactly where
/// given, with the given text.
pub proof fn lemma_utterance_holds_fields(
    u: Utterance,
    character_id: Seq<char>,
    substant_id: Seq<char>,
    utterance_text: Seq<char>,
    insight: Option<Seq<char>>,
    construction_depth: usize,
    constructed_from: Option<Seq<char>>,
    used_aspect: Option<Seq<char>>,
)
    requires
        utterance_holds(
            u,
            character_id,
            substant_id,
            utterance_text,
            insight,
            construction_depth,
            constructed_from,
            used_aspect,
        ),
    ensures
        u.character_id@ == character_id,
        u.substant_id@ == substant_id,
        u.utterance@ == utterance_text,
        u.construction_depth == construction_depth,
        (u.insight matches Some(x) && insight == Some(x@)) || (u.insight is None && insight is None),
        (u.constructed_from matches Some(x) && constructed_from == Some(x@)) || (u.constructed_from is None && constructed_from is None),
        (u.used_aspect matches Some(x) && used_aspect == Some(x@)) || (u.used_aspect is None && used_aspect is None),
{
}

/// An utterance with the given id and fields.
pub fn build_utterance(
    id: String,
    character_id: &str,
    substant_id: &str,
    utterance_text: &str,
    insight: Option<&str>,
    construction_depth: usize,
    constructed_from: Option<&str>,
    used_aspect: Option<&str>,
) -> (r: Utterance)
    ensures
        r.id@ == id@,
        utterance_holds(
            r,
            character_id@,
            substant_id@,
            utterance_text@,
            opt_str_view(insight),
            construction_depth,
            opt_str_view(constructed_from),
            opt_str_view(used_aspect),
        ),
{
    Utterance {
        id,
        character_id: String::from_str(character_id),
        substant_id: String::from_str(substant_id),
        utterance: String::from_str(utterance_text),
        insight: opt_to_owned(insight),
        construction_depth,
        constructed_from: opt_to_owned(constructed_from),
        used_aspect: opt_to_owned(used_aspect),
    }
}

/// A new utterance with a fresh random id, no insight, built directly on its
/// substant (depth 0).
pub fn create_utterance(
    character_id: &str,
    substant_id: &str,
    utterance_text: &str,
    constructed_from: Option<&str>,
    used_aspect: Option<&str>,
) -> (r: Utterance)
    ensures
        is_hyphenated_v4_uuid(r.id@),
        utterance_holds(
            r,
            character_id@,
            substant_id@,
            utterance_text@,
            None,
            0,
            opt_str_view(constructed_from),
            opt_str_view(used_aspect),
        ),
{
    let id = new_utterance_id();
    build_utterance(id, character_id, substant_id, utterance_text, None, 0, constructed_from, used_aspect)
}

/// A new utterance with a fresh random id and the given fields.
pub fn create_utterance_with_insight(
    character_id: &str,
    substant_id: &str,
    utterance_text: &str,
    insight: Option<&str>,
    construction_depth: usize,
    constructed_from: Option<&str>,
    used_aspect: Option<&str>,
) -> (r: Utterance)
    ensures
        is_hyphenated_v4_uuid(r.id@),
        utterance_holds(
            r,
            character_id@,
            substant_id@,
            utterance_text@,
            opt_str_view(insight),
            construction_depth,
            opt_str_view(constructed_from),
            opt_str_view(used_aspect),
        ),
{
    let id = new_utterance_id();
    build_utterance(
        id,
        character_id,
        substant_id,
        utterance_text,
        insight,
        construction_depth,
        constructed_from,
        used_aspect,
    )
}

} // verus!
