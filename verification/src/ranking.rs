use vstd::prelude::*;
use crate::capability::Trait;
use crate::field_attribute::{field_key_of, FieldAttribute, FieldAttributeBuilder, FieldConfig, FieldKey};
use crate::meta::{rank_of_literal, Lit, Meta};
use crate::violation::Violation;

verus! {

/// The configurations of a list of fields, in declaration order.
pub open spec fn configs(fields: Seq<FieldAttribute>) -> Seq<FieldConfig> {
    fields.map_values(|f: FieldAttribute| f@)
}

/// Whether field `x` is consulted before field `y`: the lower rank goes
/// first, and among equal ranks the field declared first.
pub open spec fn goes_before(fields: Seq<FieldConfig>, x: int, y: int) -> bool {
    fields[x].rank < fields[y].rank || (fields[x].rank == fields[y].rank && x < y)
}

/// Whether the field at position `j` stands in `chain`.
pub open spec fn visits(chain: Seq<usize>, j: int) -> bool {
    exists|k: int| 0 <= k < chain.len() && (#[trigger] chain[k]) as int == j
}

/// Whether `chain` is the comparison chain of `fields`: it holds the
/// positions of exactly the fields that are not ignored, each before all
/// those that it goes before.
pub open spec fn is_comparison_chain(fields: Seq<FieldConfig>, chain: Seq<usize>) -> bool {
    &&& forall|k: int|
        0 <= k < chain.len() ==> (#[trigger] chain[k]) < fields.len() && !fields[chain[k] as int].ignore
    &&& forall|j: int|
        0 <= j < fields.len() && !(#[trigger] fields[j]).ignore ==> visits(chain, j)
    &&& forall|a: int, b: int|
        0 <= a < b < chain.len() ==> goes_before(
            fields,
            (#[trigger] chain[a]) as int,
            (#[trigger] chain[b]) as int,
        )
}

/// Orders the fields that take part in a comparison: by ascending rank, in
/// declaration order among equal ranks, without the ignored ones.
pub fn comparison_chain(fields: &Vec<FieldAttribute>) -> (chain: Vec<usize>)
    ensures
        is_comparison_chain(configs(fields@), chain@),
{
    let mut chain: Vec<usize> = Vec::new();
    let mut i: usize = 0;
    while i < fields.len()
        invariant
            i <= fields.len(),
            forall|k: int|
                0 <= k < chain@.len() ==> (#[trigger] chain@[k]) < i && !fields@[chain@[k] as int].ignore,
            forall|j: int| 0 <= j < i && !(#[trigger] fields@[j]).ignore ==> visits(chain@, j),
            forall|a: int, b: int|
                0 <= a < b < chain@.len() ==> goes_before(
                    configs(fields@),
                    (#[trigger] chain@[a]) as int,
                    (#[trigger] chain@[b]) as int,
                ),
        decreases fields.len() - i,
    {
        if !fields[i].ignore {
            let rank = fields[i].rank;
            let mut p: usize = 0;
            while p < chain.len() && fields[chain[p]].rank <= rank
                invariant
                    p <= chain@.len(),
                    i < fields.len(),
                    forall|k: int| 0 <= k < chain@.len() ==> (#[trigger] chain@[k]) < i,
                    forall|k: int| 0 <= k < p ==> fields@[(#[trigger] chain@[k]) as int].rank <= rank,
                decreases chain.len() - p,
            {
                p += 1;
            }
            let ghost before = chain@;
            chain.insert(p, i);
            proof {
                let cs = configs(fields@);
                assert(chain@ == before.insert(p as int, i));
                assert forall|a: int, b: int| 0 <= a < b < chain@.len() implies goes_before(
                    cs,
                    (#[trigger] chain@[a]) as int,
                    (#[trigger] chain@[b]) as int,
                ) by {
                    if b < p {
                        assert(goes_before(cs, before[a] as int, before[b] as int));
                    } else if b == p {
                        assert(before[a] < i);
                    } else if a < p {
                        assert(goes_before(cs, before[a] as int, before[b - 1] as int));
                    } else if a == p {
                        if b - 1 > p {
                            assert(goes_before(cs, before[p as int] as int, before[b - 1] as int));
                        }
                    } else {
                        assert(goes_before(cs, before[a - 1] as int, before[b - 1] as int));
                    }
                }
                assert forall|j: int| 0 <= j < i + 1 && !(#[trigger] fields@[j]).ignore implies visits(
                    chain@,
                    j,
                ) by {
                    if j == i {
                        assert(chain@[p as int] == i);
                    } else {
                        assert(visits(before, j));
                        let k = choose|k: int| 0 <= k < before.len() && (#[trigger] before[k]) as int == j;
                        if k < p {
                            assert(chain@[k] as int == j);
                        } else {
                            assert(chain@[k + 1] as int == j);
                        }
                    }
                }
            }
        }
        i += 1;
    }
    chain
}

/// Fields with distinct ranks are consulted in strictly ascending rank order,
/// wherever they were declared.
pub proof fn lemma_chain_ascends(fields: Seq<FieldConfig>, chain: Seq<usize>, a: int, b: int)
    requires
        is_comparison_chain(fields, chain),
        forall|x: int, y: int|
            0 <= x < y < fields.len() && !fields[x].ignore && !fields[y].ignore ==> fields[x].rank
                != fields[y].rank,
        0 <= a < b < chain.len(),
    ensures
        fields[chain[a] as int].rank < fields[chain[b] as int].rank,
{
    assert(goes_before(fields, chain[a] as int, chain[b] as int));
}

/// Among fields that share a rank, the one declared first is consulted first.
pub proof fn lemma_chain_is_stable(fields: Seq<FieldConfig>, chain: Seq<usize>, a: int, b: int)
    requires
        is_comparison_chain(fields, chain),
        0 <= a < chain.len(),
        0 <= b < chain.len(),
        fields[chain[a] as int].rank == fields[chain[b] as int].rank,
        chain[a] < chain[b],
    ensures
        a < b,
{
    if b < a {
        assert(goes_before(fields, chain[b] as int, chain[a] as int));
    }
}

/// The fields of one list have one comparison chain.
pub proof fn lemma_chain_is_unique(fields: Seq<FieldConfig>, c1: Seq<usize>, c2: Seq<usize>)
    requires
        is_comparison_chain(fields, c1),
        is_comparison_chain(fields, c2),
    ensures
        c1 == c2,
    decreases c1.len(),
{
    lemma_chain_has_no_repeats(fields, c1);
    lemma_chain_has_no_repeats(fields, c2);
    if c1.len() == 0 {
        if c2.len() > 0 {
            assert(visits(c1, c2[0] as int));
        }
        assert(c1 =~= c2);
    } else if c2.len() == 0 {
        assert(visits(c2, c1[0] as int));
    } else {
        // Both chains start with the field that goes before every other.
        let x = c1[0];
        let y = c2[0];
        assert(visits(c2, x as int));
        assert(visits(c1, y as int));
        let kx = choose|k: int| 0 <= k < c2.len() && (#[trigger] c2[k]) as int == x as int;
        let ky = choose|k: int| 0 <= k < c1.len() && (#[trigger] c1[k]) as int == y as int;
        if kx > 0 {
            assert(goes_before(fields, c2[0] as int, c2[kx] as int));
            if ky > 0 {
                assert(goes_before(fields, c1[0] as int, c1[ky] as int));
            }
        }
        assert(x == y);
        let fields1 = fields.update(x as int, FieldConfig { ignore: true, ..fields[x as int] });
        let t1 = c1.subrange(1, c1.len() as int);
        let t2 = c2.subrange(1, c2.len() as int);
        assert forall|j: int| 0 <= j < fields1.len() && !(#[trigger] fields1[j]).ignore implies visits(
            t1,
            j,
        ) by {
            assert(!fields[j].ignore);
            assert(visits(c1, j));
            let k = choose|k: int| 0 <= k < c1.len() && (#[trigger] c1[k]) as int == j;
            assert(t1[k - 1] as int == j);
        }
        assert forall|j: int| 0 <= j < fields1.len() && !(#[trigger] fields1[j]).ignore implies visits(
            t2,
            j,
        ) by {
            assert(!fields[j].ignore);
            assert(visits(c2, j));
            let k = choose|k: int| 0 <= k < c2.len() && (#[trigger] c2[k]) as int == j;
            assert(t2[k - 1] as int == j);
        }
        assert forall|a: int, b: int| 0 <= a < b < t1.len() implies goes_before(
            fields1,
            (#[trigger] t1[a]) as int,
            (#[trigger] t1[b]) as int,
        ) by {
            assert(goes_before(fields, c1[a + 1] as int, c1[b + 1] as int));
        }
        assert forall|a: int, b: int| 0 <= a < b < t2.len() implies goes_before(
            fields1,
            (#[trigger] t2[a]) as int,
            (#[trigger] t2[b]) as int,
        ) by {
            assert(goes_before(fields, c2[a + 1] as int, c2[b + 1] as int));
        }
        assert forall|k: int| 0 <= k < t1.len() implies (#[trigger] t1[k]) < fields1.len()
            && !fields1[t1[k] as int].ignore by {
            assert(c1[k + 1] != c1[0]);
        }
        assert forall|k: int| 0 <= k < t2.len() implies (#[trigger] t2[k]) < fields1.len()
            && !fields1[t2[k] as int].ignore by {
            assert(c2[k + 1] != c2[0]);
        }
        lemma_chain_is_unique(fields1, t1, t2);
        assert(c1 =~= seq![x] + t1);
        assert(c2 =~= seq![y] + t2);
    }
}

/// No field stands twice in a comparison chain.
pub proof fn lemma_chain_has_no_repeats(fields: Seq<FieldConfig>, chain: Seq<usize>)
    requires
        is_comparison_chain(fields, chain),
    ensures
        forall|a: int, b: int| 0 <= a < b < chain.len() ==> chain[a] != chain[b],
{
    assert forall|a: int, b: int| 0 <= a < b < chain.len() implies chain[a] != chain[b] by {
        assert(goes_before(fields, chain[a] as int, chain[b] as int));
    }
}

/// An ignored field never stands in the comparison chain, and every other
/// field stands in it.
pub proof fn lemma_chain_skips_ignored(fields: Seq<FieldConfig>, chain: Seq<usize>, j: int)
    requires
        is_comparison_chain(fields, chain),
        0 <= j < fields.len(),
    ensures
        visits(chain, j) == !fields[j].ignore,
{
    if fields[j].ignore && visits(chain, j) {
        let k = choose|k: int| 0 <= k < chain.len() && (#[trigger] chain[k]) as int == j;
        assert(!fields[chain[k] as int].ignore);
    }
}

/// Of two fields that take part with the same rank, the one declared first
/// is consulted first: both stand in the chain, the first before the second.
pub proof fn lemma_declared_first_goes_first(fields: Seq<FieldConfig>, chain: Seq<usize>, f: int, g: int)
    requires
        is_comparison_chain(fields, chain),
        0 <= f < g < fields.len(),
        !fields[f].ignore,
        !fields[g].ignore,
        fields[f].rank == fields[g].rank,
    ensures
        exists|a: int, b: int|
            0 <= a < b < chain.len() && (#[trigger] chain[a]) as int == f && (#[trigger] chain[b]) as int
                == g,
{
    assert(visits(chain, f));
    assert(visits(chain, g));
    let a = choose|k: int| 0 <= k < chain.len() && (#[trigger] chain[k]) as int == f;
    let b = choose|k: int| 0 <= k < chain.len() && (#[trigger] chain[k]) as int == g;
    lemma_chain_is_stable(fields, chain, a, b);
    assert(chain[a] as int == f && chain[b] as int == g);
}

/// Whether no block is given a rank among the attributes of a field that
/// `builder` reads as `c`.
pub open spec fn omits_rank(builder: FieldAttributeBuilder, metas: Seq<Meta>, c: FieldConfig) -> bool {
    forall|a: int, k: int| #[trigger]
        builder.holds_block(metas, Trait::PartialOrd, a, k, c) ==> forall|e: int|
            0 <= e < metas[a]->List_1@[k]->Meta_0->List_1@.len()
                && (#[trigger] metas[a]->List_1@[k]->Meta_0->List_1@[e]) is Meta ==> field_key_of(
                metas[a]->List_1@[k]->Meta_0->List_1@[e]->Meta_0.name_text(),
            ) != Some(FieldKey::Rank)
}

/// Whether the block that `builder` reads as `c` among the attributes of a
/// field writes the rank `rank`, as `rank = ..`.
pub open spec fn writes_rank(builder: FieldAttributeBuilder, metas: Seq<Meta>, c: FieldConfig, rank: u64) -> bool {
    exists|a: int, k: int, e: int|
        {
            &&& #[trigger] builder.holds_block(metas, Trait::PartialOrd, a, k, c)
            &&& 0 <= e < metas[a]->List_1@[k]->Meta_0->List_1@.len()
            &&& (#[trigger] metas[a]->List_1@[k]->Meta_0->List_1@[e]) is Meta
            &&& field_key_of(metas[a]->List_1@[k]->Meta_0->List_1@[e]->Meta_0.name_text()) == Some(
                FieldKey::Rank,
            )
            &&& metas[a]->List_1@[k]->Meta_0->List_1@[e]->Meta_0 is NameValue
            &&& metas[a]->List_1@[k]->Meta_0->List_1@[e]->Meta_0->NameValue_1 == Lit::Int(rank)
        }
}

/// Where one builder reads every field of a declaration, two fields that
/// both omit a rank, or both write the same rank, are given equal ranks, and
/// the one declared first is consulted first. `written` is the rank that
/// both write, if they write one.
pub proof fn lemma_equal_rank_fields_keep_declaration_order(
    builder: FieldAttributeBuilder,
    traits: Seq<Trait>,
    attributes: Seq<Seq<Meta>>,
    fields: Seq<FieldConfig>,
    chain: Seq<usize>,
    f: int,
    g: int,
    written: Option<u64>,
)
    requires
        attributes.len() == fields.len(),
        forall|i: int|
            0 <= i < fields.len() ==> builder.config(traits, Trait::PartialOrd, #[trigger] attributes[i])
                == Ok::<FieldConfig, Violation>(fields[i]),
        is_comparison_chain(fields, chain),
        0 <= f < g < fields.len(),
        !fields[f].ignore,
        !fields[g].ignore,
        match written {
            None => omits_rank(builder, attributes[f], fields[f]) && omits_rank(
                builder,
                attributes[g],
                fields[g],
            ),
            Some(rank) => writes_rank(builder, attributes[f], fields[f], rank) && writes_rank(
                builder,
                attributes[g],
                fields[g],
                rank,
            ),
        },
    ensures
        fields[f].rank == fields[g].rank,
        fields[f].rank == match written {
            None => builder.rank as int,
            Some(rank) => rank_of_literal(rank),
        },
        exists|a: int, b: int|
            0 <= a < b < chain.len() && (#[trigger] chain[a]) as int == f && (#[trigger] chain[b]) as int
                == g,
{
    lemma_rank_follows_attributes(builder, traits, attributes[f], fields[f], written);
    lemma_rank_follows_attributes(builder, traits, attributes[g], fields[g], written);
    lemma_declared_first_goes_first(fields, chain, f, g);
}

/// The rank of a field that omits a rank is the builder's, and the rank of
/// one that writes a rank is the written one.
pub proof fn lemma_rank_follows_attributes(
    builder: FieldAttributeBuilder,
    traits: Seq<Trait>,
    metas: Seq<Meta>,
    c: FieldConfig,
    written: Option<u64>,
)
    requires
        builder.config(traits, Trait::PartialOrd, metas) == Ok::<FieldConfig, Violation>(c),
        match written {
            None => omits_rank(builder, metas, c),
            Some(rank) => writes_rank(builder, metas, c, rank),
        },
    ensures
        c.rank == match written {
            None => builder.rank as int,
            Some(rank) => rank_of_literal(rank),
        },
{
    match written {
        None => {
            builder.lemma_config_is_of_a_block(traits, Trait::PartialOrd, metas);
            if c != builder.default_config() {
                let (a, k) = choose|a: int, k: int| #[trigger]
                    builder.holds_block(metas, Trait::PartialOrd, a, k, c);
                builder.lemma_unranked_block_has_default_rank(metas[a]->List_1@[k]->Meta_0);
            }
        },
        Some(rank) => {
            let (a, k, e) = choose|a: int, k: int, e: int|
                {
                    &&& #[trigger] builder.holds_block(metas, Trait::PartialOrd, a, k, c)
                    &&& 0 <= e < metas[a]->List_1@[k]->Meta_0->List_1@.len()
                    &&& (#[trigger] metas[a]->List_1@[k]->Meta_0->List_1@[e]) is Meta
                    &&& field_key_of(metas[a]->List_1@[k]->Meta_0->List_1@[e]->Meta_0.name_text())
                        == Some(FieldKey::Rank)
                    &&& metas[a]->List_1@[k]->Meta_0->List_1@[e]->Meta_0 is NameValue
                    &&& metas[a]->List_1@[k]->Meta_0->List_1@[e]->Meta_0->NameValue_1 == Lit::Int(rank)
                };
            builder.lemma_ranked_block_has_written_rank(metas[a]->List_1@[k]->Meta_0, e, rank);
        },
    }
}

} // verus!
