use vstd::prelude::*;
use crate::field_attribute::{FieldAttribute, FieldConfig};
use crate::ranking::{comparison_chain, configs, is_comparison_chain, lemma_chain_is_unique};

verus! {

/// What a comparison reports. A total order never reports `Incomparable`.
#[derive(Clone, Copy, Debug, PartialEq, Eq, Structural)]
pub enum Verdict {
    Less,
    Equal,
    Greater,
    Incomparable,
}

/// How the values of one field are compared.
#[derive(Debug, Clone)]
pub enum Comparator {
    /// The field's own comparison.
    Own,
    /// A function, called on references to the two values.
    Function(String),
    /// A method, called through a trait: the trait, then the method.
    TraitMethod(String, String),
}

/// A comparator as a mathematical value.
pub ghost enum ComparatorSpec {
    Own,
    Function(Seq<char>),
    TraitMethod(Seq<char>, Seq<char>),
}

impl View for Comparator {
    type V = ComparatorSpec;

    open spec fn view(&self) -> ComparatorSpec {
        match self {
            Comparator::Own => ComparatorSpec::Own,
            Comparator::Function(m) => ComparatorSpec::Function(m@),
            Comparator::TraitMethod(t, m) => ComparatorSpec::TraitMethod(t@, m@),
        }
    }
}

/// The comparator that a field's configuration selects: the method through
/// the trait where both are named, the method alone as a function, and the
/// field's own comparison otherwise.
pub open spec fn comparator_for(field: FieldConfig) -> ComparatorSpec {
    match (field.compare_trait, field.compare_method) {
        (Some(t), Some(m)) => ComparatorSpec::TraitMethod(t, m),
        (None, Some(m)) => ComparatorSpec::Function(m),
        _ => ComparatorSpec::Own,
    }
}

/// Selects the comparator of a field.
pub fn comparator_of(field: &FieldAttribute) -> (r: Comparator)
    ensures
        r@ == comparator_for(field@),
{
    match (&field.compare_trait, &field.compare_method) {
        (Some(t), Some(m)) => Comparator::TraitMethod(t.clone(), m.clone()),
        (None, Some(m)) => Comparator::Function(m.clone()),
        _ => Comparator::Own,
    }
}

/// One step of a generated comparison: the field that it consults, by its
/// position in the declaration, and the comparator that it uses.
#[derive(Debug, Clone)]
pub struct ComparisonStep {
    pub field: usize,
    pub comparator: Comparator,
}

/// The fields that the steps consult, in the order of the steps.
pub open spec fn step_fields(steps: Seq<ComparisonStep>) -> Seq<usize> {
    steps.map_values(|s: ComparisonStep| s.field)
}

/// Plans the steps of the comparison that is generated for `fields`: one for
/// each field of the comparison chain, in the order of the chain, each with
/// the comparator that the field's configuration selects.
pub fn comparison_steps(fields: &Vec<FieldAttribute>) -> (steps: Vec<ComparisonStep>)
    ensures
        is_comparison_chain(configs(fields@), step_fields(steps@)),
        forall|k: int|
            0 <= k < steps@.len() ==> (#[trigger] steps@[k]).comparator@ == comparator_for(
                fields@[steps@[k].field as int]@,
            ),
{
    let chain = comparison_chain(fields);
    let mut steps: Vec<ComparisonStep> = Vec::new();
    let mut i: usize = 0;
    while i < chain.len()
        invariant
            i <= chain.len(),
            is_comparison_chain(configs(fields@), chain@),
            steps@.len() == i,
            forall|k: int| 0 <= k < i ==> (#[trigger] steps@[k]).field == chain@[k],
            forall|k: int|
                0 <= k < i ==> (#[trigger] steps@[k]).comparator@ == comparator_for(
                    fields@[steps@[k].field as int]@,
                ),
        decreases chain.len() - i,
    {
        let field = chain[i];
        assert(chain@[i as int] < configs(fields@).len());
        let comparator = comparator_of(&fields[field]);
        steps.push(ComparisonStep { field, comparator });
        i += 1;
    }
    assert(step_fields(steps@) =~= chain@);
    steps
}

/// The result of a chain of comparisons from step `from` on: that of the
/// first step that is not `Equal`, and `Equal` where there is none.
pub open spec fn first_decided(steps: Seq<Verdict>, from: int) -> Verdict
    decreases steps.len() - from,
{
    if from < 0 || from >= steps.len() {
        Verdict::Equal
    } else if steps[from] != Verdict::Equal {
        steps[from]
    } else {
        first_decided(steps, from + 1)
    }
}

/// Reduces the results of the steps of a chain to the result of the whole
/// comparison. The first step that does not report `Equal` decides, so an
/// `Incomparable` step makes the whole comparison `Incomparable`.
pub fn chain_verdict(steps: &Vec<Verdict>) -> (r: Verdict)
    ensures
        r == first_decided(steps@, 0),
        (forall|k: int| 0 <= k < steps@.len() ==> steps@[k] == Verdict::Equal) ==> r == Verdict::Equal,
        (forall|k: int| 0 <= k < steps@.len() ==> steps@[k] != Verdict::Incomparable) ==> r
            != Verdict::Incomparable,
        forall|k: int|
            0 <= k < steps@.len() && #[trigger] steps@[k] != Verdict::Equal && (forall|j: int|
                0 <= j < k ==> steps@[j] == Verdict::Equal) ==> r == steps@[k],
{
    let mut i: usize = 0;
    while i < steps.len()
        invariant
            i <= steps.len(),
            first_decided(steps@, 0) == first_decided(steps@, i as int),
            forall|j: int| 0 <= j < i ==> steps@[j] == Verdict::Equal,
        decreases steps.len() - i,
    {
        if steps[i] != Verdict::Equal {
            return steps[i];
        }
        i += 1;
    }
    Verdict::Equal
}

/// The comparison of two integers.
pub open spec fn int_verdict(a: int, b: int) -> Verdict {
    if a < b {
        Verdict::Less
    } else if a == b {
        Verdict::Equal
    } else {
        Verdict::Greater
    }
}

/// The result of comparing two values field by field along `chain`, from
/// position `from` of the chain on, each field by its own order.
pub open spec fn structural_verdict(chain: Seq<usize>, left: Seq<i64>, right: Seq<i64>, from: int) -> Verdict
    decreases chain.len() - from,
{
    if from < 0 || from >= chain.len() {
        Verdict::Equal
    } else if left[chain[from] as int] != right[chain[from] as int] {
        int_verdict(left[chain[from] as int] as int, right[chain[from] as int] as int)
    } else {
        structural_verdict(chain, left, right, from + 1)
    }
}

/// Whether every position in `chain` is a field of a value with `n` fields.
pub open spec fn chain_fits(chain: Seq<usize>, n: int) -> bool {
    forall|k: int| 0 <= k < chain.len() ==> (#[trigger] chain[k]) < n
}

/// Compares two values of integer fields along a chain: the first field of
/// the chain on which they differ decides.
pub fn compare_along(chain: &Vec<usize>, left: &Vec<i64>, right: &Vec<i64>) -> (r: Verdict)
    requires
        chain_fits(chain@, left@.len() as int),
        chain_fits(chain@, right@.len() as int),
    ensures
        r == structural_verdict(chain@, left@, right@, 0),
        r != Verdict::Incomparable,
{
    let mut i: usize = 0;
    while i < chain.len()
        invariant
            i <= chain.len(),
            chain_fits(chain@, left@.len() as int),
            chain_fits(chain@, right@.len() as int),
            structural_verdict(chain@, left@, right@, 0) == structural_verdict(
                chain@,
                left@,
                right@,
                i as int,
            ),
        decreases chain.len() - i,
    {
        let f = chain[i];
        if left[f] < right[f] {
            return Verdict::Less;
        }
        if left[f] > right[f] {
            return Verdict::Greater;
        }
        i += 1;
    }
    Verdict::Equal
}

/// Compares two values of integer fields as the generated total order does:
/// along the comparison chain of `fields`.
pub fn compare_values(fields: &Vec<FieldAttribute>, left: &Vec<i64>, right: &Vec<i64>) -> (r: Verdict)
    requires
        left@.len() == fields@.len(),
        right@.len() == fields@.len(),
    ensures
        forall|chain: Seq<usize>| #[trigger]
            is_comparison_chain(configs(fields@), chain) ==> r == structural_verdict(
                chain,
                left@,
                right@,
                0,
            ),
        r != Verdict::Incomparable,
{
    let chain = comparison_chain(fields);
    proof {
        assert forall|c: Seq<usize>| #[trigger]
            is_comparison_chain(configs(fields@), c) implies c == chain@ by {
            lemma_chain_is_unique(configs(fields@), c, chain@);
        }
    }
    compare_along(&chain, left, right)
}

/// A value compares as `Equal` with itself, along every chain.
pub proof fn lemma_equal_values_compare_equal(chain: Seq<usize>, value: Seq<i64>, from: int)
    ensures
        structural_verdict(chain, value, value, from) == Verdict::Equal,
    decreases chain.len() - from,
{
    if 0 <= from < chain.len() {
        lemma_equal_values_compare_equal(chain, value, from + 1);
    }
}

/// Where no field takes part, every comparison reports `Equal`: a type
/// without fields has the empty chain, and so has one whose fields are all
/// ignored.
pub proof fn lemma_no_field_compares_equal(
    fields: Seq<FieldConfig>,
    chain: Seq<usize>,
    left: Seq<i64>,
    right: Seq<i64>,
)
    requires
        is_comparison_chain(fields, chain),
        forall|j: int| 0 <= j < fields.len() ==> fields[j].ignore,
    ensures
        chain.len() == 0,
        structural_verdict(chain, left, right, 0) == Verdict::Equal,
{
    if chain.len() > 0 {
        assert(!fields[chain[0] as int].ignore);
    }
}

} // verus!
