use educe_core::capability::Trait;
use educe_core::meta::{Lit, Meta, NestedMeta};
use educe_core::type_attribute::{merge_clauses, TypeAttribute, TypeAttributeBound, TypeAttributeBuilder};
use educe_core::violation::Violation;

fn t_word(name: &str) -> NestedMeta {
    NestedMeta::Meta(Meta::Word(name.to_string()))
}

fn t_value(name: &str, lit: Lit) -> NestedMeta {
    NestedMeta::Meta(Meta::NameValue(name.to_string(), lit))
}

fn t_list(name: &str, lits: Vec<Lit>) -> NestedMeta {
    NestedMeta::Meta(Meta::List(name.to_string(), lits.into_iter().map(NestedMeta::Literal).collect()))
}

fn t_text(s: &str) -> Lit {
    Lit::Str(s.to_string())
}

fn ord(items: Vec<NestedMeta>) -> Meta {
    Meta::List("Ord".to_string(), items)
}

fn type_builder() -> TypeAttributeBuilder {
    TypeAttributeBuilder { enable_flag: true, enable_bound: true, rank: 5, enable_rank: true }
}

fn read_type(items: Vec<NestedMeta>) -> Result<TypeAttribute, Violation> {
    type_builder().from_ord_meta(&ord(items))
}

fn strings(v: &[&str]) -> Vec<String> {
    v.iter().map(|s| s.to_string()).collect()
}

fn squeezed(v: &[String]) -> Vec<String> {
    v.iter().map(|s| s.replace(' ', "")).collect()
}

#[test]
fn bare_word_sets_flag() {
    let a = type_builder().from_ord_meta(&Meta::Word("Ord".to_string())).unwrap();
    assert!(a.flag);
    assert!(matches!(a.bound, TypeAttributeBound::Absent));
    assert_eq!(a.rank, 5);
}

#[test]
fn bare_word_needs_flag_enabled() {
    let b = TypeAttributeBuilder { enable_flag: false, enable_bound: true, rank: 0, enable_rank: true };
    assert_eq!(b.from_ord_meta(&Meta::Word("Ord".to_string())).unwrap_err(), Violation::AttributeFormat);
}

#[test]
fn name_value_block_is_format_violation() {
    assert_eq!(
        type_builder().from_ord_meta(&Meta::NameValue("Ord".to_string(), Lit::Int(1))).unwrap_err(),
        Violation::AttributeFormat
    );
}

#[test]
fn empty_list_gives_defaults_without_flag() {
    let a = read_type(vec![]).unwrap();
    assert!(!a.flag);
    assert!(matches!(a.bound, TypeAttributeBound::Absent));
    assert_eq!(a.rank, 5);
}

#[test]
fn bound_word_is_automatic() {
    let a = read_type(vec![t_word("bound")]).unwrap();
    assert!(matches!(a.bound, TypeAttributeBound::Auto));
}

#[test]
fn bound_text_is_custom() {
    let a = read_type(vec![t_value("bound", t_text(" T: Ord, U: Clone "))]).unwrap();
    match a.bound {
        TypeAttributeBound::Custom(clauses) => {
            assert_eq!(clauses.len(), 2);
            assert_eq!(squeezed(&clauses), strings(&["T:Ord", "U:Clone"]));
        }
        _ => panic!("custom bound expected"),
    }
    let b = read_type(vec![t_list("bound", vec![t_text("T: Ord")])]).unwrap();
    match b.bound {
        TypeAttributeBound::Custom(clauses) => assert_eq!(squeezed(&clauses), strings(&["T:Ord"])),
        _ => panic!("custom bound expected"),
    }
}

#[test]
fn bound_errors() {
    assert_eq!(read_type(vec![t_value("bound", t_text("  "))]).unwrap_err(), Violation::EmptyParameter);
    assert_eq!(read_type(vec![t_value("bound", Lit::Int(1))]).unwrap_err(), Violation::AttributeFormat);
    assert_eq!(read_type(vec![t_value("bound", t_text("T: +++ ("))]).unwrap_err(), Violation::AttributeFormat);
    assert_eq!(read_type(vec![t_word("bound"), t_word("bound")]).unwrap_err(), Violation::DuplicateParameter);
    assert_eq!(
        read_type(vec![t_word("bound"), t_value("bound", t_text("T: Ord"))]).unwrap_err(),
        Violation::DuplicateParameter
    );
    assert_eq!(
        read_type(vec![t_list("bound", vec![t_text("T: Ord"), t_text("U: Ord")])]).unwrap_err(),
        Violation::DuplicateParameter
    );
}

#[test]
fn type_rank_is_read() {
    assert_eq!(read_type(vec![t_value("rank", Lit::Int(9))]).unwrap().rank, 9);
    assert_eq!(read_type(vec![t_list("rank", vec![Lit::Int(8)])]).unwrap().rank, 8);
    assert_eq!(read_type(vec![t_value("rank", Lit::Int(u64::MAX))]).unwrap().rank, isize::MAX);
    assert_eq!(read_type(vec![t_word("rank")]).unwrap_err(), Violation::AttributeFormat);
    assert_eq!(read_type(vec![t_value("rank", t_text("1"))]).unwrap_err(), Violation::AttributeFormat);
    assert_eq!(
        read_type(vec![t_value("rank", Lit::Int(1)), t_value("rank", Lit::Int(1))]).unwrap_err(),
        Violation::DuplicateParameter
    );
}

#[test]
fn type_unknown_sub_options() {
    assert_eq!(read_type(vec![t_word("ignore")]).unwrap_err(), Violation::UnknownParameter);
    let narrow = TypeAttributeBuilder { enable_flag: true, enable_bound: false, rank: 0, enable_rank: false };
    assert_eq!(narrow.from_ord_meta(&ord(vec![t_word("bound")])).unwrap_err(), Violation::UnknownParameter);
    assert_eq!(
        narrow.from_ord_meta(&ord(vec![t_value("rank", Lit::Int(1))])).unwrap_err(),
        Violation::UnknownParameter
    );
    assert_eq!(read_type(vec![NestedMeta::Literal(Lit::Other)]).unwrap_err(), Violation::AttributeFormat);
}

#[test]
fn type_attributes_are_scanned() {
    let educe = |items: Vec<NestedMeta>| Meta::List("educe".to_string(), items);
    let none = type_builder().from_attributes(&[educe(vec![t_word("Debug")])], &[Trait::Debug, Trait::Ord]).unwrap();
    assert!(!none.flag);
    assert_eq!(none.rank, 5);
    let one = type_builder().from_attributes(&[educe(vec![t_word("Ord")])], &[Trait::Ord]).unwrap();
    assert!(one.flag);
    let twice = [educe(vec![t_word("Ord"), t_word("Ord")])];
    assert_eq!(type_builder().from_attributes(&twice, &[Trait::Ord]).unwrap_err(), Violation::DuplicateParameter);
    let unused = [educe(vec![t_word("Ord")])];
    assert_eq!(type_builder().from_attributes(&unused, &[Trait::Clone]).unwrap_err(), Violation::UnusedCapability);
    let shape = [Meta::NameValue("educe".to_string(), Lit::Int(1))];
    assert_eq!(type_builder().from_attributes(&shape, &[Trait::Ord]).unwrap_err(), Violation::AttributeFormat);
    let skipped = [Meta::NameValue("doc".to_string(), t_text("x"))];
    assert!(type_builder().from_attributes(&skipped, &[]).is_ok());
}

#[test]
fn automatic_bound_adds_one_clause_per_parameter() {
    let params = strings(&["T", "U", "V"]);
    let clauses = TypeAttributeBound::Auto.into_punctuated_where_predicates_by_generic_parameters(&params);
    assert_eq!(clauses, strings(&["T: core::cmp::Ord", "U: core::cmp::Ord", "V: core::cmp::Ord"]));
    let none = TypeAttributeBound::Auto.into_punctuated_where_predicates_by_generic_parameters(&vec![]);
    assert!(none.is_empty());
    let other = TypeAttributeBound::Auto.into_where_predicates(&strings(&["T"]), "core::clone::Clone");
    assert_eq!(other, strings(&["T: core::clone::Clone"]));
}

#[test]
fn custom_bound_adds_exactly_its_clauses() {
    let params = strings(&["T", "U"]);
    let given = strings(&["T: Copy"]);
    let clauses =
        TypeAttributeBound::Custom(given.clone()).into_punctuated_where_predicates_by_generic_parameters(&params);
    assert_eq!(clauses, given);
}

#[test]
fn absent_bound_adds_nothing() {
    let clauses = TypeAttributeBound::Absent.into_punctuated_where_predicates_by_generic_parameters(&strings(&["T"]));
    assert!(clauses.is_empty());
}

#[test]
fn merged_clauses_keep_the_present_ones() {
    let r = merge_clauses(strings(&["A: X"]), strings(&["B: Y", "C: Z"]));
    assert_eq!(r, strings(&["A: X", "B: Y", "C: Z"]));
    assert_eq!(merge_clauses(vec![], vec![]), Vec::<String>::new());
}

#[test]
fn type_offending_element_is_the_first_that_fails() {
    let b = type_builder();
    assert_eq!(b.offending_element(&ord(vec![t_word("bound"), t_word("bound")])), Some(1));
    assert_eq!(b.offending_element(&ord(vec![t_word("nothing"), t_word("bound")])), Some(0));
    assert_eq!(b.offending_element(&ord(vec![t_word("bound"), t_value("rank", Lit::Int(1))])), None);
    assert_eq!(b.offending_element(&Meta::Word("Ord".to_string())), None);
}

#[test]
fn type_accepted_forms_are_listed() {
    let bound = educe_core::type_attribute::accepted_forms(educe_core::type_attribute::TypeKey::Bound);
    assert_eq!(bound, strings(&["Ord(bound)", "Ord(bound = \"where_predicates\")", "Ord(bound(\"where_predicates\"))"]));
    let rank = educe_core::type_attribute::accepted_forms(educe_core::type_attribute::TypeKey::Rank);
    assert_eq!(rank, strings(&["Ord(rank = comparison_value)", "Ord(rank(comparison_value))"]));
}
