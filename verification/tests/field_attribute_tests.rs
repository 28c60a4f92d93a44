use educe_core::capability::Trait;
use educe_core::field_attribute::{FieldAttribute, FieldAttributeBuilder};
use educe_core::meta::{Lit, Meta, NestedMeta};
use educe_core::violation::Violation;

fn word(name: &str) -> NestedMeta {
    NestedMeta::Meta(Meta::Word(name.to_string()))
}

fn value(name: &str, lit: Lit) -> NestedMeta {
    NestedMeta::Meta(Meta::NameValue(name.to_string(), lit))
}

fn list(name: &str, lits: Vec<Lit>) -> NestedMeta {
    NestedMeta::Meta(Meta::List(name.to_string(), lits.into_iter().map(NestedMeta::Literal).collect()))
}

fn text(s: &str) -> Lit {
    Lit::Str(s.to_string())
}

fn block(items: Vec<NestedMeta>) -> Meta {
    Meta::List("PartialOrd".to_string(), items)
}

fn educe(items: Vec<NestedMeta>) -> Meta {
    Meta::List("educe".to_string(), items)
}

fn builder() -> FieldAttributeBuilder {
    FieldAttributeBuilder { enable_ignore: true, enable_impl: true, rank: 7, enable_rank: true }
}

fn read(items: Vec<NestedMeta>) -> Result<FieldAttribute, Violation> {
    builder().from_partial_ord_meta(&block(items))
}

fn violation(items: Vec<NestedMeta>) -> Violation {
    read(items).unwrap_err()
}

#[test]
fn empty_block_gives_defaults() {
    let a = read(vec![]).unwrap();
    assert!(!a.ignore);
    assert_eq!(a.compare_method, None);
    assert_eq!(a.compare_trait, None);
    assert_eq!(a.rank, 7);
}

#[test]
fn ignore_word_sets_ignore() {
    let a = read(vec![word("ignore")]).unwrap();
    assert!(a.ignore);
    assert_eq!(a.rank, 7);
}

#[test]
fn rank_by_value_and_by_list() {
    assert_eq!(read(vec![value("rank", Lit::Int(3))]).unwrap().rank, 3);
    assert_eq!(read(vec![list("rank", vec![Lit::Int(4)])]).unwrap().rank, 4);
    assert_eq!(read(vec![list("rank", vec![])]).unwrap().rank, 7);
}

#[test]
fn rank_is_capped_at_largest() {
    assert_eq!(read(vec![value("rank", Lit::Int(u64::MAX))]).unwrap().rank, isize::MAX);
    assert_eq!(read(vec![value("rank", Lit::Int(isize::MAX as u64))]).unwrap().rank, isize::MAX);
    assert_eq!(read(vec![value("rank", Lit::Int(0))]).unwrap().rank, 0);
}

#[test]
fn method_is_read_as_a_path() {
    let a = read(vec![value("method", text("  a::b "))]).unwrap();
    let m = a.compare_method.unwrap();
    assert_eq!(m, "a::b");
    assert_eq!(a.compare_trait, None);
    let b = read(vec![list("method", vec![text("cmp_it")])]).unwrap();
    assert_eq!(b.compare_method, Some("cmp_it".to_string()));
    let c = read(vec![value("method", text("a :: b :: < C > :: d"))]).unwrap();
    assert_eq!(c.compare_method, Some("a::b::<C>::d".to_string()));
}

#[test]
fn trait_alone_gets_canonical_method() {
    let a = read(vec![value("trait", text("A"))]).unwrap();
    assert_eq!(a.compare_trait, Some("A".to_string()));
    assert_eq!(a.compare_method, Some("partial_cmp".to_string()));
}

#[test]
fn trait_with_method_keeps_both() {
    let a = read(vec![value("trait", text("A")), value("method", text("m"))]).unwrap();
    assert_eq!(a.compare_trait, Some("A".to_string()));
    assert_eq!(a.compare_method, Some("m".to_string()));
}

#[test]
fn ignore_with_rank_conflicts() {
    assert_eq!(violation(vec![word("ignore"), value("rank", Lit::Int(1))]), Violation::ConflictingOptions);
    assert_eq!(violation(vec![list("rank", vec![Lit::Int(1)]), word("ignore")]), Violation::ConflictingOptions);
    // The default rank itself, written out, still counts as a rank of the field's own.
    assert_eq!(violation(vec![word("ignore"), value("rank", Lit::Int(7))]), Violation::ConflictingOptions);
}

#[test]
fn repeated_sub_option_is_duplicate() {
    assert_eq!(violation(vec![word("ignore"), word("ignore")]), Violation::DuplicateParameter);
    assert_eq!(
        violation(vec![value("rank", Lit::Int(1)), value("rank", Lit::Int(2))]),
        Violation::DuplicateParameter
    );
    assert_eq!(violation(vec![list("rank", vec![Lit::Int(1), Lit::Int(2)])]), Violation::DuplicateParameter);
    assert_eq!(
        violation(vec![value("method", text("a")), list("method", vec![text("b")])]),
        Violation::DuplicateParameter
    );
    assert_eq!(
        violation(vec![value("trait", text("a")), value("trait", text("a"))]),
        Violation::DuplicateParameter
    );
}

#[test]
fn unknown_sub_option_is_refused() {
    assert_eq!(violation(vec![word("bogus")]), Violation::UnknownParameter);
    let narrow = FieldAttributeBuilder { enable_ignore: false, enable_impl: false, rank: 0, enable_rank: false };
    for item in [word("ignore"), value("method", text("a")), value("trait", text("a")), value("rank", Lit::Int(1))] {
        assert_eq!(narrow.from_partial_ord_meta(&block(vec![item])).unwrap_err(), Violation::UnknownParameter);
    }
}

#[test]
fn wrong_shapes_are_format_violations() {
    assert_eq!(violation(vec![value("ignore", Lit::Int(1))]), Violation::AttributeFormat);
    assert_eq!(violation(vec![list("ignore", vec![])]), Violation::AttributeFormat);
    assert_eq!(violation(vec![word("rank")]), Violation::AttributeFormat);
    assert_eq!(violation(vec![value("rank", text("1"))]), Violation::AttributeFormat);
    assert_eq!(violation(vec![word("method")]), Violation::AttributeFormat);
    assert_eq!(violation(vec![value("method", Lit::Int(1))]), Violation::AttributeFormat);
    assert_eq!(violation(vec![value("trait", Lit::Other)]), Violation::AttributeFormat);
    assert_eq!(violation(vec![NestedMeta::Literal(Lit::Int(1))]), Violation::AttributeFormat);
    assert_eq!(
        violation(vec![NestedMeta::Meta(Meta::List("rank".to_string(), vec![word("x")]))]),
        Violation::AttributeFormat
    );
    assert_eq!(
        builder().from_partial_ord_meta(&Meta::Word("PartialOrd".to_string())).unwrap_err(),
        Violation::AttributeFormat
    );
    assert_eq!(
        builder().from_partial_ord_meta(&Meta::NameValue("PartialOrd".to_string(), Lit::Int(1))).unwrap_err(),
        Violation::AttributeFormat
    );
    assert_eq!(violation(vec![value("method", text("a b +"))]), Violation::AttributeFormat);
}

#[test]
fn empty_payload_is_refused() {
    assert_eq!(violation(vec![value("method", text(""))]), Violation::EmptyParameter);
    assert_eq!(violation(vec![value("trait", text("   "))]), Violation::EmptyParameter);
}

#[test]
fn first_violation_wins() {
    assert_eq!(violation(vec![word("bogus"), word("ignore"), word("ignore")]), Violation::UnknownParameter);
    assert_eq!(violation(vec![word("ignore"), word("ignore"), word("bogus")]), Violation::DuplicateParameter);
}

#[test]
fn attributes_without_block_give_defaults() {
    let attrs = vec![Meta::NameValue("doc".to_string(), text("hello")), educe(vec![word("Debug")])];
    let a = builder().from_attributes(&attrs, &[Trait::Debug, Trait::PartialOrd]).unwrap();
    assert!(!a.ignore);
    assert_eq!(a.rank, 7);
    assert_eq!(a.compare_method, None);
    let b = builder().from_attributes(&[], &[]).unwrap();
    assert_eq!(b.rank, 7);
}

#[test]
fn attributes_with_block_are_read() {
    let attrs = vec![
        Meta::Word("inline".to_string()),
        educe(vec![word("Debug"), NestedMeta::Meta(block(vec![value("rank", Lit::Int(2))]))]),
    ];
    let a = builder().from_attributes(&attrs, &[Trait::Debug, Trait::PartialOrd]).unwrap();
    assert_eq!(a.rank, 2);
}

#[test]
fn second_block_is_duplicate() {
    let attrs = vec![
        educe(vec![NestedMeta::Meta(block(vec![]))]),
        educe(vec![NestedMeta::Meta(block(vec![]))]),
    ];
    assert_eq!(
        builder().from_attributes(&attrs, &[Trait::PartialOrd]).unwrap_err(),
        Violation::DuplicateParameter
    );
}

#[test]
fn block_of_capability_not_enabled_is_unused() {
    let attrs = vec![educe(vec![NestedMeta::Meta(block(vec![]))])];
    assert_eq!(builder().from_attributes(&attrs, &[Trait::Debug]).unwrap_err(), Violation::UnusedCapability);
    let other = vec![educe(vec![word("Hash")])];
    assert_eq!(builder().from_attributes(&other, &[Trait::PartialOrd]).unwrap_err(), Violation::UnusedCapability);
    let unknown = vec![educe(vec![word("Frobnicate")])];
    assert_eq!(
        builder().from_attributes(&unknown, &[Trait::PartialOrd]).unwrap_err(),
        Violation::UnusedCapability
    );
}

#[test]
fn malformed_capability_list_is_format_violation() {
    assert_eq!(
        builder().from_attributes(&[Meta::Word("educe".to_string())], &[Trait::PartialOrd]).unwrap_err(),
        Violation::AttributeFormat
    );
    assert_eq!(
        builder().from_attributes(&[educe(vec![NestedMeta::Literal(Lit::Int(1))])], &[Trait::PartialOrd]).unwrap_err(),
        Violation::AttributeFormat
    );
}

#[test]
fn attributes_can_be_read_for_another_capability() {
    let clone_block = Meta::List("Clone".to_string(), vec![value("method", text("dup"))]);
    let attrs = vec![educe(vec![NestedMeta::Meta(clone_block), NestedMeta::Meta(block(vec![word("ignore")]))])];
    let traits = [Trait::Clone, Trait::PartialOrd];
    let for_clone = builder().from_attributes_for(&attrs, &traits, Trait::Clone).unwrap();
    assert_eq!(for_clone.compare_method, Some("dup".to_string()));
    assert!(!for_clone.ignore);
    let for_order = builder().from_attributes(&attrs, &traits).unwrap();
    assert_eq!(for_order.compare_method, None);
    assert!(for_order.ignore);
}

#[test]
fn violation_inside_block_is_passed_on() {
    let attrs = vec![educe(vec![NestedMeta::Meta(block(vec![word("ignore"), value("rank", Lit::Int(1))]))])];
    assert_eq!(
        builder().from_attributes(&attrs, &[Trait::PartialOrd]).unwrap_err(),
        Violation::ConflictingOptions
    );
}

#[test]
fn offending_element_is_the_first_that_fails() {
    let b = builder();
    assert_eq!(b.offending_element(&block(vec![word("ignore"), word("bogus"), word("ignore")])), Some(1));
    assert_eq!(b.offending_element(&block(vec![word("ignore"), word("ignore"), word("bogus")])), Some(1));
    assert_eq!(b.offending_element(&block(vec![value("rank", text("x"))])), Some(0));
    assert_eq!(b.offending_element(&block(vec![word("ignore")])), None);
    assert_eq!(b.offending_element(&block(vec![])), None);
    assert_eq!(b.offending_element(&Meta::Word("PartialOrd".to_string())), None);
    // A conflict is a violation of the block as a whole, not of one element.
    assert_eq!(b.offending_element(&block(vec![word("ignore"), value("rank", Lit::Int(1))])), None);
}

#[test]
fn accepted_forms_are_listed() {
    use_forms(educe_core::field_attribute::FieldKey::Ignore, 1, "PartialOrd(ignore)");
    use_forms(educe_core::field_attribute::FieldKey::Rank, 2, "PartialOrd(rank = priority_value)");
    use_forms(educe_core::field_attribute::FieldKey::Method, 6, "PartialOrd(method = \"path_to_method\")");
    use_forms(educe_core::field_attribute::FieldKey::Trait, 6, "PartialOrd(method = \"path_to_method\")");
}

fn use_forms(key: educe_core::field_attribute::FieldKey, count: usize, first: &str) {
    let forms = educe_core::field_attribute::accepted_forms(key);
    assert_eq!(forms.len(), count);
    assert_eq!(forms[0], first);
}

#[test]
fn fields_with_equal_ranks_keep_declaration_order() {
    let traits = [Trait::PartialOrd];
    let read_field = |items: Vec<NestedMeta>| {
        builder().from_attributes(&[educe(vec![NestedMeta::Meta(block(items))])], &traits).unwrap()
    };
    let unranked = read_field(vec![]);
    let bare = builder().from_attributes(&[], &traits).unwrap();
    assert_eq!(unranked.rank, 7);
    assert_eq!(bare.rank, 7);
    let by_value = read_field(vec![value("method", text("m")), value("rank", Lit::Int(3))]);
    let by_list = read_field(vec![list("rank", vec![Lit::Int(3)])]);
    assert_eq!(by_value.rank, 3);
    assert_eq!(by_list.rank, 3);
    let fields = vec![unranked, by_value, bare, by_list];
    assert_eq!(educe_core::ranking::comparison_chain(&fields), vec![1, 3, 0, 2]);
}

#[test]
fn repeated_literal_in_one_list_is_duplicate() {
    assert_eq!(violation(vec![list("method", vec![text("a"), text("a")])]), Violation::DuplicateParameter);
    assert_eq!(violation(vec![list("trait", vec![text("a"), text("b")])]), Violation::DuplicateParameter);
    assert_eq!(violation(vec![list("rank", vec![Lit::Int(2), Lit::Int(2)])]), Violation::DuplicateParameter);
    assert_eq!(
        violation(vec![value("rank", Lit::Int(2)), list("rank", vec![Lit::Int(2)])]),
        Violation::DuplicateParameter
    );
}
