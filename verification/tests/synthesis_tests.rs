use educe_core::capability::{enables, Trait};
use educe_core::clone_struct::{clone_field, CloneStructHandler, Declaration, DeclaredField, FieldShape, Member};
use educe_core::field_attribute::{canonical_method, FieldAttribute};
use educe_core::meta::{rank_from_literal, Lit, Meta, NestedMeta};
use educe_core::ordering::{chain_verdict, comparator_of, compare_along, compare_values, Comparator, Verdict};
use educe_core::ranking::comparison_chain;
use educe_core::syntax::{is_parseable, read_path, read_where_predicates, settle};
use educe_core::text::text_is;
use educe_core::violation::Violation;

fn ranked(rank: isize) -> FieldAttribute {
    FieldAttribute { ignore: false, compare_method: None, compare_trait: None, rank }
}

fn ignored(rank: isize) -> FieldAttribute {
    FieldAttribute { ignore: true, compare_method: None, compare_trait: None, rank }
}

fn clone_block(key: &str, value: &str) -> Meta {
    let item = NestedMeta::Meta(Meta::NameValue(key.to_string(), Lit::Str(value.to_string())));
    let block = NestedMeta::Meta(Meta::List("Clone".to_string(), vec![item]));
    Meta::List("educe".to_string(), vec![block])
}

fn field(name: Option<&str>, method: Option<&str>) -> DeclaredField {
    let attributes = match method {
        Some(m) => vec![clone_block("method", m)],
        None => vec![],
    };
    DeclaredField { name: name.map(|s| s.to_string()), attributes }
}

fn declaration(fields: Vec<DeclaredField>) -> Declaration {
    Declaration {
        name: "Sample".to_string(),
        generics: vec!["T".to_string(), "U".to_string()],
        predicates: vec!["T: Sized".to_string()],
        fields,
    }
}

fn clone_word() -> Meta {
    Meta::Word("Clone".to_string())
}

#[test]
fn distinct_ranks_ascend() {
    let fields = vec![ranked(5), ranked(-1), ranked(3), ranked(0)];
    assert_eq!(comparison_chain(&fields), vec![1, 3, 2, 0]);
}

#[test]
fn equal_ranks_keep_declaration_order() {
    let fields = vec![ranked(1), ranked(0), ranked(1), ranked(0), ranked(1)];
    assert_eq!(comparison_chain(&fields), vec![1, 3, 0, 2, 4]);
    let same = vec![ranked(2), ranked(2), ranked(2)];
    assert_eq!(comparison_chain(&same), vec![0, 1, 2]);
}

#[test]
fn ignored_fields_leave_the_chain_but_not_the_duplication() {
    let fields = vec![ranked(1), ignored(0), ranked(0)];
    assert_eq!(comparison_chain(&fields), vec![2, 0]);
    let plan = CloneStructHandler::trait_meta_handler(
        &declaration(vec![field(Some("a"), None), field(Some("b"), None), field(Some("c"), None)]),
        &[Trait::Clone],
        &clone_word(),
    )
    .unwrap();
    assert_eq!(
        plan.members,
        vec![Member::Named("a".to_string()), Member::Named("b".to_string()), Member::Named("c".to_string())]
    );
}

#[test]
fn empty_and_all_ignored_chains() {
    assert_eq!(comparison_chain(&vec![]), Vec::<usize>::new());
    assert_eq!(comparison_chain(&vec![ignored(0), ignored(1)]), Vec::<usize>::new());
}

#[test]
fn lower_rank_is_consulted_first() {
    // x has rank 1 and y has rank 0: y is consulted first.
    let fields = vec![ranked(1), ranked(0)];
    assert_eq!(comparison_chain(&fields), vec![1, 0]);
    assert_eq!(compare_values(&fields, &vec![1, 5], &vec![2, 5]), Verdict::Less);
    assert_eq!(compare_values(&fields, &vec![1, 5], &vec![1, 9]), Verdict::Less);
    assert_eq!(compare_values(&fields, &vec![9, 5], &vec![1, 9]), Verdict::Less);
    assert_eq!(compare_values(&fields, &vec![1, 9], &vec![9, 5]), Verdict::Greater);
    assert_eq!(compare_values(&fields, &vec![1, 5], &vec![1, 5]), Verdict::Equal);
}

#[test]
fn ignored_field_does_not_decide() {
    let fields = vec![ignored(0), ranked(0)];
    assert_eq!(compare_values(&fields, &vec![1, 5], &vec![2, 5]), Verdict::Equal);
    assert_eq!(compare_values(&fields, &vec![1, 6], &vec![2, 5]), Verdict::Greater);
}

#[test]
fn unit_type_compares_equal_and_duplicates_to_nothing() {
    assert_eq!(compare_values(&vec![], &vec![], &vec![]), Verdict::Equal);
    assert_eq!(compare_along(&vec![], &vec![1], &vec![2]), Verdict::Equal);
    let plan = CloneStructHandler::trait_meta_handler(&declaration(vec![]), &[Trait::Clone], &clone_word()).unwrap();
    assert_eq!(plan.shape, FieldShape::Unit);
    assert!(plan.members.is_empty());
    assert!(!plan.bitwise);
    assert_eq!(plan.duplicate(&vec![]), Vec::<i64>::new());
}

#[test]
fn duplicate_then_overwrite_compares_equal() {
    let plan = CloneStructHandler::trait_meta_handler(
        &declaration(vec![field(Some("a"), None), field(Some("b"), None)]),
        &[Trait::Clone, Trait::Ord],
        &clone_word(),
    )
    .unwrap();
    let first = vec![1, 2];
    let copy = plan.duplicate(&first);
    assert_eq!(copy, vec![1, 2]);
    let mut other = vec![40, 50];
    plan.overwrite(&mut other, &copy);
    assert_eq!(other, vec![1, 2]);
    let fields = vec![ranked(0), ranked(0)];
    assert_eq!(compare_values(&fields, &copy, &first), Verdict::Equal);
    assert_eq!(compare_values(&fields, &other, &first), Verdict::Equal);
}

#[test]
fn chain_verdict_takes_first_decided_step() {
    let (equal, less, greater, incomparable) = (Verdict::Equal, Verdict::Less, Verdict::Greater, Verdict::Incomparable);
    assert_eq!(chain_verdict(&vec![]), equal);
    assert_eq!(chain_verdict(&vec![equal, equal]), equal);
    assert_eq!(chain_verdict(&vec![equal, less, greater]), less);
    assert_eq!(chain_verdict(&vec![greater, less]), greater);
    assert_eq!(chain_verdict(&vec![equal, incomparable, less]), incomparable);
    assert_eq!(chain_verdict(&vec![less, incomparable]), less);
}

#[test]
fn comparator_selection() {
    let own = ranked(0);
    assert!(matches!(comparator_of(&own), Comparator::Own));
    let function = FieldAttribute { ignore: false, compare_method: Some("f".to_string()), compare_trait: None, rank: 0 };
    match comparator_of(&function) {
        Comparator::Function(m) => assert_eq!(m, "f"),
        _ => panic!("function expected"),
    }
    let both = FieldAttribute {
        ignore: false,
        compare_method: Some("m".to_string()),
        compare_trait: Some("T".to_string()),
        rank: 0,
    };
    match comparator_of(&both) {
        Comparator::TraitMethod(t, m) => {
            assert_eq!(t, "T");
            assert_eq!(m, "m");
        }
        _ => panic!("trait method expected"),
    }
    let trait_only = FieldAttribute { ignore: false, compare_method: None, compare_trait: Some("T".to_string()), rank: 0 };
    assert!(matches!(comparator_of(&trait_only), Comparator::Own));
}

#[test]
fn bitwise_path_needs_copy_and_no_override() {
    let plain = declaration(vec![field(None, None), field(None, None)]);
    let plan = CloneStructHandler::trait_meta_handler(&plain, &[Trait::Clone, Trait::Copy], &clone_word()).unwrap();
    assert!(plan.bitwise);
    assert_eq!(plan.shape, FieldShape::Positional);
    assert_eq!(plan.members, vec![Member::Unnamed(0), Member::Unnamed(1)]);
    let no_copy = CloneStructHandler::trait_meta_handler(&plain, &[Trait::Clone], &clone_word()).unwrap();
    assert!(!no_copy.bitwise);
    let custom = declaration(vec![field(None, None), field(None, Some("dup"))]);
    let plan = CloneStructHandler::trait_meta_handler(&custom, &[Trait::Clone, Trait::Copy], &clone_word()).unwrap();
    assert!(!plan.bitwise);
    assert_eq!(plan.members, vec![Member::Unnamed(0), Member::Unnamed(1)]);
}

#[test]
fn shape_follows_first_field() {
    let named = declaration(vec![field(Some("a"), None), field(None, None)]);
    let plan = CloneStructHandler::trait_meta_handler(&named, &[Trait::Clone], &clone_word()).unwrap();
    assert_eq!(plan.shape, FieldShape::Named);
    assert_eq!(plan.members, vec![Member::Named("a".to_string()), Member::Unnamed(1)]);
}

#[test]
fn clone_bounds_are_merged() {
    let d = declaration(vec![field(Some("a"), None)]);
    let none = CloneStructHandler::trait_meta_handler(&d, &[Trait::Clone], &clone_word()).unwrap();
    assert_eq!(none.predicates, vec!["T: Sized".to_string()]);
    let auto_meta = Meta::List("Clone".to_string(), vec![NestedMeta::Meta(Meta::Word("bound".to_string()))]);
    let auto = CloneStructHandler::trait_meta_handler(&d, &[Trait::Clone], &auto_meta).unwrap();
    assert_eq!(
        auto.predicates,
        vec!["T: Sized".to_string(), "T: core::clone::Clone".to_string(), "U: core::clone::Clone".to_string()]
    );
    let custom_meta = Meta::List(
        "Clone".to_string(),
        vec![NestedMeta::Meta(Meta::NameValue("bound".to_string(), Lit::Str("T: Copy".to_string())))],
    );
    let custom = CloneStructHandler::trait_meta_handler(&d, &[Trait::Clone], &custom_meta).unwrap();
    assert_eq!(custom.predicates.len(), 2);
    assert_eq!(custom.predicates[0], "T: Sized");
    assert_eq!(custom.predicates[1].replace(' ', ""), "T:Copy");
}

#[test]
fn clone_block_violations_abort() {
    let d = declaration(vec![field(Some("a"), None)]);
    let rank = Meta::List(
        "Clone".to_string(),
        vec![NestedMeta::Meta(Meta::NameValue("rank".to_string(), Lit::Int(1)))],
    );
    assert_eq!(
        CloneStructHandler::trait_meta_handler(&d, &[Trait::Clone], &rank).unwrap_err(),
        Violation::UnknownParameter
    );
    let shape = Meta::NameValue("Clone".to_string(), Lit::Int(1));
    assert_eq!(
        CloneStructHandler::trait_meta_handler(&d, &[Trait::Clone], &shape).unwrap_err(),
        Violation::AttributeFormat
    );
}

#[test]
fn capability_names() {
    assert_eq!(Trait::from_str(&"PartialOrd".to_string()), Some(Trait::PartialOrd));
    assert_eq!(Trait::from_str(&"Ord".to_string()), Some(Trait::Ord));
    assert_eq!(Trait::from_str(&"DerefMut".to_string()), Some(Trait::DerefMut));
    assert_eq!(Trait::from_str(&"Copy".to_string()), Some(Trait::Copy));
    assert_eq!(Trait::from_str(&"ord".to_string()), None);
    assert!(enables(&[Trait::Debug, Trait::Ord], Trait::Ord));
    assert!(!enables(&[Trait::Debug, Trait::Ord], Trait::Clone));
    assert!(!enables(&[], Trait::Clone));
}

#[test]
fn small_helpers() {
    assert_eq!(rank_from_literal(12), 12);
    assert_eq!(rank_from_literal(u64::MAX), isize::MAX);
    assert!(text_is(&"rank".to_string(), "rank"));
    assert!(!text_is(&"rank".to_string(), "ranks"));
    assert_eq!(canonical_method(), "partial_cmp");
    assert_eq!(Meta::Word("w".to_string()).name(), "w");
    assert_eq!(Meta::List("l".to_string(), vec![]).name(), "l");
    assert_eq!(Meta::NameValue("n".to_string(), Lit::Other).name(), "n");
}

#[test]
fn payloads_are_settled() {
    assert_eq!(settle(true, Some(1)), Err(Violation::EmptyParameter));
    assert_eq!(settle::<i32>(true, None), Err(Violation::EmptyParameter));
    assert_eq!(settle::<i32>(false, None), Err(Violation::AttributeFormat));
    assert_eq!(settle(false, Some(1)), Ok(1));
}

#[test]
fn payloads_are_trimmed_and_parsed() {
    assert_eq!(read_path(&"  name  ".to_string()), Ok("name".to_string()));
    assert_eq!(read_path(&"a :: b".to_string()), Ok("a::b".to_string()));
    assert_eq!(read_path(&" \t ".to_string()), Err(Violation::EmptyParameter));
    assert_eq!(read_path(&"1 +".to_string()), Err(Violation::AttributeFormat));
    let clauses = read_where_predicates(&"T: Ord, U: Ord,".to_string()).unwrap();
    assert_eq!(clauses.len(), 2);
    assert_eq!(read_where_predicates(&"".to_string()), Err(Violation::EmptyParameter));
    assert_eq!(read_where_predicates(&"T: (".to_string()), Err(Violation::AttributeFormat));
}

#[test]
fn comparison_steps_follow_the_chain() {
    let custom = FieldAttribute { ignore: false, compare_method: Some("f".to_string()), compare_trait: None, rank: 0 };
    let fields = vec![ranked(2), ignored(0), custom, ranked(1)];
    let steps = educe_core::ordering::comparison_steps(&fields);
    let order: Vec<usize> = steps.iter().map(|s| s.field).collect();
    assert_eq!(order, vec![2, 3, 0]);
    assert!(matches!(&steps[0].comparator, Comparator::Function(m) if m == "f"));
    assert!(matches!(steps[1].comparator, Comparator::Own));
    assert!(matches!(steps[2].comparator, Comparator::Own));
    assert!(educe_core::ordering::comparison_steps(&vec![]).is_empty());
}

#[test]
fn field_attributes_are_read_for_duplication() {
    let plain = clone_field(Some("a".to_string()), &[], &[Trait::Clone]).unwrap();
    assert_eq!(plain.name, Some("a".to_string()));
    assert!(!plain.has_clone_method);
    let with_method = clone_field(None, &[clone_block("method", "dup")], &[Trait::Clone]).unwrap();
    assert_eq!(with_method.name, None);
    assert!(with_method.has_clone_method);
    let with_trait = clone_field(None, &[clone_block("trait", "Dup")], &[Trait::Clone]).unwrap();
    assert!(with_trait.has_clone_method);
    let ranked = Meta::List(
        "educe".to_string(),
        vec![NestedMeta::Meta(Meta::List(
            "Clone".to_string(),
            vec![NestedMeta::Meta(Meta::NameValue("rank".to_string(), Lit::Int(1)))],
        ))],
    );
    assert_eq!(clone_field(None, &[ranked], &[Trait::Clone]).unwrap_err(), Violation::UnknownParameter);
    let ignore = Meta::List(
        "educe".to_string(),
        vec![NestedMeta::Meta(Meta::List("Clone".to_string(), vec![NestedMeta::Meta(Meta::Word("ignore".to_string()))]))],
    );
    assert_eq!(clone_field(None, &[ignore], &[Trait::Clone]).unwrap_err(), Violation::UnknownParameter);
    assert_eq!(
        clone_field(None, &[clone_block("method", "dup")], &[Trait::Debug]).unwrap_err(),
        Violation::UnusedCapability
    );
}

#[test]
fn violation_in_a_field_aborts_the_plan() {
    let bad = DeclaredField { name: Some("b".to_string()), attributes: vec![clone_block("method", "")] };
    let worse = DeclaredField { name: Some("c".to_string()), attributes: vec![clone_block("bogus", "x")] };
    let d = declaration(vec![field(Some("a"), None), bad, worse]);
    assert_eq!(
        CloneStructHandler::trait_meta_handler(&d, &[Trait::Clone], &clone_word()).unwrap_err(),
        Violation::EmptyParameter
    );
    // A violation in the type's block comes first.
    let shape = Meta::NameValue("Clone".to_string(), Lit::Int(1));
    assert_eq!(
        CloneStructHandler::trait_meta_handler(&d, &[Trait::Clone], &shape).unwrap_err(),
        Violation::AttributeFormat
    );
}

#[test]
fn texts_that_the_parser_cannot_take_are_malformed() {
    assert!(is_parseable("a::b"));
    assert!(is_parseable("T: 'static"));
    assert!(is_parseable("Box<dyn Send>"));
    assert!(is_parseable("T: 'static + dyn_clone::DynClone"));
    assert!(is_parseable("T: Deref<Target = dyn Foo + 'a>"));
    assert!(is_parseable("&'a dyn Foo: Ord"));
    assert!(is_parseable("'dyn"));
    assert!(is_parseable("dyn"));
    assert!(!is_parseable("A<for<'a> dyn 'b + T>"));
    assert!(!is_parseable("for<> dyn'b + T"));
    assert!(!is_parseable("dyn \t\n 'b"));
    assert!(!is_parseable("dyn /* c */ 'b"));
    assert!(!is_parseable("dyn\u{a0}'b"));
    assert_eq!(read_path(&"A<for<'a> dyn 'b + T>".to_string()), Err(Violation::AttributeFormat));
    assert_eq!(
        read_where_predicates(&"T: Into<for<'a> dyn 'b + U>".to_string()),
        Err(Violation::AttributeFormat)
    );
    assert!(read_where_predicates(&"T: 'static".to_string()).is_ok());
    let kept = read_where_predicates(&"T: 'static + dyn_clone::DynClone".to_string()).unwrap();
    assert_eq!(kept.len(), 1);
    assert_eq!(kept[0].replace(' ', ""), "T:'static+dyn_clone::DynClone");
    assert!(read_where_predicates(&"T: Deref<Target = dyn Foo + 'a>".to_string()).is_ok());
    assert_eq!(read_path(&"".to_string()), Err(Violation::EmptyParameter));
}

#[test]
fn spaces_are_removed() {
    assert_eq!(educe_core::syntax::remove_spaces(" a :: b  c "), "a::bc");
    assert_eq!(educe_core::syntax::remove_spaces(""), "");
    assert_eq!(educe_core::syntax::remove_spaces("   "), "");
    assert_eq!(educe_core::syntax::remove_spaces("a\tb"), "a\tb");
}

#[test]
fn duplication_bodies_are_written() {
    let name = "Sample".to_string();
    let named = CloneStructHandler::trait_meta_handler(
        &declaration(vec![field(Some("a"), None), field(Some("b"), None)]),
        &[Trait::Clone],
        &clone_word(),
    )
    .unwrap();
    assert_eq!(
        named.clone_body(&name),
        "Sample{a: core::clone::Clone::clone(&self.a),b: core::clone::Clone::clone(&self.b),}"
    );
    assert_eq!(
        named.clone_from_body(),
        "core::clone::Clone::clone_from(&mut self.a, &_source.a);core::clone::Clone::clone_from(&mut self.b, &_source.b);"
    );
    let mut many = Vec::new();
    for _ in 0..11 {
        many.push(field(None, None));
    }
    let positional =
        CloneStructHandler::trait_meta_handler(&declaration(many), &[Trait::Clone], &clone_word()).unwrap();
    let body = positional.clone_body(&name);
    assert!(body.starts_with("Sample(core::clone::Clone::clone(&self.0),core::clone::Clone::clone(&self.1),"));
    assert!(body.ends_with("core::clone::Clone::clone(&self.10),)"));
    let unit = CloneStructHandler::trait_meta_handler(&declaration(vec![]), &[Trait::Clone], &clone_word()).unwrap();
    assert_eq!(unit.clone_body(&name), "Sample");
    assert_eq!(unit.clone_from_body(), "");
    let bitwise = CloneStructHandler::trait_meta_handler(
        &declaration(vec![field(None, None)]),
        &[Trait::Clone, Trait::Copy],
        &clone_word(),
    )
    .unwrap();
    assert_eq!(bitwise.clone_body(&name), "*self");
    assert_eq!(bitwise.clone_from_body(), "core::clone::Clone::clone_from(&mut self.0, &_source.0);");
}

#[test]
fn numbers_are_written_in_decimal() {
    assert_eq!(educe_core::clone_struct::decimal_text(0), "0");
    assert_eq!(educe_core::clone_struct::decimal_text(7), "7");
    assert_eq!(educe_core::clone_struct::decimal_text(10), "10");
    assert_eq!(educe_core::clone_struct::decimal_text(1234567890), "1234567890");
}
