use vstd::prelude::*;
use vstd::string::StringExecFns;
use crate::capability::{enables, Trait};
use crate::field_attribute::FieldAttributeBuilder;
use crate::meta::Meta;
use crate::ordering::{lemma_equal_values_compare_equal, structural_verdict, Verdict};
use crate::text::texts;
use crate::type_attribute::{merge_clauses, resolved_clauses, TypeAttributeBuilder, TypeConfig};
use crate::violation::Violation;

verus! {

/// The shape of a composite type, by its first field.
#[derive(Clone, Copy, Debug, PartialEq, Eq, Structural)]
pub enum FieldShape {
    /// No field at all.
    Unit,
    /// Fields known by their position.
    Positional,
    /// Fields known by their name.
    Named,
}

/// How generated code refers to a field.
#[derive(Debug, Clone, PartialEq, Eq)]
pub enum Member {
    Named(String),
    Unnamed(usize),
}

/// A member as a mathematical value.
pub ghost enum MemberSpec {
    Named(Seq<char>),
    Unnamed(int),
}

impl View for Member {
    type V = MemberSpec;

    open spec fn view(&self) -> MemberSpec {
        match self {
            Member::Named(n) => MemberSpec::Named(n@),
            Member::Unnamed(i) => MemberSpec::Unnamed(*i as int),
        }
    }
}

/// A field as it is declared: its name, if it has one, and the metadata of
/// its attributes.
#[derive(Debug)]
pub struct DeclaredField {
    pub name: Option<String>,
    pub attributes: Vec<Meta>,
}

/// A field as duplication sees it, once its attributes are read: its name,
/// and whether a method of its own overrides its duplication.
#[derive(Debug, Clone)]
pub struct StructField {
    pub name: Option<String>,
    pub has_clone_method: bool,
}

/// A declaration of a composite type: its name, the names of its generic
/// parameters, the constraint clauses that it carries, and its fields in the
/// order in which they are declared.
#[derive(Debug)]
pub struct Declaration {
    pub name: String,
    pub generics: Vec<String>,
    pub predicates: Vec<String>,
    pub fields: Vec<DeclaredField>,
}

/// The generated duplication of a type: whether a value is duplicated by a
/// copy of its memory, the shape of the literal that is built otherwise, the
/// fields that are duplicated and overwritten one by one, and the constraint
/// clauses of the implementation.
#[derive(Debug, Clone)]
pub struct CloneImpl {
    pub bitwise: bool,
    pub shape: FieldShape,
    pub members: Vec<Member>,
    pub predicates: Vec<String>,
}

/// The shape of a type with the given fields.
pub open spec fn shape_of(fields: Seq<DeclaredField>) -> FieldShape {
    if fields.len() == 0 {
        FieldShape::Unit
    } else if fields[0].name is Some {
        FieldShape::Named
    } else {
        FieldShape::Positional
    }
}

/// How the field at position `i` is referred to: by its name, or by its
/// position where it has none.
pub open spec fn member_at(fields: Seq<DeclaredField>, i: int) -> MemberSpec {
    match fields[i].name {
        Some(n) => MemberSpec::Named(n@),
        None => MemberSpec::Unnamed(i),
    }
}

/// The builder that reads a field's block for duplication: a method and a
/// trait are accepted, `ignore` and a rank are not.
pub open spec fn duplication_field_builder() -> FieldAttributeBuilder {
    FieldAttributeBuilder { enable_ignore: false, enable_impl: true, rank: 0, enable_rank: false }
}

/// Whether the attributes of a field override its duplication with a method,
/// or the violation that they hold.
pub open spec fn overrides(traits: Seq<Trait>, attributes: Seq<Meta>) -> Result<bool, Violation> {
    match duplication_field_builder().config(traits, Trait::Clone, attributes) {
        Ok(c) => Ok(c.compare_method is Some),
        Err(e) => Err(e),
    }
}

/// Whether some field overrides its duplication.
pub open spec fn overrides_duplication(traits: Seq<Trait>, fields: Seq<DeclaredField>) -> bool {
    exists|i: int|
        0 <= i < fields.len() && overrides(traits, (#[trigger] fields[i]).attributes@) == Ok::<
            bool,
            Violation,
        >(true)
}

/// Whether the field at position `k` is the first whose attributes hold a
/// violation, and `e` is that violation.
pub open spec fn first_violation(traits: Seq<Trait>, fields: Seq<DeclaredField>, k: int, e: Violation) -> bool {
    &&& 0 <= k < fields.len()
    &&& overrides(traits, fields[k].attributes@) == Err::<bool, Violation>(e)
    &&& forall|j: int| 0 <= j < k ==> overrides(traits, (#[trigger] fields[j]).attributes@) is Ok
}

/// Reads the attributes of one field for duplication. The field's block may
/// name a method and a trait; every capability that the attributes configure
/// must be among `traits`.
pub fn clone_field(name: Option<String>, attributes: &[Meta], traits: &[Trait]) -> (r: Result<
    StructField,
    Violation,
>)
    ensures
        match r {
            Ok(f) => f.name == name && overrides(traits@, attributes@) == Ok::<bool, Violation>(
                f.has_clone_method,
            ),
            Err(e) => overrides(traits@, attributes@) == Err::<bool, Violation>(e),
        },
{
    let builder = FieldAttributeBuilder {
        enable_ignore: false,
        enable_impl: true,
        rank: 0,
        enable_rank: false,
    };
    match builder.from_attributes_for(attributes, traits, Trait::Clone) {
        Ok(a) => Ok(StructField { name, has_clone_method: a.compare_method.is_some() }),
        Err(e) => Err(e),
    }
}

/// The builder that reads the type's block for duplication: the bare word
/// and a bound are accepted, a rank is not.
pub open spec fn duplication_builder() -> TypeAttributeBuilder {
    TypeAttributeBuilder { enable_flag: true, enable_bound: true, rank: 0, enable_rank: false }
}

/// The members of a generated duplication as mathematical values.
pub open spec fn member_specs(members: Seq<Member>) -> Seq<MemberSpec> {
    members.map_values(|m: Member| m@)
}

/// The value that the generated duplication makes of `source`: the source
/// itself on the bitwise path, and otherwise a value built from the
/// duplicates of the listed fields, in their order.
pub open spec fn duplicated(bitwise: bool, members: int, source: Seq<i64>) -> Seq<i64> {
    if bitwise {
        source
    } else {
        Seq::new(members as nat, |i: int| source[i])
    }
}

/// The value that `target` is after the generated overwrite from `source`:
/// each listed field is overwritten with the field of the source.
pub open spec fn overwritten(members: int, target: Seq<i64>, source: Seq<i64>) -> Seq<i64> {
    Seq::new(
        target.len(),
        |i: int|
            if i < members {
                source[i]
            } else {
                target[i]
            },
    )
}

fn copy_texts(v: &Vec<String>) -> (r: Vec<String>)
    ensures
        texts(r@) == texts(v@),
{
    let mut r: Vec<String> = Vec::new();
    let mut i: usize = 0;
    while i < v.len()
        invariant
            i <= v.len(),
            r@.len() == i,
            forall|j: int| 0 <= j < i ==> (#[trigger] r@[j])@ == v@[j]@,
        decreases v.len() - i,
    {
        r.push(v[i].clone());
        i += 1;
    }
    assert(texts(r@) =~= texts(v@));
    r
}

/// The synthesis of duplication for a structure.
pub struct CloneStructHandler;

impl CloneStructHandler {
    /// Plans the duplication and the overwrite of a structure from its
    /// declaration, the capabilities enabled on it and the type's block.
    ///
    /// The type's block is read first, then the attributes of each field in
    /// declaration order; the first violation is the result, and no plan is
    /// made. A value is duplicated by a copy of its memory where no field
    /// overrides its duplication and the type is bitwise-copyable. Every
    /// field, ignored in comparisons or not, is listed for duplication and
    /// overwrite, in declaration order. The clauses that the bound adds
    /// follow those that the declaration has.
    pub fn trait_meta_handler(ast: &Declaration, traits: &[Trait], meta: &Meta) -> (r: Result<
        CloneImpl,
        Violation,
    >)
        ensures
            match r {
                Err(e) => {
                    ||| duplication_builder().ord_config(*meta) == Err::<TypeConfig, Violation>(e)
                    ||| (duplication_builder().ord_config(*meta) is Ok && exists|k: int|
                        first_violation(traits@, ast.fields@, k, e))
                },
                Ok(plan) => {
                    &&& duplication_builder().ord_config(*meta) is Ok
                    &&& forall|k: int|
                        0 <= k < ast.fields@.len() ==> overrides(
                            traits@,
                            (#[trigger] ast.fields@[k]).attributes@,
                        ) is Ok
                    &&& plan.bitwise == (!overrides_duplication(traits@, ast.fields@)
                        && traits@.contains(Trait::Copy))
                    &&& plan.shape == shape_of(ast.fields@)
                    &&& plan.members@.len() == ast.fields@.len()
                    &&& forall|i: int|
                        0 <= i < ast.fields@.len() ==> (#[trigger] plan.members@[i])@ == member_at(
                            ast.fields@,
                            i,
                        )
                    &&& texts(plan.predicates@) == texts(ast.predicates@) + resolved_clauses(
                        duplication_builder().ord_config(*meta)->Ok_0.bound,
                        texts(ast.generics@),
                        "core::clone::Clone"@,
                    )
                },
            },
    {
        let builder = TypeAttributeBuilder {
            enable_flag: true,
            enable_bound: true,
            rank: 0,
            enable_rank: false,
        };
        let type_attribute = match builder.from_ord_meta(meta) {
            Ok(a) => a,
            Err(e) => {
                return Err(e);
            },
        };
        let bound = type_attribute.bound.into_where_predicates(&ast.generics, "core::clone::Clone");
        let mut members: Vec<Member> = Vec::new();
        let mut has_custom_clone_method = false;
        let mut index: usize = 0;
        while index < ast.fields.len()
            invariant
                index <= ast.fields.len(),
                duplication_builder().ord_config(*meta) is Ok,
                members@.len() == index,
                forall|i: int|
                    0 <= i < index ==> (#[trigger] members@[i])@ == member_at(ast.fields@, i),
                forall|j: int|
                    0 <= j < index ==> overrides(traits@, (#[trigger] ast.fields@[j]).attributes@) is Ok,
                has_custom_clone_method == (exists|i: int|
                    0 <= i < index && overrides(traits@, (#[trigger] ast.fields@[i]).attributes@) == Ok::<
                        bool,
                        Violation,
                    >(true)),
            decreases ast.fields.len() - index,
        {
            let declared = &ast.fields[index];
            let name = match &declared.name {
                Some(name) => Some(name.clone()),
                None => None,
            };
            let field = match clone_field(name, declared.attributes.as_slice(), traits) {
                Ok(field) => field,
                Err(e) => {
                    assert(first_violation(traits@, ast.fields@, index as int, e));
                    return Err(e);
                },
            };
            let member = match field.name {
                Some(name) => Member::Named(name),
                None => Member::Unnamed(index),
            };
            if field.has_clone_method {
                has_custom_clone_method = true;
            }
            members.push(member);
            index += 1;
        }
        let bitwise = !has_custom_clone_method && enables(traits, Trait::Copy);
        let shape = if ast.fields.len() == 0 {
            FieldShape::Unit
        } else if ast.fields[0].name.is_some() {
            FieldShape::Named
        } else {
            FieldShape::Positional
        };
        let predicates = merge_clauses(copy_texts(&ast.predicates), bound);
        Ok(CloneImpl { bitwise, shape, members, predicates })
    }
}

impl CloneImpl {
    /// Duplicates a value of integer fields as the generated duplication
    /// does.
    pub fn duplicate(&self, source: &Vec<i64>) -> (r: Vec<i64>)
        requires
            source@.len() == self.members@.len(),
        ensures
            r@ == duplicated(self.bitwise, self.members@.len() as int, source@),
            r@ == source@,
    {
        let mut r: Vec<i64> = Vec::new();
        let mut i: usize = 0;
        while i < source.len()
            invariant
                i <= source.len(),
                r@.len() == i,
                forall|j: int| 0 <= j < i ==> r@[j] == source@[j],
            decreases source.len() - i,
        {
            r.push(source[i]);
            i += 1;
        }
        assert(r@ =~= source@);
        assert(duplicated(self.bitwise, self.members@.len() as int, source@) =~= source@);
        r
    }

    /// Overwrites a value of integer fields from another, field by field, as
    /// the generated overwrite does.
    pub fn overwrite(&self, target: &mut Vec<i64>, source: &Vec<i64>)
        requires
            source@.len() == self.members@.len(),
            old(target)@.len() == self.members@.len(),
        ensures
            final(target)@ == overwritten(self.members@.len() as int, old(target)@, source@),
            final(target)@ == source@,
    {
        let ghost before = target@;
        let mut i: usize = 0;
        while i < source.len()
            invariant
                i <= source.len(),
                target@.len() == source@.len(),
                forall|j: int| 0 <= j < i ==> target@[j] == source@[j],
            decreases source.len() - i,
        {
            target.set(i, source[i]);
            i += 1;
        }
        assert(target@ =~= source@);
        assert(overwritten(self.members@.len() as int, before, source@) =~= source@);
    }
}

/// A value that was duplicated, and another that was then overwritten with
/// the duplicate, both compare as `Equal` with the first value, along every
/// chain.
pub proof fn lemma_duplicate_compares_equal(
    bitwise: bool,
    members: int,
    chain: Seq<usize>,
    first: Seq<i64>,
    other: Seq<i64>,
)
    requires
        first.len() == members,
        other.len() == members,
    ensures
        duplicated(bitwise, members, first) == first,
        overwritten(members, other, duplicated(bitwise, members, first)) == first,
        structural_verdict(
            chain,
            overwritten(members, other, duplicated(bitwise, members, first)),
            first,
            0,
        ) == Verdict::Equal,
{
    assert(duplicated(bitwise, members, first) =~= first);
    assert(overwritten(members, other, first) =~= first);
    lemma_equal_values_compare_equal(chain, first, 0);
}

/// The decimal digit of a number below ten.
pub open spec fn digit(d: int) -> char {
    if d == 0 {
        '0'
    } else if d == 1 {
        '1'
    } else if d == 2 {
        '2'
    } else if d == 3 {
        '3'
    } else if d == 4 {
        '4'
    } else if d == 5 {
        '5'
    } else if d == 6 {
        '6'
    } else if d == 7 {
        '7'
    } else if d == 8 {
        '8'
    } else {
        '9'
    }
}

/// A number written in decimal digits.
pub open spec fn decimal(n: nat) -> Seq<char>
    decreases n,
{
    if n < 10 {
        seq![digit(n as int)]
    } else {
        decimal(n / 10).push(digit((n % 10) as int))
    }
}

fn digit_text(d: usize) -> (r: &'static str)
    requires
        d < 10,
    ensures
        r@ == seq![digit(d as int)],
{
    if d == 0 {
        proof {
            reveal_strlit("0");
            assert("0"@ =~= seq![digit(0)]);
        }
        "0"
    } else if d == 1 {
        proof {
            reveal_strlit("1");
            assert("1"@ =~= seq![digit(1)]);
        }
        "1"
    } else if d == 2 {
        proof {
            reveal_strlit("2");
            assert("2"@ =~= seq![digit(2)]);
        }
        "2"
    } else if d == 3 {
        proof {
            reveal_strlit("3");
            assert("3"@ =~= seq![digit(3)]);
        }
        "3"
    } else if d == 4 {
        proof {
            reveal_strlit("4");
            assert("4"@ =~= seq![digit(4)]);
        }
        "4"
    } else if d == 5 {
        proof {
            reveal_strlit("5");
            assert("5"@ =~= seq![digit(5)]);
        }
        "5"
    } else if d == 6 {
        proof {
            reveal_strlit("6");
            assert("6"@ =~= seq![digit(6)]);
        }
        "6"
    } else if d == 7 {
        proof {
            reveal_strlit("7");
            assert("7"@ =~= seq![digit(7)]);
        }
        "7"
    } else if d == 8 {
        proof {
            reveal_strlit("8");
            assert("8"@ =~= seq![digit(8)]);
        }
        "8"
    } else {
        proof {
            reveal_strlit("9");
            assert("9"@ =~= seq![digit(9)]);
        }
        "9"
    }
}

/// Writes a number in decimal digits.
pub fn decimal_text(n: usize) -> (r: String)
    ensures
        r@ == decimal(n as nat),
    decreases n,
{
    if n < 10 {
        String::from_str(digit_text(n))
    } else {
        let mut r = decimal_text(n / 10);
        let ghost front = r@;
        r.append(digit_text(n % 10));
        assert(r@ =~= front.push(digit((n % 10) as int)));
        r
    }
}

/// How a member is written in generated code: by its name, or by its
/// position in decimal digits.
pub open spec fn member_text(m: MemberSpec) -> Seq<char> {
    match m {
        MemberSpec::Named(n) => n,
        MemberSpec::Unnamed(i) => decimal(i as nat),
    }
}

/// The step that duplicates one field inside the literal of the new value:
/// with the field's name in front where the fields are named.
pub open spec fn duplicate_step(named: bool, m: Seq<char>) -> Seq<char> {
    if named {
        m + ": core::clone::Clone::clone(&self."@ + m + "),"@
    } else {
        "core::clone::Clone::clone(&self."@ + m + "),"@
    }
}

/// The step that overwrites one field from the source.
pub open spec fn overwrite_step(m: Seq<char>) -> Seq<char> {
    "core::clone::Clone::clone_from(&mut self."@ + m + ", &_source."@ + m + ");"@
}

/// The steps that duplicate the first `n` members, in their order.
pub open spec fn duplicate_steps(members: Seq<MemberSpec>, named: bool, n: nat) -> Seq<char>
    decreases n,
{
    if n == 0 {
        Seq::empty()
    } else {
        duplicate_steps(members, named, (n - 1) as nat) + duplicate_step(named, member_text(members[n - 1]))
    }
}

/// The steps that overwrite the first `n` members, in their order.
pub open spec fn overwrite_steps(members: Seq<MemberSpec>, n: nat) -> Seq<char>
    decreases n,
{
    if n == 0 {
        Seq::empty()
    } else {
        overwrite_steps(members, (n - 1) as nat) + overwrite_step(member_text(members[n - 1]))
    }
}

/// The body of the generated duplication of the type `name`: a copy of the
/// value itself on the bitwise path, the bare name for a type without
/// fields, and otherwise a literal with one step for each member.
pub open spec fn clone_body_text(name: Seq<char>, bitwise: bool, shape: FieldShape, members: Seq<MemberSpec>) -> Seq<char> {
    if bitwise {
        "*self"@
    } else {
        match shape {
            FieldShape::Unit => name,
            FieldShape::Positional => name + "("@ + duplicate_steps(members, false, members.len()) + ")"@,
            FieldShape::Named => name + "{"@ + duplicate_steps(members, true, members.len()) + "}"@,
        }
    }
}

fn member_name(member: &Member) -> (r: String)
    ensures
        r@ == member_text(member@),
{
    match member {
        Member::Named(name) => name.clone(),
        Member::Unnamed(index) => decimal_text(*index),
    }
}

impl CloneImpl {
    /// Writes the body of the generated duplication of the type `name`.
    pub fn clone_body(&self, name: &String) -> (r: String)
        ensures
            r@ == clone_body_text(name@, self.bitwise, self.shape, member_specs(self.members@)),
    {
        if self.bitwise {
            return String::from_str("*self");
        }
        let named = match self.shape {
            FieldShape::Unit => {
                return name.clone();
            },
            FieldShape::Positional => false,
            FieldShape::Named => true,
        };
        let mut steps = String::new();
        let mut i: usize = 0;
        while i < self.members.len()
            invariant
                i <= self.members.len(),
                steps@ == duplicate_steps(member_specs(self.members@), named, i as nat),
            decreases self.members.len() - i,
        {
            let member = member_name(&self.members[i]);
            let mut piece = if named {
                let mut front = member.clone();
                front.append(": core::clone::Clone::clone(&self.");
                front
            } else {
                String::from_str("core::clone::Clone::clone(&self.")
            };
            piece.append(member.as_str());
            piece.append("),");
            steps.append(piece.as_str());
            i += 1;
        }
        let mut r = name.clone();
        if named {
            r.append("{");
            r.append(steps.as_str());
            r.append("}");
        } else {
            r.append("(");
            r.append(steps.as_str());
            r.append(")");
        }
        r
    }

    /// Writes the body of the generated overwrite: one step for each member,
    /// in declaration order, on either path.
    pub fn clone_from_body(&self) -> (r: String)
        ensures
            r@ == overwrite_steps(member_specs(self.members@), self.members@.len()),
    {
        let mut steps = String::new();
        let mut i: usize = 0;
        while i < self.members.len()
            invariant
                i <= self.members.len(),
                steps@ == overwrite_steps(member_specs(self.members@), i as nat),
            decreases self.members.len() - i,
        {
            let member = member_name(&self.members[i]);
            let mut piece = String::from_str("core::clone::Clone::clone_from(&mut self.");
            piece.append(member.as_str());
            piece.append(", &_source.");
            piece.append(member.as_str());
            piece.append(");");
            steps.append(piece.as_str());
            i += 1;
        }
        steps
    }
}

} // verus!
