use vstd::prelude::*;
use vstd::string::StringExecFns;
use crate::capability::{enables, Trait, trait_of_name};
use crate::meta::{gives_value, rank_from_literal, rank_of_literal, Lit, Meta, NestedMeta};
use crate::syntax::{bound_payload, read_where_predicates};
use crate::text::{text_is, texts};
use crate::violation::Violation;

verus! {

/// How the generic constraints of the generated implementation are found.
#[derive(Debug, Clone)]
pub enum TypeAttributeBound {
    /// No constraint is added.
    Absent,
    /// Each generic parameter must itself support the capability.
    Auto,
    /// Exactly the given clauses are added.
    Custom(Vec<String>),
}

/// The validated configuration of a type.
#[derive(Debug, Clone)]
pub struct TypeAttribute {
    pub flag: bool,
    pub bound: TypeAttributeBound,
    pub rank: isize,
}

/// The sub-options that a type's block may use, and the rank that the type
/// has where it names none.
#[derive(Debug, Clone)]
pub struct TypeAttributeBuilder {
    pub enable_flag: bool,
    pub enable_bound: bool,
    pub rank: isize,
    pub enable_rank: bool,
}

/// A bound specification as a mathematical value.
pub ghost enum BoundSpec {
    Absent,
    Auto,
    Custom(Seq<Seq<char>>),
}

/// A type's configuration as a mathematical value.
pub ghost struct TypeConfig {
    pub flag: bool,
    pub bound: BoundSpec,
    pub rank: int,
}

impl View for TypeAttributeBound {
    type V = BoundSpec;

    open spec fn view(&self) -> BoundSpec {
        match self {
            TypeAttributeBound::Absent => BoundSpec::Absent,
            TypeAttributeBound::Auto => BoundSpec::Auto,
            TypeAttributeBound::Custom(clauses) => BoundSpec::Custom(texts(clauses@)),
        }
    }
}

impl View for TypeAttribute {
    type V = TypeConfig;

    open spec fn view(&self) -> TypeConfig {
        TypeConfig { flag: self.flag, bound: self.bound@, rank: self.rank as int }
    }
}

/// The clause that asks of one generic parameter that it supports the
/// capability of the given path.
pub open spec fn auto_clause(param: Seq<char>, capability: Seq<char>) -> Seq<char> {
    param + ": "@ + capability
}

/// The clauses that a bound specification adds for the generic parameters
/// `params`: none, one for each parameter, or exactly the given ones.
pub open spec fn resolved_clauses(
    bound: BoundSpec,
    params: Seq<Seq<char>>,
    capability: Seq<char>,
) -> Seq<Seq<char>> {
    match bound {
        BoundSpec::Absent => Seq::empty(),
        BoundSpec::Auto => Seq::new(params.len(), |i: int| auto_clause(params[i], capability)),
        BoundSpec::Custom(clauses) => clauses,
    }
}

/// Automatic resolution adds exactly one clause for each generic parameter,
/// and a custom bound adds exactly its own clauses, whatever the parameters.
pub proof fn lemma_resolution_is_exact(
    params: Seq<Seq<char>>,
    capability: Seq<char>,
    clauses: Seq<Seq<char>>,
)
    ensures
        resolved_clauses(BoundSpec::Auto, params, capability).len() == params.len(),
        forall|i: int|
            0 <= i < params.len() ==> #[trigger] resolved_clauses(BoundSpec::Auto, params, capability)[i]
                == auto_clause(params[i], capability),
        resolved_clauses(BoundSpec::Custom(clauses), params, capability) == clauses,
        resolved_clauses(BoundSpec::Absent, params, capability).len() == 0,
{
}

impl TypeAttributeBound {
    /// Turns the bound specification into the clauses that it adds to the
    /// generated implementation of the capability at the path `capability`,
    /// given the names of the generic parameters.
    pub fn into_where_predicates(self, params: &Vec<String>, capability: &str) -> (r: Vec<String>)
        ensures
            texts(r@) == resolved_clauses(self@, texts(params@), capability@),
    {
        match self {
            TypeAttributeBound::Absent => {
                let r: Vec<String> = Vec::new();
                assert(texts(r@) =~= Seq::empty());
                r
            },
            TypeAttributeBound::Auto => {
                let mut r: Vec<String> = Vec::new();
                let mut i: usize = 0;
                while i < params.len()
                    invariant
                        i <= params.len(),
                        r@.len() == i,
                        forall|j: int|
                            0 <= j < i ==> (#[trigger] r@[j])@ == auto_clause(params@[j]@, capability@),
                    decreases params.len() - i,
                {
                    let clause = params[i].clone().concat(": ").concat(capability);
                    r.push(clause);
                    i += 1;
                }
                assert(texts(r@) =~= resolved_clauses(BoundSpec::Auto, texts(params@), capability@));
                r
            },
            TypeAttributeBound::Custom(clauses) => clauses,
        }
    }

    /// Turns the bound specification into the clauses that it adds to a
    /// generated total ordering.
    pub fn into_punctuated_where_predicates_by_generic_parameters(
        self,
        params: &Vec<String>,
    ) -> (r: Vec<String>)
        ensures
            texts(r@) == resolved_clauses(self@, texts(params@), "core::cmp::Ord"@),
    {
        self.into_where_predicates(params, "core::cmp::Ord")
    }
}

/// The clauses of a declaration once `added` has been merged into those it
/// already has: the present ones stay, the new ones follow.
pub fn merge_clauses(present: Vec<String>, added: Vec<String>) -> (r: Vec<String>)
    ensures
        texts(r@) == texts(present@) + texts(added@),
{
    let mut r = present;
    let mut added = added;
    let ghost p0 = r@;
    let ghost a0 = added@;
    r.append(&mut added);
    assert(texts(r@) =~= texts(p0) + texts(a0));
    r
}

/// The sub-options of a type's block.
#[derive(Clone, Copy, Debug, PartialEq, Eq, Structural)]
pub enum TypeKey {
    Bound,
    Rank,
}

/// The sub-option that a name denotes, if any.
pub open spec fn type_key_of(s: Seq<char>) -> Option<TypeKey> {
    if s == "bound"@ {
        Some(TypeKey::Bound)
    } else if s == "rank"@ {
        Some(TypeKey::Rank)
    } else {
        None
    }
}

/// What a block has set so far, while its sub-options are read.
pub ghost struct TypeDraft {
    pub bound: BoundSpec,
    pub bound_is_set: bool,
    pub rank: int,
    pub rank_is_set: bool,
}

impl TypeDraft {
    /// Whether the sub-option `key` has been given a value.
    pub open spec fn has(self, key: TypeKey) -> bool {
        match key {
            TypeKey::Bound => self.bound_is_set,
            TypeKey::Rank => self.rank_is_set,
        }
    }
}

/// The draft after the literal `lit` was given to the sub-option `key`.
pub open spec fn type_value(key: TypeKey, d: TypeDraft, lit: Lit) -> Result<TypeDraft, Violation> {
    match key {
        TypeKey::Bound => match lit {
            Lit::Str(s) => if d.bound_is_set {
                Err(Violation::DuplicateParameter)
            } else {
                match bound_payload(s@) {
                    Ok(p) => Ok(TypeDraft { bound: BoundSpec::Custom(p), bound_is_set: true, ..d }),
                    Err(e) => Err(e),
                }
            },
            _ => Err(Violation::AttributeFormat),
        },
        TypeKey::Rank => match lit {
            Lit::Int(i) => if d.rank_is_set {
                Err(Violation::DuplicateParameter)
            } else {
                Ok(TypeDraft { rank: rank_of_literal(i), rank_is_set: true, ..d })
            },
            _ => Err(Violation::AttributeFormat),
        },
    }
}

/// The draft after one element of a sub-option's list: only literals are
/// accepted there.
pub open spec fn type_item(key: TypeKey, d: TypeDraft, item: NestedMeta) -> Result<
    TypeDraft,
    Violation,
> {
    match item {
        NestedMeta::Literal(lit) => type_value(key, d, lit),
        NestedMeta::Meta(_) => Err(Violation::AttributeFormat),
    }
}

/// The draft after the first `n` elements of a sub-option's list, or the
/// first violation among them.
pub open spec fn type_items(key: TypeKey, d: TypeDraft, items: Seq<NestedMeta>, n: nat) -> Result<
    TypeDraft,
    Violation,
>
    decreases n,
{
    if n == 0 {
        Ok(d)
    } else {
        match type_items(key, d, items, (n - 1) as nat) {
            Ok(m) => type_item(key, m, items[n - 1]),
            Err(e) => Err(e),
        }
    }
}

impl TypeAttributeBuilder {
    /// Whether the builder accepts the sub-option `key`.
    pub open spec fn knows(self, key: TypeKey) -> bool {
        match key {
            TypeKey::Bound => self.enable_bound,
            TypeKey::Rank => self.enable_rank,
        }
    }

    /// The draft that a block starts from.
    pub open spec fn start(self) -> TypeDraft {
        TypeDraft {
            bound: BoundSpec::Absent,
            bound_is_set: false,
            rank: self.rank as int,
            rank_is_set: false,
        }
    }

    /// The configuration of a type that has no block.
    pub open spec fn default_config(self) -> TypeConfig {
        TypeConfig { flag: false, bound: BoundSpec::Absent, rank: self.rank as int }
    }

    /// The draft after one sub-option.
    pub open spec fn param(self, d: TypeDraft, m: Meta) -> Result<TypeDraft, Violation> {
        match type_key_of(m.name_text()) {
            None => Err(Violation::UnknownParameter),
            Some(key) => if !self.knows(key) {
                Err(Violation::UnknownParameter)
            } else {
                match m {
                    Meta::Word(_) => if key != TypeKey::Bound {
                        Err(Violation::AttributeFormat)
                    } else if d.bound_is_set {
                        Err(Violation::DuplicateParameter)
                    } else {
                        Ok(TypeDraft { bound: BoundSpec::Auto, bound_is_set: true, ..d })
                    },
                    Meta::List(_, items) => type_items(key, d, items@, items@.len()),
                    Meta::NameValue(_, lit) => type_value(key, d, lit),
                }
            },
        }
    }

    /// The draft after one element of a block: only sub-options are accepted
    /// there.
    pub open spec fn nested(self, d: TypeDraft, item: NestedMeta) -> Result<TypeDraft, Violation> {
        match item {
            NestedMeta::Meta(m) => self.param(d, m),
            NestedMeta::Literal(_) => Err(Violation::AttributeFormat),
        }
    }

    /// The draft after the first `n` elements of a block, or the first
    /// violation among them.
    pub open spec fn params(self, items: Seq<NestedMeta>, n: nat) -> Result<TypeDraft, Violation>
        decreases n,
    {
        if n == 0 {
            Ok(self.start())
        } else {
            match self.params(items, (n - 1) as nat) {
                Ok(d) => self.nested(d, items[n - 1]),
                Err(e) => Err(e),
            }
        }
    }

    /// The configuration that a whole block stands for: a bare word switches
    /// the flag on, a list sets sub-options, a name with a value is refused.
    pub open spec fn ord_config(self, meta: Meta) -> Result<TypeConfig, Violation> {
        match meta {
            Meta::Word(_) => if self.enable_flag {
                Ok(TypeConfig { flag: true, bound: BoundSpec::Absent, rank: self.rank as int })
            } else {
                Err(Violation::AttributeFormat)
            },
            Meta::List(_, items) => match self.params(items@, items@.len()) {
                Ok(d) => Ok(TypeConfig { flag: false, bound: d.bound, rank: d.rank }),
                Err(e) => Err(e),
            },
            Meta::NameValue(_, _) => Err(Violation::AttributeFormat),
        }
    }

    /// What one element of a capability list adds to the block found so far.
    /// The element must name an enabled capability; a block for total
    /// ordering is read, and may come only once.
    pub open spec fn block(
        self,
        traits: Seq<Trait>,
        found: Option<TypeConfig>,
        item: NestedMeta,
    ) -> Result<Option<TypeConfig>, Violation> {
        match item {
            NestedMeta::Meta(m) => match trait_of_name(m.name_text()) {
                None => Err(Violation::UnusedCapability),
                Some(t) => if !traits.contains(t) {
                    Err(Violation::UnusedCapability)
                } else if t != Trait::Ord {
                    Ok(found)
                } else if found.is_some() {
                    Err(Violation::DuplicateParameter)
                } else {
                    match self.ord_config(m) {
                        Ok(c) => Ok(Some(c)),
                        Err(e) => Err(e),
                    }
                },
            },
            NestedMeta::Literal(_) => Err(Violation::AttributeFormat),
        }
    }

    /// The block found after the first `n` elements of a capability list.
    pub open spec fn blocks(
        self,
        traits: Seq<Trait>,
        found: Option<TypeConfig>,
        items: Seq<NestedMeta>,
        n: nat,
    ) -> Result<Option<TypeConfig>, Violation>
        decreases n,
    {
        if n == 0 {
            Ok(found)
        } else {
            match self.blocks(traits, found, items, (n - 1) as nat) {
                Ok(f) => self.block(traits, f, items[n - 1]),
                Err(e) => Err(e),
            }
        }
    }

    /// What one attribute adds to the block found so far. Attributes of other
    /// names are passed over.
    pub open spec fn attribute(self, traits: Seq<Trait>, found: Option<TypeConfig>, meta: Meta) -> Result<
        Option<TypeConfig>,
        Violation,
    > {
        if meta.name_text() != "educe"@ {
            Ok(found)
        } else {
            match meta {
                Meta::List(_, items) => self.blocks(traits, found, items@, items@.len()),
                _ => Err(Violation::AttributeFormat),
            }
        }
    }

    /// The block found in the first `n` attributes.
    pub open spec fn attributes(self, traits: Seq<Trait>, metas: Seq<Meta>, n: nat) -> Result<
        Option<TypeConfig>,
        Violation,
    >
        decreases n,
    {
        if n == 0 {
            Ok(None)
        } else {
            match self.attributes(traits, metas, (n - 1) as nat) {
                Ok(f) => self.attribute(traits, f, metas[n - 1]),
                Err(e) => Err(e),
            }
        }
    }

    /// The configuration that a type's attributes stand for: that of its one
    /// block, or the defaults where it has none.
    pub open spec fn config(self, traits: Seq<Trait>, metas: Seq<Meta>) -> Result<
        TypeConfig,
        Violation,
    > {
        match self.attributes(traits, metas, metas.len()) {
            Ok(Some(c)) => Ok(c),
            Ok(None) => Ok(self.default_config()),
            Err(e) => Err(e),
        }
    }
}

/// A draft as the builder holds it while it reads a block.
struct Progress {
    bound: TypeAttributeBound,
    bound_is_set: bool,
    rank: isize,
    rank_is_set: bool,
}

impl View for Progress {
    type V = TypeDraft;

    closed spec fn view(&self) -> TypeDraft {
        TypeDraft {
            bound: self.bound@,
            bound_is_set: self.bound_is_set,
            rank: self.rank as int,
            rank_is_set: self.rank_is_set,
        }
    }
}

spec fn outcome(r: Result<Progress, Violation>) -> Result<TypeDraft, Violation> {
    match r {
        Ok(d) => Ok(d@),
        Err(e) => Err(e),
    }
}

/// The view of a builder's result.
pub open spec fn config_of(r: Result<TypeAttribute, Violation>) -> Result<TypeConfig, Violation> {
    match r {
        Ok(a) => Ok(a@),
        Err(e) => Err(e),
    }
}

/// The view of a block that may have been found.
pub open spec fn found_config(o: Option<TypeAttribute>) -> Option<TypeConfig> {
    match o {
        Some(a) => Some(a@),
        None => None,
    }
}

spec fn found_outcome(r: Result<Option<TypeAttribute>, Violation>) -> Result<
    Option<TypeConfig>,
    Violation,
> {
    match r {
        Ok(o) => Ok(found_config(o)),
        Err(e) => Err(e),
    }
}

/// Once a violation was found among the first `i` elements of a list, it is
/// the result for every longer prefix.
proof fn lemma_type_items_stay_failed(
    key: TypeKey,
    d: TypeDraft,
    items: Seq<NestedMeta>,
    i: nat,
    n: nat,
    e: Violation,
)
    requires
        i <= n,
        type_items(key, d, items, i) == Err::<TypeDraft, Violation>(e),
    ensures
        type_items(key, d, items, n) == Err::<TypeDraft, Violation>(e),
    decreases n,
{
    if i < n {
        lemma_type_items_stay_failed(key, d, items, i, (n - 1) as nat, e);
    }
}

/// Reads a sub-option from its name.
pub fn read_type_key(name: &String) -> (r: Option<TypeKey>)
    ensures
        r == type_key_of(name@),
{
    if text_is(name, "bound") {
        Some(TypeKey::Bound)
    } else if text_is(name, "rank") {
        Some(TypeKey::Rank)
    } else {
        None
    }
}

fn apply_type_value(key: TypeKey, d: Progress, lit: &Lit) -> (r: Result<Progress, Violation>)
    ensures
        outcome(r) == type_value(key, d@, *lit),
{
    match key {
        TypeKey::Bound => match lit {
            Lit::Str(s) => {
                if d.bound_is_set {
                    return Err(Violation::DuplicateParameter);
                }
                match read_where_predicates(s) {
                    Ok(p) => Ok(
                        Progress {
                            bound: TypeAttributeBound::Custom(p),
                            bound_is_set: true,
                            rank: d.rank,
                            rank_is_set: d.rank_is_set,
                        },
                    ),
                    Err(e) => Err(e),
                }
            },
            _ => Err(Violation::AttributeFormat),
        },
        TypeKey::Rank => match lit {
            Lit::Int(i) => {
                if d.rank_is_set {
                    return Err(Violation::DuplicateParameter);
                }
                Ok(
                    Progress {
                        bound: d.bound,
                        bound_is_set: d.bound_is_set,
                        rank: rank_from_literal(*i),
                        rank_is_set: true,
                    },
                )
            },
            _ => Err(Violation::AttributeFormat),
        },
    }
}

fn apply_type_items(key: TypeKey, d: Progress, items: &Vec<NestedMeta>) -> (r: Result<
    Progress,
    Violation,
>)
    ensures
        outcome(r) == type_items(key, d@, items@, items@.len()),
{
    let ghost d0 = d@;
    let mut cur = d;
    let mut i: usize = 0;
    while i < items.len()
        invariant
            i <= items.len(),
            d0 == d@,
            type_items(key, d0, items@, i as nat) == Ok::<TypeDraft, Violation>(cur@),
        decreases items.len() - i,
    {
        let step = match &items[i] {
            NestedMeta::Literal(lit) => apply_type_value(key, cur, lit),
            NestedMeta::Meta(_) => Err(Violation::AttributeFormat),
        };
        match step {
            Ok(next) => {
                cur = next;
            },
            Err(e) => {
                proof {
                    lemma_type_items_stay_failed(key, d0, items@, (i + 1) as nat, items@.len(), e);
                }
                return Err(e);
            },
        }
        i += 1;
    }
    Ok(cur)
}

impl TypeAttributeBuilder {
    /// Once a violation was found among the first `i` elements of a block, it
    /// is the result for every longer prefix.
    pub proof fn lemma_params_stay_failed(self, items: Seq<NestedMeta>, i: nat, n: nat, e: Violation)
        requires
            i <= n,
            self.params(items, i) == Err::<TypeDraft, Violation>(e),
        ensures
            self.params(items, n) == Err::<TypeDraft, Violation>(e),
        decreases n,
    {
        if i < n {
            self.lemma_params_stay_failed(items, i, (n - 1) as nat, e);
        }
    }

    /// Once a violation was found among the first `i` elements of a
    /// capability list, it is the result for every longer prefix.
    pub proof fn lemma_blocks_stay_failed(
        self,
        traits: Seq<Trait>,
        found: Option<TypeConfig>,
        items: Seq<NestedMeta>,
        i: nat,
        n: nat,
        e: Violation,
    )
        requires
            i <= n,
            self.blocks(traits, found, items, i) == Err::<Option<TypeConfig>, Violation>(e),
        ensures
            self.blocks(traits, found, items, n) == Err::<Option<TypeConfig>, Violation>(e),
        decreases n,
    {
        if i < n {
            self.lemma_blocks_stay_failed(traits, found, items, i, (n - 1) as nat, e);
        }
    }

    /// Once a violation was found among the first `i` attributes, it is the
    /// result for every longer prefix.
    pub proof fn lemma_attributes_stay_failed(
        self,
        traits: Seq<Trait>,
        metas: Seq<Meta>,
        i: nat,
        n: nat,
        e: Violation,
    )
        requires
            i <= n,
            self.attributes(traits, metas, i) == Err::<Option<TypeConfig>, Violation>(e),
        ensures
            self.attributes(traits, metas, n) == Err::<Option<TypeConfig>, Violation>(e),
        decreases n,
    {
        if i < n {
            self.lemma_attributes_stay_failed(traits, metas, i, (n - 1) as nat, e);
        }
    }

    fn apply_param(&self, d: Progress, m: &Meta) -> (r: Result<Progress, Violation>)
        ensures
            outcome(r) == self.param(d@, *m),
    {
        let key = match read_type_key(m.name()) {
            Some(key) => key,
            None => {
                return Err(Violation::UnknownParameter);
            },
        };
        let known = match key {
            TypeKey::Bound => self.enable_bound,
            TypeKey::Rank => self.enable_rank,
        };
        if !known {
            return Err(Violation::UnknownParameter);
        }
        match m {
            Meta::Word(_) => {
                if key != TypeKey::Bound {
                    Err(Violation::AttributeFormat)
                } else if d.bound_is_set {
                    Err(Violation::DuplicateParameter)
                } else {
                    Ok(
                        Progress {
                            bound: TypeAttributeBound::Auto,
                            bound_is_set: true,
                            rank: d.rank,
                            rank_is_set: d.rank_is_set,
                        },
                    )
                }
            },
            Meta::List(_, items) => apply_type_items(key, d, items),
            Meta::NameValue(_, lit) => apply_type_value(key, d, lit),
        }
    }

    fn read_params(&self, items: &Vec<NestedMeta>) -> (r: Result<Progress, (Violation, usize)>)
        ensures
            match r {
                Ok(d) => self.params(items@, items@.len()) == Ok::<TypeDraft, Violation>(d@),
                Err((e, n)) => {
                    &&& n < items@.len()
                    &&& self.params(items@, n as nat) is Ok
                    &&& self.params(items@, (n + 1) as nat) == Err::<TypeDraft, Violation>(e)
                    &&& self.params(items@, items@.len()) == Err::<TypeDraft, Violation>(e)
                },
            },
    {
        let mut cur = Progress {
            bound: TypeAttributeBound::Absent,
            bound_is_set: false,
            rank: self.rank,
            rank_is_set: false,
        };
        let mut i: usize = 0;
        while i < items.len()
            invariant
                i <= items.len(),
                self.params(items@, i as nat) == Ok::<TypeDraft, Violation>(cur@),
            decreases items.len() - i,
        {
            let step = match &items[i] {
                NestedMeta::Meta(m) => self.apply_param(cur, m),
                NestedMeta::Literal(_) => Err(Violation::AttributeFormat),
            };
            match step {
                Ok(next) => {
                    cur = next;
                },
                Err(e) => {
                    proof {
                        self.lemma_params_stay_failed(items@, (i + 1) as nat, items@.len(), e);
                    }
                    return Err((e, i));
                },
            }
            i += 1;
        }
        Ok(cur)
    }

    /// Reads the configuration of a type from its block: a bare word where
    /// the builder accepts the flag, or a list of sub-options, each given
    /// once and in a form that the builder accepts.
    pub fn from_ord_meta(&self, meta: &Meta) -> (r: Result<TypeAttribute, Violation>)
        ensures
            config_of(r) == self.ord_config(*meta),
    {
        match meta {
            Meta::List(_, items) => match self.read_params(items) {
                Ok(cur) => Ok(TypeAttribute { flag: false, bound: cur.bound, rank: cur.rank }),
                Err((e, _)) => Err(e),
            },
            Meta::Word(_) => {
                if !self.enable_flag {
                    return Err(Violation::AttributeFormat);
                }
                Ok(TypeAttribute { flag: true, bound: TypeAttributeBound::Absent, rank: self.rank })
            },
            Meta::NameValue(_, _) => Err(Violation::AttributeFormat),
        }
    }

    /// Finds the element of a block at which reading it fails, so that a
    /// diagnostic can name the offending sub-option: the first element
    /// whose violation ends the reading. There is none where the block is
    /// no list, or where every element is read.
    pub fn offending_element(&self, meta: &Meta) -> (r: Option<usize>)
        ensures
            match r {
                Some(n) => {
                    &&& *meta is List
                    &&& n < meta->List_1@.len()
                    &&& self.params(meta->List_1@, n as nat) is Ok
                    &&& self.params(meta->List_1@, (n + 1) as nat) is Err
                },
                None => !(*meta is List) || self.params(meta->List_1@, meta->List_1@.len()) is Ok,
            },
    {
        match meta {
            Meta::List(_, items) => match self.read_params(items) {
                Ok(_) => None,
                Err((_, n)) => Some(n),
            },
            _ => None,
        }
    }

    fn read_block(&self, traits: &[Trait], found: Option<TypeAttribute>, item: &NestedMeta) -> (r:
        Result<Option<TypeAttribute>, Violation>)
        ensures
            found_outcome(r) == self.block(traits@, found_config(found), *item),
    {
        let m = match item {
            NestedMeta::Meta(m) => m,
            NestedMeta::Literal(_) => {
                return Err(Violation::AttributeFormat);
            },
        };
        let t = match Trait::from_str(m.name()) {
            Some(t) => t,
            None => {
                return Err(Violation::UnusedCapability);
            },
        };
        if !enables(traits, t) {
            return Err(Violation::UnusedCapability);
        }
        if t != Trait::Ord {
            return Ok(found);
        }
        if found.is_some() {
            return Err(Violation::DuplicateParameter);
        }
        match self.from_ord_meta(m) {
            Ok(a) => Ok(Some(a)),
            Err(e) => Err(e),
        }
    }

    fn read_attribute(&self, traits: &[Trait], found: Option<TypeAttribute>, meta: &Meta) -> (r:
        Result<Option<TypeAttribute>, Violation>)
        ensures
            found_outcome(r) == self.attribute(traits@, found_config(found), *meta),
    {
        if !text_is(meta.name(), "educe") {
            return Ok(found);
        }
        let items = match meta {
            Meta::List(_, items) => items,
            _ => {
                return Err(Violation::AttributeFormat);
            },
        };
        let ghost f0 = found_config(found);
        let mut cur = found;
        let mut i: usize = 0;
        while i < items.len()
            invariant
                i <= items.len(),
                f0 == found_config(found),
                self.attribute(traits@, f0, *meta) == self.blocks(traits@, f0, items@, items@.len()),
                self.blocks(traits@, f0, items@, i as nat) == Ok::<Option<TypeConfig>, Violation>(
                    found_config(cur),
                ),
            decreases items.len() - i,
        {
            match self.read_block(traits, cur, &items[i]) {
                Ok(next) => {
                    cur = next;
                },
                Err(e) => {
                    proof {
                        self.lemma_blocks_stay_failed(
                            traits@,
                            f0,
                            items@,
                            (i + 1) as nat,
                            items@.len(),
                            e,
                        );
                    }
                    return Err(e);
                },
            }
            i += 1;
        }
        Ok(cur)
    }

    /// Reads the configuration of a type from its attributes. Every
    /// capability that they configure must be among `traits`; the block for
    /// total ordering may come once; without it the type has the builder's
    /// defaults.
    pub fn from_attributes(self, attributes: &[Meta], traits: &[Trait]) -> (r: Result<
        TypeAttribute,
        Violation,
    >)
        ensures
            config_of(r) == self.config(traits@, attributes@),
    {
        let mut cur: Option<TypeAttribute> = None;
        let mut i: usize = 0;
        while i < attributes.len()
            invariant
                i <= attributes.len(),
                self.attributes(traits@, attributes@, i as nat) == Ok::<
                    Option<TypeConfig>,
                    Violation,
                >(found_config(cur)),
            decreases attributes.len() - i,
        {
            match self.read_attribute(traits, cur, &attributes[i]) {
                Ok(next) => {
                    cur = next;
                },
                Err(e) => {
                    proof {
                        self.lemma_attributes_stay_failed(
                            traits@,
                            attributes@,
                            (i + 1) as nat,
                            attributes@.len(),
                            e,
                        );
                    }
                    return Err(e);
                },
            }
            i += 1;
        }
        match cur {
            Some(a) => Ok(a),
            None => Ok(
                TypeAttribute { flag: false, bound: TypeAttributeBound::Absent, rank: self.rank },
            ),
        }
    }
}

/// Whether the literal has the kind that the sub-option `key` takes.
pub open spec fn fits(key: TypeKey, lit: Lit) -> bool {
    match key {
        TypeKey::Bound => lit is Str,
        TypeKey::Rank => lit is Int,
    }
}

/// Whether `m` gives the sub-option `key` in an accepted form: the bare word
/// for `bound`, or a literal of the right kind, as the value or as the first
/// element of the list.
pub open spec fn well_shaped(key: TypeKey, m: Meta) -> bool {
    match m {
        Meta::Word(_) => key == TypeKey::Bound,
        Meta::List(_, items) => items@.len() > 0 && match items@[0] {
            NestedMeta::Literal(lit) => fits(key, lit),
            NestedMeta::Meta(_) => false,
        },
        Meta::NameValue(_, lit) => fits(key, lit),
    }
}

/// A list that is read without a violation keeps what the draft had set, and
/// sets its own sub-option if it is not empty.
proof fn lemma_type_items_set(key: TypeKey, other: TypeKey, d: TypeDraft, items: Seq<NestedMeta>, n: nat)
    requires
        type_items(key, d, items, n) is Ok,
    ensures
        d.has(other) ==> type_items(key, d, items, n)->Ok_0.has(other),
        n > 0 ==> type_items(key, d, items, n)->Ok_0.has(key),
    decreases n,
{
    if n > 0 {
        lemma_type_items_set(key, other, d, items, (n - 1) as nat);
    }
}

impl TypeAttributeBuilder {
    /// A sub-option that is read without a violation keeps what the draft
    /// had set, and sets its own key if it carries a value.
    pub proof fn lemma_param_sets(self, d: TypeDraft, m: Meta, other: TypeKey)
        requires
            self.param(d, m) is Ok,
        ensures
            d.has(other) ==> self.param(d, m)->Ok_0.has(other),
            gives_value(m) ==> self.param(d, m)->Ok_0.has(type_key_of(m.name_text())->Some_0),
            type_key_of(m.name_text()) is Some,
            self.knows(type_key_of(m.name_text())->Some_0),
    {
        let key = type_key_of(m.name_text())->Some_0;
        match m {
            Meta::List(_, items) => {
                lemma_type_items_set(key, other, d, items@, items@.len());
            },
            _ => {},
        }
    }

    /// What has been set after `i` elements of a block is still set after
    /// `n`, where no violation was found up to there.
    pub proof fn lemma_params_keep(self, items: Seq<NestedMeta>, i: nat, n: nat, key: TypeKey)
        requires
            i <= n,
            self.params(items, n) is Ok,
        ensures
            self.params(items, i) is Ok,
            self.params(items, i)->Ok_0.has(key) ==> self.params(items, n)->Ok_0.has(key),
        decreases n,
    {
        if i < n {
            self.lemma_params_keep(items, i, (n - 1) as nat, key);
            let d = self.params(items, (n - 1) as nat)->Ok_0;
            match items[n - 1] {
                NestedMeta::Meta(m) => {
                    self.lemma_param_sets(d, m, key);
                },
                NestedMeta::Literal(_) => {},
            }
        }
    }

    /// A sub-option that the draft has set already, given once more in an
    /// accepted form, is a duplicate.
    pub proof fn lemma_param_repeated(self, d: TypeDraft, m: Meta, key: TypeKey)
        requires
            type_key_of(m.name_text()) == Some(key),
            self.knows(key),
            d.has(key),
            well_shaped(key, m),
        ensures
            self.param(d, m) == Err::<TypeDraft, Violation>(Violation::DuplicateParameter),
    {
        match m {
            Meta::List(_, items) => {
                assert(type_items(key, d, items@, 0) == Ok::<TypeDraft, Violation>(d));
                assert(type_items(key, d, items@, 1) == Err::<TypeDraft, Violation>(
                    Violation::DuplicateParameter,
                ));
                lemma_type_items_stay_failed(
                    key,
                    d,
                    items@,
                    1,
                    items@.len(),
                    Violation::DuplicateParameter,
                );
            },
            _ => {},
        }
    }

    /// Repeating a sub-option within one block is refused as a duplicate: if
    /// the elements `i` and `j` of a block give the same sub-option, the
    /// second in an accepted form, and no violation comes before the second,
    /// the block fails with `DuplicateParameter`.
    pub proof fn lemma_repeated_parameter_is_refused(self, meta: Meta, i: int, j: int, key: TypeKey)
        requires
            meta is List,
            0 <= i < j < meta->List_1@.len(),
            meta->List_1@[i] is Meta,
            meta->List_1@[j] is Meta,
            type_key_of(meta->List_1@[i]->Meta_0.name_text()) == Some(key),
            type_key_of(meta->List_1@[j]->Meta_0.name_text()) == Some(key),
            gives_value(meta->List_1@[i]->Meta_0),
            well_shaped(key, meta->List_1@[j]->Meta_0),
            self.params(meta->List_1@, j as nat) is Ok,
        ensures
            self.ord_config(meta) == Err::<TypeConfig, Violation>(Violation::DuplicateParameter),
    {
        let items = meta->List_1@;
        self.lemma_params_keep(items, (i + 1) as nat, j as nat, key);
        self.lemma_params_keep(items, i as nat, (i + 1) as nat, key);
        let before = self.params(items, i as nat)->Ok_0;
        self.lemma_param_sets(before, items[i]->Meta_0, key);
        let d = self.params(items, j as nat)->Ok_0;
        self.lemma_param_repeated(d, items[j]->Meta_0, key);
        self.lemma_params_stay_failed(
            items,
            (j + 1) as nat,
            items.len(),
            Violation::DuplicateParameter,
        );
    }
}

/// A second literal of the right kind in one list is a duplicate, where the
/// list is read without a violation up to it.
proof fn lemma_type_items_repeated(key: TypeKey, d: TypeDraft, items: Seq<NestedMeta>, b: int)
    requires
        0 < b < items.len(),
        items[b] is Literal,
        fits(key, items[b]->Literal_0),
        type_items(key, d, items, b as nat) is Ok,
    ensures
        type_items(key, d, items, items.len()) == Err::<TypeDraft, Violation>(
            Violation::DuplicateParameter,
        ),
{
    lemma_type_items_set(key, key, d, items, b as nat);
    assert(type_items(key, d, items, (b + 1) as nat) == Err::<TypeDraft, Violation>(
        Violation::DuplicateParameter,
    ));
    lemma_type_items_stay_failed(
        key,
        d,
        items,
        (b + 1) as nat,
        items.len(),
        Violation::DuplicateParameter,
    );
}

impl TypeAttributeBuilder {
    /// Repeating a value within the list of one sub-option is refused as a
    /// duplicate: if element `j` of a block is a list for the sub-option
    /// `key`, its element `b` is a literal of the right kind and not the
    /// first of the list, and no violation comes before that literal, the
    /// block fails with `DuplicateParameter`.
    pub proof fn lemma_repeated_literal_is_refused(self, meta: Meta, j: int, b: int, key: TypeKey)
        requires
            meta is List,
            0 <= j < meta->List_1@.len(),
            meta->List_1@[j] is Meta,
            meta->List_1@[j]->Meta_0 is List,
            type_key_of(meta->List_1@[j]->Meta_0.name_text()) == Some(key),
            self.knows(key),
            0 < b < meta->List_1@[j]->Meta_0->List_1@.len(),
            meta->List_1@[j]->Meta_0->List_1@[b] is Literal,
            fits(key, meta->List_1@[j]->Meta_0->List_1@[b]->Literal_0),
            self.params(meta->List_1@, j as nat) is Ok,
            type_items(
                key,
                self.params(meta->List_1@, j as nat)->Ok_0,
                meta->List_1@[j]->Meta_0->List_1@,
                b as nat,
            ) is Ok,
        ensures
            self.ord_config(meta) == Err::<TypeConfig, Violation>(Violation::DuplicateParameter),
    {
        let items = meta->List_1@;
        let d = self.params(items, j as nat)->Ok_0;
        lemma_type_items_repeated(key, d, items[j]->Meta_0->List_1@, b);
        self.lemma_params_stay_failed(
            items,
            (j + 1) as nat,
            items.len(),
            Violation::DuplicateParameter,
        );
    }
}

/// The forms in which the sub-option `key` is accepted, as a diagnostic
/// lists them.
pub open spec fn forms_of(key: TypeKey) -> Seq<Seq<char>> {
    match key {
        TypeKey::Bound => seq![
            "Ord(bound)"@,
            "Ord(bound = \"where_predicates\")"@,
            "Ord(bound(\"where_predicates\"))"@,
        ],
        TypeKey::Rank => seq!["Ord(rank = comparison_value)"@, "Ord(rank(comparison_value))"@],
    }
}

/// Lists the forms in which a sub-option is accepted.
pub fn accepted_forms(key: TypeKey) -> (r: Vec<String>)
    ensures
        texts(r@) == forms_of(key),
{
    let mut r: Vec<String> = Vec::new();
    match key {
        TypeKey::Bound => {
            r.push("Ord(bound)".to_string());
            r.push("Ord(bound = \"where_predicates\")".to_string());
            r.push("Ord(bound(\"where_predicates\"))".to_string());
        },
        TypeKey::Rank => {
            r.push("Ord(rank = comparison_value)".to_string());
            r.push("Ord(rank(comparison_value))".to_string());
        },
    }
    assert(texts(r@) =~= forms_of(key));
    r
}

} // verus!
