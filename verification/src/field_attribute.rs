use vstd::prelude::*;
use crate::capability::{enables, Trait, trait_of_name};
use crate::meta::{gives_value, rank_from_literal, rank_of_literal, Lit, Meta, NestedMeta};
use crate::syntax::{path_payload, read_path};
use crate::text::{opt_text, text_is, texts};
use crate::violation::Violation;

verus! {

/// The validated configuration of one field.
#[derive(Debug, Clone)]
pub struct FieldAttribute {
    pub ignore: bool,
    pub compare_method: Option<String>,
    pub compare_trait: Option<String>,
    pub rank: isize,
}

/// The sub-options that a field's block may use, and the rank that a field
/// has where it names none.
#[derive(Debug, Clone)]
pub struct FieldAttributeBuilder {
    pub enable_ignore: bool,
    pub enable_impl: bool,
    pub rank: isize,
    pub enable_rank: bool,
}

/// A field's configuration as a mathematical value.
pub ghost struct FieldConfig {
    pub ignore: bool,
    pub compare_method: Option<Seq<char>>,
    pub compare_trait: Option<Seq<char>>,
    pub rank: int,
}

impl View for FieldAttribute {
    type V = FieldConfig;

    open spec fn view(&self) -> FieldConfig {
        FieldConfig {
            ignore: self.ignore,
            compare_method: opt_text(self.compare_method),
            compare_trait: opt_text(self.compare_trait),
            rank: self.rank as int,
        }
    }
}

impl FieldConfig {
    /// What holds of every configuration that a builder yields, where
    /// `default_rank` is the builder's rank: an ignored field has no rank of
    /// its own, and a field with a trait has a method.
    pub open spec fn well_formed(self, default_rank: int) -> bool {
        &&& self.ignore ==> self.rank == default_rank
        &&& self.compare_trait is Some ==> self.compare_method is Some
    }
}

/// The sub-options of a field's block.
#[derive(Clone, Copy, Debug, PartialEq, Eq, Structural)]
pub enum FieldKey {
    Ignore,
    Method,
    Trait,
    Rank,
}

/// The sub-option that a name denotes, if any.
pub open spec fn field_key_of(s: Seq<char>) -> Option<FieldKey> {
    if s == "ignore"@ {
        Some(FieldKey::Ignore)
    } else if s == "method"@ {
        Some(FieldKey::Method)
    } else if s == "trait"@ {
        Some(FieldKey::Trait)
    } else if s == "rank"@ {
        Some(FieldKey::Rank)
    } else {
        None
    }
}

/// What a block has set so far, while its sub-options are read.
pub ghost struct FieldDraft {
    pub ignore: bool,
    pub compare_method: Option<Seq<char>>,
    pub compare_trait: Option<Seq<char>>,
    pub rank: int,
    pub rank_is_set: bool,
}

impl FieldDraft {
    /// Whether the draft's rank is one that the block has set, or else the
    /// rank `default_rank`.
    pub open spec fn rank_is_own_or(self, default_rank: int) -> bool {
        self.rank_is_set || self.rank == default_rank
    }

    /// Whether the sub-option `key` has been given a value.
    pub open spec fn has(self, key: FieldKey) -> bool {
        match key {
            FieldKey::Ignore => self.ignore,
            FieldKey::Method => self.compare_method.is_some(),
            FieldKey::Trait => self.compare_trait.is_some(),
            FieldKey::Rank => self.rank_is_set,
        }
    }
}

/// The draft after the literal `lit` was given to the sub-option `key`.
pub open spec fn field_value(key: FieldKey, d: FieldDraft, lit: Lit) -> Result<
    FieldDraft,
    Violation,
> {
    match key {
        FieldKey::Ignore => Err(Violation::AttributeFormat),
        FieldKey::Method => match lit {
            Lit::Str(s) => if d.compare_method.is_some() {
                Err(Violation::DuplicateParameter)
            } else {
                match path_payload(s@) {
                    Ok(p) => Ok(FieldDraft { compare_method: Some(p), ..d }),
                    Err(e) => Err(e),
                }
            },
            _ => Err(Violation::AttributeFormat),
        },
        FieldKey::Trait => match lit {
            Lit::Str(s) => if d.compare_trait.is_some() {
                Err(Violation::DuplicateParameter)
            } else {
                match path_payload(s@) {
                    Ok(p) => Ok(FieldDraft { compare_trait: Some(p), ..d }),
                    Err(e) => Err(e),
                }
            },
            _ => Err(Violation::AttributeFormat),
        },
        FieldKey::Rank => match lit {
            Lit::Int(i) => if d.rank_is_set {
                Err(Violation::DuplicateParameter)
            } else {
                Ok(FieldDraft { rank: rank_of_literal(i), rank_is_set: true, ..d })
            },
            _ => Err(Violation::AttributeFormat),
        },
    }
}

/// The draft after one element of a sub-option's list: only literals are
/// accepted there.
pub open spec fn field_item(key: FieldKey, d: FieldDraft, item: NestedMeta) -> Result<
    FieldDraft,
    Violation,
> {
    match item {
        NestedMeta::Literal(lit) => field_value(key, d, lit),
        NestedMeta::Meta(_) => Err(Violation::AttributeFormat),
    }
}

/// The draft after the first `n` elements of a sub-option's list, or the
/// first violation among them.
pub open spec fn field_items(key: FieldKey, d: FieldDraft, items: Seq<NestedMeta>, n: nat) -> Result<
    FieldDraft,
    Violation,
>
    decreases n,
{
    if n == 0 {
        Ok(d)
    } else {
        match field_items(key, d, items, (n - 1) as nat) {
            Ok(m) => field_item(key, m, items[n - 1]),
            Err(e) => Err(e),
        }
    }
}

impl FieldAttributeBuilder {
    /// Whether the builder accepts the sub-option `key`.
    pub open spec fn knows(self, key: FieldKey) -> bool {
        match key {
            FieldKey::Ignore => self.enable_ignore,
            FieldKey::Method => self.enable_impl,
            FieldKey::Trait => self.enable_impl,
            FieldKey::Rank => self.enable_rank,
        }
    }

    /// The draft that a block starts from.
    pub open spec fn start(self) -> FieldDraft {
        FieldDraft {
            ignore: false,
            compare_method: None,
            compare_trait: None,
            rank: self.rank as int,
            rank_is_set: false,
        }
    }

    /// The configuration of a field that has no block.
    pub open spec fn default_config(self) -> FieldConfig {
        FieldConfig { ignore: false, compare_method: None, compare_trait: None, rank: self.rank as int }
    }

    /// The draft after one sub-option.
    pub open spec fn param(self, d: FieldDraft, m: Meta) -> Result<FieldDraft, Violation> {
        match field_key_of(m.name_text()) {
            None => Err(Violation::UnknownParameter),
            Some(key) => if !self.knows(key) {
                Err(Violation::UnknownParameter)
            } else {
                match m {
                    Meta::Word(_) => if key != FieldKey::Ignore {
                        Err(Violation::AttributeFormat)
                    } else if d.ignore {
                        Err(Violation::DuplicateParameter)
                    } else {
                        Ok(FieldDraft { ignore: true, ..d })
                    },
                    Meta::List(_, items) => if key == FieldKey::Ignore {
                        Err(Violation::AttributeFormat)
                    } else {
                        field_items(key, d, items@, items@.len())
                    },
                    Meta::NameValue(_, lit) => field_value(key, d, lit),
                }
            },
        }
    }

    /// The draft after one element of a block: only sub-options are accepted
    /// there.
    pub open spec fn nested(self, d: FieldDraft, item: NestedMeta) -> Result<FieldDraft, Violation> {
        match item {
            NestedMeta::Meta(m) => self.param(d, m),
            NestedMeta::Literal(_) => Err(Violation::AttributeFormat),
        }
    }

    /// The draft after the first `n` elements of a block, or the first
    /// violation among them.
    pub open spec fn params(self, items: Seq<NestedMeta>, n: nat) -> Result<FieldDraft, Violation>
        decreases n,
    {
        if n == 0 {
            Ok(self.start())
        } else {
            match self.params(items, (n - 1) as nat) {
                Ok(d) => self.nested(d, items[n - 1]),
                Err(e) => Err(e),
            }
        }
    }

    /// The configuration that a whole block stands for.
    pub open spec fn partial_ord_config(self, meta: Meta) -> Result<FieldConfig, Violation> {
        match meta {
            Meta::List(_, items) => match self.params(items@, items@.len()) {
                Ok(d) => finish(d),
                Err(e) => Err(e),
            },
            _ => Err(Violation::AttributeFormat),
        }
    }
}

impl FieldAttributeBuilder {
    /// What one element of a capability list adds to the block found so far.
    /// The element must name an enabled capability; a block for the
    /// capability `target` is read, and may come only once.
    pub open spec fn block(
        self,
        traits: Seq<Trait>,
        target: Trait,
        found: Option<FieldConfig>,
        item: NestedMeta,
    ) -> Result<Option<FieldConfig>, Violation> {
        match item {
            NestedMeta::Meta(m) => match trait_of_name(m.name_text()) {
                None => Err(Violation::UnusedCapability),
                Some(t) => if !traits.contains(t) {
                    Err(Violation::UnusedCapability)
                } else if t != target {
                    Ok(found)
                } else if found.is_some() {
                    Err(Violation::DuplicateParameter)
                } else {
                    match self.partial_ord_config(m) {
                        Ok(c) => Ok(Some(c)),
                        Err(e) => Err(e),
                    }
                },
            },
            NestedMeta::Literal(_) => Err(Violation::AttributeFormat),
        }
    }

    /// The block found after the first `n` elements of a capability list.
    pub open spec fn blocks(
        self,
        traits: Seq<Trait>,
        target: Trait,
        found: Option<FieldConfig>,
        items: Seq<NestedMeta>,
        n: nat,
    ) -> Result<Option<FieldConfig>, Violation>
        decreases n,
    {
        if n == 0 {
            Ok(found)
        } else {
            match self.blocks(traits, target, found, items, (n - 1) as nat) {
                Ok(f) => self.block(traits, target, f, items[n - 1]),
                Err(e) => Err(e),
            }
        }
    }

    /// What one attribute adds to the block found so far. Attributes of other
    /// names are passed over.
    pub open spec fn attribute(
        self,
        traits: Seq<Trait>,
        target: Trait,
        found: Option<FieldConfig>,
        meta: Meta,
    ) -> Result<
        Option<FieldConfig>,
        Violation,
    > {
        if meta.name_text() != "educe"@ {
            Ok(found)
        } else {
            match meta {
                Meta::List(_, items) => self.blocks(traits, target, found, items@, items@.len()),
                _ => Err(Violation::AttributeFormat),
            }
        }
    }

    /// The block found in the first `n` attributes.
    pub open spec fn attributes(self, traits: Seq<Trait>, target: Trait, metas: Seq<Meta>, n: nat) -> Result<
        Option<FieldConfig>,
        Violation,
    >
        decreases n,
    {
        if n == 0 {
            Ok(None)
        } else {
            match self.attributes(traits, target, metas, (n - 1) as nat) {
                Ok(f) => self.attribute(traits, target, f, metas[n - 1]),
                Err(e) => Err(e),
            }
        }
    }

    /// The configuration that a field's attributes stand for: that of its
    /// one block, or the defaults where it has none.
    pub open spec fn config(self, traits: Seq<Trait>, target: Trait, metas: Seq<Meta>) -> Result<
        FieldConfig,
        Violation,
    > {
        match self.attributes(traits, target, metas, metas.len()) {
            Ok(Some(c)) => Ok(c),
            Ok(None) => Ok(self.default_config()),
            Err(e) => Err(e),
        }
    }
}

/// The configuration that a completed draft stands for. A trait without a
/// method gets the canonical comparison method; an ignored field with a rank
/// of its own is refused.
pub open spec fn finish(d: FieldDraft) -> Result<FieldConfig, Violation> {
    if d.ignore && d.rank_is_set {
        Err(Violation::ConflictingOptions)
    } else {
        Ok(
            FieldConfig {
                ignore: d.ignore,
                compare_method: if d.compare_trait.is_some() && d.compare_method.is_none() {
                    Some("partial_cmp"@)
                } else {
                    d.compare_method
                },
                compare_trait: d.compare_trait,
                rank: d.rank,
            },
        )
    }
}

/// A draft as the builder holds it while it reads a block.
struct Progress {
    ignore: bool,
    compare_method: Option<String>,
    compare_trait: Option<String>,
    rank: isize,
    rank_is_set: bool,
}

impl View for Progress {
    type V = FieldDraft;

    closed spec fn view(&self) -> FieldDraft {
        FieldDraft {
            ignore: self.ignore,
            compare_method: opt_text(self.compare_method),
            compare_trait: opt_text(self.compare_trait),
            rank: self.rank as int,
            rank_is_set: self.rank_is_set,
        }
    }
}

spec fn outcome(r: Result<Progress, Violation>) -> Result<FieldDraft, Violation> {
    match r {
        Ok(d) => Ok(d@),
        Err(e) => Err(e),
    }
}

/// The view of a builder's result.
pub open spec fn config_of(r: Result<FieldAttribute, Violation>) -> Result<FieldConfig, Violation> {
    match r {
        Ok(a) => Ok(a@),
        Err(e) => Err(e),
    }
}

/// Once a violation was found among the first `i` elements of a list, it is
/// the result for every longer prefix.
proof fn lemma_field_items_stay_failed(
    key: FieldKey,
    d: FieldDraft,
    items: Seq<NestedMeta>,
    i: nat,
    n: nat,
    e: Violation,
)
    requires
        i <= n,
        field_items(key, d, items, i) == Err::<FieldDraft, Violation>(e),
    ensures
        field_items(key, d, items, n) == Err::<FieldDraft, Violation>(e),
    decreases n,
{
    if i < n {
        lemma_field_items_stay_failed(key, d, items, i, (n - 1) as nat, e);
    }
}

/// Reads a sub-option from its name.
pub fn read_field_key(name: &String) -> (r: Option<FieldKey>)
    ensures
        r == field_key_of(name@),
{
    if text_is(name, "ignore") {
        Some(FieldKey::Ignore)
    } else if text_is(name, "method") {
        Some(FieldKey::Method)
    } else if text_is(name, "trait") {
        Some(FieldKey::Trait)
    } else if text_is(name, "rank") {
        Some(FieldKey::Rank)
    } else {
        None
    }
}

fn apply_field_value(key: FieldKey, d: Progress, lit: &Lit) -> (r: Result<Progress, Violation>)
    ensures
        outcome(r) == field_value(key, d@, *lit),
{
    match key {
        FieldKey::Ignore => Err(Violation::AttributeFormat),
        FieldKey::Method => match lit {
            Lit::Str(s) => {
                if d.compare_method.is_some() {
                    return Err(Violation::DuplicateParameter);
                }
                match read_path(s) {
                    Ok(p) => Ok(
                        Progress {
                            ignore: d.ignore,
                            compare_method: Some(p),
                            compare_trait: d.compare_trait,
                            rank: d.rank,
                            rank_is_set: d.rank_is_set,
                        },
                    ),
                    Err(e) => Err(e),
                }
            },
            _ => Err(Violation::AttributeFormat),
        },
        FieldKey::Trait => match lit {
            Lit::Str(s) => {
                if d.compare_trait.is_some() {
                    return Err(Violation::DuplicateParameter);
                }
                match read_path(s) {
                    Ok(p) => Ok(
                        Progress {
                            ignore: d.ignore,
                            compare_method: d.compare_method,
                            compare_trait: Some(p),
                            rank: d.rank,
                            rank_is_set: d.rank_is_set,
                        },
                    ),
                    Err(e) => Err(e),
                }
            },
            _ => Err(Violation::AttributeFormat),
        },
        FieldKey::Rank => match lit {
            Lit::Int(i) => {
                if d.rank_is_set {
                    return Err(Violation::DuplicateParameter);
                }
                Ok(
                    Progress {
                        ignore: d.ignore,
                        compare_method: d.compare_method,
                        compare_trait: d.compare_trait,
                        rank: rank_from_literal(*i),
                        rank_is_set: true,
                    },
                )
            },
            _ => Err(Violation::AttributeFormat),
        },
    }
}

fn apply_field_items(key: FieldKey, d: Progress, items: &Vec<NestedMeta>) -> (r: Result<
    Progress,
    Violation,
>)
    ensures
        outcome(r) == field_items(key, d@, items@, items@.len()),
{
    let ghost d0 = d@;
    let mut cur = d;
    let mut i: usize = 0;
    while i < items.len()
        invariant
            i <= items.len(),
            d0 == d@,
            field_items(key, d0, items@, i as nat) == Ok::<FieldDraft, Violation>(cur@),
        decreases items.len() - i,
    {
        let step = match &items[i] {
            NestedMeta::Literal(lit) => apply_field_value(key, cur, lit),
            NestedMeta::Meta(_) => Err(Violation::AttributeFormat),
        };
        match step {
            Ok(next) => {
                cur = next;
            },
            Err(e) => {
                proof {
                    lemma_field_items_stay_failed(
                        key,
                        d0,
                        items@,
                        (i + 1) as nat,
                        items@.len(),
                        e,
                    );
                }
                return Err(e);
            },
        }
        i += 1;
    }
    Ok(cur)
}

impl FieldAttributeBuilder {
    /// Once a violation was found among the first `i` elements of a block, it
    /// is the result for every longer prefix.
    pub proof fn lemma_params_stay_failed(self, items: Seq<NestedMeta>, i: nat, n: nat, e: Violation)
        requires
            i <= n,
            self.params(items, i) == Err::<FieldDraft, Violation>(e),
        ensures
            self.params(items, n) == Err::<FieldDraft, Violation>(e),
        decreases n,
    {
        if i < n {
            self.lemma_params_stay_failed(items, i, (n - 1) as nat, e);
        }
    }

    fn apply_param(&self, d: Progress, m: &Meta) -> (r: Result<Progress, Violation>)
        ensures
            outcome(r) == self.param(d@, *m),
    {
        let key = match read_field_key(m.name()) {
            Some(key) => key,
            None => {
                return Err(Violation::UnknownParameter);
            },
        };
        let known = match key {
            FieldKey::Ignore => self.enable_ignore,
            FieldKey::Method => self.enable_impl,
            FieldKey::Trait => self.enable_impl,
            FieldKey::Rank => self.enable_rank,
        };
        if !known {
            return Err(Violation::UnknownParameter);
        }
        match m {
            Meta::Word(_) => {
                if key != FieldKey::Ignore {
                    Err(Violation::AttributeFormat)
                } else if d.ignore {
                    Err(Violation::DuplicateParameter)
                } else {
                    Ok(
                        Progress {
                            ignore: true,
                            compare_method: d.compare_method,
                            compare_trait: d.compare_trait,
                            rank: d.rank,
                            rank_is_set: d.rank_is_set,
                        },
                    )
                }
            },
            Meta::List(_, items) => {
                if key == FieldKey::Ignore {
                    Err(Violation::AttributeFormat)
                } else {
                    apply_field_items(key, d, items)
                }
            },
            Meta::NameValue(_, lit) => apply_field_value(key, d, lit),
        }
    }

    fn read_params(&self, items: &Vec<NestedMeta>) -> (r: Result<Progress, (Violation, usize)>)
        ensures
            match r {
                Ok(d) => self.params(items@, items@.len()) == Ok::<FieldDraft, Violation>(d@),
                Err((e, n)) => {
                    &&& n < items@.len()
                    &&& self.params(items@, n as nat) is Ok
                    &&& self.params(items@, (n + 1) as nat) == Err::<FieldDraft, Violation>(e)
                    &&& self.params(items@, items@.len()) == Err::<FieldDraft, Violation>(e)
                },
            },
    {
        let mut cur = Progress {
            ignore: false,
            compare_method: None,
            compare_trait: None,
            rank: self.rank,
            rank_is_set: false,
        };
        let mut i: usize = 0;
        while i < items.len()
            invariant
                i <= items.len(),
                self.params(items@, i as nat) == Ok::<FieldDraft, Violation>(cur@),
            decreases items.len() - i,
        {
            let step = match &items[i] {
                NestedMeta::Meta(m) => self.apply_param(cur, m),
                NestedMeta::Literal(_) => Err(Violation::AttributeFormat),
            };
            match step {
                Ok(next) => {
                    cur = next;
                },
                Err(e) => {
                    proof {
                        self.lemma_params_stay_failed(items@, (i + 1) as nat, items@.len(), e);
                    }
                    return Err((e, i));
                },
            }
            i += 1;
        }
        Ok(cur)
    }

    /// Reads the configuration of a field from its block. The block is a list
    /// of sub-options, each given once and in a form that the builder accepts.
    pub fn from_partial_ord_meta(&self, meta: &Meta) -> (r: Result<FieldAttribute, Violation>)
        ensures
            config_of(r) == self.partial_ord_config(*meta),
            r is Ok ==> r->Ok_0@.well_formed(self.rank as int),
    {
        proof {
            if self.partial_ord_config(*meta) is Ok {
                self.lemma_block_config_is_well_formed(*meta);
            }
        }
        let items = match meta {
            Meta::List(_, items) => items,
            _ => {
                return Err(Violation::AttributeFormat);
            },
        };
        let cur = match self.read_params(items) {
            Ok(cur) => cur,
            Err((e, _)) => {
                return Err(e);
            },
        };
        if cur.ignore && cur.rank_is_set {
            return Err(Violation::ConflictingOptions);
        }
        let compare_method = if cur.compare_trait.is_some() && cur.compare_method.is_none() {
            Some(canonical_method())
        } else {
            cur.compare_method
        };
        Ok(
            FieldAttribute {
                ignore: cur.ignore,
                compare_method,
                compare_trait: cur.compare_trait,
                rank: cur.rank,
            },
        )
    }

    /// Finds the element of a block at which reading it fails, so that a
    /// diagnostic can name the offending sub-option: the first element
    /// whose violation ends the reading. There is none where the block is
    /// no list, or where every element is read.
    pub fn offending_element(&self, meta: &Meta) -> (r: Option<usize>)
        ensures
            match r {
                Some(n) => {
                    &&& *meta is List
                    &&& n < meta->List_1@.len()
                    &&& self.params(meta->List_1@, n as nat) is Ok
                    &&& self.params(meta->List_1@, (n + 1) as nat) is Err
                },
                None => !(*meta is List) || self.params(meta->List_1@, meta->List_1@.len()) is Ok,
            },
    {
        match meta {
            Meta::List(_, items) => match self.read_params(items) {
                Ok(_) => None,
                Err((_, n)) => Some(n),
            },
            _ => None,
        }
    }
}

/// The view of a block that may have been found.
pub open spec fn found_config(o: Option<FieldAttribute>) -> Option<FieldConfig> {
    match o {
        Some(a) => Some(a@),
        None => None,
    }
}

spec fn found_outcome(r: Result<Option<FieldAttribute>, Violation>) -> Result<
    Option<FieldConfig>,
    Violation,
> {
    match r {
        Ok(o) => Ok(found_config(o)),
        Err(e) => Err(e),
    }
}

impl FieldAttributeBuilder {
    /// Once a violation was found among the first `i` elements of a
    /// capability list, it is the result for every longer prefix.
    pub proof fn lemma_blocks_stay_failed(
        self,
        traits: Seq<Trait>,
        target: Trait,
        found: Option<FieldConfig>,
        items: Seq<NestedMeta>,
        i: nat,
        n: nat,
        e: Violation,
    )
        requires
            i <= n,
            self.blocks(traits, target, found, items, i) == Err::<Option<FieldConfig>, Violation>(e),
        ensures
            self.blocks(traits, target, found, items, n) == Err::<Option<FieldConfig>, Violation>(e),
        decreases n,
    {
        if i < n {
            self.lemma_blocks_stay_failed(traits, target, found, items, i, (n - 1) as nat, e);
        }
    }

    /// Once a violation was found among the first `i` attributes, it is the
    /// result for every longer prefix.
    pub proof fn lemma_attributes_stay_failed(
        self,
        traits: Seq<Trait>,
        target: Trait,
        metas: Seq<Meta>,
        i: nat,
        n: nat,
        e: Violation,
    )
        requires
            i <= n,
            self.attributes(traits, target, metas, i) == Err::<Option<FieldConfig>, Violation>(e),
        ensures
            self.attributes(traits, target, metas, n) == Err::<Option<FieldConfig>, Violation>(e),
        decreases n,
    {
        if i < n {
            self.lemma_attributes_stay_failed(traits, target, metas, i, (n - 1) as nat, e);
        }
    }

    fn read_block(
        &self,
        traits: &[Trait],
        target: Trait,
        found: Option<FieldAttribute>,
        item: &NestedMeta,
    ) -> (r: Result<Option<FieldAttribute>, Violation>)
        ensures
            found_outcome(r) == self.block(traits@, target, found_config(found), *item),
    {
        let m = match item {
            NestedMeta::Meta(m) => m,
            NestedMeta::Literal(_) => {
                return Err(Violation::AttributeFormat);
            },
        };
        let t = match Trait::from_str(m.name()) {
            Some(t) => t,
            None => {
                return Err(Violation::UnusedCapability);
            },
        };
        if !enables(traits, t) {
            return Err(Violation::UnusedCapability);
        }
        if t != target {
            return Ok(found);
        }
        if found.is_some() {
            return Err(Violation::DuplicateParameter);
        }
        match self.from_partial_ord_meta(m) {
            Ok(a) => Ok(Some(a)),
            Err(e) => Err(e),
        }
    }

    fn read_attribute(
        &self,
        traits: &[Trait],
        target: Trait,
        found: Option<FieldAttribute>,
        meta: &Meta,
    ) -> (r: Result<Option<FieldAttribute>, Violation>)
        ensures
            found_outcome(r) == self.attribute(traits@, target, found_config(found), *meta),
    {
        if !text_is(meta.name(), "educe") {
            return Ok(found);
        }
        let items = match meta {
            Meta::List(_, items) => items,
            _ => {
                return Err(Violation::AttributeFormat);
            },
        };
        let ghost f0 = found_config(found);
        let mut cur = found;
        let mut i: usize = 0;
        while i < items.len()
            invariant
                i <= items.len(),
                f0 == found_config(found),
                self.attribute(traits@, target, f0, *meta) == self.blocks(
                    traits@,
                    target,
                    f0,
                    items@,
                    items@.len(),
                ),
                self.blocks(traits@, target, f0, items@, i as nat) == Ok::<Option<FieldConfig>, Violation>(
                    found_config(cur),
                ),
            decreases items.len() - i,
        {
            match self.read_block(traits, target, cur, &items[i]) {
                Ok(next) => {
                    cur = next;
                },
                Err(e) => {
                    proof {
                        self.lemma_blocks_stay_failed(
                            traits@,
                            target,
                            f0,
                            items@,
                            (i + 1) as nat,
                            items@.len(),
                            e,
                        );
                    }
                    return Err(e);
                },
            }
            i += 1;
        }
        Ok(cur)
    }

    /// Reads the configuration of a field from its attributes, for the
    /// capability `target`. Every capability that the attributes configure
    /// must be among `traits`; the block of the target may come once; without
    /// it the field has the builder's defaults.
    pub fn from_attributes_for(self, attributes: &[Meta], traits: &[Trait], target: Trait) -> (r: Result<
        FieldAttribute,
        Violation,
    >)
        ensures
            config_of(r) == self.config(traits@, target, attributes@),
            r is Ok ==> r->Ok_0@.well_formed(self.rank as int),
    {
        proof {
            if self.config(traits@, target, attributes@) is Ok {
                self.lemma_config_is_well_formed(traits@, target, attributes@);
            }
        }
        let mut cur: Option<FieldAttribute> = None;
        let mut i: usize = 0;
        while i < attributes.len()
            invariant
                i <= attributes.len(),
                self.attributes(traits@, target, attributes@, i as nat) == Ok::<
                    Option<FieldConfig>,
                    Violation,
                >(found_config(cur)),
            decreases attributes.len() - i,
        {
            match self.read_attribute(traits, target, cur, &attributes[i]) {
                Ok(next) => {
                    cur = next;
                },
                Err(e) => {
                    proof {
                        self.lemma_attributes_stay_failed(
                            traits@,
                            target,
                            attributes@,
                            (i + 1) as nat,
                            attributes@.len(),
                            e,
                        );
                    }
                    return Err(e);
                },
            }
            i += 1;
        }
        match cur {
            Some(a) => Ok(a),
            None => Ok(
                FieldAttribute {
                    ignore: false,
                    compare_method: None,
                    compare_trait: None,
                    rank: self.rank,
                },
            ),
        }
    }

    /// Reads the configuration of a field for partial ordering from its
    /// attributes. Every capability that they configure must be among
    /// `traits`; the block for partial ordering may come once; without it
    /// the field has the builder's defaults.
    pub fn from_attributes(self, attributes: &[Meta], traits: &[Trait]) -> (r: Result<
        FieldAttribute,
        Violation,
    >)
        ensures
            config_of(r) == self.config(traits@, Trait::PartialOrd, attributes@),
            r is Ok ==> r->Ok_0@.well_formed(self.rank as int),
    {
        self.from_attributes_for(attributes, traits, Trait::PartialOrd)
    }
}

/// The comparison method that a trait is asked for where none is named.
pub fn canonical_method() -> (r: String)
    ensures
        r@ == "partial_cmp"@,
{
    "partial_cmp".to_string()
}

/// Whether the literal has the kind that the sub-option `key` takes.
pub open spec fn fits(key: FieldKey, lit: Lit) -> bool {
    match key {
        FieldKey::Ignore => false,
        FieldKey::Method => lit is Str,
        FieldKey::Trait => lit is Str,
        FieldKey::Rank => lit is Int,
    }
}

/// Whether `m` gives the sub-option `key` in an accepted form: the bare word
/// for `ignore`; for the others a literal of the right kind, as the value or
/// as the first element of the list.
pub open spec fn well_shaped(key: FieldKey, m: Meta) -> bool {
    match m {
        Meta::Word(_) => key == FieldKey::Ignore,
        Meta::List(_, items) => key != FieldKey::Ignore && items@.len() > 0 && match items@[0] {
            NestedMeta::Literal(lit) => fits(key, lit),
            NestedMeta::Meta(_) => false,
        },
        Meta::NameValue(_, lit) => fits(key, lit),
    }
}

/// A list that is read without a violation keeps what the draft had set, and
/// sets its own sub-option if it is not empty.
proof fn lemma_field_items_set(key: FieldKey, other: FieldKey, d: FieldDraft, items: Seq<NestedMeta>, n: nat)
    requires
        field_items(key, d, items, n) is Ok,
    ensures
        d.has(other) ==> field_items(key, d, items, n)->Ok_0.has(other),
        n > 0 ==> field_items(key, d, items, n)->Ok_0.has(key),
    decreases n,
{
    if n > 0 {
        lemma_field_items_set(key, other, d, items, (n - 1) as nat);
    }
}

impl FieldAttributeBuilder {
    /// A sub-option that is read without a violation keeps what the draft
    /// had set, and sets its own key if it carries a value.
    pub proof fn lemma_param_sets(self, d: FieldDraft, m: Meta, other: FieldKey)
        requires
            self.param(d, m) is Ok,
        ensures
            d.has(other) ==> self.param(d, m)->Ok_0.has(other),
            gives_value(m) ==> self.param(d, m)->Ok_0.has(field_key_of(m.name_text())->Some_0),
            field_key_of(m.name_text()) is Some,
            self.knows(field_key_of(m.name_text())->Some_0),
    {
        let key = field_key_of(m.name_text())->Some_0;
        match m {
            Meta::List(_, items) => {
                lemma_field_items_set(key, other, d, items@, items@.len());
            },
            _ => {},
        }
    }

    /// What has been set after `i` elements of a block is still set after
    /// `n`, where no violation was found up to there.
    pub proof fn lemma_params_keep(self, items: Seq<NestedMeta>, i: nat, n: nat, key: FieldKey)
        requires
            i <= n,
            self.params(items, n) is Ok,
        ensures
            self.params(items, i) is Ok,
            self.params(items, i)->Ok_0.has(key) ==> self.params(items, n)->Ok_0.has(key),
        decreases n,
    {
        if i < n {
            self.lemma_params_keep(items, i, (n - 1) as nat, key);
            let d = self.params(items, (n - 1) as nat)->Ok_0;
            match items[n - 1] {
                NestedMeta::Meta(m) => {
                    self.lemma_param_sets(d, m, key);
                },
                NestedMeta::Literal(_) => {},
            }
        }
    }

    /// A sub-option that the draft has set already, given once more in an
    /// accepted form, is a duplicate.
    pub proof fn lemma_param_repeated(self, d: FieldDraft, m: Meta, key: FieldKey)
        requires
            field_key_of(m.name_text()) == Some(key),
            self.knows(key),
            d.has(key),
            well_shaped(key, m),
        ensures
            self.param(d, m) == Err::<FieldDraft, Violation>(Violation::DuplicateParameter),
    {
        match m {
            Meta::List(_, items) => {
                assert(field_items(key, d, items@, 0) == Ok::<FieldDraft, Violation>(d));
                assert(field_items(key, d, items@, 1) == Err::<FieldDraft, Violation>(
                    Violation::DuplicateParameter,
                ));
                lemma_field_items_stay_failed(
                    key,
                    d,
                    items@,
                    1,
                    items@.len(),
                    Violation::DuplicateParameter,
                );
            },
            _ => {},
        }
    }

    /// Repeating a sub-option within one block is refused as a duplicate: if
    /// the elements `i` and `j` of a block give the same sub-option, the
    /// second in an accepted form, and no violation comes before the second,
    /// the block fails with `DuplicateParameter`.
    pub proof fn lemma_repeated_parameter_is_refused(self, meta: Meta, i: int, j: int, key: FieldKey)
        requires
            meta is List,
            0 <= i < j < meta->List_1@.len(),
            meta->List_1@[i] is Meta,
            meta->List_1@[j] is Meta,
            field_key_of(meta->List_1@[i]->Meta_0.name_text()) == Some(key),
            field_key_of(meta->List_1@[j]->Meta_0.name_text()) == Some(key),
            gives_value(meta->List_1@[i]->Meta_0),
            well_shaped(key, meta->List_1@[j]->Meta_0),
            self.params(meta->List_1@, j as nat) is Ok,
        ensures
            self.partial_ord_config(meta) == Err::<FieldConfig, Violation>(
                Violation::DuplicateParameter,
            ),
    {
        let items = meta->List_1@;
        self.lemma_params_keep(items, (i + 1) as nat, j as nat, key);
        self.lemma_params_keep(items, i as nat, (i + 1) as nat, key);
        let before = self.params(items, i as nat)->Ok_0;
        self.lemma_param_sets(before, items[i]->Meta_0, key);
        let d = self.params(items, j as nat)->Ok_0;
        self.lemma_param_repeated(d, items[j]->Meta_0, key);
        self.lemma_params_stay_failed(
            items,
            (j + 1) as nat,
            items.len(),
            Violation::DuplicateParameter,
        );
    }

    /// A field cannot be ignored and ranked at once: if one element of a
    /// block gives `ignore` and another gives `rank` a value, the block is
    /// refused, and where nothing else is wrong with it, it fails with
    /// `ConflictingOptions`.
    pub proof fn lemma_ignore_excludes_rank(self, meta: Meta, i: int, j: int)
        requires
            meta is List,
            0 <= i < meta->List_1@.len(),
            0 <= j < meta->List_1@.len(),
            meta->List_1@[i] is Meta,
            meta->List_1@[j] is Meta,
            field_key_of(meta->List_1@[i]->Meta_0.name_text()) == Some(FieldKey::Ignore),
            field_key_of(meta->List_1@[j]->Meta_0.name_text()) == Some(FieldKey::Rank),
            gives_value(meta->List_1@[j]->Meta_0),
        ensures
            self.partial_ord_config(meta) is Err,
            self.params(meta->List_1@, meta->List_1@.len()) is Ok ==> self.partial_ord_config(meta)
                == Err::<FieldConfig, Violation>(Violation::ConflictingOptions),
    {
        let items = meta->List_1@;
        let n = items.len();
        if self.params(items, n) is Ok {
            self.lemma_params_keep(items, (i + 1) as nat, n, FieldKey::Ignore);
            self.lemma_params_keep(items, i as nat, (i + 1) as nat, FieldKey::Ignore);
            self.lemma_param_sets(
                self.params(items, i as nat)->Ok_0,
                items[i]->Meta_0,
                FieldKey::Ignore,
            );
            self.lemma_params_keep(items, (j + 1) as nat, n, FieldKey::Rank);
            self.lemma_params_keep(items, j as nat, (j + 1) as nat, FieldKey::Rank);
            self.lemma_param_sets(
                self.params(items, j as nat)->Ok_0,
                items[j]->Meta_0,
                FieldKey::Rank,
            );
        }
    }
}

/// A list that is read without a violation leaves the rank alone or sets it.
proof fn lemma_field_items_rank(key: FieldKey, d: FieldDraft, items: Seq<NestedMeta>, n: nat, rank: int)
    requires
        field_items(key, d, items, n) is Ok,
        d.rank_is_own_or(rank),
    ensures
        field_items(key, d, items, n)->Ok_0.rank_is_own_or(rank),
    decreases n,
{
    if n > 0 {
        lemma_field_items_rank(key, d, items, (n - 1) as nat, rank);
    }
}

impl FieldAttributeBuilder {
    /// While a block is read, the rank is the builder's until the block sets
    /// it.
    pub proof fn lemma_params_rank(self, items: Seq<NestedMeta>, n: nat)
        requires
            self.params(items, n) is Ok,
        ensures
            self.params(items, n)->Ok_0.rank_is_own_or(self.rank as int),
        decreases n,
    {
        if n > 0 {
            self.lemma_params_rank(items, (n - 1) as nat);
            let d = self.params(items, (n - 1) as nat)->Ok_0;
            match items[n - 1] {
                NestedMeta::Meta(m) => match m {
                    Meta::List(_, inner) => {
                        if field_key_of(m.name_text()) is Some {
                            lemma_field_items_rank(
                                field_key_of(m.name_text())->Some_0,
                                d,
                                inner@,
                                inner@.len(),
                                self.rank as int,
                            );
                        }
                    },
                    _ => {},
                },
                NestedMeta::Literal(_) => {},
            }
        }
    }

    /// Every configuration that a block yields is well formed.
    pub proof fn lemma_block_config_is_well_formed(self, meta: Meta)
        requires
            self.partial_ord_config(meta) is Ok,
        ensures
            self.partial_ord_config(meta)->Ok_0.well_formed(self.rank as int),
    {
        self.lemma_params_rank(meta->List_1@, meta->List_1@.len());
    }

    /// The block found in a capability list, if any, has a well-formed
    /// configuration.
    pub proof fn lemma_blocks_are_well_formed(
        self,
        traits: Seq<Trait>,
        target: Trait,
        found: Option<FieldConfig>,
        items: Seq<NestedMeta>,
        n: nat,
    )
        requires
            self.blocks(traits, target, found, items, n) is Ok,
            found is Some ==> found->Some_0.well_formed(self.rank as int),
        ensures
            self.blocks(traits, target, found, items, n)->Ok_0 is Some ==> self.blocks(
                traits,
                target,
                found,
                items,
                n,
            )->Ok_0->Some_0.well_formed(self.rank as int),
        decreases n,
    {
        if n > 0 {
            self.lemma_blocks_are_well_formed(traits, target, found, items, (n - 1) as nat);
            match items[n - 1] {
                NestedMeta::Meta(m) => {
                    if self.partial_ord_config(m) is Ok {
                        self.lemma_block_config_is_well_formed(m);
                    }
                },
                NestedMeta::Literal(_) => {},
            }
        }
    }

    /// The block found in a list of attributes, if any, has a well-formed
    /// configuration.
    pub proof fn lemma_attributes_are_well_formed(
        self,
        traits: Seq<Trait>,
        target: Trait,
        metas: Seq<Meta>,
        n: nat,
    )
        requires
            self.attributes(traits, target, metas, n) is Ok,
        ensures
            self.attributes(traits, target, metas, n)->Ok_0 is Some ==> self.attributes(
                traits,
                target,
                metas,
                n,
            )->Ok_0->Some_0.well_formed(self.rank as int),
        decreases n,
    {
        if n > 0 {
            self.lemma_attributes_are_well_formed(traits, target, metas, (n - 1) as nat);
            let found = self.attributes(traits, target, metas, (n - 1) as nat)->Ok_0;
            match metas[n - 1] {
                Meta::List(_, items) => {
                    if self.attribute(traits, target, found, metas[n - 1]) is Ok && metas[n
                        - 1].name_text() == "educe"@ {
                        self.lemma_blocks_are_well_formed(traits, target, found, items@, items@.len());
                    }
                },
                _ => {},
            }
        }
    }

    /// Every configuration that a field's attributes yield is well formed.
    pub proof fn lemma_config_is_well_formed(self, traits: Seq<Trait>, target: Trait, metas: Seq<Meta>)
        requires
            self.config(traits, target, metas) is Ok,
        ensures
            self.config(traits, target, metas)->Ok_0.well_formed(self.rank as int),
    {
        self.lemma_attributes_are_well_formed(traits, target, metas, metas.len());
    }
}

/// A second literal of the right kind in one list is a duplicate, where the
/// list is read without a violation up to it.
proof fn lemma_field_items_repeated(key: FieldKey, d: FieldDraft, items: Seq<NestedMeta>, b: int)
    requires
        0 < b < items.len(),
        items[b] is Literal,
        fits(key, items[b]->Literal_0),
        field_items(key, d, items, b as nat) is Ok,
    ensures
        field_items(key, d, items, items.len()) == Err::<FieldDraft, Violation>(
            Violation::DuplicateParameter,
        ),
{
    lemma_field_items_set(key, key, d, items, b as nat);
    assert(field_items(key, d, items, (b + 1) as nat) == Err::<FieldDraft, Violation>(
        Violation::DuplicateParameter,
    ));
    lemma_field_items_stay_failed(
        key,
        d,
        items,
        (b + 1) as nat,
        items.len(),
        Violation::DuplicateParameter,
    );
}

/// A list that is read without a violation leaves the rank as it is, unless
/// it is the list of `rank` itself and the rank was not set before.
proof fn lemma_field_items_leave_rank(key: FieldKey, d: FieldDraft, items: Seq<NestedMeta>, n: nat)
    requires
        field_items(key, d, items, n) is Ok,
        key != FieldKey::Rank || d.rank_is_set,
    ensures
        field_items(key, d, items, n)->Ok_0.rank == d.rank,
        field_items(key, d, items, n)->Ok_0.rank_is_set == d.rank_is_set,
    decreases n,
{
    if n > 0 {
        lemma_field_items_leave_rank(key, d, items, (n - 1) as nat);
    }
}

impl FieldAttributeBuilder {
    /// Repeating a value within the list of one sub-option is refused as a
    /// duplicate: if element `j` of a block is a list for the sub-option
    /// `key`, its element `b` is a literal of the right kind and not the
    /// first of the list, and no violation comes before that literal, the
    /// block fails with `DuplicateParameter`.
    pub proof fn lemma_repeated_literal_is_refused(self, meta: Meta, j: int, b: int, key: FieldKey)
        requires
            meta is List,
            0 <= j < meta->List_1@.len(),
            meta->List_1@[j] is Meta,
            meta->List_1@[j]->Meta_0 is List,
            field_key_of(meta->List_1@[j]->Meta_0.name_text()) == Some(key),
            self.knows(key),
            0 < b < meta->List_1@[j]->Meta_0->List_1@.len(),
            meta->List_1@[j]->Meta_0->List_1@[b] is Literal,
            fits(key, meta->List_1@[j]->Meta_0->List_1@[b]->Literal_0),
            self.params(meta->List_1@, j as nat) is Ok,
            field_items(
                key,
                self.params(meta->List_1@, j as nat)->Ok_0,
                meta->List_1@[j]->Meta_0->List_1@,
                b as nat,
            ) is Ok,
        ensures
            self.partial_ord_config(meta) == Err::<FieldConfig, Violation>(
                Violation::DuplicateParameter,
            ),
    {
        let items = meta->List_1@;
        let d = self.params(items, j as nat)->Ok_0;
        lemma_field_items_repeated(key, d, items[j]->Meta_0->List_1@, b);
        self.lemma_params_stay_failed(
            items,
            (j + 1) as nat,
            items.len(),
            Violation::DuplicateParameter,
        );
    }

    /// One sub-option that is read without a violation leaves the rank as it
    /// is, unless it is `rank` itself and the rank was not set before.
    pub proof fn lemma_param_leaves_rank(self, d: FieldDraft, m: Meta)
        requires
            self.param(d, m) is Ok,
            field_key_of(m.name_text()) != Some(FieldKey::Rank) || d.rank_is_set,
        ensures
            self.param(d, m)->Ok_0.rank == d.rank,
            self.param(d, m)->Ok_0.rank_is_set == d.rank_is_set,
    {
        match m {
            Meta::List(_, inner) => {
                lemma_field_items_leave_rank(
                    field_key_of(m.name_text())->Some_0,
                    d,
                    inner@,
                    inner@.len(),
                );
            },
            _ => {},
        }
    }

    /// A rank that the block has set after `i` elements is the rank after
    /// `n`, where no violation was found up to there.
    pub proof fn lemma_params_keep_rank(self, items: Seq<NestedMeta>, i: nat, n: nat)
        requires
            i <= n,
            self.params(items, n) is Ok,
            self.params(items, i) is Ok,
            self.params(items, i)->Ok_0.rank_is_set,
        ensures
            self.params(items, n)->Ok_0.rank_is_set,
            self.params(items, n)->Ok_0.rank == self.params(items, i)->Ok_0.rank,
        decreases n,
    {
        if i < n {
            self.lemma_params_keep(items, (n - 1) as nat, n, FieldKey::Rank);
            self.lemma_params_keep_rank(items, i, (n - 1) as nat);
            let d = self.params(items, (n - 1) as nat)->Ok_0;
            match items[n - 1] {
                NestedMeta::Meta(m) => {
                    self.lemma_param_leaves_rank(d, m);
                },
                NestedMeta::Literal(_) => {},
            }
        }
    }

    /// The first `n` elements of a block leave the builder's rank where none
    /// of them gives `rank`.
    pub proof fn lemma_params_without_rank(self, items: Seq<NestedMeta>, n: nat)
        requires
            n <= items.len(),
            self.params(items, n) is Ok,
            forall|k: int|
                0 <= k < n && (#[trigger] items[k]) is Meta ==> field_key_of(
                    items[k]->Meta_0.name_text(),
                ) != Some(FieldKey::Rank),
        ensures
            !self.params(items, n)->Ok_0.rank_is_set,
            self.params(items, n)->Ok_0.rank == self.rank,
        decreases n,
    {
        if n > 0 {
            self.lemma_params_keep(items, (n - 1) as nat, n, FieldKey::Rank);
            self.lemma_params_without_rank(items, (n - 1) as nat);
            let d = self.params(items, (n - 1) as nat)->Ok_0;
            match items[n - 1] {
                NestedMeta::Meta(m) => {
                    self.lemma_param_leaves_rank(d, m);
                },
                NestedMeta::Literal(_) => {},
            }
        }
    }

    /// A field whose block gives no rank has the builder's rank, wherever the
    /// field is declared: two such fields of one builder have equal ranks.
    pub proof fn lemma_unranked_block_has_default_rank(self, meta: Meta)
        requires
            self.partial_ord_config(meta) is Ok,
            forall|k: int|
                0 <= k < meta->List_1@.len() && (#[trigger] meta->List_1@[k]) is Meta ==> field_key_of(
                    meta->List_1@[k]->Meta_0.name_text(),
                ) != Some(FieldKey::Rank),
        ensures
            self.partial_ord_config(meta)->Ok_0.rank == self.rank,
    {
        self.lemma_params_without_rank(meta->List_1@, meta->List_1@.len());
    }

    /// A field whose block writes a rank has that rank, whatever else the
    /// block holds and wherever the field is declared: two fields that write
    /// the same rank have equal ranks.
    pub proof fn lemma_ranked_block_has_written_rank(self, meta: Meta, j: int, rank: u64)
        requires
            self.partial_ord_config(meta) is Ok,
            0 <= j < meta->List_1@.len(),
            meta->List_1@[j] is Meta,
            field_key_of(meta->List_1@[j]->Meta_0.name_text()) == Some(FieldKey::Rank),
            meta->List_1@[j]->Meta_0 is NameValue,
            meta->List_1@[j]->Meta_0->NameValue_1 == Lit::Int(rank),
        ensures
            self.partial_ord_config(meta)->Ok_0.rank == rank_of_literal(rank),
    {
        let items = meta->List_1@;
        self.lemma_params_keep(items, (j + 1) as nat, items.len(), FieldKey::Rank);
        self.lemma_params_keep(items, j as nat, (j + 1) as nat, FieldKey::Rank);
        self.lemma_params_keep_rank(items, (j + 1) as nat, items.len());
    }
}

impl FieldAttributeBuilder {
    /// Whether element `k` of the capability list `items` is a block of the
    /// capability `target` that stands for the configuration `c`.
    pub open spec fn is_block_at(self, items: Seq<NestedMeta>, target: Trait, k: int, c: FieldConfig) -> bool {
        &&& 0 <= k < items.len()
        &&& items[k] is Meta
        &&& trait_of_name(items[k]->Meta_0.name_text()) == Some(target)
        &&& self.partial_ord_config(items[k]->Meta_0) == Ok::<FieldConfig, Violation>(c)
    }

    /// Whether attribute `a` is a capability list whose element `k` is a
    /// block of the capability `target` that stands for the configuration
    /// `c`.
    pub open spec fn holds_block(self, metas: Seq<Meta>, target: Trait, a: int, k: int, c: FieldConfig) -> bool {
        &&& 0 <= a < metas.len()
        &&& metas[a] is List
        &&& metas[a].name_text() == "educe"@
        &&& self.is_block_at(metas[a]->List_1@, target, k, c)
    }

    /// The block found in a capability list is the one that was found
    /// before, or one of the list's own.
    pub proof fn lemma_blocks_find_a_block(
        self,
        traits: Seq<Trait>,
        target: Trait,
        found: Option<FieldConfig>,
        items: Seq<NestedMeta>,
        n: nat,
    )
        requires
            n <= items.len(),
            self.blocks(traits, target, found, items, n) is Ok,
        ensures
            self.blocks(traits, target, found, items, n)->Ok_0 == found || (self.blocks(
                traits,
                target,
                found,
                items,
                n,
            )->Ok_0 is Some && exists|k: int| #[trigger]
                self.is_block_at(
                    items,
                    target,
                    k,
                    self.blocks(traits, target, found, items, n)->Ok_0->Some_0,
                )),
        decreases n,
    {
        if n > 0 {
            self.lemma_blocks_find_a_block(traits, target, found, items, (n - 1) as nat);
            let before = self.blocks(traits, target, found, items, (n - 1) as nat)->Ok_0;
            let after = self.blocks(traits, target, found, items, n)->Ok_0;
            if after != before {
                assert(self.is_block_at(items, target, n - 1, after->Some_0));
            }
        }
    }

    /// The block found in a list of attributes is a block of one of them.
    pub proof fn lemma_attributes_find_a_block(
        self,
        traits: Seq<Trait>,
        target: Trait,
        metas: Seq<Meta>,
        n: nat,
    )
        requires
            n <= metas.len(),
            self.attributes(traits, target, metas, n) is Ok,
        ensures
            self.attributes(traits, target, metas, n)->Ok_0 is Some ==> exists|a: int, k: int| #[trigger]
                self.holds_block(
                    metas,
                    target,
                    a,
                    k,
                    self.attributes(traits, target, metas, n)->Ok_0->Some_0,
                ),
        decreases n,
    {
        if n > 0 {
            self.lemma_attributes_find_a_block(traits, target, metas, (n - 1) as nat);
            let before = self.attributes(traits, target, metas, (n - 1) as nat)->Ok_0;
            let after = self.attributes(traits, target, metas, n)->Ok_0;
            if after != before {
                let items = metas[n - 1]->List_1@;
                self.lemma_blocks_find_a_block(traits, target, before, items, items.len());
                let k = choose|k: int| #[trigger] self.is_block_at(items, target, k, after->Some_0);
                assert(self.holds_block(metas, target, n - 1, k, after->Some_0));
            }
        }
    }

    /// What a field's attributes yield depends on the builder and on the
    /// attributes alone, never on where the field is declared: it is the
    /// builder's default, or what one block among the attributes stands for.
    pub proof fn lemma_config_is_of_a_block(self, traits: Seq<Trait>, target: Trait, metas: Seq<Meta>)
        requires
            self.config(traits, target, metas) is Ok,
        ensures
            self.config(traits, target, metas)->Ok_0 == self.default_config() || exists|a: int, k: int| #[trigger]
                self.holds_block(metas, target, a, k, self.config(traits, target, metas)->Ok_0),
    {
        self.lemma_attributes_find_a_block(traits, target, metas, metas.len());
    }
}

/// The forms in which the sub-option `key` is accepted, as a diagnostic
/// lists them.
pub open spec fn forms_of(key: FieldKey) -> Seq<Seq<char>> {
    match key {
        FieldKey::Ignore => seq!["PartialOrd(ignore)"@],
        FieldKey::Rank => seq!["PartialOrd(rank = priority_value)"@, "PartialOrd(rank(priority_value))"@],
        _ => seq![
            "PartialOrd(method = \"path_to_method\")"@,
            "PartialOrd(trait = \"path_to_trait\")"@,
            "PartialOrd(trait = \"path_to_trait\", method = \"path_to_method_in_trait\")"@,
            "PartialOrd(method(\"path_to_method\"))"@,
            "PartialOrd(trait(\"path_to_trait\"))"@,
            "PartialOrd(trait(\"path_to_trait\"), method(\"path_to_method_in_trait\"))"@,
        ],
    }
}

/// Lists the forms in which a sub-option is accepted.
pub fn accepted_forms(key: FieldKey) -> (r: Vec<String>)
    ensures
        texts(r@) == forms_of(key),
{
    let mut r: Vec<String> = Vec::new();
    match key {
        FieldKey::Ignore => {
            r.push("PartialOrd(ignore)".to_string());
        },
        FieldKey::Rank => {
            r.push("PartialOrd(rank = priority_value)".to_string());
            r.push("PartialOrd(rank(priority_value))".to_string());
        },
        _ => {
            r.push("PartialOrd(method = \"path_to_method\")".to_string());
            r.push("PartialOrd(trait = \"path_to_trait\")".to_string());
            r.push(
                "PartialOrd(trait = \"path_to_trait\", method = \"path_to_method_in_trait\")".to_string(),
            );
            r.push("PartialOrd(method(\"path_to_method\"))".to_string());
            r.push("PartialOrd(trait(\"path_to_trait\"))".to_string());
            r.push(
                "PartialOrd(trait(\"path_to_trait\"), method(\"path_to_method_in_trait\"))".to_string(),
            );
        },
    }
    assert(texts(r@) =~= forms_of(key));
    r
}

} // verus!
