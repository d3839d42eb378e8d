//! What the code generated for a model does, decided from its checked plan:
//! the validations and assignments made when a record is created, the
//! relation slots of `ModelWithRelations` and `HasRelation`, the column
//! constants and default ordering, and the many-to-many accessors.

use vstd::prelude::*;

use crate::model_def::{model_fields_view, ManyToManyConfig, ModelField, ModelFieldModel};
use crate::schema::strs_view;
use crate::text::{
    chars_of, contains, decimal, decimal_chars, ends_with, has_sub, has_suffix, push_chars, push_str, slice_chars,
    string_of,
};

verus! {

// ---------------------------------------------------------------------------
// Creating a record
// ---------------------------------------------------------------------------

/// A check made on a model before it is inserted.
#[derive(Debug, Clone, PartialEq, Eq)]
pub enum ValidationRule {
    /// A non-nullable foreign key must not hold its type's default value
    RequiredFk(String),
    /// A `String` field may be at most this long
    MaxLen(String, usize),
    /// A `String` field must be at least this long
    MinLen(String, usize),
    /// A numeric field must be at least this value
    RangeMin(String, i64),
    /// A numeric field must be at most this value
    RangeMax(String, i64),
}

pub enum RuleModel {
    RequiredFk(Seq<char>),
    MaxLen(Seq<char>, usize),
    MinLen(Seq<char>, usize),
    RangeMin(Seq<char>, i64),
    RangeMax(Seq<char>, i64),
}

impl View for ValidationRule {
    type V = RuleModel;

    open spec fn view(&self) -> RuleModel {
        match self {
            ValidationRule::RequiredFk(f) => RuleModel::RequiredFk(f@),
            ValidationRule::MaxLen(f, n) => RuleModel::MaxLen(f@, *n),
            ValidationRule::MinLen(f, n) => RuleModel::MinLen(f@, *n),
            ValidationRule::RangeMin(f, n) => RuleModel::RangeMin(f@, *n),
            ValidationRule::RangeMax(f, n) => RuleModel::RangeMax(f@, *n),
        }
    }
}

/// An integer in decimal, with a `-` before a negative one.
pub open spec fn int_text(v: int) -> Seq<char> {
    if v < 0 {
        seq!['-'] + decimal((-v) as nat)
    } else {
        decimal(v as nat)
    }
}

fn push_i64(s: &mut String, v: i64)
    ensures
        final(s)@ == old(s)@ + int_text(v as int),
{
    if v < 0 {
        s.push('-');
        let m: u64 = (0i128 - (v as i128)) as u64;
        let d = decimal_chars(m);
        push_chars(s, &d);
    } else {
        let d = decimal_chars(v as u64);
        push_chars(s, &d);
    }
}

/// The reason a record fails a rule, or `None` when it passes: a foreign key
/// fails when it holds its type's default; a length limit compares the text's
/// length `len`, a bound compares the field's value `value`.
pub open spec fn rule_failure(r: RuleModel, is_default: bool, len: usize, value: i64) -> Option<Seq<char>> {
    match r {
        RuleModel::RequiredFk(_) => if is_default {
            Some(
                "foreign key cannot be the default value - did you forget to set this field? Using Default::default() on models with foreign keys will leave FK fields uninitialized."@,
            )
        } else {
            None
        },
        RuleModel::MaxLen(_, m) => if len > m {
            Some("exceeds max_length of "@ + decimal(m as nat))
        } else {
            None
        },
        RuleModel::MinLen(_, m) => if len < m {
            Some("is shorter than min_length of "@ + decimal(m as nat))
        } else {
            None
        },
        RuleModel::RangeMin(_, m) => if value < m {
            Some("value "@ + int_text(value as int) + " is less than minimum "@ + int_text(m as int))
        } else {
            None
        },
        RuleModel::RangeMax(_, m) => if value > m {
            Some("value "@ + int_text(value as int) + " exceeds maximum "@ + int_text(m as int))
        } else {
            None
        },
    }
}

impl ValidationRule {
    /// Check a record against this rule, given whether the checked field holds
    /// its type's default, its length, and its value: the reason it fails, or
    /// `None` when it passes.
    pub fn failure(&self, is_default: bool, len: usize, value: i64) -> (res: Option<String>)
        ensures
            match (res, rule_failure(self@, is_default, len, value)) {
                (Some(m), Some(w)) => m@ == w,
                (None, None) => true,
                _ => false,
            },
    {
        let mut s = String::new();
        match self {
            ValidationRule::RequiredFk(_) => {
                if !is_default {
                    return None;
                }
                push_str(
                    &mut s,
                    "foreign key cannot be the default value - did you forget to set this field? Using Default::default() on models with foreign keys will leave FK fields uninitialized.",
                );
            },
            ValidationRule::MaxLen(_, m) => {
                if len <= *m {
                    return None;
                }
                push_str(&mut s, "exceeds max_length of ");
                let d = decimal_chars(*m as u64);
                push_chars(&mut s, &d);
            },
            ValidationRule::MinLen(_, m) => {
                if len >= *m {
                    return None;
                }
                push_str(&mut s, "is shorter than min_length of ");
                let d = decimal_chars(*m as u64);
                push_chars(&mut s, &d);
            },
            ValidationRule::RangeMin(_, m) => {
                if value >= *m {
                    return None;
                }
                push_str(&mut s, "value ");
                push_i64(&mut s, value);
                push_str(&mut s, " is less than minimum ");
                push_i64(&mut s, *m);
            },
            ValidationRule::RangeMax(_, m) => {
                if value <= *m {
                    return None;
                }
                push_str(&mut s, "value ");
                push_i64(&mut s, value);
                push_str(&mut s, " exceeds maximum ");
                push_i64(&mut s, *m);
            },
        }
        Some(s)
    }
}

/// How a field of the active model is set when a record is created.
#[derive(Debug, Clone, Copy, PartialEq, Eq, Structural)]
pub enum Assign {
    /// Set to the current time (`auto_now`, `auto_now_add`)
    SetNow,
    /// Left for the database to generate (an auto-increment primary key)
    NotSet,
    /// Set to a clone of the model's value (a primary key without auto-increment)
    SetClone,
    /// Set to the model's value
    SetValue,
}

pub open spec fn rules_view(v: Seq<ValidationRule>) -> Seq<RuleModel> {
    v.map_values(|r: ValidationRule| r@)
}

pub open spec fn assigns_view(v: Seq<(String, Assign)>) -> Seq<(Seq<char>, Assign)> {
    v.map_values(|p: (String, Assign)| (p.0@, p.1))
}

/// The field's type is optional.
pub open spec fn nullable_type(ty: Seq<char>) -> bool {
    has_sub(ty, "Option"@)
}

/// The checks on one field: a non-nullable foreign key, then the length
/// limits of a `String` field, then the range bounds.
pub open spec fn field_rules(f: ModelFieldModel) -> Seq<RuleModel> {
    let c = f.config;
    let n = f.name;
    let strs = has_sub(f.ty, "String"@);
    let fk = if c.foreign_key is Some && !nullable_type(f.ty) {
        seq![RuleModel::RequiredFk(n)]
    } else {
        Seq::empty()
    };
    let mx = match c.max_length {
        Some(m) => if strs {
            seq![RuleModel::MaxLen(n, m)]
        } else {
            Seq::empty()
        },
        None => Seq::empty(),
    };
    let mn = match c.min_length {
        Some(m) => if strs {
            seq![RuleModel::MinLen(n, m)]
        } else {
            Seq::empty()
        },
        None => Seq::empty(),
    };
    let lo = match c.range_min {
        Some(m) => seq![RuleModel::RangeMin(n, m)],
        None => Seq::empty(),
    };
    let hi = match c.range_max {
        Some(m) => seq![RuleModel::RangeMax(n, m)],
        None => Seq::empty(),
    };
    fk + mx + mn + lo + hi
}

/// How one field is set on creation.
pub open spec fn field_assign(f: ModelFieldModel) -> Assign {
    if f.config.auto_now_add || f.config.auto_now {
        Assign::SetNow
    } else if f.config.is_primary_key {
        if f.config.auto_increment == Some(false) {
            Assign::SetClone
        } else {
            Assign::NotSet
        }
    } else {
        Assign::SetValue
    }
}

/// The checks and assignments of the first `n` fields; many-to-many fields
/// are not columns and get neither.
pub open spec fn create_plan(fs: Seq<ModelFieldModel>, n: int) -> (Seq<RuleModel>, Seq<(Seq<char>, Assign)>)
    decreases n,
{
    if n <= 0 {
        (Seq::empty(), Seq::empty())
    } else {
        let (r, a) = create_plan(fs, n - 1);
        let f = fs[n - 1];
        if f.config.many_to_many is Some {
            (r, a)
        } else {
            (r + field_rules(f), a.push((f.name, field_assign(f))))
        }
    }
}

fn push_rule(v: &mut Vec<ValidationRule>, r: ValidationRule)
    ensures
        rules_view(final(v)@) == rules_view(old(v)@).push(r@),
{
    let ghost v0 = v@;
    v.push(r);
    proof {
        assert(rules_view(v@) =~= rules_view(v0).push(r@));
    }
}

fn field_rules_exec(f: &ModelField, out: &mut Vec<ValidationRule>)
    ensures
        rules_view(final(out)@) == rules_view(old(out)@) + field_rules(f@),
{
    let ghost o0 = rules_view(out@);
    let ty = chars_of(f.ty.as_str());
    let opt = chars_of("Option");
    let strs = contains(&ty, &chars_of("String"));
    let ghost mut want: Seq<RuleModel> = Seq::empty();
    if f.config.foreign_key.is_some() && !contains(&ty, &opt) {
        push_rule(out, ValidationRule::RequiredFk(f.name.clone()));
        proof {
            want = want.push(RuleModel::RequiredFk(f@.name));
        }
    }
    match f.config.max_length {
        Some(m) => if strs {
            push_rule(out, ValidationRule::MaxLen(f.name.clone(), m));
            proof {
                want = want.push(RuleModel::MaxLen(f@.name, m));
            }
        },
        None => {},
    }
    match f.config.min_length {
        Some(m) => if strs {
            push_rule(out, ValidationRule::MinLen(f.name.clone(), m));
            proof {
                want = want.push(RuleModel::MinLen(f@.name, m));
            }
        },
        None => {},
    }
    match f.config.range_min {
        Some(m) => {
            push_rule(out, ValidationRule::RangeMin(f.name.clone(), m));
            proof {
                want = want.push(RuleModel::RangeMin(f@.name, m));
            }
        },
        None => {},
    }
    match f.config.range_max {
        Some(m) => {
            push_rule(out, ValidationRule::RangeMax(f.name.clone(), m));
            proof {
                want = want.push(RuleModel::RangeMax(f@.name, m));
            }
        },
        None => {},
    }
    proof {
        assert(want =~= field_rules(f@));
        assert(rules_view(out@) =~= o0 + want);
    }
}

fn field_assign_exec(f: &ModelField) -> (res: Assign)
    ensures
        res == field_assign(f@),
{
    if f.config.auto_now_add || f.config.auto_now {
        Assign::SetNow
    } else if f.config.is_primary_key {
        if f.config.auto_increment == Some(false) {
            Assign::SetClone
        } else {
            Assign::NotSet
        }
    } else {
        Assign::SetValue
    }
}

/// The validations run before a record is created, and how each column of
/// the active model is set.
pub fn plan_create(fields: &[ModelField]) -> (res: (Vec<ValidationRule>, Vec<(String, Assign)>))
    ensures
        (rules_view(res.0@), assigns_view(res.1@)) == create_plan(model_fields_view(fields@), fields@.len() as int),
{
    let ghost fv = model_fields_view(fields@);
    let mut rules: Vec<ValidationRule> = Vec::new();
    let mut assigns: Vec<(String, Assign)> = Vec::new();
    proof {
        assert(rules_view(rules@) =~= Seq::empty());
        assert(assigns_view(assigns@) =~= Seq::empty());
    }
    let mut i: usize = 0;
    while i < fields.len()
        invariant
            fv == model_fields_view(fields@),
            i <= fields@.len(),
            (rules_view(rules@), assigns_view(assigns@)) == create_plan(fv, i as int),
        decreases fields@.len() - i,
    {
        let f = &fields[i];
        proof {
            assert(fv[i as int] == f@);
        }
        if f.config.many_to_many.is_none() {
            field_rules_exec(f, &mut rules);
            let ghost a0 = assigns@;
            assigns.push((f.name.clone(), field_assign_exec(f)));
            proof {
                assert(assigns_view(assigns@) =~= assigns_view(a0).push((f@.name, field_assign(f@))));
            }
        }
        i = i + 1;
    }
    (rules, assigns)
}

// ---------------------------------------------------------------------------
// Relations of a loaded model
// ---------------------------------------------------------------------------

/// A loaded relation of a model: the foreign-key field it comes from, the
/// name of the relation field (the foreign key without its `_id` suffix), the
/// related entity, and whether the relation may be absent (an optional key).
#[derive(Debug, Clone, PartialEq, Eq)]
pub struct RelationSlot {
    pub fk_field: String,
    pub name: String,
    pub entity: String,
    pub nullable: bool,
}

pub struct SlotModel {
    pub fk_field: Seq<char>,
    pub name: Seq<char>,
    pub entity: Seq<char>,
    pub nullable: bool,
}

impl View for RelationSlot {
    type V = SlotModel;

    open spec fn view(&self) -> SlotModel {
        SlotModel { fk_field: self.fk_field@, name: self.name@, entity: self.entity@, nullable: self.nullable }
    }
}

pub open spec fn slots_view(v: Seq<RelationSlot>) -> Seq<SlotModel> {
    v.map_values(|s: RelationSlot| s@)
}

/// A relation field's name: the foreign-key field without a trailing `_id`.
pub open spec fn relation_name(field: Seq<char>) -> Seq<char> {
    if has_suffix(field, "_id"@) {
        field.subrange(0, field.len() - 3)
    } else {
        field
    }
}

pub open spec fn slot_of(f: ModelFieldModel, entity: Seq<char>) -> SlotModel {
    SlotModel { fk_field: f.name, name: relation_name(f.name), entity, nullable: nullable_type(f.ty) }
}

/// The slots a field gives: its own foreign key, then the one its
/// one-to-one relation implies.
pub open spec fn field_slots(f: ModelFieldModel) -> Seq<SlotModel> {
    let own = match f.config.foreign_key {
        Some(fk) => seq![slot_of(f, fk.entity)],
        None => Seq::empty(),
    };
    let implied = match f.config.one_to_one {
        Some(o) => seq![slot_of(f, o.entity)],
        None => Seq::empty(),
    };
    own + implied
}

pub open spec fn relation_slots(fs: Seq<ModelFieldModel>, n: int) -> Seq<SlotModel>
    decreases n,
{
    if n <= 0 {
        Seq::empty()
    } else {
        relation_slots(fs, n - 1) + field_slots(fs[n - 1])
    }
}

fn relation_name_exec(field: &str) -> (res: String)
    ensures
        res@ == relation_name(field@),
{
    let cs = chars_of(field);
    let suffix = chars_of("_id");
    proof {
        reveal_strlit("_id");
    }
    if ends_with(&cs, &suffix) {
        string_of(&slice_chars(&cs, 0, cs.len() - 3))
    } else {
        string_of(&cs)
    }
}

fn slot_exec(f: &ModelField, entity: &String) -> (res: RelationSlot)
    ensures
        res@ == slot_of(f@, entity@),
{
    let ty = chars_of(f.ty.as_str());
    let opt = chars_of("Option");
    RelationSlot {
        fk_field: f.name.clone(),
        name: relation_name_exec(f.name.as_str()),
        entity: entity.clone(),
        nullable: contains(&ty, &opt),
    }
}

/// The relation slots of `ModelWithRelations` and the `HasRelation`
/// implementations, one per foreign key, in field order.
pub fn plan_with_relations(fields: &[ModelField]) -> (res: Vec<RelationSlot>)
    ensures
        slots_view(res@) == relation_slots(model_fields_view(fields@), fields@.len() as int),
{
    let ghost fv = model_fields_view(fields@);
    let mut res: Vec<RelationSlot> = Vec::new();
    proof {
        assert(slots_view(res@) =~= Seq::empty());
    }
    let mut i: usize = 0;
    while i < fields.len()
        invariant
            fv == model_fields_view(fields@),
            i <= fields@.len(),
            slots_view(res@) == relation_slots(fv, i as int),
        decreases fields@.len() - i,
    {
        let f = &fields[i];
        proof {
            assert(fv[i as int] == f@);
        }
        let ghost r0 = slots_view(res@);
        let ghost mut add: Seq<SlotModel> = Seq::empty();
        match &f.config.foreign_key {
            Some(fk) => {
                let ghost v0 = res@;
                let s = slot_exec(f, &fk.entity);
                res.push(s);
                proof {
                    add = add.push(slot_of(f@, fk@.entity));
                    assert(slots_view(res@) =~= slots_view(v0).push(s@));
                }
            },
            None => {},
        }
        match &f.config.one_to_one {
            Some(o) => {
                let ghost v0 = res@;
                let s = slot_exec(f, &o.entity);
                res.push(s);
                proof {
                    add = add.push(slot_of(f@, o@.entity));
                    assert(slots_view(res@) =~= slots_view(v0).push(s@));
                }
            },
            None => {},
        }
        proof {
            assert(add =~= field_slots(f@));
            assert(slots_view(res@) =~= r0 + add);
        }
        i = i + 1;
    }
    res
}

// ---------------------------------------------------------------------------
// Convenience methods
// ---------------------------------------------------------------------------

/// The column constants of the model: each field not marked
/// `#[sea_orm(ignore)]`, as its column variant (the name in PascalCase).
pub open spec fn column_constants_from(fs: Seq<crate::parser::FieldModel>, n: int) -> Seq<Seq<char>>
    decreases n,
{
    if n <= 0 {
        Seq::empty()
    } else {
        let r = column_constants_from(fs, n - 1);
        let f = fs[n - 1];
        if crate::django_model::has_tool_attr(f, "sea_orm"@, "ignore"@) {
            r
        } else {
            r.push(crate::naming::pascal_case(f.name.unwrap()))
        }
    }
}

/// The column constants `Model::<Column>` generated for the fields.
pub fn column_constants(fields: &[crate::parser::FieldDecl]) -> (res: Vec<String>)
    requires
        forall|i: int| 0 <= i < fields@.len() ==> (#[trigger] fields@[i]).name is Some,
    ensures
        strs_view(res@) == column_constants_from(crate::parser::field_views(fields@), fields@.len() as int),
{
    let ghost fv = crate::parser::field_views(fields@);
    let mut res: Vec<String> = Vec::new();
    proof {
        assert(strs_view(res@) =~= Seq::empty());
    }
    let mut i: usize = 0;
    while i < fields.len()
        invariant
            fv == crate::parser::field_views(fields@),
            forall|k: int| 0 <= k < fields@.len() ==> (#[trigger] fields@[k]).name is Some,
            i <= fields@.len(),
            strs_view(res@) == column_constants_from(fv, i as int),
        decreases fields@.len() - i,
    {
        let f = &fields[i];
        proof {
            assert(fv[i as int] == f@);
            assert(f.name is Some);
        }
        if !crate::django_model::has_tool_attribute(f, "sea_orm", "ignore") {
            match &f.name {
                Some(n) => {
                    let ghost r0 = res@;
                    res.push(crate::naming::to_pascal_case(n.as_str()));
                    proof {
                        assert(strs_view(res@) =~= strs_view(r0).push(crate::naming::pascal_case(n@)));
                    }
                },
                None => {},
            }
        }
        i = i + 1;
    }
    res
}

/// The default ordering of `#[ormada_model(ordering = "..")]`: descending when
/// it starts with `-`, on the column named by the rest (in PascalCase).
pub open spec fn default_ordering_of(ordering: Seq<char>) -> (bool, Seq<char>) {
    (
        ordering.len() > 0 && ordering[0] == '-',
        crate::naming::pascal_case(crate::text::strip_start(ordering, crate::text::CharSet::Only('-'))),
    )
}

/// Whether the default ordering is descending, and its column variant.
pub fn default_ordering(ordering: &str) -> (res: (bool, String))
    ensures
        (res.0, res.1@) == default_ordering_of(ordering@),
{
    let cs = chars_of(ordering);
    let desc = cs.len() > 0 && cs[0] == '-';
    let rest = crate::text::trim_start_set(&cs, crate::text::CharSet::Only('-'));
    let column = string_of(&rest);
    (desc, crate::naming::to_pascal_case(column.as_str()))
}

// ---------------------------------------------------------------------------
// Many-to-many accessors
// ---------------------------------------------------------------------------

/// The segments of a path written with `::`.
pub open spec fn path_segments(path: Seq<char>) -> Seq<Seq<char>> {
    crate::config::non_empty(crate::text::split(path, ':'))
}

/// The position of the first `_internal` segment, or -1.
pub open spec fn internal_pos(segs: Seq<Seq<char>>, k: int) -> int
    decreases segs.len() - k,
{
    if k < 0 || k >= segs.len() {
        -1
    } else if segs[k] == "_internal"@ {
        k
    } else {
        internal_pos(segs, k + 1)
    }
}

/// The module of a model's entity path: the segment before `_internal`, or
/// the given default when there is none.
pub open spec fn module_of(path: Seq<char>, default: Seq<char>) -> Seq<char> {
    let segs = path_segments(path);
    let pos = internal_pos(segs, 0);
    if pos > 0 {
        segs[pos - 1]
    } else {
        default
    }
}

/// The segments with trailing `Entity` and `_internal` segments removed.
pub open spec fn without_entity(segs: Seq<Seq<char>>) -> Seq<Seq<char>>
    decreases segs.len(),
{
    if segs.len() > 0 && (segs.last() == "Entity"@ || segs.last() == "_internal"@) {
        without_entity(segs.drop_last())
    } else {
        segs
    }
}

/// The path of a related model: its entity path without `_internal::Entity`,
/// followed by `Model`.
pub open spec fn model_path_of(entity: Seq<char>) -> Seq<char> {
    crate::text::join(without_entity(path_segments(entity)).push("Model"@), "::"@)
}

/// The accessor generated for a many-to-many field: its method name
/// (`get_<field>`), the modules of the related and the join models, and the
/// related model's path.
#[derive(Debug, Clone, PartialEq, Eq)]
pub struct ManyToManyAccessor {
    pub method: String,
    pub related_module: String,
    pub through_module: String,
    pub related_model: String,
}

fn path_segments_exec(path: &str) -> (res: Vec<Vec<char>>)
    ensures
        crate::diff::keys_view(res@) == path_segments(path@),
{
    let cs = chars_of(path);
    let parts = crate::text::split_char(&cs, ':');
    let ghost ps = crate::text::split(path@, ':');
    let mut kept: Vec<Vec<char>> = Vec::new();
    let mut k: usize = 0;
    while k < parts.len()
        invariant
            parts@.len() == ps.len(),
            forall|j: int| 0 <= j < parts@.len() ==> #[trigger] parts@[j]@ == ps[j],
            k <= parts@.len(),
            crate::diff::keys_view(kept@) == crate::config::non_empty(ps.take(k as int)),
        decreases parts@.len() - k,
    {
        proof {
            assert(ps.take(k + 1).drop_last() =~= ps.take(k as int));
        }
        if parts[k].len() > 0 {
            let ghost k0 = kept@;
            kept.push(crate::text::copy_chars(&parts[k]));
            proof {
                assert(crate::diff::keys_view(kept@) =~= crate::diff::keys_view(k0).push(ps[k as int]));
            }
        }
        k = k + 1;
    }
    proof {
        assert(ps.take(parts@.len() as int) =~= ps);
    }
    kept
}

fn module_of_exec(path: &str, default: &str) -> (res: String)
    ensures
        res@ == module_of(path@, default@),
{
    let segs = path_segments_exec(path);
    let ghost sv = crate::diff::keys_view(segs@);
    let key = chars_of("_internal");
    let mut k: usize = 0;
    while k < segs.len()
        invariant
            sv == crate::diff::keys_view(segs@),
            sv == path_segments(path@),
            key@ == "_internal"@,
            k <= segs@.len(),
            internal_pos(sv, 0) == internal_pos(sv, k as int),
        decreases segs@.len() - k,
    {
        proof {
            assert(sv[k as int] == segs@[k as int]@);
        }
        if crate::text::chars_eq(&segs[k], &key) {
            if k > 0 {
                proof {
                    assert(sv[k - 1] == segs@[k - 1]@);
                }
                return string_of(&segs[k - 1]);
            }
            return String::from_str(default);
        }
        k = k + 1;
    }
    String::from_str(default)
}

proof fn lemma_without_entity_drop(segs: Seq<Seq<char>>, n: int)
    requires
        0 <= n <= segs.len(),
        forall|j: int| n <= j < segs.len() ==> (#[trigger] segs[j]) == "Entity"@ || segs[j] == "_internal"@,
    ensures
        without_entity(segs) == without_entity(segs.take(n)),
    decreases segs.len() - n,
{
    if n < segs.len() {
        assert(segs.drop_last() =~= segs.take(segs.len() - 1));
        let d = segs.drop_last();
        assert forall|j: int| n <= j < d.len() implies (#[trigger] d[j]) == "Entity"@ || d[j] == "_internal"@ by {
            assert(d[j] == segs[j]);
        }
        lemma_without_entity_drop(d, n);
        assert(d.take(n) =~= segs.take(n));
    } else {
        assert(segs.take(n) =~= segs);
    }
}

fn model_path_exec(entity: &str) -> (res: String)
    ensures
        res@ == model_path_of(entity@),
{
    let segs = path_segments_exec(entity);
    let ghost sv = crate::diff::keys_view(segs@);
    let e = chars_of("Entity");
    let internal = chars_of("_internal");
    let mut n: usize = segs.len();
    while n > 0 && (crate::text::chars_eq(&segs[n - 1], &e) || crate::text::chars_eq(&segs[n - 1], &internal))
        invariant
            sv == crate::diff::keys_view(segs@),
            e@ == "Entity"@,
            internal@ == "_internal"@,
            n <= segs@.len(),
            forall|j: int| n <= j < sv.len() ==> (#[trigger] sv[j]) == "Entity"@ || sv[j] == "_internal"@,
        decreases n,
    {
        proof {
            assert(sv[n - 1] == segs@[n - 1]@);
        }
        n = n - 1;
    }
    proof {
        lemma_without_entity_drop(sv, n as int);
        if n > 0 {
            assert(sv.take(n as int).last() == segs@[n - 1]@);
        }
        assert(without_entity(sv.take(n as int)) == sv.take(n as int));
    }
    let mut parts: Vec<Vec<char>> = Vec::new();
    let mut k: usize = 0;
    while k < n
        invariant
            sv == crate::diff::keys_view(segs@),
            n <= segs@.len(),
            k <= n,
            crate::diff::keys_view(parts@) == sv.take(k as int),
        decreases n - k,
    {
        let ghost p0 = parts@;
        parts.push(crate::text::copy_chars(&segs[k]));
        proof {
            assert(crate::diff::keys_view(parts@) =~= crate::diff::keys_view(p0).push(sv[k as int]));
            assert(sv.take(k + 1) =~= sv.take(k as int).push(sv[k as int]));
        }
        k = k + 1;
    }
    let ghost p1 = parts@;
    parts.push(chars_of("Model"));
    proof {
        assert(crate::diff::keys_view(parts@) =~= sv.take(n as int).push("Model"@));
    }
    let sep = chars_of("::");
    let joined = crate::text::join_chars(&parts, &sep);
    proof {
        assert(parts@.map_values(|p: Vec<char>| p@) =~= crate::diff::keys_view(parts@));
    }
    string_of(&joined)
}

/// The accessor of a many-to-many field.
pub fn m2m_accessor(field: &str, config: &ManyToManyConfig) -> (res: ManyToManyAccessor)
    ensures
        res.method@ == "get_"@ + field@,
        res.related_module@ == module_of(config.entity@, "related"@),
        res.through_module@ == module_of(config.through@, "through"@),
        res.related_model@ == model_path_of(config.entity@),
{
    let mut method = String::new();
    crate::text::push_str(&mut method, "get_");
    crate::text::push_str(&mut method, field);
    ManyToManyAccessor {
        method,
        related_module: module_of_exec(config.entity.as_str(), "related"),
        through_module: module_of_exec(config.through.as_str(), "through"),
        related_model: model_path_exec(config.entity.as_str()),
    }
}

} // verus!
