//! What the `#[ormada_model]` attribute reads from a model definition: the
//! model-level settings, each field's attributes, and the checks a model
//! must pass before any code is generated for it.

use vstd::prelude::*;

use crate::attr_args::{
    arg_pieces, arg_pieces_exec, is_path, is_path_exec, last_segment, last_segment_exec, literal,
    literal_exec, texts, piece_of, piece_of_exec, pieces_well_placed, pieces_well_placed_exec,
    single_segment, single_segment_exec, is_ident, is_ident_exec, Lit, LitModel, Piece,
    PieceModel, int_i64, int_usize, spaceless_exec,
};
use crate::naming::{snake_case, to_snake_case};
use crate::parser::{attr_name_is, attr_named, key_is, without_spaces, AttrInfo, AttrModel};
use crate::schema::{clone_opt_str, opt_str_view};
use crate::text::{chars_eq, chars_of, has_char, push_chars, push_str, str_eq, string_of, trim, trim_chars};

verus! {

// ---------------------------------------------------------------------------
// Relation targets
// ---------------------------------------------------------------------------

/// The entity a `foreign_key` or `one_to_one` field points to, seen from the
/// model's internal module: `super::super::<model in snake_case>::_internal::Entity`,
/// built from the last segment of the model's path.
pub open spec fn sibling_entity(path: Seq<char>) -> Seq<char> {
    "super::super::"@ + snake_case(last_segment(path)) + "::_internal::Entity"@
}

/// The entity a `many_to_many` field (or its `through` model) points to: a
/// bare model name is a sibling module (`super::<snake>::_internal::Entity`);
/// a longer path is kept and extended with `::_internal::Entity`.
pub open spec fn m2m_entity(path: Seq<char>) -> Seq<char> {
    if single_segment(path) {
        "super::"@ + snake_case(last_segment(path)) + "::_internal::Entity"@
    } else {
        without_spaces(path) + "::_internal::Entity"@
    }
}

fn sibling_entity_exec(path: &[char]) -> (res: String)
    ensures
        res@ == sibling_entity(path@),
{
    let seg = string_of(&last_segment_exec(path));
    let snake = to_snake_case(seg.as_str());
    let mut s = String::new();
    push_str(&mut s, "super::super::");
    push_str(&mut s, snake.as_str());
    push_str(&mut s, "::_internal::Entity");
    s
}

fn m2m_entity_exec(path: &[char]) -> (res: String)
    ensures
        res@ == m2m_entity(path@),
{
    let mut s = String::new();
    if single_segment_exec(path) {
        let seg = string_of(&last_segment_exec(path));
        let snake = to_snake_case(seg.as_str());
        push_str(&mut s, "super::");
        push_str(&mut s, snake.as_str());
    } else {
        let p = spaceless_exec(path);
        push_chars(&mut s, &p);
    }
    push_str(&mut s, "::_internal::Entity");
    s
}

// ---------------------------------------------------------------------------
// Field configuration
// ---------------------------------------------------------------------------

/// A many-to-one relation: the target entity, and the `on_delete` and
/// `default` given with it.
#[derive(Debug)]
pub struct ForeignKeyConfig {
    pub entity: String,
    pub on_delete: Option<String>,
    pub default: Option<String>,
}

pub struct ForeignKeyModel {
    pub entity: Seq<char>,
    pub on_delete: Option<Seq<char>>,
    pub default: Option<Seq<char>>,
}

impl View for ForeignKeyConfig {
    type V = ForeignKeyModel;

    open spec fn view(&self) -> ForeignKeyModel {
        ForeignKeyModel {
            entity: self.entity@,
            on_delete: opt_str_view(self.on_delete),
            default: opt_str_view(self.default),
        }
    }
}

/// A one-to-one relation: the target entity and its `on_delete`.
#[derive(Debug)]
pub struct OneToOneConfig {
    pub entity: String,
    pub on_delete: Option<String>,
}

pub struct OneToOneModel {
    pub entity: Seq<char>,
    pub on_delete: Option<Seq<char>>,
}

impl View for OneToOneConfig {
    type V = OneToOneModel;

    open spec fn view(&self) -> OneToOneModel {
        OneToOneModel { entity: self.entity@, on_delete: opt_str_view(self.on_delete) }
    }
}

/// A many-to-many relation: the target entity and the join entity.
#[derive(Debug)]
pub struct ManyToManyConfig {
    pub entity: String,
    pub through: String,
}

pub struct ManyToManyModel {
    pub entity: Seq<char>,
    pub through: Seq<char>,
}

impl View for ManyToManyConfig {
    type V = ManyToManyModel;

    open spec fn view(&self) -> ManyToManyModel {
        ManyToManyModel { entity: self.entity@, through: self.through@ }
    }
}

impl Clone for ForeignKeyConfig {
    fn clone(&self) -> (res: Self)
        ensures
            res@ == self@,
    {
        ForeignKeyConfig {
            entity: self.entity.clone(),
            on_delete: clone_opt_str(&self.on_delete),
            default: clone_opt_str(&self.default),
        }
    }
}

impl Clone for OneToOneConfig {
    fn clone(&self) -> (res: Self)
        ensures
            res@ == self@,
    {
        OneToOneConfig { entity: self.entity.clone(), on_delete: clone_opt_str(&self.on_delete) }
    }
}

impl Clone for ManyToManyConfig {
    fn clone(&self) -> (res: Self)
        ensures
            res@ == self@,
    {
        ManyToManyConfig { entity: self.entity.clone(), through: self.through.clone() }
    }
}

/// Field-level attribute configuration
#[derive(Debug, Clone)]
pub struct FieldConfig {
    pub is_primary_key: bool,
    pub auto_increment: Option<bool>,
    pub foreign_key: Option<ForeignKeyConfig>,
    pub one_to_one: Option<OneToOneConfig>,
    pub many_to_many: Option<ManyToManyConfig>,
    /// An index on the field, with its name when one is given.
    pub index: Option<Option<String>>,
    /// A unique constraint on the field, with its name when one is given.
    pub unique: Option<Option<String>>,
    pub max_length: Option<usize>,
    pub min_length: Option<usize>,
    pub range_min: Option<i64>,
    pub range_max: Option<i64>,
    pub auto_now: bool,
    pub auto_now_add: bool,
    pub soft_delete: bool,
    pub skip_serializing: bool,
    pub skip_deserializing: bool,
}

pub struct FieldConfigModel {
    pub is_primary_key: bool,
    pub auto_increment: Option<bool>,
    pub foreign_key: Option<ForeignKeyModel>,
    pub one_to_one: Option<OneToOneModel>,
    pub many_to_many: Option<ManyToManyModel>,
    pub index: Option<Option<Seq<char>>>,
    pub unique: Option<Option<Seq<char>>>,
    pub max_length: Option<usize>,
    pub min_length: Option<usize>,
    pub range_min: Option<i64>,
    pub range_max: Option<i64>,
    pub auto_now: bool,
    pub auto_now_add: bool,
    pub soft_delete: bool,
    pub skip_serializing: bool,
    pub skip_deserializing: bool,
}

pub open spec fn opt_name_view(o: Option<Option<String>>) -> Option<Option<Seq<char>>> {
    match o {
        Some(n) => Some(opt_str_view(n)),
        None => None,
    }
}

impl View for FieldConfig {
    type V = FieldConfigModel;

    open spec fn view(&self) -> FieldConfigModel {
        FieldConfigModel {
            is_primary_key: self.is_primary_key,
            auto_increment: self.auto_increment,
            foreign_key: match self.foreign_key {
                Some(f) => Some(f@),
                None => None,
            },
            one_to_one: match self.one_to_one {
                Some(o) => Some(o@),
                None => None,
            },
            many_to_many: match self.many_to_many {
                Some(m) => Some(m@),
                None => None,
            },
            index: opt_name_view(self.index),
            unique: opt_name_view(self.unique),
            max_length: self.max_length,
            min_length: self.min_length,
            range_min: self.range_min,
            range_max: self.range_max,
            auto_now: self.auto_now,
            auto_now_add: self.auto_now_add,
            soft_delete: self.soft_delete,
            skip_serializing: self.skip_serializing,
            skip_deserializing: self.skip_deserializing,
        }
    }
}

/// The configuration of a field with no attributes.
pub open spec fn empty_field_config() -> FieldConfigModel {
    FieldConfigModel {
        is_primary_key: false,
        auto_increment: None,
        foreign_key: None,
        one_to_one: None,
        many_to_many: None,
        index: None,
        unique: None,
        max_length: None,
        min_length: None,
        range_min: None,
        range_max: None,
        auto_now: false,
        auto_now_add: false,
        soft_delete: false,
        skip_serializing: false,
        skip_deserializing: false,
    }
}

impl Default for FieldConfig {
    fn default() -> (res: Self)
        ensures
            res@ == empty_field_config(),
    {
        FieldConfig {
            is_primary_key: false,
            auto_increment: None,
            foreign_key: None,
            one_to_one: None,
            many_to_many: None,
            index: None,
            unique: None,
            max_length: None,
            min_length: None,
            range_min: None,
            range_max: None,
            auto_now: false,
            auto_now_add: false,
            soft_delete: false,
            skip_serializing: false,
            skip_deserializing: false,
        }
    }
}

// ---------------------------------------------------------------------------
// Nested arguments
// ---------------------------------------------------------------------------

/// A bare piece that a fold passes over: a path that is none of the keys the
/// attribute reads (such a key would need a value).
pub open spec fn ignorable(p: Seq<char>, keys: Seq<Seq<char>>) -> bool {
    is_path(p) && !keys.contains(without_spaces(p))
}

/// `auto_increment = <bool>` inside `primary_key(..)`; `None` when malformed.
pub open spec fn pk_args(ps: Seq<Seq<char>>, i: int, auto: Option<bool>) -> Option<Option<bool>>
    decreases ps.len() - i,
{
    if i < 0 || i >= ps.len() {
        Some(auto)
    } else if ps[i].len() == 0 {
        pk_args(ps, i + 1, auto)
    } else {
        match piece_of(ps[i]) {
            PieceModel::Pair(k, v) => if k == "auto_increment"@ {
                match literal(v) {
                    Some(LitModel::Bool(b)) => pk_args(ps, i + 1, Some(b)),
                    Some(_) => pk_args(ps, i + 1, auto),
                    None => None,
                }
            } else {
                None
            },
            PieceModel::Bare(p) => if ignorable(p, seq!["auto_increment"@]) {
                pk_args(ps, i + 1, auto)
            } else {
                None
            },
        }
    }
}

/// An integer literal in the range of `i64`.
pub open spec fn lit_i64(l: LitModel) -> Option<i64> {
    match l {
        LitModel::Int(neg, v) => {
            let x: int = if neg {
                -v
            } else {
                v as int
            };
            if i64::MIN <= x && x <= i64::MAX {
                Some(x as i64)
            } else {
                None
            }
        },
        _ => None,
    }
}

/// `min = <int>` and `max = <int>` inside `range(..)`; `None` when malformed
/// (an integer out of the range of `i64` among them).
pub open spec fn range_args(ps: Seq<Seq<char>>, i: int, min: Option<i64>, max: Option<i64>) -> Option<(Option<i64>, Option<i64>)>
    decreases ps.len() - i,
{
    if i < 0 || i >= ps.len() {
        Some((min, max))
    } else if ps[i].len() == 0 {
        range_args(ps, i + 1, min, max)
    } else {
        match piece_of(ps[i]) {
            PieceModel::Pair(k, v) => if k == "min"@ || k == "max"@ {
                match literal(v) {
                    Some(LitModel::Int(neg, x)) => match lit_i64(LitModel::Int(neg, x)) {
                        Some(n) => if k == "min"@ {
                            range_args(ps, i + 1, Some(n), max)
                        } else {
                            range_args(ps, i + 1, min, Some(n))
                        },
                        None => None,
                    },
                    Some(_) => range_args(ps, i + 1, min, max),
                    None => None,
                }
            } else {
                None
            },
            PieceModel::Bare(p) => if ignorable(p, seq!["min"@, "max"@]) {
                range_args(ps, i + 1, min, max)
            } else {
                None
            },
        }
    }
}

/// `name = "<text>"` inside `index(..)` or `unique(..)`; `None` when malformed.
pub open spec fn name_args(ps: Seq<Seq<char>>, i: int, name: Option<Seq<char>>) -> Option<Option<Seq<char>>>
    decreases ps.len() - i,
{
    if i < 0 || i >= ps.len() {
        Some(name)
    } else if ps[i].len() == 0 {
        name_args(ps, i + 1, name)
    } else {
        match piece_of(ps[i]) {
            PieceModel::Pair(k, v) => if k == "name"@ {
                match literal(v) {
                    Some(LitModel::Str(s)) => name_args(ps, i + 1, Some(s)),
                    Some(_) => name_args(ps, i + 1, name),
                    None => None,
                }
            } else {
                None
            },
            PieceModel::Bare(p) => if ignorable(p, seq!["name"@]) {
                name_args(ps, i + 1, name)
            } else {
                None
            },
        }
    }
}

fn is_ignorable(p: &[char], keys: &Vec<&str>) -> (res: bool)
    ensures
        res == ignorable(p@, keys@.map_values(|k: &str| k@)),
{
    if !is_path_exec(p) {
        return false;
    }
    let s = spaceless_exec(p);
    let ghost ks = keys@.map_values(|k: &str| k@);
    let mut i: usize = 0;
    while i < keys.len()
        invariant
            s@ == without_spaces(p@),
            ks == keys@.map_values(|k: &str| k@),
            i <= keys@.len(),
            forall|j: int| 0 <= j < i ==> ks[j] != s@,
        decreases keys@.len() - i,
    {
        let k = chars_of(keys[i]);
        if chars_eq(&s, &k) {
            proof {
                assert(ks[i as int] == s@);
            }
            return false;
        }
        i = i + 1;
    }
    true
}

fn pk_args_exec(ps: &Vec<Vec<char>>, init: Option<bool>) -> (res: Option<Option<bool>>)
    ensures
        res == pk_args(texts(ps@), 0, init),
{
    let ghost m = texts(ps@);
    let keys: Vec<&str> = vec!["auto_increment"];
    proof {
        assert(keys@.map_values(|k: &str| k@) =~= seq!["auto_increment"@]);
    }
    let mut auto = init;
    let mut i: usize = 0;
    while i < ps.len()
        invariant
            m == texts(ps@),
            keys@.map_values(|k: &str| k@) == seq!["auto_increment"@],
            i <= ps@.len(),
            pk_args(m, 0, init) == pk_args(m, i as int, auto),
        decreases ps@.len() - i,
    {
        let p = &ps[i];
        proof {
            assert(m[i as int] == p@);
        }
        if p.len() > 0 {
            match piece_of_exec(p) {
                Piece::Pair(k, v) => {
                    if key_is(&k, "auto_increment") {
                        match literal_exec(&v) {
                            Some(Lit::Bool(b)) => {
                                auto = Some(b);
                            },
                            Some(_) => {},
                            None => {
                                return None;
                            },
                        }
                    } else {
                        return None;
                    }
                },
                Piece::Bare(b) => {
                    if !is_ignorable(&b, &keys) {
                        return None;
                    }
                },
            }
        }
        i = i + 1;
    }
    Some(auto)
}

fn range_args_exec(ps: &Vec<Vec<char>>, min0: Option<i64>, max0: Option<i64>) -> (res: Option<(Option<i64>, Option<i64>)>)
    ensures
        res == range_args(texts(ps@), 0, min0, max0),
{
    let ghost m = texts(ps@);
    let keys: Vec<&str> = vec!["min", "max"];
    proof {
        assert(keys@.map_values(|k: &str| k@) =~= seq!["min"@, "max"@]);
    }
    let mut min = min0;
    let mut max = max0;
    let mut i: usize = 0;
    while i < ps.len()
        invariant
            m == texts(ps@),
            keys@.map_values(|k: &str| k@) == seq!["min"@, "max"@],
            i <= ps@.len(),
            range_args(m, 0, min0, max0) == range_args(m, i as int, min, max),
        decreases ps@.len() - i,
    {
        let p = &ps[i];
        proof {
            assert(m[i as int] == p@);
        }
        if p.len() > 0 {
            match piece_of_exec(p) {
                Piece::Pair(k, v) => {
                    let is_min = key_is(&k, "min");
                    let is_max = key_is(&k, "max");
                    if is_min || is_max {
                        match literal_exec(&v) {
                            Some(Lit::Int(neg, ds)) => {
                                match int_i64(neg, &ds) {
                                    Some(n) => {
                                        if is_min {
                                            min = Some(n);
                                        } else {
                                            max = Some(n);
                                        }
                                    },
                                    None => {
                                        return None;
                                    },
                                }
                            },
                            Some(_) => {},
                            None => {
                                return None;
                            },
                        }
                    } else {
                        return None;
                    }
                },
                Piece::Bare(b) => {
                    if !is_ignorable(&b, &keys) {
                        return None;
                    }
                },
            }
        }
        i = i + 1;
    }
    Some((min, max))
}

fn name_args_exec(ps: &Vec<Vec<char>>) -> (res: Option<Option<String>>)
    ensures
        match (res, name_args(texts(ps@), 0, None)) {
            (Some(a), Some(b)) => opt_str_view(a) == b,
            (None, None) => true,
            _ => false,
        },
{
    let ghost m = texts(ps@);
    let keys: Vec<&str> = vec!["name"];
    proof {
        assert(keys@.map_values(|k: &str| k@) =~= seq!["name"@]);
    }
    let mut name: Option<String> = None;
    let mut i: usize = 0;
    while i < ps.len()
        invariant
            m == texts(ps@),
            keys@.map_values(|k: &str| k@) == seq!["name"@],
            i <= ps@.len(),
            name_args(m, 0, None) == name_args(m, i as int, opt_str_view(name)),
        decreases ps@.len() - i,
    {
        let p = &ps[i];
        proof {
            assert(m[i as int] == p@);
        }
        if p.len() > 0 {
            match piece_of_exec(p) {
                Piece::Pair(k, v) => {
                    if key_is(&k, "name") {
                        match literal_exec(&v) {
                            Some(Lit::Str(t)) => {
                                name = Some(string_of(&t));
                            },
                            Some(_) => {},
                            None => {
                                return None;
                            },
                        }
                    } else {
                        return None;
                    }
                },
                Piece::Bare(b) => {
                    if !is_ignorable(&b, &keys) {
                        return None;
                    }
                },
            }
        }
        i = i + 1;
    }
    Some(name)
}

// ---------------------------------------------------------------------------
// Relations
// ---------------------------------------------------------------------------

/// The three relation attributes.
#[derive(Clone, Copy, PartialEq, Eq, Structural)]
pub enum RelKind {
    ForeignKey,
    OneToOne,
    ManyToMany,
}

/// The keys a relation attribute reads after its model.
pub open spec fn rel_keys(kind: RelKind) -> Seq<Seq<char>> {
    match kind {
        RelKind::ForeignKey => seq!["on_delete"@, "default"@],
        RelKind::OneToOne => seq!["on_delete"@],
        RelKind::ManyToMany => seq!["through"@],
    }
}

/// What a relation attribute reads after its model: `on_delete = <ident>`
/// (not for many-to-many), `default = <expr>` (foreign keys only) and
/// `through = <path>` (many-to-many only, given as its entity); `None` when
/// malformed.
pub open spec fn rel_args(
    kind: RelKind,
    ps: Seq<Seq<char>>,
    i: int,
    on_delete: Option<Seq<char>>,
    default: Option<Seq<char>>,
    through: Option<Seq<char>>,
) -> Option<(Option<Seq<char>>, Option<Seq<char>>, Option<Seq<char>>)>
    decreases ps.len() - i,
{
    if i < 0 || i >= ps.len() {
        Some((on_delete, default, through))
    } else if ps[i].len() == 0 {
        rel_args(kind, ps, i + 1, on_delete, default, through)
    } else {
        match piece_of(ps[i]) {
            PieceModel::Pair(k, v) => if k == "on_delete"@ && kind != RelKind::ManyToMany {
                if is_ident(v) {
                    rel_args(kind, ps, i + 1, Some(v), default, through)
                } else {
                    None
                }
            } else if k == "default"@ && kind == RelKind::ForeignKey {
                if v.len() > 0 {
                    rel_args(kind, ps, i + 1, on_delete, Some(v), through)
                } else {
                    None
                }
            } else if k == "through"@ && kind == RelKind::ManyToMany {
                if is_path(v) {
                    rel_args(kind, ps, i + 1, on_delete, default, Some(m2m_entity(v)))
                } else {
                    None
                }
            } else {
                None
            },
            PieceModel::Bare(p) => if ignorable(p, rel_keys(kind)) {
                rel_args(kind, ps, i + 1, on_delete, default, through)
            } else {
                None
            },
        }
    }
}

pub open spec fn malformed_text() -> Seq<char> {
    "malformed attribute arguments"@
}

pub open spec fn missing_model_text(kind: RelKind) -> Seq<char> {
    match kind {
        RelKind::ForeignKey => "foreign_key requires a Model type"@,
        RelKind::OneToOne => "one_to_one requires a Model type"@,
        RelKind::ManyToMany => "many_to_many requires a Model type"@,
    }
}

pub open spec fn missing_through_text() -> Seq<char> {
    "many_to_many requires 'through = JoinModel'"@
}

/// A relation as read: the target entity and the settings given with it.
pub struct RelModel {
    pub entity: Seq<char>,
    pub on_delete: Option<Seq<char>>,
    pub default: Option<Seq<char>>,
    pub through: Option<Seq<char>>,
}

/// A relation attribute's arguments: first the related model's path, then
/// the settings.
pub open spec fn relation_of(kind: RelKind, t: Seq<char>) -> Result<RelModel, Seq<char>> {
    let ps = arg_pieces(t);
    if !pieces_well_placed(ps) {
        Err(malformed_text())
    } else if ps.len() == 0 || ps[0].len() == 0 {
        Err(missing_model_text(kind))
    } else {
        match piece_of(ps[0]) {
            PieceModel::Bare(p) => if !is_path(p) {
                Err(malformed_text())
            } else {
                let entity = if kind == RelKind::ManyToMany {
                    m2m_entity(p)
                } else {
                    sibling_entity(p)
                };
                match rel_args(kind, ps, 1, None, None, None) {
                    None => Err(malformed_text()),
                    Some((on_delete, default, through)) => if kind == RelKind::ManyToMany
                        && through is None {
                        Err(missing_through_text())
                    } else {
                        Ok(RelModel { entity, on_delete, default, through })
                    },
                }
            },
            PieceModel::Pair(_, _) => Err(malformed_text()),
        }
    }
}

struct Relation {
    entity: String,
    on_delete: Option<String>,
    default: Option<String>,
    through: Option<String>,
}

impl View for Relation {
    type V = RelModel;

    closed spec fn view(&self) -> RelModel {
        RelModel {
            entity: self.entity@,
            on_delete: opt_str_view(self.on_delete),
            default: opt_str_view(self.default),
            through: opt_str_view(self.through),
        }
    }
}

fn rel_keys_exec(kind: RelKind) -> (res: Vec<&'static str>)
    ensures
        res@.map_values(|k: &str| k@) == rel_keys(kind),
{
    let v: Vec<&'static str> = match kind {
        RelKind::ForeignKey => vec!["on_delete", "default"],
        RelKind::OneToOne => vec!["on_delete"],
        RelKind::ManyToMany => vec!["through"],
    };
    proof {
        assert(v@.map_values(|k: &str| k@) =~= rel_keys(kind));
    }
    v
}

fn rel_args_exec(kind: RelKind, ps: &Vec<Vec<char>>) -> (res: Option<(Option<String>, Option<String>, Option<String>)>)
    requires
        ps@.len() >= 1,
    ensures
        match (res, rel_args(kind, texts(ps@), 1, None, None, None)) {
            (Some((a, b, c)), Some((x, y, z))) => opt_str_view(a) == x && opt_str_view(b) == y
                && opt_str_view(c) == z,
            (None, None) => true,
            _ => false,
        },
{
    let ghost m = texts(ps@);
    let keys = rel_keys_exec(kind);
    let mut on_delete: Option<String> = None;
    let mut default: Option<String> = None;
    let mut through: Option<String> = None;
    let mut i: usize = 1;
    while i < ps.len()
        invariant
            m == texts(ps@),
            keys@.map_values(|k: &str| k@) == rel_keys(kind),
            1 <= i <= ps@.len(),
            rel_args(kind, m, 1, None, None, None) == rel_args(
                kind,
                m,
                i as int,
                opt_str_view(on_delete),
                opt_str_view(default),
                opt_str_view(through),
            ),
        decreases ps@.len() - i,
    {
        let p = &ps[i];
        proof {
            assert(m[i as int] == p@);
        }
        if p.len() > 0 {
            match piece_of_exec(p) {
                Piece::Pair(k, v) => {
                    if key_is(&k, "on_delete") && kind != RelKind::ManyToMany {
                        if is_ident_exec(&v) {
                            on_delete = Some(string_of(&v));
                        } else {
                            return None;
                        }
                    } else if key_is(&k, "default") && kind == RelKind::ForeignKey {
                        if v.len() > 0 {
                            default = Some(string_of(&v));
                        } else {
                            return None;
                        }
                    } else if key_is(&k, "through") && kind == RelKind::ManyToMany {
                        if is_path_exec(&v) {
                            through = Some(m2m_entity_exec(&v));
                        } else {
                            return None;
                        }
                    } else {
                        return None;
                    }
                },
                Piece::Bare(b) => {
                    if !is_ignorable(&b, &keys) {
                        return None;
                    }
                },
            }
        }
        i = i + 1;
    }
    Some((on_delete, default, through))
}

pub(crate) fn malformed() -> (res: String)
    ensures
        res@ == malformed_text(),
{
    String::from_str("malformed attribute arguments")
}

fn relation_exec(kind: RelKind, t: &str) -> (res: Result<Relation, String>)
    ensures
        match (res, relation_of(kind, t@)) {
            (Ok(r), Ok(m)) => r@ == m,
            (Err(e), Err(m)) => e@ == m,
            _ => false,
        },
{
    let tc = chars_of(t);
    let ps = arg_pieces_exec(&tc);
    proof {
        assert(texts(ps@) =~= arg_pieces(t@));
    }
    if !pieces_well_placed_exec(&ps) {
        return Err(malformed());
    }
    if ps.len() == 0 || ps[0].len() == 0 {
        let msg = match kind {
            RelKind::ForeignKey => String::from_str("foreign_key requires a Model type"),
            RelKind::OneToOne => String::from_str("one_to_one requires a Model type"),
            RelKind::ManyToMany => String::from_str("many_to_many requires a Model type"),
        };
        return Err(msg);
    }
    proof {
        assert(texts(ps@)[0] == ps@[0]@);
    }
    match piece_of_exec(&ps[0]) {
        Piece::Bare(p) => {
            if !is_path_exec(&p) {
                return Err(malformed());
            }
            let entity = if kind == RelKind::ManyToMany {
                m2m_entity_exec(&p)
            } else {
                sibling_entity_exec(&p)
            };
            match rel_args_exec(kind, &ps) {
                None => Err(malformed()),
                Some((on_delete, default, through)) => {
                    if kind == RelKind::ManyToMany && through.is_none() {
                        Err(String::from_str("many_to_many requires 'through = JoinModel'"))
                    } else {
                        Ok(Relation { entity, on_delete, default, through })
                    }
                },
            }
        },
        Piece::Pair(_, _) => Err(malformed()),
    }
}

// ---------------------------------------------------------------------------
// Field attributes
// ---------------------------------------------------------------------------

/// A bare attribute (`#[name]`) sets its flag.
pub open spec fn bare_flag(cfg: FieldConfigModel, n: Seq<char>) -> FieldConfigModel {
    if n == "primary_key"@ {
        FieldConfigModel { is_primary_key: true, ..cfg }
    } else if n == "index"@ {
        FieldConfigModel { index: Some(None), ..cfg }
    } else if n == "unique"@ {
        FieldConfigModel { unique: Some(None), ..cfg }
    } else if n == "auto_now"@ {
        FieldConfigModel { auto_now: true, ..cfg }
    } else if n == "auto_now_add"@ {
        FieldConfigModel { auto_now_add: true, ..cfg }
    } else if n == "soft_delete"@ {
        FieldConfigModel { soft_delete: true, ..cfg }
    } else if n == "skip_serializing"@ {
        FieldConfigModel { skip_serializing: true, ..cfg }
    } else if n == "skip_deserializing"@ {
        FieldConfigModel { skip_deserializing: true, ..cfg }
    } else {
        cfg
    }
}

/// A length given as `#[max_length(<int>)]`: `Ok(None)` for another
/// literal, an error unless the whole argument is one literal and an integer
/// fits a `usize`.
pub open spec fn length_arg(t: Seq<char>) -> Result<Option<usize>, Seq<char>> {
    match literal(trim(t)) {
        Some(LitModel::Int(neg, x)) => if !neg && x <= usize::MAX {
            Ok(Some(x as usize))
        } else {
            Err(malformed_text())
        },
        Some(_) => Ok(None),
        None => Err(malformed_text()),
    }
}

/// An attribute with an argument list, applied to the configuration.
pub open spec fn list_attr(cfg: FieldConfigModel, n: Seq<char>, t: Seq<char>) -> Result<FieldConfigModel, Seq<char>> {
    let ps = arg_pieces(t);
    if n == "primary_key"@ {
        if !pieces_well_placed(ps) {
            Err(malformed_text())
        } else {
            match pk_args(ps, 0, cfg.auto_increment) {
                Some(a) => Ok(FieldConfigModel { is_primary_key: true, auto_increment: a, ..cfg }),
                None => Err(malformed_text()),
            }
        }
    } else if n == "foreign_key"@ {
        match relation_of(RelKind::ForeignKey, t) {
            Ok(r) => Ok(
                FieldConfigModel {
                    foreign_key: Some(
                        ForeignKeyModel { entity: r.entity, on_delete: r.on_delete, default: r.default },
                    ),
                    ..cfg
                },
            ),
            Err(e) => Err(e),
        }
    } else if n == "one_to_one"@ {
        match relation_of(RelKind::OneToOne, t) {
            Ok(r) => Ok(
                FieldConfigModel {
                    one_to_one: Some(OneToOneModel { entity: r.entity, on_delete: r.on_delete }),
                    ..cfg
                },
            ),
            Err(e) => Err(e),
        }
    } else if n == "many_to_many"@ {
        match relation_of(RelKind::ManyToMany, t) {
            Ok(r) => Ok(
                FieldConfigModel {
                    many_to_many: Some(ManyToManyModel { entity: r.entity, through: r.through.unwrap() }),
                    ..cfg
                },
            ),
            Err(e) => Err(e),
        }
    } else if n == "max_length"@ {
        match length_arg(t) {
            Ok(Some(x)) => Ok(FieldConfigModel { max_length: Some(x), ..cfg }),
            Ok(None) => Ok(cfg),
            Err(e) => Err(e),
        }
    } else if n == "min_length"@ {
        match length_arg(t) {
            Ok(Some(x)) => Ok(FieldConfigModel { min_length: Some(x), ..cfg }),
            Ok(None) => Ok(cfg),
            Err(e) => Err(e),
        }
    } else if n == "range"@ {
        if !pieces_well_placed(ps) {
            Err(malformed_text())
        } else {
            match range_args(ps, 0, cfg.range_min, cfg.range_max) {
                Some((lo, hi)) => Ok(FieldConfigModel { range_min: lo, range_max: hi, ..cfg }),
                None => Err(malformed_text()),
            }
        }
    } else if n == "index"@ || n == "unique"@ {
        if !pieces_well_placed(ps) {
            Err(malformed_text())
        } else {
            match name_args(ps, 0, None) {
                Some(name) => if n == "index"@ {
                    Ok(FieldConfigModel { index: Some(name), ..cfg })
                } else {
                    Ok(FieldConfigModel { unique: Some(name), ..cfg })
                },
                None => Err(malformed_text()),
            }
        }
    } else {
        Ok(cfg)
    }
}

/// One attribute applied to a field's configuration: a bare attribute sets
/// its flag, a list is read by its grammar, and `name = value` attributes and
/// those of other tools change nothing.
pub open spec fn field_attr_step(cfg: FieldConfigModel, a: AttrModel) -> Result<FieldConfigModel, Seq<char>> {
    match a.name {
        None => Ok(cfg),
        Some(n) => match a.list_tokens {
            Some(t) => list_attr(cfg, n, t),
            None => if has_char(a.tokens, '=') {
                Ok(cfg)
            } else {
                Ok(bare_flag(cfg, n))
            },
        },
    }
}

/// The configuration read from the first `n` attributes, or the first error.
pub open spec fn field_config_from(attrs: Seq<AttrModel>, n: int) -> Result<FieldConfigModel, Seq<char>>
    decreases n,
{
    if n <= 0 {
        Ok(empty_field_config())
    } else {
        match field_config_from(attrs, n - 1) {
            Ok(c) => field_attr_step(c, attrs[n - 1]),
            Err(e) => Err(e),
        }
    }
}

fn bare_flag_exec(cfg: FieldConfig, a: &AttrInfo) -> (res: FieldConfig)
    requires
        a@.name is Some,
    ensures
        res@ == bare_flag(cfg@, a@.name.unwrap()),
{
    let mut cfg = cfg;
    if attr_name_is(a, "primary_key") {
        cfg.is_primary_key = true;
    } else if attr_name_is(a, "index") {
        cfg.index = Some(None);
    } else if attr_name_is(a, "unique") {
        cfg.unique = Some(None);
    } else if attr_name_is(a, "auto_now") {
        cfg.auto_now = true;
    } else if attr_name_is(a, "auto_now_add") {
        cfg.auto_now_add = true;
    } else if attr_name_is(a, "soft_delete") {
        cfg.soft_delete = true;
    } else if attr_name_is(a, "skip_serializing") {
        cfg.skip_serializing = true;
    } else if attr_name_is(a, "skip_deserializing") {
        cfg.skip_deserializing = true;
    }
    cfg
}

fn length_arg_exec(t: &str) -> (res: Result<Option<usize>, String>)
    ensures
        match (res, length_arg(t@)) {
            (Ok(x), Ok(y)) => x == y,
            (Err(e), Err(m)) => e@ == m,
            _ => false,
        },
{
    let tc = chars_of(t);
    let v = trim_chars(&tc);
    match literal_exec(&v) {
        Some(Lit::Int(neg, ds)) => match int_usize(neg, &ds) {
            Some(x) => Ok(Some(x)),
            None => Err(malformed()),
        },
        Some(_) => Ok(None),
        None => Err(malformed()),
    }
}

fn list_attr_exec(cfg: FieldConfig, a: &AttrInfo, t: &str) -> (res: Result<FieldConfig, String>)
    requires
        a@.name is Some,
    ensures
        match (res, list_attr(cfg@, a@.name.unwrap(), t@)) {
            (Ok(c), Ok(m)) => c@ == m,
            (Err(e), Err(m)) => e@ == m,
            _ => false,
        },
{
    let mut cfg = cfg;
    let tc = chars_of(t);
    let ps = arg_pieces_exec(&tc);
    proof {
        assert(texts(ps@) =~= arg_pieces(t@));
    }
    if attr_name_is(a, "primary_key") {
        if !pieces_well_placed_exec(&ps) {
            return Err(malformed());
        }
        match pk_args_exec(&ps, cfg.auto_increment) {
            Some(x) => {
                cfg.is_primary_key = true;
                cfg.auto_increment = x;
                Ok(cfg)
            },
            None => Err(malformed()),
        }
    } else if attr_name_is(a, "foreign_key") {
        match relation_exec(RelKind::ForeignKey, t) {
            Ok(r) => {
                cfg.foreign_key = Some(ForeignKeyConfig { entity: r.entity, on_delete: r.on_delete, default: r.default });
                Ok(cfg)
            },
            Err(e) => Err(e),
        }
    } else if attr_name_is(a, "one_to_one") {
        match relation_exec(RelKind::OneToOne, t) {
            Ok(r) => {
                cfg.one_to_one = Some(OneToOneConfig { entity: r.entity, on_delete: r.on_delete });
                Ok(cfg)
            },
            Err(e) => Err(e),
        }
    } else if attr_name_is(a, "many_to_many") {
        match relation_exec(RelKind::ManyToMany, t) {
            Ok(r) => {
                match r.through {
                    Some(th) => {
                        cfg.many_to_many = Some(ManyToManyConfig { entity: r.entity, through: th });
                        Ok(cfg)
                    },
                    None => Err(String::from_str("many_to_many requires 'through = JoinModel'")),
                }
            },
            Err(e) => Err(e),
        }
    } else if attr_name_is(a, "max_length") {
        match length_arg_exec(t) {
            Ok(Some(x)) => {
                cfg.max_length = Some(x);
                Ok(cfg)
            },
            Ok(None) => Ok(cfg),
            Err(e) => Err(e),
        }
    } else if attr_name_is(a, "min_length") {
        match length_arg_exec(t) {
            Ok(Some(x)) => {
                cfg.min_length = Some(x);
                Ok(cfg)
            },
            Ok(None) => Ok(cfg),
            Err(e) => Err(e),
        }
    } else if attr_name_is(a, "range") {
        if !pieces_well_placed_exec(&ps) {
            return Err(malformed());
        }
        match range_args_exec(&ps, cfg.range_min, cfg.range_max) {
            Some((lo, hi)) => {
                cfg.range_min = lo;
                cfg.range_max = hi;
                Ok(cfg)
            },
            None => Err(malformed()),
        }
    } else if attr_name_is(a, "index") || attr_name_is(a, "unique") {
        if !pieces_well_placed_exec(&ps) {
            return Err(malformed());
        }
        match name_args_exec(&ps) {
            Some(name) => {
                if attr_name_is(a, "index") {
                    cfg.index = Some(name);
                } else {
                    cfg.unique = Some(name);
                }
                Ok(cfg)
            },
            None => Err(malformed()),
        }
    } else {
        Ok(cfg)
    }
}

fn field_attr_step_exec(cfg: FieldConfig, a: &AttrInfo) -> (res: Result<FieldConfig, String>)
    ensures
        match (res, field_attr_step(cfg@, a@)) {
            (Ok(c), Ok(m)) => c@ == m,
            (Err(e), Err(m)) => e@ == m,
            _ => false,
        },
{
    if a.name.is_none() {
        return Ok(cfg);
    }
    match &a.list_tokens {
        Some(t) => list_attr_exec(cfg, a, t.as_str()),
        None => {
            let tc = chars_of(a.tokens.as_str());
            if crate::text::contains_char(&tc, '=') {
                Ok(cfg)
            } else {
                Ok(bare_flag_exec(cfg, a))
            }
        },
    }
}

proof fn lemma_field_config_error_stays(attrs: Seq<AttrModel>, k: int, n: int)
    requires
        0 <= k <= n,
        field_config_from(attrs, k) is Err,
    ensures
        field_config_from(attrs, n) == field_config_from(attrs, k),
    decreases n - k,
{
    if n > k {
        lemma_field_config_error_stays(attrs, k, n - 1);
    }
}

/// Parse field attributes to extract configuration
pub fn parse_field_attributes(attrs: &[AttrInfo]) -> (res: Result<FieldConfig, String>)
    ensures
        match (res, field_config_from(crate::parser::attr_views(attrs@), attrs@.len() as int)) {
            (Ok(c), Ok(m)) => c@ == m,
            (Err(e), Err(m)) => e@ == m,
            _ => false,
        },
{
    let ghost av = crate::parser::attr_views(attrs@);
    let mut cfg = FieldConfig::default();
    let mut i: usize = 0;
    while i < attrs.len()
        invariant
            av == crate::parser::attr_views(attrs@),
            av.len() == attrs@.len(),
            i <= attrs@.len(),
            field_config_from(av, i as int) == Ok::<FieldConfigModel, Seq<char>>(cfg@),
        decreases attrs@.len() - i,
    {
        proof {
            assert(av[i as int] == attrs@[i as int]@);
        }
        match field_attr_step_exec(cfg, &attrs[i]) {
            Ok(c) => {
                cfg = c;
            },
            Err(e) => {
                proof {
                    lemma_field_config_error_stays(av, i + 1, av.len() as int);
                }
                return Err(e);
            },
        }
        i = i + 1;
    }
    Ok(cfg)
}

// ---------------------------------------------------------------------------
// Model settings
// ---------------------------------------------------------------------------

/// Configuration for the `#[ormada_model]` attribute
#[derive(Debug, Clone)]
pub struct ModelConfig {
    pub table_name: String,
    pub ordering: Option<String>,
    /// If true, user will provide custom LifecycleHooks impl (don't auto-generate)
    /// Default: false (auto-generate empty impl)
    pub hooks: bool,
}

pub struct ModelConfigModel {
    pub table_name: Seq<char>,
    pub ordering: Option<Seq<char>>,
    pub hooks: bool,
}

impl View for ModelConfig {
    type V = ModelConfigModel;

    open spec fn view(&self) -> ModelConfigModel {
        ModelConfigModel { table_name: self.table_name@, ordering: opt_str_view(self.ordering), hooks: self.hooks }
    }
}

pub open spec fn unknown_attribute_text(k: Seq<char>) -> Seq<char> {
    "Unknown attribute: "@ + k
}

/// The settings read from the pieces from `i` on: `table = "<name>"`,
/// `ordering = "<field>"` and `hooks = <bool>`, each `key = literal`; a key
/// outside these is refused by name, anything else that is not `key =
/// literal` as malformed.
pub open spec fn model_args(
    ps: Seq<Seq<char>>,
    i: int,
    table: Option<Seq<char>>,
    ordering: Option<Seq<char>>,
    hooks: bool,
) -> Result<(Option<Seq<char>>, Option<Seq<char>>, bool), Seq<char>>
    decreases ps.len() - i,
{
    if i < 0 || i >= ps.len() {
        Ok((table, ordering, hooks))
    } else if ps[i].len() == 0 {
        if i == ps.len() - 1 {
            Ok((table, ordering, hooks))
        } else {
            Err(malformed_text())
        }
    } else {
        match piece_of(ps[i]) {
            PieceModel::Pair(k, v) => if !is_ident(k) {
                Err(malformed_text())
            } else if k == "table"@ || k == "ordering"@ || k == "hooks"@ {
                match literal(v) {
                    None => Err(malformed_text()),
                    Some(LitModel::Str(x)) => if k == "table"@ {
                        model_args(ps, i + 1, Some(x), ordering, hooks)
                    } else if k == "ordering"@ {
                        model_args(ps, i + 1, table, Some(x), hooks)
                    } else {
                        model_args(ps, i + 1, table, ordering, hooks)
                    },
                    Some(LitModel::Bool(b)) => if k == "hooks"@ {
                        model_args(ps, i + 1, table, ordering, b)
                    } else {
                        model_args(ps, i + 1, table, ordering, hooks)
                    },
                    Some(_) => model_args(ps, i + 1, table, ordering, hooks),
                }
            } else {
                Err(unknown_attribute_text(k))
            },
            PieceModel::Bare(_) => Err(malformed_text()),
        }
    }
}

pub open spec fn missing_table_text() -> Seq<char> {
    "Missing required 'table' attribute"@
}

/// The model settings of `#[ormada_model(..)]`: a table is required.
pub open spec fn model_config_of(t: Seq<char>) -> Result<ModelConfigModel, Seq<char>> {
    match model_args(arg_pieces(t), 0, None, None, false) {
        Err(e) => Err(e),
        Ok((table, ordering, hooks)) => match table {
            None => Err(missing_table_text()),
            Some(name) => Ok(ModelConfigModel { table_name: name, ordering, hooks }),
        },
    }
}

proof fn lemma_model_args_error_stays(ps: Seq<Seq<char>>, i: int, t: Option<Seq<char>>, o: Option<Seq<char>>, h: bool)
    requires
        0 <= i < ps.len(),
        ps[i].len() == 0,
        i != ps.len() - 1,
    ensures
        model_args(ps, i, t, o, h) == Err::<(Option<Seq<char>>, Option<Seq<char>>, bool), Seq<char>>(malformed_text()),
{
}

pub(crate) fn unknown_attribute(k: &[char]) -> (res: String)
    ensures
        res@ == unknown_attribute_text(k@),
{
    let mut s = String::new();
    push_str(&mut s, "Unknown attribute: ");
    push_chars(&mut s, k);
    s
}

/// Parse the arguments of `#[ormada_model(..)]`
pub fn parse_model_config(args: &str) -> (res: Result<ModelConfig, String>)
    ensures
        match (res, model_config_of(args@)) {
            (Ok(c), Ok(m)) => c@ == m,
            (Err(e), Err(m)) => e@ == m,
            _ => false,
        },
{
    let tc = chars_of(args);
    let ps = arg_pieces_exec(&tc);
    let ghost m = texts(ps@);
    proof {
        assert(m =~= arg_pieces(args@));
    }
    let mut table: Option<String> = None;
    let mut ordering: Option<String> = None;
    let mut hooks = false;
    let mut i: usize = 0;
    while i < ps.len()
        invariant
            m == texts(ps@),
            m == arg_pieces(args@),
            i <= ps@.len(),
            model_args(m, 0, None, None, false) == model_args(
                m,
                i as int,
                opt_str_view(table),
                opt_str_view(ordering),
                hooks,
            ),
        decreases ps@.len() - i,
    {
        let p = &ps[i];
        proof {
            assert(m[i as int] == p@);
        }
        if p.len() == 0 {
            if i + 1 == ps.len() {
                i = i + 1;
                continue;
            }
            proof {
                lemma_model_args_error_stays(m, i as int, opt_str_view(table), opt_str_view(ordering), hooks);
            }
            return Err(malformed());
        }
        match piece_of_exec(p) {
            Piece::Pair(k, v) => {
                if !is_ident_exec(&k) {
                    return Err(malformed());
                }
                let is_table = key_is(&k, "table");
                let is_ordering = key_is(&k, "ordering");
                let is_hooks = key_is(&k, "hooks");
                if is_table || is_ordering || is_hooks {
                    match literal_exec(&v) {
                        None => {
                            return Err(malformed());
                        },
                        Some(Lit::Str(x)) => {
                            if is_table {
                                table = Some(string_of(&x));
                            } else if is_ordering {
                                ordering = Some(string_of(&x));
                            }
                        },
                        Some(Lit::Bool(b)) => {
                            if is_hooks {
                                hooks = b;
                            }
                        },
                        Some(_) => {},
                    }
                } else {
                    return Err(unknown_attribute(&k));
                }
            },
            Piece::Bare(_) => {
                return Err(malformed());
            },
        }
        i = i + 1;
    }
    match table {
        None => Err(String::from_str("Missing required 'table' attribute")),
        Some(name) => Ok(ModelConfig { table_name: name, ordering, hooks }),
    }
}

// ---------------------------------------------------------------------------
// Model checks
// ---------------------------------------------------------------------------

/// A field of a model with what its attributes say.
#[derive(Debug)]
pub struct ModelField {
    pub name: String,
    pub ty: String,
    pub config: FieldConfig,
}

pub struct ModelFieldModel {
    pub name: Seq<char>,
    pub ty: Seq<char>,
    pub config: FieldConfigModel,
}

impl View for ModelField {
    type V = ModelFieldModel;

    open spec fn view(&self) -> ModelFieldModel {
        ModelFieldModel { name: self.name@, ty: self.ty@, config: self.config@ }
    }
}

/// What `#[ormada_model]` gathers from a model's fields for the code it
/// generates: every field with its configuration, the fields that stay
/// database columns (all but the many-to-many ones), the primary key fields,
/// the foreign keys (a one-to-one field gives one too), the one-to-one and
/// many-to-many fields, and the soft-delete field.
#[derive(Debug)]
pub struct ModelPlan {
    pub fields: Vec<ModelField>,
    pub columns: Vec<String>,
    pub primary_keys: Vec<String>,
    pub foreign_keys: Vec<(String, ForeignKeyConfig)>,
    pub one_to_one: Vec<(String, OneToOneConfig)>,
    pub many_to_many: Vec<(String, ManyToManyConfig)>,
    pub soft_delete_field: Option<String>,
}

pub struct PlanModel {
    pub fields: Seq<ModelFieldModel>,
    pub primary_keys: Seq<Seq<char>>,
    pub foreign_keys: Seq<(Seq<char>, ForeignKeyModel)>,
    pub one_to_one: Seq<(Seq<char>, OneToOneModel)>,
    pub many_to_many: Seq<(Seq<char>, ManyToManyModel)>,
    pub soft_delete_field: Option<Seq<char>>,
}

pub struct ModelPlanModel {
    pub plan: PlanModel,
    pub columns: Seq<Seq<char>>,
}

pub open spec fn model_fields_view(v: Seq<ModelField>) -> Seq<ModelFieldModel> {
    v.map_values(|f: ModelField| f@)
}

pub open spec fn fk_pairs_view(v: Seq<(String, ForeignKeyConfig)>) -> Seq<(Seq<char>, ForeignKeyModel)> {
    v.map_values(|p: (String, ForeignKeyConfig)| (p.0@, p.1@))
}

pub open spec fn o2o_pairs_view(v: Seq<(String, OneToOneConfig)>) -> Seq<(Seq<char>, OneToOneModel)> {
    v.map_values(|p: (String, OneToOneConfig)| (p.0@, p.1@))
}

pub open spec fn m2m_pairs_view(v: Seq<(String, ManyToManyConfig)>) -> Seq<(Seq<char>, ManyToManyModel)> {
    v.map_values(|p: (String, ManyToManyConfig)| (p.0@, p.1@))
}

impl View for ModelPlan {
    type V = ModelPlanModel;

    open spec fn view(&self) -> ModelPlanModel {
        ModelPlanModel {
            plan: PlanModel {
                fields: model_fields_view(self.fields@),
                primary_keys: crate::schema::strs_view(self.primary_keys@),
                foreign_keys: fk_pairs_view(self.foreign_keys@),
                one_to_one: o2o_pairs_view(self.one_to_one@),
                many_to_many: m2m_pairs_view(self.many_to_many@),
                soft_delete_field: opt_str_view(self.soft_delete_field),
            },
            columns: crate::schema::strs_view(self.columns@),
        }
    }
}

pub open spec fn empty_plan() -> PlanModel {
    PlanModel {
        fields: Seq::empty(),
        primary_keys: Seq::empty(),
        foreign_keys: Seq::empty(),
        one_to_one: Seq::empty(),
        many_to_many: Seq::empty(),
        soft_delete_field: None,
    }
}

pub open spec fn unnamed_field_text() -> Seq<char> {
    "Field must have a name"@
}

pub open spec fn two_soft_delete_text() -> Seq<char> {
    "Only one field can be marked with #[soft_delete]"@
}

pub open spec fn no_primary_key_text() -> Seq<char> {
    "Model must have at least one field marked with #[primary_key]"@
}

pub open spec fn set_null_text() -> Seq<char> {
    "on_delete = SetNull requires field type to be Option<T>"@
}

/// The foreign keys a field gives: its own, then the one its one-to-one
/// relation implies (same entity and `on_delete`, no default).
pub open spec fn field_foreign_keys(n: Seq<char>, c: FieldConfigModel) -> Seq<(Seq<char>, ForeignKeyModel)> {
    let own = match c.foreign_key {
        Some(fk) => seq![(n, fk)],
        None => Seq::empty(),
    };
    let implied = match c.one_to_one {
        Some(o) => seq![(n, ForeignKeyModel { entity: o.entity, on_delete: o.on_delete, default: None })],
        None => Seq::empty(),
    };
    own + implied
}

/// One field added to the plan: its attributes must parse, it must have a
/// name, and at most one field of the model may be the soft-delete field.
pub open spec fn plan_step(p: PlanModel, f: crate::parser::FieldModel) -> Result<PlanModel, Seq<char>> {
    match field_config_from(f.attrs, f.attrs.len() as int) {
        Err(e) => Err(e),
        Ok(c) => match f.name {
            None => Err(unnamed_field_text()),
            Some(n) => if c.soft_delete && p.soft_delete_field is Some {
                Err(two_soft_delete_text())
            } else {
                Ok(
                    PlanModel {
                        fields: p.fields.push(ModelFieldModel { name: n, ty: f.ty, config: c }),
                        primary_keys: if c.is_primary_key {
                            p.primary_keys.push(n)
                        } else {
                            p.primary_keys
                        },
                        foreign_keys: p.foreign_keys + field_foreign_keys(n, c),
                        one_to_one: match c.one_to_one {
                            Some(o) => p.one_to_one.push((n, o)),
                            None => p.one_to_one,
                        },
                        many_to_many: match c.many_to_many {
                            Some(m) => p.many_to_many.push((n, m)),
                            None => p.many_to_many,
                        },
                        soft_delete_field: if c.soft_delete {
                            Some(n)
                        } else {
                            p.soft_delete_field
                        },
                    },
                )
            },
        },
    }
}

/// The plan of the first `n` fields, or the first error.
pub open spec fn plan_from(fields: Seq<crate::parser::FieldModel>, n: int) -> Result<PlanModel, Seq<char>>
    decreases n,
{
    if n <= 0 {
        Ok(empty_plan())
    } else {
        match plan_from(fields, n - 1) {
            Ok(p) => plan_step(p, fields[n - 1]),
            Err(e) => Err(e),
        }
    }
}

/// A field whose own foreign key is `on_delete = SetNull` while its type is
/// not an `Option`.
pub open spec fn set_null_unguarded(f: ModelFieldModel) -> bool {
    match f.config.foreign_key {
        Some(fk) => fk.on_delete == Some("SetNull"@) && !crate::text::has_sub(f.ty, "Option"@),
        None => false,
    }
}

pub open spec fn any_set_null_unguarded(fs: Seq<ModelFieldModel>, n: int) -> bool
    decreases n,
{
    n > 0 && (any_set_null_unguarded(fs, n - 1) || set_null_unguarded(fs[n - 1]))
}

/// The names of the fields that stay columns: those not among `drop`.
pub open spec fn kept_columns(fs: Seq<ModelFieldModel>, drop: Seq<Seq<char>>, n: int) -> Seq<Seq<char>>
    decreases n,
{
    if n <= 0 {
        Seq::empty()
    } else {
        let r = kept_columns(fs, drop, n - 1);
        if drop.contains(fs[n - 1].name) {
            r
        } else {
            r.push(fs[n - 1].name)
        }
    }
}

pub open spec fn m2m_field_names(p: PlanModel) -> Seq<Seq<char>> {
    p.many_to_many.map_values(|x: (Seq<char>, ManyToManyModel)| x.0)
}

/// The checks of a model definition, in order: every field's attributes
/// parse and every field is named, at most one soft-delete field, at least
/// one primary key, and `on_delete = SetNull` only on `Option` fields.
pub open spec fn model_plan(fields: Seq<crate::parser::FieldModel>) -> Result<ModelPlanModel, Seq<char>> {
    match plan_from(fields, fields.len() as int) {
        Err(e) => Err(e),
        Ok(p) => if p.primary_keys.len() == 0 {
            Err(no_primary_key_text())
        } else if any_set_null_unguarded(p.fields, p.fields.len() as int) {
            Err(set_null_text())
        } else {
            Ok(ModelPlanModel { plan: p, columns: kept_columns(p.fields, m2m_field_names(p), p.fields.len() as int) })
        },
    }
}

proof fn lemma_plan_error_stays(fields: Seq<crate::parser::FieldModel>, k: int, n: int)
    requires
        0 <= k <= n,
        plan_from(fields, k) is Err,
    ensures
        plan_from(fields, n) == plan_from(fields, k),
    decreases n - k,
{
    if n > k {
        lemma_plan_error_stays(fields, k, n - 1);
    }
}

proof fn lemma_set_null_found_stays(fs: Seq<ModelFieldModel>, k: int, n: int)
    requires
        0 <= k <= n,
        any_set_null_unguarded(fs, k),
    ensures
        any_set_null_unguarded(fs, n),
    decreases n - k,
{
    if n > k {
        lemma_set_null_found_stays(fs, k, n - 1);
    }
}

fn any_set_null_unguarded_exec(fs: &Vec<ModelField>) -> (res: bool)
    ensures
        res == any_set_null_unguarded(model_fields_view(fs@), fs@.len() as int),
{
    let ghost v = model_fields_view(fs@);
    let opt = chars_of("Option");
    let mut i: usize = 0;
    while i < fs.len()
        invariant
            v == model_fields_view(fs@),
            opt@ == "Option"@,
            i <= fs@.len(),
            !any_set_null_unguarded(v, i as int),
        decreases fs@.len() - i,
    {
        proof {
            assert(v[i as int] == fs@[i as int]@);
        }
        let f = &fs[i];
        match &f.config.foreign_key {
            Some(fk) => {
                let is_set_null = match &fk.on_delete {
                    Some(od) => str_eq(od.as_str(), "SetNull"),
                    None => false,
                };
                if is_set_null {
                    let ty = chars_of(f.ty.as_str());
                    if !crate::text::contains(&ty, &opt) {
                        proof {
                            assert(set_null_unguarded(v[i as int]));
                            lemma_set_null_found_stays(v, i + 1, v.len() as int);
                        }
                        return true;
                    }
                }
            },
            None => {},
        }
        i = i + 1;
    }
    false
}

fn kept_columns_exec(fs: &Vec<ModelField>, m2m: &Vec<(String, ManyToManyConfig)>) -> (res: Vec<String>)
    ensures
        crate::schema::strs_view(res@) == kept_columns(
            model_fields_view(fs@),
            m2m_pairs_view(m2m@).map_values(|x: (Seq<char>, ManyToManyModel)| x.0),
            fs@.len() as int,
        ),
{
    let ghost v = model_fields_view(fs@);
    let ghost drop = m2m_pairs_view(m2m@).map_values(|x: (Seq<char>, ManyToManyModel)| x.0);
    let mut res: Vec<String> = Vec::new();
    let mut i: usize = 0;
    while i < fs.len()
        invariant
            v == model_fields_view(fs@),
            drop == m2m_pairs_view(m2m@).map_values(|x: (Seq<char>, ManyToManyModel)| x.0),
            i <= fs@.len(),
            crate::schema::strs_view(res@) == kept_columns(v, drop, i as int),
        decreases fs@.len() - i,
    {
        proof {
            assert(v[i as int] == fs@[i as int]@);
        }
        let name = &fs[i].name;
        let mut found = false;
        let mut j: usize = 0;
        while j < m2m.len()
            invariant
                drop == m2m_pairs_view(m2m@).map_values(|x: (Seq<char>, ManyToManyModel)| x.0),
                j <= m2m@.len(),
                found <==> exists|k: int| 0 <= k < j && drop[k] == name@,
            decreases m2m@.len() - j,
        {
            proof {
                assert(drop[j as int] == m2m@[j as int].0@);
            }
            if str_eq(m2m[j].0.as_str(), name.as_str()) {
                found = true;
            }
            j = j + 1;
        }
        proof {
            if found {
                let k = choose|k: int| 0 <= k < m2m@.len() && drop[k] == name@;
                assert(drop.contains(name@));
            } else {
                assert(!drop.contains(name@));
            }
        }
        if !found {
            let ghost r0 = res@;
            res.push(name.clone());
            proof {
                assert(crate::schema::strs_view(res@) =~= crate::schema::strs_view(r0).push(name@));
            }
        }
        i = i + 1;
    }
    res
}

/// The checks `#[ormada_model]` makes of a model's fields, and what it
/// gathers from them for the code it generates.
pub fn plan_model(fields: &[crate::parser::FieldDecl]) -> (res: Result<ModelPlan, String>)
    ensures
        match (res, model_plan(crate::parser::field_views(fields@))) {
            (Ok(p), Ok(m)) => p@ == m,
            (Err(e), Err(m)) => e@ == m,
            _ => false,
        },
{
    let ghost fv = crate::parser::field_views(fields@);
    let mut out: Vec<ModelField> = Vec::new();
    let mut pks: Vec<String> = Vec::new();
    let mut fks: Vec<(String, ForeignKeyConfig)> = Vec::new();
    let mut o2os: Vec<(String, OneToOneConfig)> = Vec::new();
    let mut m2ms: Vec<(String, ManyToManyConfig)> = Vec::new();
    let mut soft: Option<String> = None;
    proof {
        assert(model_fields_view(out@) =~= Seq::empty());
        assert(crate::schema::strs_view(pks@) =~= Seq::empty());
        assert(fk_pairs_view(fks@) =~= Seq::empty());
        assert(o2o_pairs_view(o2os@) =~= Seq::empty());
        assert(m2m_pairs_view(m2ms@) =~= Seq::empty());
    }
    let mut i: usize = 0;
    while i < fields.len()
        invariant
            fv == crate::parser::field_views(fields@),
            fv.len() == fields@.len(),
            i <= fields@.len(),
            plan_from(fv, i as int) == Ok::<PlanModel, Seq<char>>(
                PlanModel {
                    fields: model_fields_view(out@),
                    primary_keys: crate::schema::strs_view(pks@),
                    foreign_keys: fk_pairs_view(fks@),
                    one_to_one: o2o_pairs_view(o2os@),
                    many_to_many: m2m_pairs_view(m2ms@),
                    soft_delete_field: opt_str_view(soft),
                },
            ),
        decreases fields@.len() - i,
    {
        let f = &fields[i];
        proof {
            assert(fv[i as int] == f@);
            assert(crate::parser::attr_views(f.attrs@) == f@.attrs);
        }
        let cfg = match parse_field_attributes(&f.attrs) {
            Ok(c) => c,
            Err(e) => {
                proof {
                    lemma_plan_error_stays(fv, i + 1, fv.len() as int);
                }
                return Err(e);
            },
        };
        let name = match &f.name {
            Some(n) => n.clone(),
            None => {
                proof {
                    lemma_plan_error_stays(fv, i + 1, fv.len() as int);
                }
                return Err(String::from_str("Field must have a name"));
            },
        };
        if cfg.soft_delete && soft.is_some() {
            proof {
                lemma_plan_error_stays(fv, i + 1, fv.len() as int);
            }
            return Err(String::from_str("Only one field can be marked with #[soft_delete]"));
        }
        let ghost pk0 = pks@;
        let ghost fk0 = fks@;
        let ghost o0 = o2os@;
        let ghost m0 = m2ms@;
        let ghost out0 = out@;
        if cfg.is_primary_key {
            pks.push(name.clone());
        }
        match &cfg.foreign_key {
            Some(fk) => {
                fks.push((name.clone(), fk.clone()));
            },
            None => {},
        }
        match &cfg.one_to_one {
            Some(o) => {
                o2os.push((name.clone(), o.clone()));
                fks.push(
                    (
                        name.clone(),
                        ForeignKeyConfig { entity: o.entity.clone(), on_delete: clone_opt_str(&o.on_delete), default: None },
                    ),
                );
            },
            None => {},
        }
        match &cfg.many_to_many {
            Some(m) => {
                m2ms.push((name.clone(), m.clone()));
            },
            None => {},
        }
        if cfg.soft_delete {
            soft = Some(name.clone());
        }
        let ghost c = cfg@;
        out.push(ModelField { name, ty: f.ty.clone(), config: cfg });
        proof {
            assert(crate::schema::strs_view(pks@) =~= (if c.is_primary_key {
                crate::schema::strs_view(pk0).push(f@.name.unwrap())
            } else {
                crate::schema::strs_view(pk0)
            }));
            assert(fk_pairs_view(fks@) =~= fk_pairs_view(fk0) + field_foreign_keys(f@.name.unwrap(), c));
            assert(o2o_pairs_view(o2os@) =~= match c.one_to_one {
                Some(o) => o2o_pairs_view(o0).push((f@.name.unwrap(), o)),
                None => o2o_pairs_view(o0),
            });
            assert(m2m_pairs_view(m2ms@) =~= match c.many_to_many {
                Some(m) => m2m_pairs_view(m0).push((f@.name.unwrap(), m)),
                None => m2m_pairs_view(m0),
            });
            assert(model_fields_view(out@) =~= model_fields_view(out0).push(
                ModelFieldModel { name: f@.name.unwrap(), ty: f@.ty, config: c },
            ));
        }
        i = i + 1;
    }
    if pks.len() == 0 {
        return Err(String::from_str("Model must have at least one field marked with #[primary_key]"));
    }
    if any_set_null_unguarded_exec(&out) {
        return Err(String::from_str("on_delete = SetNull requires field type to be Option<T>"));
    }
    let columns = kept_columns_exec(&out, &m2ms);
    proof {
        assert(m2m_pairs_view(m2ms@).map_values(|x: (Seq<char>, ManyToManyModel)| x.0) =~= m2m_field_names(
            PlanModel {
                fields: model_fields_view(out@),
                primary_keys: crate::schema::strs_view(pks@),
                foreign_keys: fk_pairs_view(fks@),
                one_to_one: o2o_pairs_view(o2os@),
                many_to_many: m2m_pairs_view(m2ms@),
                soft_delete_field: opt_str_view(soft),
            },
        ));
    }
    Ok(
        ModelPlan {
            fields: out,
            columns,
            primary_keys: pks,
            foreign_keys: fks,
            one_to_one: o2os,
            many_to_many: m2ms,
            soft_delete_field: soft,
        },
    )
}

// ---------------------------------------------------------------------------
// Laws of the model checks
// ---------------------------------------------------------------------------

proof fn lemma_kept_columns(fs: Seq<ModelFieldModel>, drop: Seq<Seq<char>>, n: int)
    requires
        0 <= n <= fs.len(),
    ensures
        forall|c: Seq<char>| #[trigger] kept_columns(fs, drop, n).contains(c) ==> !drop.contains(c),
        forall|i: int|
            0 <= i < n && !drop.contains(#[trigger] fs[i].name) ==> kept_columns(fs, drop, n).contains(fs[i].name),
    decreases n,
{
    if n > 0 {
        lemma_kept_columns(fs, drop, n - 1);
        let r = kept_columns(fs, drop, n - 1);
        if !drop.contains(fs[n - 1].name) {
            assert(r.push(fs[n - 1].name)[r.len() as int] == fs[n - 1].name);
            let rp = r.push(fs[n - 1].name);
            assert forall|c: Seq<char>| #[trigger] rp.contains(c) implies !drop.contains(c) by {
                let k = choose|k: int| 0 <= k < rp.len() && #[trigger] rp[k] == c;
                if k < r.len() {
                    assert(r[k] == c);
                    assert(r.contains(c));
                }
            }
            assert forall|i: int| 0 <= i < n && !drop.contains(#[trigger] fs[i].name) implies r.push(
                fs[n - 1].name,
            ).contains(fs[i].name) by {
                if i < n - 1 {
                    let k = choose|k: int| 0 <= k < r.len() && #[trigger] r[k] == fs[i].name;
                    assert(r.push(fs[n - 1].name)[k] == fs[i].name);
                }
            }
        }
    }
}

/// Many-to-many fields are metadata, not database columns: every column of a
/// checked model is a field that is not many-to-many, and every other field
/// is a column.
pub proof fn law_many_to_many_fields_are_not_columns(fields: Seq<crate::parser::FieldModel>)
    requires
        model_plan(fields) is Ok,
    ensures
        ({
            let m = model_plan(fields)->Ok_0;
            &&& forall|c: Seq<char>| #[trigger] m.columns.contains(c) ==> !m2m_field_names(m.plan).contains(c)
            &&& forall|i: int|
                0 <= i < m.plan.fields.len() && !m2m_field_names(m.plan).contains(#[trigger] m.plan.fields[i].name)
                    ==> m.columns.contains(m.plan.fields[i].name)
        }),
{
    let p = plan_from(fields, fields.len() as int)->Ok_0;
    lemma_kept_columns(p.fields, m2m_field_names(p), p.fields.len() as int);
}

/// The soft-delete field of a plan is the one field marked `soft_delete`.
pub open spec fn soft_delete_consistent(p: PlanModel) -> bool {
    &&& forall|i: int, j: int|
        0 <= i < j < p.fields.len() ==> !((#[trigger] p.fields[i]).config.soft_delete && (#[trigger] p.fields[j]).config.soft_delete)
    &&& (p.soft_delete_field is None <==> forall|i: int|
        0 <= i < p.fields.len() ==> !(#[trigger] p.fields[i]).config.soft_delete)
    &&& forall|i: int|
        0 <= i < p.fields.len() && (#[trigger] p.fields[i]).config.soft_delete ==> p.soft_delete_field == Some(p.fields[i].name)
}

proof fn lemma_plan_soft_delete(fields: Seq<crate::parser::FieldModel>, n: int)
    requires
        0 <= n <= fields.len(),
        plan_from(fields, n) is Ok,
    ensures
        soft_delete_consistent(plan_from(fields, n)->Ok_0),
    decreases n,
{
    if n > 0 {
        lemma_plan_soft_delete(fields, n - 1);
        let p = plan_from(fields, n - 1)->Ok_0;
        let q = plan_from(fields, n)->Ok_0;
        let k = p.fields.len() as int;
        assert(q.fields == p.fields.push(q.fields[k]));
        let last = q.fields[k];
        assert forall|i: int| 0 <= i < k implies #[trigger] q.fields[i] == p.fields[i] by {}
        if last.config.soft_delete {
            assert(p.soft_delete_field is None);
            assert(q.soft_delete_field == Some(last.name));
            assert forall|i: int, j: int| 0 <= i < j < q.fields.len() implies !((#[trigger] q.fields[i]).config.soft_delete
                && (#[trigger] q.fields[j]).config.soft_delete) by {
                if j < k {
                    assert(q.fields[i] == p.fields[i] && q.fields[j] == p.fields[j]);
                } else {
                    assert(q.fields[i] == p.fields[i]);
                    assert(!p.fields[i].config.soft_delete);
                }
            }
            assert forall|i: int| 0 <= i < q.fields.len() && (#[trigger] q.fields[i]).config.soft_delete implies q.soft_delete_field
                == Some(q.fields[i].name) by {
                if i < k {
                    assert(q.fields[i] == p.fields[i]);
                    assert(!p.fields[i].config.soft_delete);
                }
            }
        } else {
            assert(q.soft_delete_field == p.soft_delete_field);
            assert forall|i: int, j: int| 0 <= i < j < q.fields.len() implies !((#[trigger] q.fields[i]).config.soft_delete
                && (#[trigger] q.fields[j]).config.soft_delete) by {
                if j < k {
                    assert(q.fields[i] == p.fields[i] && q.fields[j] == p.fields[j]);
                }
            }
            assert forall|i: int| 0 <= i < q.fields.len() && (#[trigger] q.fields[i]).config.soft_delete implies q.soft_delete_field
                == Some(q.fields[i].name) by {
                assert(i < k);
                assert(q.fields[i] == p.fields[i]);
            }
            if q.soft_delete_field is None {
                assert forall|i: int| 0 <= i < q.fields.len() implies !(#[trigger] q.fields[i]).config.soft_delete by {
                    if i < k {
                        assert(q.fields[i] == p.fields[i]);
                    }
                }
            } else {
                let w = choose|i: int| 0 <= i < p.fields.len() && (#[trigger] p.fields[i]).config.soft_delete;
                assert(q.fields[w] == p.fields[w]);
            }
        }
    }
}

/// A checked model has at most one soft-delete field, and the plan names it.
pub proof fn law_at_most_one_soft_delete_field(fields: Seq<crate::parser::FieldModel>)
    requires
        model_plan(fields) is Ok,
    ensures
        soft_delete_consistent(model_plan(fields)->Ok_0.plan),
{
    lemma_plan_soft_delete(fields, fields.len() as int);
}

// ---------------------------------------------------------------------------
// Attributes written back on a field
// ---------------------------------------------------------------------------

/// The attributes `#[ormada_model]` reads on fields (and removes from them).
pub open spec fn ormada_field_attr_names() -> Seq<Seq<char>> {
    seq![
        "primary_key"@, "foreign_key"@, "one_to_one"@, "many_to_many"@, "index"@, "unique"@,
        "max_length"@, "min_length"@, "range"@, "auto_now"@, "auto_now_add"@, "soft_delete"@,
        "skip_serializing"@, "skip_deserializing"@,
    ]
}

pub open spec fn is_ormada_field_attr(a: AttrModel) -> bool {
    match a.name {
        Some(n) => ormada_field_attr_names().contains(n),
        None => false,
    }
}

/// The attributes of other tools, in order.
pub open spec fn foreign_attrs(attrs: Seq<AttrModel>, n: int) -> Seq<AttrModel>
    decreases n,
{
    if n <= 0 {
        Seq::empty()
    } else if is_ormada_field_attr(attrs[n - 1]) {
        foreign_attrs(attrs, n - 1)
    } else {
        foreign_attrs(attrs, n - 1).push(attrs[n - 1])
    }
}

/// A `#[sea_orm(..)]` attribute with the given arguments.
pub open spec fn sea_orm_attr(args: Seq<char>) -> AttrModel {
    AttrModel { name: Some("sea_orm"@), tokens: "sea_orm ("@ + args + ")"@, list_tokens: Some(args) }
}

/// The `sea_orm` attributes a field's configuration calls for: its primary
/// key (with `auto_increment = false` when so configured), `indexed` for an
/// index and `unique` for a unique constraint.
pub open spec fn sea_orm_attrs(c: FieldConfigModel) -> Seq<AttrModel> {
    let pk = if c.is_primary_key {
        if c.auto_increment == Some(false) {
            seq![sea_orm_attr("primary_key, auto_increment = false"@)]
        } else {
            seq![sea_orm_attr("primary_key"@)]
        }
    } else {
        Seq::empty()
    };
    let idx = if c.index is Some {
        seq![sea_orm_attr("indexed"@)]
    } else {
        Seq::empty()
    };
    let uq = if c.unique is Some {
        seq![sea_orm_attr("unique"@)]
    } else {
        Seq::empty()
    };
    pk + idx + uq
}

fn is_ormada_field_attr_exec(a: &AttrInfo) -> (res: bool)
    ensures
        res == is_ormada_field_attr(a@),
{
    let names: Vec<&str> = vec![
        "primary_key", "foreign_key", "one_to_one", "many_to_many", "index", "unique",
        "max_length", "min_length", "range", "auto_now", "auto_now_add", "soft_delete",
        "skip_serializing", "skip_deserializing",
    ];
    let ghost ns = names@.map_values(|k: &str| k@);
    proof {
        assert(ns =~= ormada_field_attr_names());
    }
    let mut i: usize = 0;
    while i < names.len()
        invariant
            ns == names@.map_values(|k: &str| k@),
            ns == ormada_field_attr_names(),
            i <= names@.len(),
            forall|j: int| 0 <= j < i ==> !attr_named(a@, #[trigger] ns[j]),
        decreases names@.len() - i,
    {
        if attr_name_is(a, names[i]) {
            proof {
                assert(attr_named(a@, ns[i as int]));
                assert(ormada_field_attr_names().contains(a@.name.unwrap()));
            }
            return true;
        }
        i = i + 1;
    }
    proof {
        if is_ormada_field_attr(a@) {
            let n = a@.name.unwrap();
            let k = choose|k: int| 0 <= k < ns.len() && ns[k] == n;
            assert(attr_named(a@, ns[k]));
        }
    }
    false
}

fn sea_orm_attr_exec(args: &str) -> (res: AttrInfo)
    ensures
        res@ == sea_orm_attr(args@),
{
    let mut tokens = String::new();
    push_str(&mut tokens, "sea_orm (");
    push_str(&mut tokens, args);
    push_str(&mut tokens, ")");
    AttrInfo { name: Some(String::from_str("sea_orm")), tokens, list_tokens: Some(String::from_str(args)) }
}

pub(crate) fn copy_attr(a: &AttrInfo) -> (res: AttrInfo)
    ensures
        res@ == a@,
{
    AttrInfo { name: clone_opt_str(&a.name), tokens: a.tokens.clone(), list_tokens: clone_opt_str(&a.list_tokens) }
}

/// The attributes a field keeps in the generated model: those of other
/// tools, in order, then the `sea_orm` attributes its configuration calls for.
pub fn strip_django_attributes(attrs: &[AttrInfo], config: &FieldConfig) -> (res: Vec<AttrInfo>)
    ensures
        crate::parser::attr_views(res@) == foreign_attrs(crate::parser::attr_views(attrs@), attrs@.len() as int)
            + sea_orm_attrs(config@),
{
    let ghost av = crate::parser::attr_views(attrs@);
    let mut res: Vec<AttrInfo> = Vec::new();
    proof {
        assert(crate::parser::attr_views(res@) =~= Seq::empty());
    }
    let mut i: usize = 0;
    while i < attrs.len()
        invariant
            av == crate::parser::attr_views(attrs@),
            i <= attrs@.len(),
            crate::parser::attr_views(res@) == foreign_attrs(av, i as int),
        decreases attrs@.len() - i,
    {
        proof {
            assert(av[i as int] == attrs@[i as int]@);
        }
        if !is_ormada_field_attr_exec(&attrs[i]) {
            let ghost r0 = res@;
            res.push(copy_attr(&attrs[i]));
            proof {
                assert(crate::parser::attr_views(res@) =~= crate::parser::attr_views(r0).push(av[i as int]));
            }
        }
        i = i + 1;
    }
    let ghost kept = crate::parser::attr_views(res@);
    proof {
        reveal_strlit("primary_key, auto_increment = false");
    }
    if config.is_primary_key {
        if config.auto_increment == Some(false) {
            res.push(sea_orm_attr_exec("primary_key, auto_increment = false"));
        } else {
            res.push(sea_orm_attr_exec("primary_key"));
        }
    }
    if config.index.is_some() {
        res.push(sea_orm_attr_exec("indexed"));
    }
    if config.unique.is_some() {
        res.push(sea_orm_attr_exec("unique"));
    }
    proof {
        assert(crate::parser::attr_views(res@) =~= kept + sea_orm_attrs(config@));
    }
    res
}

} // verus!
