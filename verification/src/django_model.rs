//! What the `DjangoModel` derive reads from a struct: which field is the
//! primary key, which fields are timestamps set automatically, and the
//! relations listed in `#[django(relations(..))]`.

use vstd::prelude::*;

use crate::attr_args::{
    arg_pieces, arg_pieces_exec, is_ident, is_ident_exec, is_path, is_path_exec, literal,
    literal_exec, piece_of, piece_of_exec, spaceless_exec, texts, Lit, LitModel, Piece,
    PieceModel,
};
use crate::parser::{attr_name_is, attr_named, attr_views, field_views, without_spaces, AttrInfo, AttrModel, FieldDecl, FieldModel};
use crate::schema::strs_view;
use crate::text::{chars_of, contains, has_prefix, has_sub, push_chars, push_str, slice_chars, starts_with, string_of, trim, trim_chars};

verus! {

// ---------------------------------------------------------------------------
// Field categories
// ---------------------------------------------------------------------------

/// The field has an attribute of the tool `tool` whose text mentions `name`.
pub open spec fn has_tool_attr(f: FieldModel, tool: Seq<char>, name: Seq<char>) -> bool {
    exists|i: int| 0 <= i < f.attrs.len() && attr_named(#[trigger] f.attrs[i], tool) && has_sub(f.attrs[i].tokens, name)
}

pub(crate) fn has_tool_attribute(field: &FieldDecl, tool: &str, name: &str) -> (res: bool)
    ensures
        res == has_tool_attr(field@, tool@, name@),
{
    let ghost av = attr_views(field.attrs@);
    let n = chars_of(name);
    let mut i: usize = 0;
    while i < field.attrs.len()
        invariant
            av == attr_views(field.attrs@),
            av == field@.attrs,
            n@ == name@,
            i <= field.attrs@.len(),
            forall|j: int| 0 <= j < i ==> !(attr_named(#[trigger] av[j], tool@) && has_sub(av[j].tokens, name@)),
        decreases field.attrs@.len() - i,
    {
        let a = &field.attrs[i];
        proof {
            assert(av[i as int] == a@);
        }
        if attr_name_is(a, tool) {
            let t = chars_of(a.tokens.as_str());
            if contains(&t, &n) {
                return true;
            }
        }
        i = i + 1;
    }
    false
}

/// Check if a field has a specific `sea_orm` attribute
fn has_sea_orm_attribute(field: &FieldDecl, attr_name: &str) -> (res: bool)
    ensures
        res == has_tool_attr(field@, "sea_orm"@, attr_name@),
{
    has_tool_attribute(field, "sea_orm", attr_name)
}

/// Check if a field has a specific django attribute
fn has_django_attribute(field: &FieldDecl, attr_name: &str) -> (res: bool)
    ensures
        res == has_tool_attr(field@, "django"@, attr_name@),
{
    has_tool_attribute(field, "django", attr_name)
}

/// The fields of a `DjangoModel` struct by role: the primary key, the
/// fields set on creation only, those set on creation and update, and every
/// field with its type.
#[derive(Debug)]
pub struct DjangoFields {
    pub primary_key: String,
    pub auto_now_add: Vec<String>,
    pub auto_now: Vec<String>,
    pub all_fields: Vec<(String, String)>,
}

pub struct DjangoFieldsModel {
    pub primary_key: Option<Seq<char>>,
    pub auto_now_add: Seq<Seq<char>>,
    pub auto_now: Seq<Seq<char>>,
    pub all_fields: Seq<(Seq<char>, Seq<char>)>,
}

pub open spec fn typed_names_view(v: Seq<(String, String)>) -> Seq<(Seq<char>, Seq<char>)> {
    v.map_values(|p: (String, String)| (p.0@, p.1@))
}

impl View for DjangoFields {
    type V = DjangoFieldsModel;

    open spec fn view(&self) -> DjangoFieldsModel {
        DjangoFieldsModel {
            primary_key: Some(self.primary_key@),
            auto_now_add: strs_view(self.auto_now_add@),
            auto_now: strs_view(self.auto_now@),
            all_fields: typed_names_view(self.all_fields@),
        }
    }
}

/// One field sorted: a `sea_orm` primary key is the primary key (a later
/// one replaces an earlier one); otherwise `auto_now_add` comes before
/// `auto_now`.
pub open spec fn django_step(c: DjangoFieldsModel, f: FieldModel) -> DjangoFieldsModel {
    let n = f.name.unwrap();
    let all = c.all_fields.push((n, f.ty));
    if has_tool_attr(f, "sea_orm"@, "primary_key"@) {
        DjangoFieldsModel { primary_key: Some(n), all_fields: all, ..c }
    } else if has_tool_attr(f, "django"@, "auto_now_add"@) {
        DjangoFieldsModel { auto_now_add: c.auto_now_add.push(n), all_fields: all, ..c }
    } else if has_tool_attr(f, "django"@, "auto_now"@) {
        DjangoFieldsModel { auto_now: c.auto_now.push(n), all_fields: all, ..c }
    } else {
        DjangoFieldsModel { all_fields: all, ..c }
    }
}

pub open spec fn django_fields_from(fields: Seq<FieldModel>, n: int) -> DjangoFieldsModel
    decreases n,
{
    if n <= 0 {
        DjangoFieldsModel { primary_key: None, auto_now_add: Seq::empty(), auto_now: Seq::empty(), all_fields: Seq::empty() }
    } else {
        django_step(django_fields_from(fields, n - 1), fields[n - 1])
    }
}

pub open spec fn no_django_primary_key_text() -> Seq<char> {
    "Model must have a field marked with #[sea_orm(primary_key)]"@
}

/// The roles of the fields; a primary key is required.
pub open spec fn django_fields_of(fields: Seq<FieldModel>) -> Result<DjangoFieldsModel, Seq<char>> {
    let c = django_fields_from(fields, fields.len() as int);
    if c.primary_key is None {
        Err(no_django_primary_key_text())
    } else {
        Ok(c)
    }
}

/// Sort the fields of a `DjangoModel` struct by role.
pub fn categorize_django_fields(fields: &[FieldDecl]) -> (res: Result<DjangoFields, String>)
    requires
        forall|i: int| 0 <= i < fields@.len() ==> (#[trigger] fields@[i]).name is Some,
    ensures
        match (res, django_fields_of(field_views(fields@))) {
            (Ok(c), Ok(m)) => c@ == m,
            (Err(e), Err(m)) => e@ == m,
            _ => false,
        },
{
    let ghost fv = field_views(fields@);
    let mut primary_key: Option<String> = None;
    let mut auto_now_add: Vec<String> = Vec::new();
    let mut auto_now: Vec<String> = Vec::new();
    let mut all_fields: Vec<(String, String)> = Vec::new();
    proof {
        assert(strs_view(auto_now_add@) =~= Seq::empty());
        assert(typed_names_view(all_fields@) =~= Seq::empty());
    }
    let mut i: usize = 0;
    while i < fields.len()
        invariant
            fv == field_views(fields@),
            fv.len() == fields@.len(),
            forall|k: int| 0 <= k < fields@.len() ==> (#[trigger] fields@[k]).name is Some,
            i <= fields@.len(),
            django_fields_from(fv, i as int) == (DjangoFieldsModel {
                primary_key: crate::schema::opt_str_view(primary_key),
                auto_now_add: strs_view(auto_now_add@),
                auto_now: strs_view(auto_now@),
                all_fields: typed_names_view(all_fields@),
            }),
        decreases fields@.len() - i,
    {
        let f = &fields[i];
        proof {
            assert(fv[i as int] == f@);
            assert(f.name is Some);
        }
        let name = match &f.name {
            Some(n) => n.clone(),
            None => String::new(),
        };
        let ghost all0 = all_fields@;
        let ghost add0 = auto_now_add@;
        let ghost now0 = auto_now@;
        all_fields.push((name.clone(), f.ty.clone()));
        proof {
            assert(typed_names_view(all_fields@) =~= typed_names_view(all0).push((name@, f@.ty)));
        }
        if has_sea_orm_attribute(f, "primary_key") {
            primary_key = Some(name);
        } else if has_django_attribute(f, "auto_now_add") {
            auto_now_add.push(name);
            proof {
                assert(strs_view(auto_now_add@) =~= strs_view(add0).push(f@.name.unwrap()));
            }
        } else if has_django_attribute(f, "auto_now") {
            auto_now.push(name);
            proof {
                assert(strs_view(auto_now@) =~= strs_view(now0).push(f@.name.unwrap()));
            }
        }
        i = i + 1;
    }
    match primary_key {
        Some(pk) => Ok(DjangoFields { primary_key: pk, auto_now_add, auto_now, all_fields }),
        None => Err(String::from_str("Model must have a field marked with #[sea_orm(primary_key)]")),
    }
}

// ---------------------------------------------------------------------------
// Relations
// ---------------------------------------------------------------------------

/// Information about a relation extracted from the entity
#[derive(Debug, Clone)]
pub struct RelationInfo {
    pub field_name: String,
    pub related_entity: String,
    pub foreign_key_field: String,
}

pub struct RelationInfoModel {
    pub field_name: Seq<char>,
    pub related_entity: Seq<char>,
    pub foreign_key_field: Seq<char>,
}

impl View for RelationInfo {
    type V = RelationInfoModel;

    open spec fn view(&self) -> RelationInfoModel {
        RelationInfoModel {
            field_name: self.field_name@,
            related_entity: self.related_entity@,
            foreign_key_field: self.foreign_key_field@,
        }
    }
}

pub open spec fn relations_view(v: Seq<RelationInfo>) -> Seq<RelationInfoModel> {
    v.map_values(|r: RelationInfo| r@)
}

/// The list inside `relations( .. )`, when the argument is just that.
pub open spec fn relations_body(t: Seq<char>) -> Option<Seq<char>> {
    let s = trim(t);
    if has_prefix(s, "relations"@) {
        let r = trim(s.subrange(9, s.len() as int));
        if r.len() >= 2 && r[0] == '(' && r.last() == ')' {
            Some(r.subrange(1, r.len() - 1))
        } else {
            None
        }
    } else {
        None
    }
}

/// The relations `field = "path::to::Entity"` read from the pieces from `i`
/// on, after `acc`; reading stops at the first piece that is not one (the
/// relations before it are kept). The foreign key of a relation is its
/// field's name followed by `_id`.
pub open spec fn relation_items(ps: Seq<Seq<char>>, i: int, acc: Seq<RelationInfoModel>) -> Seq<RelationInfoModel>
    decreases ps.len() - i,
{
    if i < 0 || i >= ps.len() || ps[i].len() == 0 {
        acc
    } else {
        match piece_of(ps[i]) {
            PieceModel::Pair(k, v) => match literal(v) {
                Some(LitModel::Str(x)) => if is_ident(k) && is_path(x) {
                    relation_items(
                        ps,
                        i + 1,
                        acc.push(
                            RelationInfoModel { field_name: k, related_entity: without_spaces(x), foreign_key_field: k + "_id"@ },
                        ),
                    )
                } else {
                    acc
                },
                _ => acc,
            },
            PieceModel::Bare(_) => acc,
        }
    }
}

/// The relations listed by one attribute: `#[django(relations(..))]`.
pub open spec fn attr_relations(a: AttrModel) -> Seq<RelationInfoModel> {
    if attr_named(a, "django"@) && a.list_tokens is Some {
        match relations_body(a.list_tokens.unwrap()) {
            Some(body) => relation_items(arg_pieces(body), 0, Seq::empty()),
            None => Seq::empty(),
        }
    } else {
        Seq::empty()
    }
}

/// The relations listed by the first `n` attributes, in order.
pub open spec fn relations_from(attrs: Seq<AttrModel>, n: int) -> Seq<RelationInfoModel>
    decreases n,
{
    if n <= 0 {
        Seq::empty()
    } else {
        relations_from(attrs, n - 1) + attr_relations(attrs[n - 1])
    }
}

fn relations_body_exec(t: &str) -> (res: Option<Vec<char>>)
    ensures
        match (res, relations_body(t@)) {
            (Some(a), Some(b)) => a@ == b,
            (None, None) => true,
            _ => false,
        },
{
    let tc = chars_of(t);
    let s = trim_chars(&tc);
    let key = chars_of("relations");
    proof {
        reveal_strlit("relations");
    }
    if starts_with(&s, &key) {
        let rest = slice_chars(&s, 9, s.len());
        let r = trim_chars(&rest);
        let n = r.len();
        if n >= 2 && r[0] == '(' && r[n - 1] == ')' {
            Some(slice_chars(&r, 1, n - 1))
        } else {
            None
        }
    } else {
        None
    }
}

fn relation_items_exec(ps: &Vec<Vec<char>>, out: &mut Vec<RelationInfo>)
    ensures
        relations_view(final(out)@) == relation_items(texts(ps@), 0, relations_view(old(out)@)),
{
    let ghost m = texts(ps@);
    let ghost acc0 = relations_view(out@);
    let mut i: usize = 0;
    while i < ps.len()
        invariant
            m == texts(ps@),
            acc0 == relations_view(old(out)@),
            i <= ps@.len(),
            relation_items(m, 0, acc0) == relation_items(m, i as int, relations_view(out@)),
        decreases ps@.len() - i,
    {
        let p = &ps[i];
        proof {
            assert(m[i as int] == p@);
        }
        if p.len() == 0 {
            return;
        }
        match piece_of_exec(p) {
            Piece::Pair(k, v) => {
                match literal_exec(&v) {
                    Some(Lit::Str(x)) => {
                        if is_ident_exec(&k) && is_path_exec(&x) {
                            let mut fk = String::new();
                            push_chars(&mut fk, &k);
                            push_str(&mut fk, "_id");
                            let ghost o0 = relations_view(out@);
                            out.push(
                                RelationInfo {
                                    field_name: string_of(&k),
                                    related_entity: string_of(&spaceless_exec(&x)),
                                    foreign_key_field: fk,
                                },
                            );
                            proof {
                                assert(relations_view(out@) =~= o0.push(
                                    RelationInfoModel {
                                        field_name: k@,
                                        related_entity: without_spaces(x@),
                                        foreign_key_field: k@ + "_id"@,
                                    },
                                ));
                            }
                        } else {
                            return;
                        }
                    },
                    _ => {
                        return;
                    },
                }
            },
            Piece::Bare(_) => {
                return;
            },
        }
        i = i + 1;
    }
}

/// Parse relation information from django attributes
///
/// Looks for #[django(relations(field = "path::to::Entity", ...))]
pub fn parse_relations(attrs: &[AttrInfo]) -> (res: Vec<RelationInfo>)
    ensures
        relations_view(res@) == relations_from(attr_views(attrs@), attrs@.len() as int),
{
    let ghost av = attr_views(attrs@);
    let mut res: Vec<RelationInfo> = Vec::new();
    proof {
        assert(relations_view(res@) =~= Seq::empty());
    }
    let mut i: usize = 0;
    while i < attrs.len()
        invariant
            av == attr_views(attrs@),
            av.len() == attrs@.len(),
            i <= attrs@.len(),
            relations_view(res@) == relations_from(av, i as int),
        decreases attrs@.len() - i,
    {
        let a = &attrs[i];
        proof {
            assert(av[i as int] == a@);
        }
        let ghost before = relations_view(res@);
        if attr_name_is(a, "django") {
            match &a.list_tokens {
                Some(t) => {
                    match relations_body_exec(t.as_str()) {
                        Some(body) => {
                            let ps = arg_pieces_exec(&body);
                            proof {
                                assert(texts(ps@) =~= arg_pieces(body@));
                            }
                            let mut found: Vec<RelationInfo> = Vec::new();
                            proof {
                                assert(relations_view(found@) =~= Seq::<RelationInfoModel>::empty());
                            }
                            relation_items_exec(&ps, &mut found);
                            let ghost r0 = res@;
                            res.append(&mut found);
                            proof {
                                assert(relations_view(res@) =~= relations_view(r0) + attr_relations(a@));
                            }
                        },
                        None => {
                            proof {
                                assert(attr_relations(a@) =~= Seq::empty());
                                assert(relations_view(res@) =~= before + attr_relations(a@));
                            }
                        },
                    }
                },
                None => {
                    proof {
                        assert(relations_view(res@) =~= before + attr_relations(a@));
                    }
                },
            }
        } else {
            proof {
                assert(relations_view(res@) =~= before + attr_relations(a@));
            }
        }
        i = i + 1;
    }
    res
}

} // verus!
