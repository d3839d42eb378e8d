//! What the `#[django_projection]` attribute reads: the model a projection
//! selects from, and the model columns its fields select.

use vstd::prelude::*;

use crate::attr_args::{
    arg_pieces, arg_pieces_exec, is_ident, is_ident_exec, is_path, is_path_exec, piece_of,
    piece_of_exec, spaceless_exec, texts, Piece, PieceModel,
};
use crate::model_def::{malformed, malformed_text, unknown_attribute, unknown_attribute_text};
use crate::naming::{pascal_case, to_pascal_case};
use crate::parser::{attr_name_is, attr_named, field_views, key_is, without_spaces, AttrInfo, AttrModel, FieldDecl, FieldModel};
use crate::schema::{opt_str_view, strs_view};
use crate::text::{chars_of, contains_char, has_char, string_of};

verus! {

/// The model named by the pieces from `i` on: `model = <path>`; another key
/// is refused by name, anything else as malformed.
pub open spec fn projection_args(ps: Seq<Seq<char>>, i: int, model: Option<Seq<char>>) -> Result<Option<Seq<char>>, Seq<char>>
    decreases ps.len() - i,
{
    if i < 0 || i >= ps.len() {
        Ok(model)
    } else if ps[i].len() == 0 {
        if i == ps.len() - 1 {
            Ok(model)
        } else {
            Err(malformed_text())
        }
    } else {
        match piece_of(ps[i]) {
            PieceModel::Pair(k, v) => if !is_ident(k) {
                Err(malformed_text())
            } else if k == "model"@ {
                if is_path(v) {
                    projection_args(ps, i + 1, Some(without_spaces(v)))
                } else {
                    Err(malformed_text())
                }
            } else {
                Err(unknown_attribute_text(k))
            },
            PieceModel::Bare(_) => Err(malformed_text()),
        }
    }
}

/// The model path of `#[django_projection(model = ..)]`, which is required.
pub open spec fn projection_model_of(t: Seq<char>) -> Result<Seq<char>, Seq<char>> {
    match projection_args(arg_pieces(t), 0, None) {
        Err(e) => Err(e),
        Ok(None) => Err("Missing required 'model' attribute"@),
        Ok(Some(m)) => Ok(m),
    }
}

/// Parse the arguments of `#[django_projection(..)]`: the model's path.
pub fn parse_projection_config(args: &str) -> (res: Result<String, String>)
    ensures
        match (res, projection_model_of(args@)) {
            (Ok(c), Ok(m)) => c@ == m,
            (Err(e), Err(m)) => e@ == m,
            _ => false,
        },
{
    let tc = chars_of(args);
    let ps = arg_pieces_exec(&tc);
    let ghost m = texts(ps@);
    proof {
        assert(m =~= arg_pieces(args@));
    }
    let mut model: Option<String> = None;
    let mut i: usize = 0;
    while i < ps.len()
        invariant
            m == texts(ps@),
            m == arg_pieces(args@),
            i <= ps@.len(),
            projection_args(m, 0, None) == projection_args(m, i as int, opt_str_view(model)),
        decreases ps@.len() - i,
    {
        let p = &ps[i];
        proof {
            assert(m[i as int] == p@);
        }
        if p.len() == 0 {
            if i + 1 == ps.len() {
                i = i + 1;
                continue;
            }
            return Err(malformed());
        }
        match piece_of_exec(p) {
            Piece::Pair(k, v) => {
                if !is_ident_exec(&k) {
                    return Err(malformed());
                }
                if key_is(&k, "model") {
                    if is_path_exec(&v) {
                        model = Some(string_of(&spaceless_exec(&v)));
                    } else {
                        return Err(malformed());
                    }
                } else {
                    return Err(unknown_attribute(&k));
                }
            },
            Piece::Bare(_) => {
                return Err(malformed());
            },
        }
        i = i + 1;
    }
    match model {
        Some(x) => Ok(x),
        None => Err(String::from_str("Missing required 'model' attribute")),
    }
}

/// A field marked `#[computed]` (a bare attribute) is not a model column.
pub open spec fn is_computed(attrs: Seq<AttrModel>) -> bool {
    exists|i: int|
        0 <= i < attrs.len() && attr_named(#[trigger] attrs[i], "computed"@) && attrs[i].list_tokens is None
            && !has_char(attrs[i].tokens, '=')
}

/// Check if a field has the `#[computed]` attribute
pub fn is_computed_field(attrs: &[AttrInfo]) -> (res: bool)
    ensures
        res == is_computed(crate::parser::attr_views(attrs@)),
{
    let ghost av = crate::parser::attr_views(attrs@);
    let mut i: usize = 0;
    while i < attrs.len()
        invariant
            av == crate::parser::attr_views(attrs@),
            i <= attrs@.len(),
            forall|j: int|
                0 <= j < i ==> !(attr_named(#[trigger] av[j], "computed"@) && av[j].list_tokens is None && !has_char(
                    av[j].tokens,
                    '=',
                )),
        decreases attrs@.len() - i,
    {
        let a = &attrs[i];
        proof {
            assert(av[i as int] == a@);
        }
        if attr_name_is(a, "computed") && a.list_tokens.is_none() {
            let t = chars_of(a.tokens.as_str());
            if !contains_char(&t, '=') {
                return true;
            }
        }
        i = i + 1;
    }
    false
}

/// The model columns the first `n` fields select: each field that is not
/// computed, as its column variant (the field's name in PascalCase).
pub open spec fn projection_columns_from(fields: Seq<FieldModel>, n: int) -> Seq<Seq<char>>
    decreases n,
{
    if n <= 0 {
        Seq::empty()
    } else {
        let r = projection_columns_from(fields, n - 1);
        let f = fields[n - 1];
        if is_computed(f.attrs) {
            r
        } else {
            r.push(pascal_case(f.name.unwrap()))
        }
    }
}

/// The model columns a projection selects, in field order.
pub fn projection_columns(fields: &[FieldDecl]) -> (res: Vec<String>)
    requires
        forall|i: int| 0 <= i < fields@.len() ==> (#[trigger] fields@[i]).name is Some,
    ensures
        strs_view(res@) == projection_columns_from(field_views(fields@), fields@.len() as int),
{
    let ghost fv = field_views(fields@);
    let mut res: Vec<String> = Vec::new();
    proof {
        assert(strs_view(res@) =~= Seq::empty());
    }
    let mut i: usize = 0;
    while i < fields.len()
        invariant
            fv == field_views(fields@),
            forall|k: int| 0 <= k < fields@.len() ==> (#[trigger] fields@[k]).name is Some,
            i <= fields@.len(),
            strs_view(res@) == projection_columns_from(fv, i as int),
        decreases fields@.len() - i,
    {
        let f = &fields[i];
        proof {
            assert(fv[i as int] == f@);
            assert(f.name is Some);
            assert(crate::parser::attr_views(f.attrs@) == f@.attrs);
        }
        if !is_computed_field(&f.attrs) {
            match &f.name {
                Some(n) => {
                    let ghost r0 = res@;
                    res.push(to_pascal_case(n.as_str()));
                    proof {
                        assert(strs_view(res@) =~= strs_view(r0).push(pascal_case(n@)));
                    }
                },
                None => {},
            }
        }
        i = i + 1;
    }
    res
}

} // verus!
