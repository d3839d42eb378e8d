//! Reading Rust source with `syn`: the structs of a file, each turned into the
//! plain description (`StructInfo`) that the parser works on.

use vstd::prelude::*;

use quote::ToTokens;

use crate::parser::{
    attr_views, first_parens_ordered, outer_parens_ordered, parse_ormada_struct, struct_args_ok,
    struct_table, attrs_args_ok, attr_args_ok, AttrInfo, AttrModel, DiscoveryConfig, FieldDecl,
    FieldModel, ParseError, ParseErrorModel, StructInfo, StructModel,
};
use crate::schema::{TableModel, TableSchema};
use crate::text::{chars_of, find_char, rfind_char, str_eq};

verus! {

#[verifier::external_type_specification]
#[verifier::external_body]
pub struct ExSynFile(syn::File);

/// An item of a source file as the parser sees it: a struct, or anything else.
pub enum ItemModel {
    Struct(StructModel),
    Other,
}

/// What `syn::parse_file` reads from a source text: its items, each struct
/// with its name, attributes and named fields (`None` for tuple and unit
/// structs), every attribute as its identifier, its token text and the text
/// of its argument list; or the text of the syntax error.
pub uninterp spec fn syn_parse(source: Seq<char>) -> Result<Seq<ItemModel>, Seq<char>>;

/// A parsed source file, with the text it was parsed from.
struct ParsedSource {
    source: String,
    file: syn::File,
}

spec fn items_of(p: ParsedSource) -> Seq<ItemModel> {
    syn_parse(p.source@)->Ok_0
}

spec fn parsed_ok(p: ParsedSource) -> bool {
    syn_parse(p.source@) is Ok
}

/// The struct at position `i` of a parsed file.
spec fn struct_at(p: ParsedSource, i: int) -> StructModel {
    items_of(p)[i]->Struct_0
}

spec fn is_struct_at(p: ParsedSource, i: int) -> bool {
    parsed_ok(p) && 0 <= i < items_of(p).len() && items_of(p)[i] is Struct
}

/// The attributes of the struct at `i` (`None`), or of its field `j`.
spec fn attrs_at(p: ParsedSource, i: int, f: Option<usize>) -> Seq<AttrModel> {
    match f {
        None => struct_at(p, i).attrs,
        Some(j) => struct_at(p, i).named_fields.unwrap()[j as int].attrs,
    }
}

spec fn field_ok(p: ParsedSource, i: int, j: int) -> bool {
    is_struct_at(p, i) && struct_at(p, i).named_fields is Some && 0 <= j < struct_at(p, i).named_fields.unwrap().len()
}

/// `syn::parse_file`. Claimed: it fails exactly when `syn_parse` gives an
/// error, with that error's text; on success the file is kept with its text.
#[verifier::external_body]
fn parse_rust_file(source: &str) -> (res: Result<ParsedSource, String>)
    ensures
        match (res, syn_parse(source@)) {
            (Ok(p), Ok(_)) => p.source@ == source@,
            (Err(e), Err(m)) => e@ == m,
            _ => false,
        },
{
    match syn::parse_file(source) {
        Ok(file) => Ok(ParsedSource { source: source.to_string(), file }),
        Err(e) => Err(e.to_string()),
    }
}

/// The number of items of the file (`syn::File::items`).
#[verifier::external_body]
fn item_count(p: &ParsedSource) -> (res: usize)
    requires
        parsed_ok(*p),
    ensures
        res == items_of(*p).len(),
{
    p.file.items.len()
}

/// The name of item `i` when it is a struct (`syn::Item::Struct`, its `ident`).
#[verifier::external_body]
fn item_struct_name(p: &ParsedSource, i: usize) -> (res: Option<String>)
    requires
        parsed_ok(*p),
        i < items_of(*p).len(),
    ensures
        match items_of(*p)[i as int] {
            ItemModel::Struct(s) => res matches Some(n) && n@ == s.name,
            ItemModel::Other => res is None,
        },
{
    match &p.file.items[i] {
        syn::Item::Struct(s) => Some(s.ident.to_string()),
        _ => None,
    }
}

/// The number of named fields of struct `i` (`syn::Fields::Named`), if named.
#[verifier::external_body]
fn struct_field_count(p: &ParsedSource, i: usize) -> (res: Option<usize>)
    requires
        is_struct_at(*p, i as int),
    ensures
        match struct_at(*p, i as int).named_fields {
            Some(fs) => res matches Some(n) && n == fs.len(),
            None => res is None,
        },
{
    match &p.file.items[i] {
        syn::Item::Struct(s) => match &s.fields {
            syn::Fields::Named(n) => Some(n.named.len()),
            _ => None,
        },
        _ => None,
    }
}

/// The name and the type (as token text) of field `j` of struct `i`.
#[verifier::external_body]
fn field_name_and_type(p: &ParsedSource, i: usize, j: usize) -> (res: (Option<String>, String))
    requires
        field_ok(*p, i as int, j as int),
    ensures
        crate::schema::opt_str_view(res.0) == struct_at(*p, i as int).named_fields.unwrap()[j as int].name,
        res.1@ == struct_at(*p, i as int).named_fields.unwrap()[j as int].ty,
{
    match &p.file.items[i] {
        syn::Item::Struct(s) => match &s.fields {
            syn::Fields::Named(n) => {
                let name = match &n.named[j].ident { Some(x) => Some(x.to_string()), None => None };
                (name, n.named[j].ty.to_token_stream().to_string())
            },
            _ => (None, String::new()),
        },
        _ => (None, String::new()),
    }
}

/// The number of attributes of struct `i` (`syn::ItemStruct::attrs`).
#[verifier::external_body]
fn struct_attr_count(p: &ParsedSource, i: usize) -> (res: usize)
    requires
        is_struct_at(*p, i as int),
    ensures
        res == attrs_at(*p, i as int, None).len(),
{
    match &p.file.items[i] {
        syn::Item::Struct(s) => s.attrs.len(),
        _ => 0,
    }
}

/// The number of attributes of field `j` of struct `i` (`syn::Field::attrs`).
#[verifier::external_body]
fn field_attr_count(p: &ParsedSource, i: usize, j: usize) -> (res: usize)
    requires
        field_ok(*p, i as int, j as int),
    ensures
        res == attrs_at(*p, i as int, Some(j)).len(),
{
    match &p.file.items[i] {
        syn::Item::Struct(s) => match &s.fields {
            syn::Fields::Named(n) => n.named[j].attrs.len(),
            _ => 0,
        },
        _ => 0,
    }
}

/// Attribute `k` of struct `i`: the identifier of its path
/// (`syn::Path::get_ident`), its token text, and the text of its argument list
/// when it is `syn::Meta::List`.
#[verifier::external_body]
fn struct_attr_at(p: &ParsedSource, i: usize, k: usize) -> (res: AttrInfo)
    requires
        is_struct_at(*p, i as int),
        k < attrs_at(*p, i as int, None).len(),
    ensures
        res@ == attrs_at(*p, i as int, None)[k as int],
{
    let a = match &p.file.items[i] { syn::Item::Struct(s) => &s.attrs[k], _ => return AttrInfo { name: None, tokens: String::new(), list_tokens: None } };
    let name = match a.path().get_ident() { Some(x) => Some(x.to_string()), None => None };
    let list = match &a.meta { syn::Meta::List(l) => Some(l.tokens.to_string()), _ => None };
    AttrInfo { name, tokens: a.meta.to_token_stream().to_string(), list_tokens: list }
}

/// Attribute `k` of field `j` of struct `i`, described as in `struct_attr_at`.
#[verifier::external_body]
fn field_attr_at(p: &ParsedSource, i: usize, j: usize, k: usize) -> (res: AttrInfo)
    requires
        field_ok(*p, i as int, j as int),
        k < attrs_at(*p, i as int, Some(j)).len(),
    ensures
        res@ == attrs_at(*p, i as int, Some(j))[k as int],
{
    let a = match &p.file.items[i] { syn::Item::Struct(syn::ItemStruct { fields: syn::Fields::Named(n), .. }) => &n.named[j].attrs[k], _ => return AttrInfo { name: None, tokens: String::new(), list_tokens: None } };
    let name = match a.path().get_ident() { Some(x) => Some(x.to_string()), None => None };
    let list = match &a.meta { syn::Meta::List(l) => Some(l.tokens.to_string()), _ => None };
    AttrInfo { name, tokens: a.meta.to_token_stream().to_string(), list_tokens: list }
}

fn read_attrs(p: &ParsedSource, i: usize, f: Option<usize>) -> (res: Vec<AttrInfo>)
    requires
        is_struct_at(*p, i as int),
        f matches Some(j) ==> field_ok(*p, i as int, j as int),
    ensures
        attr_views(res@) == attrs_at(*p, i as int, f),
{
    let n = match f {
        None => struct_attr_count(p, i),
        Some(j) => field_attr_count(p, i, j),
    };
    let ghost want = attrs_at(*p, i as int, f);
    let mut res: Vec<AttrInfo> = Vec::new();
    let mut k: usize = 0;
    while k < n
        invariant
            is_struct_at(*p, i as int),
            f matches Some(j) ==> field_ok(*p, i as int, j as int),
            want == attrs_at(*p, i as int, f),
            n == want.len(),
            k <= n,
            attr_views(res@) == want.take(k as int),
        decreases n - k,
    {
        let ghost r0 = res@;
        let a = match f {
            None => struct_attr_at(p, i, k),
            Some(j) => field_attr_at(p, i, j, k),
        };
        res.push(a);
        proof {
            assert(attr_views(res@) =~= attr_views(r0).push(want[k as int]));
            assert(want.take(k + 1) =~= want.take(k as int).push(want[k as int]));
        }
        k = k + 1;
    }
    proof {
        assert(want.take(n as int) =~= want);
    }
    res
}

/// Field `j` of struct `i`, as the parser describes it.
fn field_decl(p: &ParsedSource, i: usize, j: usize) -> (res: FieldDecl)
    requires
        field_ok(*p, i as int, j as int),
    ensures
        res@ == struct_at(*p, i as int).named_fields.unwrap()[j as int],
{
    let (name, ty) = field_name_and_type(p, i, j);
    let attrs = read_attrs(p, i, Some(j));
    FieldDecl { name, ty, attrs }
}

/// Struct `i` of the file, as the parser describes it.
fn struct_info(p: &ParsedSource, i: usize, name: String) -> (res: StructInfo)
    requires
        is_struct_at(*p, i as int),
        name@ == struct_at(*p, i as int).name,
    ensures
        res@ == struct_at(*p, i as int),
{
    let attrs = read_attrs(p, i, None);
    let named_fields = match struct_field_count(p, i) {
        Some(m) => {
            let ghost fs = struct_at(*p, i as int).named_fields.unwrap();
            let mut decls: Vec<FieldDecl> = Vec::new();
            let mut j: usize = 0;
            while j < m
                invariant
                    is_struct_at(*p, i as int),
                    struct_at(*p, i as int).named_fields == Some(fs),
                    m == fs.len(),
                    j <= m,
                    crate::parser::field_views(decls@) == fs.take(j as int),
                decreases m - j,
            {
                let ghost d0 = decls@;
                decls.push(field_decl(p, i, j));
                proof {
                    assert(crate::parser::field_views(decls@) =~= crate::parser::field_views(d0).push(fs[j as int]));
                    assert(fs.take(j + 1) =~= fs.take(j as int).push(fs[j as int]));
                }
                j = j + 1;
            }
            proof {
                assert(fs.take(m as int) =~= fs);
            }
            Some(decls)
        },
        None => None,
    };
    StructInfo { name, attrs, named_fields }
}

/// The structs among the items, in order.
pub open spec fn source_structs(items: Seq<ItemModel>) -> Seq<StructModel>
    decreases items.len(),
{
    if items.len() == 0 {
        Seq::empty()
    } else {
        let rest = source_structs(items.drop_last());
        match items.last() {
            ItemModel::Struct(s) => rest.push(s),
            ItemModel::Other => rest,
        }
    }
}

fn read_structs(p: &ParsedSource) -> (res: Vec<StructInfo>)
    requires
        parsed_ok(*p),
    ensures
        crate::parser::struct_views(res@) == source_structs(items_of(*p)),
{
    let n = item_count(p);
    let ghost items = items_of(*p);
    let mut res: Vec<StructInfo> = Vec::new();
    let mut i: usize = 0;
    while i < n
        invariant
            parsed_ok(*p),
            items == items_of(*p),
            n == items.len(),
            i <= n,
            crate::parser::struct_views(res@) == source_structs(items.take(i as int)),
        decreases n - i,
    {
        proof {
            assert(items.take(i + 1).drop_last() =~= items.take(i as int));
            assert(items.take(i + 1).last() == items[i as int]);
        }
        match item_struct_name(p, i) {
            Some(name) => {
                let ghost r0 = res@;
                res.push(struct_info(p, i, name));
                proof {
                    assert(crate::parser::struct_views(res@) =~= crate::parser::struct_views(r0).push(
                        items[i as int]->Struct_0,
                    ));
                }
            },
            None => {},
        }
        i = i + 1;
    }
    proof {
        assert(items.take(n as int) =~= items);
    }
    res
}

fn first_parens_ordered_exec(tokens: &str) -> (res: bool)
    ensures
        res == first_parens_ordered(tokens@),
{
    let t = chars_of(tokens);
    match find_char(&t, '(') {
        Some(s) => match find_char(&t, ')') {
            Some(e) => s < e,
            None => true,
        },
        None => true,
    }
}

fn outer_parens_ordered_exec(tokens: &str) -> (res: bool)
    ensures
        res == outer_parens_ordered(tokens@),
{
    let t = chars_of(tokens);
    match find_char(&t, '(') {
        Some(s) => match rfind_char(&t, ')') {
            Some(e) => s < e,
            None => true,
        },
        None => true,
    }
}

fn name_is(name: &Option<String>, n: &str) -> (res: bool)
    ensures
        res == (crate::schema::opt_str_view(*name) == Some(n@)),
{
    match name {
        Some(x) => str_eq(x.as_str(), n),
        None => false,
    }
}

fn attrs_ok_exec(attrs: &Vec<AttrInfo>) -> (res: bool)
    ensures
        res == attrs_args_ok(attr_views(attrs@)),
{
    let ghost av = attr_views(attrs@);
    let mut i: usize = 0;
    while i < attrs.len()
        invariant
            av == attr_views(attrs@),
            i <= attrs@.len(),
            forall|j: int| 0 <= j < i ==> #[trigger] attr_args_ok(av[j]),
        decreases attrs@.len() - i,
    {
        let a = &attrs[i];
        proof {
            assert(av[i as int] == a@);
        }
        let first = name_is(&a.name, "max_length") || name_is(&a.name, "min_length");
        let outer = name_is(&a.name, "default") || name_is(&a.name, "foreign_key");
        if first && !first_parens_ordered_exec(a.tokens.as_str()) {
            proof {
                assert(!attr_args_ok(av[i as int]));
            }
            return false;
        }
        if outer && !outer_parens_ordered_exec(a.tokens.as_str()) {
            proof {
                assert(!attr_args_ok(av[i as int]));
            }
            return false;
        }
        proof {
            assert(attr_args_ok(av[i as int]));
        }
        i = i + 1;
    }
    true
}

fn struct_ok_exec(st: &StructInfo) -> (res: bool)
    ensures
        res == struct_args_ok(st@),
{
    match &st.named_fields {
        Some(fs) => {
            proof {
                assert(st@.named_fields == Some(crate::parser::field_views(fs@)));
            }
            let mut k: usize = 0;
            while k < fs.len()
                invariant
                    st@.named_fields == Some(crate::parser::field_views(fs@)),
                    k <= fs@.len(),
                    forall|j: int| 0 <= j < k ==> #[trigger] attrs_args_ok(crate::parser::field_views(fs@)[j].attrs),
                decreases fs@.len() - k,
            {
                proof {
                    assert(crate::parser::field_views(fs@)[k as int] == fs@[k as int]@);
                }
                if !attrs_ok_exec(&fs[k].attrs) {
                    proof {
                        assert(!attrs_args_ok(crate::parser::field_views(fs@)[k as int].attrs));
                    }
                    return false;
                }
                k = k + 1;
            }
            true
        },
        None => true,
    }
}

/// The file an error is about.
pub open spec fn error_file(e: ParseErrorModel) -> Option<Seq<char>> {
    match e {
        ParseErrorModel::IoError(_) => None,
        ParseErrorModel::SyntaxError { file, .. } => Some(file),
        ParseErrorModel::InvalidAttribute { file, .. } => Some(file),
    }
}

/// A struct with its fields' attributes left out.
pub open spec fn without_field_attrs(st: StructModel) -> StructModel {
    StructModel {
        named_fields: match st.named_fields {
            Some(fs) => Some(fs.map_values(|f: FieldModel| FieldModel { attrs: Seq::empty(), ..f })),
            None => None,
        },
        ..st
    }
}

pub open spec fn malformed_attribute(file: Seq<char>, st: StructModel) -> ParseErrorModel {
    ParseErrorModel::InvalidAttribute { file, struct_name: st.name, message: "Malformed attribute arguments"@ }
}

/// The table of a struct read from source: when the parser reaches the
/// fields of a struct whose attribute arguments cannot be cut at their
/// parentheses, an invalid attribute; otherwise what `struct_table` gives.
pub open spec fn source_struct_table(st: StructModel, file: Seq<char>, a: bool, b: bool) -> Result<Option<TableModel>, ParseErrorModel> {
    if !struct_args_ok(st) && struct_table(st, file, a, b) matches Ok(Some(_)) {
        Err(malformed_attribute(file, st))
    } else {
        struct_table(st, file, a, b)
    }
}

/// The tables of the first `n` structs of a source file, or the first error.
pub open spec fn source_tables(sts: Seq<StructModel>, file: Seq<char>, a: bool, b: bool, n: int) -> Result<Seq<TableModel>, ParseErrorModel>
    decreases n,
{
    if n <= 0 {
        Ok(Seq::empty())
    } else {
        match source_tables(sts, file, a, b, n - 1) {
            Err(e) => Err(e),
            Ok(ts) => match source_struct_table(sts[n - 1], file, a, b) {
                Err(e) => Err(e),
                Ok(Some(t)) => Ok(ts.push(t)),
                Ok(None) => Ok(ts),
            },
        }
    }
}

/// What parsing a source file gives: the syntax error `syn` reports, or the
/// tables of its structs.
pub open spec fn source_file_tables(source: Seq<char>, file: Seq<char>, a: bool, b: bool) -> Result<Seq<TableModel>, ParseErrorModel> {
    match syn_parse(source) {
        Err(m) => Err(ParseErrorModel::SyntaxError { file, message: m }),
        Ok(items) => source_tables(source_structs(items), file, a, b, source_structs(items).len() as int),
    }
}

proof fn lemma_without_field_attrs(st: StructModel, file: Seq<char>, a: bool, b: bool)
    ensures
        struct_args_ok(without_field_attrs(st)),
        struct_table(without_field_attrs(st), file, a, b) is Err ==> struct_table(without_field_attrs(st), file, a, b)
            == struct_table(st, file, a, b),
        (struct_table(without_field_attrs(st), file, a, b) matches Ok(None)) <==> (struct_table(st, file, a, b) matches Ok(None)),
        (struct_table(without_field_attrs(st), file, a, b) matches Ok(Some(_))) <==> (struct_table(st, file, a, b) matches Ok(Some(_))),
{
    let w = without_field_attrs(st);
    match w.named_fields {
        Some(fs) => {
            assert forall|k: int| 0 <= k < fs.len() implies #[trigger] attrs_args_ok(fs[k].attrs) by {
                assert(fs[k].attrs =~= Seq::<AttrModel>::empty());
            }
        },
        None => {},
    }
}

proof fn lemma_source_tables_error_stays(sts: Seq<StructModel>, file: Seq<char>, a: bool, b: bool, k: int, n: int)
    requires
        0 <= k <= n,
        source_tables(sts, file, a, b, k) is Err,
    ensures
        source_tables(sts, file, a, b, n) == source_tables(sts, file, a, b, k),
    decreases n - k,
{
    if n > k {
        lemma_source_tables_error_stays(sts, file, a, b, k, n - 1);
    }
}

fn strip_field_attrs(st: &StructInfo) -> (res: StructInfo)
    ensures
        res@ == without_field_attrs(st@),
{
    let mut attrs: Vec<AttrInfo> = Vec::new();
    let mut k: usize = 0;
    while k < st.attrs.len()
        invariant
            k <= st.attrs@.len(),
            attr_views(attrs@) == attr_views(st.attrs@).take(k as int),
        decreases st.attrs@.len() - k,
    {
        let ghost a0 = attrs@;
        attrs.push(crate::model_def::copy_attr(&st.attrs[k]));
        proof {
            assert(attr_views(attrs@) =~= attr_views(a0).push(st.attrs@[k as int]@));
            assert(attr_views(st.attrs@).take(k + 1) =~= attr_views(st.attrs@).take(k as int).push(st.attrs@[k as int]@));
        }
        k = k + 1;
    }
    proof {
        assert(attr_views(st.attrs@).take(st.attrs@.len() as int) =~= attr_views(st.attrs@));
    }
    let named_fields = match &st.named_fields {
        Some(fs) => {
            let ghost want = crate::parser::field_views(fs@).map_values(|f: FieldModel| FieldModel { attrs: Seq::empty(), ..f });
            let mut out: Vec<FieldDecl> = Vec::new();
            let mut j: usize = 0;
            while j < fs.len()
                invariant
                    want == crate::parser::field_views(fs@).map_values(|f: FieldModel| FieldModel { attrs: Seq::empty(), ..f }),
                    j <= fs@.len(),
                    crate::parser::field_views(out@) == want.take(j as int),
                decreases fs@.len() - j,
            {
                let ghost o0 = out@;
                let d = FieldDecl { name: crate::schema::clone_opt_str(&fs[j].name), ty: fs[j].ty.clone(), attrs: Vec::new() };
                out.push(d);
                proof {
                    assert(attr_views(d.attrs@) =~= Seq::<AttrModel>::empty());
                    assert(crate::parser::field_views(fs@)[j as int] == fs@[j as int]@);
                    assert(crate::parser::field_views(out@) =~= crate::parser::field_views(o0).push(want[j as int]));
                    assert(want.take(j + 1) =~= want.take(j as int).push(want[j as int]));
                }
                j = j + 1;
            }
            proof {
                assert(want.take(fs@.len() as int) =~= want);
            }
            Some(out)
        },
        None => None,
    };
    StructInfo { name: st.name.clone(), attrs, named_fields }
}

/// Parse Rust source code for model definitions: the syntax error `syn`
/// reports, or the tables of the file's structs, in order. A struct whose
/// fields the parser reads while one of their attributes' arguments cannot be
/// cut at their parentheses is reported as an invalid attribute.
pub fn parse_source(source: &str, file_name: &str, config: &DiscoveryConfig) -> (res: Result<Vec<TableSchema>, ParseError>)
    ensures
        match (res, source_file_tables(source@, file_name@, config.skip_test_models, config.skip_non_migratable)) {
            (Ok(ts), Ok(ms)) => crate::diff::tables_view(ts@) == ms,
            (Err(e), Err(m)) => e@ == m,
            _ => false,
        },
{
    let p = match parse_rust_file(source) {
        Ok(p) => p,
        Err(message) => {
            return Err(ParseError::SyntaxError { file: file_name.to_owned(), message });
        },
    };
    let structs = read_structs(&p);
    let ghost sv = crate::parser::struct_views(structs@);
    let ghost a = config.skip_test_models;
    let ghost b = config.skip_non_migratable;
    let mut tables: Vec<TableSchema> = Vec::new();
    proof {
        assert(crate::diff::tables_view(tables@) =~= Seq::<TableModel>::empty());
        assert(p.source@ == source@);
        assert(source_file_tables(source@, file_name@, a, b) == source_tables(sv, file_name@, a, b, sv.len() as int));
    }
    let mut i: usize = 0;
    while i < structs.len()
        invariant
            source_file_tables(source@, file_name@, a, b) == source_tables(sv, file_name@, a, b, sv.len() as int),
            sv == crate::parser::struct_views(structs@),
            sv.len() == structs@.len(),
            a == config.skip_test_models,
            b == config.skip_non_migratable,
            i <= structs@.len(),
            source_tables(sv, file_name@, a, b, i as int) == Ok::<Seq<TableModel>, ParseErrorModel>(
                crate::diff::tables_view(tables@),
            ),
        decreases structs@.len() - i,
    {
        let st = &structs[i];
        proof {
            assert(sv[i as int] == st@);
        }
        let r = if struct_ok_exec(st) {
            parse_ormada_struct(st, file_name, config)
        } else {
            let bare = strip_field_attrs(st);
            proof {
                lemma_without_field_attrs(st@, file_name@, a, b);
            }
            match parse_ormada_struct(&bare, file_name, config) {
                Ok(Some(_)) => Err(
                    ParseError::InvalidAttribute {
                        file: file_name.to_owned(),
                        struct_name: st.name.clone(),
                        message: "Malformed attribute arguments".to_owned(),
                    },
                ),
                Ok(None) => Ok(None),
                Err(e) => Err(e),
            }
        };
        proof {
            reveal_strlit("Malformed attribute arguments");
        }
        match r {
            Ok(Some(t)) => {
                let ghost t0 = tables@;
                tables.push(t);
                proof {
                    assert(crate::diff::tables_view(tables@) =~= crate::diff::tables_view(t0).push(t@));
                }
            },
            Ok(None) => {},
            Err(e) => {
                proof {
                    lemma_source_tables_error_stays(sv, file_name@, a, b, i + 1, sv.len() as int);
                }
                return Err(e);
            },
        }
        i = i + 1;
    }
    Ok(tables)
}

} // verus!
