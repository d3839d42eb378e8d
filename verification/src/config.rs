//! Configuration of the Ormada command-line tool: where migrations live and
//! which database to use, read from `ormada.toml` or from the
//! `[package.metadata.ormada]` section of `Cargo.toml`; and migration ids.
//!
//! Paths are held as text; the command-line tool turns them into file-system
//! paths.

use vstd::prelude::*;

use chrono::{Datelike, Timelike};

use crate::parser::unquote;
use crate::schema::strs_view;
use crate::text::{
    decimal, decimal_chars, chars_eq, chars_of, has_prefix, is_alphanumeric, join, push_str, spec_is_alphanumeric,
    spec_lowercase, split, split_char, split_once, split_once_char, starts_with, string_of, to_lowercase_chars,
    trim, trim_chars, trim_set, CharSet,
};

verus! {

/// CLI configuration
#[derive(Debug, Clone)]
pub struct CliConfig {
    /// Project root directory
    pub project_root: String,
    /// Migrations directory
    pub migrations_dir: String,
    /// Source directories to scan for models
    pub model_paths: Vec<String>,
    /// Database URL
    pub database_url: Option<String>,
}

impl Default for CliConfig {
    fn default() -> (res: Self)
        ensures
            res.project_root@ == "."@,
            res.migrations_dir@ == "migrations"@,
            strs_view(res.model_paths@) == seq!["src"@],
            res.database_url is None,
    {
        let mut model_paths: Vec<String> = Vec::new();
        model_paths.push("src".to_owned());
        let res = CliConfig {
            project_root: ".".to_owned(),
            migrations_dir: "migrations".to_owned(),
            model_paths,
            database_url: None,
        };
        proof {
            assert(strs_view(res.model_paths@) =~= seq!["src"@]);
        }
        res
    }
}

/// What `std::path::Path::is_absolute` answers for a path given as text, by
/// the rules of the platform the crate is built for.
pub uninterp spec fn spec_path_is_absolute(path: Seq<char>) -> bool;

/// `std::path::Path::is_absolute` on a path given as text. Claimed: the answer
/// is `spec_path_is_absolute` of the text.
#[verifier::external_body]
fn path_is_absolute(path: &str) -> (res: bool)
    ensures
        res == spec_path_is_absolute(path@),
{
    std::path::Path::new(path).is_absolute()
}

/// What `std::path::Path::join` followed by `to_string_lossy` gives for a base
/// and a relative part, by the rules of the platform the crate is built for.
pub uninterp spec fn spec_path_join(base: Seq<char>, rest: Seq<char>) -> Seq<char>;

/// `std::path::Path::join`, the result given back as text (lossily, as
/// `to_string_lossy` does). Claimed: the result is `spec_path_join` of the
/// base and the part joined onto it.
#[verifier::external_body]
fn path_join(base: &str, rest: &str) -> (res: String)
    ensures
        res@ == spec_path_join(base@, rest@),
{
    std::path::Path::new(base).join(rest).to_string_lossy().into_owned()
}

/// The migrations path, given whether the migrations directory is absolute
/// and the directory joined onto the project root: the directory itself when
/// absolute, else the joined path.
pub fn choose_migrations_path(is_abs: bool, dir: String, joined: String) -> (res: String)
    ensures
        res == if is_abs {
            dir
        } else {
            joined
        },
{
    if is_abs {
        dir
    } else {
        joined
    }
}

impl CliConfig {
    /// Get absolute path to migrations directory: the migrations directory
    /// itself when it is absolute, else joined onto the project root.
    pub fn migrations_path(&self) -> (res: String)
        ensures
            res@ == if spec_path_is_absolute(self.migrations_dir@) {
                self.migrations_dir@
            } else {
                spec_path_join(self.project_root@, self.migrations_dir@)
            },
    {
        let is_abs = path_is_absolute(self.migrations_dir.as_str());
        let joined = path_join(self.project_root.as_str(), self.migrations_dir.as_str());
        choose_migrations_path(is_abs, self.migrations_dir.clone(), joined)
    }
}

// ---------------------------------------------------------------------------
// Slugs and migration ids
// ---------------------------------------------------------------------------

/// Every character that is not alphanumeric replaced by `_`.
pub open spec fn alnum_or_underscore(s: Seq<char>) -> Seq<char> {
    Seq::new(s.len(), |i: int| if spec_is_alphanumeric(s[i]) { s[i] } else { '_' })
}

/// The non-empty pieces, in order.
pub open spec fn non_empty(parts: Seq<Seq<char>>) -> Seq<Seq<char>>
    decreases parts.len(),
{
    if parts.len() == 0 {
        Seq::empty()
    } else {
        let rest = non_empty(parts.drop_last());
        if parts.last().len() == 0 {
            rest
        } else {
            rest.push(parts.last())
        }
    }
}

/// The slug of a name: lowercased, each run of characters other than letters
/// and digits turned into one `_`, with none at either end.
pub open spec fn slug_of(name: Seq<char>) -> Seq<char> {
    join(non_empty(split(alnum_or_underscore(spec_lowercase(name)), '_')), "_"@)
}

/// Convert a name to a slug (lowercase, underscores)
pub fn slugify(name: &str) -> (res: String)
    ensures
        res@ == slug_of(name@),
{
    let cs = chars_of(name);
    let lower = to_lowercase_chars(&cs);
    let mut mapped: Vec<char> = Vec::new();
    let mut i: usize = 0;
    while i < lower.len()
        invariant
            i <= lower@.len(),
            mapped@ == alnum_or_underscore(lower@).take(i as int),
        decreases lower@.len() - i,
    {
        let c = lower[i];
        if is_alphanumeric(c) {
            mapped.push(c);
        } else {
            mapped.push('_');
        }
        i = i + 1;
        proof {
            assert(mapped@ =~= alnum_or_underscore(lower@).take(i as int));
        }
    }
    proof {
        assert(mapped@ =~= alnum_or_underscore(lower@));
    }
    let parts = split_char(&mapped, '_');
    let ghost ps = split(mapped@, '_');
    let mut kept: Vec<Vec<char>> = Vec::new();
    let mut k: usize = 0;
    while k < parts.len()
        invariant
            parts@.len() == ps.len(),
            forall|j: int| 0 <= j < parts@.len() ==> #[trigger] parts@[j]@ == ps[j],
            k <= parts@.len(),
            crate::diff::keys_view(kept@) == non_empty(ps.take(k as int)),
        decreases parts@.len() - k,
    {
        proof {
            assert(ps.take(k + 1).drop_last() =~= ps.take(k as int));
        }
        if parts[k].len() > 0 {
            let ghost k0 = kept@;
            kept.push(crate::text::copy_chars(&parts[k]));
            proof {
                assert(crate::diff::keys_view(kept@) =~= crate::diff::keys_view(k0).push(ps[k as int]));
            }
        }
        k = k + 1;
    }
    proof {
        assert(ps.take(parts@.len() as int) =~= ps);
    }
    let sep = chars_of("_");
    let joined = crate::text::join_chars(&kept, &sep);
    string_of(&joined)
}

pub open spec fn lacks_char(p: Seq<char>, c: char) -> bool {
    forall|j: int| 0 <= j < p.len() ==> p[j] != c
}

proof fn lemma_split_pieces_lack(s: Seq<char>, c: char)
    ensures
        forall|k: int| 0 <= k < split(s, c).len() ==> lacks_char(#[trigger] split(s, c)[k], c),
    decreases s.len(),
{
    crate::text::lemma_index_from_bounds(s, c, 0);
    let i = crate::text::find(s, c);
    if i < 0 || i >= s.len() {
    } else {
        let rest = s.subrange(i + 1, s.len() as int);
        lemma_split_pieces_lack(rest, c);
        let parts = split(s, c);
        assert(parts == seq![s.subrange(0, i)] + split(rest, c));
        assert forall|k: int| 0 <= k < parts.len() implies lacks_char(#[trigger] parts[k], c) by {
            if k > 0 {
                assert(parts[k] == split(rest, c)[k - 1]);
            }
        }
    }
}

proof fn lemma_non_empty_pieces(parts: Seq<Seq<char>>, c: char)
    requires
        forall|k: int| 0 <= k < parts.len() ==> lacks_char(#[trigger] parts[k], c),
    ensures
        forall|k: int| 0 <= k < non_empty(parts).len() ==> lacks_char(#[trigger] non_empty(parts)[k], c) && non_empty(parts)[k].len() > 0,
    decreases parts.len(),
{
    if parts.len() > 0 {
        let init = parts.drop_last();
        assert forall|k: int| 0 <= k < init.len() implies lacks_char(#[trigger] init[k], c) by {
            assert(init[k] == parts[k]);
        }
        lemma_non_empty_pieces(init, c);
        assert(lacks_char(parts[parts.len() - 1], c));
        let rest = non_empty(init);
        if parts.last().len() > 0 {
            assert forall|k: int| 0 <= k < rest.push(parts.last()).len() implies lacks_char(
                #[trigger] rest.push(parts.last())[k],
                c,
            ) && rest.push(parts.last())[k].len() > 0 by {
                if k < rest.len() {
                    assert(rest.push(parts.last())[k] == rest[k]);
                }
            }
        }
    }
}

/// Two `_` in a row at position `i`.
pub open spec fn double_underscore_at(s: Seq<char>, i: int) -> bool {
    s[i] == '_' && s[i + 1] == '_'
}

/// Neither starts nor ends with `_`, and never has two `_` in a row.
pub open spec fn clean_slug(s: Seq<char>) -> bool {
    &&& s.len() > 0 ==> s[0] != '_' && s.last() != '_'
    &&& forall|i: int| 0 <= i < s.len() - 1 ==> !#[trigger] double_underscore_at(s, i)
}

/// Joined with `_`, pieces that are non-empty and have no `_` give a clean slug.
proof fn lemma_join_clean(parts: Seq<Seq<char>>)
    requires
        forall|k: int| 0 <= k < parts.len() ==> lacks_char(#[trigger] parts[k], '_') && parts[k].len() > 0,
    ensures
        clean_slug(join(parts, "_"@)),
    decreases parts.len(),
{
    reveal_strlit("_");
    if parts.len() == 1 {
        assert(lacks_char(parts[0], '_'));
    } else if parts.len() > 1 {
        let init = parts.drop_last();
        lemma_join_clean(init);
        let a = join(init, "_"@);
        let l = parts.last();
        assert(lacks_char(parts[parts.len() - 1], '_'));
        let j = join(parts, "_"@);
        assert(j == a + "_"@ + l);
        assert(a.len() > 0) by {
            lemma_join_nonempty(init);
        }
        assert forall|i: int| 0 <= i < j.len() - 1 implies !#[trigger] double_underscore_at(j, i) by {
            if i < a.len() - 1 {
                assert(!double_underscore_at(a, i));
                assert(j[i] == a[i] && j[i + 1] == a[i + 1]);
            } else if i == a.len() - 1 {
                assert(j[i] == a.last());
            } else if i == a.len() {
                assert(j[i + 1] == l[0]);
            } else {
                assert(j[i] == l[i - a.len() - 1]);
            }
        }
        assert(j[0] == a[0]);
        assert(j.last() == l.last());
    }
}

proof fn lemma_join_nonempty(parts: Seq<Seq<char>>)
    requires
        parts.len() > 0,
        forall|k: int| 0 <= k < parts.len() ==> (#[trigger] parts[k]).len() > 0,
    ensures
        join(parts, "_"@).len() > 0,
    decreases parts.len(),
{
    if parts.len() > 1 {
        lemma_join_nonempty(parts.drop_last());
    }
}

/// A slug neither starts nor ends with `_`, and never has two `_` in a row.
pub proof fn law_slug_is_clean(name: Seq<char>)
    ensures
        clean_slug(slug_of(name)),
{
    let pieces = split(alnum_or_underscore(spec_lowercase(name)), '_');
    lemma_split_pieces_lack(alnum_or_underscore(spec_lowercase(name)), '_');
    lemma_non_empty_pieces(pieces, '_');
    lemma_join_clean(non_empty(pieces));
}

/// A migration id: `m`, the timestamp, `_`, and the slug of the name.
pub open spec fn migration_id_text(timestamp: Seq<char>, name: Seq<char>) -> Seq<char> {
    "m"@ + timestamp + "_"@ + slug_of(name)
}

/// The migration id for a name at a given timestamp text.
pub fn migration_id(timestamp: &str, name: &str) -> (res: String)
    ensures
        res@ == migration_id_text(timestamp@, name@),
{
    let mut s = String::new();
    push_str(&mut s, "m");
    push_str(&mut s, timestamp);
    push_str(&mut s, "_");
    let slug = slugify(name);
    push_str(&mut s, slug.as_str());
    proof {
        assert(s@ =~= migration_id_text(timestamp@, name@));
    }
    s
}

/// The seconds since the Unix epoch that the system clock reads
/// (`SystemTime::now().duration_since(UNIX_EPOCH)`), or `None` when it reads
/// earlier. The time is read from the clock, so nothing is claimed of it.
#[verifier::external_body]
fn clock_seconds() -> (res: Option<u64>) {
    match std::time::SystemTime::now().duration_since(std::time::UNIX_EPOCH) {
        Ok(d) => Some(d.as_secs()),
        Err(_) => None,
    }
}

/// The calendar fields (year, month, day, hour, minute, second) of the UTC
/// instant `secs` seconds after the Unix epoch, as `chrono` computes them, or
/// `None` outside the range of `chrono::DateTime`.
pub uninterp spec fn spec_utc_fields(secs: i64) -> Option<(i32, u32, u32, u32, u32, u32)>;

/// `chrono::DateTime::<Utc>::from_timestamp(secs, 0)` and its calendar fields
/// (`year`, `month`, `day`, `hour`, `minute`, `second`). Claimed: the result is
/// `spec_utc_fields(secs)`, and as `chrono` documents, months are 1 to 12, days
/// 1 to 31, hours 0 to 23, minutes and seconds 0 to 59.
#[verifier::external_body]
fn utc_fields(secs: i64) -> (res: Option<(i32, u32, u32, u32, u32, u32)>)
    ensures
        res == spec_utc_fields(secs),
        res matches Some((y, mo, d, h, mi, se)) ==> 1 <= mo <= 12 && 1 <= d <= 31 && h <= 23 && mi <= 59
            && se <= 59,
{
    match chrono::DateTime::<chrono::Utc>::from_timestamp(secs, 0) {
        Some(t) => Some((t.year(), t.month(), t.day(), t.hour(), t.minute(), t.second())),
        None => None,
    }
}

/// `n` in decimal, zero-padded on the left to `width` digits.
pub open spec fn zero_padded(n: nat, width: nat) -> Seq<char> {
    let d = decimal(n);
    if d.len() >= width {
        d
    } else {
        Seq::new((width - d.len()) as nat, |i: int| '0') + d
    }
}

/// A year as `%Y` writes it: four digits, zero-padded, with a sign before
/// years after 9999 and before year 0.
pub open spec fn year_text(y: int) -> Seq<char> {
    if 0 <= y <= 9999 {
        zero_padded(y as nat, 4)
    } else if y > 9999 {
        seq!['+'] + decimal(y as nat)
    } else {
        seq!['-'] + zero_padded((-y) as nat, 4)
    }
}

/// The timestamp of a migration id: `YYYYmmdd_HHMMSS`.
pub open spec fn timestamp_text(f: (i32, u32, u32, u32, u32, u32)) -> Seq<char> {
    year_text(f.0 as int) + zero_padded(f.1 as nat, 2) + zero_padded(f.2 as nat, 2) + seq!['_'] + zero_padded(
        f.3 as nat,
        2,
    ) + zero_padded(f.4 as nat, 2) + zero_padded(f.5 as nat, 2)
}

fn push_padded(s: &mut String, n: u64, width: usize)
    requires
        width <= 8,
    ensures
        final(s)@ == old(s)@ + zero_padded(n as nat, width as nat),
{
    let d = decimal_chars(n);
    let ghost s0 = s@;
    if d.len() < width {
        let mut k: usize = 0;
        let pad = width - d.len();
        while k < pad
            invariant
                k <= pad,
                pad == width - d@.len(),
                s@ == s0 + Seq::new(k as nat, |i: int| '0'),
            decreases pad - k,
        {
            s.push('0');
            proof {
                assert(Seq::new(k as nat, |i: int| '0').push('0') =~= Seq::new((k + 1) as nat, |i: int| '0'));
            }
            k = k + 1;
        }
    }
    crate::text::push_chars(s, &d);
    proof {
        if d@.len() >= width {
            assert(s@ =~= s0 + d@);
        }
    }
}

/// The `YYYYmmdd_HHMMSS` text of calendar fields.
pub fn timestamp_of(f: (i32, u32, u32, u32, u32, u32)) -> (res: String)
    ensures
        res@ == timestamp_text(f),
{
    let mut s = String::new();
    let y: i64 = f.0 as i64;
    if 0 <= y && y <= 9999 {
        push_padded(&mut s, y as u64, 4);
    } else if y > 9999 {
        s.push('+');
        let d = decimal_chars(y as u64);
        crate::text::push_chars(&mut s, &d);
    } else {
        s.push('-');
        push_padded(&mut s, (-y) as u64, 4);
    }
    push_padded(&mut s, f.1 as u64, 2);
    push_padded(&mut s, f.2 as u64, 2);
    s.push('_');
    push_padded(&mut s, f.3 as u64, 2);
    push_padded(&mut s, f.4 as u64, 2);
    push_padded(&mut s, f.5 as u64, 2);
    proof {
        assert(s@ =~= timestamp_text(f));
    }
    s
}

/// Ten to the power `k`.
pub open spec fn tens(k: nat) -> nat
    decreases k,
{
    if k == 0 {
        1
    } else {
        10 * tens((k - 1) as nat)
    }
}

proof fn lemma_decimal_len(n: nat, k: nat)
    requires
        k >= 1,
        n < tens(k),
    ensures
        decimal(n).len() <= k,
    decreases k,
{
    if n >= 10 {
        if k == 1 {
            assert(tens(0) == 1);
            assert(tens(1) == 10);
        } else {
            let t = tens((k - 1) as nat);
            assert(n / 10 < t) by (nonlinear_arith)
                requires
                    n < 10 * t,
            ;
            lemma_decimal_len(n / 10, (k - 1) as nat);
        }
    }
}

proof fn lemma_padded_len(n: nat, width: nat)
    requires
        width >= 1,
        n < tens(width),
    ensures
        zero_padded(n, width).len() == width,
{
    lemma_decimal_len(n, width);
}

/// The timestamp of a migration id has the shape `YYYYmmdd_HHMMSS`: fifteen
/// characters with the underscore ninth, for the years 0 to 9999.
pub proof fn law_timestamp_shape(f: (i32, u32, u32, u32, u32, u32))
    requires
        0 <= f.0 <= 9999,
        1 <= f.1 <= 12,
        1 <= f.2 <= 31,
        f.3 <= 23,
        f.4 <= 59,
        f.5 <= 59,
    ensures
        timestamp_text(f).len() == 15,
        timestamp_text(f)[8] == '_',
{
    assert(tens(0) == 1);
    assert(tens(1) == 10);
    assert(tens(2) == 100);
    assert(tens(3) == 1000);
    assert(tens(4) == 10000);
    lemma_padded_len(f.0 as nat, 4);
    lemma_padded_len(f.1 as nat, 2);
    lemma_padded_len(f.2 as nat, 2);
    lemma_padded_len(f.3 as nat, 2);
    lemma_padded_len(f.4 as nat, 2);
    lemma_padded_len(f.5 as nat, 2);
    let date = year_text(f.0 as int) + zero_padded(f.1 as nat, 2) + zero_padded(f.2 as nat, 2);
    assert(date.len() == 8);
    assert((date + seq!['_'])[8] == '_');
}

/// The migration id for `name` at the UTC instant `secs` seconds after the
/// Unix epoch; `None` when that instant is beyond the range of dates.
pub fn migration_id_at(secs: u64, name: &str) -> (res: Option<String>)
    ensures
        res is Some <==> (secs <= i64::MAX && spec_utc_fields(secs as i64) is Some),
        res matches Some(id) ==> id@ == migration_id_text(
            timestamp_text(spec_utc_fields(secs as i64)->0),
            name@,
        ),
        res matches Some(id) ==> exists|f: (i32, u32, u32, u32, u32, u32)|
            1 <= f.1 <= 12 && 1 <= f.2 <= 31 && f.3 <= 23 && f.4 <= 59 && f.5 <= 59
                && id@ == migration_id_text(timestamp_text(f), name@),
{
    if secs > i64::MAX as u64 {
        return None;
    }
    let f = match utc_fields(secs as i64) {
        Some(f) => f,
        None => return None,
    };
    let ts = timestamp_of(f);
    let res = migration_id(ts.as_str(), name);
    proof {
        assert(res@ == migration_id_text(timestamp_text(f), name@));
    }
    Some(res)
}

/// Generate a migration ID from the current UTC time and a name; `None` when
/// the clock reads before the Unix epoch or beyond the range of dates.
pub fn generate_migration_id(name: &str) -> (res: Option<String>)
    ensures
        res matches Some(id) ==> exists|f: (i32, u32, u32, u32, u32, u32)|
            1 <= f.1 <= 12 && 1 <= f.2 <= 31 && f.3 <= 23 && f.4 <= 59 && f.5 <= 59
                && id@ == migration_id_text(timestamp_text(f), name@),
{
    match clock_seconds() {
        Some(secs) => migration_id_at(secs, name),
        None => None,
    }
}

// ---------------------------------------------------------------------------
// Configuration files
// ---------------------------------------------------------------------------

/// The configuration settings as text.
pub struct ConfigModel {
    pub migrations_dir: Seq<char>,
    pub database_url: Option<Seq<char>>,
}

pub open spec fn config_model(c: CliConfig) -> ConfigModel {
    ConfigModel { migrations_dir: c.migrations_dir@, database_url: crate::schema::opt_str_view(c.database_url) }
}

/// The unquoted value after the first `=` of a line.
pub open spec fn line_value(line: Seq<char>) -> Option<Seq<char>> {
    match split_once(line, '=') {
        Some((_k, v)) => Some(unquote(trim(v))),
        None => None,
    }
}

/// One line of `ormada.toml` applied to the settings.
pub open spec fn ormada_line(c: ConfigModel, raw: Seq<char>) -> ConfigModel {
    let line = trim(raw);
    let c1 = if has_prefix(line, "migrations_dir"@) {
        match line_value(line) {
            Some(v) => ConfigModel { migrations_dir: v, ..c },
            None => c,
        }
    } else {
        c
    };
    if has_prefix(line, "url"@) && !has_prefix(line, "#"@) {
        match line_value(line) {
            Some(v) => ConfigModel { database_url: Some(v), ..c1 },
            None => c1,
        }
    } else {
        c1
    }
}

/// The settings after the first `n` lines of `ormada.toml`.
pub open spec fn ormada_lines(c: ConfigModel, lines: Seq<Seq<char>>, n: int) -> ConfigModel
    decreases n,
{
    if n <= 0 {
        c
    } else {
        ormada_line(ormada_lines(c, lines, n - 1), lines[n - 1])
    }
}

fn line_value_exec(line: &Vec<char>) -> (res: Option<String>)
    ensures
        match res {
            Some(v) => line_value(line@) == Some(v@),
            None => line_value(line@) is None,
        },
{
    match split_once_char(line, '=') {
        Some((_k, v)) => {
            let vt = trim_chars(&v);
            let u = trim_set(&vt, CharSet::Only('"'));
            Some(string_of(&u))
        },
        None => None,
    }
}

fn begins(line: &Vec<char>, prefix: &str) -> (res: bool)
    ensures
        res == has_prefix(line@, prefix@),
{
    let p = chars_of(prefix);
    starts_with(line, &p)
}

/// Parse ormada.toml config content
pub fn parse_ormada_config(content: &str, config: &mut CliConfig)
    ensures
        config_model(*final(config)) == ormada_lines(config_model(*old(config)), split(content@, '\n'), split(content@, '\n').len() as int),
        final(config).project_root == old(config).project_root,
        final(config).model_paths == old(config).model_paths,
{
    let ghost c0 = config_model(*config);
    let cs = chars_of(content);
    let lines = split_char(&cs, '\n');
    let ghost ls = split(content@, '\n');
    let mut i: usize = 0;
    while i < lines.len()
        invariant
            lines@.len() == ls.len(),
            ls == split(content@, '\n'),
            forall|j: int| 0 <= j < lines@.len() ==> #[trigger] lines@[j]@ == ls[j],
            i <= lines@.len(),
            config_model(*config) == ormada_lines(c0, ls, i as int),
            config.project_root == old(config).project_root,
            config.model_paths == old(config).model_paths,
        decreases lines@.len() - i,
    {
        let line = trim_chars(&lines[i]);
        if begins(&line, "migrations_dir") {
            match line_value_exec(&line) {
                Some(v) => {
                    config.migrations_dir = v;
                },
                None => {},
            }
        }
        if begins(&line, "url") && !begins(&line, "#") {
            match line_value_exec(&line) {
                Some(v) => {
                    config.database_url = Some(v);
                },
                None => {},
            }
        }
        i = i + 1;
    }
}

/// The state of reading `Cargo.toml`: the settings, and whether the current
/// section is Ormada's.
pub struct CargoScan {
    pub config: ConfigModel,
    pub in_section: bool,
}

/// One line of `Cargo.toml` applied to the scan: a section header switches
/// Ormada's section on or off; inside it, `migrations_dir`/`dir` and
/// `database_url` lines set the settings.
pub open spec fn cargo_line(s: CargoScan, raw: Seq<char>) -> CargoScan {
    let line = trim(raw);
    if has_prefix(line, "["@) {
        CargoScan {
            in_section: line == "[package.metadata.ormada]"@ || line == "[package.metadata.ormada.migrations]"@,
            ..s
        }
    } else if !s.in_section {
        s
    } else {
        let c = s.config;
        let c1 = if has_prefix(line, "migrations_dir"@) || has_prefix(line, "dir"@) {
            match line_value(line) {
                Some(v) => ConfigModel { migrations_dir: v, ..c },
                None => c,
            }
        } else {
            c
        };
        let c2 = if has_prefix(line, "database_url"@) {
            match line_value(line) {
                Some(v) => ConfigModel { database_url: Some(v), ..c1 },
                None => c1,
            }
        } else {
            c1
        };
        CargoScan { config: c2, ..s }
    }
}

/// The scan after the first `n` lines of `Cargo.toml`.
pub open spec fn cargo_lines(s: CargoScan, lines: Seq<Seq<char>>, n: int) -> CargoScan
    decreases n,
{
    if n <= 0 {
        s
    } else {
        cargo_line(cargo_lines(s, lines, n - 1), lines[n - 1])
    }
}

fn line_is(line: &Vec<char>, text: &str) -> (res: bool)
    ensures
        res == (line@ == text@),
{
    let t = chars_of(text);
    chars_eq(line, &t)
}

/// Parse [package.metadata.ormada] from Cargo.toml
pub fn parse_cargo_metadata(content: &str, config: &mut CliConfig)
    ensures
        config_model(*final(config)) == cargo_lines(
            CargoScan { config: config_model(*old(config)), in_section: false },
            split(content@, '\n'),
            split(content@, '\n').len() as int,
        ).config,
        final(config).project_root == old(config).project_root,
        final(config).model_paths == old(config).model_paths,
{
    let ghost s0 = CargoScan { config: config_model(*config), in_section: false };
    let cs = chars_of(content);
    let lines = split_char(&cs, '\n');
    let ghost ls = split(content@, '\n');
    let mut in_ormada_section = false;
    let mut i: usize = 0;
    while i < lines.len()
        invariant
            lines@.len() == ls.len(),
            ls == split(content@, '\n'),
            forall|j: int| 0 <= j < lines@.len() ==> #[trigger] lines@[j]@ == ls[j],
            i <= lines@.len(),
            cargo_lines(s0, ls, i as int) == (CargoScan { config: config_model(*config), in_section: in_ormada_section }),
            config.project_root == old(config).project_root,
            config.model_paths == old(config).model_paths,
        decreases lines@.len() - i,
    {
        let line = trim_chars(&lines[i]);
        if begins(&line, "[") {
            in_ormada_section = line_is(&line, "[package.metadata.ormada]") || line_is(
                &line,
                "[package.metadata.ormada.migrations]",
            );
        } else if in_ormada_section {
            if begins(&line, "migrations_dir") || begins(&line, "dir") {
                match line_value_exec(&line) {
                    Some(v) => {
                        config.migrations_dir = v;
                    },
                    None => {},
                }
            }
            if begins(&line, "database_url") {
                match line_value_exec(&line) {
                    Some(v) => {
                        config.database_url = Some(v);
                    },
                    None => {},
                }
            }
        }
        i = i + 1;
    }
}

} // verus!
