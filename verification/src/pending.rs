//! Migrations waiting to be applied: their checksums, which of them are still
//! pending, and which applied ones no longer match their local source.

use vstd::prelude::*;

use sha2::Digest;
use vstd::string::StringSliceAdditionalSpecFns;

use crate::text::{chars_of, has_sub, push_chars, push_str, slice_chars, str_eq};

verus! {

// ---------------------------------------------------------------------------
// Checksums
// ---------------------------------------------------------------------------

/// The SHA-256 digest of a byte sequence.
pub uninterp spec fn spec_sha256(data: Seq<u8>) -> Seq<u8>;

/// `sha2::Sha256::digest`: the SHA-256 digest of `data`, which is 32 bytes long.
#[verifier::external_body]
fn sha256_digest(data: &[u8]) -> (res: Vec<u8>)
    ensures
        res@ == spec_sha256(data@),
        res@.len() == 32,
{
    sha2::Sha256::digest(data).to_vec()
}

/// The lowercase hexadecimal digit for a value below 16.
pub open spec fn hex_digit(d: int) -> char {
    if d < 10 {
        (48 + d) as char
    } else {
        (87 + d) as char
    }
}

/// Lowercase hexadecimal text of a byte sequence: two digits per byte, the
/// high nibble first.
pub open spec fn hex_of(bytes: Seq<u8>) -> Seq<char> {
    Seq::new(
        2 * bytes.len(),
        |i: int|
            if i % 2 == 0 {
                hex_digit(bytes[i / 2] as int / 16)
            } else {
                hex_digit(bytes[i / 2] as int % 16)
            },
    )
}

/// `hex::encode`: each byte becomes two lowercase hexadecimal digits, the high
/// nibble first, in the order of the bytes.
#[verifier::external_body]
fn hex_encode(data: &[u8]) -> (res: String)
    ensures
        res@ == hex_of(data@),
{
    hex::encode(data)
}

/// The checksum of migration text: the hex-encoded SHA-256 of its UTF-8 bytes.
pub open spec fn checksum_of(bytes: Seq<u8>) -> Seq<char> {
    hex_of(spec_sha256(bytes))
}

/// Compute SHA256 checksum of content
pub fn compute_checksum(content: &str) -> (res: String)
    ensures
        res@ == checksum_of(content.spec_bytes()),
        res@.len() == 64,
{
    let bytes = content.as_bytes();
    let digest = sha256_digest(bytes);
    hex_encode(digest.as_slice())
}

// ---------------------------------------------------------------------------
// Pending migrations
// ---------------------------------------------------------------------------

/// Represents a pending migration to be applied
#[derive(Debug)]
pub struct PendingMigration {
    /// Migration version/ID
    pub version: String,
    /// Human-readable name
    pub name: String,
    /// SQL content to execute
    pub sql: String,
    /// SHA256 checksum
    pub checksum: String,
}

pub struct PendingModel {
    pub version: Seq<char>,
    pub name: Seq<char>,
    pub sql: Seq<char>,
    pub checksum: Seq<char>,
}

impl View for PendingMigration {
    type V = PendingModel;

    open spec fn view(&self) -> PendingModel {
        PendingModel {
            version: self.version@,
            name: self.name@,
            sql: self.sql@,
            checksum: self.checksum@,
        }
    }
}

impl PendingMigration {
    /// Create a new pending migration
    pub fn new(version: &str, name: &str, sql: &str) -> (res: Self)
        ensures
            res@ == (PendingModel {
                version: version@,
                name: name@,
                sql: sql@,
                checksum: checksum_of(sql.spec_bytes()),
            }),
    {
        let checksum = compute_checksum(sql);
        PendingMigration {
            version: sql_owned(version),
            name: sql_owned(name),
            sql: sql_owned(sql),
            checksum,
        }
    }
}

fn sql_owned(s: &str) -> (res: String)
    ensures
        res@ == s@,
{
    s.to_owned()
}

impl Clone for PendingMigration {
    fn clone(&self) -> (res: Self)
        ensures
            res@ == self@,
    {
        PendingMigration {
            version: self.version.clone(),
            name: self.name.clone(),
            sql: self.sql.clone(),
            checksum: self.checksum.clone(),
        }
    }
}

pub open spec fn pending_views(ms: Seq<PendingMigration>) -> Seq<PendingModel> {
    ms.map_values(|m: PendingMigration| m@)
}

pub open spec fn str_views(vs: Seq<&str>) -> Seq<Seq<char>> {
    vs.map_values(|s: &str| s@)
}

/// The migrations whose version is not among `applied`, in their order.
pub open spec fn unapplied(ms: Seq<PendingModel>, applied: Seq<Seq<char>>) -> Seq<PendingModel>
    decreases ms.len(),
{
    if ms.len() == 0 {
        Seq::empty()
    } else {
        let rest = unapplied(ms.drop_last(), applied);
        if applied.contains(ms.last().version) {
            rest
        } else {
            rest.push(ms.last())
        }
    }
}

fn contains_str(vs: &[&str], s: &str) -> (res: bool)
    ensures
        res == str_views(vs@).contains(s@),
{
    let mut j: usize = 0;
    while j < vs.len()
        invariant
            j <= vs@.len(),
            forall|k: int| 0 <= k < j ==> vs@[k]@ != s@,
        decreases vs@.len() - j,
    {
        if str_eq(vs[j], s) {
            proof {
                assert(str_views(vs@)[j as int] == s@);
            }
            return true;
        }
        j = j + 1;
    }
    proof {
        if str_views(vs@).contains(s@) {
            let k = choose|k: int| 0 <= k < str_views(vs@).len() && str_views(vs@)[k] == s@;
            assert(vs@[k]@ == s@);
        }
    }
    false
}

/// Helper to filter pending migrations without database
pub fn filter_pending_migrations(
    all_migrations: &[PendingMigration],
    applied_versions: &[&str],
) -> (res: Vec<PendingMigration>)
    ensures
        pending_views(res@) == unapplied(pending_views(all_migrations@), str_views(applied_versions@)),
{
    let mut res: Vec<PendingMigration> = Vec::new();
    let mut i: usize = 0;
    while i < all_migrations.len()
        invariant
            i <= all_migrations@.len(),
            pending_views(res@) == unapplied(
                pending_views(all_migrations@).subrange(0, i as int),
                str_views(applied_versions@),
            ),
        decreases all_migrations@.len() - i,
    {
        let ghost prefix = pending_views(all_migrations@).subrange(0, i as int + 1);
        proof {
            assert(prefix.drop_last() =~= pending_views(all_migrations@).subrange(0, i as int));
            assert(prefix.last() == all_migrations@[i as int]@);
        }
        if !contains_str(applied_versions, all_migrations[i].version.as_str()) {
            let m = all_migrations[i].clone();
            let ghost r0 = res@;
            res.push(m);
            proof {
                assert(pending_views(res@) =~= pending_views(r0).push(m@));
            }
        }
        i = i + 1;
    }
    proof {
        assert(pending_views(all_migrations@).subrange(0, all_migrations@.len() as int) =~= pending_views(
            all_migrations@,
        ));
    }
    res
}

/// Filtering keeps exactly the migrations whose version has not been applied:
/// every kept migration is unapplied, every unapplied migration is kept, the
/// original order is preserved (kept ones form a subsequence), and with
/// nothing applied every migration is pending.
pub proof fn law_pending_are_exactly_the_unapplied(ms: Seq<PendingModel>, applied: Seq<Seq<char>>)
    ensures
        forall|k: int| 0 <= k < unapplied(ms, applied).len() ==> !applied.contains(#[trigger] unapplied(ms, applied)[k].version),
        forall|i: int| 0 <= i < ms.len() && !applied.contains(#[trigger] ms[i].version) ==> unapplied(ms, applied).contains(ms[i]),
        forall|k: int| 0 <= k < unapplied(ms, applied).len() ==> ms.contains(#[trigger] unapplied(ms, applied)[k]),
        unapplied(ms, Seq::empty()) == ms,
    decreases ms.len(),
{
    if ms.len() > 0 {
        let init = ms.drop_last();
        law_pending_are_exactly_the_unapplied(init, applied);
        let r = unapplied(init, applied);
        assert forall|i: int| 0 <= i < ms.len() && !applied.contains(#[trigger] ms[i].version) implies unapplied(ms, applied).contains(ms[i]) by {
            if i < ms.len() - 1 {
                assert(init[i] == ms[i]);
                let j = choose|j: int| 0 <= j < r.len() && r[j] == init[i];
                if !applied.contains(ms.last().version) {
                    assert(r.push(ms.last())[j] == ms[i]);
                }
            } else {
                assert(r.push(ms.last())[r.len() as int] == ms[i]);
            }
        }
        assert forall|k: int| 0 <= k < unapplied(ms, applied).len() implies ms.contains(#[trigger] unapplied(ms, applied)[k]) by {
            if k < r.len() {
                let j = choose|j: int| 0 <= j < init.len() && init[j] == r[k];
                assert(ms[j] == init[j]);
            } else {
                assert(ms[ms.len() - 1] == ms.last());
            }
        }
        assert(unapplied(ms, Seq::empty()) =~= ms);
    } else {
        assert(unapplied(ms, Seq::empty()) =~= ms);
    }
}

/// The same SQL text always gets the same checksum.
pub proof fn law_same_sql_same_checksum(a: &str, b: &str)
    requires
        a@ == b@,
    ensures
        checksum_of(a.spec_bytes()) == checksum_of(b.spec_bytes()),
{
}

// ---------------------------------------------------------------------------
// Applied migrations and checksum verification
// ---------------------------------------------------------------------------

/// Represents an applied migration record
#[derive(Debug)]
pub struct AppliedMigration {
    /// Migration version/ID (e.g., "m20231222_100000_initial")
    pub version: String,
    /// Human-readable name
    pub name: String,
    /// SHA256 checksum of migration content
    pub checksum: String,
    /// When the migration was applied, in microseconds since the Unix epoch (UTC)
    pub applied_at: i64,
}

pub struct AppliedModel {
    pub version: Seq<char>,
    pub name: Seq<char>,
    pub checksum: Seq<char>,
}

impl View for AppliedMigration {
    type V = AppliedModel;

    open spec fn view(&self) -> AppliedModel {
        AppliedModel { version: self.version@, name: self.name@, checksum: self.checksum@ }
    }
}

pub open spec fn applied_views(ms: Seq<AppliedMigration>) -> Seq<AppliedModel> {
    ms.map_values(|m: AppliedMigration| m@)
}

/// The number of bytes UTF-8 uses for a character.
pub open spec fn utf8_width(c: char) -> int {
    if (c as u32) < 0x80 {
        1
    } else if (c as u32) < 0x800 {
        2
    } else if (c as u32) < 0x10000 {
        3
    } else {
        4
    }
}

/// The length in bytes of the UTF-8 encoding of a text.
pub open spec fn utf8_len(s: Seq<char>) -> int
    decreases s.len(),
{
    if s.len() == 0 {
        0
    } else {
        utf8_len(s.drop_last()) + utf8_width(s.last())
    }
}

/// The first `n` bytes of the text end on a character boundary.
pub open spec fn has_byte_boundary(s: Seq<char>, n: int) -> bool {
    exists|k: int| 0 <= k <= s.len() && #[trigger] utf8_len(s.take(k)) == n
}

/// The characters making up the first `n` bytes of the text.
pub open spec fn byte_prefix(s: Seq<char>, n: int) -> Seq<char> {
    s.take(choose|k: int| 0 <= k <= s.len() && #[trigger] utf8_len(s.take(k)) == n)
}

proof fn lemma_utf8_len_strict(s: Seq<char>, a: int, b: int)
    requires
        0 <= a < b <= s.len(),
    ensures
        utf8_len(s.take(a)) < utf8_len(s.take(b)),
    decreases b - a,
{
    assert(s.take(b).drop_last() =~= s.take(b - 1));
    if a < b - 1 {
        lemma_utf8_len_strict(s, a, b - 1);
    }
}

fn utf8_width_exec(c: char) -> (res: usize)
    ensures
        res == utf8_width(c),
{
    let code = c as u32;
    if code < 0x80 {
        1
    } else if code < 0x800 {
        2
    } else if code < 0x10000 {
        3
    } else {
        4
    }
}

/// `&s[..n]`: the characters of the first `n` bytes.
fn byte_prefix_chars(s: &[char], n: usize) -> (res: Vec<char>)
    requires
        has_byte_boundary(s@, n as int),
    ensures
        res@ == byte_prefix(s@, n as int),
{
    let ghost kk = choose|k: int| 0 <= k <= s@.len() && #[trigger] utf8_len(s@.take(k)) == n;
    let mut k: usize = 0;
    let mut bytes: usize = 0;
    while bytes < n
        invariant
            0 <= kk <= s@.len(),
            utf8_len(s@.take(kk)) == n,
            k <= kk,
            bytes == utf8_len(s@.take(k as int)),
        decreases n - bytes,
    {
        proof {
            if k == kk {
                assert(false);
            }
            assert(s@.take(k as int + 1).drop_last() =~= s@.take(k as int));
            lemma_utf8_len_strict(s@, k as int, kk);
            if k + 1 < kk {
                lemma_utf8_len_strict(s@, k as int + 1, kk);
            }
        }
        bytes = bytes + utf8_width_exec(s[k]);
        k = k + 1;
    }
    proof {
        if k < kk {
            lemma_utf8_len_strict(s@, k as int, kk);
        }
        assert(s@.take(0) =~= Seq::<char>::empty());
    }
    slice_chars(s, 0, k)
}

/// The index of the first local migration with the given version at or after
/// `k`, or -1.
pub open spec fn version_index_from(local: Seq<PendingModel>, v: Seq<char>, k: int) -> int
    decreases local.len() - k,
{
    if k < 0 || k >= local.len() {
        -1
    } else if local[k].version == v {
        k
    } else {
        version_index_from(local, v, k + 1)
    }
}

pub open spec fn version_index(local: Seq<PendingModel>, v: Seq<char>) -> int {
    version_index_from(local, v, 0)
}

/// An applied migration whose local source has another checksum.
pub open spec fn is_mismatch(local: Seq<PendingModel>, a: AppliedModel) -> bool {
    let j = version_index(local, a.version);
    j >= 0 && local[j].checksum != a.checksum
}

/// The report line for an applied migration whose checksum differs.
pub open spec fn mismatch_line(local: Seq<PendingModel>, a: AppliedModel) -> Seq<char> {
    let j = version_index(local, a.version);
    a.version + ": local="@ + byte_prefix(local[j].checksum, 8) + ", applied="@ + byte_prefix(
        a.checksum,
        8,
    )
}

/// The report lines for the applied migrations, in their order.
pub open spec fn mismatch_lines(local: Seq<PendingModel>, applied: Seq<AppliedModel>) -> Seq<
    Seq<char>,
>
    decreases applied.len(),
{
    if applied.len() == 0 {
        Seq::empty()
    } else {
        let rest = mismatch_lines(local, applied.drop_last());
        if is_mismatch(local, applied.last()) {
            rest.push(mismatch_line(local, applied.last()))
        } else {
            rest
        }
    }
}

/// Both checksums of a mismatching pair can be cut after their eighth byte.
pub open spec fn mismatch_printable(local: Seq<PendingModel>, a: AppliedModel) -> bool {
    is_mismatch(local, a) ==> has_byte_boundary(local[version_index(local, a.version)].checksum, 8)
        && has_byte_boundary(a.checksum, 8)
}

proof fn lemma_version_index_range(local: Seq<PendingModel>, v: Seq<char>, k: int)
    ensures
        -1 <= version_index_from(local, v, k) < local.len(),
        version_index_from(local, v, k) >= 0 ==> version_index_from(local, v, k) >= k
            && local[version_index_from(local, v, k)].version == v,
    decreases local.len() - k,
{
    if 0 <= k < local.len() && local[k].version != v {
        lemma_version_index_range(local, v, k + 1);
    }
}

fn find_version(local: &[PendingMigration], v: &str) -> (res: Option<usize>)
    ensures
        match res {
            Some(j) => j as int == version_index(pending_views(local@), v@) && j < local@.len(),
            None => version_index(pending_views(local@), v@) == -1,
        },
{
    proof {
        lemma_version_index_range(pending_views(local@), v@, 0);
    }
    let ghost lv = pending_views(local@);
    let mut j: usize = 0;
    while j < local.len()
        invariant
            lv == pending_views(local@),
            j <= local@.len(),
            version_index(lv, v@) == version_index_from(lv, v@, j as int),
        decreases local@.len() - j,
    {
        if str_eq(local[j].version.as_str(), v) {
            return Some(j);
        }
        j = j + 1;
    }
    None
}

/// Verify checksums match between local and applied migrations
pub fn verify_checksums_local(
    local_migrations: &[PendingMigration],
    applied_migrations: &[AppliedMigration],
) -> (res: Vec<String>)
    requires
        forall|i: int|
            0 <= i < applied_migrations@.len() ==> #[trigger] mismatch_printable(
                pending_views(local_migrations@),
                applied_migrations@[i]@,
            ),
    ensures
        res@.len() == mismatch_lines(
            pending_views(local_migrations@),
            applied_views(applied_migrations@),
        ).len(),
        forall|k: int|
            0 <= k < res@.len() ==> #[trigger] res@[k]@ == mismatch_lines(
                pending_views(local_migrations@),
                applied_views(applied_migrations@),
            )[k],
{
    let ghost lv = pending_views(local_migrations@);
    let ghost av = applied_views(applied_migrations@);
    let mut res: Vec<String> = Vec::new();
    let mut i: usize = 0;
    while i < applied_migrations.len()
        invariant
            lv == pending_views(local_migrations@),
            av == applied_views(applied_migrations@),
            i <= applied_migrations@.len(),
            forall|i: int|
                0 <= i < applied_migrations@.len() ==> #[trigger] mismatch_printable(
                    lv,
                    applied_migrations@[i]@,
                ),
            res@.len() == mismatch_lines(lv, av.subrange(0, i as int)).len(),
            forall|k: int|
                0 <= k < res@.len() ==> #[trigger] res@[k]@ == mismatch_lines(
                    lv,
                    av.subrange(0, i as int),
                )[k],
        decreases applied_migrations@.len() - i,
    {
        let applied = &applied_migrations[i];
        proof {
            assert(av.subrange(0, i as int + 1).drop_last() =~= av.subrange(0, i as int));
            assert(av.subrange(0, i as int + 1).last() == applied@);
            assert(mismatch_printable(lv, applied_migrations@[i as int]@));
        }
        match find_version(local_migrations, applied.version.as_str()) {
            Some(j) => {
                let local = &local_migrations[j];
                if !str_eq(local.checksum.as_str(), applied.checksum.as_str()) {
                    let lc = chars_of(local.checksum.as_str());
                    let ac = chars_of(applied.checksum.as_str());
                    let lp = byte_prefix_chars(&lc, 8);
                    let ap = byte_prefix_chars(&ac, 8);
                    let mut line = String::new();
                    push_str(&mut line, applied.version.as_str());
                    push_str(&mut line, ": local=");
                    push_chars(&mut line, &lp);
                    push_str(&mut line, ", applied=");
                    push_chars(&mut line, &ap);
                    let ghost r0 = res@;
                    res.push(line);
                    proof {
                        assert(line@ =~= mismatch_line(lv, applied@));
                        assert forall|k: int| 0 <= k < res@.len() implies #[trigger] res@[k]@
                            == mismatch_lines(lv, av.subrange(0, i as int + 1))[k] by {
                            if k < r0.len() {
                                assert(res@[k] == r0[k]);
                            }
                        }
                    }
                }
            },
            None => {},
        }
        i = i + 1;
    }
    proof {
        assert(av.subrange(0, applied_migrations@.len() as int) =~= av);
    }
    res
}

/// The line reporting an applied migration whose local checksum differs,
/// with both checksums in full.
pub open spec fn full_mismatch_line(local: Seq<PendingModel>, a: AppliedModel) -> Seq<char> {
    a.version + ": expected "@ + a.checksum + ", got "@ + local[version_index(local, a.version)].checksum
}

/// The full report lines for the applied migrations, in their order.
pub open spec fn full_mismatch_lines(local: Seq<PendingModel>, applied: Seq<AppliedModel>) -> Seq<Seq<char>>
    decreases applied.len(),
{
    if applied.len() == 0 {
        Seq::empty()
    } else {
        let rest = full_mismatch_lines(local, applied.drop_last());
        if is_mismatch(local, applied.last()) {
            rest.push(full_mismatch_line(local, applied.last()))
        } else {
            rest
        }
    }
}

/// Compare the checksums recorded for applied migrations with their local
/// files: one line, with both checksums, for each applied migration whose
/// local file (the first with its version) has another checksum.
pub fn checksum_mismatches(
    local_migrations: &[PendingMigration],
    applied_migrations: &[AppliedMigration],
) -> (res: Vec<String>)
    ensures
        res@.len() == full_mismatch_lines(pending_views(local_migrations@), applied_views(applied_migrations@)).len(),
        forall|k: int|
            0 <= k < res@.len() ==> #[trigger] res@[k]@ == full_mismatch_lines(
                pending_views(local_migrations@),
                applied_views(applied_migrations@),
            )[k],
{
    let ghost lv = pending_views(local_migrations@);
    let ghost av = applied_views(applied_migrations@);
    let mut res: Vec<String> = Vec::new();
    let mut i: usize = 0;
    while i < applied_migrations.len()
        invariant
            lv == pending_views(local_migrations@),
            av == applied_views(applied_migrations@),
            i <= applied_migrations@.len(),
            res@.len() == full_mismatch_lines(lv, av.subrange(0, i as int)).len(),
            forall|k: int| 0 <= k < res@.len() ==> #[trigger] res@[k]@ == full_mismatch_lines(lv, av.subrange(0, i as int))[k],
        decreases applied_migrations@.len() - i,
    {
        let applied = &applied_migrations[i];
        proof {
            assert(av.subrange(0, i as int + 1).drop_last() =~= av.subrange(0, i as int));
            assert(av.subrange(0, i as int + 1).last() == applied@);
        }
        match find_version(local_migrations, applied.version.as_str()) {
            Some(j) => {
                let local = &local_migrations[j];
                if !str_eq(local.checksum.as_str(), applied.checksum.as_str()) {
                    let mut line = String::new();
                    push_str(&mut line, applied.version.as_str());
                    push_str(&mut line, ": expected ");
                    push_str(&mut line, applied.checksum.as_str());
                    push_str(&mut line, ", got ");
                    push_str(&mut line, local.checksum.as_str());
                    let ghost r0 = res@;
                    res.push(line);
                    proof {
                        assert(line@ =~= full_mismatch_line(lv, applied@));
                        assert forall|k: int| 0 <= k < res@.len() implies #[trigger] res@[k]@
                            == full_mismatch_lines(lv, av.subrange(0, i as int + 1))[k] by {
                            if k < r0.len() {
                                assert(res@[k] == r0[k]);
                            }
                        }
                    }
                }
            },
            None => {},
        }
        i = i + 1;
    }
    proof {
        assert(av.subrange(0, applied_migrations@.len() as int) =~= av);
    }
    res
}

// ---------------------------------------------------------------------------
// Migration reports
// ---------------------------------------------------------------------------

/// The escape sequence that ends a terminal color.
pub open spec fn color_reset() -> Seq<char> {
    seq!['\u{1b}', '[', '0', 'm']
}

/// A text as `colored` displays it: either unchanged, or after some escape
/// sequence and followed by the reset sequence.
pub open spec fn painted(res: Seq<char>, s: Seq<char>) -> bool {
    res == s || exists|p: Seq<char>| res == p + s + color_reset()
}

/// `colored::Colorize::yellow` then `bold`, displayed. Whether escape codes
/// are added depends on the terminal and the environment; either way a text
/// without a reset sequence is shown whole (as `painted` says).
#[verifier::external_body]
fn paint_yellow_bold(s: &str) -> (res: String)
    ensures
        !has_sub(s@, color_reset()) ==> painted(res@, s@),
{
    format!("{}", colored::Colorize::bold(colored::Colorize::yellow(s)))
}

/// `colored::Colorize::cyan` then `bold`, displayed; a text without a reset
/// sequence is shown whole.
#[verifier::external_body]
fn paint_cyan_bold(s: &str) -> (res: String)
    ensures
        !has_sub(s@, color_reset()) ==> painted(res@, s@),
{
    format!("{}", colored::Colorize::bold(colored::Colorize::cyan(s)))
}

/// `colored::Colorize::green`, displayed; a text without a reset sequence is
/// shown whole.
#[verifier::external_body]
fn paint_green(s: &str) -> (res: String)
    ensures
        !has_sub(s@, color_reset()) ==> painted(res@, s@),
{
    format!("{}", colored::Colorize::green(s))
}

/// `colored::Colorize::blue`, displayed; a text without a reset sequence is
/// shown whole.
#[verifier::external_body]
fn paint_blue(s: &str) -> (res: String)
    ensures
        !has_sub(s@, color_reset()) ==> painted(res@, s@),
{
    format!("{}", colored::Colorize::blue(s))
}

/// `colored::Colorize::red`, displayed; a text without a reset sequence is
/// shown whole.
#[verifier::external_body]
fn paint_red(s: &str) -> (res: String)
    ensures
        !has_sub(s@, color_reset()) ==> painted(res@, s@),
{
    format!("{}", colored::Colorize::red(s))
}

/// `colored::Colorize::dimmed`, displayed; a text without a reset sequence is
/// shown whole.
#[verifier::external_body]
fn paint_dimmed(s: &str) -> (res: String)
    ensures
        !has_sub(s@, color_reset()) ==> painted(res@, s@),
{
    format!("{}", colored::Colorize::dimmed(s))
}

proof fn lemma_sub_extends(a: Seq<char>, t: Seq<char>, b: Seq<char>)
    requires
        has_sub(a, t),
    ensures
        has_sub(a + b, t),
        has_sub(b + a, t),
{
    let i = choose|i: int| crate::text::occurs_at(a, t, i);
    assert((a + b).subrange(i, i + t.len()) =~= a.subrange(i, i + t.len()));
    assert(crate::text::occurs_at(a + b, t, i));
    assert((b + a).subrange(b.len() + i, b.len() + i + t.len()) =~= a.subrange(i, i + t.len()));
    assert(crate::text::occurs_at(b + a, t, b.len() + i));
}

proof fn lemma_sub_self(t: Seq<char>)
    ensures
        has_sub(t, t),
{
    assert(t.subrange(0, t.len() as int) =~= t);
    assert(crate::text::occurs_at(t, t, 0));
}

proof fn lemma_painted_shows(res: Seq<char>, s: Seq<char>)
    requires
        painted(res, s),
    ensures
        has_sub(res, s),
{
    lemma_sub_self(s);
    if res != s {
        let p = choose|p: Seq<char>| res == p + s + color_reset();
        lemma_sub_extends(s, s, color_reset());
        lemma_sub_extends(s + color_reset(), s, p);
        assert(p + (s + color_reset()) =~= res);
    }
}

/// Appends `s` to `out`; whatever `out` showed before it still shows, and it
/// now shows `s`.
fn push_shown(out: &mut String, s: &str)
    ensures
        final(out)@ == old(out)@ + s@,
        forall|t: Seq<char>| has_sub(old(out)@, t) ==> has_sub(final(out)@, t),
        has_sub(final(out)@, s@),
{
    let ghost o = out@;
    push_str(out, s);
    proof {
        assert forall|t: Seq<char>| has_sub(o, t) implies has_sub(out@, t) by {
            lemma_sub_extends(o, t, s@);
        }
        lemma_sub_self(s@);
        lemma_sub_extends(s@, s@, o);
    }
}

/// Migration report - what was applied, skipped, or failed
#[derive(Debug)]
pub struct MigrationReport {
    /// Migrations that were applied
    pub applied: Vec<AppliedMigration>,
    /// Migrations that were skipped (already applied)
    pub skipped: Vec<String>,
    /// Migrations that failed
    pub failed: Option<(String, String)>,
    /// Whether this was a dry run
    pub dry_run: bool,
}

impl Default for MigrationReport {
    fn default() -> (res: Self)
        ensures
            res.applied@.len() == 0,
            res.skipped@.len() == 0,
            res.failed is None,
            !res.dry_run,
    {
        MigrationReport { applied: Vec::new(), skipped: Vec::new(), failed: None, dry_run: false }
    }
}

/// The line listing an applied migration, after its marker.
pub open spec fn applied_line(m: AppliedModel) -> Seq<char> {
    " "@ + m.version + " ("@ + m.name + ")\n"@
}

impl MigrationReport {
    /// Create a new empty report
    pub fn new(dry_run: bool) -> (res: Self)
        ensures
            res.applied@.len() == 0,
            res.skipped@.len() == 0,
            res.failed is None,
            res.dry_run == dry_run,
    {
        MigrationReport { applied: Vec::new(), skipped: Vec::new(), failed: None, dry_run }
    }

    /// Check if any migrations were applied
    pub fn has_changes(&self) -> (res: bool)
        ensures
            res == (self.applied@.len() > 0),
    {
        self.applied.len() > 0
    }

    /// Get total number of applied migrations
    pub fn applied_count(&self) -> (res: usize)
        ensures
            res == self.applied@.len(),
    {
        self.applied.len()
    }

    /// Format report for display. Markers and headings may be colored for
    /// the terminal; the texts below always appear.
    pub fn format(&self) -> (res: String)
        ensures
            self.dry_run ==> has_sub(res@, "DRY RUN - No changes applied"@),
            (self.applied@.len() == 0 && self.skipped@.len() == 0) ==> has_sub(res@, " No migrations to apply\n"@),
            self.skipped@.len() > 0 ==> has_sub(res@, " Skipped (already applied):\n"@),
            self.applied@.len() > 0 ==> has_sub(res@, " "@ + (if self.dry_run { "Would apply"@ } else { "Applied"@ }) + ":\n"@),
            (self.applied@.len() > 0 || self.skipped@.len() > 0) ==> forall|k: int|
                0 <= k < self.skipped@.len() ==> has_sub(res@, " "@ + (#[trigger] self.skipped@[k])@ + "\n"@),
            (self.applied@.len() > 0 || self.skipped@.len() > 0) ==> forall|k: int|
                0 <= k < self.applied@.len() ==> has_sub(res@, applied_line((#[trigger] self.applied@[k])@)),
            (self.applied@.len() > 0 || self.skipped@.len() > 0) ==> match self.failed {
                Some((v, _)) => has_sub(res@, " Failed: "@ + v@ + "\n"@),
                None => true,
            },
    {
        let mut output = String::new();
        if self.dry_run {
            let heading = paint_yellow_bold("DRY RUN - No changes applied");
            proof {
                reveal_strlit("DRY RUN - No changes applied");
                let t = "DRY RUN - No changes applied"@;
                assert(!has_sub(t, color_reset())) by {
                    if has_sub(t, color_reset()) {
                        let i = choose|i: int| crate::text::occurs_at(t, color_reset(), i);
                        assert(t.subrange(i, i + 4)[0] == color_reset()[0]);
                        assert(t[i] == '\u{1b}');
                    }
                }
                lemma_painted_shows(heading@, t);
            }
            let ghost o0 = output@;
            push_shown(&mut output, heading.as_str());
            proof {
                lemma_sub_extends(heading@, "DRY RUN - No changes applied"@, o0);
            }
            push_shown(&mut output, "\n\n");
        }
        if self.applied.len() == 0 && self.skipped.len() == 0 {
            let mark = paint_green("\u{2713}");
            push_shown(&mut output, mark.as_str());
            push_shown(&mut output, " No migrations to apply\n");
            return output;
        }
        if self.skipped.len() > 0 {
            let mark = paint_blue("\u{2192}");
            push_shown(&mut output, mark.as_str());
            push_shown(&mut output, " Skipped (already applied):\n");
            let mut k: usize = 0;
            while k < self.skipped.len()
                invariant
                    k <= self.skipped@.len(),
                    self.dry_run ==> has_sub(output@, "DRY RUN - No changes applied"@),
                    has_sub(output@, " Skipped (already applied):\n"@),
                    forall|j: int| 0 <= j < k ==> has_sub(output@, " "@ + (#[trigger] self.skipped@[j])@ + "\n"@),
                decreases self.skipped@.len() - k,
            {
                push_shown(&mut output, "  ");
                let dot = paint_dimmed("\u{25cb}");
                push_shown(&mut output, dot.as_str());
                let mut line = String::new();
                push_str(&mut line, " ");
                push_str(&mut line, self.skipped[k].as_str());
                push_str(&mut line, "\n");
                push_shown(&mut output, line.as_str());
                proof {
                    assert(line@ =~= " "@ + self.skipped@[k as int]@ + "\n"@);
                }
                k = k + 1;
            }
            push_shown(&mut output, "\n");
        }
        if self.applied.len() > 0 {
            let verb = if self.dry_run { "Would apply" } else { "Applied" };
            let mark = paint_green("\u{2713}");
            push_shown(&mut output, mark.as_str());
            let mut heading = String::new();
            push_str(&mut heading, " ");
            push_str(&mut heading, verb);
            push_str(&mut heading, ":\n");
            push_shown(&mut output, heading.as_str());
            proof {
                assert(heading@ =~= " "@ + (if self.dry_run { "Would apply"@ } else { "Applied"@ }) + ":\n"@);
            }
            let mut k: usize = 0;
            while k < self.applied.len()
                invariant
                    k <= self.applied@.len(),
                    self.applied@.len() > 0,
                    self.dry_run ==> has_sub(output@, "DRY RUN - No changes applied"@),
                    self.skipped@.len() > 0 ==> has_sub(output@, " Skipped (already applied):\n"@),
                    forall|j: int| 0 <= j < self.skipped@.len() ==> has_sub(output@, " "@ + (#[trigger] self.skipped@[j])@ + "\n"@),
                    has_sub(output@, " "@ + (if self.dry_run { "Would apply"@ } else { "Applied"@ }) + ":\n"@),
                    forall|j: int| 0 <= j < k ==> has_sub(output@, applied_line((#[trigger] self.applied@[j])@)),
                decreases self.applied@.len() - k,
            {
                push_shown(&mut output, "  ");
                let dot = paint_green("\u{25cf}");
                push_shown(&mut output, dot.as_str());
                let m = &self.applied[k];
                let mut line = String::new();
                push_str(&mut line, " ");
                push_str(&mut line, m.version.as_str());
                push_str(&mut line, " (");
                push_str(&mut line, m.name.as_str());
                push_str(&mut line, ")\n");
                push_shown(&mut output, line.as_str());
                proof {
                    assert(line@ =~= applied_line(self.applied@[k as int]@));
                }
                k = k + 1;
            }
        }
        match &self.failed {
            Some((version, error)) => {
                push_shown(&mut output, "\n");
                let cross = paint_red("\u{2717}");
                push_shown(&mut output, cross.as_str());
                let mut line = String::new();
                push_str(&mut line, " Failed: ");
                push_str(&mut line, version.as_str());
                push_str(&mut line, "\n");
                push_shown(&mut output, line.as_str());
                proof {
                    assert(line@ =~= " Failed: "@ + version@ + "\n"@);
                }
                push_shown(&mut output, "  Error: ");
                let painted_error = paint_red(error.as_str());
                push_shown(&mut output, painted_error.as_str());
                push_shown(&mut output, "\n");
            },
            None => {},
        }
        output
    }

    /// Format SQL preview for dry run: for each pending migration, a header
    /// with its version, name and checksum, then its SQL.
    pub fn format_sql_preview(&self, pending: &[PendingMigration]) -> (res: String)
        ensures
            forall|k: int| 0 <= k < pending@.len() ==> has_sub(res@, "\n-- ----------------------------------------\n"@ + (#[trigger] pending@[k])@.sql + "\n\n"@),
    {
        let mut output = String::new();
        let title = paint_cyan_bold("SQL Preview (Dry Run)");
        push_shown(&mut output, title.as_str());
        push_shown(&mut output, "\n\n");
        let mut k: usize = 0;
        while k < pending.len()
            invariant
                k <= pending@.len(),
                forall|j: int| 0 <= j < k ==> has_sub(output@, "\n-- ----------------------------------------\n"@ + (#[trigger] pending@[j])@.sql + "\n\n"@),
            decreases pending@.len() - k,
        {
            let m = &pending[k];
            push_shown(&mut output, "-- Migration: ");
            let v = paint_green(m.version.as_str());
            push_shown(&mut output, v.as_str());
            push_shown(&mut output, " (");
            push_shown(&mut output, m.name.as_str());
            push_shown(&mut output, ")\n");
            push_shown(&mut output, "-- Checksum: ");
            let c = paint_dimmed(m.checksum.as_str());
            push_shown(&mut output, c.as_str());
            let mut block = String::new();
            push_str(&mut block, "\n-- ----------------------------------------\n");
            push_str(&mut block, m.sql.as_str());
            push_str(&mut block, "\n\n");
            push_shown(&mut output, block.as_str());
            proof {
                assert(block@ =~= "\n-- ----------------------------------------\n"@ + pending@[k as int]@.sql + "\n\n"@);
            }
            k = k + 1;
        }
        output
    }
}

// ---------------------------------------------------------------------------
// Running migrations
// ---------------------------------------------------------------------------

/// What a run of migrations does next.
#[derive(Debug, Clone, Copy, PartialEq, Eq, Structural)]
pub enum RunStep {
    /// Execute the pending migration at this position, then record the outcome
    Execute(usize),
    /// Dry run: record the pending migration at this position as applied,
    /// without executing it
    Preview(usize),
    /// The run is over
    Finish,
}

/// The next step of a run: the first pending migration not yet recorded,
/// unless one has failed or all are recorded.
pub open spec fn run_step(failed: bool, dry_run: bool, done: nat, pending: nat) -> RunStep {
    if failed || done >= pending {
        RunStep::Finish
    } else if dry_run {
        RunStep::Preview(done as usize)
    } else {
        RunStep::Execute(done as usize)
    }
}

/// The applied migrations are the first pending ones, in order.
pub open spec fn applied_prefix_of(applied: Seq<AppliedModel>, pending: Seq<PendingModel>) -> bool {
    &&& applied.len() <= pending.len()
    &&& forall|i: int|
        0 <= i < applied.len() ==> (#[trigger] applied[i]).version == pending[i].version && applied[i].name
            == pending[i].name && applied[i].checksum == pending[i].checksum
}

/// The record of a pending migration once applied.
pub open spec fn applied_record(m: PendingModel) -> AppliedModel {
    AppliedModel { version: m.version, name: m.name, checksum: m.checksum }
}

pub open spec fn versions_of_applied(ms: Seq<AppliedMigration>) -> Seq<Seq<char>> {
    ms.map_values(|m: AppliedMigration| m.version@)
}

/// Start a run: nothing applied yet, the migrations already in the database
/// listed as skipped.
pub fn start_run(already_applied: &[AppliedMigration], dry_run: bool) -> (res: MigrationReport)
    ensures
        res.applied@.len() == 0,
        crate::schema::strs_view(res.skipped@) == versions_of_applied(already_applied@),
        res.failed is None,
        res.dry_run == dry_run,
{
    let mut report = MigrationReport::new(dry_run);
    let mut i: usize = 0;
    while i < already_applied.len()
        invariant
            i <= already_applied@.len(),
            report.applied@.len() == 0,
            report.failed is None,
            report.dry_run == dry_run,
            crate::schema::strs_view(report.skipped@) == versions_of_applied(already_applied@).take(i as int),
        decreases already_applied@.len() - i,
    {
        let ghost s0 = report.skipped@;
        report.skipped.push(already_applied[i].version.clone());
        proof {
            assert(crate::schema::strs_view(report.skipped@) =~= crate::schema::strs_view(s0).push(already_applied@[i as int].version@));
            assert(versions_of_applied(already_applied@).take(i + 1) =~= versions_of_applied(already_applied@).take(
                i as int,
            ).push(already_applied@[i as int].version@));
        }
        i = i + 1;
    }
    proof {
        assert(versions_of_applied(already_applied@).take(already_applied@.len() as int) =~= versions_of_applied(
            already_applied@,
        ));
    }
    report
}

/// The next step of a run over `pending`.
pub fn next_step(report: &MigrationReport, pending: &[PendingMigration]) -> (res: RunStep)
    ensures
        res == run_step(report.failed is Some, report.dry_run, report.applied@.len(), pending@.len()),
{
    if report.failed.is_some() || report.applied.len() >= pending.len() {
        RunStep::Finish
    } else if report.dry_run {
        RunStep::Preview(report.applied.len())
    } else {
        RunStep::Execute(report.applied.len())
    }
}

/// Record the outcome of a step on `migration`: applied at the given time
/// (microseconds since the Unix epoch), or failed with an error text.
pub fn record_outcome(report: &mut MigrationReport, migration: &PendingMigration, outcome: Result<i64, String>)
    ensures
        final(report).skipped@ == old(report).skipped@,
        final(report).dry_run == old(report).dry_run,
        match outcome {
            Ok(t) => {
                &&& applied_views(final(report).applied@) == applied_views(old(report).applied@).push(
                    applied_record(migration@),
                )
                &&& final(report).applied@.last().applied_at == t
                &&& final(report).failed == old(report).failed
            },
            Err(e) => {
                &&& final(report).applied@ == old(report).applied@
                &&& final(report).failed matches Some((v, msg)) && v@ == migration.version@ && msg@ == e@
            },
        },
{
    match outcome {
        Ok(t) => {
            let ghost a0 = report.applied@;
            report.applied.push(
                AppliedMigration {
                    version: migration.version.clone(),
                    name: migration.name.clone(),
                    checksum: migration.checksum.clone(),
                    applied_at: t,
                },
            );
            proof {
                assert(applied_views(report.applied@) =~= applied_views(a0).push(applied_record(migration@)));
            }
        },
        Err(e) => {
            report.failed = Some((migration.version.clone(), e));
        },
    }
}

/// A run applies the pending migrations in order and stops at the first
/// failure: recording the migration the step names keeps the applied ones a
/// prefix of the pending ones, each recorded step brings the run closer to
/// its end, and after a failure the run is over.
pub proof fn law_run_applies_pending_in_order(
    applied: Seq<AppliedModel>,
    pending: Seq<PendingModel>,
    dry_run: bool,
    i: usize,
)
    requires
        pending.len() <= usize::MAX,
        applied_prefix_of(applied, pending),
        run_step(false, dry_run, applied.len(), pending.len()) == RunStep::Execute(i) || run_step(
            false,
            dry_run,
            applied.len(),
            pending.len(),
        ) == RunStep::Preview(i),
    ensures
        i == applied.len(),
        applied_prefix_of(applied.push(applied_record(pending[i as int])), pending),
        pending.len() - applied.push(applied_record(pending[i as int])).len() < pending.len() - applied.len(),
        forall|d: bool, n: nat, m: nat| run_step(true, d, n, m) == RunStep::Finish,
{
    let b = applied.push(applied_record(pending[i as int]));
    assert(i == applied.len());
    assert forall|k: int| 0 <= k < b.len() implies (#[trigger] b[k]).version == pending[k].version && b[k].name
        == pending[k].name && b[k].checksum == pending[k].checksum by {
        if k < applied.len() {
            assert(b[k] == applied[k]);
        }
    }
}

} // verus!
