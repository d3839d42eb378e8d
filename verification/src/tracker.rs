//! Migration tracking: splitting migration SQL into statements, validating
//! migration dependencies, and selecting pending migrations.

use vstd::prelude::*;

use crate::diff::{has_key, keys_view, last_pos, last_pos_exec, lemma_last_pos};
use crate::text::{chars_eq, chars_of, push_str, slice_chars, string_of, trim, trim_chars};

verus! {

// ---------------------------------------------------------------------------
// Splitting SQL into statements
// ---------------------------------------------------------------------------

/// Scanner state while splitting SQL: the statements found so far, where the
/// current statement starts, whether we are inside a quoted string (and which
/// quote opened it), and the parenthesis depth.
pub struct SplitState {
    pub stmts: Seq<Seq<char>>,
    pub start: int,
    pub in_string: bool,
    pub quote: char,
    pub depth: int,
}

pub open spec fn split_start() -> SplitState {
    SplitState { stmts: Seq::empty(), start: 0, in_string: false, quote: ' ', depth: 0 }
}

/// One character of the scan. A quote closes the string it opened unless it
/// is preceded by a backslash; a semicolon at depth zero outside strings ends
/// a statement, which is kept if it is not blank.
pub open spec fn split_step(s: Seq<char>, st: SplitState, i: int) -> SplitState {
    let c = s[i];
    if st.in_string {
        if c == st.quote && (i == 0 || s[i - 1] != '\\') {
            SplitState { in_string: false, ..st }
        } else {
            st
        }
    } else if c == '\'' || c == '"' {
        SplitState { in_string: true, quote: c, ..st }
    } else if c == '(' {
        SplitState { depth: st.depth + 1, ..st }
    } else if c == ')' {
        SplitState { depth: st.depth - 1, ..st }
    } else if c == ';' && st.depth == 0 {
        let stmt = s.subrange(st.start, i);
        SplitState {
            stmts: if trim(stmt).len() > 0 { st.stmts.push(stmt) } else { st.stmts },
            start: i + 1,
            ..st
        }
    } else {
        st
    }
}

pub open spec fn split_upto(s: Seq<char>, n: int) -> SplitState
    decreases n,
{
    if n <= 0 {
        split_start()
    } else {
        split_step(s, split_upto(s, n - 1), n - 1)
    }
}

/// The statements of a SQL script: the non-blank pieces between top-level
/// semicolons, plus a final non-blank piece without a semicolon.
pub open spec fn sql_statements(s: Seq<char>) -> Seq<Seq<char>> {
    let st = split_upto(s, s.len() as int);
    let last = s.subrange(st.start, s.len() as int);
    if trim(last).len() > 0 {
        st.stmts.push(last)
    } else {
        st.stmts
    }
}

proof fn lemma_split_bounds(s: Seq<char>, n: int)
    requires
        0 <= n <= s.len(),
    ensures
        0 <= split_upto(s, n).start <= n,
        -n <= split_upto(s, n).depth <= n,
    decreases n,
{
    if n > 0 {
        lemma_split_bounds(s, n - 1);
    }
}

/// Split SQL into individual statements
/// Handles semicolons inside strings and parentheses
pub fn split_sql_statements(sql: &str) -> (res: Vec<String>)
    ensures
        res@.len() == sql_statements(sql@).len(),
        forall|k: int| 0 <= k < res@.len() ==> #[trigger] res@[k]@ == sql_statements(sql@)[k],
{
    let chars = chars_of(sql);
    let n = chars.len();
    let mut statements: Vec<String> = Vec::new();
    let mut start: usize = 0;
    let mut in_string = false;
    let mut string_char = ' ';
    let mut paren_depth: i128 = 0;
    let mut i: usize = 0;
    while i < n
        invariant
            n == chars@.len(),
            chars@ == sql@,
            i <= n,
            split_upto(sql@, i as int).start == start as int,
            split_upto(sql@, i as int).in_string == in_string,
            split_upto(sql@, i as int).quote == string_char,
            split_upto(sql@, i as int).depth == paren_depth as int,
            statements@.len() == split_upto(sql@, i as int).stmts.len(),
            forall|k: int|
                0 <= k < statements@.len() ==> #[trigger] statements@[k]@ == split_upto(
                    sql@,
                    i as int,
                ).stmts[k],
        decreases n - i,
    {
        proof {
            lemma_split_bounds(sql@, i as int);
        }
        let c = chars[i];
        if in_string {
            if c == string_char && (i == 0 || chars[i - 1] != '\\') {
                in_string = false;
            }
        } else if c == '\'' || c == '"' {
            in_string = true;
            string_char = c;
        } else if c == '(' {
            paren_depth = paren_depth + 1;
        } else if c == ')' {
            paren_depth = paren_depth - 1;
        } else if c == ';' && paren_depth == 0 {
            let stmt = slice_chars(&chars, start, i);
            let t = trim_chars(&stmt);
            if t.len() > 0 {
                statements.push(string_of(&stmt));
            }
            start = i + 1;
        }
        i = i + 1;
    }
    proof {
        lemma_split_bounds(sql@, n as int);
    }
    let last = slice_chars(&chars, start, n);
    let t = trim_chars(&last);
    if t.len() > 0 {
        statements.push(string_of(&last));
    }
    statements
}

proof fn lemma_split_upto_nonblank(s: Seq<char>, n: int)
    requires
        0 <= n <= s.len(),
    ensures
        forall|k: int| 0 <= k < split_upto(s, n).stmts.len() ==> trim(#[trigger] split_upto(s, n).stmts[k]).len() > 0,
    decreases n,
{
    if n > 0 {
        lemma_split_upto_nonblank(s, n - 1);
        let prev = split_upto(s, n - 1);
        let cur = split_upto(s, n);
        assert(cur == split_step(s, prev, n - 1));
        assert(cur.stmts == prev.stmts || (cur.stmts == prev.stmts.push(s.subrange(prev.start, n - 1))
            && trim(s.subrange(prev.start, n - 1)).len() > 0));
        assert forall|k: int| 0 <= k < cur.stmts.len() implies trim(#[trigger] cur.stmts[k]).len() > 0 by {
            if k < prev.stmts.len() {
                assert(cur.stmts[k] == prev.stmts[k]);
            }
        }
    }
}

/// Splitting never yields a blank statement: every statement has a character
/// other than whitespace.
pub proof fn law_statements_are_not_blank(s: Seq<char>)
    ensures
        forall|k: int| 0 <= k < sql_statements(s).len() ==> trim(#[trigger] sql_statements(s)[k]).len() > 0,
{
    lemma_split_upto_nonblank(s, s.len() as int);
}

/// The statements of a migration that are run: each statement trimmed, with
/// blank ones and those starting with a `--` comment left out.
pub open spec fn runnable(stmts: Seq<Seq<char>>) -> Seq<Seq<char>>
    decreases stmts.len(),
{
    if stmts.len() == 0 {
        Seq::empty()
    } else {
        let rest = runnable(stmts.drop_last());
        let t = trim(stmts.last());
        if t.len() == 0 || crate::text::has_prefix(t, "--"@) {
            rest
        } else {
            rest.push(t)
        }
    }
}

/// The SQL statements of a migration to execute, in order.
pub fn statements_to_execute(sql: &str) -> (res: Vec<String>)
    ensures
        res@.len() == runnable(sql_statements(sql@)).len(),
        forall|k: int| 0 <= k < res@.len() ==> #[trigger] res@[k]@ == runnable(sql_statements(sql@))[k],
{
    let stmts = split_sql_statements(sql);
    let ghost ss = sql_statements(sql@);
    let mut res: Vec<String> = Vec::new();
    let mut i: usize = 0;
    while i < stmts.len()
        invariant
            stmts@.len() == ss.len(),
            forall|k: int| 0 <= k < stmts@.len() ==> #[trigger] stmts@[k]@ == ss[k],
            i <= stmts@.len(),
            res@.len() == runnable(ss.take(i as int)).len(),
            forall|k: int| 0 <= k < res@.len() ==> #[trigger] res@[k]@ == runnable(ss.take(i as int))[k],
        decreases stmts@.len() - i,
    {
        proof {
            assert(ss.take(i + 1).drop_last() =~= ss.take(i as int));
        }
        let cs = chars_of(stmts[i].as_str());
        let t = trim_chars(&cs);
        let dashes = chars_of("--");
        if t.len() > 0 && !crate::text::starts_with(&t, &dashes) {
            let ghost r0 = res@;
            res.push(string_of(&t));
            proof {
                assert forall|k: int| 0 <= k < res@.len() implies #[trigger] res@[k]@ == runnable(ss.take(i + 1))[k] by {
                    if k < r0.len() {
                        assert(res@[k] == r0[k]);
                    }
                }
            }
        }
        i = i + 1;
    }
    proof {
        assert(ss.take(stmts@.len() as int) =~= ss);
    }
    res
}

// ---------------------------------------------------------------------------
// Validating migration dependencies
// ---------------------------------------------------------------------------

/// A migration and the migration it must follow.
#[derive(Debug)]
pub struct MigrationMeta {
    pub id: String,
    pub after: Option<String>,
}

pub struct EntryModel {
    pub id: Seq<char>,
    pub after: Option<Seq<char>>,
}

impl View for MigrationMeta {
    type V = EntryModel;

    open spec fn view(&self) -> EntryModel {
        EntryModel {
            id: self.id@,
            after: match self.after {
                Some(a) => Some(a@),
                None => None,
            },
        }
    }
}

/// Validate migration ordering and dependencies
#[derive(Debug)]
pub struct MigrationValidator {
    migrations: Vec<MigrationMeta>,
}

impl View for MigrationValidator {
    type V = Seq<EntryModel>;

    closed spec fn view(&self) -> Seq<EntryModel> {
        self.migrations@.map_values(|m: MigrationMeta| m@)
    }
}

/// Why a set of migrations cannot be ordered.
#[derive(Debug)]
pub enum ValidationFailure {
    DuplicateId(String),
    MissingDependency { migration: String, depends_on: String },
    CircularDependency,
}

impl ValidationFailure {
    /// The error message, as shown to users.
    pub fn message(&self) -> (res: String)
        ensures
            res@ == match self {
                ValidationFailure::DuplicateId(id) => "Duplicate migration ID: "@ + id@,
                ValidationFailure::MissingDependency { migration, depends_on } => "Migration '"@
                    + migration@ + "' depends on '"@ + depends_on@ + "' which does not exist"@,
                ValidationFailure::CircularDependency => "Circular dependency detected in migrations"@,
            },
    {
        let mut s = String::new();
        match self {
            ValidationFailure::DuplicateId(id) => {
                push_str(&mut s, "Duplicate migration ID: ");
                push_str(&mut s, id.as_str());
                proof {
                    assert(s@ =~= "Duplicate migration ID: "@ + id@);
                }
            },
            ValidationFailure::MissingDependency { migration, depends_on } => {
                push_str(&mut s, "Migration '");
                push_str(&mut s, migration.as_str());
                push_str(&mut s, "' depends on '");
                push_str(&mut s, depends_on.as_str());
                push_str(&mut s, "' which does not exist");
                proof {
                    assert(s@ =~= "Migration '"@ + migration@ + "' depends on '"@ + depends_on@
                        + "' which does not exist"@);
                }
            },
            ValidationFailure::CircularDependency => {
                push_str(&mut s, "Circular dependency detected in migrations");
                proof {
                    assert(s@ =~= "Circular dependency detected in migrations"@);
                }
            },
        }
        s
    }
}

pub open spec fn entry_ids(ms: Seq<EntryModel>) -> Seq<Seq<char>> {
    ms.map_values(|m: EntryModel| m.id)
}

/// Entry `i` repeats the id of an earlier entry.
pub open spec fn dup_at(ms: Seq<EntryModel>, i: int) -> bool {
    exists|j: int| 0 <= j < i && ms[j].id == ms[i].id
}

/// Entry `i` depends on an id that no entry has.
pub open spec fn missing_at(ms: Seq<EntryModel>, i: int) -> bool {
    ms[i].after is Some && !has_key(entry_ids(ms), ms[i].after->0)
}

pub open spec fn no_dups(ms: Seq<EntryModel>) -> bool {
    forall|i: int| 0 <= i < ms.len() ==> !dup_at(ms, i)
}

pub open spec fn no_missing(ms: Seq<EntryModel>) -> bool {
    forall|i: int| 0 <= i < ms.len() ==> !missing_at(ms, i)
}

/// The index of the entry that entry `i` depends on, or -1.
pub open spec fn parent_of(ms: Seq<EntryModel>, i: int) -> int {
    match ms[i].after {
        Some(a) => last_pos(entry_ids(ms), a),
        None => -1,
    }
}

/// Following dependencies from entry `i` reaches an entry without one in at
/// most `d` steps.
pub open spec fn reaches_root(ms: Seq<EntryModel>, i: int, d: nat) -> bool
    decreases d,
{
    if ms[i].after is None {
        true
    } else if d == 0 {
        false
    } else {
        let p = parent_of(ms, i);
        0 <= p < ms.len() && reaches_root(ms, p, (d - 1) as nat)
    }
}

/// Following dependencies from entry `i` ends at an entry without one.
pub open spec fn has_root_path(ms: Seq<EntryModel>, i: int) -> bool {
    exists|d: nat| #[trigger] reaches_root(ms, i, d)
}

/// The dependencies have no cycle.
pub open spec fn acyclic(ms: Seq<EntryModel>) -> bool {
    forall|i: int| 0 <= i < ms.len() ==> #[trigger] has_root_path(ms, i)
}

/// `order` lists every id once, and each migration comes after the one it
/// depends on.
pub open spec fn is_topological_order(ms: Seq<EntryModel>, order: Seq<Seq<char>>) -> bool {
    &&& order.len() == ms.len()
    &&& order.no_duplicates()
    &&& forall|i: int| 0 <= i < ms.len() ==> order.contains(#[trigger] ms[i].id)
    &&& forall|i: int, k: int|
        0 <= i < ms.len() && 0 <= k < order.len() && order[k] == ms[i].id && ms[i].after is Some
            ==> exists|m: int| 0 <= m < k && #[trigger] order[m] == ms[i].after->0
}

proof fn lemma_reaches_mono(ms: Seq<EntryModel>, i: int, d: nat, e: nat)
    requires
        reaches_root(ms, i, d),
        d <= e,
    ensures
        reaches_root(ms, i, e),
    decreases d,
{
    if ms[i].after is Some {
        lemma_reaches_mono(ms, parent_of(ms, i), (d - 1) as nat, (e - 1) as nat);
    }
}

proof fn lemma_outside_never_reaches(ms: Seq<EntryModel>, inq: Seq<bool>, x: int, d: nat)
    requires
        inq.len() == ms.len(),
        0 <= x < ms.len(),
        !inq[x],
        forall|y: int|
            0 <= y < ms.len() && !#[trigger] inq[y] ==> ms[y].after is Some && 0 <= parent_of(ms, y)
                < ms.len() && !inq[parent_of(ms, y)],
    ensures
        !reaches_root(ms, x, d),
    decreases d,
{
    if d > 0 {
        lemma_outside_never_reaches(ms, inq, parent_of(ms, x), (d - 1) as nat);
    }
}

proof fn lemma_distinct_bounded(q: Seq<usize>, n: int)
    requires
        q.no_duplicates(),
        0 <= n,
        forall|k: int| 0 <= k < q.len() ==> (#[trigger] q[k]) < n,
    ensures
        q.len() <= n,
{
    let qi = q.map_values(|x: usize| x as int);
    assert(qi.no_duplicates()) by {
        assert forall|a: int, b: int| 0 <= a < qi.len() && 0 <= b < qi.len() && a != b implies qi[a] != qi[b] by {
            assert(q[a] != q[b]);
        }
    }
    qi.unique_seq_to_set();
    vstd::set_lib::lemma_int_range(0, n);
    assert(qi.to_set().subset_of(vstd::set_lib::set_int_range(0, n))) by {
        assert forall|v: int| qi.to_set().contains(v) implies vstd::set_lib::set_int_range(0, n).contains(v) by {
            assert(qi.contains(v));
            let k = choose|k: int| 0 <= k < qi.len() && qi[k] == v;
            assert(q[k] < n);
        }
    }
    vstd::set_lib::lemma_len_subset(qi.to_set(), vstd::set_lib::set_int_range(0, n));
}

impl MigrationValidator {
    pub fn new() -> (res: Self)
        ensures
            res@ == Seq::<EntryModel>::empty(),
    {
        let res = MigrationValidator { migrations: Vec::new() };
        proof {
            assert(res@ =~= Seq::<EntryModel>::empty());
        }
        res
    }

    pub fn add(&mut self, id: &str, after: Option<&str>)
        ensures
            final(self)@ == old(self)@.push(
                EntryModel {
                    id: id@,
                    after: match after {
                        Some(a) => Some(a@),
                        None => None,
                    },
                },
            ),
    {
        let m = MigrationMeta {
            id: id.to_owned(),
            after: match after {
                Some(a) => Some(a.to_owned()),
                None => None,
            },
        };
        self.migrations.push(m);
        proof {
            assert(self@ =~= old(self)@.push(m@));
        }
    }

    /// Validate migrations and return ordered list or error
    pub fn validate(&self) -> (res: Result<Vec<String>, ValidationFailure>)
        ensures
            match res {
                Err(ValidationFailure::DuplicateId(id)) => exists|i: int|
                    0 <= i < self@.len() && dup_at(self@, i) && (forall|k: int|
                        0 <= k < i ==> !dup_at(self@, k)) && id@ == self@[i].id,
                Err(ValidationFailure::MissingDependency { migration, depends_on }) => {
                    &&& no_dups(self@)
                    &&& exists|i: int|
                        0 <= i < self@.len() && missing_at(self@, i) && (forall|k: int|
                            0 <= k < i ==> !missing_at(self@, k)) && migration@ == self@[i].id
                            && depends_on@ == self@[i].after->0
                },
                Err(ValidationFailure::CircularDependency) => no_dups(self@) && no_missing(self@)
                    && !acyclic(self@),
                Ok(order) => no_dups(self@) && no_missing(self@) && acyclic(self@)
                    && is_topological_order(self@, order@.map_values(|s: String| s@)),
            },
    {
        let ghost ms = self@;
        let n = self.migrations.len();
        let mut keys: Vec<Vec<char>> = Vec::new();
        let mut i: usize = 0;
        while i < n
            invariant
                n == self.migrations@.len(),
                ms == self@,
                ms == self.migrations@.map_values(|m: MigrationMeta| m@),
                i <= n,
                keys@.len() == i,
                forall|k: int| 0 <= k < i ==> (#[trigger] keys@[k])@ == ms[k].id,
            decreases n - i,
        {
            keys.push(chars_of(self.migrations[i].id.as_str()));
            i = i + 1;
        }
        proof {
            assert(keys_view(keys@) =~= entry_ids(ms));
        }
        // duplicate ids
        let mut i: usize = 0;
        while i < n
            invariant
                n == ms.len(),
                keys@.len() == n,
                forall|k: int| 0 <= k < n ==> (#[trigger] keys@[k])@ == ms[k].id,
                ms == self.migrations@.map_values(|m: MigrationMeta| m@),
                i <= n,
                forall|k: int| 0 <= k < i ==> !dup_at(ms, k),
            decreases n - i,
        {
            let mut j: usize = 0;
            while j < i
                invariant
                    i < n,
                    n == ms.len(),
                    keys@.len() == n,
                    forall|k: int| 0 <= k < n ==> (#[trigger] keys@[k])@ == ms[k].id,
                    ms == self.migrations@.map_values(|m: MigrationMeta| m@),
                    ms == self@,
                    j <= i,
                    forall|k: int| 0 <= k < i ==> !dup_at(ms, k),
                    forall|k: int| 0 <= k < j ==> ms[k].id != ms[i as int].id,
                decreases i - j,
            {
                if chars_eq(&keys[j], &keys[i]) {
                    proof {
                        assert(dup_at(ms, i as int));
                        assert(ms[i as int] == self.migrations@[i as int]@);
                    }
                    let id = self.migrations[i].id.clone();
                    proof {
                        assert(0 <= i < ms.len() && dup_at(ms, i as int) && (forall|k: int|
                            0 <= k < i ==> !dup_at(ms, k)) && id@ == ms[i as int].id);
                    }
                    return Err(ValidationFailure::DuplicateId(id));
                }
                j = j + 1;
            }
            i = i + 1;
        }
        // missing dependencies
        let mut i: usize = 0;
        while i < n
            invariant
                n == ms.len(),
                keys@.len() == n,
                keys_view(keys@) == entry_ids(ms),
                forall|k: int| 0 <= k < n ==> (#[trigger] keys@[k])@ == ms[k].id,
                ms == self.migrations@.map_values(|m: MigrationMeta| m@),
                no_dups(ms),
                ms == self@,
                i <= n,
                forall|k: int| 0 <= k < i ==> !missing_at(ms, k),
            decreases n - i,
        {
            proof {
                assert(ms[i as int] == self.migrations@[i as int]@);
            }
            match &self.migrations[i].after {
                Some(a) => {
                    let ac = chars_of(a.as_str());
                    if last_pos_exec(&keys, &ac).is_none() {
                        let migration = self.migrations[i].id.clone();
                        let depends_on = a.clone();
                        proof {
                            assert(missing_at(ms, i as int));
                            assert(0 <= i < ms.len() && missing_at(ms, i as int) && (forall|k: int|
                                0 <= k < i ==> !missing_at(ms, k)) && migration@ == ms[i as int].id
                                && depends_on@ == ms[i as int].after->0);
                        }
                        return Err(ValidationFailure::MissingDependency { migration, depends_on });
                    }
                },
                None => {},
            }
            i = i + 1;
        }
        self.topological_sort(&keys)
    }

    fn topological_sort(&self, keys: &Vec<Vec<char>>) -> (res: Result<Vec<String>, ValidationFailure>)
        requires
            keys@.len() == self@.len(),
            keys_view(keys@) == entry_ids(self@),
            no_dups(self@),
            no_missing(self@),
        ensures
            match res {
                Err(ValidationFailure::CircularDependency) => !acyclic(self@),
                Ok(order) => acyclic(self@) && is_topological_order(
                    self@,
                    order@.map_values(|s: String| s@),
                ),
                _ => false,
            },
    {
        let ghost ms = self@;
        let n = self.migrations.len();
        // parent[i]: index of the migration that migration i depends on
        let mut parent: Vec<Option<usize>> = Vec::new();
        let mut i: usize = 0;
        while i < n
            invariant
                n == ms.len(),
                ms == self@,
                ms == self.migrations@.map_values(|m: MigrationMeta| m@),
                keys@.len() == n,
                keys_view(keys@) == entry_ids(ms),
                no_missing(ms),
                i <= n,
                parent@.len() == i,
                forall|k: int|
                    0 <= k < i ==> match #[trigger] parent@[k] {
                        Some(p) => p as int == parent_of(ms, k) && 0 <= p < n,
                        None => ms[k].after is None,
                    },
            decreases n - i,
        {
            proof {
                assert(ms[i as int] == self.migrations@[i as int]@);
            }
            match &self.migrations[i].after {
                Some(a) => {
                    let ac = chars_of(a.as_str());
                    proof {
                        assert(!missing_at(ms, i as int));
                        lemma_last_pos(entry_ids(ms), a@);
                    }
                    match last_pos_exec(keys, &ac) {
                        Some(p) => parent.push(Some(p)),
                        None => {
                            proof {
                                assert(false);
                            }
                            parent.push(None);
                        },
                    }
                },
                None => parent.push(None),
            }
            i = i + 1;
        }
        // Kahn's algorithm; every migration has at most one dependency, so a
        // migration becomes ready exactly when the one it depends on is done.
        let mut in_queue: Vec<bool> = Vec::new();
        let mut queue: Vec<usize> = Vec::new();
        let mut i: usize = 0;
        while i < n
            invariant
                n == ms.len(),
                parent@.len() == n,
                i <= n,
                in_queue@.len() == i,
                queue@.no_duplicates(),
                forall|k: int| 0 <= k < queue@.len() ==> (#[trigger] queue@[k]) < i,
                forall|x: int| 0 <= x < i ==> (#[trigger] in_queue@[x] <==> queue@.contains(x as usize)),
                forall|x: int| 0 <= x < i ==> (#[trigger] in_queue@[x] <==> parent@[x] is None),
                forall|k: int| 0 <= k < queue@.len() ==> parent@[#[trigger] queue@[k] as int] is None,
            decreases n - i,
        {
            let ghost q0 = queue@;
            if parent[i].is_none() {
                queue.push(i);
                in_queue.push(true);
                proof {
                    assert forall|a: int, b: int| 0 <= a < queue@.len() && 0 <= b < queue@.len() && a != b implies queue@[a] != queue@[b] by {
                        if a < q0.len() && b < q0.len() {
                        } else if a < q0.len() {
                            assert(q0[a] < i);
                        } else {
                            assert(q0[b] < i);
                        }
                    }
                    assert forall|x: int| 0 <= x < i + 1 implies (#[trigger] in_queue@[x] <==> queue@.contains(x as usize)) by {
                        if x < i {
                            if queue@.contains(x as usize) {
                                let k = choose|k: int| 0 <= k < queue@.len() && queue@[k] == x as usize;
                                if k < q0.len() {
                                    assert(q0.contains(x as usize));
                                }
                            }
                            if q0.contains(x as usize) {
                                let k = choose|k: int| 0 <= k < q0.len() && q0[k] == x as usize;
                                assert(queue@[k] == x as usize);
                            }
                        } else {
                            assert(queue@[q0.len() as int] == i);
                        }
                    }
                }
            } else {
                in_queue.push(false);
                proof {
                    assert forall|x: int| 0 <= x < i + 1 implies (#[trigger] in_queue@[x] <==> queue@.contains(x as usize)) by {
                        if x == i {
                            if queue@.contains(x as usize) {
                                let k = choose|k: int| 0 <= k < queue@.len() && queue@[k] == x as usize;
                                assert(queue@[k] < i);
                            }
                        }
                    }
                }
            }
            i = i + 1;
        }
        proof {
            lemma_distinct_bounded(queue@, n as int);
        }
        let mut head: usize = 0;
        while head < queue.len()
            invariant
                n == ms.len(),
                parent@.len() == n,
                in_queue@.len() == n,
                head <= queue@.len(),
                queue@.len() <= n,
                forall|k: int|
                    0 <= k < n ==> match #[trigger] parent@[k] {
                        Some(p) => p as int == parent_of(ms, k) && 0 <= p < n,
                        None => ms[k].after is None,
                    },
                queue@.no_duplicates(),
                forall|k: int| 0 <= k < queue@.len() ==> (#[trigger] queue@[k]) < n,
                forall|x: int| 0 <= x < n ==> (#[trigger] in_queue@[x] <==> queue@.contains(x as usize)),
                // a migration is queued iff it is a root or its dependency is done
                forall|x: int|
                    0 <= x < n ==> (#[trigger] in_queue@[x] <==> (parent@[x] is None || exists|m: int|
                        0 <= m < head && queue@[m] == parent@[x]->0)),
                // dependencies come earlier in the queue
                forall|k: int|
                    0 <= k < queue@.len() && (#[trigger] parent@[queue@[k] as int]) is Some
                        ==> exists|m: int| 0 <= m < k && queue@[m] == parent@[queue@[k] as int]->0,
            decreases n - head,
        {
            let node = queue[head];
            let ghost q0 = queue@;
            let ghost h0 = head;
            head = head + 1;
            let mut c: usize = 0;
            while c < n
                invariant
                    n == ms.len(),
                    parent@.len() == n,
                    in_queue@.len() == n,
                    head == h0 + 1,
                    h0 < q0.len(),
                    node == q0[h0 as int],
                    c <= n,
                    q0.no_duplicates(),
                    queue@.no_duplicates(),
                    forall|k: int| 0 <= k < q0.len() ==> (#[trigger] q0[k]) < n,
                    queue@.len() >= q0.len(),
                    queue@.subrange(0, q0.len() as int) == q0,
                    forall|k: int| q0.len() <= k < queue@.len() ==> parent@[#[trigger] queue@[k] as int] == Some(node),
                    forall|k: int| q0.len() <= k < queue@.len() ==> (#[trigger] queue@[k]) < c,
                    forall|a: int, b: int| q0.len() <= a < b < queue@.len() ==> queue@[a] < queue@[b],
                    forall|x: int| 0 <= x < n ==> (#[trigger] in_queue@[x] <==> queue@.contains(x as usize)),
                    forall|x: int|
                        0 <= x < n ==> (#[trigger] in_queue@[x] <==> (parent@[x] is None || exists|m: int|
                            0 <= m < h0 && queue@[m] == parent@[x]->0) || (x < c && parent@[x] == Some(node))),
                    forall|k: int|
                        0 <= k < q0.len() && (#[trigger] parent@[q0[k] as int]) is Some
                            ==> exists|m: int| 0 <= m < k && q0[m] == parent@[q0[k] as int]->0,
                decreases n - c,
            {
                let ghost qb = queue@;
                if parent[c] == Some(node) {
                    proof {
                        // c is not queued yet: its dependency `node` was not done before
                        if in_queue@[c as int] {
                            let m = choose|m: int| 0 <= m < h0 && queue@[m] == parent@[c as int]->0;
                            assert(queue@[m] == q0[m]);
                            assert(q0[m] == q0[h0 as int]);
                        }
                    }
                    proof {
                        assert(!qb.contains(c));
                    }
                    queue.push(c);
                    in_queue.set(c, true);
                    proof {
                        assert(queue@.subrange(0, q0.len() as int) =~= q0);
                        assert forall|a: int, b: int| 0 <= a < queue@.len() && 0 <= b < queue@.len() && a != b implies queue@[a] != queue@[b] by {
                            if a < qb.len() && b < qb.len() {
                                assert(queue@[a] == qb[a] && queue@[b] == qb[b]);
                            } else if a < qb.len() {
                                assert(queue@[a] == qb[a]);
                                assert(qb.contains(qb[a]));
                            } else {
                                assert(queue@[b] == qb[b]);
                                assert(qb.contains(qb[b]));
                            }
                        }
                    }
                }
                proof {
                    assert forall|x: int| 0 <= x < n implies (#[trigger] in_queue@[x] <==> queue@.contains(x as usize)) by {
                        if queue@.contains(x as usize) && x != c {
                            let k = choose|k: int| 0 <= k < queue@.len() && queue@[k] == x as usize;
                            if k < qb.len() {
                                assert(qb.contains(x as usize));
                            }
                        }
                        if qb.contains(x as usize) {
                            let k = choose|k: int| 0 <= k < qb.len() && qb[k] == x as usize;
                            assert(queue@[k] == x as usize);
                        }
                        if x == c && in_queue@[x] {
                            if queue@.len() > qb.len() {
                                assert(queue@[qb.len() as int] == c);
                            }
                        }
                    }
                    assert forall|x: int|
                        0 <= x < n implies (#[trigger] in_queue@[x] <==> (parent@[x] is None || exists|m: int|
                            0 <= m < h0 && queue@[m] == parent@[x]->0) || (x < c + 1 && parent@[x] == Some(node))) by {
                        if exists|m: int| 0 <= m < h0 && qb[m] == parent@[x]->0 {
                            let m = choose|m: int| 0 <= m < h0 && qb[m] == parent@[x]->0;
                            assert(queue@[m] == qb[m]);
                        }
                        if exists|m: int| 0 <= m < h0 && queue@[m] == parent@[x]->0 {
                            let m = choose|m: int| 0 <= m < h0 && queue@[m] == parent@[x]->0;
                            assert(queue@[m] == qb[m]);
                        }
                    }
                }
                c = c + 1;
            }
            proof {
                assert forall|k: int| 0 <= k < queue@.len() implies (#[trigger] queue@[k]) < n by {
                    if k < q0.len() {
                        assert(queue@[k] == q0[k]);
                    }
                }
                lemma_distinct_bounded(queue@, n as int);
                assert forall|x: int|
                    0 <= x < n implies (#[trigger] in_queue@[x] <==> (parent@[x] is None || exists|m: int|
                        0 <= m < head && queue@[m] == parent@[x]->0)) by {
                    if parent@[x] == Some(node) {
                        assert(queue@[h0 as int] == q0[h0 as int]);
                    }
                    if exists|m: int| 0 <= m < head && queue@[m] == parent@[x]->0 {
                        let m = choose|m: int| 0 <= m < head && queue@[m] == parent@[x]->0;
                        if m == h0 {
                            assert(queue@[m] == node);
                        }
                    }
                }
                assert forall|k: int|
                    0 <= k < queue@.len() && (#[trigger] parent@[queue@[k] as int]) is Some
                        implies exists|m: int| 0 <= m < k && queue@[m] == parent@[queue@[k] as int]->0 by {
                    if k < q0.len() {
                        assert(queue@[k] == q0[k]);
                        let m = choose|m: int| 0 <= m < k && q0[m] == parent@[q0[k] as int]->0;
                        assert(queue@[m] == q0[m]);
                    } else {
                        assert(queue@[h0 as int] == q0[h0 as int]);
                    }
                }
            }
        }
        // every migration must have been scheduled
        let mut x: usize = 0;
        while x < n
            invariant
                n == ms.len(),
                ms == self@,
                in_queue@.len() == n,
                parent@.len() == n,
                head == queue@.len(),
                forall|k: int|
                    0 <= k < n ==> match #[trigger] parent@[k] {
                        Some(p) => p as int == parent_of(ms, k) && 0 <= p < n,
                        None => ms[k].after is None,
                    },
                forall|y: int| 0 <= y < n ==> (#[trigger] in_queue@[y] <==> queue@.contains(y as usize)),
                forall|y: int|
                    0 <= y < n ==> (#[trigger] in_queue@[y] <==> (parent@[y] is None || exists|m: int|
                        0 <= m < head && queue@[m] == parent@[y]->0)),
                x <= n,
                forall|y: int| 0 <= y < x ==> #[trigger] in_queue@[y],
            decreases n - x,
        {
            if !in_queue[x] {
                proof {
                    assert forall|y: int|
                        0 <= y < ms.len() && !#[trigger] in_queue@[y] implies ms[y].after is Some && 0
                            <= parent_of(ms, y) < ms.len() && !in_queue@[parent_of(ms, y)] by {
                        assert(parent@[y] is Some);
                        let p = parent@[y]->0;
                        if in_queue@[p as int] {
                            let k = choose|k: int| 0 <= k < queue@.len() && queue@[k] == p;
                            assert(exists|m: int| 0 <= m < head && queue@[m] == parent@[y]->0);
                        }
                    }
                    assert forall|d: nat| !reaches_root(ms, x as int, d) by {
                        lemma_outside_never_reaches(ms, in_queue@, x as int, d);
                    }
                    assert(!has_root_path(ms, x as int));
                }
                return Err(ValidationFailure::CircularDependency);
            }
            x = x + 1;
        }
        // build the ordered id list
        let mut order: Vec<String> = Vec::new();
        let mut k: usize = 0;
        while k < queue.len()
            invariant
                n == ms.len(),
                ms == self.migrations@.map_values(|m: MigrationMeta| m@),
                k <= queue@.len(),
                forall|j: int| 0 <= j < queue@.len() ==> (#[trigger] queue@[j]) < n,
                order@.len() == k,
                forall|j: int| 0 <= j < k ==> (#[trigger] order@[j])@ == ms[queue@[j] as int].id,
            decreases queue@.len() - k,
        {
            proof {
                assert(ms[queue@[k as int] as int] == self.migrations@[queue@[k as int] as int]@);
            }
            order.push(self.migrations[queue[k]].id.clone());
            k = k + 1;
        }
        proof {
            let ov = order@.map_values(|s: String| s@);
            // every node is queued, so the queue is a permutation of 0..n
            assert forall|j: int| 0 <= j < queue@.len() implies reaches_root(ms, #[trigger] queue@[j] as int, j as nat) by {
                lemma_queue_reaches(ms, parent@, queue@, j);
            }
            assert forall|i: int| 0 <= i < ms.len() implies #[trigger] has_root_path(ms, i) by {
                assert(in_queue@[i]);
                let j = choose|j: int| 0 <= j < queue@.len() && queue@[j] == i as usize;
                assert(reaches_root(ms, queue@[j] as int, j as nat));
            }
            assert forall|x: usize| (x as int) < n implies #[trigger] queue@.contains(x) by {
                assert(in_queue@[x as int]);
            }
            lemma_queue_covers(queue@, n as int);
            assert(ov.len() == ms.len());
            assert(ov.no_duplicates()) by {
                assert forall|a: int, b: int| 0 <= a < ov.len() && 0 <= b < ov.len() && a != b implies ov[a] != ov[b] by {
                    assert(queue@[a] != queue@[b]);
                    assert(!dup_at(ms, queue@[a] as int));
                    assert(!dup_at(ms, queue@[b] as int));
                    if ov[a] == ov[b] {
                        if queue@[a] < queue@[b] {
                            assert(dup_at(ms, queue@[b] as int));
                        } else {
                            assert(dup_at(ms, queue@[a] as int));
                        }
                    }
                }
            }
            assert forall|i: int| 0 <= i < ms.len() implies ov.contains(#[trigger] ms[i].id) by {
                assert(in_queue@[i]);
                let j = choose|j: int| 0 <= j < queue@.len() && queue@[j] == i as usize;
                assert(ov[j] == ms[i].id);
            }
            assert forall|i: int, kk: int|
                0 <= i < ms.len() && 0 <= kk < ov.len() && ov[kk] == ms[i].id && ms[i].after is Some
                    implies exists|m: int| 0 <= m < kk && #[trigger] ov[m] == ms[i].after->0 by {
                let q = queue@[kk] as int;
                // ids are unique, so the entry at position kk is entry i
                if q != i {
                    if q < i {
                        assert(dup_at(ms, i));
                    } else {
                        assert(dup_at(ms, q));
                    }
                }
                assert(parent@[q] is Some);
                let m = choose|m: int| 0 <= m < kk && queue@[m] == parent@[queue@[kk] as int]->0;
                lemma_last_pos(entry_ids(ms), ms[i].after->0);
                assert(ov[m] == ms[parent_of(ms, i)].id);
            }
        }
        Ok(order)
    }
}

proof fn lemma_queue_reaches(ms: Seq<EntryModel>, parent: Seq<Option<usize>>, queue: Seq<usize>, j: int)
    requires
        parent.len() == ms.len(),
        0 <= j < queue.len(),
        forall|k: int| 0 <= k < queue.len() ==> (#[trigger] queue[k]) < ms.len(),
        forall|k: int|
            0 <= k < ms.len() ==> match #[trigger] parent[k] {
                Some(p) => p as int == parent_of(ms, k) && 0 <= p < ms.len(),
                None => ms[k].after is None,
            },
        forall|k: int|
            0 <= k < queue.len() && (#[trigger] parent[queue[k] as int]) is Some ==> exists|m: int|
                0 <= m < k && queue[m] == parent[queue[k] as int]->0,
    ensures
        reaches_root(ms, queue[j] as int, j as nat),
    decreases j,
{
    let x = queue[j] as int;
    if parent[x] is Some {
        let m = choose|m: int| 0 <= m < j && queue[m] == parent[x]->0;
        lemma_queue_reaches(ms, parent, queue, m);
        lemma_reaches_mono(ms, queue[m] as int, m as nat, (j - 1) as nat);
    }
}

proof fn lemma_queue_covers(queue: Seq<usize>, n: int)
    requires
        0 <= n,
        queue.no_duplicates(),
        forall|k: int| 0 <= k < queue.len() ==> (#[trigger] queue[k]) < n,
        n <= usize::MAX,
        forall|x: usize| (x as int) < n ==> #[trigger] queue.contains(x),
    ensures
        queue.len() == n,
{
    lemma_distinct_bounded(queue, n);
    let qi = queue.map_values(|x: usize| x as int);
    assert(qi.no_duplicates()) by {
        assert forall|a: int, b: int| 0 <= a < qi.len() && 0 <= b < qi.len() && a != b implies qi[a] != qi[b] by {
            assert(queue[a] != queue[b]);
        }
    }
    qi.unique_seq_to_set();
    vstd::set_lib::lemma_int_range(0, n);
    assert(vstd::set_lib::set_int_range(0, n).subset_of(qi.to_set())) by {
        assert forall|v: int| vstd::set_lib::set_int_range(0, n).contains(v) implies qi.to_set().contains(v) by {
            let x = v as usize;
            assert(x as int == v);
            assert(queue.contains(x));
            let k = choose|k: int| 0 <= k < queue.len() && queue[k] == x;
            assert(qi[k] == v);
        }
    }
    vstd::set_lib::lemma_len_subset(vstd::set_lib::set_int_range(0, n), qi.to_set());
}

} // verus!
