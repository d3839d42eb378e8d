//! Schema diff: the operations that transform one schema state into another,
//! in an order that is safe to execute.

use vstd::prelude::*;

use crate::schema::{
    clone_opt_str, column_index, lemma_column_index_from, opt_str_view, position_of_column,
    strs_view, ColumnModel, ColumnSchema, ColumnType, ForeignKeyModel, ForeignKeySchema, IndexModel, IndexSchema, TableModel, TableSchema,
};
use crate::text::{chars_eq, chars_of, push_str, string_of};

verus! {

/// Operations that can be performed on a database schema
#[derive(Debug)]
pub enum SchemaOperation {
    /// Create a new table
    CreateTable(TableSchema),
    /// Drop a table
    DropTable(String),
    /// Rename a table
    RenameTable { from: String, to: String },
    /// Add a column to a table
    AddColumn { table: String, column: ColumnSchema },
    /// Drop a column from a table
    DropColumn { table: String, column: String },
    /// Rename a column
    RenameColumn { table: String, from: String, to: String },
    /// Alter a column (type, nullable, default, etc.)
    AlterColumn { table: String, column: String, changes: ColumnChanges },
    /// Create an index
    CreateIndex { table: String, index: IndexSchema },
    /// Drop an index
    DropIndex { table: String, name: String },
    /// Add a foreign key constraint
    AddForeignKey { table: String, foreign_key: ForeignKeySchema },
    /// Drop a foreign key constraint
    DropForeignKey { table: String, name: String },
}

/// An operation as the specifications see it.
pub enum OpModel {
    CreateTable(TableModel),
    DropTable(Seq<char>),
    RenameTable { from: Seq<char>, to: Seq<char> },
    AddColumn { table: Seq<char>, column: ColumnModel },
    DropColumn { table: Seq<char>, column: Seq<char> },
    RenameColumn { table: Seq<char>, from: Seq<char>, to: Seq<char> },
    AlterColumn { table: Seq<char>, column: Seq<char>, changes: ChangesModel },
    CreateIndex { table: Seq<char>, index: IndexModel },
    DropIndex { table: Seq<char>, name: Seq<char> },
    AddForeignKey { table: Seq<char>, foreign_key: ForeignKeyModel },
    DropForeignKey { table: Seq<char>, name: Seq<char> },
}

impl View for SchemaOperation {
    type V = OpModel;

    open spec fn view(&self) -> OpModel {
        match self {
            SchemaOperation::CreateTable(t) => OpModel::CreateTable(t@),
            SchemaOperation::DropTable(n) => OpModel::DropTable(n@),
            SchemaOperation::RenameTable { from, to } => OpModel::RenameTable {
                from: from@,
                to: to@,
            },
            SchemaOperation::AddColumn { table, column } => OpModel::AddColumn {
                table: table@,
                column: column@,
            },
            SchemaOperation::DropColumn { table, column } => OpModel::DropColumn {
                table: table@,
                column: column@,
            },
            SchemaOperation::RenameColumn { table, from, to } => OpModel::RenameColumn {
                table: table@,
                from: from@,
                to: to@,
            },
            SchemaOperation::AlterColumn { table, column, changes } => OpModel::AlterColumn {
                table: table@,
                column: column@,
                changes: changes@,
            },
            SchemaOperation::CreateIndex { table, index } => OpModel::CreateIndex {
                table: table@,
                index: index@,
            },
            SchemaOperation::DropIndex { table, name } => OpModel::DropIndex {
                table: table@,
                name: name@,
            },
            SchemaOperation::AddForeignKey { table, foreign_key } => OpModel::AddForeignKey {
                table: table@,
                foreign_key: foreign_key@,
            },
            SchemaOperation::DropForeignKey { table, name } => OpModel::DropForeignKey {
                table: table@,
                name: name@,
            },
        }
    }
}

pub open spec fn ops_view(v: Seq<SchemaOperation>) -> Seq<OpModel> {
    v.map_values(|o: SchemaOperation| o@)
}

/// Changes to apply to a column
#[derive(Debug)]
pub struct ColumnChanges {
    /// New column type (if changed)
    pub column_type: Option<ColumnType>,
    /// New nullable setting (if changed)
    pub nullable: Option<bool>,
    /// New default value (Some(None) = remove default)
    pub default: Option<Option<String>>,
    /// New max_length (if changed)
    pub max_length: Option<Option<u32>>,
    /// New unique setting (if changed)
    pub unique: Option<bool>,
}

pub struct ChangesModel {
    pub column_type: Option<ColumnType>,
    pub nullable: Option<bool>,
    pub default: Option<Option<Seq<char>>>,
    pub max_length: Option<Option<u32>>,
    pub unique: Option<bool>,
}

impl View for ColumnChanges {
    type V = ChangesModel;

    open spec fn view(&self) -> ChangesModel {
        ChangesModel {
            column_type: self.column_type,
            nullable: self.nullable,
            default: match self.default {
                Some(d) => Some(opt_str_view(d)),
                None => None,
            },
            max_length: self.max_length,
            unique: self.unique,
        }
    }
}

pub open spec fn no_changes() -> ChangesModel {
    ChangesModel { column_type: None, nullable: None, default: None, max_length: None, unique: None }
}

pub open spec fn changes_empty(c: ChangesModel) -> bool {
    c.column_type is None && c.nullable is None && c.default is None && c.max_length is None
        && c.unique is None
}

impl Default for ColumnChanges {
    fn default() -> (res: Self)
        ensures
            res@ == no_changes(),
    {
        ColumnChanges { column_type: None, nullable: None, default: None, max_length: None, unique: None }
    }
}

impl ColumnChanges {
    /// Check if there are any changes
    pub fn is_empty(&self) -> (res: bool)
        ensures
            res == changes_empty(self@),
    {
        self.column_type.is_none() && self.nullable.is_none() && self.default.is_none()
            && self.max_length.is_none() && self.unique.is_none()
    }
}

// ---------------------------------------------------------------------------
// Safe execution order
// ---------------------------------------------------------------------------

/// Execution rank: constraints are dropped first, then indexes, columns and
/// tables; then tables are created, columns added, renamed and altered, and
/// finally indexes and foreign keys are created.
pub open spec fn rank(o: OpModel) -> nat {
    match o {
        OpModel::DropForeignKey { .. } => 0,
        OpModel::DropIndex { .. } => 1,
        OpModel::DropColumn { .. } => 2,
        OpModel::DropTable(_) => 3,
        OpModel::CreateTable(_) => 4,
        OpModel::AddColumn { .. } => 5,
        OpModel::RenameColumn { .. } => 6,
        OpModel::RenameTable { .. } => 6,
        OpModel::AlterColumn { .. } => 7,
        OpModel::CreateIndex { .. } => 8,
        OpModel::AddForeignKey { .. } => 9,
    }
}

pub fn op_rank(op: &SchemaOperation) -> (r: usize)
    ensures
        r as nat == rank(op@),
        r < 10,
{
    match op {
        SchemaOperation::DropForeignKey { .. } => 0,
        SchemaOperation::DropIndex { .. } => 1,
        SchemaOperation::DropColumn { .. } => 2,
        SchemaOperation::DropTable(_) => 3,
        SchemaOperation::CreateTable(_) => 4,
        SchemaOperation::AddColumn { .. } => 5,
        SchemaOperation::RenameColumn { .. } => 6,
        SchemaOperation::RenameTable { .. } => 6,
        SchemaOperation::AlterColumn { .. } => 7,
        SchemaOperation::CreateIndex { .. } => 8,
        SchemaOperation::AddForeignKey { .. } => 9,
    }
}

/// The operations of rank `r`, in their original order.
pub open spec fn with_rank(ops: Seq<OpModel>, r: nat) -> Seq<OpModel>
    decreases ops.len(),
{
    if ops.len() == 0 {
        Seq::empty()
    } else {
        let p = with_rank(ops.drop_last(), r);
        if rank(ops.last()) == r {
            p.push(ops.last())
        } else {
            p
        }
    }
}

/// The operations of rank below `k`, grouped by rank in increasing order.
pub open spec fn by_rank_upto(ops: Seq<OpModel>, k: nat) -> Seq<OpModel>
    decreases k,
{
    if k == 0 {
        Seq::empty()
    } else {
        by_rank_upto(ops, (k - 1) as nat) + with_rank(ops, (k - 1) as nat)
    }
}

/// A stable sort of the operations by rank.
pub open spec fn ordered_ops(ops: Seq<OpModel>) -> Seq<OpModel> {
    by_rank_upto(ops, 10)
}

proof fn lemma_with_rank_push(ops: Seq<OpModel>, x: OpModel, r: nat)
    ensures
        with_rank(ops.push(x), r) == (if rank(x) == r {
            with_rank(ops, r).push(x)
        } else {
            with_rank(ops, r)
        }),
{
    assert(ops.push(x).drop_last() =~= ops);
}

proof fn lemma_with_rank_elems(ops: Seq<OpModel>, r: nat)
    ensures
        forall|i: int| 0 <= i < with_rank(ops, r).len() ==> rank(#[trigger] with_rank(ops, r)[i]) == r,
    decreases ops.len(),
{
    if ops.len() > 0 {
        lemma_with_rank_elems(ops.drop_last(), r);
        let p = with_rank(ops.drop_last(), r);
        if rank(ops.last()) == r {
            assert forall|i: int| 0 <= i < p.push(ops.last()).len() implies rank(
                #[trigger] p.push(ops.last())[i],
            ) == r by {
                if i < p.len() {
                    assert(p.push(ops.last())[i] == p[i]);
                }
            }
        }
    }
}

proof fn lemma_by_rank_sorted(ops: Seq<OpModel>, k: nat)
    ensures
        forall|i: int| 0 <= i < by_rank_upto(ops, k).len() ==> rank(#[trigger] by_rank_upto(ops, k)[i]) < k,
        forall|i: int, j: int|
            0 <= i < j < by_rank_upto(ops, k).len() ==> rank(#[trigger] by_rank_upto(ops, k)[i])
                <= rank(#[trigger] by_rank_upto(ops, k)[j]),
    decreases k,
{
    if k > 0 {
        lemma_by_rank_sorted(ops, (k - 1) as nat);
        lemma_with_rank_elems(ops, (k - 1) as nat);
        let a = by_rank_upto(ops, (k - 1) as nat);
        let b = with_rank(ops, (k - 1) as nat);
        assert(by_rank_upto(ops, k) == a + b);
        assert forall|i: int, j: int| 0 <= i < j < (a + b).len() implies rank((a + b)[i]) <= rank(
            (a + b)[j],
        ) by {
            if j < a.len() {
                assert(rank(a[i]) <= rank(a[j]));
            } else if i < a.len() {
                assert(rank(a[i]) < k - 1);
                assert(rank(b[j - a.len()]) == k - 1);
            } else {
                assert(rank(b[i - a.len()]) == k - 1);
                assert(rank(b[j - a.len()]) == k - 1);
            }
        }
        assert forall|i: int| 0 <= i < (a + b).len() implies rank((a + b)[i]) < k by {
            if i < a.len() {
                assert(rank(a[i]) < k - 1);
            } else {
                assert(rank(b[i - a.len()]) == k - 1);
            }
        }
    }
}

proof fn lemma_by_rank_push_multiset(ops: Seq<OpModel>, x: OpModel, k: nat)
    ensures
        by_rank_upto(ops.push(x), k).to_multiset() == (if rank(x) < k {
            by_rank_upto(ops, k).to_multiset().insert(x)
        } else {
            by_rank_upto(ops, k).to_multiset()
        }),
    decreases k,
{
    broadcast use vstd::seq_lib::lemma_multiset_commutative, vstd::seq_lib::to_multiset_build;
    if k > 0 {
        let k1 = (k - 1) as nat;
        lemma_by_rank_push_multiset(ops, x, k1);
        lemma_with_rank_push(ops, x, k1);
        let a = by_rank_upto(ops, k1);
        let b = with_rank(ops, k1);
        let a2 = by_rank_upto(ops.push(x), k1);
        let b2 = with_rank(ops.push(x), k1);
        assert((a2 + b2).to_multiset() == a2.to_multiset().add(b2.to_multiset()));
        assert((a + b).to_multiset() == a.to_multiset().add(b.to_multiset()));
        if rank(x) == k1 {
            assert(b2.to_multiset() == b.to_multiset().insert(x));
            assert(a2.to_multiset() == a.to_multiset());
            assert(a2.to_multiset().add(b.to_multiset().insert(x)) =~= a.to_multiset().add(
                b.to_multiset(),
            ).insert(x));
        } else if rank(x) < k1 {
            assert(a2.to_multiset().add(b.to_multiset()) =~= a.to_multiset().insert(x).add(
                b.to_multiset(),
            ));
            assert(a.to_multiset().insert(x).add(b.to_multiset()) =~= a.to_multiset().add(
                b.to_multiset(),
            ).insert(x));
        } else {
        }
    }
}

proof fn lemma_ordered_multiset(ops: Seq<OpModel>)
    ensures
        ordered_ops(ops).to_multiset() == ops.to_multiset(),
    decreases ops.len(),
{
    broadcast use vstd::seq_lib::to_multiset_build;
    if ops.len() == 0 {
        lemma_by_rank_empty(ops, 10);
        assert(ordered_ops(ops) =~= Seq::<OpModel>::empty());
        assert(ops =~= Seq::<OpModel>::empty());
    } else {
        let p = ops.drop_last();
        let x = ops.last();
        lemma_ordered_multiset(p);
        assert(p.push(x) =~= ops);
        lemma_by_rank_push_multiset(p, x, 10);
        assert(rank(x) < 10);
        assert(ordered_ops(p.push(x)).to_multiset() == ordered_ops(p).to_multiset().insert(x));
        assert(p.push(x).to_multiset() == p.to_multiset().insert(x));
    }
}

proof fn lemma_by_rank_empty(ops: Seq<OpModel>, k: nat)
    requires
        ops.len() == 0,
    ensures
        by_rank_upto(ops, k).len() == 0,
    decreases k,
{
    if k > 0 {
        lemma_by_rank_empty(ops, (k - 1) as nat);
    }
}

/// Ordering keeps every operation and puts them in non-decreasing rank: a
/// drop of a constraint never comes after a creation that depends on it.
pub proof fn law_order_operations_is_sorted_permutation(ops: Seq<OpModel>)
    ensures
        ordered_ops(ops).to_multiset() == ops.to_multiset(),
        forall|i: int, j: int|
            0 <= i < j < ordered_ops(ops).len() ==> rank(#[trigger] ordered_ops(ops)[i]) <= rank(
                #[trigger] ordered_ops(ops)[j],
            ),
{
    lemma_ordered_multiset(ops);
    lemma_by_rank_sorted(ops, 10);
}

/// An operation that removes something from the schema.
pub open spec fn is_drop(o: OpModel) -> bool {
    o is DropForeignKey || o is DropIndex || o is DropColumn || o is DropTable
}

/// An operation that adds something to the schema.
pub open spec fn is_creation(o: OpModel) -> bool {
    o is CreateTable || o is AddColumn || o is CreateIndex || o is AddForeignKey
}

/// An operation that a foreign key may depend on: it creates or reshapes the
/// tables and columns a constraint refers to.
pub open spec fn builds_structure(o: OpModel) -> bool {
    o is CreateTable || o is AddColumn || o is RenameColumn || o is AlterColumn || o is CreateIndex
}

/// An operation that an index may depend on: it creates or renames the
/// tables and columns an index covers.
pub open spec fn builds_columns(o: OpModel) -> bool {
    o is CreateTable || o is AddColumn || o is RenameColumn
}

/// Ordering operations is safe: it keeps every operation, every drop comes
/// before every creation, foreign keys are dropped before anything else is
/// dropped, indexes are created after the tables and columns they cover, and
/// every foreign key is added after every table, column and index operation
/// it could depend on.
pub proof fn law_order_operations_is_safe(ops: Seq<OpModel>)
    ensures
        forall|i: int, j: int|
            0 <= i < j < ordered_ops(ops).len() ==> !(is_drop(#[trigger] ordered_ops(ops)[i])
                && #[trigger] ordered_ops(ops)[j] is DropForeignKey && !(ordered_ops(ops)[i] is DropForeignKey)),
        forall|i: int, j: int|
            0 <= i < j < ordered_ops(ops).len() ==> !(#[trigger] ordered_ops(ops)[i] is CreateIndex
                && builds_columns(#[trigger] ordered_ops(ops)[j])),
        ordered_ops(ops).to_multiset() == ops.to_multiset(),
        forall|i: int, j: int|
            0 <= i < j < ordered_ops(ops).len() ==> !(is_creation(#[trigger] ordered_ops(ops)[i]) && is_drop(
                #[trigger] ordered_ops(ops)[j],
            )),
        forall|i: int, j: int|
            0 <= i < j < ordered_ops(ops).len() ==> !(#[trigger] ordered_ops(ops)[i] is AddForeignKey
                && builds_structure(#[trigger] ordered_ops(ops)[j])),
{
    law_order_operations_is_sorted_permutation(ops);
    let r = ordered_ops(ops);
    assert forall|i: int, j: int| 0 <= i < j < r.len() implies !(is_creation(#[trigger] r[i]) && is_drop(
        #[trigger] r[j],
    )) by {
        assert(rank(r[i]) <= rank(r[j]));
    }
    assert forall|i: int, j: int| 0 <= i < j < r.len() implies !(#[trigger] r[i] is AddForeignKey
        && builds_structure(#[trigger] r[j])) by {
        assert(rank(r[i]) <= rank(r[j]));
    }
    assert forall|i: int, j: int| 0 <= i < j < r.len() implies !(is_drop(#[trigger] r[i]) && #[trigger] r[j] is DropForeignKey
        && !(r[i] is DropForeignKey)) by {
        assert(rank(r[i]) <= rank(r[j]));
    }
    assert forall|i: int, j: int| 0 <= i < j < r.len() implies !(#[trigger] r[i] is CreateIndex && builds_columns(
        #[trigger] r[j],
    )) by {
        assert(rank(r[i]) <= rank(r[j]));
    }
}

/// Order operations for safe execution (a stable sort by `rank`).
pub fn order_operations(ops: Vec<SchemaOperation>) -> (res: Vec<SchemaOperation>)
    ensures
        ops_view(res@) == ordered_ops(ops_view(ops@)),
{
    let ghost orig = ops_view(ops@);
    let n: usize = ops.len();
    let mut rest = ops;
    let mut buckets: Vec<Vec<SchemaOperation>> = Vec::new();
    let mut r: usize = 0;
    while r < 10
        invariant
            r <= 10,
            buckets@.len() == r,
            forall|q: int| 0 <= q < r ==> (#[trigger] buckets@[q])@.len() == 0,
        decreases 10 - r,
    {
        buckets.push(Vec::new());
        r = r + 1;
    }
    let mut i: usize = 0;
    proof {
        assert(rest@.subrange(0, n as int) =~= rest@);
        assert forall|q: int| 0 <= q < 10 implies ops_view((#[trigger] buckets@[q])@) == with_rank(
            orig.take(0),
            q as nat,
        ) by {
            assert(ops_view(buckets@[q]@) =~= Seq::empty());
            assert(orig.take(0) =~= Seq::<OpModel>::empty());
        }
    }
    while rest.len() > 0
        invariant
            orig == ops_view(ops@),
            n == ops@.len(),
            i + rest@.len() == n,
            ops_view(rest@) == orig.subrange(i as int, n as int),
            buckets@.len() == 10,
            forall|q: int|
                0 <= q < 10 ==> ops_view((#[trigger] buckets@[q])@) == with_rank(
                    orig.take(i as int),
                    q as nat,
                ),
        decreases rest@.len(),
    {
        let ghost before = rest@;
        let op = rest.remove(0);
        let k = op_rank(&op);
        let ghost x = op@;
        proof {
            assert(ops_view(before)[0] == before[0]@);
            assert(ops_view(before)[0] == orig[i as int]);
            assert(x == orig[i as int]);
            assert(ops_view(rest@) =~= ops_view(before).subrange(1, before.len() as int));
            assert(orig.take(i + 1) =~= orig.take(i as int).push(x));
            assert(ops_view(rest@) =~= orig.subrange(i + 1, n as int));
        }
        let ghost old_buckets = buckets@;
        buckets[k].push(op);
        proof {
            assert forall|q: int| 0 <= q < 10 implies ops_view((#[trigger] buckets@[q])@)
                == with_rank(orig.take(i + 1), q as nat) by {
                lemma_with_rank_push(orig.take(i as int), x, q as nat);
                if q == k {
                    assert(ops_view(buckets@[q]@) =~= ops_view(old_buckets[q]@).push(x));
                } else {
                    assert(buckets@[q] == old_buckets[q]);
                }
            }
        }
        i = i + 1;
    }
    proof {
        assert(orig.take(n as int) =~= orig);
    }
    let mut res: Vec<SchemaOperation> = Vec::new();
    let mut q: usize = 0;
    while q < 10
        invariant
            q <= 10,
            buckets@.len() == 10 - q,
            forall|p: int|
                0 <= p < 10 - q ==> ops_view((#[trigger] buckets@[p])@) == with_rank(
                    orig,
                    (p + q) as nat,
                ),
            ops_view(res@) == by_rank_upto(orig, q as nat),
        decreases 10 - q,
    {
        let ghost old_res = res@;
        let ghost old_buckets = buckets@;
        let mut b = buckets.remove(0);
        proof {
            assert(ops_view(b@) == with_rank(orig, q as nat));
        }
        res.append(&mut b);
        proof {
            assert(ops_view(res@) =~= ops_view(old_res) + ops_view(old_buckets[0]@));
            assert forall|p: int| 0 <= p < 10 - (q + 1) implies ops_view((#[trigger] buckets@[p])@)
                == with_rank(orig, (p + q + 1) as nat) by {
                assert(buckets@[p] == old_buckets[p + 1]);
            }
        }
        q = q + 1;
    }
    res
}

// ---------------------------------------------------------------------------
// Name-keyed lookups. The diff treats each list as a map from a key (a name)
// to an entry: when a key occurs more than once, its last entry is the one
// that counts, as when the list is collected into a map.
// ---------------------------------------------------------------------------

/// The largest index below `k` whose key is `name`, or -1.
pub open spec fn last_below(keys: Seq<Seq<char>>, name: Seq<char>, k: int) -> int
    decreases k,
{
    if k <= 0 || k > keys.len() {
        -1
    } else if keys[k - 1] == name {
        k - 1
    } else {
        last_below(keys, name, k - 1)
    }
}

/// The index of the entry that counts for `name`, or -1.
pub open spec fn last_pos(keys: Seq<Seq<char>>, name: Seq<char>) -> int {
    last_below(keys, name, keys.len() as int)
}

pub open spec fn has_key(keys: Seq<Seq<char>>, name: Seq<char>) -> bool {
    last_pos(keys, name) >= 0
}

/// Entry `i` is the one that counts for its key.
pub open spec fn is_last(keys: Seq<Seq<char>>, i: int) -> bool {
    forall|j: int| i < j < keys.len() ==> keys[j] != keys[i]
}

pub proof fn lemma_last_below(keys: Seq<Seq<char>>, name: Seq<char>, k: int)
    requires
        k <= keys.len(),
    ensures
        last_below(keys, name, k) == -1 || (0 <= last_below(keys, name, k) < k && keys[last_below(
            keys,
            name,
            k,
        )] == name),
        last_below(keys, name, k) == -1 ==> forall|j: int| 0 <= j < k ==> keys[j] != name,
        last_below(keys, name, k) != -1 ==> forall|j: int|
            last_below(keys, name, k) < j < k ==> keys[j] != name,
    decreases k,
{
    if k > 0 && keys[k - 1] != name {
        lemma_last_below(keys, name, k - 1);
    }
}

pub proof fn lemma_last_pos(keys: Seq<Seq<char>>, name: Seq<char>)
    ensures
        has_key(keys, name) <==> exists|j: int| 0 <= j < keys.len() && keys[j] == name,
        has_key(keys, name) ==> 0 <= last_pos(keys, name) < keys.len() && keys[last_pos(
            keys,
            name,
        )] == name && is_last(keys, last_pos(keys, name)),
        forall|i: int| 0 <= i < keys.len() && keys[i] == name ==> (is_last(keys, i) <==> last_pos(keys, name) == i),
{
    lemma_last_below(keys, name, keys.len() as int);
}

/// Exec: the index of the entry that counts for `name`.
pub fn last_pos_exec(keys: &Vec<Vec<char>>, name: &[char]) -> (res: Option<usize>)
    ensures
        match res {
            Some(i) => i as int == last_pos(keys@.map_values(|k: Vec<char>| k@), name@),
            None => last_pos(keys@.map_values(|k: Vec<char>| k@), name@) == -1,
        },
{
    let ghost ks = keys@.map_values(|k: Vec<char>| k@);
    let mut k: usize = keys.len();
    while k > 0
        invariant
            k <= keys@.len(),
            ks == keys@.map_values(|k: Vec<char>| k@),
            last_pos(ks, name@) == last_below(ks, name@, k as int),
        decreases k,
    {
        if chars_eq(&keys[k - 1], name) {
            return Some(k - 1);
        }
        k = k - 1;
    }
    None
}

pub fn is_last_exec(keys: &Vec<Vec<char>>, i: usize) -> (res: bool)
    requires
        i < keys@.len(),
    ensures
        res == is_last(keys@.map_values(|k: Vec<char>| k@), i as int),
{
    let ghost ks = keys@.map_values(|k: Vec<char>| k@);
    proof {
        lemma_last_pos(ks, ks[i as int]);
    }
    match last_pos_exec(keys, &keys[i]) {
        Some(j) => j == i,
        None => false,
    }
}

pub open spec fn keys_view(v: Seq<Vec<char>>) -> Seq<Seq<char>> {
    v.map_values(|k: Vec<char>| k@)
}

pub open spec fn table_names(ts: Seq<TableModel>) -> Seq<Seq<char>> {
    ts.map_values(|t: TableModel| t.name)
}

pub open spec fn column_names(cs: Seq<ColumnModel>) -> Seq<Seq<char>> {
    cs.map_values(|c: ColumnModel| c.name)
}

pub open spec fn index_names(xs: Seq<IndexModel>) -> Seq<Seq<char>> {
    xs.map_values(|x: IndexModel| x.name)
}

pub open spec fn fk_columns(fs: Seq<ForeignKeyModel>) -> Seq<Seq<char>> {
    fs.map_values(|f: ForeignKeyModel| f.column)
}

pub open spec fn tables_view(v: Seq<TableSchema>) -> Seq<TableModel> {
    v.map_values(|t: TableSchema| t@)
}

pub open spec fn columns_view(v: Seq<ColumnSchema>) -> Seq<ColumnModel> {
    v.map_values(|c: ColumnSchema| c@)
}

pub open spec fn indexes_view(v: Seq<IndexSchema>) -> Seq<IndexModel> {
    v.map_values(|c: IndexSchema| c@)
}

pub open spec fn fks_view(v: Seq<ForeignKeySchema>) -> Seq<ForeignKeyModel> {
    v.map_values(|c: ForeignKeySchema| c@)
}

fn table_name_keys(v: &[TableSchema]) -> (res: Vec<Vec<char>>)
    ensures
        keys_view(res@) == table_names(v@.map_values(|t: TableSchema| t@)),
{
    let mut res: Vec<Vec<char>> = Vec::new();
    let mut i: usize = 0;
    while i < v.len()
        invariant
            i <= v@.len(),
            res@.len() == i,
            forall|k: int| 0 <= k < i ==> (#[trigger] res@[k])@ == v@[k].name@,
        decreases v@.len() - i,
    {
        res.push(chars_of(v[i].name.as_str()));
        i = i + 1;
    }
    proof {
        assert(keys_view(res@) =~= table_names(v@.map_values(|t: TableSchema| t@)));
    }
    res
}

fn column_name_keys(v: &Vec<ColumnSchema>) -> (res: Vec<Vec<char>>)
    ensures
        keys_view(res@) == column_names(columns_view(v@)),
{
    let mut res: Vec<Vec<char>> = Vec::new();
    let mut i: usize = 0;
    while i < v.len()
        invariant
            i <= v@.len(),
            res@.len() == i,
            forall|k: int| 0 <= k < i ==> (#[trigger] res@[k])@ == v@[k].name@,
        decreases v@.len() - i,
    {
        res.push(chars_of(v[i].name.as_str()));
        i = i + 1;
    }
    proof {
        assert(keys_view(res@) =~= column_names(columns_view(v@)));
    }
    res
}

fn index_name_keys(v: &Vec<IndexSchema>) -> (res: Vec<Vec<char>>)
    ensures
        keys_view(res@) == index_names(indexes_view(v@)),
{
    let mut res: Vec<Vec<char>> = Vec::new();
    let mut i: usize = 0;
    while i < v.len()
        invariant
            i <= v@.len(),
            res@.len() == i,
            forall|k: int| 0 <= k < i ==> (#[trigger] res@[k])@ == v@[k].name@,
        decreases v@.len() - i,
    {
        res.push(chars_of(v[i].name.as_str()));
        i = i + 1;
    }
    proof {
        assert(keys_view(res@) =~= index_names(indexes_view(v@)));
    }
    res
}

fn fk_column_keys(v: &Vec<ForeignKeySchema>) -> (res: Vec<Vec<char>>)
    ensures
        keys_view(res@) == fk_columns(fks_view(v@)),
{
    let mut res: Vec<Vec<char>> = Vec::new();
    let mut i: usize = 0;
    while i < v.len()
        invariant
            i <= v@.len(),
            res@.len() == i,
            forall|k: int| 0 <= k < i ==> (#[trigger] res@[k])@ == v@[k].column@,
        decreases v@.len() - i,
    {
        res.push(chars_of(v[i].column.as_str()));
        i = i + 1;
    }
    proof {
        assert(keys_view(res@) =~= fk_columns(fks_view(v@)));
    }
    res
}

proof fn lemma_ops_push(v: Seq<SchemaOperation>, o: SchemaOperation)
    ensures
        ops_view(v.push(o)) == ops_view(v).push(o@),
{
    assert(ops_view(v.push(o)) =~= ops_view(v).push(o@));
}

proof fn lemma_ops_concat(a: Seq<SchemaOperation>, b: Seq<SchemaOperation>)
    ensures
        ops_view(a + b) == ops_view(a) + ops_view(b),
{
    assert(ops_view(a + b) =~= ops_view(a) + ops_view(b));
}

fn append_ops(a: &mut Vec<SchemaOperation>, b: Vec<SchemaOperation>)
    ensures
        ops_view(final(a)@) == ops_view(old(a)@) + ops_view(b@),
{
    let mut b = b;
    let ghost bv = b@;
    let ghost av = a@;
    a.append(&mut b);
    proof {
        lemma_ops_concat(av, bv);
    }
}

// ---------------------------------------------------------------------------
// Columns
// ---------------------------------------------------------------------------

/// The changes that turn column `c` into column `t`, if any.
pub open spec fn column_diff(c: ColumnModel, t: ColumnModel) -> Option<ChangesModel> {
    let ch = ChangesModel {
        column_type: if c.column_type != t.column_type { Some(t.column_type) } else { None },
        nullable: if c.nullable != t.nullable { Some(t.nullable) } else { None },
        default: if c.default != t.default { Some(t.default) } else { None },
        max_length: if c.max_length != t.max_length { Some(t.max_length) } else { None },
        unique: if c.unique != t.unique { Some(t.unique) } else { None },
    };
    if changes_empty(ch) {
        None
    } else {
        Some(ch)
    }
}

/// A column diff reports exactly the properties that differ: there is none
/// when the two columns agree on type, nullability, default, maximum length
/// and uniqueness; otherwise each property that differs is carried with the
/// target's value, and each that agrees is left out.
pub proof fn law_column_diff_reports_differences(c: ColumnModel, t: ColumnModel)
    ensures
        column_diff(c, t) is None <==> (c.column_type == t.column_type && c.nullable == t.nullable
            && c.default == t.default && c.max_length == t.max_length && c.unique == t.unique),
        column_diff(c, t) matches Some(ch) ==> {
            &&& (c.column_type != t.column_type ==> ch.column_type == Some(t.column_type))
            &&& (c.column_type == t.column_type ==> ch.column_type is None)
            &&& (c.nullable != t.nullable ==> ch.nullable == Some(t.nullable))
            &&& (c.nullable == t.nullable ==> ch.nullable is None)
            &&& (c.default != t.default ==> ch.default == Some(t.default))
            &&& (c.default == t.default ==> ch.default is None)
            &&& (c.max_length != t.max_length ==> ch.max_length == Some(t.max_length))
            &&& (c.max_length == t.max_length ==> ch.max_length is None)
            &&& (c.unique != t.unique ==> ch.unique == Some(t.unique))
            &&& (c.unique == t.unique ==> ch.unique is None)
        },
{
}

fn opt_str_eq(a: &Option<String>, b: &Option<String>) -> (res: bool)
    ensures
        res == (opt_str_view(*a) == opt_str_view(*b)),
{
    match (a, b) {
        (Some(x), Some(y)) => {
            let xs = chars_of(x.as_str());
            let ys = chars_of(y.as_str());
            chars_eq(&xs, &ys)
        },
        (None, None) => true,
        _ => false,
    }
}

fn opt_u32_eq(a: Option<u32>, b: Option<u32>) -> (res: bool)
    ensures
        res == (a == b),
{
    match (a, b) {
        (Some(x), Some(y)) => x == y,
        (None, None) => true,
        _ => false,
    }
}

/// Compare two columns and return changes if different
pub fn diff_column(current: &ColumnSchema, target: &ColumnSchema) -> (res: Option<ColumnChanges>)
    ensures
        match (res, column_diff(current@, target@)) {
            (Some(a), Some(b)) => a@ == b,
            (None, None) => true,
            _ => false,
        },
{
    let mut changes = ColumnChanges::default();
    if current.column_type != target.column_type {
        changes.column_type = Some(target.column_type.clone());
    }
    if current.nullable != target.nullable {
        changes.nullable = Some(target.nullable);
    }
    if !opt_str_eq(&current.default, &target.default) {
        changes.default = Some(clone_opt_str(&target.default));
    }
    if !opt_u32_eq(current.max_length, target.max_length) {
        changes.max_length = Some(target.max_length);
    }
    if current.unique != target.unique {
        changes.unique = Some(target.unique);
    }
    if changes.is_empty() {
        None
    } else {
        Some(changes)
    }
}

// ---------------------------------------------------------------------------
// Indexes
// ---------------------------------------------------------------------------

/// CreateIndex for each index (that counts) of `ti` whose name `ci` lacks.
pub open spec fn new_index_ops(tb: Seq<char>, ci: Seq<IndexModel>, ti: Seq<IndexModel>, n: int) -> Seq<OpModel>
    decreases n,
{
    if n <= 0 || n > ti.len() {
        Seq::empty()
    } else {
        let p = new_index_ops(tb, ci, ti, n - 1);
        if is_last(index_names(ti), n - 1) && !has_key(index_names(ci), ti[n - 1].name) {
            p.push(OpModel::CreateIndex { table: tb, index: ti[n - 1] })
        } else {
            p
        }
    }
}

/// DropIndex for each index (that counts) of `ci` whose name `ti` lacks.
pub open spec fn dropped_index_ops(tb: Seq<char>, ci: Seq<IndexModel>, ti: Seq<IndexModel>, n: int) -> Seq<OpModel>
    decreases n,
{
    if n <= 0 || n > ci.len() {
        Seq::empty()
    } else {
        let p = dropped_index_ops(tb, ci, ti, n - 1);
        if is_last(index_names(ci), n - 1) && !has_key(index_names(ti), ci[n - 1].name) {
            p.push(OpModel::DropIndex { table: tb, name: ci[n - 1].name })
        } else {
            p
        }
    }
}

/// Drop and re-create each index whose definition changed.
pub open spec fn changed_index_ops(tb: Seq<char>, ci: Seq<IndexModel>, ti: Seq<IndexModel>, n: int) -> Seq<OpModel>
    decreases n,
{
    if n <= 0 || n > ti.len() {
        Seq::empty()
    } else {
        let p = changed_index_ops(tb, ci, ti, n - 1);
        let t = ti[n - 1];
        if is_last(index_names(ti), n - 1) && has_key(index_names(ci), t.name)
            && ci[last_pos(index_names(ci), t.name)] != t {
            p.push(OpModel::DropIndex { table: tb, name: t.name }).push(
                OpModel::CreateIndex { table: tb, index: t },
            )
        } else {
            p
        }
    }
}

pub open spec fn index_diff(tb: Seq<char>, ci: Seq<IndexModel>, ti: Seq<IndexModel>) -> Seq<OpModel> {
    new_index_ops(tb, ci, ti, ti.len() as int) + dropped_index_ops(tb, ci, ti, ci.len() as int)
        + changed_index_ops(tb, ci, ti, ti.len() as int)
}

fn strs_eq(a: &Vec<String>, b: &Vec<String>) -> (res: bool)
    ensures
        res == (strs_view(a@) == strs_view(b@)),
{
    if a.len() != b.len() {
        proof {
            assert(strs_view(a@).len() != strs_view(b@).len());
        }
        return false;
    }
    let mut i: usize = 0;
    while i < a.len()
        invariant
            a@.len() == b@.len(),
            i <= a@.len(),
            forall|k: int| 0 <= k < i ==> a@[k]@ == b@[k]@,
        decreases a@.len() - i,
    {
        let x = chars_of(a[i].as_str());
        let y = chars_of(b[i].as_str());
        if !chars_eq(&x, &y) {
            proof {
                assert(strs_view(a@)[i as int] != strs_view(b@)[i as int]);
            }
            return false;
        }
        i = i + 1;
    }
    proof {
        assert(strs_view(a@) =~= strs_view(b@));
    }
    true
}

fn index_eq(a: &IndexSchema, b: &IndexSchema) -> (res: bool)
    ensures
        res == (a@ == b@),
{
    let an = chars_of(a.name.as_str());
    let bn = chars_of(b.name.as_str());
    chars_eq(&an, &bn) && strs_eq(&a.columns, &b.columns) && a.unique == b.unique
}

fn new_index_ops_exec(table: &String, current: &Vec<IndexSchema>, target: &Vec<IndexSchema>) -> (res: Vec<SchemaOperation>)
    ensures
        ops_view(res@) == new_index_ops(table@, indexes_view(current@), indexes_view(target@), target@.len() as int),
{
    let ck = index_name_keys(current);
    let tk = index_name_keys(target);
    proof {
        assert(keys_view(ck@).len() == ck@.len());
        assert(keys_view(tk@).len() == tk@.len());
    }
    let mut ops: Vec<SchemaOperation> = Vec::new();
    let mut i: usize = 0;
    while i < target.len()
        invariant
            i <= target@.len(),
            keys_view(ck@) == index_names(indexes_view(current@)),
            ck@.len() == current@.len(),
            tk@.len() == target@.len(),
            keys_view(tk@) == index_names(indexes_view(target@)),
            ops_view(ops@) == new_index_ops(table@, indexes_view(current@), indexes_view(target@), i as int),
        decreases target@.len() - i,
    {
        let ghost before = ops@;
        proof {
            assert(keys_view(tk@)[i as int] == tk@[i as int]@);
            assert(index_names(indexes_view(target@))[i as int] == target@[i as int]@.name);
        }
        if is_last_exec(&tk, i) && last_pos_exec(&ck, &tk[i]).is_none() {
            let op = SchemaOperation::CreateIndex { table: table.clone(), index: target[i].clone() };
            ops.push(op);
            proof {
                lemma_ops_push(before, op);
            }
        }
        i = i + 1;
    }
    ops
}

fn dropped_index_ops_exec(table: &String, current: &Vec<IndexSchema>, target: &Vec<IndexSchema>) -> (res: Vec<SchemaOperation>)
    ensures
        ops_view(res@) == dropped_index_ops(table@, indexes_view(current@), indexes_view(target@), current@.len() as int),
{
    let ck = index_name_keys(current);
    let tk = index_name_keys(target);
    proof {
        assert(keys_view(ck@).len() == ck@.len());
        assert(keys_view(tk@).len() == tk@.len());
    }
    let mut ops: Vec<SchemaOperation> = Vec::new();
    let mut i: usize = 0;
    while i < current.len()
        invariant
            i <= current@.len(),
            keys_view(ck@) == index_names(indexes_view(current@)),
            ck@.len() == current@.len(),
            tk@.len() == target@.len(),
            keys_view(tk@) == index_names(indexes_view(target@)),
            ops_view(ops@) == dropped_index_ops(table@, indexes_view(current@), indexes_view(target@), i as int),
        decreases current@.len() - i,
    {
        let ghost before = ops@;
        proof {
            assert(keys_view(ck@)[i as int] == ck@[i as int]@);
            assert(index_names(indexes_view(current@))[i as int] == current@[i as int]@.name);
        }
        if is_last_exec(&ck, i) && last_pos_exec(&tk, &ck[i]).is_none() {
            let op = SchemaOperation::DropIndex { table: table.clone(), name: current[i].name.clone() };
            ops.push(op);
            proof {
                lemma_ops_push(before, op);
            }
        }
        i = i + 1;
    }
    ops
}

fn changed_index_ops_exec(table: &String, current: &Vec<IndexSchema>, target: &Vec<IndexSchema>) -> (res: Vec<SchemaOperation>)
    ensures
        ops_view(res@) == changed_index_ops(table@, indexes_view(current@), indexes_view(target@), target@.len() as int),
{
    let ck = index_name_keys(current);
    let tk = index_name_keys(target);
    proof {
        assert(keys_view(ck@).len() == ck@.len());
        assert(keys_view(tk@).len() == tk@.len());
    }
    let mut ops: Vec<SchemaOperation> = Vec::new();
    let mut i: usize = 0;
    while i < target.len()
        invariant
            i <= target@.len(),
            keys_view(ck@) == index_names(indexes_view(current@)),
            ck@.len() == current@.len(),
            tk@.len() == target@.len(),
            keys_view(tk@) == index_names(indexes_view(target@)),
            ops_view(ops@) == changed_index_ops(table@, indexes_view(current@), indexes_view(target@), i as int),
        decreases target@.len() - i,
    {
        let ghost before = ops@;
        proof {
            assert(keys_view(tk@)[i as int] == tk@[i as int]@);
            assert(index_names(indexes_view(target@))[i as int] == target@[i as int]@.name);
            assert(indexes_view(target@)[i as int] == target@[i as int]@);
        }
        if is_last_exec(&tk, i) {
            match last_pos_exec(&ck, &tk[i]) {
                Some(j) => {
                    proof {
                        lemma_last_pos(keys_view(ck@), keys_view(tk@)[i as int]);
                        assert(indexes_view(current@)[j as int] == current@[j as int]@);
                    }
                    if !index_eq(&current[j], &target[i]) {
                        let op1 = SchemaOperation::DropIndex { table: table.clone(), name: target[i].name.clone() };
                        let op2 = SchemaOperation::CreateIndex { table: table.clone(), index: target[i].clone() };
                        ops.push(op1);
                        proof {
                            lemma_ops_push(before, op1);
                        }
                        let ghost mid = ops@;
                        ops.push(op2);
                        proof {
                            lemma_ops_push(mid, op2);
                        }
                    }
                },
                None => {},
            }
        }
        i = i + 1;
    }
    ops
}

/// Diff indexes between current and target
pub fn diff_indexes(table: &String, current: &Vec<IndexSchema>, target: &Vec<IndexSchema>) -> (res: Vec<SchemaOperation>)
    ensures
        ops_view(res@) == index_diff(table@, indexes_view(current@), indexes_view(target@)),
{
    let mut ops = new_index_ops_exec(table, current, target);
    append_ops(&mut ops, dropped_index_ops_exec(table, current, target));
    append_ops(&mut ops, changed_index_ops_exec(table, current, target));
    ops
}

// ---------------------------------------------------------------------------
// Foreign keys (keyed by column, since constraint names may be generated)
// ---------------------------------------------------------------------------

/// The constraint name used to drop a foreign key: its own name, or
/// `fk_{table}_{column}`.
pub open spec fn fk_drop_name(tb: Seq<char>, f: ForeignKeyModel) -> Seq<char> {
    match f.name {
        Some(n) => n,
        None => "fk_"@ + tb + "_"@ + f.column,
    }
}

pub open spec fn new_fk_ops(tb: Seq<char>, cf: Seq<ForeignKeyModel>, tf: Seq<ForeignKeyModel>, n: int) -> Seq<OpModel>
    decreases n,
{
    if n <= 0 || n > tf.len() {
        Seq::empty()
    } else {
        let p = new_fk_ops(tb, cf, tf, n - 1);
        if is_last(fk_columns(tf), n - 1) && !has_key(fk_columns(cf), tf[n - 1].column) {
            p.push(OpModel::AddForeignKey { table: tb, foreign_key: tf[n - 1] })
        } else {
            p
        }
    }
}

pub open spec fn dropped_fk_ops(tb: Seq<char>, cf: Seq<ForeignKeyModel>, tf: Seq<ForeignKeyModel>, n: int) -> Seq<OpModel>
    decreases n,
{
    if n <= 0 || n > cf.len() {
        Seq::empty()
    } else {
        let p = dropped_fk_ops(tb, cf, tf, n - 1);
        if is_last(fk_columns(cf), n - 1) && !has_key(fk_columns(tf), cf[n - 1].column) {
            p.push(OpModel::DropForeignKey { table: tb, name: fk_drop_name(tb, cf[n - 1]) })
        } else {
            p
        }
    }
}

pub open spec fn changed_fk_ops(tb: Seq<char>, cf: Seq<ForeignKeyModel>, tf: Seq<ForeignKeyModel>, n: int) -> Seq<OpModel>
    decreases n,
{
    if n <= 0 || n > tf.len() {
        Seq::empty()
    } else {
        let p = changed_fk_ops(tb, cf, tf, n - 1);
        let t = tf[n - 1];
        let c = cf[last_pos(fk_columns(cf), t.column)];
        if is_last(fk_columns(tf), n - 1) && has_key(fk_columns(cf), t.column) && c != t {
            p.push(OpModel::DropForeignKey { table: tb, name: fk_drop_name(tb, c) }).push(
                OpModel::AddForeignKey { table: tb, foreign_key: t },
            )
        } else {
            p
        }
    }
}

pub open spec fn fk_diff(tb: Seq<char>, cf: Seq<ForeignKeyModel>, tf: Seq<ForeignKeyModel>) -> Seq<OpModel> {
    new_fk_ops(tb, cf, tf, tf.len() as int) + dropped_fk_ops(tb, cf, tf, cf.len() as int)
        + changed_fk_ops(tb, cf, tf, tf.len() as int)
}

fn fk_eq(a: &ForeignKeySchema, b: &ForeignKeySchema) -> (res: bool)
    ensures
        res == (a@ == b@),
{
    let ac = chars_of(a.column.as_str());
    let bc = chars_of(b.column.as_str());
    let at = chars_of(a.references_table.as_str());
    let bt = chars_of(b.references_table.as_str());
    let ar = chars_of(a.references_column.as_str());
    let br = chars_of(b.references_column.as_str());
    opt_str_eq(&a.name, &b.name) && chars_eq(&ac, &bc) && chars_eq(&at, &bt) && chars_eq(&ar, &br)
        && a.on_delete == b.on_delete && a.on_update == b.on_update
}

fn fk_drop_name_exec(table: &String, fk: &ForeignKeySchema) -> (res: String)
    ensures
        res@ == fk_drop_name(table@, fk@),
{
    match &fk.name {
        Some(n) => n.clone(),
        None => {
            let mut s = String::new();
            push_str(&mut s, "fk_");
            push_str(&mut s, table.as_str());
            push_str(&mut s, "_");
            push_str(&mut s, fk.column.as_str());
            proof {
                assert(s@ =~= "fk_"@ + table@ + "_"@ + fk.column@);
            }
            s
        },
    }
}

fn new_fk_ops_exec(table: &String, current: &Vec<ForeignKeySchema>, target: &Vec<ForeignKeySchema>) -> (res: Vec<SchemaOperation>)
    ensures
        ops_view(res@) == new_fk_ops(table@, fks_view(current@), fks_view(target@), target@.len() as int),
{
    let ck = fk_column_keys(current);
    let tk = fk_column_keys(target);
    proof {
        assert(keys_view(ck@).len() == ck@.len());
        assert(keys_view(tk@).len() == tk@.len());
    }
    let mut ops: Vec<SchemaOperation> = Vec::new();
    let mut i: usize = 0;
    while i < target.len()
        invariant
            i <= target@.len(),
            ck@.len() == current@.len(),
            tk@.len() == target@.len(),
            keys_view(ck@) == fk_columns(fks_view(current@)),
            keys_view(tk@) == fk_columns(fks_view(target@)),
            ops_view(ops@) == new_fk_ops(table@, fks_view(current@), fks_view(target@), i as int),
        decreases target@.len() - i,
    {
        let ghost before = ops@;
        proof {
            assert(keys_view(tk@)[i as int] == tk@[i as int]@);
            assert(fk_columns(fks_view(target@))[i as int] == target@[i as int]@.column);
            assert(fks_view(target@)[i as int] == target@[i as int]@);
        }
        if is_last_exec(&tk, i) && last_pos_exec(&ck, &tk[i]).is_none() {
            let op = SchemaOperation::AddForeignKey { table: table.clone(), foreign_key: target[i].clone() };
            ops.push(op);
            proof {
                lemma_ops_push(before, op);
            }
        }
        i = i + 1;
    }
    ops
}

fn dropped_fk_ops_exec(table: &String, current: &Vec<ForeignKeySchema>, target: &Vec<ForeignKeySchema>) -> (res: Vec<SchemaOperation>)
    ensures
        ops_view(res@) == dropped_fk_ops(table@, fks_view(current@), fks_view(target@), current@.len() as int),
{
    let ck = fk_column_keys(current);
    let tk = fk_column_keys(target);
    proof {
        assert(keys_view(ck@).len() == ck@.len());
        assert(keys_view(tk@).len() == tk@.len());
    }
    let mut ops: Vec<SchemaOperation> = Vec::new();
    let mut i: usize = 0;
    while i < current.len()
        invariant
            i <= current@.len(),
            ck@.len() == current@.len(),
            tk@.len() == target@.len(),
            keys_view(ck@) == fk_columns(fks_view(current@)),
            keys_view(tk@) == fk_columns(fks_view(target@)),
            ops_view(ops@) == dropped_fk_ops(table@, fks_view(current@), fks_view(target@), i as int),
        decreases current@.len() - i,
    {
        let ghost before = ops@;
        proof {
            assert(keys_view(ck@)[i as int] == ck@[i as int]@);
            assert(fk_columns(fks_view(current@))[i as int] == current@[i as int]@.column);
            assert(fks_view(current@)[i as int] == current@[i as int]@);
        }
        if is_last_exec(&ck, i) && last_pos_exec(&tk, &ck[i]).is_none() {
            let op = SchemaOperation::DropForeignKey { table: table.clone(), name: fk_drop_name_exec(table, &current[i]) };
            ops.push(op);
            proof {
                lemma_ops_push(before, op);
            }
        }
        i = i + 1;
    }
    ops
}

fn changed_fk_ops_exec(table: &String, current: &Vec<ForeignKeySchema>, target: &Vec<ForeignKeySchema>) -> (res: Vec<SchemaOperation>)
    ensures
        ops_view(res@) == changed_fk_ops(table@, fks_view(current@), fks_view(target@), target@.len() as int),
{
    let ck = fk_column_keys(current);
    let tk = fk_column_keys(target);
    proof {
        assert(keys_view(ck@).len() == ck@.len());
        assert(keys_view(tk@).len() == tk@.len());
    }
    let mut ops: Vec<SchemaOperation> = Vec::new();
    let mut i: usize = 0;
    while i < target.len()
        invariant
            i <= target@.len(),
            ck@.len() == current@.len(),
            tk@.len() == target@.len(),
            keys_view(ck@) == fk_columns(fks_view(current@)),
            keys_view(tk@) == fk_columns(fks_view(target@)),
            ops_view(ops@) == changed_fk_ops(table@, fks_view(current@), fks_view(target@), i as int),
        decreases target@.len() - i,
    {
        let ghost before = ops@;
        proof {
            assert(keys_view(tk@)[i as int] == tk@[i as int]@);
            assert(fk_columns(fks_view(target@))[i as int] == target@[i as int]@.column);
            assert(fks_view(target@)[i as int] == target@[i as int]@);
        }
        if is_last_exec(&tk, i) {
            match last_pos_exec(&ck, &tk[i]) {
                Some(j) => {
                    proof {
                        lemma_last_pos(keys_view(ck@), keys_view(tk@)[i as int]);
                        assert(fks_view(current@)[j as int] == current@[j as int]@);
                    }
                    if !fk_eq(&current[j], &target[i]) {
                        let op1 = SchemaOperation::DropForeignKey {
                            table: table.clone(),
                            name: fk_drop_name_exec(table, &current[j]),
                        };
                        let op2 = SchemaOperation::AddForeignKey { table: table.clone(), foreign_key: target[i].clone() };
                        ops.push(op1);
                        proof {
                            lemma_ops_push(before, op1);
                        }
                        let ghost mid = ops@;
                        ops.push(op2);
                        proof {
                            lemma_ops_push(mid, op2);
                        }
                    }
                },
                None => {},
            }
        }
        i = i + 1;
    }
    ops
}

/// Diff foreign keys between current and target
pub fn diff_foreign_keys(table: &String, current: &Vec<ForeignKeySchema>, target: &Vec<ForeignKeySchema>) -> (res: Vec<SchemaOperation>)
    ensures
        ops_view(res@) == fk_diff(table@, fks_view(current@), fks_view(target@)),
{
    let mut ops = new_fk_ops_exec(table, current, target);
    append_ops(&mut ops, dropped_fk_ops_exec(table, current, target));
    append_ops(&mut ops, changed_fk_ops_exec(table, current, target));
    ops
}

// ---------------------------------------------------------------------------
// Tables
// ---------------------------------------------------------------------------

/// Old names of renamed target columns (that count), in order.
pub open spec fn rename_froms(tc: Seq<ColumnModel>, n: int) -> Seq<Seq<char>>
    decreases n,
{
    if n <= 0 || n > tc.len() {
        Seq::empty()
    } else {
        let p = rename_froms(tc, n - 1);
        if is_last(column_names(tc), n - 1) && tc[n - 1].renamed_from is Some {
            p.push(tc[n - 1].renamed_from->0)
        } else {
            p
        }
    }
}

/// New names of renamed target columns, in the same order.
pub open spec fn rename_tos(tc: Seq<ColumnModel>, n: int) -> Seq<Seq<char>>
    decreases n,
{
    if n <= 0 || n > tc.len() {
        Seq::empty()
    } else {
        let p = rename_tos(tc, n - 1);
        if is_last(column_names(tc), n - 1) && tc[n - 1].renamed_from is Some {
            p.push(tc[n - 1].name)
        } else {
            p
        }
    }
}

/// DropColumn for each target column marked as dropped.
pub open spec fn flag_drop_ops(tb: Seq<char>, tc: Seq<ColumnModel>, n: int) -> Seq<OpModel>
    decreases n,
{
    if n <= 0 || n > tc.len() {
        Seq::empty()
    } else {
        let p = flag_drop_ops(tb, tc, n - 1);
        if is_last(column_names(tc), n - 1) && tc[n - 1].dropped {
            p.push(OpModel::DropColumn { table: tb, column: tc[n - 1].name })
        } else {
            p
        }
    }
}

/// RenameColumn for each rename (the last one per old name) whose old column exists.
pub open spec fn rename_ops(tb: Seq<char>, cn: Seq<Seq<char>>, froms: Seq<Seq<char>>, tos: Seq<Seq<char>>, n: int) -> Seq<OpModel>
    decreases n,
{
    if n <= 0 || n > froms.len() {
        Seq::empty()
    } else {
        let p = rename_ops(tb, cn, froms, tos, n - 1);
        if is_last(froms, n - 1) && has_key(cn, froms[n - 1]) {
            p.push(OpModel::RenameColumn { table: tb, from: froms[n - 1], to: tos[n - 1] })
        } else {
            p
        }
    }
}

/// AddColumn for each plain target column the current table lacks.
pub open spec fn add_column_ops(tb: Seq<char>, cn: Seq<Seq<char>>, tc: Seq<ColumnModel>, n: int) -> Seq<OpModel>
    decreases n,
{
    if n <= 0 || n > tc.len() {
        Seq::empty()
    } else {
        let p = add_column_ops(tb, cn, tc, n - 1);
        let t = tc[n - 1];
        if is_last(column_names(tc), n - 1) && !t.dropped && t.renamed_from is None && !has_key(
            cn,
            t.name,
        ) {
            p.push(OpModel::AddColumn { table: tb, column: t })
        } else {
            p
        }
    }
}

pub open spec fn explicitly_dropped(tc: Seq<ColumnModel>, name: Seq<char>) -> bool {
    exists|i: int|
        0 <= i < tc.len() && is_last(column_names(tc), i) && #[trigger] tc[i].dropped && tc[i].name
            == name
}

/// DropColumn for each current column that the target neither keeps nor renames.
pub open spec fn implicit_drop_ops(tb: Seq<char>, cc: Seq<ColumnModel>, tc: Seq<ColumnModel>, froms: Seq<Seq<char>>, n: int) -> Seq<OpModel>
    decreases n,
{
    if n <= 0 || n > cc.len() {
        Seq::empty()
    } else {
        let p = implicit_drop_ops(tb, cc, tc, froms, n - 1);
        let c = cc[n - 1];
        if is_last(column_names(cc), n - 1) && !has_key(column_names(tc), c.name) && !has_key(
            froms,
            c.name,
        ) && !explicitly_dropped(tc, c.name) {
            p.push(OpModel::DropColumn { table: tb, column: c.name })
        } else {
            p
        }
    }
}

/// AlterColumn for each plain target column whose definition changed.
pub open spec fn alter_ops(tb: Seq<char>, cc: Seq<ColumnModel>, tc: Seq<ColumnModel>, n: int) -> Seq<OpModel>
    decreases n,
{
    if n <= 0 || n > tc.len() {
        Seq::empty()
    } else {
        let p = alter_ops(tb, cc, tc, n - 1);
        let t = tc[n - 1];
        let cn = column_names(cc);
        if is_last(column_names(tc), n - 1) && !t.dropped && t.renamed_from is None && has_key(
            cn,
            t.name,
        ) && column_diff(cc[last_pos(cn, t.name)], t) is Some {
            p.push(
                OpModel::AlterColumn {
                    table: tb,
                    column: t.name,
                    changes: column_diff(cc[last_pos(cn, t.name)], t)->0,
                },
            )
        } else {
            p
        }
    }
}

/// The operations that turn table `cur` into table `tgt` (named as `cur`).
pub open spec fn table_diff(cur: TableModel, tgt: TableModel) -> Seq<OpModel> {
    let tb = cur.name;
    let cc = cur.columns;
    let tc = tgt.columns;
    let froms = rename_froms(tc, tc.len() as int);
    let tos = rename_tos(tc, tc.len() as int);
    flag_drop_ops(tb, tc, tc.len() as int) + rename_ops(
        tb,
        column_names(cc),
        froms,
        tos,
        froms.len() as int,
    ) + add_column_ops(tb, column_names(cc), tc, tc.len() as int) + implicit_drop_ops(
        tb,
        cc,
        tc,
        froms,
        cc.len() as int,
    ) + alter_ops(tb, cc, tc, tc.len() as int) + index_diff(tb, cur.indexes, tgt.indexes)
        + fk_diff(tb, cur.foreign_keys, tgt.foreign_keys)
}

proof fn lemma_contains_concat(a: Seq<OpModel>, b: Seq<OpModel>, x: OpModel)
    ensures
        a.contains(x) ==> (a + b).contains(x),
        b.contains(x) ==> (a + b).contains(x),
{
    if a.contains(x) {
        let i = choose|i: int| 0 <= i < a.len() && a[i] == x;
        assert((a + b)[i] == x);
    }
    if b.contains(x) {
        let i = choose|i: int| 0 <= i < b.len() && b[i] == x;
        assert((a + b)[a.len() + i] == x);
    }
}

proof fn lemma_contains_push(a: Seq<OpModel>, y: OpModel, x: OpModel)
    ensures
        a.contains(x) ==> a.push(y).contains(x),
        a.push(y).contains(y),
{
    if a.contains(x) {
        let i = choose|i: int| 0 <= i < a.len() && a[i] == x;
        assert(a.push(y)[i] == x);
    }
    assert(a.push(y)[a.len() as int] == y);
}

proof fn lemma_add_column_ops_has(tb: Seq<char>, cn: Seq<Seq<char>>, tc: Seq<ColumnModel>, n: int, k: int)
    requires
        0 <= k < n <= tc.len(),
        is_last(column_names(tc), k),
        !tc[k].dropped,
        tc[k].renamed_from is None,
        !has_key(cn, tc[k].name),
    ensures
        add_column_ops(tb, cn, tc, n).contains(OpModel::AddColumn { table: tb, column: tc[k] }),
    decreases n,
{
    let x = OpModel::AddColumn { table: tb, column: tc[k] };
    let p = add_column_ops(tb, cn, tc, n - 1);
    if k == n - 1 {
        assert(column_names(tc)[k] == tc[k].name);
        lemma_contains_push(p, x, x);
    } else {
        lemma_add_column_ops_has(tb, cn, tc, n - 1, k);
        lemma_contains_push(p, OpModel::AddColumn { table: tb, column: tc[n - 1] }, x);
    }
}

proof fn lemma_alter_ops_has(tb: Seq<char>, cc: Seq<ColumnModel>, tc: Seq<ColumnModel>, n: int, k: int)
    requires
        0 <= k < n <= tc.len(),
        is_last(column_names(tc), k),
        !tc[k].dropped,
        tc[k].renamed_from is None,
        has_key(column_names(cc), tc[k].name),
        column_diff(cc[last_pos(column_names(cc), tc[k].name)], tc[k]) is Some,
    ensures
        alter_ops(tb, cc, tc, n).contains(
            OpModel::AlterColumn {
                table: tb,
                column: tc[k].name,
                changes: column_diff(cc[last_pos(column_names(cc), tc[k].name)], tc[k])->0,
            },
        ),
    decreases n,
{
    let x = OpModel::AlterColumn {
        table: tb,
        column: tc[k].name,
        changes: column_diff(cc[last_pos(column_names(cc), tc[k].name)], tc[k])->0,
    };
    let p = alter_ops(tb, cc, tc, n - 1);
    if k == n - 1 {
        lemma_contains_push(p, x, x);
    } else {
        lemma_alter_ops_has(tb, cc, tc, n - 1, k);
        let t = tc[n - 1];
        let cn = column_names(cc);
        lemma_contains_push(
            p,
            OpModel::AlterColumn { table: tb, column: t.name, changes: column_diff(cc[last_pos(cn, t.name)], t)->0 },
            x,
        );
    }
}

proof fn lemma_implicit_drop_ops_has(
    tb: Seq<char>,
    cc: Seq<ColumnModel>,
    tc: Seq<ColumnModel>,
    froms: Seq<Seq<char>>,
    n: int,
    k: int,
)
    requires
        0 <= k < n <= cc.len(),
        is_last(column_names(cc), k),
        !has_key(column_names(tc), cc[k].name),
        !has_key(froms, cc[k].name),
        !explicitly_dropped(tc, cc[k].name),
    ensures
        implicit_drop_ops(tb, cc, tc, froms, n).contains(OpModel::DropColumn { table: tb, column: cc[k].name }),
    decreases n,
{
    let x = OpModel::DropColumn { table: tb, column: cc[k].name };
    let p = implicit_drop_ops(tb, cc, tc, froms, n - 1);
    if k == n - 1 {
        lemma_contains_push(p, x, x);
    } else {
        lemma_implicit_drop_ops_has(tb, cc, tc, froms, n - 1, k);
        lemma_contains_push(p, OpModel::DropColumn { table: tb, column: cc[n - 1].name }, x);
    }
}

proof fn lemma_rename_froms_from(tc: Seq<ColumnModel>, n: int, x: Seq<char>)
    requires
        0 <= n <= tc.len(),
        rename_froms(tc, n).contains(x),
    ensures
        exists|i: int| 0 <= i < n && #[trigger] tc[i].renamed_from == Some(x),
    decreases n,
{
    let p = rename_froms(tc, n - 1);
    if p.contains(x) {
        lemma_rename_froms_from(tc, n - 1, x);
    } else {
        let j = choose|j: int| 0 <= j < rename_froms(tc, n).len() && rename_froms(tc, n)[j] == x;
        assert(j == p.len());
        assert(tc[n - 1].renamed_from == Some(x));
    }
}

/// The diff of a table accounts for every column: a target column (the last
/// of its name, neither dropped nor renamed) that the current table lacks is
/// added; one whose current column (the last of that name) differs is
/// altered with exactly the differences; and a current column (the last of
/// its name) that no target column keeps or renames is dropped.
pub proof fn law_table_diff_covers_columns(cur: TableModel, tgt: TableModel)
    ensures
        forall|k: int|
            0 <= k < tgt.columns.len() && is_last(column_names(tgt.columns), k) && !tgt.columns[k].dropped
                && tgt.columns[k].renamed_from is None && (forall|j: int|
                0 <= j < cur.columns.len() ==> cur.columns[j].name != tgt.columns[k].name) ==> table_diff(
                cur,
                tgt,
            ).contains(OpModel::AddColumn { table: cur.name, column: #[trigger] tgt.columns[k] }),
        forall|k: int, j: int|
            0 <= k < tgt.columns.len() && is_last(column_names(tgt.columns), k) && !tgt.columns[k].dropped
                && tgt.columns[k].renamed_from is None && 0 <= j < cur.columns.len() && is_last(
                column_names(cur.columns),
                j,
            ) && cur.columns[j].name == tgt.columns[k].name && column_diff(
                #[trigger] cur.columns[j],
                #[trigger] tgt.columns[k],
            ) is Some ==> table_diff(cur, tgt).contains(
                OpModel::AlterColumn {
                    table: cur.name,
                    column: tgt.columns[k].name,
                    changes: column_diff(cur.columns[j], tgt.columns[k])->0,
                },
            ),
        forall|j: int|
            0 <= j < cur.columns.len() && is_last(column_names(cur.columns), j) && (forall|k: int|
                0 <= k < tgt.columns.len() ==> tgt.columns[k].name != cur.columns[j].name
                    && tgt.columns[k].renamed_from != Some(cur.columns[j].name)) ==> table_diff(cur, tgt).contains(
                OpModel::DropColumn { table: cur.name, column: #[trigger] cur.columns[j].name },
            ),
{
    let tb = cur.name;
    let cc = cur.columns;
    let tc = tgt.columns;
    let cn = column_names(cc);
    let froms = rename_froms(tc, tc.len() as int);
    let tos = rename_tos(tc, tc.len() as int);
    let a1 = flag_drop_ops(tb, tc, tc.len() as int);
    let a2 = rename_ops(tb, cn, froms, tos, froms.len() as int);
    let a3 = add_column_ops(tb, cn, tc, tc.len() as int);
    let a4 = implicit_drop_ops(tb, cc, tc, froms, cc.len() as int);
    let a5 = alter_ops(tb, cc, tc, tc.len() as int);
    let a6 = index_diff(tb, cur.indexes, tgt.indexes);
    let a7 = fk_diff(tb, cur.foreign_keys, tgt.foreign_keys);
    assert(table_diff(cur, tgt) == a1 + a2 + a3 + a4 + a5 + a6 + a7);
    assert forall|k: int|
        0 <= k < tc.len() && is_last(column_names(tc), k) && !tc[k].dropped && tc[k].renamed_from is None && (forall|
            j: int,
        | 0 <= j < cc.len() ==> cc[j].name != tc[k].name) implies table_diff(cur, tgt).contains(
        OpModel::AddColumn { table: tb, column: #[trigger] tc[k] },
    ) by {
        let x = OpModel::AddColumn { table: tb, column: tc[k] };
        lemma_last_pos(cn, tc[k].name);
        if has_key(cn, tc[k].name) {
            let j = choose|j: int| 0 <= j < cn.len() && cn[j] == tc[k].name;
            assert(cc[j].name == tc[k].name);
        }
        lemma_add_column_ops_has(tb, cn, tc, tc.len() as int, k);
        lemma_contains_concat(a1 + a2, a3, x);
        lemma_contains_concat(a1 + a2 + a3, a4, x);
        lemma_contains_concat(a1 + a2 + a3 + a4, a5, x);
        lemma_contains_concat(a1 + a2 + a3 + a4 + a5, a6, x);
        lemma_contains_concat(a1 + a2 + a3 + a4 + a5 + a6, a7, x);
    }
    assert forall|k: int, j: int|
        0 <= k < tc.len() && is_last(column_names(tc), k) && !tc[k].dropped && tc[k].renamed_from is None && 0 <= j
            < cc.len() && is_last(cn, j) && cc[j].name == tc[k].name && column_diff(#[trigger] cc[j], #[trigger] tc[k])
            is Some implies table_diff(cur, tgt).contains(
        OpModel::AlterColumn { table: tb, column: tc[k].name, changes: column_diff(cc[j], tc[k])->0 },
    ) by {
        let x = OpModel::AlterColumn { table: tb, column: tc[k].name, changes: column_diff(cc[j], tc[k])->0 };
        assert(cn[j] == tc[k].name);
        lemma_last_pos(cn, tc[k].name);
        assert(last_pos(cn, tc[k].name) == j);
        lemma_alter_ops_has(tb, cc, tc, tc.len() as int, k);
        lemma_contains_concat(a1 + a2 + a3 + a4, a5, x);
        lemma_contains_concat(a1 + a2 + a3 + a4 + a5, a6, x);
        lemma_contains_concat(a1 + a2 + a3 + a4 + a5 + a6, a7, x);
    }
    assert forall|j: int|
        0 <= j < cc.len() && is_last(cn, j) && (forall|k: int|
            0 <= k < tc.len() ==> tc[k].name != cc[j].name && tc[k].renamed_from != Some(cc[j].name))
            implies table_diff(cur, tgt).contains(OpModel::DropColumn { table: tb, column: #[trigger] cc[j].name }) by {
        let x = OpModel::DropColumn { table: tb, column: cc[j].name };
        assert(cn[j] == cc[j].name);
        lemma_last_pos(column_names(tc), cc[j].name);
        if has_key(column_names(tc), cc[j].name) {
            let k = choose|k: int| 0 <= k < column_names(tc).len() && column_names(tc)[k] == cc[j].name;
            assert(tc[k].name == cc[j].name);
        }
        lemma_last_pos(froms, cc[j].name);
        if has_key(froms, cc[j].name) {
            assert(froms.contains(cc[j].name)) by {
                let i = choose|i: int| 0 <= i < froms.len() && froms[i] == cc[j].name;
                assert(froms[i] == cc[j].name);
            }
            lemma_rename_froms_from(tc, tc.len() as int, cc[j].name);
        }
        if explicitly_dropped(tc, cc[j].name) {
            let i = choose|i: int|
                0 <= i < tc.len() && is_last(column_names(tc), i) && #[trigger] tc[i].dropped && tc[i].name == cc[j].name;
            assert(tc[i].name == cc[j].name);
        }
        lemma_implicit_drop_ops_has(tb, cc, tc, froms, cc.len() as int, j);
        lemma_contains_concat(a1 + a2 + a3, a4, x);
        lemma_contains_concat(a1 + a2 + a3 + a4, a5, x);
        lemma_contains_concat(a1 + a2 + a3 + a4 + a5, a6, x);
        lemma_contains_concat(a1 + a2 + a3 + a4 + a5 + a6, a7, x);
    }
}

proof fn lemma_rename_lens(tc: Seq<ColumnModel>, n: int)
    ensures
        rename_froms(tc, n).len() == rename_tos(tc, n).len(),
    decreases n,
{
    if n > 0 && n <= tc.len() {
        lemma_rename_lens(tc, n - 1);
    }
}

fn rename_lists(tc: &Vec<ColumnSchema>, tk: &Vec<Vec<char>>) -> (res: (Vec<Vec<char>>, Vec<Vec<char>>))
    requires
        tk@.len() == tc@.len(),
        keys_view(tk@) == column_names(columns_view(tc@)),
    ensures
        keys_view(res.0@) == rename_froms(columns_view(tc@), tc@.len() as int),
        keys_view(res.1@) == rename_tos(columns_view(tc@), tc@.len() as int),
        res.0@.len() == res.1@.len(),
{
    let mut froms: Vec<Vec<char>> = Vec::new();
    let mut tos: Vec<Vec<char>> = Vec::new();
    let mut i: usize = 0;
    while i < tc.len()
        invariant
            i <= tc@.len(),
            tk@.len() == tc@.len(),
            keys_view(tk@) == column_names(columns_view(tc@)),
            keys_view(froms@) == rename_froms(columns_view(tc@), i as int),
            keys_view(tos@) == rename_tos(columns_view(tc@), i as int),
            froms@.len() == tos@.len(),
        decreases tc@.len() - i,
    {
        proof {
            assert(columns_view(tc@)[i as int] == tc@[i as int]@);
        }
        if is_last_exec(tk, i) {
            match &tc[i].renamed_from {
                Some(f) => {
                    let ghost f0 = froms@;
                    let ghost t0 = tos@;
                    froms.push(chars_of(f.as_str()));
                    tos.push(chars_of(tc[i].name.as_str()));
                    proof {
                        assert(keys_view(froms@) =~= keys_view(f0).push(f@));
                        assert(keys_view(tos@) =~= keys_view(t0).push(tc@[i as int].name@));
                    }
                },
                None => {},
            }
        }
        i = i + 1;
    }
    (froms, tos)
}

fn flag_drop_ops_exec(table: &String, tc: &Vec<ColumnSchema>, tk: &Vec<Vec<char>>) -> (res: Vec<SchemaOperation>)
    requires
        tk@.len() == tc@.len(),
        keys_view(tk@) == column_names(columns_view(tc@)),
    ensures
        ops_view(res@) == flag_drop_ops(table@, columns_view(tc@), tc@.len() as int),
{
    let mut ops: Vec<SchemaOperation> = Vec::new();
    let mut i: usize = 0;
    while i < tc.len()
        invariant
            i <= tc@.len(),
            tk@.len() == tc@.len(),
            keys_view(tk@) == column_names(columns_view(tc@)),
            ops_view(ops@) == flag_drop_ops(table@, columns_view(tc@), i as int),
        decreases tc@.len() - i,
    {
        let ghost before = ops@;
        proof {
            assert(columns_view(tc@)[i as int] == tc@[i as int]@);
        }
        if is_last_exec(tk, i) && tc[i].dropped {
            let op = SchemaOperation::DropColumn { table: table.clone(), column: tc[i].name.clone() };
            ops.push(op);
            proof {
                lemma_ops_push(before, op);
            }
        }
        i = i + 1;
    }
    ops
}

fn rename_ops_exec(table: &String, ck: &Vec<Vec<char>>, froms: &Vec<Vec<char>>, tos: &Vec<Vec<char>>) -> (res: Vec<SchemaOperation>)
    requires
        froms@.len() == tos@.len(),
    ensures
        ops_view(res@) == rename_ops(table@, keys_view(ck@), keys_view(froms@), keys_view(tos@), froms@.len() as int),
{
    let mut ops: Vec<SchemaOperation> = Vec::new();
    let mut i: usize = 0;
    while i < froms.len()
        invariant
            i <= froms@.len(),
            froms@.len() == tos@.len(),
            ops_view(ops@) == rename_ops(table@, keys_view(ck@), keys_view(froms@), keys_view(tos@), i as int),
        decreases froms@.len() - i,
    {
        let ghost before = ops@;
        proof {
            assert(keys_view(froms@)[i as int] == froms@[i as int]@);
            assert(keys_view(tos@)[i as int] == tos@[i as int]@);
            assert(keys_view(froms@).len() == froms@.len());
            assert(keys_view(tos@).len() == tos@.len());
        }
        if is_last_exec(froms, i) && last_pos_exec(ck, &froms[i]).is_some() {
            proof {
                lemma_last_pos(keys_view(ck@), froms@[i as int]@);
            }
            let op = SchemaOperation::RenameColumn {
                table: table.clone(),
                from: string_of(&froms[i]),
                to: string_of(&tos[i]),
            };
            ops.push(op);
            proof {
                lemma_ops_push(before, op);
            }
        }
        i = i + 1;
    }
    ops
}

fn add_column_ops_exec(table: &String, ck: &Vec<Vec<char>>, tc: &Vec<ColumnSchema>, tk: &Vec<Vec<char>>) -> (res: Vec<SchemaOperation>)
    requires
        tk@.len() == tc@.len(),
        keys_view(tk@) == column_names(columns_view(tc@)),
    ensures
        ops_view(res@) == add_column_ops(table@, keys_view(ck@), columns_view(tc@), tc@.len() as int),
{
    let mut ops: Vec<SchemaOperation> = Vec::new();
    let mut i: usize = 0;
    while i < tc.len()
        invariant
            i <= tc@.len(),
            tk@.len() == tc@.len(),
            keys_view(tk@) == column_names(columns_view(tc@)),
            ops_view(ops@) == add_column_ops(table@, keys_view(ck@), columns_view(tc@), i as int),
        decreases tc@.len() - i,
    {
        let ghost before = ops@;
        proof {
            assert(columns_view(tc@)[i as int] == tc@[i as int]@);
            assert(keys_view(tk@)[i as int] == tk@[i as int]@);
        }
        if is_last_exec(tk, i) && !tc[i].dropped && tc[i].renamed_from.is_none() && last_pos_exec(
            ck,
            &tk[i],
        ).is_none() {
            let op = SchemaOperation::AddColumn { table: table.clone(), column: tc[i].clone() };
            ops.push(op);
            proof {
                lemma_ops_push(before, op);
            }
        }
        i = i + 1;
    }
    ops
}

fn explicitly_dropped_exec(tc: &Vec<ColumnSchema>, tk: &Vec<Vec<char>>, name: &[char]) -> (res: bool)
    requires
        tk@.len() == tc@.len(),
        keys_view(tk@) == column_names(columns_view(tc@)),
    ensures
        res == explicitly_dropped(columns_view(tc@), name@),
{
    let mut i: usize = 0;
    while i < tc.len()
        invariant
            i <= tc@.len(),
            tk@.len() == tc@.len(),
            keys_view(tk@) == column_names(columns_view(tc@)),
            forall|k: int|
                0 <= k < i ==> !(is_last(column_names(columns_view(tc@)), k) && #[trigger] columns_view(
                    tc@,
                )[k].dropped && columns_view(tc@)[k].name == name@),
        decreases tc@.len() - i,
    {
        proof {
            assert(columns_view(tc@)[i as int] == tc@[i as int]@);
            assert(keys_view(tk@)[i as int] == tk@[i as int]@);
        }
        if is_last_exec(tk, i) && tc[i].dropped && chars_eq(&tk[i], name) {
            proof {
                assert(column_names(columns_view(tc@))[i as int] == columns_view(tc@)[i as int].name);
                assert(columns_view(tc@)[i as int].dropped);
            }
            return true;
        }
        i = i + 1;
    }
    false
}

fn implicit_drop_ops_exec(
    table: &String,
    cc: &Vec<ColumnSchema>,
    ck: &Vec<Vec<char>>,
    tc: &Vec<ColumnSchema>,
    tk: &Vec<Vec<char>>,
    froms: &Vec<Vec<char>>,
) -> (res: Vec<SchemaOperation>)
    requires
        ck@.len() == cc@.len(),
        keys_view(ck@) == column_names(columns_view(cc@)),
        tk@.len() == tc@.len(),
        keys_view(tk@) == column_names(columns_view(tc@)),
    ensures
        ops_view(res@) == implicit_drop_ops(table@, columns_view(cc@), columns_view(tc@), keys_view(froms@), cc@.len() as int),
{
    let mut ops: Vec<SchemaOperation> = Vec::new();
    let mut i: usize = 0;
    while i < cc.len()
        invariant
            i <= cc@.len(),
            ck@.len() == cc@.len(),
            keys_view(ck@) == column_names(columns_view(cc@)),
            tk@.len() == tc@.len(),
            keys_view(tk@) == column_names(columns_view(tc@)),
            ops_view(ops@) == implicit_drop_ops(table@, columns_view(cc@), columns_view(tc@), keys_view(froms@), i as int),
        decreases cc@.len() - i,
    {
        let ghost before = ops@;
        proof {
            assert(columns_view(cc@)[i as int] == cc@[i as int]@);
            assert(keys_view(ck@)[i as int] == ck@[i as int]@);
        }
        if is_last_exec(ck, i) && last_pos_exec(tk, &ck[i]).is_none() && last_pos_exec(
            froms,
            &ck[i],
        ).is_none() && !explicitly_dropped_exec(tc, tk, &ck[i]) {
            let op = SchemaOperation::DropColumn { table: table.clone(), column: cc[i].name.clone() };
            ops.push(op);
            proof {
                lemma_ops_push(before, op);
            }
        }
        i = i + 1;
    }
    ops
}

fn alter_ops_exec(table: &String, cc: &Vec<ColumnSchema>, ck: &Vec<Vec<char>>, tc: &Vec<ColumnSchema>, tk: &Vec<Vec<char>>) -> (res: Vec<SchemaOperation>)
    requires
        ck@.len() == cc@.len(),
        keys_view(ck@) == column_names(columns_view(cc@)),
        tk@.len() == tc@.len(),
        keys_view(tk@) == column_names(columns_view(tc@)),
    ensures
        ops_view(res@) == alter_ops(table@, columns_view(cc@), columns_view(tc@), tc@.len() as int),
{
    let mut ops: Vec<SchemaOperation> = Vec::new();
    let mut i: usize = 0;
    while i < tc.len()
        invariant
            i <= tc@.len(),
            ck@.len() == cc@.len(),
            keys_view(ck@) == column_names(columns_view(cc@)),
            tk@.len() == tc@.len(),
            keys_view(tk@) == column_names(columns_view(tc@)),
            ops_view(ops@) == alter_ops(table@, columns_view(cc@), columns_view(tc@), i as int),
        decreases tc@.len() - i,
    {
        let ghost before = ops@;
        proof {
            assert(columns_view(tc@)[i as int] == tc@[i as int]@);
            assert(keys_view(tk@)[i as int] == tk@[i as int]@);
        }
        if is_last_exec(tk, i) && !tc[i].dropped && tc[i].renamed_from.is_none() {
            match last_pos_exec(ck, &tk[i]) {
                Some(j) => {
                    proof {
                        lemma_last_pos(keys_view(ck@), keys_view(tk@)[i as int]);
                        assert(columns_view(cc@)[j as int] == cc@[j as int]@);
                    }
                    match diff_column(&cc[j], &tc[i]) {
                        Some(changes) => {
                            let op = SchemaOperation::AlterColumn {
                                table: table.clone(),
                                column: tc[i].name.clone(),
                                changes,
                            };
                            ops.push(op);
                            proof {
                                lemma_ops_push(before, op);
                            }
                        },
                        None => {},
                    }
                },
                None => {},
            }
        }
        i = i + 1;
    }
    ops
}

/// Generate diff for a single table
pub fn diff_table(current: &TableSchema, target: &TableSchema) -> (res: Vec<SchemaOperation>)
    ensures
        ops_view(res@) == table_diff(current@, target@),
{
    let table = &current.name;
    let ck = column_name_keys(&current.columns);
    let tk = column_name_keys(&target.columns);
    proof {
        assert(keys_view(ck@).len() == ck@.len());
        assert(keys_view(tk@).len() == tk@.len());
        assert(columns_view(current.columns@) == current@.columns);
        assert(columns_view(target.columns@) == target@.columns);
        assert(indexes_view(current.indexes@) == current@.indexes);
        assert(indexes_view(target.indexes@) == target@.indexes);
        assert(fks_view(current.foreign_keys@) == current@.foreign_keys);
        assert(fks_view(target.foreign_keys@) == target@.foreign_keys);
    }
    let (froms, tos) = rename_lists(&target.columns, &tk);
    proof {
        assert(keys_view(froms@).len() == froms@.len());
    }
    let mut ops = flag_drop_ops_exec(table, &target.columns, &tk);
    append_ops(&mut ops, rename_ops_exec(table, &ck, &froms, &tos));
    append_ops(&mut ops, add_column_ops_exec(table, &ck, &target.columns, &tk));
    append_ops(&mut ops, implicit_drop_ops_exec(table, &current.columns, &ck, &target.columns, &tk, &froms));
    append_ops(&mut ops, alter_ops_exec(table, &current.columns, &ck, &target.columns, &tk));
    append_ops(&mut ops, diff_indexes(table, &current.indexes, &target.indexes));
    append_ops(&mut ops, diff_foreign_keys(table, &current.foreign_keys, &target.foreign_keys));
    ops
}

// ---------------------------------------------------------------------------
// Whole schemas
// ---------------------------------------------------------------------------

pub open spec fn create_table_ops(cur: Seq<TableModel>, tgt: Seq<TableModel>, n: int) -> Seq<OpModel>
    decreases n,
{
    if n <= 0 || n > tgt.len() {
        Seq::empty()
    } else {
        let p = create_table_ops(cur, tgt, n - 1);
        if is_last(table_names(tgt), n - 1) && !has_key(table_names(cur), tgt[n - 1].name) {
            p.push(OpModel::CreateTable(tgt[n - 1]))
        } else {
            p
        }
    }
}

pub open spec fn drop_table_ops(cur: Seq<TableModel>, tgt: Seq<TableModel>, n: int) -> Seq<OpModel>
    decreases n,
{
    if n <= 0 || n > cur.len() {
        Seq::empty()
    } else {
        let p = drop_table_ops(cur, tgt, n - 1);
        if is_last(table_names(cur), n - 1) && !has_key(table_names(tgt), cur[n - 1].name) {
            p.push(OpModel::DropTable(cur[n - 1].name))
        } else {
            p
        }
    }
}

pub open spec fn modify_table_ops(cur: Seq<TableModel>, tgt: Seq<TableModel>, n: int) -> Seq<OpModel>
    decreases n,
{
    if n <= 0 || n > tgt.len() {
        Seq::empty()
    } else {
        let p = modify_table_ops(cur, tgt, n - 1);
        let t = tgt[n - 1];
        let cn = table_names(cur);
        if is_last(table_names(tgt), n - 1) && has_key(cn, t.name) {
            p + table_diff(cur[last_pos(cn, t.name)], t)
        } else {
            p
        }
    }
}

/// The operations that transform the `cur` schema into the `tgt` schema, in
/// safe execution order.
pub open spec fn schema_diff(cur: Seq<TableModel>, tgt: Seq<TableModel>) -> Seq<OpModel> {
    ordered_ops(
        create_table_ops(cur, tgt, tgt.len() as int) + drop_table_ops(cur, tgt, cur.len() as int)
            + modify_table_ops(cur, tgt, tgt.len() as int),
    )
}

proof fn lemma_modify_table_ops_has(cur: Seq<TableModel>, tgt: Seq<TableModel>, n: int, k: int, x: OpModel)
    requires
        0 <= k < n <= tgt.len(),
        is_last(table_names(tgt), k),
        has_key(table_names(cur), tgt[k].name),
        table_diff(cur[last_pos(table_names(cur), tgt[k].name)], tgt[k]).contains(x),
    ensures
        modify_table_ops(cur, tgt, n).contains(x),
    decreases n,
{
    let p = modify_table_ops(cur, tgt, n - 1);
    let t = tgt[n - 1];
    let cn = table_names(cur);
    if k == n - 1 {
        assert(table_names(tgt)[k] == tgt[k].name);
        lemma_contains_concat(p, table_diff(cur[last_pos(cn, t.name)], t), x);
    } else {
        lemma_modify_table_ops_has(cur, tgt, n - 1, k, x);
        if is_last(table_names(tgt), n - 1) && has_key(cn, t.name) {
            lemma_contains_concat(p, table_diff(cur[last_pos(cn, t.name)], t), x);
        }
    }
}

/// The diff of two schemas carries out the diff of every table they share:
/// for a table of the target (the last of its name) and the current table of
/// that name (the last of it), every operation of their table diff is among
/// the schema diff's operations.
pub proof fn law_schema_diff_includes_table_diffs(cur: Seq<TableModel>, tgt: Seq<TableModel>, k: int, j: int, x: OpModel)
    requires
        0 <= k < tgt.len(),
        is_last(table_names(tgt), k),
        0 <= j < cur.len(),
        is_last(table_names(cur), j),
        cur[j].name == tgt[k].name,
        table_diff(cur[j], tgt[k]).contains(x),
    ensures
        schema_diff(cur, tgt).contains(x),
{
    let cn = table_names(cur);
    assert(cn[j] == tgt[k].name);
    lemma_last_pos(cn, tgt[k].name);
    assert(last_pos(cn, tgt[k].name) == j);
    lemma_modify_table_ops_has(cur, tgt, tgt.len() as int, k, x);
    let a = create_table_ops(cur, tgt, tgt.len() as int);
    let b = drop_table_ops(cur, tgt, cur.len() as int);
    let m = modify_table_ops(cur, tgt, tgt.len() as int);
    lemma_contains_concat(a + b, m, x);
    let all = a + b + m;
    lemma_ordered_multiset(all);
    broadcast use vstd::seq_lib::to_multiset_contains;
    assert(all.to_multiset().count(x) > 0);
    assert(ordered_ops(all).to_multiset().count(x) > 0);
}

/// Generate diff between two schema states
///
/// Returns a list of operations to transform `current` into `target`.
pub fn generate_diff(current: &[TableSchema], target: &[TableSchema]) -> (res: Vec<SchemaOperation>)
    ensures
        ops_view(res@) == schema_diff(tables_view(current@), tables_view(target@)),
{
    let ghost cur = tables_view(current@);
    let ghost tgt = tables_view(target@);
    let ck = table_name_keys(current);
    let tk = table_name_keys(target);
    proof {
        assert(keys_view(ck@).len() == ck@.len());
        assert(keys_view(tk@).len() == tk@.len());
    }
    // 1. new tables
    let mut creates: Vec<SchemaOperation> = Vec::new();
    let mut i: usize = 0;
    while i < target.len()
        invariant
            i <= target@.len(),
            tk@.len() == target@.len(),
            ck@.len() == current@.len(),
            keys_view(tk@) == table_names(tables_view(target@)),
            keys_view(ck@) == table_names(tables_view(current@)),
            ops_view(creates@) == create_table_ops(tables_view(current@), tables_view(target@), i as int),
        decreases target@.len() - i,
    {
        let ghost before = creates@;
        proof {
            assert(tables_view(target@)[i as int] == target@[i as int]@);
            assert(keys_view(tk@)[i as int] == tk@[i as int]@);
        }
        if is_last_exec(&tk, i) && last_pos_exec(&ck, &tk[i]).is_none() {
            let op = SchemaOperation::CreateTable(target[i].clone());
            creates.push(op);
            proof {
                lemma_ops_push(before, op);
            }
        }
        i = i + 1;
    }
    // 2. dropped tables
    let mut drops: Vec<SchemaOperation> = Vec::new();
    let mut j: usize = 0;
    while j < current.len()
        invariant
            j <= current@.len(),
            tk@.len() == target@.len(),
            ck@.len() == current@.len(),
            keys_view(tk@) == table_names(tables_view(target@)),
            keys_view(ck@) == table_names(tables_view(current@)),
            ops_view(drops@) == drop_table_ops(tables_view(current@), tables_view(target@), j as int),
        decreases current@.len() - j,
    {
        let ghost before = drops@;
        proof {
            assert(tables_view(current@)[j as int] == current@[j as int]@);
            assert(keys_view(ck@)[j as int] == ck@[j as int]@);
        }
        if is_last_exec(&ck, j) && last_pos_exec(&tk, &ck[j]).is_none() {
            let op = SchemaOperation::DropTable(current[j].name.clone());
            drops.push(op);
            proof {
                lemma_ops_push(before, op);
            }
        }
        j = j + 1;
    }
    // 3. modified tables
    let mut mods: Vec<SchemaOperation> = Vec::new();
    let mut k: usize = 0;
    while k < target.len()
        invariant
            k <= target@.len(),
            tk@.len() == target@.len(),
            ck@.len() == current@.len(),
            keys_view(tk@) == table_names(tables_view(target@)),
            keys_view(ck@) == table_names(tables_view(current@)),
            ops_view(mods@) == modify_table_ops(tables_view(current@), tables_view(target@), k as int),
        decreases target@.len() - k,
    {
        proof {
            assert(tables_view(target@)[k as int] == target@[k as int]@);
            assert(keys_view(tk@)[k as int] == tk@[k as int]@);
        }
        if is_last_exec(&tk, k) {
            match last_pos_exec(&ck, &tk[k]) {
                Some(c) => {
                    proof {
                        lemma_last_pos(keys_view(ck@), keys_view(tk@)[k as int]);
                        assert(tables_view(current@)[c as int] == current@[c as int]@);
                    }
                    append_ops(&mut mods, diff_table(&current[c], &target[k]));
                },
                None => {},
            }
        }
        k = k + 1;
    }
    append_ops(&mut creates, drops);
    append_ops(&mut creates, mods);
    order_operations(creates)
}

// ---------------------------------------------------------------------------
// Delta migrations
// ---------------------------------------------------------------------------

/// `cols` without the columns named `name`.
pub open spec fn without_named(cols: Seq<ColumnModel>, name: Seq<char>) -> Seq<ColumnModel>
    decreases cols.len(),
{
    if cols.len() == 0 {
        Seq::empty()
    } else {
        let p = without_named(cols.drop_last(), name);
        if cols.last().name == name {
            p
        } else {
            p.push(cols.last())
        }
    }
}

/// A column renamed by a delta column: it takes the new name, and the delta's
/// max length, unique and index settings where the delta sets them.
pub open spec fn renamed_column(c: ColumnModel, d: ColumnModel) -> ColumnModel {
    ColumnModel {
        name: d.name,
        max_length: if d.max_length is Some { d.max_length } else { c.max_length },
        unique: c.unique || d.unique,
        indexed: c.indexed || d.indexed,
        ..c
    }
}

/// The effect of one delta column: drop, rename, replace or add.
pub open spec fn apply_delta_column(cols: Seq<ColumnModel>, d: ColumnModel) -> Seq<ColumnModel> {
    if d.dropped {
        without_named(cols, d.name)
    } else if d.renamed_from is Some {
        let i = column_index(cols, d.renamed_from->0);
        if i < 0 {
            cols
        } else {
            cols.update(i, renamed_column(cols[i], d))
        }
    } else {
        let i = column_index(cols, d.name);
        if i < 0 {
            cols.push(d)
        } else {
            cols.update(i, d)
        }
    }
}

pub open spec fn apply_delta_columns(cols: Seq<ColumnModel>, ds: Seq<ColumnModel>, n: int) -> Seq<ColumnModel>
    decreases n,
{
    if n <= 0 || n > ds.len() {
        cols
    } else {
        apply_delta_column(apply_delta_columns(cols, ds, n - 1), ds[n - 1])
    }
}

/// Indexes of `ds` whose names are new are appended, in order.
pub open spec fn merge_indexes(xs: Seq<IndexModel>, ds: Seq<IndexModel>, n: int) -> Seq<IndexModel>
    decreases n,
{
    if n <= 0 || n > ds.len() {
        xs
    } else {
        let p = merge_indexes(xs, ds, n - 1);
        if has_key(index_names(p), ds[n - 1].name) {
            p
        } else {
            p.push(ds[n - 1])
        }
    }
}

/// Foreign keys of `ds` on columns not yet constrained are appended, in order.
pub open spec fn merge_fks(xs: Seq<ForeignKeyModel>, ds: Seq<ForeignKeyModel>, n: int) -> Seq<ForeignKeyModel>
    decreases n,
{
    if n <= 0 || n > ds.len() {
        xs
    } else {
        let p = merge_fks(xs, ds, n - 1);
        if has_key(fk_columns(p), ds[n - 1].column) {
            p
        } else {
            p.push(ds[n - 1])
        }
    }
}

/// The table that results from applying `delta` to `base`.
pub open spec fn delta_result(base: TableModel, delta: TableModel) -> TableModel {
    TableModel {
        columns: apply_delta_columns(base.columns, delta.columns, delta.columns.len() as int),
        indexes: merge_indexes(base.indexes, delta.indexes, delta.indexes.len() as int),
        foreign_keys: merge_fks(base.foreign_keys, delta.foreign_keys, delta.foreign_keys.len() as int),
        migration_id: delta.migration_id,
        ..base
    }
}

proof fn lemma_merge_indexes_prefix(xs: Seq<IndexModel>, ds: Seq<IndexModel>, n: int)
    requires
        0 <= n <= ds.len(),
    ensures
        xs.len() <= merge_indexes(xs, ds, n).len(),
        merge_indexes(xs, ds, n).take(xs.len() as int) == xs,
    decreases n,
{
    if n > 0 {
        lemma_merge_indexes_prefix(xs, ds, n - 1);
        let p = merge_indexes(xs, ds, n - 1);
        assert(p.push(ds[n - 1]).take(xs.len() as int) =~= p.take(xs.len() as int));
    }
}

proof fn lemma_merge_indexes_names(xs: Seq<IndexModel>, ds: Seq<IndexModel>, n: int)
    requires
        0 <= n <= ds.len(),
    ensures
        forall|k: int| 0 <= k < n ==> index_names(merge_indexes(xs, ds, n)).contains(#[trigger] ds[k].name),
    decreases n,
{
    if n > 0 {
        lemma_merge_indexes_names(xs, ds, n - 1);
        let p = merge_indexes(xs, ds, n - 1);
        let r = merge_indexes(xs, ds, n);
        lemma_last_pos(index_names(p), ds[n - 1].name);
        if !has_key(index_names(p), ds[n - 1].name) {
            assert(index_names(r) =~= index_names(p).push(ds[n - 1].name));
            assert(index_names(r)[p.len() as int] == ds[n - 1].name);
            assert forall|k: int| 0 <= k < n implies index_names(r).contains(#[trigger] ds[k].name) by {
                if k < n - 1 {
                    assert(index_names(p).contains(ds[k].name));
                    let j = choose|j: int| 0 <= j < index_names(p).len() && #[trigger] index_names(p)[j] == ds[k].name;
                    assert(index_names(r)[j] == ds[k].name);
                }
            }
        }
    }
}

proof fn lemma_merge_indexes_added(xs: Seq<IndexModel>, ds: Seq<IndexModel>, n: int)
    requires
        0 <= n <= ds.len(),
    ensures
        forall|j: int|
            xs.len() <= j < merge_indexes(xs, ds, n).len() ==> ds.take(n).contains(#[trigger] merge_indexes(xs, ds, n)[j]),
        forall|j: int|
            xs.len() <= j < merge_indexes(xs, ds, n).len() ==> !index_names(merge_indexes(xs, ds, n).take(j)).contains(
                #[trigger] merge_indexes(xs, ds, n)[j].name,
            ),
    decreases n,
{
    lemma_merge_indexes_prefix(xs, ds, n);
    if n > 0 {
        lemma_merge_indexes_added(xs, ds, n - 1);
        lemma_merge_indexes_prefix(xs, ds, n - 1);
        let p = merge_indexes(xs, ds, n - 1);
        let r = merge_indexes(xs, ds, n);
        lemma_last_pos(index_names(p), ds[n - 1].name);
        assert forall|j: int| xs.len() <= j < r.len() implies ds.take(n).contains(#[trigger] r[j]) by {
            if j < p.len() {
                assert(ds.take(n - 1).contains(p[j]));
                let k = choose|k: int| 0 <= k < n - 1 && #[trigger] ds.take(n - 1)[k] == p[j];
                assert(ds.take(n)[k] == r[j]);
            } else {
                assert(ds.take(n)[n - 1] == r[j]);
            }
        }
        assert forall|j: int| xs.len() <= j < r.len() implies !index_names(r.take(j)).contains(#[trigger] r[j].name) by {
            if j < p.len() {
                assert(r.take(j) =~= p.take(j));
            } else {
                assert(r.take(j) =~= p);
            }
        }
    }
}

proof fn lemma_merge_fks_prefix(xs: Seq<ForeignKeyModel>, ds: Seq<ForeignKeyModel>, n: int)
    requires
        0 <= n <= ds.len(),
    ensures
        xs.len() <= merge_fks(xs, ds, n).len(),
        merge_fks(xs, ds, n).take(xs.len() as int) == xs,
    decreases n,
{
    if n > 0 {
        lemma_merge_fks_prefix(xs, ds, n - 1);
        let p = merge_fks(xs, ds, n - 1);
        assert(p.push(ds[n - 1]).take(xs.len() as int) =~= p.take(xs.len() as int));
    }
}

proof fn lemma_merge_fks_names(xs: Seq<ForeignKeyModel>, ds: Seq<ForeignKeyModel>, n: int)
    requires
        0 <= n <= ds.len(),
    ensures
        forall|k: int| 0 <= k < n ==> fk_columns(merge_fks(xs, ds, n)).contains(#[trigger] ds[k].column),
    decreases n,
{
    if n > 0 {
        lemma_merge_fks_names(xs, ds, n - 1);
        let p = merge_fks(xs, ds, n - 1);
        let r = merge_fks(xs, ds, n);
        lemma_last_pos(fk_columns(p), ds[n - 1].column);
        if !has_key(fk_columns(p), ds[n - 1].column) {
            assert(fk_columns(r) =~= fk_columns(p).push(ds[n - 1].column));
            assert(fk_columns(r)[p.len() as int] == ds[n - 1].column);
            assert forall|k: int| 0 <= k < n implies fk_columns(r).contains(#[trigger] ds[k].column) by {
                if k < n - 1 {
                    assert(fk_columns(p).contains(ds[k].column));
                    let j = choose|j: int| 0 <= j < fk_columns(p).len() && #[trigger] fk_columns(p)[j] == ds[k].column;
                    assert(fk_columns(r)[j] == ds[k].column);
                }
            }
        }
    }
}

proof fn lemma_merge_fks_added(xs: Seq<ForeignKeyModel>, ds: Seq<ForeignKeyModel>, n: int)
    requires
        0 <= n <= ds.len(),
    ensures
        forall|j: int|
            xs.len() <= j < merge_fks(xs, ds, n).len() ==> ds.take(n).contains(#[trigger] merge_fks(xs, ds, n)[j]),
        forall|j: int|
            xs.len() <= j < merge_fks(xs, ds, n).len() ==> !fk_columns(merge_fks(xs, ds, n).take(j)).contains(
                #[trigger] merge_fks(xs, ds, n)[j].column,
            ),
    decreases n,
{
    lemma_merge_fks_prefix(xs, ds, n);
    if n > 0 {
        lemma_merge_fks_added(xs, ds, n - 1);
        lemma_merge_fks_prefix(xs, ds, n - 1);
        let p = merge_fks(xs, ds, n - 1);
        let r = merge_fks(xs, ds, n);
        lemma_last_pos(fk_columns(p), ds[n - 1].column);
        assert forall|j: int| xs.len() <= j < r.len() implies ds.take(n).contains(#[trigger] r[j]) by {
            if j < p.len() {
                assert(ds.take(n - 1).contains(p[j]));
                let k = choose|k: int| 0 <= k < n - 1 && #[trigger] ds.take(n - 1)[k] == p[j];
                assert(ds.take(n)[k] == r[j]);
            } else {
                assert(ds.take(n)[n - 1] == r[j]);
            }
        }
        assert forall|j: int| xs.len() <= j < r.len() implies !fk_columns(r.take(j)).contains(#[trigger] r[j].column) by {
            if j < p.len() {
                assert(r.take(j) =~= p.take(j));
            } else {
                assert(r.take(j) =~= p);
            }
        }
    }
}

/// Resolving a delta keeps the base's foreign keys, in order, at the front
/// and adds the delta's: every column a delta foreign key constrains is
/// constrained in the result, each added foreign key is one of the delta's,
/// and no added foreign key constrains a column already constrained before it.
pub proof fn law_delta_merges_foreign_keys(base: TableModel, delta: TableModel)
    ensures
        ({
            let r = delta_result(base, delta).foreign_keys;
            &&& base.foreign_keys.len() <= r.len()
            &&& forall|i: int| 0 <= i < base.foreign_keys.len() ==> #[trigger] r[i] == base.foreign_keys[i]
            &&& forall|k: int|
                0 <= k < delta.foreign_keys.len() ==> fk_columns(r).contains(#[trigger] delta.foreign_keys[k].column)
            &&& forall|j: int| base.foreign_keys.len() <= j < r.len() ==> delta.foreign_keys.contains(#[trigger] r[j])
            &&& forall|j: int|
                base.foreign_keys.len() <= j < r.len() ==> !fk_columns(r.take(j)).contains(#[trigger] r[j].column)
        }),
{
    let n = delta.foreign_keys.len() as int;
    let r = delta_result(base, delta).foreign_keys;
    lemma_merge_fks_prefix(base.foreign_keys, delta.foreign_keys, n);
    lemma_merge_fks_names(base.foreign_keys, delta.foreign_keys, n);
    lemma_merge_fks_added(base.foreign_keys, delta.foreign_keys, n);
    assert(delta.foreign_keys.take(n) =~= delta.foreign_keys);
    assert forall|i: int| 0 <= i < base.foreign_keys.len() implies #[trigger] r[i] == base.foreign_keys[i] by {
        assert(r.take(base.foreign_keys.len() as int)[i] == r[i]);
    }
}

proof fn lemma_without_named(cols: Seq<ColumnModel>, name: Seq<char>)
    ensures
        forall|j: int|
            0 <= j < without_named(cols, name).len() ==> (#[trigger] without_named(cols, name)[j]).name != name
                && cols.contains(without_named(cols, name)[j]),
        forall|j: int| 0 <= j < cols.len() && (#[trigger] cols[j]).name != name ==> without_named(cols, name).contains(cols[j]),
    decreases cols.len(),
{
    if cols.len() > 0 {
        let q = cols.drop_last();
        lemma_without_named(q, name);
        let p = without_named(q, name);
        let r = without_named(cols, name);
        assert forall|j: int| 0 <= j < r.len() implies (#[trigger] r[j]).name != name && cols.contains(r[j]) by {
            if j < p.len() {
                assert(r[j] == p[j]);
                let k = choose|k: int| 0 <= k < q.len() && q[k] == p[j];
                assert(cols[k] == q[k]);
            } else {
                assert(r[j] == cols[cols.len() - 1]);
            }
        }
        assert forall|j: int| 0 <= j < cols.len() && (#[trigger] cols[j]).name != name implies r.contains(cols[j]) by {
            if j < cols.len() - 1 {
                assert(q[j] == cols[j]);
                assert(p.contains(cols[j]));
                let k = choose|k: int| 0 <= k < p.len() && p[k] == cols[j];
                assert(r[k] == cols[j]);
            } else {
                assert(r[r.len() - 1] == cols[j]);
            }
        }
    }
}

/// What one delta column does to the columns: a dropped column removes
/// every column of its name and keeps the others; a renamed one gives the
/// column it renames its new name (or changes nothing when there is no such
/// column); any other puts itself among the columns. Columns of other names
/// are kept in each case.
pub proof fn law_delta_column_effect(cols: Seq<ColumnModel>, d: ColumnModel)
    ensures
        ({
            let r = apply_delta_column(cols, d);
            &&& d.dropped ==> forall|j: int|
                0 <= j < r.len() ==> (#[trigger] r[j]).name != d.name && cols.contains(r[j])
            &&& forall|j: int|
                0 <= j < cols.len() && (#[trigger] cols[j]).name != d.name && (d.renamed_from is None || d.dropped)
                    ==> r.contains(cols[j])
            &&& (!d.dropped && d.renamed_from is None) ==> r.contains(d)
            &&& (!d.dropped && d.renamed_from is Some && column_index(cols, d.renamed_from->0) >= 0) ==> exists|j: int|
                0 <= j < r.len() && (#[trigger] r[j]).name == d.name
            &&& (!d.dropped && d.renamed_from is Some && column_index(cols, d.renamed_from->0) < 0) ==> r == cols
        }),
{
    let r = apply_delta_column(cols, d);
    if d.dropped {
        lemma_without_named(cols, d.name);
    } else if d.renamed_from is Some {
        let f = d.renamed_from->0;
        crate::schema::lemma_column_index_from(cols, f, 0);
        let i = column_index(cols, f);
        if i >= 0 {
            assert(r[i].name == d.name);
        }
    } else {
        crate::schema::lemma_column_index_from(cols, d.name, 0);
        let i = column_index(cols, d.name);
        if i < 0 {
            assert(r[cols.len() as int] == d);
            assert forall|j: int| 0 <= j < cols.len() && (#[trigger] cols[j]).name != d.name implies r.contains(cols[j]) by {
                assert(r[j] == cols[j]);
            }
        } else {
            assert(r[i] == d);
            assert forall|j: int| 0 <= j < cols.len() && (#[trigger] cols[j]).name != d.name implies r.contains(cols[j]) by {
                assert(j != i);
                assert(r[j] == cols[j]);
            }
        }
    }
}

/// Resolving a delta keeps the base's indexes, in order, at the front and
/// adds the delta's: every delta index name is among the result's, each
/// added index is one of the delta's, and no added index repeats a name that
/// stands before it.
pub proof fn law_delta_merges_indexes(base: TableModel, delta: TableModel)
    ensures
        ({
            let r = delta_result(base, delta).indexes;
            &&& base.indexes.len() <= r.len()
            &&& forall|i: int| 0 <= i < base.indexes.len() ==> #[trigger] r[i] == base.indexes[i]
            &&& forall|k: int| 0 <= k < delta.indexes.len() ==> index_names(r).contains(#[trigger] delta.indexes[k].name)
            &&& forall|j: int| base.indexes.len() <= j < r.len() ==> delta.indexes.contains(#[trigger] r[j])
            &&& forall|j: int|
                base.indexes.len() <= j < r.len() ==> !index_names(r.take(j)).contains(#[trigger] r[j].name)
        }),
        delta_result(base, delta).migration_id == delta.migration_id,
{
    let n = delta.indexes.len() as int;
    let r = delta_result(base, delta).indexes;
    lemma_merge_indexes_prefix(base.indexes, delta.indexes, n);
    lemma_merge_indexes_names(base.indexes, delta.indexes, n);
    lemma_merge_indexes_added(base.indexes, delta.indexes, n);
    assert(delta.indexes.take(n) =~= delta.indexes);
    assert forall|i: int| 0 <= i < base.indexes.len() implies #[trigger] r[i] == base.indexes[i] by {
        assert(r.take(base.indexes.len() as int)[i] == r[i]);
    }
}

fn remove_named_columns(cols: &Vec<ColumnSchema>, name: &[char]) -> (res: Vec<ColumnSchema>)
    ensures
        columns_view(res@) == without_named(columns_view(cols@), name@),
{
    let mut res: Vec<ColumnSchema> = Vec::new();
    let mut i: usize = 0;
    while i < cols.len()
        invariant
            i <= cols@.len(),
            columns_view(res@) == without_named(columns_view(cols@).take(i as int), name@),
        decreases cols@.len() - i,
    {
        proof {
            let t = columns_view(cols@).take(i + 1);
            assert(t.drop_last() =~= columns_view(cols@).take(i as int));
            assert(t.last() == cols@[i as int]@);
        }
        let cn = chars_of(cols[i].name.as_str());
        if !chars_eq(&cn, name) {
            let ghost before = res@;
            res.push(cols[i].clone());
            proof {
                assert(columns_view(res@) =~= columns_view(before).push(cols@[i as int]@));
            }
        }
        i = i + 1;
    }
    proof {
        assert(columns_view(cols@).take(cols@.len() as int) =~= columns_view(cols@));
    }
    res
}

fn apply_delta_column_exec(cols: &mut Vec<ColumnSchema>, d: &ColumnSchema)
    ensures
        columns_view(final(cols)@) == apply_delta_column(columns_view(old(cols)@), d@),
{
    let dn = chars_of(d.name.as_str());
    if d.dropped {
        let kept = remove_named_columns(cols, &dn);
        *cols = kept;
        return;
    }
    match &d.renamed_from {
        Some(from) => {
            let fc = chars_of(from.as_str());
            match position_of_column(cols, &fc) {
                Some(i) => {
                    proof {
                        lemma_column_index_from(columns_view(cols@), fc@, 0);
                    }
                    let mut c = cols[i].clone();
                    c.name = d.name.clone();
                    if d.max_length.is_some() {
                        c.max_length = d.max_length;
                    }
                    if d.unique {
                        c.unique = true;
                    }
                    if d.indexed {
                        c.indexed = true;
                    }
                    let ghost before = cols@;
                    cols.set(i, c);
                    proof {
                        assert(columns_view(cols@) =~= columns_view(before).update(
                            i as int,
                            renamed_column(columns_view(before)[i as int], d@),
                        ));
                    }
                },
                None => {},
            }
        },
        None => {
            match position_of_column(cols, &dn) {
                Some(i) => {
                    proof {
                        lemma_column_index_from(columns_view(cols@), dn@, 0);
                    }
                    let ghost before = cols@;
                    cols.set(i, d.clone());
                    proof {
                        assert(columns_view(cols@) =~= columns_view(before).update(i as int, d@));
                    }
                },
                None => {
                    let ghost before = cols@;
                    cols.push(d.clone());
                    proof {
                        assert(columns_view(cols@) =~= columns_view(before).push(d@));
                    }
                },
            }
        },
    }
}

/// Resolve a delta migration by merging with base schema
///
/// Takes a base schema and applies delta changes (adds, drops, renames)
/// to produce the final schema state.
pub fn resolve_delta(base: &TableSchema, delta: &TableSchema) -> (res: TableSchema)
    ensures
        res@ == delta_result(base@, delta@),
{
    let mut result = base.clone();
    result.migration_id = clone_opt_str(&delta.migration_id);
    let ghost dcols = columns_view(delta.columns@);
    proof {
        assert(dcols == delta@.columns);
    }
    let mut i: usize = 0;
    while i < delta.columns.len()
        invariant
            i <= delta.columns@.len(),
            dcols == columns_view(delta.columns@),
            columns_view(result.columns@) == apply_delta_columns(base@.columns, dcols, i as int),
            result.name@ == base@.name,
            indexes_view(result.indexes@) == base@.indexes,
            fks_view(result.foreign_keys@) == base@.foreign_keys,
            strs_view(result.primary_key@) == base@.primary_key,
            opt_str_view(result.migration_id) == delta@.migration_id,
        decreases delta.columns@.len() - i,
    {
        proof {
            assert(dcols[i as int] == delta.columns@[i as int]@);
        }
        apply_delta_column_exec(&mut result.columns, &delta.columns[i]);
        i = i + 1;
    }
    let ghost didx = indexes_view(delta.indexes@);
    let mut k: usize = 0;
    while k < delta.indexes.len()
        invariant
            k <= delta.indexes@.len(),
            didx == indexes_view(delta.indexes@),
            indexes_view(result.indexes@) == merge_indexes(base@.indexes, didx, k as int),
            didx == delta@.indexes,
            columns_view(result.columns@) == apply_delta_columns(base@.columns, dcols, dcols.len() as int),
            dcols == delta@.columns,
            result.name@ == base@.name,
            strs_view(result.primary_key@) == base@.primary_key,
            opt_str_view(result.migration_id) == delta@.migration_id,
            fks_view(result.foreign_keys@) == base@.foreign_keys,
        decreases delta.indexes@.len() - k,
    {
        proof {
            assert(didx[k as int] == delta.indexes@[k as int]@);
        }
        let keys = index_name_keys(&result.indexes);
        let dn = chars_of(delta.indexes[k].name.as_str());
        proof {
            lemma_last_pos(keys_view(keys@), dn@);
        }
        if last_pos_exec(&keys, &dn).is_none() {
            let ghost before = result.indexes@;
            result.indexes.push(delta.indexes[k].clone());
            proof {
                assert(indexes_view(result.indexes@) =~= indexes_view(before).push(didx[k as int]));
            }
        }
        k = k + 1;
    }
    let ghost dfk = fks_view(delta.foreign_keys@);
    let mut f: usize = 0;
    while f < delta.foreign_keys.len()
        invariant
            f <= delta.foreign_keys@.len(),
            dfk == fks_view(delta.foreign_keys@),
            fks_view(result.foreign_keys@) == merge_fks(base@.foreign_keys, dfk, f as int),
            dfk == delta@.foreign_keys,
            columns_view(result.columns@) == apply_delta_columns(base@.columns, dcols, dcols.len() as int),
            dcols == delta@.columns,
            result.name@ == base@.name,
            strs_view(result.primary_key@) == base@.primary_key,
            opt_str_view(result.migration_id) == delta@.migration_id,
            indexes_view(result.indexes@) == merge_indexes(base@.indexes, delta@.indexes, delta@.indexes.len() as int),
        decreases delta.foreign_keys@.len() - f,
    {
        proof {
            assert(dfk[f as int] == delta.foreign_keys@[f as int]@);
        }
        let keys = fk_column_keys(&result.foreign_keys);
        let dc = chars_of(delta.foreign_keys[f].column.as_str());
        if last_pos_exec(&keys, &dc).is_none() {
            let ghost before = result.foreign_keys@;
            result.foreign_keys.push(delta.foreign_keys[f].clone());
            proof {
                assert(fks_view(result.foreign_keys@) =~= fks_view(before).push(dfk[f as int]));
            }
        }
        f = f + 1;
    }
    proof {
        assert(result@.columns == columns_view(result.columns@));
        assert(result@ =~= delta_result(base@, delta@));
    }
    result
}

// ---------------------------------------------------------------------------
// Laws
// ---------------------------------------------------------------------------

/// No column of the table is marked for dropping or renaming.
pub open spec fn plain_columns(t: TableModel) -> bool {
    forall|i: int| 0 <= i < t.columns.len() ==> !(#[trigger] t.columns[i]).dropped && t.columns[i].renamed_from is None
}

proof fn lemma_has_self(keys: Seq<Seq<char>>, i: int)
    requires
        0 <= i < keys.len(),
        is_last(keys, i),
    ensures
        has_key(keys, keys[i]),
        last_pos(keys, keys[i]) == i,
{
    lemma_last_pos(keys, keys[i]);
}

proof fn lemma_flag_drops_none(tb: Seq<char>, tc: Seq<ColumnModel>, n: int)
    requires
        forall|i: int| 0 <= i < tc.len() ==> !(#[trigger] tc[i]).dropped,
    ensures
        flag_drop_ops(tb, tc, n) == Seq::<OpModel>::empty(),
    decreases n,
{
    if n > 0 && n <= tc.len() {
        lemma_flag_drops_none(tb, tc, n - 1);
    }
}

proof fn lemma_froms_none(tc: Seq<ColumnModel>, n: int)
    requires
        forall|i: int| 0 <= i < tc.len() ==> (#[trigger] tc[i]).renamed_from is None,
    ensures
        rename_froms(tc, n) == Seq::<Seq<char>>::empty(),
    decreases n,
{
    if n > 0 && n <= tc.len() {
        lemma_froms_none(tc, n - 1);
    }
}

proof fn lemma_adds_none(tb: Seq<char>, tc: Seq<ColumnModel>, n: int)
    ensures
        add_column_ops(tb, column_names(tc), tc, n) == Seq::<OpModel>::empty(),
    decreases n,
{
    if n > 0 && n <= tc.len() {
        lemma_adds_none(tb, tc, n - 1);
        if is_last(column_names(tc), n - 1) {
            lemma_has_self(column_names(tc), n - 1);
        }
    }
}

proof fn lemma_implicit_none(tb: Seq<char>, tc: Seq<ColumnModel>, froms: Seq<Seq<char>>, n: int)
    ensures
        implicit_drop_ops(tb, tc, tc, froms, n) == Seq::<OpModel>::empty(),
    decreases n,
{
    if n > 0 && n <= tc.len() {
        lemma_implicit_none(tb, tc, froms, n - 1);
        if is_last(column_names(tc), n - 1) {
            lemma_has_self(column_names(tc), n - 1);
        }
    }
}

proof fn lemma_alters_none(tb: Seq<char>, tc: Seq<ColumnModel>, n: int)
    ensures
        alter_ops(tb, tc, tc, n) == Seq::<OpModel>::empty(),
    decreases n,
{
    if n > 0 && n <= tc.len() {
        lemma_alters_none(tb, tc, n - 1);
        if is_last(column_names(tc), n - 1) {
            lemma_has_self(column_names(tc), n - 1);
        }
    }
}

proof fn lemma_index_diff_self(tb: Seq<char>, xs: Seq<IndexModel>)
    ensures
        index_diff(tb, xs, xs) == Seq::<OpModel>::empty(),
{
    lemma_new_index_none(tb, xs, xs.len() as int);
    lemma_dropped_index_none(tb, xs, xs.len() as int);
    lemma_changed_index_none(tb, xs, xs.len() as int);
}

proof fn lemma_new_index_none(tb: Seq<char>, xs: Seq<IndexModel>, n: int)
    ensures
        new_index_ops(tb, xs, xs, n) == Seq::<OpModel>::empty(),
    decreases n,
{
    if n > 0 && n <= xs.len() {
        lemma_new_index_none(tb, xs, n - 1);
        if is_last(index_names(xs), n - 1) {
            lemma_has_self(index_names(xs), n - 1);
        }
    }
}

proof fn lemma_dropped_index_none(tb: Seq<char>, xs: Seq<IndexModel>, n: int)
    ensures
        dropped_index_ops(tb, xs, xs, n) == Seq::<OpModel>::empty(),
    decreases n,
{
    if n > 0 && n <= xs.len() {
        lemma_dropped_index_none(tb, xs, n - 1);
        if is_last(index_names(xs), n - 1) {
            lemma_has_self(index_names(xs), n - 1);
        }
    }
}

proof fn lemma_changed_index_none(tb: Seq<char>, xs: Seq<IndexModel>, n: int)
    ensures
        changed_index_ops(tb, xs, xs, n) == Seq::<OpModel>::empty(),
    decreases n,
{
    if n > 0 && n <= xs.len() {
        lemma_changed_index_none(tb, xs, n - 1);
        if is_last(index_names(xs), n - 1) {
            lemma_has_self(index_names(xs), n - 1);
        }
    }
}

proof fn lemma_fk_diff_self(tb: Seq<char>, xs: Seq<ForeignKeyModel>)
    ensures
        fk_diff(tb, xs, xs) == Seq::<OpModel>::empty(),
{
    lemma_new_fk_none(tb, xs, xs.len() as int);
    lemma_dropped_fk_none(tb, xs, xs.len() as int);
    lemma_changed_fk_none(tb, xs, xs.len() as int);
}

proof fn lemma_new_fk_none(tb: Seq<char>, xs: Seq<ForeignKeyModel>, n: int)
    ensures
        new_fk_ops(tb, xs, xs, n) == Seq::<OpModel>::empty(),
    decreases n,
{
    if n > 0 && n <= xs.len() {
        lemma_new_fk_none(tb, xs, n - 1);
        if is_last(fk_columns(xs), n - 1) {
            lemma_has_self(fk_columns(xs), n - 1);
        }
    }
}

proof fn lemma_dropped_fk_none(tb: Seq<char>, xs: Seq<ForeignKeyModel>, n: int)
    ensures
        dropped_fk_ops(tb, xs, xs, n) == Seq::<OpModel>::empty(),
    decreases n,
{
    if n > 0 && n <= xs.len() {
        lemma_dropped_fk_none(tb, xs, n - 1);
        if is_last(fk_columns(xs), n - 1) {
            lemma_has_self(fk_columns(xs), n - 1);
        }
    }
}

proof fn lemma_changed_fk_none(tb: Seq<char>, xs: Seq<ForeignKeyModel>, n: int)
    ensures
        changed_fk_ops(tb, xs, xs, n) == Seq::<OpModel>::empty(),
    decreases n,
{
    if n > 0 && n <= xs.len() {
        lemma_changed_fk_none(tb, xs, n - 1);
        if is_last(fk_columns(xs), n - 1) {
            lemma_has_self(fk_columns(xs), n - 1);
        }
    }
}

/// A table compared with itself needs no operations, when none of its
/// columns is marked for dropping or renaming.
pub proof fn law_table_diff_self_is_empty(t: TableModel)
    requires
        plain_columns(t),
    ensures
        table_diff(t, t) == Seq::<OpModel>::empty(),
{
    let tc = t.columns;
    lemma_flag_drops_none(t.name, tc, tc.len() as int);
    lemma_froms_none(tc, tc.len() as int);
    lemma_adds_none(t.name, tc, tc.len() as int);
    lemma_implicit_none(t.name, tc, rename_froms(tc, tc.len() as int), tc.len() as int);
    lemma_alters_none(t.name, tc, tc.len() as int);
    lemma_index_diff_self(t.name, t.indexes);
    lemma_fk_diff_self(t.name, t.foreign_keys);
    assert(table_diff(t, t) =~= Seq::<OpModel>::empty());
}

proof fn lemma_create_none(x: Seq<TableModel>, n: int)
    ensures
        create_table_ops(x, x, n) == Seq::<OpModel>::empty(),
    decreases n,
{
    if n > 0 && n <= x.len() {
        lemma_create_none(x, n - 1);
        if is_last(table_names(x), n - 1) {
            lemma_has_self(table_names(x), n - 1);
        }
    }
}

proof fn lemma_drop_none(x: Seq<TableModel>, n: int)
    ensures
        drop_table_ops(x, x, n) == Seq::<OpModel>::empty(),
    decreases n,
{
    if n > 0 && n <= x.len() {
        lemma_drop_none(x, n - 1);
        if is_last(table_names(x), n - 1) {
            lemma_has_self(table_names(x), n - 1);
        }
    }
}

proof fn lemma_modify_none(x: Seq<TableModel>, n: int)
    requires
        forall|i: int| 0 <= i < x.len() ==> plain_columns(#[trigger] x[i]),
    ensures
        modify_table_ops(x, x, n) == Seq::<OpModel>::empty(),
    decreases n,
{
    if n > 0 && n <= x.len() {
        lemma_modify_none(x, n - 1);
        if is_last(table_names(x), n - 1) {
            lemma_has_self(table_names(x), n - 1);
            law_table_diff_self_is_empty(x[n - 1]);
            assert(Seq::<OpModel>::empty() + Seq::<OpModel>::empty() =~= Seq::<OpModel>::empty());
        }
    }
}

/// Diffing a schema against itself yields no operations, when no column is
/// marked for dropping or renaming.
pub proof fn law_diff_of_identical_schemas_is_empty(x: Seq<TableModel>)
    requires
        forall|i: int| 0 <= i < x.len() ==> plain_columns(#[trigger] x[i]),
    ensures
        schema_diff(x, x) == Seq::<OpModel>::empty(),
{
    lemma_create_none(x, x.len() as int);
    lemma_drop_none(x, x.len() as int);
    lemma_modify_none(x, x.len() as int);
    let e = Seq::<OpModel>::empty();
    assert(e + e + e =~= e);
    lemma_by_rank_empty(e, 10);
    assert(ordered_ops(e) =~= e);
}

/// A delta without columns, indexes or foreign keys leaves the base table
/// unchanged except for taking the delta's migration id.
pub proof fn law_empty_delta_keeps_base(base: TableModel, delta: TableModel)
    requires
        delta.columns.len() == 0,
        delta.indexes.len() == 0,
        delta.foreign_keys.len() == 0,
    ensures
        delta_result(base, delta) == (TableModel { migration_id: delta.migration_id, ..base }),
{
}

} // verus!
