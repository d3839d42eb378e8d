//! Query-building vocabulary: soft-delete modes, the typestate markers that
//! track how far a query has been built, the introspectable query state, sort
//! directions and filter operators.

use vstd::prelude::*;

use crate::text::{chars_of, contains, has_sub, spec_lowercase, to_lowercase_chars};

verus! {

/// A database error's message reports a unique-constraint violation: its
/// lowercase form mentions one of the phrases SQLite, PostgreSQL and MySQL use.
pub open spec fn unique_violation_text(msg: Seq<char>) -> bool {
    let lower = spec_lowercase(msg);
    has_sub(lower, "unique constraint"@) || has_sub(lower, "duplicate key"@) || has_sub(
        lower,
        "duplicate entry"@,
    ) || has_sub(lower, "unique violation"@) || has_sub(lower, "constraint failed"@)
}

fn mentions(lower: &Vec<char>, phrase: &str) -> (res: bool)
    ensures
        res == has_sub(lower@, phrase@),
{
    let p = chars_of(phrase);
    contains(lower, &p)
}

/// Check if a database error (given by its message) is a unique constraint
/// violation, so that `get_or_create` can detect a race and retry.
///
/// This is a heuristic check that works across `SQLite`, `PostgreSQL`, and `MySQL`.
pub fn is_unique_violation(message: &str) -> (res: bool)
    ensures
        res == unique_violation_text(message@),
{
    let chars = chars_of(message);
    let lower = to_lowercase_chars(&chars);
    mentions(&lower, "unique constraint") || mentions(&lower, "duplicate key") || mentions(&lower, "duplicate entry")
        || mentions(&lower, "unique violation") || mentions(&lower, "constraint failed")
}

/// Whether `get_or_create` tries again after the insert of attempt `attempt`
/// (counted from 0, of three) failed with the error text `message`: only when
/// another transaction inserted the row first (a unique violation), and only
/// while an attempt remains; otherwise the error is returned.
pub fn get_or_create_retries(attempt: u32, message: &str) -> (res: bool)
    ensures
        res == (unique_violation_text(message@) && attempt < 2),
{
    attempt < 2 && is_unique_violation(message)
}

/// Soft delete filtering mode
#[derive(Clone, Copy, Debug, PartialEq, Eq, Structural)]
pub enum SoftDeleteMode {
    /// Exclude soft-deleted records (default)
    ExcludeDeleted,
    /// Include all records (deleted and not deleted)
    IncludeDeleted,
    /// Only show soft-deleted records
    OnlyDeleted,
}

// ---------------------------------------------------------------------------
// Typestate markers: zero-sized types for compile-time state tracking
// ---------------------------------------------------------------------------

/// Marker trait for all valid QuerySet states
pub trait QuerySetState: Clone + Copy + Default + std::fmt::Debug {}

/// Fresh state - initial QuerySet, no operations applied
#[derive(Clone, Copy, Debug, Default, PartialEq, Eq, Structural)]
pub struct Fresh;

impl QuerySetState for Fresh {}

/// Filtered state - has filter/exclude operations
#[derive(Clone, Copy, Debug, Default, PartialEq, Eq, Structural)]
pub struct Filtered;

impl QuerySetState for Filtered {}

/// Ordered state - has ordering applied
#[derive(Clone, Copy, Debug, Default, PartialEq, Eq, Structural)]
pub struct Ordered;

impl QuerySetState for Ordered {}

/// Paginated state - has limit/offset applied
#[derive(Clone, Copy, Debug, Default, PartialEq, Eq, Structural)]
pub struct Paginated;

impl QuerySetState for Paginated {}

/// Grouped state - has GROUP BY applied, ready for annotations
#[derive(Clone, Copy, Debug, Default, PartialEq, Eq, Structural)]
pub struct Grouped;

impl QuerySetState for Grouped {}

/// Aggregated state - has aggregations/annotations
#[derive(Clone, Copy, Debug, Default, PartialEq, Eq, Structural)]
pub struct Aggregated;

impl QuerySetState for Aggregated {}

/// Marker trait for states that can add filters
pub trait CanFilter: QuerySetState {}

impl CanFilter for Fresh {}

impl CanFilter for Filtered {}

/// Marker trait for states that can add ordering
pub trait CanOrder: QuerySetState {}

impl CanOrder for Fresh {}

impl CanOrder for Filtered {}

impl CanOrder for Ordered {}

/// Marker trait for states that can add pagination
pub trait CanPaginate: QuerySetState {}

impl CanPaginate for Fresh {}

impl CanPaginate for Filtered {}

impl CanPaginate for Ordered {}

impl CanPaginate for Paginated {}

/// Marker trait for states that can add GROUP BY
pub trait CanGroup: QuerySetState {}

impl CanGroup for Fresh {}

impl CanGroup for Filtered {}

/// Marker trait for states that can add annotations (aggregations)
pub trait CanAnnotate: QuerySetState {}

impl CanAnnotate for Fresh {}

impl CanAnnotate for Filtered {}

impl CanAnnotate for Grouped {}

/// Marker trait for states that can execute queries
pub trait CanExecute: QuerySetState {}

impl CanExecute for Fresh {}

impl CanExecute for Filtered {}

impl CanExecute for Ordered {}

impl CanExecute for Paginated {}

impl CanExecute for Grouped {}

impl CanExecute for Aggregated {}

// ---------------------------------------------------------------------------
// Query building state for introspection
// ---------------------------------------------------------------------------

/// Query building state for introspection
#[derive(Debug, Clone, Copy, PartialEq, Eq, Structural)]
pub enum QueryState {
    /// Initial state - no operations applied
    Fresh,
    /// Has filter/exclude operations
    Filtered,
    /// Has ordering applied
    Ordered,
    /// Has pagination (limit/offset)
    Paginated,
    /// Has aggregations/annotations
    Aggregated,
    /// Query has been executed
    Executed,
}

impl Default for QueryState {
    fn default() -> (res: Self)
        ensures
            res == QueryState::Fresh,
    {
        QueryState::Fresh
    }
}

/// The state after a filter is added: a fresh query becomes filtered.
pub open spec fn after_filter(s: QueryState) -> QueryState {
    if s == QueryState::Fresh {
        QueryState::Filtered
    } else {
        s
    }
}

/// The state after ordering is added: a fresh or filtered query becomes ordered.
pub open spec fn after_order(s: QueryState) -> QueryState {
    if s == QueryState::Fresh || s == QueryState::Filtered {
        QueryState::Ordered
    } else {
        s
    }
}

/// The state after pagination: anything not aggregated or executed becomes paginated.
pub open spec fn after_paginate(s: QueryState) -> QueryState {
    if s == QueryState::Aggregated || s == QueryState::Executed {
        s
    } else {
        QueryState::Paginated
    }
}

impl QueryState {
    /// Check if query is in fresh state
    pub fn is_fresh(&self) -> (res: bool)
        ensures
            res == (*self == QueryState::Fresh),
    {
        match self {
            QueryState::Fresh => true,
            _ => false,
        }
    }

    /// Check if query has filters
    pub fn is_filtered(&self) -> (res: bool)
        ensures
            res == (*self == QueryState::Filtered || *self == QueryState::Ordered || *self
                == QueryState::Paginated || *self == QueryState::Aggregated),
    {
        match self {
            QueryState::Filtered => true,
            QueryState::Ordered => true,
            QueryState::Paginated => true,
            QueryState::Aggregated => true,
            _ => false,
        }
    }

    /// Check if query has ordering
    pub fn is_ordered(&self) -> (res: bool)
        ensures
            res == (*self == QueryState::Ordered || *self == QueryState::Paginated),
    {
        match self {
            QueryState::Ordered => true,
            QueryState::Paginated => true,
            _ => false,
        }
    }

    /// Check if query has pagination
    pub fn is_paginated(&self) -> (res: bool)
        ensures
            res == (*self == QueryState::Paginated),
    {
        match self {
            QueryState::Paginated => true,
            _ => false,
        }
    }

    /// Check if query has aggregations
    pub fn is_aggregated(&self) -> (res: bool)
        ensures
            res == (*self == QueryState::Aggregated),
    {
        match self {
            QueryState::Aggregated => true,
            _ => false,
        }
    }

    /// Check if query has been executed
    pub fn is_executed(&self) -> (res: bool)
        ensures
            res == (*self == QueryState::Executed),
    {
        match self {
            QueryState::Executed => true,
            _ => false,
        }
    }

    /// Transition to filtered state
    pub fn filter(&mut self)
        ensures
            *final(self) == after_filter(*old(self)),
    {
        if *self == QueryState::Fresh {
            *self = QueryState::Filtered;
        }
    }

    /// Transition to ordered state
    pub fn order(&mut self)
        ensures
            *final(self) == after_order(*old(self)),
    {
        if *self == QueryState::Fresh || *self == QueryState::Filtered {
            *self = QueryState::Ordered;
        }
    }

    /// Transition to paginated state
    pub fn paginate(&mut self)
        ensures
            *final(self) == after_paginate(*old(self)),
    {
        if !(*self == QueryState::Aggregated || *self == QueryState::Executed) {
            *self = QueryState::Paginated;
        }
    }

    /// Transition to aggregated state
    pub fn aggregate(&mut self)
        ensures
            *final(self) == QueryState::Aggregated,
    {
        *self = QueryState::Aggregated;
    }

    /// Transition to executed state
    pub fn execute(&mut self)
        ensures
            *final(self) == QueryState::Executed,
    {
        *self = QueryState::Executed;
    }
}

/// Repeating a transition changes nothing: filtering, ordering and paginating
/// twice leave the query in the same state as doing it once.
pub proof fn law_query_transitions_idempotent(s: QueryState)
    ensures
        after_filter(after_filter(s)) == after_filter(s),
        after_order(after_order(s)) == after_order(s),
        after_paginate(after_paginate(s)) == after_paginate(s),
{
}

/// An executed query stays executed, and an aggregated one stays aggregated,
/// whatever filter, ordering or pagination is added afterwards.
pub proof fn law_finished_queries_stay_finished(s: QueryState)
    requires
        s == QueryState::Executed || s == QueryState::Aggregated,
    ensures
        after_filter(s) == s,
        after_order(s) == s,
        after_paginate(s) == s,
{
}

/// Order direction for sorting
#[derive(Debug, Clone, Copy, PartialEq, Eq, Structural)]
pub enum OrderDirection {
    /// Ascending order (ASC)
    Asc,
    /// Descending order (DESC)
    Desc,
}

// ---------------------------------------------------------------------------
// Filter operators
// ---------------------------------------------------------------------------

/// Filter operation type for typed, inspectable filter expressions
#[derive(Debug, Clone, Copy, PartialEq, Eq, Structural)]
pub enum FilterOp {
    /// Equality: column = value
    Eq,
    /// Not equal: column != value
    Ne,
    /// Less than: column < value
    Lt,
    /// Less than or equal: column <= value
    Lte,
    /// Greater than: column > value
    Gt,
    /// Greater than or equal: column >= value
    Gte,
    /// LIKE pattern match
    Like,
    /// NOT LIKE pattern match
    NotLike,
    /// IN list of values
    In,
    /// NOT IN list of values
    NotIn,
    /// IS NULL check
    IsNull,
    /// IS NOT NULL check
    IsNotNull,
    /// BETWEEN two values
    Between,
    /// String contains (LIKE %value%)
    Contains,
    /// String starts with (LIKE value%)
    StartsWith,
    /// String ends with (LIKE %value)
    EndsWith,
}

/// The SQL operator of a filter operation.
pub open spec fn filter_op_sql(op: FilterOp) -> Seq<char> {
    match op {
        FilterOp::Eq => "="@,
        FilterOp::Ne => "!="@,
        FilterOp::Lt => "<"@,
        FilterOp::Lte => "<="@,
        FilterOp::Gt => ">"@,
        FilterOp::Gte => ">="@,
        FilterOp::Like | FilterOp::Contains | FilterOp::StartsWith | FilterOp::EndsWith => "LIKE"@,
        FilterOp::NotLike => "NOT LIKE"@,
        FilterOp::In => "IN"@,
        FilterOp::NotIn => "NOT IN"@,
        FilterOp::IsNull => "IS NULL"@,
        FilterOp::IsNotNull => "IS NOT NULL"@,
        FilterOp::Between => "BETWEEN"@,
    }
}

pub open spec fn op_is_comparison(op: FilterOp) -> bool {
    op is Eq || op is Ne || op is Lt || op is Lte || op is Gt || op is Gte
}

pub open spec fn op_is_string(op: FilterOp) -> bool {
    op is Like || op is NotLike || op is Contains || op is StartsWith || op is EndsWith
}

pub open spec fn op_is_null_check(op: FilterOp) -> bool {
    op is IsNull || op is IsNotNull
}

impl FilterOp {
    /// Get the SQL operator representation
    pub fn sql_operator(&self) -> (res: &'static str)
        ensures
            res@ == filter_op_sql(*self),
    {
        match self {
            FilterOp::Eq => "=",
            FilterOp::Ne => "!=",
            FilterOp::Lt => "<",
            FilterOp::Lte => "<=",
            FilterOp::Gt => ">",
            FilterOp::Gte => ">=",
            FilterOp::Like | FilterOp::Contains | FilterOp::StartsWith | FilterOp::EndsWith => "LIKE",
            FilterOp::NotLike => "NOT LIKE",
            FilterOp::In => "IN",
            FilterOp::NotIn => "NOT IN",
            FilterOp::IsNull => "IS NULL",
            FilterOp::IsNotNull => "IS NOT NULL",
            FilterOp::Between => "BETWEEN",
        }
    }

    /// Check if this is a comparison operation
    pub fn is_comparison(&self) -> (res: bool)
        ensures
            res == op_is_comparison(*self),
    {
        match self {
            FilterOp::Eq | FilterOp::Ne | FilterOp::Lt | FilterOp::Lte | FilterOp::Gt | FilterOp::Gte => true,
            _ => false,
        }
    }

    /// Check if this is a string operation
    pub fn is_string_op(&self) -> (res: bool)
        ensures
            res == op_is_string(*self),
    {
        match self {
            FilterOp::Like | FilterOp::NotLike | FilterOp::Contains | FilterOp::StartsWith
            | FilterOp::EndsWith => true,
            _ => false,
        }
    }

    /// Check if this is a null check
    pub fn is_null_check(&self) -> (res: bool)
        ensures
            res == op_is_null_check(*self),
    {
        match self {
            FilterOp::IsNull | FilterOp::IsNotNull => true,
            _ => false,
        }
    }
}

/// No filter operation belongs to two of the classes comparison, string
/// operation and null check.
pub proof fn law_filter_op_classes_disjoint(op: FilterOp)
    ensures
        !(op_is_comparison(op) && op_is_string(op)),
        !(op_is_comparison(op) && op_is_null_check(op)),
        !(op_is_string(op) && op_is_null_check(op)),
{
}

// ---------------------------------------------------------------------------
// Filter expressions
// ---------------------------------------------------------------------------

/// Filter expression - an introspectable representation of query filters.
/// A column is named as the query names it, a value by its text, and a raw
/// expression by its SQL text.
#[derive(Debug)]
pub enum FilterExpr {
    /// AND combination of multiple conditions
    And(Vec<FilterExpr>),
    /// OR combination of multiple conditions
    Or(Vec<FilterExpr>),
    /// NOT (negation) of a condition
    Not(Box<FilterExpr>),
    /// Typed filter operation with column name and operation type
    Typed {
        /// Column name being filtered
        column: String,
        /// The filter operation
        op: FilterOp,
        /// String representation of the value (for introspection)
        value_repr: String,
    },
    /// A raw expression, by its SQL text
    Raw(String),
}

/// The typed filter on `column` with operation `op` and value text `v`.
pub open spec fn is_typed_filter(e: FilterExpr, column: Seq<char>, op: FilterOp, v: Seq<char>) -> bool {
    e matches FilterExpr::Typed { column: c, op: o, value_repr: r } && c@ == column && o == op && r@ == v
}

impl FilterExpr {
    /// Create an AND combination of filters
    pub fn and(filters: Vec<FilterExpr>) -> (res: Self)
        ensures
            res == FilterExpr::And(filters),
    {
        FilterExpr::And(filters)
    }

    /// Create an OR combination of filters
    pub fn or(filters: Vec<FilterExpr>) -> (res: Self)
        ensures
            res == FilterExpr::Or(filters),
    {
        FilterExpr::Or(filters)
    }

    /// Negate this filter expression
    pub fn not(self) -> (res: Self)
        ensures
            res == FilterExpr::Not(Box::new(self)),
    {
        FilterExpr::Not(Box::new(self))
    }

    /// Create from a raw SQL expression (for compatibility)
    pub fn raw(expr: &str) -> (res: Self)
        ensures
            res matches FilterExpr::Raw(t) && t@ == expr@,
    {
        FilterExpr::Raw(String::from_str(expr))
    }

    /// Create a typed filter expression
    fn typed(column: &str, op: FilterOp, value_repr: &str) -> (res: Self)
        ensures
            is_typed_filter(res, column@, op, value_repr@),
    {
        FilterExpr::Typed { column: String::from_str(column), op, value_repr: String::from_str(value_repr) }
    }

    /// Create equality filter: column = value
    pub fn eq(column: &str, value_repr: &str) -> (res: Self)
        ensures
            is_typed_filter(res, column@, FilterOp::Eq, value_repr@),
    {
        Self::typed(column, FilterOp::Eq, value_repr)
    }

    /// Create not-equal filter: column != value
    pub fn ne(column: &str, value_repr: &str) -> (res: Self)
        ensures
            is_typed_filter(res, column@, FilterOp::Ne, value_repr@),
    {
        Self::typed(column, FilterOp::Ne, value_repr)
    }

    /// Create less-than filter: column < value
    pub fn lt(column: &str, value_repr: &str) -> (res: Self)
        ensures
            is_typed_filter(res, column@, FilterOp::Lt, value_repr@),
    {
        Self::typed(column, FilterOp::Lt, value_repr)
    }

    /// Create less-than-or-equal filter: column <= value
    pub fn lte(column: &str, value_repr: &str) -> (res: Self)
        ensures
            is_typed_filter(res, column@, FilterOp::Lte, value_repr@),
    {
        Self::typed(column, FilterOp::Lte, value_repr)
    }

    /// Create greater-than filter: column > value
    pub fn gt(column: &str, value_repr: &str) -> (res: Self)
        ensures
            is_typed_filter(res, column@, FilterOp::Gt, value_repr@),
    {
        Self::typed(column, FilterOp::Gt, value_repr)
    }

    /// Create greater-than-or-equal filter: column >= value
    pub fn gte(column: &str, value_repr: &str) -> (res: Self)
        ensures
            is_typed_filter(res, column@, FilterOp::Gte, value_repr@),
    {
        Self::typed(column, FilterOp::Gte, value_repr)
    }

    /// Create IS NULL filter
    pub fn is_null(column: &str) -> (res: Self)
        ensures
            is_typed_filter(res, column@, FilterOp::IsNull, "NULL"@),
    {
        Self::typed(column, FilterOp::IsNull, "NULL")
    }

    /// Create IS NOT NULL filter
    pub fn is_not_null(column: &str) -> (res: Self)
        ensures
            is_typed_filter(res, column@, FilterOp::IsNotNull, "NOT NULL"@),
    {
        Self::typed(column, FilterOp::IsNotNull, "NOT NULL")
    }

    /// Check if this is an AND expression
    pub fn is_and(&self) -> (res: bool)
        ensures
            res == (*self is And),
    {
        match self {
            FilterExpr::And(_) => true,
            _ => false,
        }
    }

    /// Check if this is an OR expression
    pub fn is_or(&self) -> (res: bool)
        ensures
            res == (*self is Or),
    {
        match self {
            FilterExpr::Or(_) => true,
            _ => false,
        }
    }

    /// Check if this is a NOT expression
    pub fn is_not(&self) -> (res: bool)
        ensures
            res == (*self is Not),
    {
        match self {
            FilterExpr::Not(_) => true,
            _ => false,
        }
    }

    /// Check if this is a typed filter expression
    pub fn is_typed(&self) -> (res: bool)
        ensures
            res == (*self is Typed),
    {
        match self {
            FilterExpr::Typed { .. } => true,
            _ => false,
        }
    }

    /// Check if this is a raw expression
    pub fn is_raw(&self) -> (res: bool)
        ensures
            res == (*self is Raw),
    {
        match self {
            FilterExpr::Raw(_) => true,
            _ => false,
        }
    }

    /// Get the filter operation if this is a typed filter
    pub fn get_op(&self) -> (res: Option<&FilterOp>)
        ensures
            match *self {
                FilterExpr::Typed { op, .. } => res == Some(&op),
                _ => res is None,
            },
    {
        match self {
            FilterExpr::Typed { op, .. } => Some(op),
            _ => None,
        }
    }

    /// Get the column name if this is a typed filter
    pub fn get_column(&self) -> (res: Option<&str>)
        ensures
            match *self {
                FilterExpr::Typed { column, .. } => res matches Some(c) && c@ == column@,
                _ => res is None,
            },
    {
        match self {
            FilterExpr::Typed { column, .. } => Some(column.as_str()),
            _ => None,
        }
    }

    /// Get the value representation if this is a typed filter
    pub fn get_value_repr(&self) -> (res: Option<&str>)
        ensures
            match *self {
                FilterExpr::Typed { value_repr, .. } => res matches Some(v) && v@ == value_repr@,
                _ => res is None,
            },
    {
        match self {
            FilterExpr::Typed { value_repr, .. } => Some(value_repr.as_str()),
            _ => None,
        }
    }
}

// ---------------------------------------------------------------------------
// Q objects
// ---------------------------------------------------------------------------

/// A composite filter, Django's `Q`: conditions joined by AND (`all`) or by
/// OR (`any`), the whole possibly negated. Conditions are filter expressions;
/// a nested `Q` enters as the expression it stands for.
pub struct Q {
    any: bool,
    negated: bool,
    conditions: Vec<FilterExpr>,
}

/// A `Q` as plain values: whether it joins by OR, whether it is negated, and
/// its conditions in the order they were added.
pub struct QModel {
    pub any: bool,
    pub negated: bool,
    pub conditions: Seq<FilterExpr>,
}

impl View for Q {
    type V = QModel;

    closed spec fn view(&self) -> QModel {
        QModel { any: self.any, negated: self.negated, conditions: self.conditions@ }
    }
}

/// The same `Q` with its negation flipped.
pub open spec fn q_negated(m: QModel) -> QModel {
    QModel { negated: !m.negated, ..m }
}

/// The expression that joins a `Q`'s conditions, before negation.
pub open spec fn q_joins(m: QModel, e: FilterExpr) -> bool {
    if m.any {
        e matches FilterExpr::Or(v) && v@ == m.conditions
    } else {
        e matches FilterExpr::And(v) && v@ == m.conditions
    }
}

/// The filter expression a `Q` stands for: its conditions joined by AND or
/// OR, inside a NOT when it is negated.
pub open spec fn q_filter(m: QModel, e: FilterExpr) -> bool {
    if m.negated {
        e matches FilterExpr::Not(b) && q_joins(m, *b)
    } else {
        q_joins(m, e)
    }
}

impl Q {
    /// Create a Q object with ALL conditions (AND logic)
    pub fn all() -> (res: Self)
        ensures
            res@ == (QModel { any: false, negated: false, conditions: Seq::empty() }),
    {
        Q { any: false, negated: false, conditions: Vec::new() }
    }

    /// Create a Q object with ANY conditions (OR logic)
    pub fn any() -> (res: Self)
        ensures
            res@ == (QModel { any: true, negated: false, conditions: Seq::empty() }),
    {
        Q { any: true, negated: false, conditions: Vec::new() }
    }

    /// Add a condition to this Q object
    pub fn add(self, expr: FilterExpr) -> (res: Self)
        ensures
            res@ == (QModel { conditions: self@.conditions.push(expr), ..self@ }),
    {
        let mut q = self;
        q.conditions.push(expr);
        q
    }

    /// Add another Q object as one condition of this one
    pub fn add_q(self, other: Q) -> (res: Self)
        ensures
            res@.any == self@.any,
            res@.negated == self@.negated,
            res@.conditions.len() == self@.conditions.len() + 1,
            res@.conditions.drop_last() == self@.conditions,
            q_filter(other@, res@.conditions.last()),
    {
        let e = other.into_filter();
        let q = self.add(e);
        proof {
            assert(q@.conditions.drop_last() =~= self@.conditions);
        }
        q
    }

    /// Negate this Q object (Django's `~Q()`)
    pub fn not(self) -> (res: Self)
        ensures
            res@ == q_negated(self@),
    {
        let mut q = self;
        q.negated = !q.negated;
        q
    }

    /// The filter expression this Q object stands for
    pub fn into_filter(self) -> (res: FilterExpr)
        ensures
            q_filter(self@, res),
    {
        let joined = if self.any {
            FilterExpr::Or(self.conditions)
        } else {
            FilterExpr::And(self.conditions)
        };
        if self.negated {
            FilterExpr::Not(Box::new(joined))
        } else {
            joined
        }
    }
}

/// Whether a filter holds of a row, where `atom` says which typed and raw
/// conditions hold of it: AND needs all of its parts, OR one of them, and NOT
/// holds where its part does not.
pub open spec fn filter_holds(e: FilterExpr, atom: spec_fn(FilterExpr) -> bool) -> bool
    decreases e,
{
    match e {
        FilterExpr::And(v) => forall|i: int| 0 <= i < v@.len() ==> filter_holds(#[trigger] v@[i], atom),
        FilterExpr::Or(v) => exists|i: int| 0 <= i < v@.len() && filter_holds(#[trigger] v@[i], atom),
        FilterExpr::Not(b) => !filter_holds(*b, atom),
        _ => atom(e),
    }
}

proof fn lemma_joins_agree(m: QModel, x: FilterExpr, y: FilterExpr, atom: spec_fn(FilterExpr) -> bool)
    requires
        q_joins(m, x),
        q_joins(m, y),
    ensures
        filter_holds(x, atom) == filter_holds(y, atom),
{
    match (x, y) {
        (FilterExpr::And(v), FilterExpr::And(w)) => {
            assert(v@ == w@);
        },
        (FilterExpr::Or(v), FilterExpr::Or(w)) => {
            assert(v@ == w@);
            if filter_holds(x, atom) {
                let i = choose|i: int| 0 <= i < v@.len() && filter_holds(#[trigger] v@[i], atom);
                assert(filter_holds(w@[i], atom));
            }
            if filter_holds(y, atom) {
                let i = choose|i: int| 0 <= i < w@.len() && filter_holds(#[trigger] w@[i], atom);
                assert(filter_holds(v@[i], atom));
            }
        },
        _ => {},
    }
}

/// Negating a `Q` negates what it matches: whatever the conditions say of a
/// row, the row matches the filter of `q.not()` exactly when it does not
/// match the filter of `q`.
pub proof fn law_q_not_negates(m: QModel, e: FilterExpr, ne: FilterExpr, atom: spec_fn(FilterExpr) -> bool)
    requires
        q_filter(m, e),
        q_filter(q_negated(m), ne),
    ensures
        filter_holds(ne, atom) == !filter_holds(e, atom),
{
    let n = q_negated(m);
    if m.negated {
        let b = e->Not_0;
        assert(q_joins(n, ne));
        assert(q_joins(n, *b));
        lemma_joins_agree(n, ne, *b, atom);
    } else {
        let b = ne->Not_0;
        assert(q_joins(m, *b));
        lemma_joins_agree(m, e, *b, atom);
    }
}

/// Negating a `Q` twice gives back the same `Q`.
pub proof fn law_q_double_negation(m: QModel)
    ensures
        q_negated(q_negated(m)) == m,
{
}


// ---------------------------------------------------------------------------
// Aggregations
// ---------------------------------------------------------------------------

/// Aggregation expression for `annotate()`, over columns named as the query
/// names them.
#[derive(Debug, Clone, PartialEq, Eq)]
pub enum Aggregation {
    /// COUNT(*) - Count all rows
    CountAll,
    /// COUNT(column) - Count non-NULL values
    Count(String),
    /// SUM(column) - Sum of numeric values
    Sum(String),
    /// AVG(column) - Average of numeric values
    Avg(String),
    /// MAX(column) - Maximum value
    Max(String),
    /// MIN(column) - Minimum value
    Min(String),
}

impl Aggregation {
    /// COUNT(*) - Count all rows
    pub fn count_all() -> (res: Self)
        ensures
            res is CountAll,
    {
        Aggregation::CountAll
    }

    /// COUNT(column) - Count non-NULL values in column
    pub fn count(column: &str) -> (res: Self)
        ensures
            res matches Aggregation::Count(c) && c@ == column@,
    {
        Aggregation::Count(String::from_str(column))
    }

    /// SUM(column) - Sum of numeric column
    pub fn sum(column: &str) -> (res: Self)
        ensures
            res matches Aggregation::Sum(c) && c@ == column@,
    {
        Aggregation::Sum(String::from_str(column))
    }

    /// AVG(column) - Average of numeric column
    pub fn avg(column: &str) -> (res: Self)
        ensures
            res matches Aggregation::Avg(c) && c@ == column@,
    {
        Aggregation::Avg(String::from_str(column))
    }

    /// MAX(column) - Maximum value
    pub fn max(column: &str) -> (res: Self)
        ensures
            res matches Aggregation::Max(c) && c@ == column@,
    {
        Aggregation::Max(String::from_str(column))
    }

    /// MIN(column) - Minimum value
    pub fn min(column: &str) -> (res: Self)
        ensures
            res matches Aggregation::Min(c) && c@ == column@,
    {
        Aggregation::Min(String::from_str(column))
    }
}

// ---------------------------------------------------------------------------
// Query operations and plans
// ---------------------------------------------------------------------------

/// Represents a single query operation - fully introspectable
#[derive(Debug)]
pub enum QueryOp {
    /// Filter condition (WHERE clause)
    Filter(FilterExpr),
    /// Exclusion condition (WHERE NOT clause)
    Exclude(FilterExpr),
    /// Order by column with direction
    OrderBy {
        /// Column for ordering
        column: String,
        /// Sort direction
        direction: OrderDirection,
    },
    /// Limit number of results
    Limit(u64),
    /// Offset for pagination
    Offset(u64),
    /// DISTINCT clause
    Distinct,
    /// GROUP BY clause
    GroupBy(String),
    /// Soft delete mode
    SoftDelete(SoftDeleteMode),
    /// Annotation (aggregate expression with alias)
    Annotate {
        /// Alias for the aggregation result
        alias: String,
        /// Aggregation expression
        aggregation: Aggregation,
    },
}

impl QueryOp {
    /// Create a filter operation
    pub fn filter(expr: FilterExpr) -> (res: Self)
        ensures
            res == QueryOp::Filter(expr),
    {
        QueryOp::Filter(expr)
    }

    /// Create an exclude operation
    pub fn exclude(expr: FilterExpr) -> (res: Self)
        ensures
            res == QueryOp::Exclude(expr),
    {
        QueryOp::Exclude(expr)
    }

    /// Create an order by ascending operation
    pub fn order_asc(column: &str) -> (res: Self)
        ensures
            res matches QueryOp::OrderBy { column: c, direction: OrderDirection::Asc } && c@ == column@,
    {
        QueryOp::OrderBy { column: String::from_str(column), direction: OrderDirection::Asc }
    }

    /// Create an order by descending operation
    pub fn order_desc(column: &str) -> (res: Self)
        ensures
            res matches QueryOp::OrderBy { column: c, direction: OrderDirection::Desc } && c@ == column@,
    {
        QueryOp::OrderBy { column: String::from_str(column), direction: OrderDirection::Desc }
    }

    /// Create a limit operation
    pub fn limit(n: u64) -> (res: Self)
        ensures
            res == QueryOp::Limit(n),
    {
        QueryOp::Limit(n)
    }

    /// Create an offset operation
    pub fn offset(n: u64) -> (res: Self)
        ensures
            res == QueryOp::Offset(n),
    {
        QueryOp::Offset(n)
    }

    /// Create a distinct operation
    pub fn distinct() -> (res: Self)
        ensures
            res is Distinct,
    {
        QueryOp::Distinct
    }

    /// Create a group by operation
    pub fn group_by(column: &str) -> (res: Self)
        ensures
            res matches QueryOp::GroupBy(c) && c@ == column@,
    {
        QueryOp::GroupBy(String::from_str(column))
    }

    /// Check if this is a filter operation
    pub fn is_filter(&self) -> (res: bool)
        ensures
            res == (*self is Filter),
    {
        match self {
            QueryOp::Filter(_) => true,
            _ => false,
        }
    }

    /// Check if this is an exclude operation
    pub fn is_exclude(&self) -> (res: bool)
        ensures
            res == (*self is Exclude),
    {
        match self {
            QueryOp::Exclude(_) => true,
            _ => false,
        }
    }

    /// Check if this is an order by operation
    pub fn is_order_by(&self) -> (res: bool)
        ensures
            res == (*self is OrderBy),
    {
        match self {
            QueryOp::OrderBy { .. } => true,
            _ => false,
        }
    }

    /// Check if this is a limit operation
    pub fn is_limit(&self) -> (res: bool)
        ensures
            res == (*self is Limit),
    {
        match self {
            QueryOp::Limit(_) => true,
            _ => false,
        }
    }

    /// Check if this is an offset operation
    pub fn is_offset(&self) -> (res: bool)
        ensures
            res == (*self is Offset),
    {
        match self {
            QueryOp::Offset(_) => true,
            _ => false,
        }
    }

    /// Check if this is a distinct operation
    pub fn is_distinct(&self) -> (res: bool)
        ensures
            res == (*self is Distinct),
    {
        match self {
            QueryOp::Distinct => true,
            _ => false,
        }
    }
}

/// Query plan - a collection of operations that can be inspected and optimized
///
/// The query plan captures all operations applied to a QuerySet in order,
/// enabling introspection before execution.
#[derive(Debug)]
pub struct QueryPlan {
    operations: Vec<QueryOp>,
}

impl View for QueryPlan {
    type V = Seq<QueryOp>;

    closed spec fn view(&self) -> Seq<QueryOp> {
        self.operations@
    }
}

/// The value of the first `Limit` among the operations.
pub open spec fn first_limit(ops: Seq<QueryOp>) -> Option<u64>
    decreases ops.len(),
{
    if ops.len() == 0 {
        None
    } else {
        match ops[0] {
            QueryOp::Limit(n) => Some(n),
            _ => first_limit(ops.drop_first()),
        }
    }
}

/// The value of the first `Offset` among the operations.
pub open spec fn first_offset(ops: Seq<QueryOp>) -> Option<u64>
    decreases ops.len(),
{
    if ops.len() == 0 {
        None
    } else {
        match ops[0] {
            QueryOp::Offset(n) => Some(n),
            _ => first_offset(ops.drop_first()),
        }
    }
}

/// The expressions of the `Filter` operations, in order (not those of
/// `Exclude`).
pub open spec fn filter_exprs(ops: Seq<QueryOp>) -> Seq<FilterExpr>
    decreases ops.len(),
{
    if ops.len() == 0 {
        Seq::empty()
    } else {
        let rest = filter_exprs(ops.drop_last());
        match ops.last() {
            QueryOp::Filter(e) => rest.push(e),
            _ => rest,
        }
    }
}

proof fn lemma_first_limit_split(ops: Seq<QueryOp>, i: int)
    requires
        0 <= i <= ops.len(),
        forall|j: int| 0 <= j < i ==> !(ops[j] is Limit),
    ensures
        first_limit(ops) == first_limit(ops.subrange(i, ops.len() as int)),
    decreases i,
{
    if i > 0 {
        assert(ops.drop_first().subrange(i - 1, ops.drop_first().len() as int) =~= ops.subrange(i, ops.len() as int));
        lemma_first_limit_split(ops.drop_first(), i - 1);
    } else {
        assert(ops.subrange(0, ops.len() as int) =~= ops);
    }
}

proof fn lemma_first_offset_split(ops: Seq<QueryOp>, i: int)
    requires
        0 <= i <= ops.len(),
        forall|j: int| 0 <= j < i ==> !(ops[j] is Offset),
    ensures
        first_offset(ops) == first_offset(ops.subrange(i, ops.len() as int)),
    decreases i,
{
    if i > 0 {
        assert(ops.drop_first().subrange(i - 1, ops.drop_first().len() as int) =~= ops.subrange(i, ops.len() as int));
        lemma_first_offset_split(ops.drop_first(), i - 1);
    } else {
        assert(ops.subrange(0, ops.len() as int) =~= ops);
    }
}

impl QueryPlan {
    /// Create a new empty query plan
    pub fn new() -> (res: Self)
        ensures
            res@ == Seq::<QueryOp>::empty(),
    {
        QueryPlan { operations: Vec::new() }
    }

    /// Add an operation to the plan
    pub fn push(&mut self, op: QueryOp)
        ensures
            final(self)@ == old(self)@.push(op),
    {
        self.operations.push(op);
    }

    /// Get the number of operations
    pub fn len(&self) -> (res: usize)
        ensures
            res == self@.len(),
    {
        self.operations.len()
    }

    /// Check if the plan is empty
    pub fn is_empty(&self) -> (res: bool)
        ensures
            res == (self@.len() == 0),
    {
        self.operations.len() == 0
    }

    /// Get a slice of operations
    pub fn operations(&self) -> (res: &[QueryOp])
        ensures
            res@ == self@,
    {
        self.operations.as_slice()
    }

    /// Check if plan contains any filter operations
    pub fn has_filters(&self) -> (res: bool)
        ensures
            res == exists|i: int| 0 <= i < self@.len() && (#[trigger] self@[i] is Filter || self@[i] is Exclude),
    {
        let mut i: usize = 0;
        while i < self.operations.len()
            invariant
                i <= self@.len(),
                self@ == self.operations@,
                forall|j: int| 0 <= j < i ==> !(#[trigger] self@[j] is Filter || self@[j] is Exclude),
            decreases self@.len() - i,
        {
            if self.operations[i].is_filter() || self.operations[i].is_exclude() {
                return true;
            }
            i = i + 1;
        }
        false
    }

    /// Check if plan has ordering
    pub fn has_ordering(&self) -> (res: bool)
        ensures
            res == exists|i: int| 0 <= i < self@.len() && #[trigger] self@[i] is OrderBy,
    {
        let mut i: usize = 0;
        while i < self.operations.len()
            invariant
                i <= self@.len(),
                self@ == self.operations@,
                forall|j: int| 0 <= j < i ==> !(#[trigger] self@[j] is OrderBy),
            decreases self@.len() - i,
        {
            if self.operations[i].is_order_by() {
                return true;
            }
            i = i + 1;
        }
        false
    }

    /// Check if plan has limit
    pub fn has_limit(&self) -> (res: bool)
        ensures
            res == exists|i: int| 0 <= i < self@.len() && #[trigger] self@[i] is Limit,
    {
        let mut i: usize = 0;
        while i < self.operations.len()
            invariant
                i <= self@.len(),
                self@ == self.operations@,
                forall|j: int| 0 <= j < i ==> !(#[trigger] self@[j] is Limit),
            decreases self@.len() - i,
        {
            if self.operations[i].is_limit() {
                return true;
            }
            i = i + 1;
        }
        false
    }

    /// Get all filter expressions
    pub fn filters(&self) -> (res: Vec<&FilterExpr>)
        ensures
            res@.map_values(|e: &FilterExpr| *e) == filter_exprs(self@),
    {
        let mut res: Vec<&FilterExpr> = Vec::new();
        let mut i: usize = 0;
        while i < self.operations.len()
            invariant
                i <= self@.len(),
                self@ == self.operations@,
                res@.map_values(|e: &FilterExpr| *e) == filter_exprs(self@.take(i as int)),
            decreases self@.len() - i,
        {
            proof {
                assert(self@.take(i + 1).drop_last() =~= self@.take(i as int));
            }
            let ghost r0 = res@;
            match &self.operations[i] {
                QueryOp::Filter(e) => {
                    res.push(e);
                    proof {
                        assert(res@.map_values(|e: &FilterExpr| *e) =~= r0.map_values(|e: &FilterExpr| *e).push(*e));
                    }
                },
                _ => {},
            }
            i = i + 1;
        }
        proof {
            assert(self@.take(self@.len() as int) =~= self@);
        }
        res
    }

    /// Get limit value if set
    pub fn get_limit(&self) -> (res: Option<u64>)
        ensures
            res == first_limit(self@),
    {
        let mut i: usize = 0;
        while i < self.operations.len()
            invariant
                i <= self@.len(),
                self@ == self.operations@,
                forall|j: int| 0 <= j < i ==> !(#[trigger] self@[j] is Limit),
            decreases self@.len() - i,
        {
            match &self.operations[i] {
                QueryOp::Limit(n) => {
                    proof {
                        lemma_first_limit_split(self@, i as int);
                    }
                    return Some(*n);
                },
                _ => {},
            }
            i = i + 1;
        }
        proof {
            lemma_first_limit_split(self@, i as int);
        }
        None
    }

    /// Get offset value if set
    pub fn get_offset(&self) -> (res: Option<u64>)
        ensures
            res == first_offset(self@),
    {
        let mut i: usize = 0;
        while i < self.operations.len()
            invariant
                i <= self@.len(),
                self@ == self.operations@,
                forall|j: int| 0 <= j < i ==> !(#[trigger] self@[j] is Offset),
            decreases self@.len() - i,
        {
            match &self.operations[i] {
                QueryOp::Offset(n) => {
                    proof {
                        lemma_first_offset_split(self@, i as int);
                    }
                    return Some(*n);
                },
                _ => {},
            }
            i = i + 1;
        }
        proof {
            lemma_first_offset_split(self@, i as int);
        }
        None
    }
}

impl Default for QueryPlan {
    fn default() -> (res: Self)
        ensures
            res@ == Seq::<QueryOp>::empty(),
    {
        QueryPlan::new()
    }
}

/// A plan reports the first limit and the first offset pushed into it:
/// pushing an operation changes neither once set, and sets it only when the
/// operation is the first of its kind.
pub proof fn law_plan_reports_first_limit_and_offset(ops: Seq<QueryOp>, op: QueryOp)
    ensures
        first_limit(ops.push(op)) == (match first_limit(ops) {
            Some(n) => Some(n),
            None => match op {
                QueryOp::Limit(m) => Some(m),
                _ => None,
            },
        }),
        first_offset(ops.push(op)) == (match first_offset(ops) {
            Some(n) => Some(n),
            None => match op {
                QueryOp::Offset(m) => Some(m),
                _ => None,
            },
        }),
    decreases ops.len(),
{
    if ops.len() > 0 {
        assert(ops.push(op)[0] == ops[0]);
        assert(ops.push(op).drop_first() =~= ops.drop_first().push(op));
        law_plan_reports_first_limit_and_offset(ops.drop_first(), op);
    } else {
        assert(ops.push(op)[0] == op);
        assert(ops.push(op).drop_first() =~= Seq::<QueryOp>::empty());
        assert(first_limit(Seq::<QueryOp>::empty()) is None);
        assert(first_offset(Seq::<QueryOp>::empty()) is None);
    }
}

/// The filter the soft-delete mode adds to a query of an entity: none when
/// the entity is not soft-deleted or deleted rows are included; otherwise
/// `<column> IS NULL` to exclude deleted rows, or `<column> IS NOT NULL` to
/// keep only them.
pub fn soft_delete_filter(config: &crate::traits::SoftDeleteConfig, mode: SoftDeleteMode) -> (res: Option<FilterExpr>)
    ensures
        match *config {
            crate::traits::SoftDeleteConfig::Disabled => res is None,
            crate::traits::SoftDeleteConfig::Enabled { column } => match mode {
                SoftDeleteMode::ExcludeDeleted => res matches Some(e) && is_typed_filter(
                    e,
                    column@,
                    FilterOp::IsNull,
                    "NULL"@,
                ),
                SoftDeleteMode::OnlyDeleted => res matches Some(e) && is_typed_filter(
                    e,
                    column@,
                    FilterOp::IsNotNull,
                    "NOT NULL"@,
                ),
                SoftDeleteMode::IncludeDeleted => res is None,
            },
        },
{
    match config {
        crate::traits::SoftDeleteConfig::Disabled => None,
        crate::traits::SoftDeleteConfig::Enabled { column } => match mode {
            SoftDeleteMode::ExcludeDeleted => Some(FilterExpr::is_null(column)),
            SoftDeleteMode::OnlyDeleted => Some(FilterExpr::is_not_null(column)),
            SoftDeleteMode::IncludeDeleted => None,
        },
    }
}

} // verus!
