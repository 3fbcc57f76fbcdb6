//! The description of a table: its columns, their types and their part in the
//! primary key.

use vstd::prelude::*;
use crate::error::HtError;
use crate::error::HtResult;
use uuid::Uuid;

verus! {

/// `uuid::Uuid`, carried as a value that nothing is known of.
#[verifier::external_type_specification]
#[verifier::external_body]
pub struct ExUuid(uuid::Uuid);

/// The largest column id that a schema may use.
pub const MAX_COLUMN_ID: u8 = 63;

/// The number by which a column is known in a row.
#[derive(Clone, Copy, Debug, Eq, PartialEq, Ord, PartialOrd, Hash, Structural)]
pub struct ColumnId(pub u8);

/// The type of a column's values.
#[derive(Clone, Copy, Debug, Eq, PartialEq, Structural)]
pub enum ColumnType {
    Boolean,
    Int,
    BigInt,
    Text,
}

/// The part that a column has in the primary key. A cluster key holds `true`
/// where it sorts ascending.
#[derive(Clone, Copy, Debug, Eq, PartialEq, Structural)]
pub enum PrimaryKeySpec {
    PartitionKey,
    ClusterKey(bool),
    Regular,
}

/// A column of a table: its id, its name, the type of its values and its
/// part in the primary key.
#[derive(Clone, Debug, Eq, PartialEq)]
pub struct ColumnSchema {
    pub col_id: ColumnId,
    pub name: String,
    pub tpe: ColumnType,
    pub pk_spec: PrimaryKeySpec,
}

impl ColumnSchema {
    pub open spec fn spec_is_primary_key(&self) -> bool {
        self.pk_spec != PrimaryKeySpec::Regular
    }

    /// The column is a partition key or a cluster key.
    #[verifier::when_used_as_spec(spec_is_primary_key)]
    pub fn is_primary_key(&self) -> (r: bool)
        ensures
            r == self.spec_is_primary_key(),
    {
        match self.pk_spec {
            PrimaryKeySpec::PartitionKey => true,
            PrimaryKeySpec::ClusterKey(_) => true,
            PrimaryKeySpec::Regular => false,
        }
    }

    /// The column sorts descending: it is a cluster key that does not sort
    /// ascending.
    pub open spec fn descending(&self) -> bool {
        self.pk_spec == PrimaryKeySpec::ClusterKey(false)
    }

    /// A column schema with the same contents.
    pub fn duplicate(&self) -> (r: ColumnSchema)
        ensures
            r == *self,
    {
        ColumnSchema {
            col_id: self.col_id,
            name: self.name.clone(),
            tpe: self.tpe,
            pk_spec: self.pk_spec,
        }
    }
}

/// The primary key columns among the first `n` of `columns`, in their order.
pub open spec fn primary_key_columns(columns: Seq<ColumnSchema>, n: int) -> Seq<ColumnSchema>
    decreases n,
{
    if n <= 0 {
        Seq::empty()
    } else if columns[n - 1].is_primary_key() {
        primary_key_columns(columns, n - 1).push(columns[n - 1])
    } else {
        primary_key_columns(columns, n - 1)
    }
}

/// The place of the first of the first `n` columns that has the id `col_id`,
/// or `n` where none of them has it.
pub open spec fn first_with_id(columns: Seq<ColumnSchema>, col_id: u8, n: int) -> int
    decreases n,
{
    if n <= 0 {
        0
    } else {
        let before = first_with_id(columns, col_id, n - 1);
        if before < n - 1 {
            before
        } else if columns[n - 1].col_id.0 == col_id {
            n - 1
        } else {
            n
        }
    }
}

/// The number of columns that stand before the first regular column among the
/// first `n`: the columns that rows are ordered by.
pub open spec fn leading_key_len(columns: Seq<ColumnSchema>, n: int) -> int
    decreases n,
{
    if n <= 0 {
        0
    } else {
        let before = leading_key_len(columns, n - 1);
        if before == n - 1 && columns[n - 1].is_primary_key() {
            n
        } else {
            before
        }
    }
}

/// A table: its name, its identity and its columns in the order in which
/// they were declared. The primary key columns are kept a second time, in the
/// same order.
#[derive(Debug, Eq, PartialEq)]
pub struct TableSchema {
    pub name: String,
    pub table_id: Uuid,
    pub columns: Vec<ColumnSchema>,
    pub pk_columns: Vec<ColumnSchema>,
}

impl TableSchema {
    /// The primary key columns are those of the column list, in its order.
    pub open spec fn wf(&self) -> bool {
        self.pk_columns@ == primary_key_columns(self.columns@, self.columns@.len() as int)
    }

    /// The place in the column list of the column with the id `col_id`.
    pub open spec fn position(&self, col_id: u8) -> Option<int> {
        let at = first_with_id(self.columns@, col_id, self.columns@.len() as int);
        if at < self.columns@.len() {
            Some(at)
        } else {
            None
        }
    }

    /// The type of the column with the id `col_id`.
    pub open spec fn type_of(&self, col_id: u8) -> Option<ColumnType> {
        match self.position(col_id) {
            Some(at) => Some(self.columns@[at].tpe),
            None => None,
        }
    }

    /// The number of columns that rows are ordered by: those that stand before
    /// the first regular column.
    pub open spec fn key_len(&self) -> int {
        leading_key_len(self.columns@, self.columns@.len() as int)
    }

    /// The schema of the table with the given name, identity and columns.
    pub fn new(name: &str, table_id: &Uuid, columns: Vec<ColumnSchema>) -> (r: TableSchema)
        ensures
            r.wf(),
            r.name@ == name@,
            r.table_id == *table_id,
            r.columns == columns,
    {
        let mut pk_columns: Vec<ColumnSchema> = Vec::new();
        let mut i: usize = 0;
        while i < columns.len()
            invariant
                i <= columns.len(),
                pk_columns@ == primary_key_columns(columns@, i as int),
            decreases columns.len() - i,
        {
            if columns[i].is_primary_key() {
                pk_columns.push(columns[i].duplicate());
            }
            i = i + 1;
        }
        TableSchema { name: name.to_owned(), table_id: *table_id, columns, pk_columns }
    }

    /// No column id is above the largest that a schema may use, and no two
    /// columns have one id.
    pub open spec fn ids_valid(&self) -> bool {
        &&& forall|i: int|
            0 <= i < self.columns@.len() ==> (#[trigger] self.columns@[i]).col_id.0
                <= MAX_COLUMN_ID
        &&& forall|i: int, j: int|
            0 <= i < j < self.columns@.len() ==> (#[trigger] self.columns@[i]).col_id != (
            #[trigger] self.columns@[j]).col_id
    }

    /// Checks that the column ids are in range and that no two columns have
    /// one id.
    pub fn validate(&self) -> (r: HtResult<()>)
        ensures
            r is Ok <==> self.ids_valid(),
            r matches Err(e) ==> e is Misc,
    {
        let mut j: usize = 0;
        while j < self.columns.len()
            invariant
                j <= self.columns@.len(),
                forall|i: int|
                    0 <= i < j ==> (#[trigger] self.columns@[i]).col_id.0 <= MAX_COLUMN_ID,
                forall|i: int, k: int|
                    0 <= i < k < j ==> (#[trigger] self.columns@[i]).col_id != (
                    #[trigger] self.columns@[k]).col_id,
            decreases self.columns@.len() - j,
        {
            if self.columns[j].col_id.0 > MAX_COLUMN_ID {
                return Err(HtError::misc("a column id is out of range"));
            }
            let mut i: usize = 0;
            while i < j
                invariant
                    i <= j < self.columns@.len(),
                    forall|m: int|
                        0 <= m < i ==> (#[trigger] self.columns@[m]).col_id
                            != self.columns@[j as int].col_id,
                decreases j - i,
            {
                if self.columns[i].col_id.0 == self.columns[j].col_id.0 {
                    return Err(HtError::misc("two columns have one id"));
                }
                i = i + 1;
            }
            j = j + 1;
        }
        Ok(())
    }

    /// The place of a column with the id `col_id` in the order in which a row
    /// stores its columns: a column that rows are ordered by stands at its
    /// place in the schema, and the other columns follow in the order of their
    /// ids.
    pub open spec fn rank(&self, col_id: u8) -> int {
        let at = first_with_id(self.columns@, col_id, self.key_len());
        if at < self.key_len() {
            at
        } else {
            self.key_len() + col_id
        }
    }

    /// The place of a column with the id `col_id` in the order in which a row
    /// stores its columns.
    pub fn rank_of(&self, col_id: ColumnId) -> (r: u128)
        ensures
            r == self.rank(col_id.0),
    {
        let key_len = self.leading_key_columns();
        self.rank_among(key_len, col_id)
    }

    /// The place of a column with the id `col_id` in the order in which a row
    /// stores its columns, for one who knows the number of the columns that
    /// rows are ordered by.
    pub fn rank_among(&self, key_len: usize, col_id: ColumnId) -> (r: u128)
        requires
            key_len == self.key_len(),
        ensures
            r == self.rank(col_id.0),
    {
        proof {
            lemma_key_len_bounds(self.columns@, self.columns@.len() as int);
        }
        let mut i: usize = 0;
        while i < key_len
            invariant
                key_len == self.key_len(),
                i <= key_len <= self.columns@.len(),
                first_with_id(self.columns@, col_id.0, i as int) == i,
            decreases key_len - i,
        {
            if self.columns[i].col_id.0 == col_id.0 {
                proof {
                    assert(first_with_id(self.columns@, col_id.0, i as int + 1) == i);
                    lemma_first_with_id_stays(self.columns@, col_id.0, i as int + 1, key_len as int);
                }
                return i as u128;
            }
            i = i + 1;
        }
        key_len as u128 + col_id.0 as u128
    }

    /// The place of the column with the id `col_id` in the column list.
    pub fn find(&self, col_id: ColumnId) -> (r: Option<usize>)
        ensures
            r is Some <==> self.position(col_id.0) is Some,
            r matches Some(at) ==> self.position(col_id.0) == Some(at as int),
    {
        let mut i: usize = 0;
        while i < self.columns.len()
            invariant
                i <= self.columns.len(),
                first_with_id(self.columns@, col_id.0, i as int) == i,
            decreases self.columns.len() - i,
        {
            if self.columns[i].col_id.0 == col_id.0 {
                proof {
                    lemma_first_with_id_stays(self.columns@, col_id.0, i as int + 1,
                        self.columns@.len() as int);
                }
                return Some(i);
            }
            i = i + 1;
        }
        None
    }

    /// The column with the id `col_id`, or an error where the schema has none.
    pub fn column(&self, col_id: ColumnId) -> (r: HtResult<&ColumnSchema>)
        ensures
            r is Ok <==> self.position(col_id.0) is Some,
            r matches Ok(c) ==> *c == self.columns@[self.position(col_id.0).unwrap()],
            r matches Err(e) ==> e is Misc,
    {
        match self.find(col_id) {
            Some(at) => Ok(&self.columns[at]),
            None => Err(HtError::misc("column not found")),
        }
    }

    /// The number of columns that stand before the first regular column.
    pub fn leading_key_columns(&self) -> (r: usize)
        ensures
            r == self.key_len(),
            r <= self.columns@.len(),
            forall|i: int| 0 <= i < r ==> (#[trigger] self.columns@[i]).is_primary_key(),
    {
        let mut i: usize = 0;
        while i < self.columns.len() && self.columns[i].is_primary_key()
            invariant
                i <= self.columns.len(),
                leading_key_len(self.columns@, i as int) == i,
                forall|j: int| 0 <= j < i ==> (#[trigger] self.columns@[j]).is_primary_key(),
            decreases self.columns.len() - i,
        {
            i = i + 1;
        }
        proof {
            lemma_leading_key_len_stays(self.columns@, i as int, self.columns@.len() as int);
        }
        i
    }
}

/// Once a column with the id was found among the first `n`, more columns do
/// not change which one is the first.
pub proof fn lemma_first_with_id_stays(columns: Seq<ColumnSchema>, col_id: u8, n: int, m: int)
    requires
        0 <= n <= m,
        first_with_id(columns, col_id, n) < n,
    ensures
        first_with_id(columns, col_id, m) == first_with_id(columns, col_id, n),
    decreases m - n,
{
    if n < m {
        lemma_first_with_id_stays(columns, col_id, n, m - 1);
    }
}

/// Once a regular column, or the end, was reached after `n` columns, more
/// columns do not change the number of leading key columns.
pub proof fn lemma_leading_key_len_stays(columns: Seq<ColumnSchema>, n: int, m: int)
    requires
        0 <= n <= m <= columns.len(),
        leading_key_len(columns, n) == n,
        n < columns.len() ==> !columns[n].is_primary_key(),
    ensures
        leading_key_len(columns, m) == n,
    decreases m - n,
{
    if n < m {
        lemma_leading_key_len_stays(columns, n, m - 1);
    }
}

/// The number of leading key columns among the first `n` is between 0 and `n`.
pub proof fn lemma_key_len_bounds(columns: Seq<ColumnSchema>, n: int)
    requires
        0 <= n,
    ensures
        0 <= leading_key_len(columns, n) <= n,
    decreases n,
{
    if n > 0 {
        lemma_key_len_bounds(columns, n - 1);
    }
}

/// The first of the first `n` columns with an id has that id, and none before
/// it has.
pub proof fn lemma_first_with_id(columns: Seq<ColumnSchema>, col_id: u8, n: int)
    requires
        0 <= n <= columns.len(),
    ensures
        0 <= first_with_id(columns, col_id, n) <= n,
        first_with_id(columns, col_id, n) < n ==> columns[first_with_id(
            columns,
            col_id,
            n,
        )].col_id.0 == col_id,
    decreases n,
{
    if n > 0 {
        lemma_first_with_id(columns, col_id, n - 1);
    }
}

/// Columns with different ids have different places in the order in which a
/// row stores its columns.
pub proof fn lemma_rank_injective(schema: &TableSchema, a: u8, b: u8)
    requires
        schema.rank(a) == schema.rank(b),
    ensures
        a == b,
{
    lemma_key_len_bounds(schema.columns@, schema.columns@.len() as int);
    lemma_first_with_id(schema.columns@, a, schema.key_len());
    lemma_first_with_id(schema.columns@, b, schema.key_len());
}

/// The column at the place `i` among the columns that rows are ordered by has
/// the place `i` in the order in which a row stores its columns, if no column
/// before it has its id.
pub proof fn lemma_rank_of_key(schema: &TableSchema, i: int)
    requires
        0 <= i < schema.key_len(),
        forall|j: int| 0 <= j < i ==> (#[trigger] schema.columns@[j]).col_id != schema.columns@[i].col_id,
    ensures
        schema.rank(schema.columns@[i].col_id.0) == i,
{
    lemma_key_len_bounds(schema.columns@, schema.columns@.len() as int);
    lemma_first_with_id_found(schema.columns@, schema.columns@[i].col_id.0, i, schema.key_len());
}

/// Where the `i`-th column is the first with its id, it is the first of the
/// first `n` columns with that id.
pub proof fn lemma_first_with_id_found(columns: Seq<ColumnSchema>, col_id: u8, i: int, n: int)
    requires
        0 <= i < n <= columns.len(),
        columns[i].col_id.0 == col_id,
        forall|j: int| 0 <= j < i ==> (#[trigger] columns[j]).col_id.0 != col_id,
    ensures
        first_with_id(columns, col_id, n) == i,
    decreases n,
{
    if n > i + 1 {
        lemma_first_with_id_found(columns, col_id, i, n - 1);
    } else {
        lemma_first_with_id_none(columns, col_id, i);
    }
}

/// Where none of the first `n` columns has an id, none is found.
pub proof fn lemma_first_with_id_none(columns: Seq<ColumnSchema>, col_id: u8, n: int)
    requires
        0 <= n <= columns.len(),
        forall|j: int| 0 <= j < n ==> (#[trigger] columns[j]).col_id.0 != col_id,
    ensures
        first_with_id(columns, col_id, n) == n,
    decreases n,
{
    if n > 0 {
        lemma_first_with_id_none(columns, col_id, n - 1);
    }
}

} // verus!
