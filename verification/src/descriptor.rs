//! The normalized, immutable description of one REST resource: its table
//! name, id field, SQL dialect, ordered field list, per-operation role
//! requirements and optional single-parent relation.

use vstd::prelude::*;
use vstd::string::StrSliceExecFns;

verus! {

/// Database dialect tag; it decides the SQL placeholder syntax.
#[derive(Clone, Copy, PartialEq, Eq, Structural, Debug)]
pub enum Dialect {
    Sqlite,
    Mysql,
    Postgres,
    Generic,
}

/// Scalar column kind of a field.
#[derive(Clone, Copy, PartialEq, Eq, Structural, Debug)]
pub enum ScalarKind {
    Integer,
    Real,
    Text,
}

/// One column of an entity, in declaration order.
#[derive(Clone, Debug)]
pub struct FieldDescriptor {
    pub name: String,
    pub kind: ScalarKind,
    pub is_id: bool,
    pub is_created: bool,
    pub is_updated: bool,
}

/// Optional role name required for each operation category.
#[derive(Clone, Debug)]
pub struct RoleRequirements {
    pub read: Option<String>,
    pub update: Option<String>,
    pub delete: Option<String>,
}

/// A single foreign-key relation from a child entity to a parent table.
#[derive(Clone, Debug)]
pub struct RelationDescriptor {
    pub field: String,
    pub parent_table: String,
    pub parent_column: String,
    pub nested_route: bool,
}

/// The descriptor an entity is compiled from; built once, never mutated.
#[derive(Clone, Debug)]
pub struct EntityDescriptor {
    pub table: String,
    pub id_field: String,
    pub dialect: Dialect,
    pub fields: Vec<FieldDescriptor>,
    pub roles: RoleRequirements,
    pub relation: Option<RelationDescriptor>,
}

/// A character allowed in a SQL identifier: lower-case ASCII letter, digit
/// or underscore.
pub open spec fn is_ident_char(c: char) -> bool {
    (97 <= c as u32 && c as u32 <= 122) || (48 <= c as u32 && c as u32 <= 57) || c as u32 == 95
}

/// A valid SQL identifier: non-empty, identifier characters only, and not
/// starting with a digit.
pub open spec fn is_ident(s: Seq<char>) -> bool {
    &&& s.len() > 0
    &&& forall|i: int| 0 <= i < s.len() ==> is_ident_char(#[trigger] s[i])
    &&& !(48 <= s[0] as u32 && s[0] as u32 <= 57)
}

impl FieldDescriptor {
    /// Timestamp columns are filled by the store, never by the caller.
    pub open spec fn is_timestamp(self) -> bool {
        self.is_created || self.is_updated
    }

    /// A data field carries a caller-supplied value: it appears in insert
    /// column lists and full-update SET clauses.
    pub open spec fn is_data(self) -> bool {
        !self.is_id && !self.is_timestamp()
    }

    pub open spec fn wf(self) -> bool {
        &&& is_ident(self.name@)
        &&& !(self.is_created && self.is_updated)
        &&& self.is_id ==> !self.is_timestamp()
    }
}

/// Number of data fields in `fs`; it is the number of value placeholders an
/// insert or full-update statement binds before the id.
pub open spec fn count_data(fs: Seq<FieldDescriptor>) -> int
    decreases fs.len(),
{
    if fs.len() == 0 {
        0
    } else {
        count_data(fs.drop_last()) + if fs.last().is_data() {
            1int
        } else {
            0int
        }
    }
}

pub open spec fn has_data(fs: Seq<FieldDescriptor>) -> bool {
    count_data(fs) > 0
}

pub open spec fn has_updated(fs: Seq<FieldDescriptor>) -> bool {
    exists|i: int| 0 <= i < fs.len() && (#[trigger] fs[i]).is_updated
}

/// Index of the (unique, by well-formedness) updated-timestamp field.
pub open spec fn updated_idx(fs: Seq<FieldDescriptor>) -> int {
    choose|i: int| 0 <= i < fs.len() && (#[trigger] fs[i]).is_updated
}

/// Index of the (unique, by well-formedness) id field.
pub open spec fn id_idx(fs: Seq<FieldDescriptor>) -> int {
    choose|i: int| 0 <= i < fs.len() && (#[trigger] fs[i]).is_id
}

impl EntityDescriptor {
    pub open spec fn fields_wf(self) -> bool {
        &&& self.fields@.len() >= 1
        &&& forall|i: int| 0 <= i < self.fields@.len() ==> (#[trigger] self.fields@[i]).wf()
        &&& forall|i: int, j: int|
            0 <= i < j < self.fields@.len() ==> (#[trigger] self.fields@[i]).name@ != (
            #[trigger] self.fields@[j]).name@
    }

    pub open spec fn id_wf(self) -> bool {
        &&& exists|i: int| 0 <= i < self.fields@.len() && (#[trigger] self.fields@[i]).is_id
        &&& forall|i: int, j: int|
            0 <= i < self.fields@.len() && 0 <= j < self.fields@.len() && (
            #[trigger] self.fields@[i]).is_id && (#[trigger] self.fields@[j]).is_id ==> i == j
        &&& forall|i: int|
            0 <= i < self.fields@.len() && (#[trigger] self.fields@[i]).is_id
                ==> self.fields@[i].name@ == self.id_field@
    }

    pub open spec fn timestamps_wf(self) -> bool {
        &&& forall|i: int, j: int|
            0 <= i < self.fields@.len() && 0 <= j < self.fields@.len() && (
            #[trigger] self.fields@[i]).is_updated && (#[trigger] self.fields@[j]).is_updated
                ==> i == j
        &&& forall|i: int, j: int|
            0 <= i < self.fields@.len() && 0 <= j < self.fields@.len() && (
            #[trigger] self.fields@[i]).is_created && (#[trigger] self.fields@[j]).is_created
                ==> i == j
    }

    pub open spec fn relation_wf(self) -> bool {
        match self.relation {
            Option::None => true,
            Option::Some(r) => {
                &&& is_ident(r.field@)
                &&& is_ident(r.parent_table@)
                &&& is_ident(r.parent_column@)
                &&& exists|i: int|
                    0 <= i < self.fields@.len() && (#[trigger] self.fields@[i]).name@ == r.field@
                        && self.fields@[i].is_data() && self.fields@[i].kind == ScalarKind::Integer
            },
        }
    }

    /// Invariant every compiled descriptor satisfies.
    pub open spec fn wf(self) -> bool {
        &&& is_ident(self.table@)
        &&& self.fields_wf()
        &&& self.id_wf()
        &&& self.timestamps_wf()
        &&& self.relation_wf()
    }
}

/// Executable identifier-character test.
pub fn check_ident_char(c: char) -> (r: bool)
    ensures
        r == is_ident_char(c),
{
    let u = c as u32;
    (97 <= u && u <= 122) || (48 <= u && u <= 57) || u == 95
}

/// Executable identifier test.
pub fn check_ident(s: &str) -> (r: bool)
    ensures
        r == is_ident(s@),
{
    let n = s.unicode_len();
    if n == 0 {
        return false;
    }
    let c0 = s.get_char(0);
    if 48 <= c0 as u32 && c0 as u32 <= 57 {
        return false;
    }
    let mut i: usize = 0;
    while i < n
        invariant
            n == s@.len(),
            0 <= i <= n,
            forall|j: int| 0 <= j < i ==> is_ident_char(#[trigger] s@[j]),
        decreases n - i,
    {
        if !check_ident_char(s.get_char(i)) {
            return false;
        }
        i += 1;
    }
    true
}

/// Position of the id field.
pub fn id_index(fields: &Vec<FieldDescriptor>) -> (r: usize)
    requires
        exists|i: int| 0 <= i < fields@.len() && (#[trigger] fields@[i]).is_id,
    ensures
        r < fields@.len(),
        fields@[r as int].is_id,
{
    let mut i: usize = 0;
    while i < fields.len()
        invariant
            0 <= i <= fields@.len(),
            exists|k: int| 0 <= k < fields@.len() && (#[trigger] fields@[k]).is_id,
            forall|j: int| 0 <= j < i ==> !(#[trigger] fields@[j]).is_id,
        decreases fields@.len() - i,
    {
        if fields[i].is_id {
            return i;
        }
        i += 1;
    }
    proof {
        assert(false);
    }
    0
}

/// Position of the updated-timestamp field, if the entity declares one.
pub fn updated_index(fields: &Vec<FieldDescriptor>) -> (r: Option<usize>)
    ensures
        match r {
            Option::Some(i) => i < fields@.len() && fields@[i as int].is_updated,
            Option::None => !has_updated(fields@),
        },
{
    let mut i: usize = 0;
    while i < fields.len()
        invariant
            0 <= i <= fields@.len(),
            forall|j: int| 0 <= j < i ==> !(#[trigger] fields@[j]).is_updated,
        decreases fields@.len() - i,
    {
        if fields[i].is_updated {
            return Option::Some(i);
        }
        i += 1;
    }
    Option::None
}

} // verus!
