//! The entity descriptor extractor: parses the normalized annotation set of
//! one entity — table, id and dialect options, per-operation roles,
//! per-field relation options — into an [`EntityDescriptor`], or fails with
//! a malformed-annotation error. Unknown dialect strings degrade to the
//! generic dialect. More than one relation declaration is a hard
//! configuration error, and a relation reference must be a two-part
//! `table.column` string. This component is pure: no I/O.

use vstd::prelude::*;
use vstd::string::StrSliceExecFns;
use vstd::string::StringExecFns;

use crate::descriptor::check_ident;
use crate::descriptor::is_ident;
use crate::descriptor::is_ident_char;
use crate::descriptor::Dialect;
use crate::descriptor::EntityDescriptor;
use crate::descriptor::FieldDescriptor;
use crate::descriptor::RelationDescriptor;
use crate::descriptor::RoleRequirements;
use crate::descriptor::ScalarKind;

verus! {

/// Raw annotations of one field.
pub struct FieldAnnotation {
    pub name: String,
    pub declared_type: String,
    pub foreign_key: Option<String>,
    pub references: Option<String>,
    pub nested_route: Option<bool>,
}

/// Raw annotations of one entity.
pub struct EntityAnnotation {
    pub table: String,
    pub id: String,
    pub dialect: Option<String>,
    pub read_role: Option<String>,
    pub update_role: Option<String>,
    pub delete_role: Option<String>,
    pub fields: Vec<FieldAnnotation>,
}

/// Why an annotation set cannot be compiled.
#[derive(Clone, Copy, PartialEq, Eq, Structural, Debug)]
pub enum AnnotationError {
    InvalidTableName,
    InvalidFieldName,
    DuplicateFieldName,
    InvalidIdField,
    MissingIdField,
    InvalidReference,
    MultipleRelations,
    InvalidRelationField,
}

/// `p` occurs as a contiguous substring of `s`.
pub open spec fn has_substring(s: Seq<char>, p: Seq<char>) -> bool {
    exists|i: int| 0 <= i && i + p.len() <= s.len() && #[trigger] s.subrange(i, i + p.len()) == p
}

fn match_at(s: &str, p: &str, i: usize) -> (r: bool)
    requires
        i + p@.len() <= s@.len(),
    ensures
        r == (s@.subrange(i as int, i as int + p@.len() as int) == p@),
{
    let n = s.unicode_len();
    let m = p.unicode_len();
    let mut j: usize = 0;
    while j < m
        invariant
            n == s@.len(),
            m == p@.len(),
            i + m <= s@.len(),
            0 <= j <= m,
            forall|t: int| 0 <= t < j ==> s@[i + t] == p@[t],
        decreases m - j,
    {
        if s.get_char(i + j) != p.get_char(j) {
            proof {
                assert(s@.subrange(i as int, i as int + p@.len() as int)[j as int] != p@[j as int]);
            }
            return false;
        }
        j += 1;
    }
    proof {
        assert(s@.subrange(i as int, i as int + p@.len() as int) =~= p@);
    }
    true
}

/// Substring search.
pub fn contains_sub(s: &str, p: &str) -> (r: bool)
    ensures
        r == has_substring(s@, p@),
{
    let n = s.unicode_len();
    let m = p.unicode_len();
    if m > n {
        return false;
    }
    if m == 0 {
        proof {
            assert(s@.subrange(0, 0 + p@.len() as int) =~= p@);
            assert(has_substring(s@, p@));
        }
        return true;
    }
    let mut i: usize = 0;
    while i <= n - m
        invariant
            n == s@.len(),
            m == p@.len(),
            1 <= m <= n,
            0 <= i <= n - m + 1,
            forall|t: int|
                0 <= t < i ==> #[trigger] s@.subrange(t, t + p@.len() as int) != p@,
        decreases n - i,
    {
        if match_at(s, p, i) {
            return true;
        }
        i += 1;
    }
    false
}

/// Scalar kind read from a declared type name: integral types map to
/// integer columns, floating types to real columns, everything else to
/// text.
pub open spec fn spec_kind_of(t: Seq<char>) -> ScalarKind {
    if has_substring(t, "i32"@) || has_substring(t, "i64"@) {
        ScalarKind::Integer
    } else if has_substring(t, "f32"@) || has_substring(t, "f64"@) {
        ScalarKind::Real
    } else {
        ScalarKind::Text
    }
}

pub fn kind_of(t: &str) -> (r: ScalarKind)
    ensures
        r == spec_kind_of(t@),
{
    if contains_sub(t, "i32") || contains_sub(t, "i64") {
        ScalarKind::Integer
    } else if contains_sub(t, "f32") || contains_sub(t, "f64") {
        ScalarKind::Real
    } else {
        ScalarKind::Text
    }
}

/// Dialect read from the `db` option: unknown strings degrade to generic,
/// absence defaults to sqlite.
pub open spec fn spec_dialect_of(o: Option<String>) -> Dialect {
    match o {
        Option::None => Dialect::Sqlite,
        Option::Some(s) => if s@ == "sqlite"@ {
            Dialect::Sqlite
        } else if s@ == "mysql"@ {
            Dialect::Mysql
        } else if s@ == "postgres"@ {
            Dialect::Postgres
        } else {
            Dialect::Generic
        },
    }
}

pub fn dialect_of(o: &Option<String>) -> (r: Dialect)
    ensures
        r == spec_dialect_of(*o),
{
    match o {
        Option::None => Dialect::Sqlite,
        Option::Some(s) => {
            if s.eq(&String::from_str("sqlite")) {
                Dialect::Sqlite
            } else if s.eq(&String::from_str("mysql")) {
                Dialect::Mysql
            } else if s.eq(&String::from_str("postgres")) {
                Dialect::Postgres
            } else {
                Dialect::Generic
            }
        },
    }
}

/// A valid two-part relation reference: `<table>.<column>`, both parts
/// valid identifiers.
pub open spec fn valid_reference(rs: Seq<char>) -> bool {
    exists|d: int| ref_split_at(rs, d)
}

pub open spec fn ref_split_at(rs: Seq<char>, d: int) -> bool {
    &&& 0 <= d < rs.len()
    &&& rs[d] == '.'
    &&& is_ident(rs.subrange(0, d))
    &&& is_ident(rs.subrange(d + 1, rs.len() as int))
}

/// The split point of a valid reference (unique: identifier characters
/// exclude the dot).
pub open spec fn ref_dot(rs: Seq<char>) -> int {
    choose|d: int| ref_split_at(rs, d)
}

pub open spec fn ref_parent_table(rs: Seq<char>) -> Seq<char> {
    rs.subrange(0, ref_dot(rs))
}

pub open spec fn ref_parent_column(rs: Seq<char>) -> Seq<char> {
    rs.subrange(ref_dot(rs) + 1, rs.len() as int)
}

/// The split point of a valid reference is unique.
proof fn lemma_ref_dot_unique(rs: Seq<char>, d1: int, d2: int)
    requires
        ref_split_at(rs, d1),
        ref_split_at(rs, d2),
    ensures
        d1 == d2,
{
    if d1 < d2 {
        assert(rs.subrange(0, d2)[d1] == '.');
        assert(is_ident_char(rs.subrange(0, d2)[d1]));
        assert(!is_ident_char('.'));
    }
    if d2 < d1 {
        assert(rs.subrange(0, d1)[d2] == '.');
        assert(is_ident_char(rs.subrange(0, d1)[d2]));
        assert(!is_ident_char('.'));
    }
}

/// Parses a `table.column` reference into its two parts.
pub fn parse_reference(s: &str) -> (r: Option<(String, String)>)
    ensures
        r is Some <==> valid_reference(s@),
        r is Some ==> r->Some_0.0@ == ref_parent_table(s@) && r->Some_0.1@ == ref_parent_column(
            s@,
        ),
{
    let n = s.unicode_len();
    let mut d: usize = 0;
    while d < n
        invariant
            n == s@.len(),
            0 <= d <= n,
            forall|t: int| 0 <= t < d ==> s@[t] != '.',
        decreases n - d,
    {
        if s.get_char(d) == '.' {
            let left = s.substring_char(0, d);
            let right = s.substring_char(d + 1, n);
            if check_ident(left) && check_ident(right) {
                proof {
                    assert(ref_split_at(s@, d as int));
                    lemma_ref_dot_unique(s@, ref_dot(s@), d as int);
                }
                return Option::Some((left.to_owned(), right.to_owned()));
            } else {
                proof {
                    assert forall|t: int| !ref_split_at(s@, t) by {
                        if ref_split_at(s@, t) {
                            if t < d {
                                assert(s@[t] != '.');
                            } else if t > d {
                                assert(s@.subrange(0, t)[d as int] == '.');
                                assert(is_ident_char(s@.subrange(0, t)[d as int]));
                                assert(!is_ident_char('.'));
                            }
                        }
                    }
                }
                return Option::None;
            }
        }
        d += 1;
    }
    proof {
        assert forall|t: int| !ref_split_at(s@, t) by {
            if 0 <= t < s@.len() {
                assert(s@[t] != '.');
            }
        }
    }
    Option::None
}

/// A field declares a complete relation: both the foreign-key and the
/// reference option are present.
pub open spec fn rel_complete(f: FieldAnnotation) -> bool {
    f.foreign_key is Some && f.references is Some
}

pub open spec fn table_ok(a: EntityAnnotation) -> bool {
    is_ident(a.table@)
}

pub open spec fn field_names_ok(a: EntityAnnotation) -> bool {
    forall|i: int| 0 <= i < a.fields@.len() ==> is_ident((#[trigger] a.fields@[i]).name@)
}

pub open spec fn names_unique(a: EntityAnnotation) -> bool {
    forall|i: int, j: int|
        0 <= i < j < a.fields@.len() ==> (#[trigger] a.fields@[i]).name@ != (
        #[trigger] a.fields@[j]).name@
}

pub open spec fn id_name_ok(a: EntityAnnotation) -> bool {
    a.id@ != "created_at"@ && a.id@ != "updated_at"@
}

pub open spec fn id_exists(a: EntityAnnotation) -> bool {
    exists|i: int| 0 <= i < a.fields@.len() && (#[trigger] a.fields@[i]).name@ == a.id@
}

pub open spec fn refs_ok(a: EntityAnnotation) -> bool {
    forall|i: int|
        0 <= i < a.fields@.len() && rel_complete(#[trigger] a.fields@[i]) ==> valid_reference(
            a.fields@[i].references->Some_0@,
        )
}

pub open spec fn single_relation(a: EntityAnnotation) -> bool {
    forall|i: int, j: int|
        0 <= i < j < a.fields@.len() ==> !(rel_complete(#[trigger] a.fields@[i]) && rel_complete(
            #[trigger] a.fields@[j],
        ))
}

pub open spec fn has_relation(a: EntityAnnotation) -> bool {
    exists|i: int| 0 <= i < a.fields@.len() && rel_complete(#[trigger] a.fields@[i])
}

/// Index of the (unique, once validated) relation-declaring field.
pub open spec fn rel_field_idx(a: EntityAnnotation) -> int {
    choose|i: int| 0 <= i < a.fields@.len() && rel_complete(#[trigger] a.fields@[i])
}

pub open spec fn relation_field_ok(a: EntityAnnotation) -> bool {
    has_relation(a) ==> {
        let f = a.fields@[rel_field_idx(a)];
        &&& f.name@ != a.id@
        &&& f.name@ != "created_at"@
        &&& f.name@ != "updated_at"@
        &&& spec_kind_of(f.declared_type@) == ScalarKind::Integer
    }
}

/// Everything the extractor checks.
pub open spec fn annotation_ok(a: EntityAnnotation) -> bool {
    &&& table_ok(a)
    &&& field_names_ok(a)
    &&& names_unique(a)
    &&& id_name_ok(a)
    &&& id_exists(a)
    &&& refs_ok(a)
    &&& single_relation(a)
    &&& relation_field_ok(a)
}

/// The descriptor a field annotation compiles to: the id flag comes from
/// the declared id name, the timestamp flags from the conventional
/// `created_at` / `updated_at` names.
pub open spec fn spec_field_desc(a: EntityAnnotation, f: FieldAnnotation) -> FieldDescriptor {
    FieldDescriptor {
        name: f.name,
        kind: spec_kind_of(f.declared_type@),
        is_id: f.name@ == a.id@,
        is_created: f.name@ == "created_at"@,
        is_updated: f.name@ == "updated_at"@,
    }
}

/// Whether the nested route is enabled: an explicit option decides; by
/// default a relation exposes its nested route.
pub open spec fn spec_nested_of(o: Option<bool>) -> bool {
    match o {
        Option::None => true,
        Option::Some(b) => b,
    }
}


fn clone_role(o: &Option<String>) -> (r: Option<String>)
    ensures
        r == *o,
{
    match o {
        Option::Some(s) => Option::Some(s.clone()),
        Option::None => Option::None,
    }
}

/// Compiles an annotation set into a descriptor, or reports why it is
/// malformed. Succeeds exactly on well-formed annotation sets; the
/// resulting descriptor is well-formed and mirrors the annotations
/// one-to-one, field order preserved.
#[verifier::loop_isolation(false)]
pub fn extract(a: &EntityAnnotation) -> (r: Result<EntityDescriptor, AnnotationError>)
    ensures
        r is Ok <==> annotation_ok(*a),
        r == Result::<EntityDescriptor, AnnotationError>::Err(AnnotationError::InvalidTableName)
            <==> !table_ok(*a),
        r == Result::<EntityDescriptor, AnnotationError>::Err(AnnotationError::InvalidFieldName)
            <==> table_ok(*a) && !field_names_ok(*a),
        r == Result::<EntityDescriptor, AnnotationError>::Err(AnnotationError::DuplicateFieldName)
            <==> table_ok(*a) && field_names_ok(*a) && !names_unique(*a),
        r == Result::<EntityDescriptor, AnnotationError>::Err(AnnotationError::InvalidIdField)
            <==> table_ok(*a) && field_names_ok(*a) && names_unique(*a) && !id_name_ok(*a),
        r == Result::<EntityDescriptor, AnnotationError>::Err(AnnotationError::MissingIdField)
            <==> table_ok(*a) && field_names_ok(*a) && names_unique(*a) && id_name_ok(*a)
            && !id_exists(*a),
        r == Result::<EntityDescriptor, AnnotationError>::Err(AnnotationError::InvalidReference)
            <==> table_ok(*a) && field_names_ok(*a) && names_unique(*a) && id_name_ok(*a)
            && id_exists(*a) && !refs_ok(*a),
        r == Result::<EntityDescriptor, AnnotationError>::Err(AnnotationError::MultipleRelations)
            <==> table_ok(*a) && field_names_ok(*a) && names_unique(*a) && id_name_ok(*a)
            && id_exists(*a) && refs_ok(*a) && !single_relation(*a),
        r == Result::<EntityDescriptor, AnnotationError>::Err(
            AnnotationError::InvalidRelationField,
        ) <==> table_ok(*a) && field_names_ok(*a) && names_unique(*a) && id_name_ok(*a)
            && id_exists(*a) && refs_ok(*a) && single_relation(*a) && !relation_field_ok(*a),
        r is Ok ==> {
            let d = r->Ok_0;
            &&& d.wf()
            &&& d.table == a.table
            &&& d.id_field == a.id
            &&& d.dialect == spec_dialect_of(a.dialect)
            &&& d.roles.read == a.read_role
            &&& d.roles.update == a.update_role
            &&& d.roles.delete == a.delete_role
            &&& d.fields@.len() == a.fields@.len()
            &&& forall|i: int|
                0 <= i < a.fields@.len() ==> d.fields@[i] == spec_field_desc(
                    *a,
                    #[trigger] a.fields@[i],
                )
            &&& !has_relation(*a) ==> d.relation is None
            &&& has_relation(*a) ==> {
                let f = a.fields@[rel_field_idx(*a)];
                &&& d.relation is Some
                &&& d.relation->Some_0.field == f.name
                &&& d.relation->Some_0.parent_table@ == ref_parent_table(f.references->Some_0@)
                &&& d.relation->Some_0.parent_column@ == ref_parent_column(f.references->Some_0@)
                &&& d.relation->Some_0.nested_route == spec_nested_of(f.nested_route)
            }
        },
{
    let nf = a.fields.len();
    if !check_ident(a.table.as_str()) {
        return Result::Err(AnnotationError::InvalidTableName);
    }
    let mut i: usize = 0;
    while i < nf
        invariant
            nf == a.fields@.len(),
            0 <= i <= nf,
            forall|j: int| 0 <= j < i ==> is_ident((#[trigger] a.fields@[j]).name@),
        decreases nf - i,
    {
        if !check_ident(a.fields[i].name.as_str()) {
            proof {
                assert(!is_ident(a.fields@[i as int].name@));
                assert(table_ok(*a));
                assert(!field_names_ok(*a));
            }
            return Result::Err(AnnotationError::InvalidFieldName);
        }
        i += 1;
    }
    let mut i: usize = 0;
    while i < nf
        invariant
            nf == a.fields@.len(),
            0 <= i <= nf,
            forall|t: int, u: int|
                0 <= t < i && t < u < nf ==> (#[trigger] a.fields@[t]).name@ != (
                #[trigger] a.fields@[u]).name@,
        decreases nf - i,
    {
        let mut j: usize = i + 1;
        while j < nf
            invariant
                nf == a.fields@.len(),
                0 <= i < j <= nf,
                forall|u: int|
                    i < u < j ==> (#[trigger] a.fields@[u]).name@ != a.fields@[i as int].name@,
            decreases nf - j,
        {
            if a.fields[i].name.eq(&a.fields[j].name) {
                proof {
                    assert(a.fields@[i as int].name@ == a.fields@[j as int].name@);
                    assert(table_ok(*a));
                    assert(field_names_ok(*a));
                    assert(!names_unique(*a));
                }
                return Result::Err(AnnotationError::DuplicateFieldName);
            }
            j += 1;
        }
        i += 1;
    }
    let created_lit = String::from_str("created_at");
    let updated_lit = String::from_str("updated_at");
    if a.id.eq(&created_lit) || a.id.eq(&updated_lit) {
        return Result::Err(AnnotationError::InvalidIdField);
    }
    let mut id_found = false;
    let mut i: usize = 0;
    while i < nf
        invariant
            nf == a.fields@.len(),
            0 <= i <= nf,
            !id_found ==> forall|j: int| 0 <= j < i ==> (#[trigger] a.fields@[j]).name@ != a.id@,
            id_found ==> id_exists(*a),
        decreases nf - i,
    {
        if a.fields[i].name.eq(&a.id) {
            id_found = true;
        }
        i += 1;
    }
    if !id_found {
        return Result::Err(AnnotationError::MissingIdField);
    }
    let mut i: usize = 0;
    while i < nf
        invariant
            nf == a.fields@.len(),
            0 <= i <= nf,
            forall|j: int|
                0 <= j < i && rel_complete(#[trigger] a.fields@[j]) ==> valid_reference(
                    a.fields@[j].references->Some_0@,
                ),
        decreases nf - i,
    {
        let complete_here = a.fields[i].foreign_key.is_some() && a.fields[i].references.is_some();
        if complete_here {
            match &a.fields[i].references {
                Option::Some(rs) => {
                    match parse_reference(rs.as_str()) {
                        Option::Some(_) => {},
                        Option::None => {
                            proof {
                                assert(rel_complete(a.fields@[i as int]));
                                assert(!valid_reference(
                                    a.fields@[i as int].references->Some_0@,
                                ));
                                assert(table_ok(*a));
                                assert(field_names_ok(*a));
                                assert(names_unique(*a));
                                assert(id_name_ok(*a));
                                assert(id_exists(*a));
                                assert(!refs_ok(*a));
                            }
                            return Result::Err(AnnotationError::InvalidReference);
                        },
                    }
                },
                Option::None => {},
            }
        }
        i += 1;
    }
    let mut found: Option<usize> = Option::None;
    let mut i: usize = 0;
    while i < nf
        invariant
            nf == a.fields@.len(),
            0 <= i <= nf,
            match found {
                Option::None => forall|j: int| 0 <= j < i ==> !rel_complete(#[trigger] a.fields@[j]),
                Option::Some(k) => (k as int) < i && rel_complete(a.fields@[k as int]) && forall|
                    j: int,
                |
                    0 <= j < i && j != k as int ==> !rel_complete(#[trigger] a.fields@[j]),
            },
        decreases nf - i,
    {
        let complete_here = a.fields[i].foreign_key.is_some() && a.fields[i].references.is_some();
        if complete_here {
            match found {
                Option::None => {
                    found = Option::Some(i);
                },
                Option::Some(k) => {
                    proof {
                        assert(rel_complete(a.fields@[k as int]) && rel_complete(
                            a.fields@[i as int],
                        ));
                        assert(table_ok(*a));
                        assert(field_names_ok(*a));
                        assert(names_unique(*a));
                        assert(id_name_ok(*a));
                        assert(id_exists(*a));
                        assert(refs_ok(*a));
                        assert(!single_relation(*a));
                    }
                    return Result::Err(AnnotationError::MultipleRelations);
                },
            }
        }
        i += 1;
    }
    let relation: Option<RelationDescriptor> = match found {
        Option::None => {
            proof {
                assert(!has_relation(*a));
            }
            Option::None
        },
        Option::Some(k) => {
            proof {
                assert(has_relation(*a));
                let c = rel_field_idx(*a);
                assert(0 <= c < a.fields@.len() && rel_complete(a.fields@[c]));
                assert(c == k as int);
            }
            let f = &a.fields[k];
            if f.name.eq(&a.id) || f.name.eq(&created_lit) || f.name.eq(&updated_lit) {
                return Result::Err(AnnotationError::InvalidRelationField);
            }
            let kd = kind_of(f.declared_type.as_str());
            match kd {
                ScalarKind::Integer => {},
                _ => {
                    return Result::Err(AnnotationError::InvalidRelationField);
                },
            }
            match &f.references {
                Option::Some(rs) => {
                    match parse_reference(rs.as_str()) {
                        Option::Some(parts) => {
                            let nested = match &f.nested_route {
                                Option::Some(b) => *b,
                                Option::None => true,
                            };
                            Option::Some(
                                RelationDescriptor {
                                    field: f.name.clone(),
                                    parent_table: parts.0,
                                    parent_column: parts.1,
                                    nested_route: nested,
                                },
                            )
                        },
                        Option::None => {
                            proof {
                                assert(false);
                            }
                            Option::None
                        },
                    }
                },
                Option::None => {
                    proof {
                        assert(false);
                    }
                    Option::None
                },
            }
        },
    };
    let mut fields: Vec<FieldDescriptor> = Vec::new();
    let mut i: usize = 0;
    while i < nf
        invariant
            nf == a.fields@.len(),
            0 <= i <= nf,
            fields@.len() == i,
            forall|t: int|
                0 <= t < i ==> fields@[t] == spec_field_desc(*a, #[trigger] a.fields@[t]),
        decreases nf - i,
    {
        let f = &a.fields[i];
        let fd = FieldDescriptor {
            name: f.name.clone(),
            kind: kind_of(f.declared_type.as_str()),
            is_id: f.name.eq(&a.id),
            is_created: f.name.eq(&created_lit),
            is_updated: f.name.eq(&updated_lit),
        };
        proof {
            assert(fd == spec_field_desc(*a, a.fields@[i as int]));
        }
        fields.push(fd);
        i += 1;
    }
    let d = EntityDescriptor {
        table: a.table.clone(),
        id_field: a.id.clone(),
        dialect: dialect_of(&a.dialect),
        fields,
        roles: RoleRequirements {
            read: clone_role(&a.read_role),
            update: clone_role(&a.update_role),
            delete: clone_role(&a.delete_role),
        },
        relation,
    };
    proof {
        reveal_strlit("created_at");
        reveal_strlit("updated_at");
        assert("created_at"@ != "updated_at"@) by {
            assert("created_at"@[0] == 'c');
            assert("updated_at"@[0] == 'u');
        }
        assert(annotation_ok(*a));
        let wid = choose|w: int|
            0 <= w < a.fields@.len() && (#[trigger] a.fields@[w]).name@ == a.id@;
        assert(a.fields@.len() >= 1);
        assert(d.fields_wf()) by {
            assert forall|t: int| 0 <= t < d.fields@.len() implies (
            #[trigger] d.fields@[t]).wf() by {
                assert(d.fields@[t] == spec_field_desc(*a, a.fields@[t]));
            }
            assert forall|i: int, j: int| 0 <= i < j < d.fields@.len() implies (
            #[trigger] d.fields@[i]).name@ != (#[trigger] d.fields@[j]).name@ by {
                assert(d.fields@[i] == spec_field_desc(*a, a.fields@[i]));
                assert(d.fields@[j] == spec_field_desc(*a, a.fields@[j]));
                assert(a.fields@[i].name@ != a.fields@[j].name@);
            }
        }
        assert(d.id_wf()) by {
            assert(d.fields@[wid] == spec_field_desc(*a, a.fields@[wid]));
            assert(d.fields@[wid].is_id);
            assert forall|i: int, j: int|
                0 <= i < d.fields@.len() && 0 <= j < d.fields@.len() && (
                #[trigger] d.fields@[i]).is_id && (#[trigger] d.fields@[j]).is_id implies i
                == j by {
                assert(d.fields@[i] == spec_field_desc(*a, a.fields@[i]));
                assert(d.fields@[j] == spec_field_desc(*a, a.fields@[j]));
                if i < j {
                    assert(a.fields@[i].name@ != a.fields@[j].name@);
                }
                if j < i {
                    assert(a.fields@[j].name@ != a.fields@[i].name@);
                }
            }
        }
        assert(d.timestamps_wf()) by {
            assert forall|i: int, j: int|
                0 <= i < d.fields@.len() && 0 <= j < d.fields@.len() && (
                #[trigger] d.fields@[i]).is_updated && (#[trigger] d.fields@[j]).is_updated implies i
                == j by {
                assert(d.fields@[i] == spec_field_desc(*a, a.fields@[i]));
                assert(d.fields@[j] == spec_field_desc(*a, a.fields@[j]));
                if i < j {
                    assert(a.fields@[i].name@ != a.fields@[j].name@);
                }
                if j < i {
                    assert(a.fields@[j].name@ != a.fields@[i].name@);
                }
            }
            assert forall|i: int, j: int|
                0 <= i < d.fields@.len() && 0 <= j < d.fields@.len() && (
                #[trigger] d.fields@[i]).is_created && (#[trigger] d.fields@[j]).is_created implies i
                == j by {
                assert(d.fields@[i] == spec_field_desc(*a, a.fields@[i]));
                assert(d.fields@[j] == spec_field_desc(*a, a.fields@[j]));
                if i < j {
                    assert(a.fields@[i].name@ != a.fields@[j].name@);
                }
                if j < i {
                    assert(a.fields@[j].name@ != a.fields@[i].name@);
                }
            }
        }
        assert(d.relation_wf()) by {
            match d.relation {
                Option::None => {},
                Option::Some(rel) => {
                    let c = rel_field_idx(*a);
                    let f = a.fields@[c];
                    assert(valid_reference(f.references->Some_0@));
                    assert(ref_split_at(f.references->Some_0@, ref_dot(f.references->Some_0@)));
                    assert(d.fields@[c] == spec_field_desc(*a, f));
                    assert(d.fields@[c].name@ == rel.field@);
                    assert(d.fields@[c].is_data());
                    assert(d.fields@[c].kind == ScalarKind::Integer);
                },
            }
        }
        assert(d.wf());
    }
    Result::Ok(d)
}

} // verus!
