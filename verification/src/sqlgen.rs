//! The dialect-aware SQL emitter: DDL and CRUD statement templates derived
//! from an [`EntityDescriptor`], with placeholder syntax chosen per dialect
//! (`?` for positional dialects, ordinal `$1…$n` for postgres-style ones).
//! Binding order is a hard contract: values in field-declaration order, the
//! id bound last for every statement that filters by id.

use vstd::prelude::*;
use vstd::string::StringExecFns;

use crate::descriptor::count_data;
use crate::descriptor::has_data;
use crate::descriptor::has_updated;
use crate::descriptor::id_idx;
use crate::descriptor::is_ident;
use crate::descriptor::updated_idx;
use crate::descriptor::Dialect;
use crate::descriptor::EntityDescriptor;
use crate::descriptor::FieldDescriptor;
use crate::descriptor::ScalarKind;

verus! {

/// Decimal digit as a one-character sequence.
pub open spec fn spec_digit(d: int) -> Seq<char> {
    if d == 0 {
        seq!['0']
    } else if d == 1 {
        seq!['1']
    } else if d == 2 {
        seq!['2']
    } else if d == 3 {
        seq!['3']
    } else if d == 4 {
        seq!['4']
    } else if d == 5 {
        seq!['5']
    } else if d == 6 {
        seq!['6']
    } else if d == 7 {
        seq!['7']
    } else if d == 8 {
        seq!['8']
    } else if d == 9 {
        seq!['9']
    } else {
        Seq::empty()
    }
}

/// Decimal rendering of a non-negative integer, no leading zeros.
pub open spec fn spec_dec(n: int) -> Seq<char>
    decreases n,
{
    if n < 0 {
        Seq::empty()
    } else if n < 10 {
        spec_digit(n)
    } else {
        spec_dec(n / 10) + spec_digit(n % 10)
    }
}

fn digit_str(d: u64) -> (r: &'static str)
    requires
        d < 10,
    ensures
        r@ == spec_digit(d as int),
{
    proof {
        reveal_strlit("0");
        reveal_strlit("1");
        reveal_strlit("2");
        reveal_strlit("3");
        reveal_strlit("4");
        reveal_strlit("5");
        reveal_strlit("6");
        reveal_strlit("7");
        reveal_strlit("8");
        reveal_strlit("9");
    }
    if d == 0 {
        proof {
            assert("0"@ =~= seq!['0']);
        }
        "0"
    } else if d == 1 {
        proof {
            assert("1"@ =~= seq!['1']);
        }
        "1"
    } else if d == 2 {
        proof {
            assert("2"@ =~= seq!['2']);
        }
        "2"
    } else if d == 3 {
        proof {
            assert("3"@ =~= seq!['3']);
        }
        "3"
    } else if d == 4 {
        proof {
            assert("4"@ =~= seq!['4']);
        }
        "4"
    } else if d == 5 {
        proof {
            assert("5"@ =~= seq!['5']);
        }
        "5"
    } else if d == 6 {
        proof {
            assert("6"@ =~= seq!['6']);
        }
        "6"
    } else if d == 7 {
        proof {
            assert("7"@ =~= seq!['7']);
        }
        "7"
    } else if d == 8 {
        proof {
            assert("8"@ =~= seq!['8']);
        }
        "8"
    } else {
        proof {
            assert("9"@ =~= seq!['9']);
        }
        "9"
    }
}

/// Renders `n` in decimal.
pub fn dec_str(n: u64) -> (r: String)
    ensures
        r@ == spec_dec(n as int),
    decreases n,
{
    if n < 10 {
        let d = digit_str(n);
        d.to_owned()
    } else {
        let mut s = dec_str(n / 10);
        s.append(digit_str(n % 10));
        s
    }
}

/// One value placeholder: `?` for positional dialects, `$n` for postgres.
pub open spec fn spec_placeholder(d: Dialect, n: int) -> Seq<char> {
    match d {
        Dialect::Postgres => "$"@ + spec_dec(n),
        _ => "?"@,
    }
}

pub fn placeholder(d: Dialect, n: u64) -> (r: String)
    ensures
        r@ == spec_placeholder(d, n as int),
{
    match d {
        Dialect::Postgres => {
            let mut s = String::from_str("$");
            let t = dec_str(n);
            s.append(t.as_str());
            s
        },
        _ => String::from_str("?"),
    }
}

pub open spec fn spec_sql_type(k: ScalarKind) -> Seq<char> {
    match k {
        ScalarKind::Integer => "INTEGER"@,
        ScalarKind::Real => "REAL"@,
        ScalarKind::Text => "TEXT"@,
    }
}

fn sql_type(k: ScalarKind) -> (r: &'static str)
    ensures
        r@ == spec_sql_type(k),
{
    match k {
        ScalarKind::Integer => "INTEGER",
        ScalarKind::Real => "REAL",
        ScalarKind::Text => "TEXT",
    }
}

/// Column definition in the DDL: the id column auto-increments, timestamp
/// columns default to the current time.
pub open spec fn spec_col_def(f: FieldDescriptor) -> Seq<char> {
    if f.is_id {
        f.name@ + " INTEGER PRIMARY KEY AUTOINCREMENT"@
    } else if f.is_timestamp() {
        f.name@ + " TEXT DEFAULT CURRENT_TIMESTAMP"@
    } else {
        f.name@ + " "@ + spec_sql_type(f.kind)
    }
}

fn col_def(f: &FieldDescriptor) -> (r: String)
    ensures
        r@ == spec_col_def(*f),
{
    let mut s = f.name.clone();
    if f.is_id {
        s.append(" INTEGER PRIMARY KEY AUTOINCREMENT");
    } else if f.is_created || f.is_updated {
        s.append(" TEXT DEFAULT CURRENT_TIMESTAMP");
    } else {
        s.append(" ");
        s.append(sql_type(f.kind));
    }
    s
}

/// All column definitions, joined by `", "` in declaration order.
pub open spec fn spec_col_defs(fs: Seq<FieldDescriptor>) -> Seq<char>
    decreases fs.len(),
{
    if fs.len() == 0 {
        Seq::empty()
    } else if fs.len() == 1 {
        spec_col_def(fs[0])
    } else {
        spec_col_defs(fs.drop_last()) + ", "@ + spec_col_def(fs.last())
    }
}

/// The idempotent materialization DDL.
pub open spec fn spec_ddl(e: EntityDescriptor) -> Seq<char> {
    "CREATE TABLE IF NOT EXISTS "@ + e.table@ + " ("@ + spec_col_defs(e.fields@) + ")"@
}

pub fn ddl(e: &EntityDescriptor) -> (r: String)
    ensures
        r@ == spec_ddl(*e),
{
    let mut s = String::from_str("CREATE TABLE IF NOT EXISTS ");
    s.append(e.table.as_str());
    s.append(" (");
    let ghost pre: Seq<char> = s@;
    proof {
        assert(pre + spec_col_defs(e.fields@.take(0)) =~= pre);
    }
    let mut i: usize = 0;
    while i < e.fields.len()
        invariant
            0 <= i <= e.fields@.len(),
            s@ == pre + spec_col_defs(e.fields@.take(i as int)),
        decreases e.fields@.len() - i,
    {
        if i > 0 {
            s.append(", ");
        }
        let c = col_def(&e.fields[i]);
        s.append(c.as_str());
        proof {
            let fs = e.fields@;
            let t1 = fs.take(i as int + 1);
            assert(t1.drop_last() =~= fs.take(i as int));
            assert(t1.last() == fs[i as int]);
            assert(s@ =~= pre + spec_col_defs(t1));
        }
        i += 1;
    }
    proof {
        assert(e.fields@.take(e.fields@.len() as int) =~= e.fields@);
    }
    s.append(")");
    s
}

/// Names of the data fields (everything but id and timestamps), joined by
/// `", "` in declaration order: the insert column list.
pub open spec fn spec_insert_cols(fs: Seq<FieldDescriptor>) -> Seq<char>
    decreases fs.len(),
{
    if fs.len() == 0 {
        Seq::empty()
    } else {
        let rest = spec_insert_cols(fs.drop_last());
        let f = fs.last();
        if f.is_data() {
            if has_data(fs.drop_last()) {
                rest + ", "@ + f.name@
            } else {
                f.name@
            }
        } else {
            rest
        }
    }
}

/// Insert value placeholders, one per data field, ordinals ascending in
/// declaration order.
pub open spec fn spec_insert_phs(fs: Seq<FieldDescriptor>, d: Dialect) -> Seq<char>
    decreases fs.len(),
{
    if fs.len() == 0 {
        Seq::empty()
    } else {
        let rest = spec_insert_phs(fs.drop_last(), d);
        let f = fs.last();
        if f.is_data() {
            let p = spec_placeholder(d, count_data(fs.drop_last()) + 1);
            if has_data(fs.drop_last()) {
                rest + ", "@ + p
            } else {
                p
            }
        } else {
            rest
        }
    }
}

pub proof fn lemma_count_data_nonneg(fs: Seq<FieldDescriptor>)
    ensures
        0 <= count_data(fs) <= fs.len(),
    decreases fs.len(),
{
    if fs.len() > 0 {
        lemma_count_data_nonneg(fs.drop_last());
    }
}

/// With no data field there is no insert column, no insert placeholder and
/// no full-update SET clause.
pub proof fn lemma_no_data_empty(fs: Seq<FieldDescriptor>, d: Dialect)
    requires
        !has_data(fs),
    ensures
        spec_insert_cols(fs) == Seq::<char>::empty(),
        spec_insert_phs(fs, d) == Seq::<char>::empty(),
        spec_update_sets(fs, d) == Seq::<char>::empty(),
    decreases fs.len(),
{
    if fs.len() > 0 {
        lemma_count_data_nonneg(fs.drop_last());
        assert(!fs.last().is_data());
        lemma_no_data_empty(fs.drop_last(), d);
    }
}

/// The insert template: column list = all data fields; placeholders in
/// dialect-specific form; timestamps and the id are left to the store.
pub open spec fn spec_insert_sql(e: EntityDescriptor) -> Seq<char> {
    "INSERT INTO "@ + e.table@ + " ("@ + spec_insert_cols(e.fields@) + ") VALUES ("@
        + spec_insert_phs(e.fields@, e.dialect) + ")"@
}

pub fn insert_sql(e: &EntityDescriptor) -> (r: String)
    ensures
        r@ == spec_insert_sql(*e),
{
    let mut cols = String::new();
    let mut phs = String::new();
    let mut n: usize = 0;
    let mut i: usize = 0;
    proof {
        assert(e.fields@.take(0) =~= Seq::<FieldDescriptor>::empty());
    }
    while i < e.fields.len()
        invariant
            0 <= i <= e.fields@.len(),
            n <= i,
            n as int == count_data(e.fields@.take(i as int)),
            cols@ == spec_insert_cols(e.fields@.take(i as int)),
            phs@ == spec_insert_phs(e.fields@.take(i as int), e.dialect),
        decreases e.fields@.len() - i,
    {
        let f = &e.fields[i];
        let data = !f.is_id && !f.is_created && !f.is_updated;
        if data {
            if n > 0 {
                cols.append(", ");
                phs.append(", ");
            }
            cols.append(f.name.as_str());
            let p = placeholder(e.dialect, (n as u64) + 1);
            phs.append(p.as_str());
            n += 1;
        }
        proof {
            let fs = e.fields@;
            let t1 = fs.take(i as int + 1);
            assert(t1.drop_last() =~= fs.take(i as int));
            assert(t1.last() == fs[i as int]);
            if data && n == 1 {
                lemma_no_data_empty(fs.take(i as int), e.dialect);
            }
            assert(cols@ =~= spec_insert_cols(t1));
            assert(phs@ =~= spec_insert_phs(t1, e.dialect));
        }
        i += 1;
    }
    proof {
        assert(e.fields@.take(e.fields@.len() as int) =~= e.fields@);
    }
    let mut s = String::from_str("INSERT INTO ");
    s.append(e.table.as_str());
    s.append(" (");
    s.append(cols.as_str());
    s.append(") VALUES (");
    s.append(phs.as_str());
    s.append(")");
    proof {
        assert(s@ =~= spec_insert_sql(*e));
    }
    s
}

/// Full-update SET clauses: every data field in declaration order, ordinal
/// placeholders ascending with the binding order.
pub open spec fn spec_update_sets(fs: Seq<FieldDescriptor>, d: Dialect) -> Seq<char>
    decreases fs.len(),
{
    if fs.len() == 0 {
        Seq::empty()
    } else {
        let rest = spec_update_sets(fs.drop_last(), d);
        let f = fs.last();
        if f.is_data() {
            let c = f.name@ + " = "@ + spec_placeholder(d, count_data(fs.drop_last()) + 1);
            if has_data(fs.drop_last()) {
                rest + ", "@ + c
            } else {
                c
            }
        } else {
            rest
        }
    }
}

/// The appended updated-timestamp assignment, when the entity declares one.
pub open spec fn spec_updated_assign(e: EntityDescriptor) -> Seq<char> {
    if has_updated(e.fields@) {
        (if has_data(e.fields@) {
            ", "@
        } else {
            Seq::<char>::empty()
        }) + e.fields@[updated_idx(e.fields@)].name@ + " = CURRENT_TIMESTAMP"@
    } else {
        Seq::empty()
    }
}

/// The full-update template: SET clauses for all data fields in declaration
/// order, the updated-timestamp assignment appended if declared, id filter
/// bound last.
pub open spec fn spec_update_sql(e: EntityDescriptor) -> Seq<char> {
    "UPDATE "@ + e.table@ + " SET "@ + spec_update_sets(e.fields@, e.dialect)
        + spec_updated_assign(e) + " WHERE "@ + e.id_field@ + " = "@ + spec_placeholder(
        e.dialect,
        count_data(e.fields@) + 1,
    )
}

pub fn update_sql(e: &EntityDescriptor) -> (r: String)
    requires
        e.wf(),
        e.fields@.len() < usize::MAX,
    ensures
        r@ == spec_update_sql(*e),
{
    let mut sets = String::new();
    let mut n: usize = 0;
    let mut i: usize = 0;
    proof {
        assert(e.fields@.take(0) =~= Seq::<FieldDescriptor>::empty());
    }
    while i < e.fields.len()
        invariant
            0 <= i <= e.fields@.len(),
            n <= i,
            n as int == count_data(e.fields@.take(i as int)),
            sets@ == spec_update_sets(e.fields@.take(i as int), e.dialect),
        decreases e.fields@.len() - i,
    {
        let f = &e.fields[i];
        let data = !f.is_id && !f.is_created && !f.is_updated;
        if data {
            if n > 0 {
                sets.append(", ");
            }
            sets.append(f.name.as_str());
            sets.append(" = ");
            let p = placeholder(e.dialect, (n as u64) + 1);
            sets.append(p.as_str());
            n += 1;
        }
        proof {
            let fs = e.fields@;
            let t1 = fs.take(i as int + 1);
            assert(t1.drop_last() =~= fs.take(i as int));
            assert(t1.last() == fs[i as int]);
            if data && n == 1 {
                lemma_no_data_empty(fs.take(i as int), e.dialect);
            }
            assert(sets@ =~= spec_update_sets(t1, e.dialect));
        }
        i += 1;
    }
    proof {
        assert(e.fields@.take(e.fields@.len() as int) =~= e.fields@);
    }
    let mut s = String::from_str("UPDATE ");
    s.append(e.table.as_str());
    s.append(" SET ");
    s.append(sets.as_str());
    match crate::descriptor::updated_index(&e.fields) {
        Option::Some(ui) => {
            if n > 0 {
                s.append(", ");
            }
            s.append(e.fields[ui].name.as_str());
            s.append(" = CURRENT_TIMESTAMP");
            proof {
                let fs = e.fields@;
                assert(fs[updated_idx(fs)].is_updated);
                assert(updated_idx(fs) == ui as int);
            }
        },
        Option::None => {
            proof {
                assert(spec_updated_assign(*e) =~= Seq::<char>::empty());
            }
        },
    }
    s.append(" WHERE ");
    s.append(e.id_field.as_str());
    s.append(" = ");
    let p = placeholder(e.dialect, (n as u64) + 1);
    s.append(p.as_str());
    proof {
        assert(s@ =~= spec_update_sql(*e));
    }
    s
}

/// List-all template.
pub open spec fn spec_select_all(e: EntityDescriptor) -> Seq<char> {
    "SELECT * FROM "@ + e.table@
}

pub fn select_all_sql(e: &EntityDescriptor) -> (r: String)
    ensures
        r@ == spec_select_all(*e),
{
    let mut s = String::from_str("SELECT * FROM ");
    s.append(e.table.as_str());
    s
}

/// Fetch-one template; the single bound value is the id.
pub open spec fn spec_select_by_id(e: EntityDescriptor) -> Seq<char> {
    spec_select_all(e) + " WHERE "@ + e.id_field@ + " = "@ + spec_placeholder(e.dialect, 1)
}

pub fn select_by_id_sql(e: &EntityDescriptor) -> (r: String)
    ensures
        r@ == spec_select_by_id(*e),
{
    let mut s = select_all_sql(e);
    s.append(" WHERE ");
    s.append(e.id_field.as_str());
    s.append(" = ");
    let p = placeholder(e.dialect, 1);
    s.append(p.as_str());
    proof {
        assert(s@ =~= spec_select_by_id(*e));
    }
    s
}

/// Nested-list template: children whose relation field equals the bound
/// parent id.
pub open spec fn spec_select_by_parent(e: EntityDescriptor) -> Seq<char>
    recommends
        e.relation is Some,
{
    spec_select_all(e) + " WHERE "@ + e.relation->Some_0.field@ + " = "@ + spec_placeholder(
        e.dialect,
        1,
    )
}

pub fn select_by_parent_sql(e: &EntityDescriptor) -> (r: String)
    requires
        e.relation is Some,
    ensures
        r@ == spec_select_by_parent(*e),
{
    let mut s = select_all_sql(e);
    s.append(" WHERE ");
    match &e.relation {
        Option::Some(rel) => {
            s.append(rel.field.as_str());
        },
        Option::None => {},
    }
    s.append(" = ");
    let p = placeholder(e.dialect, 1);
    s.append(p.as_str());
    proof {
        assert(s@ =~= spec_select_by_parent(*e));
    }
    s
}

/// Delete template; the single bound value is the id.
pub open spec fn spec_delete_sql(e: EntityDescriptor) -> Seq<char> {
    "DELETE FROM "@ + e.table@ + " WHERE "@ + e.id_field@ + " = "@ + spec_placeholder(
        e.dialect,
        1,
    )
}

pub fn delete_sql(e: &EntityDescriptor) -> (r: String)
    ensures
        r@ == spec_delete_sql(*e),
{
    let mut s = String::from_str("DELETE FROM ");
    s.append(e.table.as_str());
    s.append(" WHERE ");
    s.append(e.id_field.as_str());
    s.append(" = ");
    let p = placeholder(e.dialect, 1);
    s.append(p.as_str());
    proof {
        assert(s@ =~= spec_delete_sql(*e));
    }
    s
}


/// Number of occurrences of `c` in `s`.
pub open spec fn count_char(s: Seq<char>, c: char) -> int
    decreases s.len(),
{
    if s.len() == 0 {
        0
    } else {
        count_char(s.drop_last(), c) + if s.last() == c {
            1int
        } else {
            0int
        }
    }
}

pub proof fn lemma_count_char_add(x: Seq<char>, y: Seq<char>, c: char)
    ensures
        count_char(x + y, c) == count_char(x, c) + count_char(y, c),
    decreases y.len(),
{
    if y.len() == 0 {
        assert(x + y =~= x);
    } else {
        lemma_count_char_add(x, y.drop_last(), c);
        assert((x + y).drop_last() =~= x + y.drop_last());
        assert((x + y).last() == y.last());
    }
}

pub proof fn lemma_count_char_zero(s: Seq<char>, c: char)
    requires
        forall|i: int| 0 <= i < s.len() ==> s[i] != c,
    ensures
        count_char(s, c) == 0,
    decreases s.len(),
{
    if s.len() > 0 {
        lemma_count_char_zero(s.drop_last(), c);
    }
}

/// A SQL identifier holds no placeholder marker.
pub proof fn lemma_ident_no_dollar(s: Seq<char>)
    requires
        crate::descriptor::is_ident(s),
    ensures
        count_char(s, '$') == 0,
{
    assert forall|i: int| 0 <= i < s.len() implies s[i] != '$' by {
        assert(crate::descriptor::is_ident_char(s[i]));
    }
    lemma_count_char_zero(s, '$');
}

proof fn lemma_digit_no_dollar(d: int)
    ensures
        count_char(spec_digit(d), '$') == 0,
{
    reveal_with_fuel(count_char, 3);
}

/// A decimal rendering holds only digit characters.
pub proof fn lemma_dec_no_dollar(n: int)
    ensures
        count_char(spec_dec(n), '$') == 0,
    decreases n,
{
    if n < 10 {
        lemma_digit_no_dollar(n);
    } else {
        lemma_dec_no_dollar(n / 10);
        lemma_count_char_add(spec_dec(n / 10), spec_digit(n % 10), '$');
        lemma_digit_no_dollar(n % 10);
    }
}

/// An ordinal placeholder holds exactly one marker.
pub proof fn lemma_placeholder_dollar(n: int)
    ensures
        count_char(spec_placeholder(Dialect::Postgres, n), '$') == 1,
{
    reveal_strlit("$");
    assert(count_char("$"@, '$') == 1) by {
        reveal_with_fuel(count_char, 3);
        assert("$"@.len() == 1);
        assert("$"@[0] == '$');
        assert("$"@.drop_last() =~= Seq::<char>::empty());
    }
    lemma_count_char_add("$"@, spec_dec(n), '$');
    lemma_dec_no_dollar(n);
}

proof fn lemma_strlit_no_dollar()
    ensures
        count_char("UPDATE "@, '$') == 0,
        count_char(" SET "@, '$') == 0,
        count_char(", "@, '$') == 0,
        count_char(" = "@, '$') == 0,
        count_char(" = CURRENT_TIMESTAMP"@, '$') == 0,
        count_char(" WHERE "@, '$') == 0,
{
    reveal_strlit("UPDATE ");
    reveal_strlit(" SET ");
    reveal_strlit(", ");
    reveal_strlit(" = ");
    reveal_strlit(" = CURRENT_TIMESTAMP");
    reveal_strlit(" WHERE ");
    assert forall|i: int| 0 <= i < "UPDATE "@.len() implies "UPDATE "@[i] != '$' by {}
    lemma_count_char_zero("UPDATE "@, '$');
    assert forall|i: int| 0 <= i < " SET "@.len() implies " SET "@[i] != '$' by {}
    lemma_count_char_zero(" SET "@, '$');
    assert forall|i: int| 0 <= i < ", "@.len() implies ", "@[i] != '$' by {}
    lemma_count_char_zero(", "@, '$');
    assert forall|i: int| 0 <= i < " = "@.len() implies " = "@[i] != '$' by {}
    lemma_count_char_zero(" = "@, '$');
    assert forall|i: int| 0 <= i < " = CURRENT_TIMESTAMP"@.len() implies " = CURRENT_TIMESTAMP"@[i]
        != '$' by {}
    lemma_count_char_zero(" = CURRENT_TIMESTAMP"@, '$');
    assert forall|i: int| 0 <= i < " WHERE "@.len() implies " WHERE "@[i] != '$' by {}
    lemma_count_char_zero(" WHERE "@, '$');
}

proof fn lemma_update_sets_dollar(fs: Seq<FieldDescriptor>)
    requires
        forall|i: int| 0 <= i < fs.len() ==> (#[trigger] fs[i]).wf(),
    ensures
        count_char(spec_update_sets(fs, Dialect::Postgres), '$') == count_data(fs),
    decreases fs.len(),
{
    lemma_strlit_no_dollar();
    if fs.len() > 0 {
        assert forall|i: int| 0 <= i < fs.drop_last().len() implies (
        #[trigger] fs.drop_last()[i]).wf() by {
            assert(fs.drop_last()[i] == fs[i]);
        }
        lemma_update_sets_dollar(fs.drop_last());
        lemma_count_data_nonneg(fs.drop_last());
        let rest = spec_update_sets(fs.drop_last(), Dialect::Postgres);
        let f = fs.last();
        if f.is_data() {
            assert(f.wf());
            lemma_ident_no_dollar(f.name@);
            lemma_placeholder_dollar(count_data(fs.drop_last()) + 1);
            let c = f.name@ + " = "@ + spec_placeholder(
                Dialect::Postgres,
                count_data(fs.drop_last()) + 1,
            );
            lemma_count_char_add(f.name@, " = "@, '$');
            lemma_count_char_add(
                f.name@ + " = "@,
                spec_placeholder(Dialect::Postgres, count_data(fs.drop_last()) + 1),
                '$',
            );
            assert(count_char(c, '$') == 1);
            if has_data(fs.drop_last()) {
                lemma_count_char_add(rest, ", "@, '$');
                lemma_count_char_add(rest + ", "@, c, '$');
            }
        }
    }
}

/// Dialect correctness for a postgres-style update statement: the number
/// of ordinal placeholders in the emitted SQL is exactly the number of
/// bound values — one per data field, in declaration order with ordinals
/// ascending from 1, plus the id bound last under the final ordinal.
pub proof fn lemma_postgres_update_placeholders(e: EntityDescriptor)
    requires
        e.wf(),
        e.dialect == Dialect::Postgres,
    ensures
        count_char(spec_update_sql(e), '$') == count_data(e.fields@) + 1,
{
    lemma_strlit_no_dollar();
    let fs = e.fields@;
    lemma_update_sets_dollar(fs);
    lemma_ident_no_dollar(e.table@);
    assert(is_ident(e.id_field@)) by {
        let w = id_idx(fs);
        assert(fs[w].is_id);
        assert(fs[w].wf());
        assert(fs[w].name@ == e.id_field@);
    }
    lemma_ident_no_dollar(e.id_field@);
    lemma_placeholder_dollar(count_data(fs) + 1);
    let p1 = "UPDATE "@;
    let p2 = p1 + e.table@;
    let p3 = p2 + " SET "@;
    let p4 = p3 + spec_update_sets(fs, e.dialect);
    let p5 = p4 + spec_updated_assign(e);
    let p6 = p5 + " WHERE "@;
    let p7 = p6 + e.id_field@;
    let p8 = p7 + " = "@;
    let p9 = p8 + spec_placeholder(e.dialect, count_data(fs) + 1);
    assert(count_char(spec_updated_assign(e), '$') == 0) by {
        if has_updated(fs) {
            let u = updated_idx(fs);
            assert(fs[u].is_updated);
            assert(fs[u].wf());
            lemma_ident_no_dollar(fs[u].name@);
            let sep: Seq<char> = if has_data(fs) {
                ", "@
            } else {
                Seq::<char>::empty()
            };
            lemma_count_char_zero(Seq::<char>::empty(), '$');
            lemma_count_char_add(sep, fs[u].name@, '$');
            lemma_count_char_add(sep + fs[u].name@, " = CURRENT_TIMESTAMP"@, '$');
        } else {
            lemma_count_char_zero(Seq::<char>::empty(), '$');
        }
    }
    lemma_count_char_add(p1, e.table@, '$');
    lemma_count_char_add(p2, " SET "@, '$');
    lemma_count_char_add(p3, spec_update_sets(fs, e.dialect), '$');
    lemma_count_char_add(p4, spec_updated_assign(e), '$');
    lemma_count_char_add(p5, " WHERE "@, '$');
    lemma_count_char_add(p6, e.id_field@, '$');
    lemma_count_char_add(p7, " = "@, '$');
    lemma_count_char_add(p8, spec_placeholder(e.dialect, count_data(fs) + 1), '$');
    assert(spec_update_sql(e) == p9);
}

} // verus!
