//! The partial-update compiler: from a partial record — every non-id field
//! independently present or absent — it builds the SET clause in declaration
//! order, appends the updated-timestamp assignment when one is declared and
//! not explicitly present, and binds values in clause order with the id
//! last. Zero present fields short-circuit: no statement is issued at all.

use vstd::prelude::*;
use vstd::string::StringExecFns;

use crate::descriptor::has_updated;
use crate::descriptor::updated_idx;
use crate::descriptor::Dialect;
use crate::descriptor::EntityDescriptor;
use crate::descriptor::FieldDescriptor;
use crate::sqlgen::placeholder;
use crate::sqlgen::spec_placeholder;
use crate::values::Value;

verus! {

/// A partial record slot takes part in the SET clause when it is present
/// and does not address the id column.
pub open spec fn slot_set(f: FieldDescriptor, o: Option<Value>) -> bool {
    !f.is_id && o is Some
}

/// Number of present (non-id) slots: the number of value placeholders the
/// patch statement binds before the id.
pub open spec fn count_present(fs: Seq<FieldDescriptor>, pr: Seq<Option<Value>>) -> int
    decreases fs.len(),
{
    if fs.len() == 0 || pr.len() != fs.len() {
        0
    } else {
        count_present(fs.drop_last(), pr.drop_last()) + if slot_set(fs.last(), pr.last()) {
            1int
        } else {
            0int
        }
    }
}

pub open spec fn has_present(fs: Seq<FieldDescriptor>, pr: Seq<Option<Value>>) -> bool {
    count_present(fs, pr) > 0
}

/// Whether the updated-timestamp field itself is explicitly present.
pub open spec fn updated_present(fs: Seq<FieldDescriptor>, pr: Seq<Option<Value>>) -> bool {
    exists|i: int|
        0 <= i < fs.len() && (#[trigger] fs[i]).is_updated && 0 <= i < pr.len() && pr[i] is Some
}

/// SET clauses for the present slots, in declaration order, ordinals
/// ascending with the binding order.
pub open spec fn spec_patch_sets(
    fs: Seq<FieldDescriptor>,
    pr: Seq<Option<Value>>,
    d: Dialect,
) -> Seq<char>
    decreases fs.len(),
{
    if fs.len() == 0 || pr.len() != fs.len() {
        Seq::empty()
    } else {
        let rest = spec_patch_sets(fs.drop_last(), pr.drop_last(), d);
        if slot_set(fs.last(), pr.last()) {
            let c = fs.last().name@ + " = "@ + spec_placeholder(
                d,
                count_present(fs.drop_last(), pr.drop_last()) + 1,
            );
            if has_present(fs.drop_last(), pr.drop_last()) {
                rest + ", "@ + c
            } else {
                c
            }
        } else {
            rest
        }
    }
}

/// The appended updated-timestamp assignment: only when the entity declares
/// one and the request did not set it explicitly.
pub open spec fn spec_patch_updated_assign(
    fs: Seq<FieldDescriptor>,
    pr: Seq<Option<Value>>,
) -> Seq<char> {
    if has_updated(fs) && !updated_present(fs, pr) {
        (if has_present(fs, pr) {
            ", "@
        } else {
            Seq::<char>::empty()
        }) + fs[updated_idx(fs)].name@ + " = CURRENT_TIMESTAMP"@
    } else {
        Seq::empty()
    }
}

/// The patch statement issued for a partial record with at least one
/// present slot; the single trailing placeholder is the id, bound last.
pub open spec fn spec_patch_sql(e: EntityDescriptor, pr: Seq<Option<Value>>) -> Seq<char> {
    "UPDATE "@ + e.table@ + " SET "@ + spec_patch_sets(e.fields@, pr, e.dialect)
        + spec_patch_updated_assign(e.fields@, pr) + " WHERE "@ + e.id_field@ + " = "@
        + spec_placeholder(e.dialect, count_present(e.fields@, pr) + 1)
}

pub proof fn lemma_count_present_nonneg(fs: Seq<FieldDescriptor>, pr: Seq<Option<Value>>)
    ensures
        0 <= count_present(fs, pr) <= fs.len(),
    decreases fs.len(),
{
    if fs.len() > 0 && pr.len() == fs.len() {
        lemma_count_present_nonneg(fs.drop_last(), pr.drop_last());
    }
}

/// With no present slot there is no SET clause.
pub proof fn lemma_no_present_empty(fs: Seq<FieldDescriptor>, pr: Seq<Option<Value>>, d: Dialect)
    requires
        !has_present(fs, pr),
    ensures
        spec_patch_sets(fs, pr, d) == Seq::<char>::empty(),
    decreases fs.len(),
{
    if fs.len() > 0 && pr.len() == fs.len() {
        lemma_count_present_nonneg(fs.drop_last(), pr.drop_last());
        lemma_no_present_empty(fs.drop_last(), pr.drop_last(), d);
    }
}

/// The values a patch statement binds, in emitted-clause order (the id is
/// bound last, by the caller of the statement).
pub open spec fn spec_patch_binds(fs: Seq<FieldDescriptor>, pr: Seq<Option<Value>>) -> Seq<Value>
    decreases fs.len(),
{
    if fs.len() == 0 || pr.len() != fs.len() {
        Seq::empty()
    } else {
        let rest = spec_patch_binds(fs.drop_last(), pr.drop_last());
        if slot_set(fs.last(), pr.last()) {
            rest.push(pr.last()->Some_0)
        } else {
            rest
        }
    }
}

/// Builds the patch statement, or nothing when no field is present: the
/// zero-present-fields case issues no SQL at all.
pub fn build_patch_sql(e: &EntityDescriptor, partial: &Vec<Option<Value>>) -> (r: Option<String>)
    requires
        e.wf(),
        partial@.len() == e.fields@.len(),
        e.fields@.len() < usize::MAX,
    ensures
        r is Some <==> has_present(e.fields@, partial@),
        r is Some ==> r->Some_0@ == spec_patch_sql(*e, partial@),
{
    let mut sets = String::new();
    let mut n: usize = 0;
    let mut i: usize = 0;
    proof {
        assert(e.fields@.take(0) =~= Seq::<FieldDescriptor>::empty());
        assert(partial@.take(0) =~= Seq::<Option<Value>>::empty());
    }
    while i < e.fields.len()
        invariant
            0 <= i <= e.fields@.len(),
            partial@.len() == e.fields@.len(),
            n <= i,
            n as int == count_present(e.fields@.take(i as int), partial@.take(i as int)),
            sets@ == spec_patch_sets(e.fields@.take(i as int), partial@.take(i as int), e.dialect),
        decreases e.fields@.len() - i,
    {
        let f = &e.fields[i];
        let set_here = !f.is_id && partial[i].is_some();
        if set_here {
            if n > 0 {
                sets.append(", ");
            }
            sets.append(f.name.as_str());
            sets.append(" = ");
            let p = placeholder(e.dialect, (n as u64) + 1);
            sets.append(p.as_str());
            n += 1;
        }
        proof {
            let fs = e.fields@;
            let ps = partial@;
            let t1 = fs.take(i as int + 1);
            let q1 = ps.take(i as int + 1);
            assert(t1.drop_last() =~= fs.take(i as int));
            assert(q1.drop_last() =~= ps.take(i as int));
            assert(t1.last() == fs[i as int]);
            assert(q1.last() == ps[i as int]);
            if set_here && n == 1 {
                lemma_no_present_empty(fs.take(i as int), ps.take(i as int), e.dialect);
            }
            assert(sets@ =~= spec_patch_sets(t1, q1, e.dialect));
        }
        i += 1;
    }
    proof {
        assert(e.fields@.take(e.fields@.len() as int) =~= e.fields@);
        assert(partial@.take(partial@.len() as int) =~= partial@);
    }
    if n == 0 {
        return Option::None;
    }
    let mut s = String::from_str("UPDATE ");
    s.append(e.table.as_str());
    s.append(" SET ");
    s.append(sets.as_str());
    let upd_here = updated_slot_present(e, partial);
    match crate::descriptor::updated_index(&e.fields) {
        Option::Some(ui) => {
            if !upd_here {
                s.append(", ");
                s.append(e.fields[ui].name.as_str());
                s.append(" = CURRENT_TIMESTAMP");
                proof {
                    let fs = e.fields@;
                    assert(fs[updated_idx(fs)].is_updated);
                    assert(updated_idx(fs) == ui as int);
                }
            }
        },
        Option::None => {},
    }
    s.append(" WHERE ");
    s.append(e.id_field.as_str());
    s.append(" = ");
    let p = placeholder(e.dialect, (n as u64) + 1);
    s.append(p.as_str());
    proof {
        assert(s@ =~= spec_patch_sql(*e, partial@));
    }
    Option::Some(s)
}

/// Whether the updated-timestamp slot is explicitly present.
fn updated_slot_present(e: &EntityDescriptor, partial: &Vec<Option<Value>>) -> (r: bool)
    requires
        partial@.len() == e.fields@.len(),
    ensures
        r == updated_present(e.fields@, partial@),
{
    let mut i: usize = 0;
    while i < e.fields.len()
        invariant
            0 <= i <= e.fields@.len(),
            partial@.len() == e.fields@.len(),
            forall|j: int|
                0 <= j < i ==> !((#[trigger] e.fields@[j]).is_updated && partial@[j] is Some),
        decreases e.fields@.len() - i,
    {
        if e.fields[i].is_updated && partial[i].is_some() {
            return true;
        }
        i += 1;
    }
    false
}

/// The bind list of a patch statement: present values in emitted-clause
/// order. The id is bound after these, last.
pub fn patch_bind_values(e: &EntityDescriptor, partial: &Vec<Option<Value>>) -> (r: Vec<Value>)
    requires
        partial@.len() == e.fields@.len(),
    ensures
        r@ =~= spec_patch_binds(e.fields@, partial@),
        r@.len() == count_present(e.fields@, partial@),
{
    let mut out: Vec<Value> = Vec::new();
    let mut i: usize = 0;
    proof {
        assert(e.fields@.take(0) =~= Seq::<FieldDescriptor>::empty());
        assert(partial@.take(0) =~= Seq::<Option<Value>>::empty());
    }
    while i < e.fields.len()
        invariant
            0 <= i <= e.fields@.len(),
            partial@.len() == e.fields@.len(),
            out@ == spec_patch_binds(e.fields@.take(i as int), partial@.take(i as int)),
            out@.len() == count_present(e.fields@.take(i as int), partial@.take(i as int)),
        decreases e.fields@.len() - i,
    {
        if !e.fields[i].is_id {
            match &partial[i] {
                Option::Some(v) => {
                    out.push(v.clone());
                },
                Option::None => {},
            }
        }
        proof {
            let fs = e.fields@;
            let ps = partial@;
            let t1 = fs.take(i as int + 1);
            let q1 = ps.take(i as int + 1);
            assert(t1.drop_last() =~= fs.take(i as int));
            assert(q1.drop_last() =~= ps.take(i as int));
            assert(t1.last() == fs[i as int]);
            assert(q1.last() == ps[i as int]);
            assert(out@ =~= spec_patch_binds(t1, q1));
        }
        i += 1;
    }
    proof {
        assert(e.fields@.take(e.fields@.len() as int) =~= e.fields@);
        assert(partial@.take(partial@.len() as int) =~= partial@);
    }
    out
}

/// The bind list of a patch statement is exactly as long as its value
/// placeholder count: one bound value per present slot, in clause order,
/// before the id placeholder that closes the statement.
pub proof fn lemma_patch_binds_len(fs: Seq<FieldDescriptor>, pr: Seq<Option<Value>>)
    ensures
        spec_patch_binds(fs, pr).len() == count_present(fs, pr),
    decreases fs.len(),
{
    if fs.len() > 0 && pr.len() == fs.len() {
        lemma_patch_binds_len(fs.drop_last(), pr.drop_last());
    }
}

} // verus!
