//! An in-memory reference store for one entity: the storage semantics the
//! emitted statements are held to. One table per entity, an auto-increment
//! id, timestamp columns filled by the store. Materialization is modelled
//! explicitly, including the accepted startup race: an operation against a
//! not-yet-created table is a storage error, decided by the handlers.

use vstd::prelude::*;
use crate::descriptor::id_idx;
use crate::descriptor::id_index;
use crate::descriptor::EntityDescriptor;
use crate::partial::count_present;
use crate::values::clone_row;
use crate::values::Value;

verus! {

/// Mathematical model of one cell.
pub enum ValueView {
    VInt(int),
    VReal(u64),
    VText(Seq<char>),
}

impl View for Value {
    type V = ValueView;

    open spec fn view(&self) -> ValueView {
        match self {
            Value::Int(x) => ValueView::VInt(*x as int),
            Value::Real(b) => ValueView::VReal(*b),
            Value::Text(s) => ValueView::VText(s@),
        }
    }
}

/// Model of a row: one cell per field, in declaration order.
pub open spec fn row_model(r: Vec<Value>) -> Seq<ValueView> {
    r@.map_values(|v: Value| v@)
}

/// Model of a partial record.
pub open spec fn partial_model(p: Vec<Option<Value>>) -> Seq<Option<ValueView>> {
    p@.map_values(
        |o: Option<Value>|
            match o {
                Option::Some(v) => Option::Some(v@),
                Option::None => Option::<ValueView>::None,
            },
    )
}

/// The backing table of one entity.
pub struct EntityStore {
    pub created: bool,
    pub next_id: i64,
    pub rows: Vec<Vec<Value>>,
}

/// Model of the whole table, in insertion order.
pub open spec fn rows_model(s: EntityStore) -> Seq<Seq<ValueView>> {
    s.rows@.map_values(|r: Vec<Value>| row_model(r))
}

/// The id cell of a row.
pub open spec fn spec_row_id(e: EntityDescriptor, r: Seq<ValueView>) -> int {
    r[id_idx(e.fields@)]->VInt_0
}

/// Store invariant: every row is full-width, carries an integer id below
/// the auto-increment counter, and ids are unique.
pub open spec fn store_inv(e: EntityDescriptor, s: EntityStore) -> bool {
    &&& e.wf()
    &&& 1 <= s.next_id
    &&& forall|k: int|
        0 <= k < rows_model(s).len() ==> {
            &&& (#[trigger] rows_model(s)[k]).len() == e.fields@.len()
            &&& rows_model(s)[k][id_idx(e.fields@)] is VInt
            &&& 1 <= spec_row_id(e, rows_model(s)[k]) < s.next_id
        }
    &&& forall|k1: int, k2: int|
        0 <= k1 < k2 < rows_model(s).len() ==> spec_row_id(e, #[trigger] rows_model(s)[k1])
            != spec_row_id(e, #[trigger] rows_model(s)[k2])
}

/// A fresh, not-yet-materialized store.
pub fn new_store() -> (s: EntityStore)
    ensures
        !s.created,
        s.next_id == 1,
        rows_model(s) =~= Seq::<Seq<ValueView>>::empty(),
        forall|e: EntityDescriptor| e.wf() ==> store_inv(e, s),
{
    EntityStore { created: false, next_id: 1, rows: Vec::new() }
}

/// What materialization does to a store: it creates the table if it does
/// not exist and touches nothing else.
pub open spec fn spec_materialize(s: EntityStore) -> EntityStore {
    EntityStore { created: true, ..s }
}

/// Runs the materialization DDL against the store. It never errors and
/// never disturbs existing data.
pub fn materialize(s: &mut EntityStore)
    ensures
        *final(s) == spec_materialize(*old(s)),
        final(s).created,
        final(s).rows == old(s).rows,
        final(s).next_id == old(s).next_id,
{
    s.created = true;
}

/// Materialization is idempotent: a second run against the same store is a
/// no-op, so invoking the DDL twice never errors and never changes data.
pub proof fn lemma_materialize_idempotent(s: EntityStore)
    ensures
        spec_materialize(spec_materialize(s)) == spec_materialize(s),
        rows_model(spec_materialize(s)) == rows_model(s),
{
}

/// The row an insert constructs: storage populates the id, timestamps get
/// the current time, every data cell takes the submitted value.
pub open spec fn spec_new_row(
    e: EntityDescriptor,
    p: Seq<ValueView>,
    now: Seq<char>,
    id: int,
) -> Seq<ValueView> {
    Seq::new(
        e.fields@.len(),
        |j: int|
            if e.fields@[j].is_id {
                ValueView::VInt(id)
            } else if e.fields@[j].is_timestamp() {
                ValueView::VText(now)
            } else {
                p[j]
            },
    )
}

/// Finds the position of the row with the given id, if any.
fn find_row(e: &EntityDescriptor, s: &EntityStore, id: i64) -> (r: Option<usize>)
    requires
        store_inv(*e, *s),
    ensures
        match r {
            Option::Some(k) => k < rows_model(*s).len() && spec_row_id(*e, rows_model(*s)[k as int])
                == id as int,
            Option::None => forall|k: int|
                0 <= k < rows_model(*s).len() ==> spec_row_id(*e, #[trigger] rows_model(*s)[k])
                    != id as int,
        },
{
    let idi = id_index(&e.fields);
    proof {
        assert(idi as int == id_idx(e.fields@)) by {
            assert(e.fields@[id_idx(e.fields@)].is_id);
        }
    }
    let mut i: usize = 0;
    while i < s.rows.len()
        invariant
            store_inv(*e, *s),
            0 <= i <= s.rows@.len(),
            idi as int == id_idx(e.fields@),
            forall|k: int|
                0 <= k < i ==> spec_row_id(*e, #[trigger] rows_model(*s)[k]) != id as int,
        decreases s.rows@.len() - i,
    {
        let row = &s.rows[i];
        proof {
            assert(rows_model(*s)[i as int] == row_model(*row));
            assert(rows_model(*s)[i as int].len() == e.fields@.len());
        }
        match &row[idi] {
            Value::Int(x) => {
                if *x == id {
                    return Option::Some(i);
                }
            },
            _ => {},
        }
        i += 1;
    }
    Option::None
}

/// Inserts a payload: the store assigns the next id, fills timestamp cells
/// with `now`, and appends the row. Returns the new id.
pub fn insert(e: &EntityDescriptor, s: &mut EntityStore, payload: &Vec<Value>, now: &str) -> (id:
    i64)
    requires
        store_inv(*e, *old(s)),
        payload@.len() == e.fields@.len(),
        old(s).next_id < i64::MAX,
    ensures
        store_inv(*e, *final(s)),
        final(s).created == old(s).created,
        final(s).next_id == old(s).next_id + 1,
        id == old(s).next_id,
        rows_model(*final(s)) == rows_model(*old(s)).push(
            spec_new_row(*e, row_model(*payload), now@, id as int),
        ),
{
    let id = s.next_id;
    let ghost target = spec_new_row(*e, row_model(*payload), now@, id as int);
    let mut row: Vec<Value> = Vec::new();
    let mut j: usize = 0;
    proof {
        assert(row_model(row) =~= target.take(0));
    }
    while j < e.fields.len()
        invariant
            0 <= j <= e.fields@.len(),
            payload@.len() == e.fields@.len(),
            target == spec_new_row(*e, row_model(*payload), now@, id as int),
            row@.len() == j,
            row_model(row) == target.take(j as int),
        decreases e.fields@.len() - j,
    {
        let f = &e.fields[j];
        if f.is_id {
            row.push(Value::Int(id));
        } else if f.is_created || f.is_updated {
            row.push(Value::Text(now.to_owned()));
        } else {
            row.push(payload[j].clone());
        }
        proof {
            assert(row_model(row) =~= target.take(j as int + 1));
        }
        j += 1;
    }
    proof {
        assert(target.take(e.fields@.len() as int) =~= target);
    }
    s.rows.push(row);
    s.next_id = id + 1;
    proof {
        let old_m = rows_model(*old(s));
        let new_m = rows_model(*s);
        assert(new_m =~= old_m.push(target));
        assert(e.fields@[id_idx(e.fields@)].is_id);
        assert forall|k: int| 0 <= k < new_m.len() implies {
            &&& (#[trigger] new_m[k]).len() == e.fields@.len()
            &&& new_m[k][id_idx(e.fields@)] is VInt
            &&& 1 <= spec_row_id(*e, new_m[k]) < s.next_id
        } by {
            if k < old_m.len() {
                assert(new_m[k] == old_m[k]);
            } else {
                assert(new_m[k] == target);
            }
        }
        assert forall|k1: int, k2: int| 0 <= k1 < k2 < new_m.len() implies spec_row_id(
            *e,
            #[trigger] new_m[k1],
        ) != spec_row_id(*e, #[trigger] new_m[k2]) by {
            if k2 == old_m.len() {
                assert(spec_row_id(*e, new_m[k1]) < id as int);
                assert(spec_row_id(*e, new_m[k2]) == id as int);
            }
        }
    }
    id
}

/// After an insert, fetching the new id finds exactly the inserted row: its
/// id cell is the storage-assigned id, its timestamps are `now`, and every
/// data cell equals the submitted payload cell.
pub proof fn lemma_insert_then_get(
    e: EntityDescriptor,
    m0: Seq<Seq<ValueView>>,
    p: Seq<ValueView>,
    now: Seq<char>,
    id: int,
)
    requires
        e.wf(),
        forall|k: int| 0 <= k < m0.len() ==> spec_row_id(e, #[trigger] m0[k]) != id,
    ensures
        forall|k: int|
            0 <= k < m0.push(spec_new_row(e, p, now, id)).len() && spec_row_id(
                e,
                #[trigger] m0.push(spec_new_row(e, p, now, id))[k],
            ) == id ==> m0.push(spec_new_row(e, p, now, id))[k] == spec_new_row(e, p, now, id),
        spec_row_id(e, spec_new_row(e, p, now, id)) == id,
        forall|j: int|
            0 <= j < e.fields@.len() && (#[trigger] e.fields@[j]).is_data() ==> spec_new_row(
                e,
                p,
                now,
                id,
            )[j] == p[j],
        forall|j: int|
            0 <= j < e.fields@.len() && (#[trigger] e.fields@[j]).is_timestamp() ==> spec_new_row(
                e,
                p,
                now,
                id,
            )[j] == ValueView::VText(now),
{
    let nr = spec_new_row(e, p, now, id);
    assert(e.fields@[id_idx(e.fields@)].is_id);
    assert(spec_row_id(e, nr) == id);
    assert forall|k: int|
        0 <= k < m0.push(nr).len() && spec_row_id(e, #[trigger] m0.push(nr)[k]) == id implies m0.push(
        nr,
    )[k] == nr by {
        if k < m0.len() {
            assert(m0.push(nr)[k] == m0[k]);
        }
    }
}

/// Fetches the row with the given id, if present.
pub fn get_one(e: &EntityDescriptor, s: &EntityStore, id: i64) -> (r: Option<Vec<Value>>)
    requires
        store_inv(*e, *s),
    ensures
        match r {
            Option::Some(v) => exists|k: int|
                0 <= k < rows_model(*s).len() && #[trigger] rows_model(*s)[k] == row_model(v)
                    && spec_row_id(*e, row_model(v)) == id as int,
            Option::None => forall|k: int|
                0 <= k < rows_model(*s).len() ==> spec_row_id(*e, #[trigger] rows_model(*s)[k])
                    != id as int,
        },
{
    match find_row(e, s, id) {
        Option::Some(k) => {
            let v = clone_row(&s.rows[k]);
            proof {
                assert(row_model(v) == rows_model(*s)[k as int]);
            }
            Option::Some(v)
        },
        Option::None => Option::None,
    }
}

/// Returns every row, in insertion order.
pub fn list_all(s: &EntityStore) -> (r: Vec<Vec<Value>>)
    ensures
        r@.map_values(|v: Vec<Value>| row_model(v)) == rows_model(*s),
{
    let mut out: Vec<Vec<Value>> = Vec::new();
    let mut i: usize = 0;
    while i < s.rows.len()
        invariant
            0 <= i <= s.rows@.len(),
            out@.len() == i,
            forall|t: int| 0 <= t < i ==> row_model(#[trigger] out@[t]) == rows_model(*s)[t],
        decreases s.rows@.len() - i,
    {
        let c = clone_row(&s.rows[i]);
        proof {
            assert(row_model(c) == row_model(s.rows@[i as int]));
            assert(row_model(s.rows@[i as int]) == rows_model(*s)[i as int]);
        }
        out.push(c);
        i += 1;
    }
    proof {
        assert(out@.map_values(|v: Vec<Value>| row_model(v)) =~= rows_model(*s));
    }
    out
}


/// The row a full replace produces: data cells from the payload, the
/// updated timestamp advanced, id and created timestamp untouched.
pub open spec fn spec_replaced_row(
    e: EntityDescriptor,
    oldr: Seq<ValueView>,
    p: Seq<ValueView>,
    now: Seq<char>,
) -> Seq<ValueView> {
    Seq::new(
        e.fields@.len(),
        |j: int|
            if e.fields@[j].is_id || e.fields@[j].is_created {
                oldr[j]
            } else if e.fields@[j].is_updated {
                ValueView::VText(now)
            } else {
                p[j]
            },
    )
}

/// Replaces the row with the given id. Returns whether a row was affected;
/// zero affected rows is the not-found case.
pub fn full_update(
    e: &EntityDescriptor,
    s: &mut EntityStore,
    id: i64,
    payload: &Vec<Value>,
    now: &str,
) -> (r: bool)
    requires
        store_inv(*e, *old(s)),
        payload@.len() == e.fields@.len(),
    ensures
        store_inv(*e, *final(s)),
        final(s).created == old(s).created,
        final(s).next_id == old(s).next_id,
        r <==> exists|k: int|
            0 <= k < rows_model(*old(s)).len() && spec_row_id(
                *e,
                #[trigger] rows_model(*old(s))[k],
            ) == id as int,
        !r ==> *final(s) == *old(s),
        r ==> exists|k: int|
            {
                &&& 0 <= k < rows_model(*old(s)).len()
                &&& spec_row_id(*e, #[trigger] rows_model(*old(s))[k]) == id as int
                &&& rows_model(*final(s)) == rows_model(*old(s)).update(
                    k,
                    spec_replaced_row(*e, rows_model(*old(s))[k], row_model(*payload), now@),
                )
            },
{
    match find_row(e, s, id) {
        Option::None => false,
        Option::Some(k) => {
            let ghost old_m = rows_model(*s);
            let ghost target = spec_replaced_row(*e, old_m[k as int], row_model(*payload), now@);
            let mut row: Vec<Value> = Vec::new();
            let mut j: usize = 0;
            proof {
                assert(old_m[k as int] == row_model(s.rows@[k as int]));
                assert(row_model(row) =~= target.take(0));
            }
            while j < e.fields.len()
                invariant
                    store_inv(*e, *s),
                    0 <= j <= e.fields@.len(),
                    k < s.rows@.len(),
                    payload@.len() == e.fields@.len(),
                    old_m == rows_model(*s),
                    spec_row_id(*e, old_m[k as int]) == id as int,
                    target == spec_replaced_row(*e, old_m[k as int], row_model(*payload), now@),
                    row@.len() == j,
                    row_model(row) == target.take(j as int),
                decreases e.fields@.len() - j,
            {
                let f = &e.fields[j];
                proof {
                    assert(old_m[k as int] == row_model(s.rows@[k as int]));
                    assert(old_m[k as int].len() == e.fields@.len());
                    if f.is_id {
                        assert(e.fields@[id_idx(e.fields@)].is_id);
                        assert(j as int == id_idx(e.fields@));
                        assert(old_m[k as int][j as int] is VInt);
                        assert(old_m[k as int][j as int]->VInt_0 == id as int);
                    }
                }
                if f.is_id {
                    row.push(Value::Int(id));
                } else if f.is_created {
                    let c = s.rows[k][j].clone();
                    proof {
                        assert(c@ == row_model(s.rows@[k as int])[j as int]);
                    }
                    row.push(c);
                } else if f.is_updated {
                    row.push(Value::Text(now.to_owned()));
                } else {
                    row.push(payload[j].clone());
                }
                proof {
                    assert(row_model(row) =~= target.take(j as int + 1));
                }
                j += 1;
            }
            proof {
                assert(target.take(e.fields@.len() as int) =~= target);
            }
            let _old_row = s.rows.remove(k);
            s.rows.insert(k, row);
            proof {
                let new_m = rows_model(*s);
                assert(new_m =~= old_m.update(k as int, target));
                assert(e.fields@[id_idx(e.fields@)].is_id);
                assert(target[id_idx(e.fields@)] == old_m[k as int][id_idx(e.fields@)]);
                assert forall|t: int| 0 <= t < new_m.len() implies {
                    &&& (#[trigger] new_m[t]).len() == e.fields@.len()
                    &&& new_m[t][id_idx(e.fields@)] is VInt
                    &&& 1 <= spec_row_id(*e, new_m[t]) < s.next_id
                } by {
                    if t != k as int {
                        assert(new_m[t] == old_m[t]);
                    }
                }
                assert forall|k1: int, k2: int| 0 <= k1 < k2 < new_m.len() implies spec_row_id(
                    *e,
                    #[trigger] new_m[k1],
                ) != spec_row_id(*e, #[trigger] new_m[k2]) by {
                    assert(spec_row_id(*e, new_m[k1]) == spec_row_id(*e, old_m[k1]));
                    assert(spec_row_id(*e, new_m[k2]) == spec_row_id(*e, old_m[k2]));
                }
            }
            true
        },
    }
}

/// The row a partial update produces: present slots take their submitted
/// values, the updated timestamp advances unless it was set explicitly,
/// every other cell is untouched.
pub open spec fn spec_patched_row(
    e: EntityDescriptor,
    oldr: Seq<ValueView>,
    pm: Seq<Option<ValueView>>,
    now: Seq<char>,
) -> Seq<ValueView> {
    Seq::new(
        e.fields@.len(),
        |j: int|
            if !e.fields@[j].is_id && pm[j] is Some {
                pm[j]->Some_0
            } else if e.fields@[j].is_updated && pm[j] is None {
                ValueView::VText(now)
            } else {
                oldr[j]
            },
    )
}

/// A partial update with a present-field subset changes exactly that
/// subset, plus the updated timestamp; every cell outside the subset keeps
/// its old value, and the id never changes.
pub proof fn lemma_patch_changes_exactly(
    e: EntityDescriptor,
    oldr: Seq<ValueView>,
    pm: Seq<Option<ValueView>>,
    now: Seq<char>,
)
    requires
        e.wf(),
    ensures
        forall|j: int|
            0 <= j < e.fields@.len() && !(#[trigger] e.fields@[j]).is_id && pm[j] is Some
                ==> spec_patched_row(e, oldr, pm, now)[j] == pm[j]->Some_0,
        forall|j: int|
            0 <= j < e.fields@.len() && pm[j] is None && !(#[trigger] e.fields@[j]).is_updated
                ==> spec_patched_row(e, oldr, pm, now)[j] == oldr[j],
        forall|j: int|
            0 <= j < e.fields@.len() && (#[trigger] e.fields@[j]).is_updated && pm[j] is None
                ==> spec_patched_row(e, oldr, pm, now)[j] == ValueView::VText(now),
        forall|j: int|
            0 <= j < e.fields@.len() && (#[trigger] e.fields@[j]).is_id ==> spec_patched_row(
                e,
                oldr,
                pm,
                now,
            )[j] == oldr[j],
{
}

/// Applies a partial update to the row with the given id. Requires at
/// least one present field: with none, no statement exists to execute and
/// the caller short-circuits instead.
pub fn patch(
    e: &EntityDescriptor,
    s: &mut EntityStore,
    id: i64,
    partial: &Vec<Option<Value>>,
    now: &str,
) -> (r: bool)
    requires
        store_inv(*e, *old(s)),
        partial@.len() == e.fields@.len(),
        count_present(e.fields@, partial@) > 0,
    ensures
        store_inv(*e, *final(s)),
        final(s).created == old(s).created,
        final(s).next_id == old(s).next_id,
        r <==> exists|k: int|
            0 <= k < rows_model(*old(s)).len() && spec_row_id(
                *e,
                #[trigger] rows_model(*old(s))[k],
            ) == id as int,
        !r ==> *final(s) == *old(s),
        r ==> exists|k: int|
            {
                &&& 0 <= k < rows_model(*old(s)).len()
                &&& spec_row_id(*e, #[trigger] rows_model(*old(s))[k]) == id as int
                &&& rows_model(*final(s)) == rows_model(*old(s)).update(
                    k,
                    spec_patched_row(*e, rows_model(*old(s))[k], partial_model(*partial), now@),
                )
            },
{
    match find_row(e, s, id) {
        Option::None => false,
        Option::Some(k) => {
            let ghost old_m = rows_model(*s);
            let ghost pm = partial_model(*partial);
            let ghost target = spec_patched_row(*e, old_m[k as int], pm, now@);
            let mut row: Vec<Value> = Vec::new();
            let mut j: usize = 0;
            proof {
                assert(old_m[k as int] == row_model(s.rows@[k as int]));
                assert(row_model(row) =~= target.take(0));
            }
            while j < e.fields.len()
                invariant
                    store_inv(*e, *s),
                    0 <= j <= e.fields@.len(),
                    k < s.rows@.len(),
                    partial@.len() == e.fields@.len(),
                    old_m == rows_model(*s),
                    pm == partial_model(*partial),
                    spec_row_id(*e, old_m[k as int]) == id as int,
                    target == spec_patched_row(*e, old_m[k as int], pm, now@),
                    row@.len() == j,
                    row_model(row) == target.take(j as int),
                decreases e.fields@.len() - j,
            {
                let f = &e.fields[j];
                proof {
                    assert(old_m[k as int] == row_model(s.rows@[k as int]));
                    assert(old_m[k as int].len() == e.fields@.len());
                    assert(pm[j as int] == partial_model(*partial)[j as int]);
                }
                if f.is_id {
                    let c = s.rows[k][j].clone();
                    proof {
                        assert(c@ == row_model(s.rows@[k as int])[j as int]);
                    }
                    row.push(c);
                } else {
                    match &partial[j] {
                        Option::Some(v) => {
                            row.push(v.clone());
                        },
                        Option::None => {
                            if f.is_updated {
                                row.push(Value::Text(now.to_owned()));
                            } else {
                                let c = s.rows[k][j].clone();
                                proof {
                                    assert(c@ == row_model(s.rows@[k as int])[j as int]);
                                }
                                row.push(c);
                            }
                        },
                    }
                }
                proof {
                    assert(row_model(row) =~= target.take(j as int + 1));
                }
                j += 1;
            }
            proof {
                assert(target.take(e.fields@.len() as int) =~= target);
                assert(e.fields@[id_idx(e.fields@)].is_id);
                assert(target[id_idx(e.fields@)] == old_m[k as int][id_idx(e.fields@)]);
            }
            let _old_row = s.rows.remove(k);
            s.rows.insert(k, row);
            proof {
                let new_m = rows_model(*s);
                assert(new_m =~= old_m.update(k as int, target));
                assert forall|t: int| 0 <= t < new_m.len() implies {
                    &&& (#[trigger] new_m[t]).len() == e.fields@.len()
                    &&& new_m[t][id_idx(e.fields@)] is VInt
                    &&& 1 <= spec_row_id(*e, new_m[t]) < s.next_id
                } by {
                    if t != k as int {
                        assert(new_m[t] == old_m[t]);
                    }
                }
                assert forall|k1: int, k2: int| 0 <= k1 < k2 < new_m.len() implies spec_row_id(
                    *e,
                    #[trigger] new_m[k1],
                ) != spec_row_id(*e, #[trigger] new_m[k2]) by {
                    assert(spec_row_id(*e, new_m[k1]) == spec_row_id(*e, old_m[k1]));
                    assert(spec_row_id(*e, new_m[k2]) == spec_row_id(*e, old_m[k2]));
                }
            }
            true
        },
    }
}

/// Deletes the row with the given id. Returns whether a row was affected;
/// zero affected rows is the not-found case.
pub fn delete(e: &EntityDescriptor, s: &mut EntityStore, id: i64) -> (r: bool)
    requires
        store_inv(*e, *old(s)),
    ensures
        store_inv(*e, *final(s)),
        final(s).created == old(s).created,
        final(s).next_id == old(s).next_id,
        r <==> exists|k: int|
            0 <= k < rows_model(*old(s)).len() && spec_row_id(
                *e,
                #[trigger] rows_model(*old(s))[k],
            ) == id as int,
        !r ==> *final(s) == *old(s),
        r ==> exists|k: int|
            {
                &&& 0 <= k < rows_model(*old(s)).len()
                &&& spec_row_id(*e, #[trigger] rows_model(*old(s))[k]) == id as int
                &&& rows_model(*final(s)) == rows_model(*old(s)).remove(k)
            },
{
    match find_row(e, s, id) {
        Option::None => false,
        Option::Some(k) => {
            let ghost old_m = rows_model(*s);
            let _old_row = s.rows.remove(k);
            proof {
                let new_m = rows_model(*s);
                assert(new_m =~= old_m.remove(k as int));
                assert forall|t: int| 0 <= t < new_m.len() implies {
                    &&& (#[trigger] new_m[t]).len() == e.fields@.len()
                    &&& new_m[t][id_idx(e.fields@)] is VInt
                    &&& 1 <= spec_row_id(*e, new_m[t]) < s.next_id
                } by {
                    if t < k as int {
                        assert(new_m[t] == old_m[t]);
                    } else {
                        assert(new_m[t] == old_m[t + 1]);
                    }
                }
                assert forall|k1: int, k2: int| 0 <= k1 < k2 < new_m.len() implies spec_row_id(
                    *e,
                    #[trigger] new_m[k1],
                ) != spec_row_id(*e, #[trigger] new_m[k2]) by {
                    if k1 < k as int {
                        assert(new_m[k1] == old_m[k1]);
                    } else {
                        assert(new_m[k1] == old_m[k1 + 1]);
                    }
                    if k2 < k as int {
                        assert(new_m[k2] == old_m[k2]);
                    } else {
                        assert(new_m[k2] == old_m[k2 + 1]);
                    }
                }
            }
            true
        },
    }
}

/// Index of the relation (foreign-key) field.
pub open spec fn rel_idx(e: EntityDescriptor) -> int {
    choose|i: int|
        0 <= i < e.fields@.len() && (#[trigger] e.fields@[i]).name@ == e.relation->Some_0.field@
}

/// Finds the position of the relation field.
pub fn relation_index(e: &EntityDescriptor) -> (r: usize)
    requires
        e.wf(),
        e.relation is Some,
    ensures
        r < e.fields@.len(),
        e.fields@[r as int].name@ == e.relation->Some_0.field@,
        r as int == rel_idx(*e),
{
    match &e.relation {
        Option::Some(rel) => {
            let mut i: usize = 0;
            while i < e.fields.len()
                invariant
                    e.wf(),
                    e.relation is Some,
                    e.relation->Some_0 == *rel,
                    0 <= i <= e.fields@.len(),
                    forall|j: int| 0 <= j < i ==> (#[trigger] e.fields@[j]).name@ != rel.field@,
                decreases e.fields@.len() - i,
            {
                if e.fields[i].name.eq(&rel.field) {
                    proof {
                        let w = rel_idx(*e);
                        assert(0 <= w < e.fields@.len() && e.fields@[w].name@ == rel.field@);
                    }
                    return i;
                }
                i += 1;
            }
            proof {
                assert(false);
            }
            0
        },
        Option::None => {
            proof {
                assert(false);
            }
            0
        },
    }
}

/// Whether a row belongs to the given parent: its relation cell is an
/// integer equal to the parent id.
pub open spec fn spec_child_match(e: EntityDescriptor, r: Seq<ValueView>, pid: int) -> bool {
    &&& r[rel_idx(e)] is VInt
    &&& r[rel_idx(e)]->VInt_0 == pid
}

/// The children of a parent, in insertion order.
pub open spec fn spec_children(
    e: EntityDescriptor,
    rows: Seq<Seq<ValueView>>,
    pid: int,
) -> Seq<Seq<ValueView>>
    decreases rows.len(),
{
    if rows.len() == 0 {
        Seq::empty()
    } else {
        let rest = spec_children(e, rows.subrange(1, rows.len() as int), pid);
        if spec_child_match(e, rows[0], pid) {
            seq![rows[0]] + rest
        } else {
            rest
        }
    }
}

/// Lists exactly the rows whose relation field equals the parent id,
/// preserving insertion order.
pub fn list_children(e: &EntityDescriptor, s: &EntityStore, parent_id: i64) -> (r: Vec<Vec<Value>>)
    requires
        store_inv(*e, *s),
        e.relation is Some,
    ensures
        r@.map_values(|v: Vec<Value>| row_model(v)) == spec_children(
            *e,
            rows_model(*s),
            parent_id as int,
        ),
{
    let ri = relation_index(e);
    let ghost m = rows_model(*s);
    let ghost pid = parent_id as int;
    let mut out: Vec<Vec<Value>> = Vec::new();
    let mut i: usize = 0;
    proof {
        assert(m.skip(0) =~= m);
    }
    while i < s.rows.len()
        invariant
            store_inv(*e, *s),
            e.relation is Some,
            ri as int == rel_idx(*e),
            ri < e.fields@.len(),
            m == rows_model(*s),
            pid == parent_id as int,
            0 <= i <= s.rows@.len(),
            out@.map_values(|v: Vec<Value>| row_model(v)) + spec_children(*e, m.skip(i as int), pid)
                == spec_children(*e, m, pid),
        decreases s.rows@.len() - i,
    {
        let ghost sk = m.skip(i as int);
        proof {
            assert(sk.len() == m.len() - i);
            assert(sk[0] == m[i as int]);
            assert(sk.subrange(1, sk.len() as int) =~= m.skip(i as int + 1));
            assert(m[i as int] == row_model(s.rows@[i as int]));
            assert(m[i as int].len() == e.fields@.len());
        }
        let row = &s.rows[i];
        let mut keep = false;
        match &row[ri] {
            Value::Int(x) => {
                if *x == parent_id {
                    keep = true;
                }
            },
            _ => {},
        }
        if keep {
            let c = clone_row(row);
            proof {
                assert(row_model(c) == m[i as int]);
            }
            out.push(c);
            proof {
                assert(spec_child_match(*e, m[i as int], pid));
                assert(spec_children(*e, sk, pid) == seq![m[i as int]] + spec_children(
                    *e,
                    m.skip(i as int + 1),
                    pid,
                ));
                assert(out@.map_values(|v: Vec<Value>| row_model(v)) + spec_children(
                    *e,
                    m.skip(i as int + 1),
                    pid,
                ) =~= spec_children(*e, m, pid));
            }
        } else {
            proof {
                assert(!spec_child_match(*e, m[i as int], pid));
                assert(spec_children(*e, sk, pid) == spec_children(*e, m.skip(i as int + 1), pid));
            }
        }
        i += 1;
    }
    proof {
        assert(m.skip(s.rows@.len() as int) =~= Seq::<Seq<ValueView>>::empty());
        assert(spec_children(*e, m.skip(s.rows@.len() as int), pid) == Seq::<Seq<
            ValueView,
        >>::empty());
        assert(out@.map_values(|v: Vec<Value>| row_model(v)) + Seq::<Seq<ValueView>>::empty()
            =~= out@.map_values(|v: Vec<Value>| row_model(v)));
    }
    out
}

/// The nested list is exactly the children of the parent: every returned
/// row matches the parent id, and every stored row that matches is
/// returned.
pub proof fn lemma_children_exact(e: EntityDescriptor, rows: Seq<Seq<ValueView>>, pid: int)
    ensures
        forall|j: int|
            0 <= j < spec_children(e, rows, pid).len() ==> spec_child_match(
                e,
                #[trigger] spec_children(e, rows, pid)[j],
                pid,
            ) && rows.contains(spec_children(e, rows, pid)[j]),
        forall|k: int|
            0 <= k < rows.len() && spec_child_match(e, #[trigger] rows[k], pid) ==> spec_children(
                e,
                rows,
                pid,
            ).contains(rows[k]),
    decreases rows.len(),
{
    if rows.len() == 0 {
    } else {
        let rest = rows.subrange(1, rows.len() as int);
        lemma_children_exact(e, rest, pid);
        let ch = spec_children(e, rows, pid);
        let chr = spec_children(e, rest, pid);
        assert forall|j: int| 0 <= j < ch.len() implies spec_child_match(e, ch[j], pid)
            && rows.contains(ch[j]) by {
            if spec_child_match(e, rows[0], pid) {
                assert(ch == seq![rows[0]] + chr);
                if j == 0 {
                    assert(ch[j] == rows[0]);
                    assert(rows.contains(ch[j])) by {
                        assert(rows[0] == ch[j]);
                    }
                } else {
                    assert(ch[j] == chr[j - 1]);
                    assert(rest.contains(chr[j - 1]));
                    let w = choose|w: int| 0 <= w < rest.len() && rest[w] == chr[j - 1];
                    assert(rows[w + 1] == ch[j]);
                }
            } else {
                assert(ch == chr);
                assert(rest.contains(chr[j]));
                let w = choose|w: int| 0 <= w < rest.len() && rest[w] == chr[j];
                assert(rows[w + 1] == ch[j]);
            }
        }
        assert forall|k: int| 0 <= k < rows.len() && spec_child_match(e, rows[k], pid) implies ch.contains(
            rows[k],
        ) by {
            if spec_child_match(e, rows[0], pid) {
                assert(ch == seq![rows[0]] + chr);
                if k == 0 {
                    assert(ch[0] == rows[k]);
                } else {
                    assert(rest[k - 1] == rows[k]);
                    assert(chr.contains(rows[k]));
                    let w = choose|w: int| 0 <= w < chr.len() && chr[w] == rows[k];
                    assert(ch[w + 1] == rows[k]);
                }
            } else {
                assert(ch == chr);
                assert(k != 0);
                assert(rest[k - 1] == rows[k]);
                assert(chr.contains(rows[k]));
                let w = choose|w: int| 0 <= w < chr.len() && chr[w] == rows[k];
                assert(ch[w] == rows[k]);
            }
        }
    }
}

} // verus!
