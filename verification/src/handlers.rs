//! Handler decision logic: each generated operation evaluates its role
//! gate strictly before any statement is built or bound, maps the storage
//! outcome to a response, and never touches the store on a rejected
//! request. The hosting server only routes a request here and sends the
//! response back.

use vstd::prelude::*;

use crate::auth::role_allowed;
use crate::auth::spec_allowed;
use crate::auth::Identity;
use crate::descriptor::EntityDescriptor;
use crate::partial::count_present;
use crate::partial::patch_bind_values;
use crate::store::delete;
use crate::store::full_update;
use crate::store::get_one;
use crate::store::insert;
use crate::store::list_all;
use crate::store::list_children;
use crate::store::patch;
use crate::store::row_model;
use crate::store::rows_model;
use crate::store::spec_children;
use crate::store::spec_new_row;
use crate::store::spec_patched_row;
use crate::store::spec_replaced_row;
use crate::store::spec_row_id;
use crate::store::store_inv;
use crate::store::EntityStore;
use crate::values::Value;

verus! {

/// Outcome of one request.
pub enum Response {
    Success,
    Row(Vec<Value>),
    Rows(Vec<Vec<Value>>),
    Created(i64),
    Forbidden,
    NotFound,
    StorageError,
}

/// HTTP status of a response: 200 success, 201 created, 403 role check
/// failed, 404 nothing affected or found, 500 storage error.
pub open spec fn spec_status(r: Response) -> int {
    match r {
        Response::Success => 200,
        Response::Row(_) => 200,
        Response::Rows(_) => 200,
        Response::Created(_) => 201,
        Response::Forbidden => 403,
        Response::NotFound => 404,
        Response::StorageError => 500,
    }
}

pub fn status_code(r: &Response) -> (c: u16)
    ensures
        c as int == spec_status(*r),
{
    match r {
        Response::Success => 200,
        Response::Row(_) => 200,
        Response::Rows(_) => 200,
        Response::Created(_) => 201,
        Response::Forbidden => 403,
        Response::NotFound => 404,
        Response::StorageError => 500,
    }
}

/// Lists all rows. Gate: read.
pub fn handle_list(e: &EntityDescriptor, s: &EntityStore, user: &Identity) -> (r: Response)
    requires
        store_inv(*e, *s),
    ensures
        !spec_allowed(user.roles@, e.roles.read) ==> r is Forbidden,
        spec_allowed(user.roles@, e.roles.read) && !s.created ==> r is StorageError,
        spec_allowed(user.roles@, e.roles.read) && s.created ==> r is Rows && (match r {
            Response::Rows(v) => v@.map_values(|x: Vec<Value>| row_model(x)) == rows_model(*s),
            _ => false,
        }),
{
    if !role_allowed(&user.roles, &e.roles.read) {
        return Response::Forbidden;
    }
    if !s.created {
        return Response::StorageError;
    }
    Response::Rows(list_all(s))
}

/// Fetches one row by id. Gate: read; a missing row is not-found.
pub fn handle_get_one(e: &EntityDescriptor, s: &EntityStore, user: &Identity, id: i64) -> (r:
    Response)
    requires
        store_inv(*e, *s),
    ensures
        !spec_allowed(user.roles@, e.roles.read) ==> r is Forbidden,
        spec_allowed(user.roles@, e.roles.read) && !s.created ==> r is StorageError,
        spec_allowed(user.roles@, e.roles.read) && s.created ==> match r {
            Response::Row(v) => exists|k: int|
                0 <= k < rows_model(*s).len() && #[trigger] rows_model(*s)[k] == row_model(v)
                    && spec_row_id(*e, row_model(v)) == id as int,
            Response::NotFound => forall|k: int|
                0 <= k < rows_model(*s).len() ==> spec_row_id(*e, #[trigger] rows_model(*s)[k])
                    != id as int,
            _ => false,
        },
{
    if !role_allowed(&user.roles, &e.roles.read) {
        return Response::Forbidden;
    }
    if !s.created {
        return Response::StorageError;
    }
    match get_one(e, s, id) {
        Option::Some(v) => Response::Row(v),
        Option::None => Response::NotFound,
    }
}

/// Inserts a row. Gate: update (which governs create as well).
pub fn handle_create(
    e: &EntityDescriptor,
    s: &mut EntityStore,
    user: &Identity,
    payload: &Vec<Value>,
    now: &str,
) -> (r: Response)
    requires
        store_inv(*e, *old(s)),
        payload@.len() == e.fields@.len(),
        old(s).next_id < i64::MAX,
    ensures
        store_inv(*e, *final(s)),
        !spec_allowed(user.roles@, e.roles.update) ==> r is Forbidden && *final(s) == *old(s),
        spec_allowed(user.roles@, e.roles.update) && !old(s).created ==> r is StorageError
            && *final(s) == *old(s),
        spec_allowed(user.roles@, e.roles.update) && old(s).created ==> {
            &&& r is Created
            &&& (match r {
                Response::Created(id) => id == old(s).next_id && rows_model(*final(s))
                    == rows_model(*old(s)).push(
                    spec_new_row(*e, row_model(*payload), now@, id as int),
                ),
                _ => false,
            })
            &&& final(s).next_id == old(s).next_id + 1
        },
{
    if !role_allowed(&user.roles, &e.roles.update) {
        return Response::Forbidden;
    }
    if !s.created {
        return Response::StorageError;
    }
    let id = insert(e, s, payload, now);
    Response::Created(id)
}

/// Replaces a row in full. Gate: update; zero affected rows is not-found.
pub fn handle_replace(
    e: &EntityDescriptor,
    s: &mut EntityStore,
    user: &Identity,
    id: i64,
    payload: &Vec<Value>,
    now: &str,
) -> (r: Response)
    requires
        store_inv(*e, *old(s)),
        payload@.len() == e.fields@.len(),
    ensures
        store_inv(*e, *final(s)),
        !spec_allowed(user.roles@, e.roles.update) ==> r is Forbidden && *final(s) == *old(s),
        spec_allowed(user.roles@, e.roles.update) && !old(s).created ==> r is StorageError
            && *final(s) == *old(s),
        spec_allowed(user.roles@, e.roles.update) && old(s).created ==> match r {
            Response::Success => exists|k: int|
                {
                    &&& 0 <= k < rows_model(*old(s)).len()
                    &&& spec_row_id(*e, #[trigger] rows_model(*old(s))[k]) == id as int
                    &&& rows_model(*final(s)) == rows_model(*old(s)).update(
                        k,
                        spec_replaced_row(*e, rows_model(*old(s))[k], row_model(*payload), now@),
                    )
                },
            Response::NotFound => *final(s) == *old(s) && (forall|k: int|
                0 <= k < rows_model(*old(s)).len() ==> spec_row_id(
                    *e,
                    #[trigger] rows_model(*old(s))[k],
                ) != id as int),
            _ => false,
        },
{
    if !role_allowed(&user.roles, &e.roles.update) {
        return Response::Forbidden;
    }
    if !s.created {
        return Response::StorageError;
    }
    if full_update(e, s, id, payload, now) {
        Response::Success
    } else {
        Response::NotFound
    }
}

/// Applies a partial update. Gate: update. With zero present fields the
/// operation short-circuits to success and issues no statement: the store
/// is untouched. Otherwise zero affected rows is not-found.
pub fn handle_patch(
    e: &EntityDescriptor,
    s: &mut EntityStore,
    user: &Identity,
    id: i64,
    partial: &Vec<Option<Value>>,
    now: &str,
) -> (r: Response)
    requires
        store_inv(*e, *old(s)),
        partial@.len() == e.fields@.len(),
    ensures
        store_inv(*e, *final(s)),
        !spec_allowed(user.roles@, e.roles.update) ==> r is Forbidden && *final(s) == *old(s),
        spec_allowed(user.roles@, e.roles.update) && !old(s).created ==> r is StorageError
            && *final(s) == *old(s),
        spec_allowed(user.roles@, e.roles.update) && old(s).created && count_present(
            e.fields@,
            partial@,
        ) == 0 ==> r is Success && *final(s) == *old(s),
        spec_allowed(user.roles@, e.roles.update) && old(s).created && count_present(
            e.fields@,
            partial@,
        ) > 0 ==> match r {
            Response::Success => exists|k: int|
                {
                    &&& 0 <= k < rows_model(*old(s)).len()
                    &&& spec_row_id(*e, #[trigger] rows_model(*old(s))[k]) == id as int
                    &&& rows_model(*final(s)) == rows_model(*old(s)).update(
                        k,
                        spec_patched_row(
                            *e,
                            rows_model(*old(s))[k],
                            crate::store::partial_model(*partial),
                            now@,
                        ),
                    )
                },
            Response::NotFound => *final(s) == *old(s) && (forall|k: int|
                0 <= k < rows_model(*old(s)).len() ==> spec_row_id(
                    *e,
                    #[trigger] rows_model(*old(s))[k],
                ) != id as int),
            _ => false,
        },
{
    if !role_allowed(&user.roles, &e.roles.update) {
        return Response::Forbidden;
    }
    if !s.created {
        return Response::StorageError;
    }
    let binds = patch_bind_values(e, partial);
    if binds.len() == 0 {
        return Response::Success;
    }
    if patch(e, s, id, partial, now) {
        Response::Success
    } else {
        Response::NotFound
    }
}

/// Deletes a row by id. Gate: delete; zero affected rows is not-found.
pub fn handle_delete(e: &EntityDescriptor, s: &mut EntityStore, user: &Identity, id: i64) -> (r:
    Response)
    requires
        store_inv(*e, *old(s)),
    ensures
        store_inv(*e, *final(s)),
        !spec_allowed(user.roles@, e.roles.delete) ==> r is Forbidden && *final(s) == *old(s),
        spec_allowed(user.roles@, e.roles.delete) && !old(s).created ==> r is StorageError
            && *final(s) == *old(s),
        spec_allowed(user.roles@, e.roles.delete) && old(s).created ==> match r {
            Response::Success => exists|k: int|
                {
                    &&& 0 <= k < rows_model(*old(s)).len()
                    &&& spec_row_id(*e, #[trigger] rows_model(*old(s))[k]) == id as int
                    &&& rows_model(*final(s)) == rows_model(*old(s)).remove(k)
                },
            Response::NotFound => *final(s) == *old(s) && (forall|k: int|
                0 <= k < rows_model(*old(s)).len() ==> spec_row_id(
                    *e,
                    #[trigger] rows_model(*old(s))[k],
                ) != id as int),
            _ => false,
        },
{
    if !role_allowed(&user.roles, &e.roles.delete) {
        return Response::Forbidden;
    }
    if !s.created {
        return Response::StorageError;
    }
    if delete(e, s, id) {
        Response::Success
    } else {
        Response::NotFound
    }
}

/// Lists the children of a parent through the nested route. Gate: read.
pub fn handle_list_children(
    e: &EntityDescriptor,
    s: &EntityStore,
    user: &Identity,
    parent_id: i64,
) -> (r: Response)
    requires
        store_inv(*e, *s),
        e.relation is Some,
    ensures
        !spec_allowed(user.roles@, e.roles.read) ==> r is Forbidden,
        spec_allowed(user.roles@, e.roles.read) && !s.created ==> r is StorageError,
        spec_allowed(user.roles@, e.roles.read) && s.created ==> r is Rows && (match r {
            Response::Rows(v) => v@.map_values(|x: Vec<Value>| row_model(x)) == spec_children(
                *e,
                rows_model(*s),
                parent_id as int,
            ),
            _ => false,
        }),
{
    if !role_allowed(&user.roles, &e.roles.read) {
        return Response::Forbidden;
    }
    if !s.created {
        return Response::StorageError;
    }
    Response::Rows(list_children(e, s, parent_id))
}

} // verus!
