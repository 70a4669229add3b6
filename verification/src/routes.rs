//! Route assembly: the path templates and methods registered for one
//! entity — a collection path, an item path and, when the relation enables
//! it, the nested list-by-parent path.

use vstd::prelude::*;
use vstd::string::StringExecFns;

use crate::descriptor::EntityDescriptor;

verus! {

#[derive(Clone, Copy, PartialEq, Eq, Structural, Debug)]
pub enum HttpMethod {
    Get,
    Post,
    Put,
    Patch,
    Delete,
}

/// One registration handed to the host router.
pub struct Route {
    pub method: HttpMethod,
    pub path: String,
}

pub open spec fn spec_collection_path(e: EntityDescriptor) -> Seq<char> {
    "/"@ + e.table@
}

pub open spec fn spec_item_path(e: EntityDescriptor) -> Seq<char> {
    "/"@ + e.table@ + "/{id}"@
}

pub open spec fn spec_nested_path(e: EntityDescriptor) -> Seq<char>
    recommends
        e.relation is Some,
{
    "/"@ + e.relation->Some_0.parent_table@ + "/{parent_id}/"@ + e.table@
}

/// The nested route exists only when a relation is present and enables it.
pub open spec fn spec_nested_enabled(e: EntityDescriptor) -> bool {
    e.relation is Some && e.relation->Some_0.nested_route
}

/// The route table of one entity, in registration order: list, create,
/// get-one, replace, partial-update, delete, and the nested listing when
/// enabled.
pub fn routes(e: &EntityDescriptor) -> (r: Vec<Route>)
    ensures
        r@.len() == if spec_nested_enabled(*e) {
            7int
        } else {
            6int
        },
        r@[0].method is Get && r@[0].path@ == spec_collection_path(*e),
        r@[1].method is Post && r@[1].path@ == spec_collection_path(*e),
        r@[2].method is Get && r@[2].path@ == spec_item_path(*e),
        r@[3].method is Put && r@[3].path@ == spec_item_path(*e),
        r@[4].method is Patch && r@[4].path@ == spec_item_path(*e),
        r@[5].method is Delete && r@[5].path@ == spec_item_path(*e),
        spec_nested_enabled(*e) ==> r@[6].method is Get && r@[6].path@ == spec_nested_path(*e),
{
    let mut coll = String::from_str("/");
    coll.append(e.table.as_str());
    let mut item = String::from_str("/");
    item.append(e.table.as_str());
    item.append("/{id}");
    proof {
        assert(item@ =~= spec_item_path(*e));
    }
    let mut out: Vec<Route> = Vec::new();
    out.push(Route { method: HttpMethod::Get, path: coll.clone() });
    out.push(Route { method: HttpMethod::Post, path: coll });
    out.push(Route { method: HttpMethod::Get, path: item.clone() });
    out.push(Route { method: HttpMethod::Put, path: item.clone() });
    out.push(Route { method: HttpMethod::Patch, path: item.clone() });
    out.push(Route { method: HttpMethod::Delete, path: item });
    match &e.relation {
        Option::Some(rel) => {
            if rel.nested_route {
                let mut nested = String::from_str("/");
                nested.append(rel.parent_table.as_str());
                nested.append("/{parent_id}/");
                nested.append(e.table.as_str());
                proof {
                    assert(nested@ =~= spec_nested_path(*e));
                }
                out.push(Route { method: HttpMethod::Get, path: nested });
            }
        },
        Option::None => {},
    }
    out
}

} // verus!
