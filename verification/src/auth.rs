//! The role gate: a predicate over the caller's role set that every
//! role-gated operation evaluates before any statement is built or bound.

use vstd::prelude::*;
use vstd::string::StringExecFns;

verus! {

/// Authenticated caller identity, as the identity collaborator exposes it:
/// just a role set.
pub struct Identity {
    pub roles: Vec<String>,
}

/// The administrator role name; holders bypass every role gate.
pub open spec fn spec_admin_role() -> Seq<char> {
    "admin"@
}

/// The configured administrator role name.
pub fn admin_role() -> (r: String)
    ensures
        r@ == spec_admin_role(),
{
    String::from_str("admin")
}

pub open spec fn spec_has_role(roles: Seq<String>, role: Seq<char>) -> bool {
    exists|i: int| 0 <= i < roles.len() && (#[trigger] roles[i])@ == role
}

/// When a category names no role, every caller passes; otherwise the
/// caller needs that role or the administrator role.
pub open spec fn spec_allowed(roles: Seq<String>, required: Option<String>) -> bool {
    match required {
        Option::None => true,
        Option::Some(r) => spec_has_role(roles, spec_admin_role()) || spec_has_role(roles, r@),
    }
}

fn has_role(roles: &Vec<String>, role: &String) -> (r: bool)
    ensures
        r == spec_has_role(roles@, role@),
{
    let mut i: usize = 0;
    while i < roles.len()
        invariant
            0 <= i <= roles@.len(),
            forall|j: int| 0 <= j < i ==> (#[trigger] roles@[j])@ != role@,
        decreases roles@.len() - i,
    {
        if roles[i].eq(role) {
            return true;
        }
        i += 1;
    }
    false
}

/// Evaluates the role gate for one operation category.
pub fn role_allowed(roles: &Vec<String>, required: &Option<String>) -> (r: bool)
    ensures
        r == spec_allowed(roles@, *required),
{
    match required {
        Option::None => true,
        Option::Some(req) => {
            let admin = admin_role();
            has_role(roles, &admin) || has_role(roles, req)
        },
    }
}

} // verus!
