//! Permissions: what a spawned child may hold, the limits on spawning, and
//! the permissions that roles grant.
//!
//! Role ids are the 128-bit values of their UUIDs.

use vstd::prelude::*;
use std::collections::HashMap;
use crate::text::{append_chars, append_str, chars_of, nat_decimal, string_from_chars};
use crate::store::{compare_keys, lex_lt, lemma_lex_transitive, lemma_lex_irreflexive, KeyOrder};

verus! {

broadcast use vstd::std_specs::hash::group_hash_axioms;

/// A named permission.
#[derive(Debug, Clone, PartialEq, Eq, PartialOrd, Ord, Hash)]
pub struct Permission(pub String);

impl Permission {
    /// A copy with the same name.
    pub fn duplicate(&self) -> (p: Permission)
        ensures
            p == *self,
    {
        Permission(self.0.clone())
    }
}

/// The names of a list of permissions.
pub open spec fn perm_names(s: Seq<Permission>) -> Seq<Seq<char>> {
    s.map_values(|p: Permission| p.0@)
}

fn same_name(a: &Permission, b: &Permission) -> (r: bool)
    ensures
        r == (a.0@ == b.0@),
{
    crate::text::str_eq(a.0.as_str(), b.0.as_str())
}

fn names_contain(v: &[Permission], p: &Permission) -> (r: bool)
    ensures
        r == perm_names(v@).contains(p.0@),
{
    let mut i: usize = 0;
    while i < v.len()
        invariant
            i <= v@.len(),
            forall|j: int| 0 <= j < i ==> v@[j].0@ != p.0@,
        decreases v.len() - i,
    {
        if same_name(&v[i], p) {
            assert(perm_names(v@)[i as int] == p.0@);
            return true;
        }
        i = i + 1;
    }
    assert forall|j: int| 0 <= j < perm_names(v@).len() implies perm_names(v@)[j] != p.0@ by {}
    false
}

/// The permissions a child gets: those it asked for that the parent may
/// delegate, in the order asked, repeats kept.
pub open spec fn child_permissions_spec(parent: Seq<Seq<char>>, requested: Seq<Seq<char>>) -> Seq<Seq<char>> {
    requested.filter(|p: Seq<char>| parent.contains(p))
}

fn filter_delegable(parent_delegable: &[Permission], requested: &[Permission]) -> (r: Vec<Permission>)
    ensures
        perm_names(r@) == child_permissions_spec(perm_names(parent_delegable@), perm_names(requested@)),
{
    let ghost pn = perm_names(parent_delegable@);
    let ghost f = |p: Seq<char>| pn.contains(p);
    let ghost rq = perm_names(requested@);
    let mut out: Vec<Permission> = Vec::new();
    let mut i: usize = 0;
    while i < requested.len()
        invariant
            i <= requested@.len(),
            pn == perm_names(parent_delegable@),
            rq == perm_names(requested@),
            f == (|p: Seq<char>| pn.contains(p)),
            perm_names(out@) == rq.take(i as int).filter(f),
        decreases requested.len() - i,
    {
        proof {
            assert(rq.take(i + 1).drop_last() =~= rq.take(i as int));
            assert(rq.take(i + 1) =~= rq.take(i as int).push(rq[i as int]));
            rq.take(i as int).lemma_filter_push(rq[i as int], f);
        }
        let ghost before = perm_names(out@);
        if names_contain(parent_delegable, &requested[i]) {
            out.push(requested[i].duplicate());
            assert(perm_names(out@) =~= before.push(rq[i as int]));
        }
        i = i + 1;
    }
    assert(rq.take(rq.len() as int) =~= rq);
    out
}

/// Why a spawn was refused.
#[derive(Debug, Clone, PartialEq, Eq)]
pub enum SpawnError {
    DepthExceeded { max: u32, current: u32 },
    ChildLimitExceeded,
    BudgetInsufficient,
    PermissionNotDelegable(String),
    DuplicateObjective(String),
    NotFound(String),
}

pub open spec fn spawn_error_text(e: SpawnError) -> Seq<char> {
    match e {
        SpawnError::DepthExceeded { max, current } => "spawn depth exceeded: max "@ + nat_decimal(max as nat)
            + ", current "@ + nat_decimal(current as nat),
        SpawnError::ChildLimitExceeded => "child limit exceeded"@,
        SpawnError::BudgetInsufficient => "budget insufficient"@,
        SpawnError::PermissionNotDelegable(s) => "permission not delegable: "@ + s@,
        SpawnError::DuplicateObjective(s) => "duplicate objective: "@ + s@,
        SpawnError::NotFound(s) => "spawn not found: "@ + s@,
    }
}

impl SpawnError {
    /// The error's text.
    pub fn message(&self) -> (s: String)
        ensures
            s@ == spawn_error_text(*self),
    {
        let mut v: Vec<char> = Vec::new();
        match self {
            SpawnError::DepthExceeded { max, current } => {
                append_str(&mut v, "spawn depth exceeded: max ");
                append_chars(&mut v, &crate::text::fmt_u64(*max as u64));
                append_str(&mut v, ", current ");
                append_chars(&mut v, &crate::text::fmt_u64(*current as u64));
            },
            SpawnError::ChildLimitExceeded => append_str(&mut v, "child limit exceeded"),
            SpawnError::BudgetInsufficient => append_str(&mut v, "budget insufficient"),
            SpawnError::PermissionNotDelegable(s) => {
                append_str(&mut v, "permission not delegable: ");
                append_str(&mut v, s.as_str());
            },
            SpawnError::DuplicateObjective(s) => {
                append_str(&mut v, "duplicate objective: ");
                append_str(&mut v, s.as_str());
            },
            SpawnError::NotFound(s) => {
                append_str(&mut v, "spawn not found: ");
                append_str(&mut v, s.as_str());
            },
        }
        assert(v@ =~= spawn_error_text(*self));
        string_from_chars(&v)
    }
}

/// What spawning reads of the parent agent's autonomy settings.
#[derive(Debug, Clone, Copy, PartialEq, Eq)]
pub struct SpawnAutonomy {
    pub can_spawn: bool,
    pub max_children: u32,
}

/// The swarm-wide spawning limits.
#[derive(Debug, Clone, Copy, PartialEq, Eq)]
pub struct SwarmLimitsConfig {
    pub max_spawn_depth: u32,
}

/// Decides spawn requests.
pub struct SpawnBroker;

impl SpawnBroker {
    /// Checks, in order, the spawn depth, the parent's right to spawn, and
    /// its child limit.
    pub fn validate_spawn_constraints(
        parent: &SpawnAutonomy,
        child_objectives: &[String],
        current_depth: u32,
        swarm_limits: &SwarmLimitsConfig,
    ) -> (r: Result<(), SpawnError>)
        ensures
            current_depth >= swarm_limits.max_spawn_depth ==> r == Err::<(), SpawnError>(
                SpawnError::DepthExceeded { max: swarm_limits.max_spawn_depth, current: current_depth },
            ),
            current_depth < swarm_limits.max_spawn_depth && !parent.can_spawn ==> (r matches Err(
                SpawnError::PermissionNotDelegable(m),
            ) && m@ == "agent does not have spawn permission"@),
            current_depth < swarm_limits.max_spawn_depth && parent.can_spawn && child_objectives@.len()
                > parent.max_children ==> r == Err::<(), SpawnError>(SpawnError::ChildLimitExceeded),
            r is Ok <==> (current_depth < swarm_limits.max_spawn_depth && parent.can_spawn
                && child_objectives@.len() <= parent.max_children),
    {
        if current_depth >= swarm_limits.max_spawn_depth {
            return Err(
                SpawnError::DepthExceeded { max: swarm_limits.max_spawn_depth, current: current_depth },
            );
        }
        if !parent.can_spawn {
            return Err(
                SpawnError::PermissionNotDelegable(String::from_str("agent does not have spawn permission")),
            );
        }
        if child_objectives.len() as u64 > parent.max_children as u64 {
            return Err(SpawnError::ChildLimitExceeded);
        }
        Ok(())
    }

    /// The requested permissions that the parent may delegate.
    pub fn calculate_child_permissions(parent_delegable: &[Permission], requested: &[Permission]) -> (r: Vec<
        Permission,
    >)
        ensures
            perm_names(r@) == child_permissions_spec(perm_names(parent_delegable@), perm_names(requested@)),
    {
        filter_delegable(parent_delegable, requested)
    }
}

/// The permissions each role grants.
pub struct RbacService {
    role_permissions: HashMap<u128, Vec<Permission>>,
}

impl View for RbacService {
    type V = Map<u128, Seq<Seq<char>>>;

    /// Each role's permission names.
    closed spec fn view(&self) -> Map<u128, Seq<Seq<char>>> {
        self.role_permissions@.map_values(|v: Vec<Permission>| perm_names(v@))
    }
}

/// Strictly increasing in `String` order: sorted, no repeats.
pub open spec fn strictly_sorted(s: Seq<Seq<char>>) -> bool {
    forall|i: int, j: int| 0 <= i < j < s.len() ==> lex_lt(s[i], s[j])
}

/// Every permission name any of the roles grants.
pub open spec fn granted_by(m: Map<u128, Seq<Seq<char>>>, roles: Seq<u128>, p: Seq<char>) -> bool {
    exists|i: int| 0 <= i < roles.len() && m.contains_key(roles[i]) && m[roles[i]].contains(p)
}

impl RbacService {
    pub fn new() -> (s: RbacService)
        ensures
            s@ == Map::<u128, Seq<Seq<char>>>::empty(),
    {
        let s = RbacService { role_permissions: HashMap::new() };
        assert(s@ =~= Map::<u128, Seq<Seq<char>>>::empty());
        s
    }

    /// Sets the permissions a role grants (replacing earlier ones).
    pub fn assign_permissions(&mut self, role_id: u128, permissions: Vec<Permission>)
        ensures
            final(self)@ == old(self)@.insert(role_id, perm_names(permissions@)),
    {
        let ghost names = perm_names(permissions@);
        self.role_permissions.insert(role_id, permissions);
        assert(self@ =~= old(self)@.insert(role_id, names));
    }

    /// The permissions a role grants; none for an unknown role.
    pub fn get_role_permissions(&self, role_id: &u128) -> (r: Vec<Permission>)
        ensures
            perm_names(r@) == (if self@.contains_key(*role_id) {
                self@[*role_id]
            } else {
                Seq::<Seq<char>>::empty()
            }),
    {
        match self.role_permissions.get(role_id) {
            Some(v) => {
                let mut out: Vec<Permission> = Vec::new();
                let mut i: usize = 0;
                while i < v.len()
                    invariant
                        i <= v@.len(),
                        out@ == v@.take(i as int),
                    decreases v.len() - i,
                {
                    out.push(v[i].duplicate());
                    i = i + 1;
                    assert(out@ =~= v@.take(i as int));
                }
                assert(v@.take(v@.len() as int) =~= v@);
                out
            },
            None => {
                let out: Vec<Permission> = Vec::new();
                assert(perm_names(out@) =~= Seq::<Seq<char>>::empty());
                out
            },
        }
    }

    /// The permissions any of the roles grants, sorted, without repeats.
    pub fn get_roles_permissions(&self, role_ids: &[u128]) -> (r: Vec<Permission>)
        ensures
            strictly_sorted(perm_names(r@)),
            forall|p: Seq<char>| perm_names(r@).contains(p) <==> granted_by(self@, role_ids@, p),
    {
        let mut out: Vec<Permission> = Vec::new();
        let mut k: usize = 0;
        while k < role_ids.len()
            invariant
                k <= role_ids@.len(),
                strictly_sorted(perm_names(out@)),
                forall|p: Seq<char>| perm_names(out@).contains(p) <==> granted_by(self@, role_ids@.take(k as int), p),
            decreases role_ids.len() - k,
        {
            let perms = self.get_role_permissions(&role_ids[k]);
            let ghost granted_k = perm_names(perms@);
            let mut j: usize = 0;
            while j < perms.len()
                invariant
                    k < role_ids@.len(),
                    j <= perms@.len(),
                    granted_k == perm_names(perms@),
                    granted_k == (if self@.contains_key(role_ids@[k as int]) {
                        self@[role_ids@[k as int]]
                    } else {
                        Seq::<Seq<char>>::empty()
                    }),
                    strictly_sorted(perm_names(out@)),
                    forall|p: Seq<char>| perm_names(out@).contains(p) <==> (granted_by(self@, role_ids@.take(k as int), p)
                        || granted_k.take(j as int).contains(p)),
                decreases perms.len() - j,
            {
                let ghost before = perm_names(out@);
                let pj = perms[j].duplicate();
                assert(pj.0@ == granted_k[j as int]);
                insert_sorted_unique(&mut out, pj);
                proof {
                    assert(granted_k.take(j + 1) =~= granted_k.take(j as int).push(granted_k[j as int]));
                    assert forall|p: Seq<char>| perm_names(out@).contains(p) <==> (granted_by(self@, role_ids@.take(k as int), p)
                        || granted_k.take(j + 1).contains(p)) by {
                        if granted_k.take(j + 1).contains(p) && !granted_k.take(j as int).contains(p) {
                            let w = choose|w: int| 0 <= w < j + 1 && #[trigger] granted_k.take(j + 1)[w] == p;
                            assert(w == j);
                        }
                        if granted_k.take(j as int).contains(p) {
                            let w = choose|w: int| 0 <= w < j && #[trigger] granted_k.take(j as int)[w] == p;
                            assert(granted_k.take(j + 1)[w] == p);
                        }
                        if p == granted_k[j as int] {
                            assert(granted_k.take(j + 1)[j as int] == p);
                        }
                        assert(perm_names(out@).contains(p) <==> (before.contains(p) || p == granted_k[j as int]));
                    }
                }
                j = j + 1;
            }
            proof {
                assert(granted_k.take(perms@.len() as int) =~= granted_k);
                assert forall|p: Seq<char>| perm_names(out@).contains(p) <==> granted_by(self@, role_ids@.take(k + 1), p) by {
                    let rk = role_ids@.take(k + 1);
                    if granted_by(self@, role_ids@.take(k as int), p) {
                        let w = choose|w: int| 0 <= w < k && self@.contains_key(#[trigger] role_ids@.take(k as int)[w]) && self@[role_ids@.take(k as int)[w]].contains(p);
                        assert(rk[w] == role_ids@.take(k as int)[w]);
                    }
                    if granted_k.contains(p) {
                        assert(rk[k as int] == role_ids@[k as int]);
                    }
                    if granted_by(self@, rk, p) {
                        let w = choose|w: int| 0 <= w < k + 1 && self@.contains_key(#[trigger] rk[w]) && self@[rk[w]].contains(p);
                        if w < k {
                            assert(role_ids@.take(k as int)[w] == rk[w]);
                        }
                    }
                }
            }
            k = k + 1;
        }
        assert(role_ids@.take(role_ids@.len() as int) =~= role_ids@);
        out
    }

    /// The requested permissions that the parent may delegate.
    pub fn child_permissions(parent_delegable: &[Permission], requested: &[Permission]) -> (r: Vec<Permission>)
        ensures
            perm_names(r@) == child_permissions_spec(perm_names(parent_delegable@), perm_names(requested@)),
    {
        filter_delegable(parent_delegable, requested)
    }
}

/// Adds `p` to a strictly sorted list unless its name is already there.
fn insert_sorted_unique(v: &mut Vec<Permission>, p: Permission)
    requires
        strictly_sorted(perm_names(old(v)@)),
    ensures
        strictly_sorted(perm_names(final(v)@)),
        forall|q: Seq<char>| perm_names(final(v)@).contains(q) <==> (perm_names(old(v)@).contains(q) || q == p.0@),
{
    let ghost names = perm_names(v@);
    let pc = chars_of(p.0.as_str());
    let mut pos: usize = 0;
    let mut stop: bool = false;
    while pos < v.len() && !stop
        invariant
            names == perm_names(v@),
            names == perm_names(old(v)@),
            strictly_sorted(names),
            pc@ == p.0@,
            pos <= v@.len(),
            forall|j: int| 0 <= j < pos ==> lex_lt(#[trigger] names[j], p.0@),
            stop ==> pos < v@.len() && lex_lt(p.0@, names[pos as int]),
        decreases v.len() - pos + (if stop { 0int } else { 1int }),
    {
        let cur = chars_of(v[pos].0.as_str());
        assert(cur@ == names[pos as int]);
        match compare_keys(&cur, &pc) {
            KeyOrder::Less => {
                pos = pos + 1;
            },
            KeyOrder::Equal => {
                proof {
                    assert(names[pos as int] == p.0@);
                    assert forall|q: Seq<char>| names.contains(q) <==> (names.contains(q) || q == p.0@) by {
                        if q == p.0@ {
                            assert(names[pos as int] == q);
                        }
                    }
                }
                return;
            },
            KeyOrder::Greater => {
                stop = true;
            },
        }
    }
    proof {
        assert forall|j: int| pos <= j < names.len() implies lex_lt(p.0@, #[trigger] names[j]) by {
            assert(stop);
            if j > pos {
                assert(lex_lt(names[pos as int], names[j]));
                lemma_lex_transitive(p.0@, names[pos as int], names[j]);
            }
        }
    }
    v.insert(pos, p);
    proof {
        let nn = perm_names(v@);
        assert(nn =~= names.insert(pos as int, p.0@));
        assert forall|i: int, j: int| 0 <= i < j < nn.len() implies lex_lt(nn[i], nn[j]) by {
            if j < pos {
            } else if j == pos {
            } else if i < pos {
                lemma_lex_transitive(nn[i], p.0@, nn[j]);
            } else if i == pos {
            } else {
            }
        }
        assert forall|q: Seq<char>| nn.contains(q) <==> (names.contains(q) || q == p.0@) by {
            if nn.contains(q) {
                let w = choose|w: int| 0 <= w < nn.len() && #[trigger] nn[w] == q;
                if w < pos {
                    assert(names[w] == q);
                } else if w > pos {
                    assert(names[w - 1] == q);
                }
            }
            if names.contains(q) {
                let w = choose|w: int| 0 <= w < names.len() && #[trigger] names[w] == q;
                if w < pos {
                    assert(nn[w] == q);
                } else {
                    assert(nn[w + 1] == q);
                }
            }
            if q == p.0@ {
                assert(nn[pos as int] == q);
            }
        }
    }
}

} // verus!
