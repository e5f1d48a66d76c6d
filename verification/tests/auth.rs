use clawhive::auth::{Permission, RbacService, SpawnAutonomy, SpawnBroker, SpawnError, SwarmLimitsConfig};
use clawhive::lineage::LineageService;

fn create_permission(name: &str) -> Permission {
    Permission(name.to_string())
}

#[test]
fn test_get_roles_permissions_empty() {
    let rbac = RbacService::new();
    let perms = rbac.get_roles_permissions(&[]);
    assert!(perms.is_empty());
}

#[test]
fn test_get_roles_permissions_single_role() {
    let mut rbac = RbacService::new();
    let role1: u128 = 11;
    let p1 = create_permission("read");
    let p2 = create_permission("write");
    rbac.assign_permissions(role1, vec![p1.clone(), p2.clone()]);

    let perms = rbac.get_roles_permissions(&[role1]);
    assert_eq!(perms.len(), 2);
    assert!(perms.contains(&p1));
    assert!(perms.contains(&p2));
}

#[test]
fn test_get_roles_permissions_multiple_roles() {
    let mut rbac = RbacService::new();
    let role1: u128 = 1;
    let p1 = create_permission("read");
    rbac.assign_permissions(role1, vec![p1.clone()]);
    let role2: u128 = 2;
    let p2 = create_permission("write");
    rbac.assign_permissions(role2, vec![p2.clone()]);

    let perms = rbac.get_roles_permissions(&[role1, role2]);
    assert_eq!(perms.len(), 2);
    assert!(perms.contains(&p1));
    assert!(perms.contains(&p2));
}

#[test]
fn test_get_roles_permissions_duplicate_permissions() {
    let mut rbac = RbacService::new();
    let role1: u128 = 1;
    let p1 = create_permission("read");
    let p2 = create_permission("write");
    rbac.assign_permissions(role1, vec![p1.clone(), p2.clone()]);
    let role2: u128 = 2;
    let p3 = create_permission("write");
    let p4 = create_permission("delete");
    rbac.assign_permissions(role2, vec![p3.clone(), p4.clone()]);

    let perms = rbac.get_roles_permissions(&[role1, role2]);
    assert_eq!(perms.len(), 3);
    assert!(perms.contains(&p1));
    assert!(perms.contains(&p2));
    assert!(perms.contains(&p4));
}

#[test]
fn test_get_roles_permissions_missing_roles() {
    let mut rbac = RbacService::new();
    let role1: u128 = 1;
    let p1 = create_permission("read");
    rbac.assign_permissions(role1, vec![p1.clone()]);
    let role_missing: u128 = 99;

    let perms = rbac.get_roles_permissions(&[role1, role_missing]);
    assert_eq!(perms.len(), 1);
    assert!(perms.contains(&p1));
}

#[test]
fn roles_permissions_come_sorted() {
    let mut rbac = RbacService::new();
    rbac.assign_permissions(1, vec![create_permission("write"), create_permission("admin")]);
    rbac.assign_permissions(2, vec![create_permission("read"), create_permission("admin")]);
    let names: Vec<String> = rbac.get_roles_permissions(&[1, 2]).into_iter().map(|p| p.0).collect();
    assert_eq!(names, vec!["admin", "read", "write"]);
    assert_eq!(rbac.get_role_permissions(&3), vec![]);
    rbac.assign_permissions(1, vec![]);
    assert!(rbac.get_role_permissions(&1).is_empty());
}

#[test]
fn child_gets_only_delegable_permissions() {
    let parent = vec![create_permission("read"), create_permission("write")];
    let asked = vec![create_permission("write"), create_permission("delete"), create_permission("write")];
    let got = SpawnBroker::calculate_child_permissions(&parent, &asked);
    assert_eq!(got, vec![create_permission("write"), create_permission("write")]);
    assert_eq!(RbacService::child_permissions(&parent, &asked), got);
    assert!(SpawnBroker::calculate_child_permissions(&[], &asked).is_empty());
}

#[test]
fn spawn_constraints_in_order() {
    let limits = SwarmLimitsConfig { max_spawn_depth: 3 };
    let parent = SpawnAutonomy { can_spawn: true, max_children: 2 };
    let two = vec!["a".to_string(), "b".to_string()];
    assert!(SpawnBroker::validate_spawn_constraints(&parent, &two, 2, &limits).is_ok());
    let e = SpawnBroker::validate_spawn_constraints(&parent, &two, 3, &limits).unwrap_err();
    assert_eq!(e, SpawnError::DepthExceeded { max: 3, current: 3 });
    assert_eq!(e.message(), "spawn depth exceeded: max 3, current 3");
    let three = vec!["a".to_string(), "b".to_string(), "c".to_string()];
    assert_eq!(SpawnBroker::validate_spawn_constraints(&parent, &three, 0, &limits).unwrap_err(), SpawnError::ChildLimitExceeded);
    let no = SpawnAutonomy { can_spawn: false, max_children: 9 };
    let e = SpawnBroker::validate_spawn_constraints(&no, &three, 0, &limits).unwrap_err();
    assert_eq!(e.message(), "permission not delegable: agent does not have spawn permission");
    assert_eq!(SpawnError::NotFound("x".into()).message(), "spawn not found: x");
}

#[test]
fn test_add_entry() {
    let mission_id: u128 = 100;
    let root_agent_id: u128 = 200;
    let mut lineage = LineageService::create_lineage(mission_id, root_agent_id);
    assert_eq!(lineage.entries.len(), 0);

    LineageService::add_entry(&mut lineage, root_agent_id, None, "root".into());
    assert_eq!(lineage.entries.len(), 1);
    let entry = &lineage.entries[0];
    assert_eq!(entry.agent_id, root_agent_id);
    assert_eq!(entry.parent_agent_id, None);
    assert_eq!(entry.role, "root");
    assert_eq!(entry.state, "active");
    assert!(entry.terminated_at.is_none());

    let child_agent_id: u128 = 300;
    LineageService::add_entry(&mut lineage, child_agent_id, Some(root_agent_id), "child".into());
    assert_eq!(lineage.entries.len(), 2);
    let child_entry = &lineage.entries[1];
    assert_eq!(child_entry.agent_id, child_agent_id);
    assert_eq!(child_entry.parent_agent_id, Some(root_agent_id));
    assert_eq!(child_entry.role, "child");
    assert_eq!(child_entry.state, "active");
    assert!(child_entry.terminated_at.is_none());
}

#[test]
fn terminating_marks_only_that_agent() {
    let mut lineage = LineageService::create_lineage(1, 2);
    LineageService::add_entry(&mut lineage, 2, None, "root".into());
    LineageService::add_entry(&mut lineage, 3, Some(2), "child".into());
    LineageService::terminate_entry(&mut lineage, &3);
    assert_eq!(lineage.entries[0].state, "active");
    assert_eq!(lineage.entries[1].state, "terminated");
    assert!(lineage.entries[1].terminated_at.is_some());
    assert_eq!(lineage.entries[1].role, "child");
}
