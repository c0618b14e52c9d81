use simi::environment::{Environment, Environments};
use simi::value::Value;

fn integer(environments: &Environments, environment: Environment, name: &str) -> Option<i64> {
    match environments.get(environment, name) {
        Some(Value::Int(value)) => Some(value),
        _ => None,
    }
}

#[test]
fn children_lookup_parents_and_shadow_locally() {
    let mut environments = Environments::new();
    let parent = environments.root();
    environments.define_fresh(parent, "value", Value::Int(1));
    let child = environments.child(parent);

    assert_eq!(integer(&environments, child, "value"), Some(1));
    environments.define_fresh(child, "value", Value::Int(2));
    assert_eq!(integer(&environments, child, "value"), Some(2));
    assert_eq!(integer(&environments, parent, "value"), Some(1));
}

#[test]
fn cloned_environments_share_the_same_frame() {
    let mut environments = Environments::new();
    let first = environments.root();
    let second = first.clone();

    environments.define_fresh(second, "later", Value::Int(7));
    assert_eq!(integer(&environments, first, "later"), Some(7));
}

#[test]
fn version_views_freeze_shadowed_cells_but_share_fresh_later_names() {
    let mut environments = Environments::new();
    let first = environments.root();
    environments.define_fresh(first, "value", Value::Int(1));
    let second = environments.shadow_view(first);
    environments.define_shadow(second, "value", Value::Int(2));
    environments.define_fresh(second, "later", Value::Int(3));

    assert_eq!(integer(&environments, first, "value"), Some(1));
    assert_eq!(integer(&environments, second, "value"), Some(2));
    assert_eq!(integer(&environments, first, "later"), Some(3));
    assert_eq!(integer(&environments, second, "later"), Some(3));

    environments.assign(first, "value", Value::Int(4));
    environments.assign(second, "later", Value::Int(5));
    assert_eq!(integer(&environments, first, "value"), Some(4));
    assert_eq!(integer(&environments, second, "value"), Some(2));
    assert_eq!(integer(&environments, first, "later"), Some(5));
}

#[test]
fn assignments_walk_parents_and_update_the_nearest_scope() {
    let mut environments = Environments::new();
    let parent = environments.root();
    environments.define_fresh(parent, "value", Value::Int(1));
    let child = environments.child(parent);
    let alias = parent.clone();

    assert!(environments.assign(child, "value", Value::Int(2)));
    assert_eq!(integer(&environments, parent, "value"), Some(2));
    assert_eq!(integer(&environments, alias, "value"), Some(2));

    environments.define_fresh(child, "value", Value::Int(3));
    assert!(environments.assign(child, "value", Value::Int(4)));
    assert_eq!(integer(&environments, child, "value"), Some(4));
    assert_eq!(integer(&environments, parent, "value"), Some(2));
    assert!(!environments.assign(child, "missing", Value::Int(0)));
}

#[test]
fn define_replaces_only_a_binding_of_the_own_frame() {
    let mut environments = Environments::new();
    let parent = environments.root();
    environments.define(parent, "value", Value::Int(1));
    let child = environments.child(parent);
    environments.define(child, "value", Value::Int(2));
    assert_eq!(integer(&environments, child, "value"), Some(2));
    assert_eq!(integer(&environments, parent, "value"), Some(1));
    environments.define(parent, "value", Value::Int(3));
    assert_eq!(integer(&environments, parent, "value"), Some(3));
    assert_eq!(integer(&environments, child, "value"), Some(2));
}

#[test]
fn current_scope_covers_earlier_views_but_not_enclosing_scopes() {
    let mut environments = Environments::new();
    let outer = environments.root();
    environments.define_fresh(outer, "outer", Value::Int(1));
    let scope = environments.child(outer);
    environments.define_fresh(scope, "early", Value::Int(2));
    let view = environments.shadow_view(scope);
    assert!(environments.contains_current(view, "early"));
    assert!(!environments.contains_current(view, "outer"));
    assert_eq!(integer(&environments, view, "outer"), Some(1));
    assert!(environments.get(view, "missing").is_none());
}

#[test]
fn version_parent_bindings_come_before_enclosing_ones() {
    let mut environments = Environments::new();
    let outer = environments.root();
    environments.define_fresh(outer, "name", Value::Int(1));
    let scope = environments.child(outer);
    environments.define_fresh(scope, "name", Value::Int(2));
    let view = environments.shadow_view(scope);
    assert_eq!(integer(&environments, view, "name"), Some(2));
}
