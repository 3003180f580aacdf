use std::collections::HashMap;

use rbx_dom_weak::{RbxId, RbxInstanceProperties, RbxTree};

use remodel_api::{InstanceError, LuaInstance, ScriptValue};

fn props(name: &str, class: &str) -> RbxInstanceProperties {
    RbxInstanceProperties {
        name: name.to_string(),
        class_name: class.to_string(),
        properties: HashMap::new(),
    }
}

/// root -> A ("Widgets", "Folder") -> B ("Button1", "Button")
fn widgets_tree() -> (RbxTree, RbxId, RbxId, RbxId) {
    let mut tree = RbxTree::new(props("Place", "DataModel"));
    let root_id = tree.get_root_id();
    let a_id = tree.insert_instance(props("Widgets", "Folder"), root_id);
    let b_id = tree.insert_instance(props("Button1", "Button"), a_id);
    (tree, root_id, a_id, b_id)
}

#[test]
fn equals_is_reflexive_and_symmetric() {
    let (tree, _root_id, a_id, b_id) = widgets_tree();
    drop(tree);
    let a = LuaInstance::new(a_id);
    let a2 = LuaInstance::new(a_id);
    let b = LuaInstance::new(b_id);
    assert!(a.equals(&a));
    assert!(a.equals(&a2));
    assert!(a2.equals(&a));
    assert!(!a.equals(&b));
    assert!(!b.equals(&a));
}

#[test]
fn get_member_name_and_class_name() {
    let (tree, _root_id, a_id, _b_id) = widgets_tree();
    let a = LuaInstance::new(a_id);
    assert_eq!(
        a.get_member(&tree, &"Name".to_string()),
        Ok(ScriptValue::Text("Widgets".to_string()))
    );
    assert_eq!(
        a.get_member(&tree, &"ClassName".to_string()),
        Ok(ScriptValue::Text("Folder".to_string()))
    );
}

#[test]
fn get_member_parent_of_child_of_root_is_nil() {
    let (tree, _root_id, a_id, _b_id) = widgets_tree();
    let a = LuaInstance::new(a_id);
    assert_eq!(a.get_member(&tree, &"Parent".to_string()), Ok(ScriptValue::Nil));
}

#[test]
fn get_member_parent_of_deeper_node_is_a_handle() {
    let (tree, _root_id, a_id, b_id) = widgets_tree();
    let b = LuaInstance::new(b_id);
    match b.get_member(&tree, &"Parent".to_string()) {
        Ok(ScriptValue::Instance(h)) => assert!(h.equals(&LuaInstance::new(a_id))),
        other => panic!("expected a parent handle, got {:?}", other),
    }
}

#[test]
fn get_member_parent_of_root_is_nil() {
    let (tree, root_id, _a_id, _b_id) = widgets_tree();
    let root = LuaInstance::new(root_id);
    assert_eq!(root.get_member(&tree, &"Parent".to_string()), Ok(ScriptValue::Nil));
}

#[test]
fn get_member_falls_back_to_child_lookup() {
    let (tree, root_id, a_id, _b_id) = widgets_tree();
    let root = LuaInstance::new(root_id);
    match root.get_member(&tree, &"Widgets".to_string()) {
        Ok(ScriptValue::Instance(h)) => assert!(h.equals(&LuaInstance::new(a_id))),
        other => panic!("expected a child handle, got {:?}", other),
    }
}

#[test]
fn get_member_unknown_key_fails_where_find_returns_absence() {
    let (tree, root_id, _a_id, _b_id) = widgets_tree();
    let root = LuaInstance::new(root_id);
    assert_eq!(
        root.get_member(&tree, &"Gadgets".to_string()),
        Err(InstanceError::InvalidMember("Gadgets".to_string()))
    );
    assert_eq!(root.find_first_child(&tree, &"Gadgets".to_string()), Ok(None));
}

#[test]
fn find_first_child_returns_named_child() {
    let (tree, root_id, a_id, _b_id) = widgets_tree();
    let root = LuaInstance::new(root_id);
    let found = root
        .find_first_child(&tree, &"Widgets".to_string())
        .expect("root is live")
        .expect("a child is named Widgets");
    assert!(found.equals(&LuaInstance::new(a_id)));
    assert_eq!(
        found.get_member(&tree, &"Name".to_string()),
        Ok(ScriptValue::Text("Widgets".to_string()))
    );
}

#[test]
fn find_first_child_takes_first_of_duplicate_names() {
    let mut tree = RbxTree::new(props("Place", "DataModel"));
    let root_id = tree.get_root_id();
    let first_id = tree.insert_instance(props("Twin", "Folder"), root_id);
    let _second_id = tree.insert_instance(props("Twin", "Folder"), root_id);
    let root = LuaInstance::new(root_id);
    let found = root
        .find_first_child(&tree, &"Twin".to_string())
        .expect("root is live")
        .expect("two children are named Twin");
    assert!(found.equals(&LuaInstance::new(first_id)));
}

#[test]
fn get_children_yields_one_handle_per_child_in_order() {
    let mut tree = RbxTree::new(props("Place", "DataModel"));
    let root_id = tree.get_root_id();
    let x_id = tree.insert_instance(props("X", "Folder"), root_id);
    let y_id = tree.insert_instance(props("Y", "Folder"), root_id);
    let root = LuaInstance::new(root_id);
    let kids = root.get_children(&tree).expect("root is live");
    assert_eq!(kids.len(), 2);
    assert!(kids[0].equals(&LuaInstance::new(x_id)));
    assert!(kids[1].equals(&LuaInstance::new(y_id)));
}

#[test]
fn to_display_string_is_the_name() {
    let (tree, _root_id, a_id, _b_id) = widgets_tree();
    let a = LuaInstance::new(a_id);
    assert_eq!(a.to_display_string(&tree), Ok("Widgets".to_string()));
}

#[test]
fn set_name_round_trip() {
    let (mut tree, _root_id, a_id, _b_id) = widgets_tree();
    let a = LuaInstance::new(a_id);
    assert_eq!(
        a.set_member(&mut tree, &"Name".to_string(), ScriptValue::Text("Foo".to_string())),
        Ok(())
    );
    assert_eq!(
        a.get_member(&tree, &"Name".to_string()),
        Ok(ScriptValue::Text("Foo".to_string()))
    );
}

#[test]
fn set_name_with_non_text_fails() {
    let (mut tree, _root_id, a_id, _b_id) = widgets_tree();
    let a = LuaInstance::new(a_id);
    let before = a.get_member(&tree, &"Name".to_string());
    assert_eq!(
        a.set_member(&mut tree, &"Name".to_string(), ScriptValue::Other),
        Err(InstanceError::TypeMismatch("Name must be a string".to_string()))
    );
    assert_eq!(a.get_member(&tree, &"Name".to_string()), before);
}

#[test]
fn set_class_name_always_fails_read_only() {
    let (mut tree, _root_id, a_id, _b_id) = widgets_tree();
    let a = LuaInstance::new(a_id);
    assert_eq!(
        a.set_member(&mut tree, &"ClassName".to_string(), ScriptValue::Text("Part".to_string())),
        Err(InstanceError::ReadOnlyMember("ClassName".to_string()))
    );
    assert_eq!(
        a.set_member(&mut tree, &"ClassName".to_string(), ScriptValue::Nil),
        Err(InstanceError::ReadOnlyMember("ClassName".to_string()))
    );
    assert_eq!(
        a.get_member(&tree, &"ClassName".to_string()),
        Ok(ScriptValue::Text("Folder".to_string()))
    );
}

#[test]
fn set_unknown_member_fails() {
    let (mut tree, _root_id, a_id, _b_id) = widgets_tree();
    let a = LuaInstance::new(a_id);
    assert_eq!(
        a.set_member(&mut tree, &"Color".to_string(), ScriptValue::Text("Red".to_string())),
        Err(InstanceError::InvalidMember("Color".to_string()))
    );
}

#[test]
fn set_parent_with_wrong_value_shape_fails() {
    let (mut tree, _root_id, _a_id, b_id) = widgets_tree();
    let b = LuaInstance::new(b_id);
    assert_eq!(
        b.set_member(&mut tree, &"Parent".to_string(), ScriptValue::Text("A".to_string())),
        Err(InstanceError::TypeMismatch("Parent must be an Instance or nil".to_string()))
    );
}

#[test]
fn set_parent_to_handle_then_read_it_back() {
    let mut tree = RbxTree::new(props("Place", "DataModel"));
    let root_id = tree.get_root_id();
    let a_id = tree.insert_instance(props("A", "Folder"), root_id);
    let b_id = tree.insert_instance(props("B", "Folder"), root_id);
    let b = LuaInstance::new(b_id);
    assert_eq!(
        b.set_member(&mut tree, &"Parent".to_string(), ScriptValue::Instance(LuaInstance::new(a_id))),
        Ok(())
    );
    match b.get_member(&tree, &"Parent".to_string()) {
        Ok(ScriptValue::Instance(h)) => assert!(h.equals(&LuaInstance::new(a_id))),
        other => panic!("expected the new parent handle, got {:?}", other),
    }
    let a_kids = LuaInstance::new(a_id).get_children(&tree).expect("A is live");
    assert_eq!(a_kids.len(), 1);
    assert!(a_kids[0].equals(&b));
}

#[test]
fn set_parent_to_root_handle_reads_back_as_nil() {
    let (mut tree, root_id, _a_id, b_id) = widgets_tree();
    let b = LuaInstance::new(b_id);
    assert_eq!(
        b.set_member(&mut tree, &"Parent".to_string(), ScriptValue::Instance(LuaInstance::new(root_id))),
        Ok(())
    );
    assert_eq!(b.get_member(&tree, &"Parent".to_string()), Ok(ScriptValue::Nil));
}

#[test]
fn set_parent_to_nil_moves_under_root() {
    let (mut tree, root_id, a_id, b_id) = widgets_tree();
    let b = LuaInstance::new(b_id);
    assert_eq!(b.set_member(&mut tree, &"Parent".to_string(), ScriptValue::Nil), Ok(()));
    assert_eq!(b.get_member(&tree, &"Parent".to_string()), Ok(ScriptValue::Nil));
    let root = LuaInstance::new(root_id);
    let found = root
        .find_first_child(&tree, &"Button1".to_string())
        .expect("root is live")
        .expect("Button1 now hangs under the root");
    assert!(found.equals(&b));
    let a_kids = LuaInstance::new(a_id).get_children(&tree).expect("A is live");
    assert_eq!(a_kids.len(), 0);
}

#[test]
fn widgets_scenario_end_to_end() {
    let (mut tree, root_id, a_id, b_id) = widgets_tree();
    let root = LuaInstance::new(root_id);
    let a = LuaInstance::new(a_id);
    let b = LuaInstance::new(b_id);

    let found_a = root
        .find_first_child(&tree, &"Widgets".to_string())
        .expect("root is live")
        .expect("Widgets exists");
    assert!(found_a.equals(&a));

    let a_kids = a.get_children(&tree).expect("A is live");
    assert_eq!(a_kids.len(), 1);
    assert!(a_kids[0].equals(&b));

    match b.get_member(&tree, &"Parent".to_string()) {
        Ok(ScriptValue::Instance(h)) => assert!(h.equals(&a)),
        other => panic!("expected A as parent, got {:?}", other),
    }

    assert_eq!(b.set_member(&mut tree, &"Parent".to_string(), ScriptValue::Nil), Ok(()));
    assert_eq!(b.get_member(&tree, &"Parent".to_string()), Ok(ScriptValue::Nil));
    let found_b = root
        .find_first_child(&tree, &"Button1".to_string())
        .expect("root is live")
        .expect("Button1 hangs under the root now");
    assert!(found_b.equals(&b));
}

#[test]
fn destroyed_node_fails_every_operation_but_still_compares_equal() {
    let (mut tree, _root_id, a_id, b_id) = widgets_tree();
    tree.remove_instance(a_id);

    let a = LuaInstance::new(a_id);
    let b = LuaInstance::new(b_id);
    assert_eq!(
        a.get_member(&tree, &"Name".to_string()),
        Err(InstanceError::NodeDestroyed)
    );
    assert_eq!(
        a.set_member(&mut tree, &"Name".to_string(), ScriptValue::Text("X".to_string())),
        Err(InstanceError::NodeDestroyed)
    );
    assert_eq!(
        a.set_member(&mut tree, &"ClassName".to_string(), ScriptValue::Nil),
        Err(InstanceError::NodeDestroyed)
    );
    assert_eq!(
        a.find_first_child(&tree, &"Button1".to_string()),
        Err(InstanceError::NodeDestroyed)
    );
    assert_eq!(a.get_children(&tree), Err(InstanceError::NodeDestroyed));
    assert_eq!(a.to_display_string(&tree), Err(InstanceError::NodeDestroyed));

    // B went with A's subtree: its handle dangles too, but still compares.
    assert_eq!(b.get_member(&tree, &"Name".to_string()), Err(InstanceError::NodeDestroyed));
    let a2 = LuaInstance::new(a_id);
    assert!(a.equals(&a2));
    assert!(!a.equals(&b));
}

#[test]
fn ids_from_distinct_nodes_differ() {
    let (tree, root_id, a_id, b_id) = widgets_tree();
    drop(tree);
    let ids = [root_id, a_id, b_id];
    for i in 0..ids.len() {
        for j in 0..ids.len() {
            let same = LuaInstance::new(ids[i]).equals(&LuaInstance::new(ids[j]));
            assert_eq!(same, i == j);
        }
    }
}

#[test]
fn reparent_under_current_parent_moves_to_end() {
    let mut tree = RbxTree::new(props("Place", "DataModel"));
    let root_id = tree.get_root_id();
    let x_id = tree.insert_instance(props("X", "Folder"), root_id);
    let y_id = tree.insert_instance(props("Y", "Folder"), root_id);
    let x = LuaInstance::new(x_id);
    // X already hangs under the root: the move unlinks it and appends it.
    assert_eq!(x.set_member(&mut tree, &"Parent".to_string(), ScriptValue::Nil), Ok(()));
    let kids = LuaInstance::new(root_id).get_children(&tree).expect("root is live");
    assert_eq!(kids.len(), 2);
    assert!(kids[0].equals(&LuaInstance::new(y_id)));
    assert!(kids[1].equals(&x));
}

#[test]
fn two_moves_in_a_row() {
    let mut tree = RbxTree::new(props("Place", "DataModel"));
    let root_id = tree.get_root_id();
    let a_id = tree.insert_instance(props("A", "Folder"), root_id);
    let b_id = tree.insert_instance(props("B", "Folder"), root_id);
    let c_id = tree.insert_instance(props("C", "Folder"), root_id);
    let c = LuaInstance::new(c_id);
    let a_handle = ScriptValue::Instance(LuaInstance::new(a_id));
    let b_handle = ScriptValue::Instance(LuaInstance::new(b_id));
    assert_eq!(c.set_member(&mut tree, &"Parent".to_string(), a_handle), Ok(()));
    assert_eq!(c.set_member(&mut tree, &"Parent".to_string(), b_handle), Ok(()));
    match c.get_member(&tree, &"Parent".to_string()) {
        Ok(ScriptValue::Instance(h)) => assert!(h.equals(&LuaInstance::new(b_id))),
        other => panic!("expected B as parent, got {:?}", other),
    }
    assert_eq!(LuaInstance::new(a_id).get_children(&tree).expect("A is live").len(), 0);
    let b_kids = LuaInstance::new(b_id).get_children(&tree).expect("B is live");
    assert_eq!(b_kids.len(), 1);
    assert!(b_kids[0].equals(&c));
}
