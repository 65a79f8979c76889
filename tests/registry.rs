use rust_life::InstanceManager;

#[test]
fn added_instance_can_be_found() {
    let mut manager = InstanceManager::new();
    manager.add_instance("left".to_string(), 4, 3);
    manager.add_instance("right".to_string(), 2, 2);
    let left = manager.get_instance("left".to_string()).unwrap();
    assert_eq!(left.get_cells(true).len(), 12);
    assert_eq!(left.get_cells(true).count_ones(..), 0);
    assert_eq!(manager.get_instance("right".to_string()).unwrap().get_cells(true).len(), 4);
    assert!(manager.get_instance("middle".to_string()).is_none());
}

#[test]
fn adding_under_a_used_name_replaces() {
    let mut manager = InstanceManager::new();
    manager.add_instance("grid".to_string(), 4, 3);
    manager.add_instance("grid".to_string(), 5, 5);
    assert_eq!(manager.get_instance("grid".to_string()).unwrap().get_cells(true).len(), 25);
}

#[test]
fn deleted_instance_is_gone() {
    let mut manager = InstanceManager::new();
    manager.add_instance("a".to_string(), 1, 1);
    manager.add_instance("b".to_string(), 2, 1);
    manager.add_instance("c".to_string(), 3, 1);
    manager.delete_instance("b".to_string());
    manager.delete_instance("missing".to_string());
    assert!(manager.get_instance("b".to_string()).is_none());
    assert_eq!(manager.get_instance("a".to_string()).unwrap().get_cells(false).len(), 1);
    assert_eq!(manager.get_instance("c".to_string()).unwrap().get_cells(false).len(), 3);
}
