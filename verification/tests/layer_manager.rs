use lokey::layer::{ConditionalLayer, LayerId, LayerManager};

#[test]
fn basic1() {
    let mut manager = LayerManager::new();
    assert_eq!(manager.active(), LayerId(0));

    let entry = manager.push(LayerId(42));
    assert_eq!(manager.active(), LayerId(42));

    manager.remove(entry);
    assert_eq!(manager.active(), LayerId(0));
}

#[test]
fn basic2() {
    let mut manager = LayerManager::new();
    assert_eq!(manager.active(), LayerId(0));

    let entry1 = manager.push(LayerId(20));
    assert_eq!(manager.active(), LayerId(20));

    let entry2 = manager.push(LayerId(10));
    assert_eq!(manager.active(), LayerId(10));

    manager.remove(entry1);
    assert_eq!(manager.active(), LayerId(10));

    manager.remove(entry2);
    assert_eq!(manager.active(), LayerId(0));
}

#[test]
fn basic3() {
    let mut manager = LayerManager::new();
    assert_eq!(manager.active(), LayerId(0));

    let entry1 = manager.push(LayerId(20));
    assert_eq!(manager.active(), LayerId(20));

    let entry2 = manager.push(LayerId(10));
    assert_eq!(manager.active(), LayerId(10));

    let entry3 = manager.push(LayerId(30));
    assert_eq!(manager.active(), LayerId(30));

    manager.remove(entry2);
    assert_eq!(manager.active(), LayerId(30));

    manager.remove(entry3);
    assert_eq!(manager.active(), LayerId(20));

    let entry4 = manager.push(LayerId(40));
    assert_eq!(manager.active(), LayerId(40));

    manager.remove(entry1);
    assert_eq!(manager.active(), LayerId(40));

    manager.remove(entry4);
    assert_eq!(manager.active(), LayerId(0));
}

#[test]
fn conditional_layer1() {
    let mut manager = LayerManager::with_conditional_layers([ConditionalLayer::new(
        [LayerId(1), LayerId(2)],
        LayerId(42),
    )]);
    assert_eq!(manager.active(), LayerId(0));

    let entry1 = manager.push(LayerId(1));
    assert_eq!(manager.active(), LayerId(1));

    let entry2 = manager.push(LayerId(2));
    assert_eq!(manager.active(), LayerId(42));

    manager.remove(entry1);
    assert_eq!(manager.active(), LayerId(2));

    let entry1 = manager.push(LayerId(1));
    assert_eq!(manager.active(), LayerId(42));

    manager.remove(entry2);
    assert_eq!(manager.active(), LayerId(1));

    manager.remove(entry1);
    assert_eq!(manager.active(), LayerId(0));
}

#[test]
fn conditional_layer2() {
    let mut manager = LayerManager::with_conditional_layers([
        ConditionalLayer::new([LayerId(20), LayerId(30)], LayerId(10)),
        ConditionalLayer::new([LayerId(30), LayerId(40)], LayerId(50)),
    ]);
    assert_eq!(manager.active(), LayerId(0));

    let entry1 = manager.push(LayerId(20));
    assert_eq!(manager.active(), LayerId(20));

    let entry2 = manager.push(LayerId(30));
    assert_eq!(manager.active(), LayerId(10));

    let entry3 = manager.push(LayerId(40));
    assert_eq!(manager.active(), LayerId(50));

    manager.remove(entry2);
    assert_eq!(manager.active(), LayerId(40));

    let entry2 = manager.push(LayerId(30));
    assert_eq!(manager.active(), LayerId(50));

    manager.remove(entry3);
    assert_eq!(manager.active(), LayerId(10));

    manager.remove(entry2);
    assert_eq!(manager.active(), LayerId(20));

    manager.remove(entry1);
    assert_eq!(manager.active(), LayerId(0));
}

#[test]
fn state_query() {
    let mut manager: LayerManager<0> = LayerManager::default();

    let mut query = manager.to_query();

    assert_eq!(query.active(), LayerId(0));

    query.push(LayerId(42));

    assert_eq!(query.active(), LayerId(42));
}

#[test]
fn remove_returns_the_removed_layer() {
    let mut manager = LayerManager::new();
    let entry1 = manager.push(LayerId(3));
    let entry2 = manager.push(LayerId(7));
    assert_eq!(manager.remove(entry1), LayerId(3));
    assert_eq!(manager.remove(entry2), LayerId(7));
    assert_eq!(manager.active(), LayerId(0));
}

#[test]
fn remove_undoes_push() {
    let mut manager = LayerManager::new();
    let _base = manager.push(LayerId(5));
    let before = manager.active();
    let entry = manager.push(LayerId(9));
    assert_eq!(manager.active(), LayerId(9));
    manager.remove(entry);
    assert_eq!(manager.active(), before);
}

#[test]
fn removing_a_required_layer_deactivates_the_conditional_layer() {
    let mut manager = LayerManager::with_conditional_layers([ConditionalLayer::new(
        [LayerId(1), LayerId(2)],
        LayerId(3),
    )]);
    let entry1 = manager.push(LayerId(1));
    let _entry2 = manager.push(LayerId(2));
    assert_eq!(manager.active(), LayerId(3));
    manager.remove(entry1);
    assert_eq!(manager.active(), LayerId(2));
}

#[test]
fn same_layer_pushed_twice_stays_until_both_removed() {
    let mut manager = LayerManager::new();
    let entry1 = manager.push(LayerId(4));
    let entry2 = manager.push(LayerId(4));
    manager.remove(entry2);
    assert_eq!(manager.active(), LayerId(4));
    manager.remove(entry1);
    assert_eq!(manager.active(), LayerId(0));
}

#[test]
fn query_remove_restores_active_layer() {
    let mut manager: LayerManager<0> = LayerManager::new();
    let mut query = manager.to_query();
    let entry = query.push(LayerId(11));
    assert_eq!(query.active(), LayerId(11));
    assert_eq!(query.remove(entry), LayerId(11));
    assert_eq!(query.active(), LayerId(0));
}

#[test]
fn inner_release_and_try_push() {
    let mut manager: LayerManager<0> = LayerManager::new();
    let mut query = manager.to_query();
    let entry = query.inner.try_push(LayerId(6)).unwrap();
    assert!(query.inner.holds(&entry));
    assert!(query.inner.has_room());
    assert_eq!(query.inner.active(), LayerId(6));
    query.inner.release(Some(entry));
    assert_eq!(query.inner.active(), LayerId(0));
    query.inner.release(None);
    assert_eq!(query.inner.active(), LayerId(0));
}

#[test]
fn added_conditional_layer_applies_to_later_pushes() {
    let mut manager: LayerManager<0> = LayerManager::new();
    let query = manager.to_query();
    query.inner.add_conditional_layer(ConditionalLayer::new([LayerId(1), LayerId(2)], LayerId(9)));
    query.inner.push(LayerId(1));
    query.inner.push(LayerId(2));
    assert_eq!(query.inner.active(), LayerId(9));
}

#[test]
fn active_is_latest_unremoved_push() {
    let mut manager = LayerManager::new();
    let a = manager.push(LayerId(1));
    let b = manager.push(LayerId(2));
    let c = manager.push(LayerId(3));
    manager.remove(b);
    assert_eq!(manager.active(), LayerId(3));
    manager.remove(c);
    assert_eq!(manager.active(), LayerId(1));
    let d = manager.push(LayerId(4));
    assert_eq!(manager.active(), LayerId(4));
    manager.remove(a);
    assert_eq!(manager.active(), LayerId(4));
    manager.remove(d);
    assert_eq!(manager.active(), LayerId(0));
}

#[test]
fn push_puts_last_completed_conditional_layer_on_top() {
    let mut manager = LayerManager::with_conditional_layers([
        ConditionalLayer::new([LayerId(1), LayerId(2)], LayerId(10)),
        ConditionalLayer::new([LayerId(1), LayerId(3)], LayerId(11)),
    ]);
    manager.push(LayerId(1));
    assert_eq!(manager.active(), LayerId(1));
    let two = manager.push(LayerId(2));
    assert_eq!(manager.active(), LayerId(10));
    manager.push(LayerId(3));
    assert_eq!(manager.active(), LayerId(11));
    manager.remove(two);
    assert_eq!(manager.active(), LayerId(11));
}

#[test]
fn conditional_layer_stays_until_an_entry_of_a_required_layer_is_removed() {
    let mut manager = LayerManager::with_conditional_layers([ConditionalLayer::new(
        [LayerId(1), LayerId(2)],
        LayerId(42),
    )]);
    let first = manager.push(LayerId(1));
    manager.push(LayerId(1));
    manager.push(LayerId(2));
    assert_eq!(manager.active(), LayerId(42));
    manager.remove(first);
    assert_eq!(manager.active(), LayerId(2));
    manager.push(LayerId(3));
    assert_eq!(manager.active(), LayerId(42));
}

#[test]
fn conditional_layers_are_checked_once_in_order() {
    let mut manager = LayerManager::with_conditional_layers([
        ConditionalLayer::new([LayerId(3), LayerId(4)], LayerId(5)),
        ConditionalLayer::new([LayerId(1), LayerId(2)], LayerId(3)),
    ]);
    manager.push(LayerId(4));
    manager.push(LayerId(1));
    manager.push(LayerId(2));
    assert_eq!(manager.active(), LayerId(3));
}
