use blockstm::cross_shard::{CrossShardStateValue, CrossShardStateView, StateValueLookup, StorageUsage};

#[test]
fn test_cross_shard_state_view_get_state_value() {
    let state_key = "key1".as_bytes().to_owned();
    let state_value = "value1".as_bytes().to_owned();

    let mut view = CrossShardStateView::new(vec![state_key.clone()]);
    // The reader would block here until the value is pushed.
    assert_eq!(view.get_state_value(&state_key), StateValueLookup::Waiting);

    view.set_value(&state_key, Some(state_value.clone()));

    assert_eq!(view.get_state_value(&state_key), StateValueLookup::Ready(Some(state_value.clone())));
    // A later read gets the same value.
    assert_eq!(view.get_state_value(&state_key), StateValueLookup::Ready(Some(state_value)));
}

#[test]
fn slot_waits_until_set() {
    let mut slot = CrossShardStateValue::waiting();
    assert_eq!(slot.get_value(), None);
    slot.set_value(Some(vec![1, 2, 3]));
    assert_eq!(slot.get_value(), Some(Some(vec![1, 2, 3])));
    let mut absent = CrossShardStateValue::waiting();
    absent.set_value(None);
    assert_eq!(absent.get_value(), Some(None));
}

#[test]
fn other_keys_go_to_base_view() {
    let mut view = CrossShardStateView::new(vec![b"k".to_vec()]);
    assert_eq!(view.get_state_value(&b"other".to_vec()), StateValueLookup::Base);
    assert_eq!(view.get_state_value(&b"".to_vec()), StateValueLookup::Base);
    assert_eq!(view.get_state_value(&b"kk".to_vec()), StateValueLookup::Base);
    view.set_value(&b"k".to_vec(), Some(b"v".to_vec()));
    assert_eq!(view.get_state_value(&b"other".to_vec()), StateValueLookup::Base);
}

#[test]
fn set_of_unknown_key_is_ignored() {
    let mut view = CrossShardStateView::new(vec![b"k".to_vec()]);
    view.set_value(&b"other".to_vec(), Some(b"v".to_vec()));
    assert_eq!(view.get_state_value(&b"other".to_vec()), StateValueLookup::Base);
    assert_eq!(view.get_state_value(&b"k".to_vec()), StateValueLookup::Waiting);
}

#[test]
fn keys_have_separate_slots() {
    let a = b"a".to_vec();
    let b = b"b".to_vec();
    let mut view = CrossShardStateView::new(vec![a.clone(), b.clone(), a.clone()]);
    view.set_value(&b, None);
    assert_eq!(view.get_state_value(&a), StateValueLookup::Waiting);
    assert_eq!(view.get_state_value(&b), StateValueLookup::Ready(None));
    view.set_value(&a, Some(vec![9]));
    assert_eq!(view.get_state_value(&a), StateValueLookup::Ready(Some(vec![9])));
    assert_eq!(view.get_state_value(&b), StateValueLookup::Ready(None));
}

#[test]
fn empty_view_delegates_everything() {
    let view = CrossShardStateView::new(vec![]);
    assert_eq!(view.get_state_value(&b"k".to_vec()), StateValueLookup::Base);
}

#[test]
fn usage_is_untracked() {
    let view = CrossShardStateView::new(vec![b"k".to_vec()]);
    assert_eq!(view.get_usage(), StorageUsage::Untracked);
}
