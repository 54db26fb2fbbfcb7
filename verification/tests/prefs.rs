use llrs::prefs::{
    decode_view_preference, encode_view_preference, PrefStore, ViewPreference,
};

#[test]
fn set_then_get_returns_the_new_preference() {
    let mut store = PrefStore::from_storage(None);
    assert_eq!(store.get(), ViewPreference::SinglePage);
    let _ = store.set(ViewPreference::ContinuousScroll);
    assert_eq!(store.get(), ViewPreference::ContinuousScroll);
}

#[test]
fn preference_survives_a_simulated_reload() {
    let mut store = PrefStore::from_storage(None);
    let _ = store.set(ViewPreference::ContinuousScroll);
    let persisted = encode_view_preference(ViewPreference::ContinuousScroll);
    let reloaded = PrefStore::from_storage(Some(persisted));
    assert_eq!(reloaded.get(), ViewPreference::ContinuousScroll);

    let persisted_single = encode_view_preference(ViewPreference::SinglePage);
    let reloaded_single = PrefStore::from_storage(Some(persisted_single));
    assert_eq!(reloaded_single.get(), ViewPreference::SinglePage);
}

#[test]
fn absence_and_corruption_read_as_single_page() {
    assert_eq!(
        PrefStore::from_storage(None).get(),
        ViewPreference::SinglePage
    );
    assert_eq!(
        PrefStore::from_storage(Some("garbage".to_string())).get(),
        ViewPreference::SinglePage
    );
    assert_eq!(
        PrefStore::from_storage(Some(String::new())).get(),
        ViewPreference::SinglePage
    );
    assert_eq!(decode_view_preference("ContinuousScroll"), ViewPreference::SinglePage);
    assert_eq!(
        decode_view_preference("continuous_scroll"),
        ViewPreference::ContinuousScroll
    );
}

#[test]
fn every_subscriber_hears_a_write_once() {
    let mut store = PrefStore::from_storage(None);
    store.subscribe(1);
    store.subscribe(2);
    store.subscribe(2);
    let notified = store.set(ViewPreference::ContinuousScroll);
    assert_eq!(notified, vec![1, 2]);
}

#[test]
fn unsubscribed_handles_hear_nothing() {
    let mut store = PrefStore::from_storage(None);
    store.subscribe(1);
    store.subscribe(2);
    store.unsubscribe(1);
    store.unsubscribe(99);
    let notified = store.set(ViewPreference::SinglePage);
    assert_eq!(notified, vec![2]);
}
