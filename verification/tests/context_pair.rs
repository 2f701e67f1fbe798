use context_primitives::ambient::AmbientStore;
use context_primitives::context::{create_context, missing_context_message};
use context_primitives::memo::MemoCell;

#[test]
fn provide_consume_round_trip_u64() {
    let (mut provider, consumer) = create_context::<u64>("CounterRoot", None);
    let mut store = AmbientStore::empty();
    provider.render(5, &mut store);
    assert_eq!(consumer.consume("useCounter", &store), 5);
}

#[test]
fn provide_consume_round_trip_string() {
    let (mut provider, consumer) = create_context::<String>("ThemeRoot", None);
    let mut store = AmbientStore::empty();
    provider.render("dark".to_string(), &mut store);
    assert_eq!(consumer.consume("useTheme", &store), "dark".to_string());
}

#[test]
fn provided_value_beats_default() {
    let (mut provider, consumer) = create_context::<u64>("CounterRoot", Some(42));
    let mut store = AmbientStore::empty();
    provider.render(7, &mut store);
    assert_eq!(consumer.consume("useCounter", &store), 7);
}

#[test]
fn default_fallback_is_idempotent() {
    let (_provider, consumer) = create_context::<u64>("CounterRoot", Some(42));
    let store = AmbientStore::empty();
    assert_eq!(consumer.consume("useCounter", &store), 42);
    assert_eq!(consumer.consume("useCounter", &store), 42);
    assert_eq!(consumer.try_consume("useCounter", &store), Ok(42));
}

#[test]
fn missing_context_error_names_consumer_and_root() {
    let (_provider, consumer) = create_context::<u64>("Tooltip", None);
    let store = AmbientStore::empty();
    match consumer.try_consume("useTooltipContext", &store) {
        Ok(_) => panic!("a consumer with no provider and no default must fail"),
        Err(msg) => {
            assert!(msg.contains("useTooltipContext"));
            assert!(msg.contains("Tooltip"));
            assert_eq!(msg, "`useTooltipContext` must be used within `Tooltip`");
        },
    }
}

#[test]
fn missing_context_message_text() {
    let msg = missing_context_message("useTooltipContext", "Tooltip");
    assert_eq!(msg, "`useTooltipContext` must be used within `Tooltip`");
}

#[test]
fn rerender_with_equal_value_is_memoized() {
    let (mut provider, _consumer) = create_context::<String>("ThemeRoot", None);
    let mut store = AmbientStore::empty();
    provider.render("light".to_string(), &mut store);
    assert_eq!(provider.recomputation_count(), Some(0));
    // A value-equal but distinct instance must not signal a recomputation.
    provider.render("light".to_string(), &mut store);
    assert_eq!(provider.recomputation_count(), Some(0));
    // A differing value must.
    provider.render("dark".to_string(), &mut store);
    assert_eq!(provider.recomputation_count(), Some(1));
    assert_eq!(*store.read(), Some("dark".to_string()));
}

#[test]
fn memo_cell_recomputes_only_on_change() {
    let mut cell = MemoCell::new(1u64);
    assert_eq!(cell.recomputation_count(), 0);
    cell.update(1);
    assert_eq!(cell.recomputation_count(), 0);
    assert_eq!(*cell.current(), 1);
    cell.update(2);
    assert_eq!(cell.recomputation_count(), 1);
    assert_eq!(*cell.current(), 2);
}

#[test]
fn ambient_store_reads_back_lookup() {
    let store = AmbientStore::from_lookup(Some(3u64));
    assert_eq!(*store.read(), Some(3));
    let empty = AmbientStore::<u64>::empty();
    assert_eq!(*empty.read(), None);
}
