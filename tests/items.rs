use item_graph::items::{
    deletion_outcome, seed_items, seed_plan, storage_failure, validate_item_text, ItemError, StoreAction,
    MAX_ITEM_TEXT_CHARS,
};
use item_graph::text::{blank, decimal_text, same_text};

#[test]
fn empty_text_is_rejected() {
    assert_eq!(validate_item_text(""), Err(ItemError::EmptyText));
    assert_eq!(validate_item_text(" "), Err(ItemError::EmptyText));
    assert_eq!(validate_item_text("\t\n \u{3000}"), Err(ItemError::EmptyText));
    assert!(ItemError::EmptyText.is_validation());
}

#[test]
fn text_length_limit() {
    let hundred = "a".repeat(100);
    let hundred_one = "a".repeat(101);
    assert_eq!(validate_item_text(&hundred), Ok(()));
    assert_eq!(validate_item_text(&hundred_one), Err(ItemError::TextTooLong));
    assert!(ItemError::TextTooLong.is_validation());
    assert_eq!(MAX_ITEM_TEXT_CHARS, 100);
}

#[test]
fn length_counts_characters() {
    let wide = "é".repeat(100);
    assert_eq!(wide.len(), 200);
    assert_eq!(validate_item_text(&wide), Ok(()));
    assert_eq!(validate_item_text(&"é".repeat(101)), Err(ItemError::TextTooLong));
}

#[test]
fn blank_wins_over_length() {
    assert_eq!(validate_item_text(&" ".repeat(150)), Err(ItemError::EmptyText));
    assert_eq!(validate_item_text("  Buy milk  "), Ok(()));
}

#[test]
fn blank_matches_trim() {
    for s in ["", " ", "a", " a ", "\u{a0}", "\u{85}x"] {
        assert_eq!(blank(s), s.trim().is_empty(), "input {:?}", s);
    }
}

#[test]
fn white_space_is_what_std_says() {
    for c in (0u32..=0x10FFFF).filter_map(char::from_u32) {
        let mut s = String::new();
        s.push(c);
        assert_eq!(blank(&s), c.is_whitespace(), "char {:?}", c);
    }
}

#[test]
fn delete_of_missing_item_is_not_found() {
    assert_eq!(deletion_outcome(5, 0), Err(ItemError::NotFound(5)));
    assert_eq!(deletion_outcome(5, 1), Ok(()));
    assert_eq!(ItemError::NotFound(5).message(), "Item with id 5 not found for deletion");
    assert!(!ItemError::NotFound(5).is_validation());
}

#[test]
fn error_messages() {
    assert_eq!(ItemError::EmptyText.message(), "Item text cannot be empty.");
    assert_eq!(ItemError::TextTooLong.message(), "Item text too long (max 100 chars).");
    let e = storage_failure(StoreAction::Add, "no such table: items");
    assert_eq!(e.message(), "Failed to add item: no such table: items");
    assert!(!e.is_validation());
    let e = storage_failure(StoreAction::Connect, "refused");
    assert_eq!(e, ItemError::Storage("DB Pool error: refused".to_string()));
    assert_eq!(storage_failure(StoreAction::Fetch, "x").message(), "Failed to fetch items: x");
    assert_eq!(storage_failure(StoreAction::Migrate, "x").message(), "Failed to create the items table: x");
    assert_eq!(storage_failure(StoreAction::Delete, "x").message(), "Failed to delete item: x");
}

#[test]
fn seeding_only_into_an_empty_table() {
    let starters = vec!["Buy groceries".to_string(), "Read a book".to_string(), "Learn Leptos".to_string()];
    assert_eq!(seed_items(), starters);
    assert_eq!(seed_plan(0), starters);
    assert!(seed_plan(3).is_empty());
}

#[test]
fn decimal_rendering() {
    for n in [0i64, 7, -7, 10, 1234567890, i64::MAX, i64::MIN, i32::MIN as i64] {
        assert_eq!(decimal_text(n), n.to_string());
    }
}

#[test]
fn text_equality() {
    assert!(same_text("none", "none"));
    assert!(!same_text("none", "None"));
    assert!(!same_text("non", "none"));
    assert!(same_text("", ""));
}
