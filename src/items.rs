use vstd::prelude::*;
use crate::text::{blank, decimal, decimal_text, is_blank, texts_view};

verus! {

/// The most characters an item's text may hold.
pub const MAX_ITEM_TEXT_CHARS: usize = 100;

/// A moment on the server's clock: whole seconds since the Unix epoch and the
/// nanoseconds past that second.
#[derive(Clone, Copy, Debug, PartialEq, Eq)]
pub struct Timestamp {
    pub seconds: i64,
    pub nanos: u32,
}

impl Timestamp {
    pub open spec fn wf(&self) -> bool {
        self.nanos < 1_000_000_000
    }

    /// Nanoseconds since the Unix epoch.
    pub open spec fn instant(&self) -> int {
        self.seconds * 1_000_000_000 + self.nanos
    }
}

/// A stored item: its id and creation time are assigned by the store.
#[derive(Clone, Debug, PartialEq, Eq)]
pub struct Item {
    pub id: i64,
    pub text: String,
    pub created_at: Timestamp,
}

/// The operation of the store during which storage failed.
#[derive(Clone, Copy, Debug, PartialEq, Eq)]
pub enum StoreAction {
    Connect,
    Migrate,
    Fetch,
    Add,
    Delete,
    Count,
}

/// Why an item operation failed.
#[derive(Clone, Debug, PartialEq, Eq)]
pub enum ItemError {
    /// The text is empty once trimmed.
    EmptyText,
    /// The text holds more than the allowed number of characters.
    TextTooLong,
    /// No item has this id.
    NotFound(i64),
    /// Storage failed; the message describes the failure.
    Storage(String),
}

/// The rule that new item text must meet.
pub open spec fn text_check(text: Seq<char>) -> Result<(), ItemError> {
    if is_blank(text) {
        Err(ItemError::EmptyText)
    } else if text.len() > MAX_ITEM_TEXT_CHARS {
        Err(ItemError::TextTooLong)
    } else {
        Ok(())
    }
}

/// The outcome of a delete of `id` that removed `rows` rows.
pub open spec fn deletion_result(id: i64, rows: u64) -> Result<(), ItemError> {
    if rows == 0 {
        Err(ItemError::NotFound(id))
    } else {
        Ok(())
    }
}

pub open spec fn action_prefix(a: StoreAction) -> Seq<char> {
    match a {
        StoreAction::Connect => "DB Pool error"@,
        StoreAction::Migrate => "Failed to create the items table"@,
        StoreAction::Fetch => "Failed to fetch items"@,
        StoreAction::Add => "Failed to add item"@,
        StoreAction::Delete => "Failed to delete item"@,
        StoreAction::Count => "Failed to count items for seeding"@,
    }
}

/// The message shown to a caller for each error.
pub open spec fn error_message(e: ItemError) -> Seq<char> {
    match e {
        ItemError::EmptyText => "Item text cannot be empty."@,
        ItemError::TextTooLong => "Item text too long (max 100 chars)."@,
        ItemError::NotFound(id) => "Item with id "@ + decimal(id as int) + " not found for deletion"@,
        ItemError::Storage(m) => m@,
    }
}

/// The texts of the starter items.
pub open spec fn seed_texts() -> Seq<Seq<char>> {
    seq!["Buy groceries"@, "Read a book"@, "Learn Leptos"@]
}

/// Checks the text of a new item: it must not be empty once trimmed, and must hold at
/// most `MAX_ITEM_TEXT_CHARS` characters. Emptiness is checked first.
pub fn validate_item_text(text: &str) -> (r: Result<(), ItemError>)
    ensures
        r == text_check(text@),
{
    if blank(text) {
        return Err(ItemError::EmptyText);
    }
    if text.unicode_len() > MAX_ITEM_TEXT_CHARS {
        return Err(ItemError::TextTooLong);
    }
    Ok(())
}

/// The outcome of deleting `id` given how many rows the delete removed: no row means
/// there was no such item.
pub fn deletion_outcome(id: i64, rows_affected: u64) -> (r: Result<(), ItemError>)
    ensures
        r == deletion_result(id, rows_affected),
{
    if rows_affected == 0 {
        Err(ItemError::NotFound(id))
    } else {
        Ok(())
    }
}

/// A storage failure during `action`, described by `detail`.
pub fn storage_failure(action: StoreAction, detail: &str) -> (r: ItemError)
    ensures
        r is Storage,
        error_message(r) == action_prefix(action) + ": "@ + detail@,
{
    let mut m = match action {
        StoreAction::Connect => String::from_str("DB Pool error"),
        StoreAction::Migrate => String::from_str("Failed to create the items table"),
        StoreAction::Fetch => String::from_str("Failed to fetch items"),
        StoreAction::Add => String::from_str("Failed to add item"),
        StoreAction::Delete => String::from_str("Failed to delete item"),
        StoreAction::Count => String::from_str("Failed to count items for seeding"),
    };
    m.append(": ");
    m.append(detail);
    ItemError::Storage(m)
}

impl ItemError {
    /// Whether the caller can correct the failure by changing the text.
    pub open spec fn is_validation_spec(&self) -> bool {
        self is EmptyText || self is TextTooLong
    }

    /// Whether the caller can correct the failure by changing the text.
    pub fn is_validation(&self) -> (r: bool)
        ensures
            r == self.is_validation_spec(),
    {
        match self {
            ItemError::EmptyText => true,
            ItemError::TextTooLong => true,
            _ => false,
        }
    }

    /// The message shown to a caller.
    pub fn message(&self) -> (r: String)
        ensures
            r@ == error_message(*self),
    {
        match self {
            ItemError::EmptyText => String::from_str("Item text cannot be empty."),
            ItemError::TextTooLong => String::from_str("Item text too long (max 100 chars)."),
            ItemError::NotFound(id) => {
                let mut m = String::from_str("Item with id ");
                let digits = decimal_text(*id);
                m.append(digits.as_str());
                m.append(" not found for deletion");
                m
            },
            ItemError::Storage(m) => m.clone(),
        }
    }
}

/// The texts of the starter items.
pub fn seed_items() -> (r: Vec<String>)
    ensures
        texts_view(r@) == seed_texts(),
{
    let mut r: Vec<String> = Vec::new();
    r.push(String::from_str("Buy groceries"));
    r.push(String::from_str("Read a book"));
    r.push(String::from_str("Learn Leptos"));
    assert(texts_view(r@) =~= seed_texts());
    r
}

/// The items to insert when the table holds `existing` items: the starter items when
/// it is empty, nothing otherwise.
pub fn seed_plan(existing: i64) -> (r: Vec<String>)
    ensures
        existing == 0 ==> texts_view(r@) == seed_texts(),
        existing != 0 ==> r@.len() == 0,
{
    if existing == 0 {
        seed_items()
    } else {
        Vec::new()
    }
}

} // verus!
