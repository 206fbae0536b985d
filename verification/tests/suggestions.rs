use voxelbot::suggest::{Suggestion, SuggestionValue, SuggestionsBuilder};

fn entry_text(s: &Suggestion) -> &str {
    match &s.value {
        SuggestionValue::Text(t) => t.as_str(),
        SuggestionValue::Integer(_) => panic!("expected a text suggestion"),
    }
}

#[test]
fn new_splits_input_at_start() {
    let b = SuggestionsBuilder::new("Hello world", 6);
    assert_eq!(b.input(), "Hello world");
    assert_eq!(b.start(), 6);
    assert_eq!(b.remaining(), "world");
    assert_eq!(b.remaining_lowercase(), "world");
}

#[test]
fn new_lowercases_the_input() {
    let b = SuggestionsBuilder::new("SetBlock AIR", 9);
    assert_eq!(b.remaining(), "AIR");
    assert_eq!(b.remaining_lowercase(), "air");
}

#[test]
fn suggest_collects_a_candidate() {
    let b = SuggestionsBuilder::new("say h", 4);
    let s = b.suggest("hello").build();
    assert_eq!(s.entries.len(), 1);
    assert_eq!(entry_text(&s.entries[0]), "hello");
    assert_eq!(s.entries[0].range.start, 4);
    assert_eq!(s.entries[0].range.end, 5);
    assert_eq!(s.range.start, 4);
    assert_eq!(s.range.end, 5);
}

#[test]
fn suggesting_the_remaining_input_is_a_no_op() {
    let b = SuggestionsBuilder::new("say hello", 4);
    let s = b.suggest("hello").build();
    assert_eq!(s.entries.len(), 0);
    assert_eq!(s.range.start, 0);
    assert_eq!(s.range.end, 0);
}

#[test]
fn duplicate_suggestions_collapse() {
    let b = SuggestionsBuilder::new("tp ", 3);
    let s = b.suggest("north").suggest("north").suggest("south").build();
    assert_eq!(s.entries.len(), 2);
    assert_eq!(entry_text(&s.entries[0]), "north");
    assert_eq!(entry_text(&s.entries[1]), "south");
}

#[test]
fn tooltip_distinguishes_suggestions() {
    let b = SuggestionsBuilder::new("warp ", 5);
    let s = b
        .suggest_with_tooltip("home", String::from("your bed"))
        .suggest_with_tooltip("home", String::from("world spawn"))
        .build();
    assert_eq!(s.entries.len(), 2);
    assert_eq!(s.entries[0].tooltip.as_deref(), Some("your bed"));
    assert_eq!(s.entries[1].tooltip.as_deref(), Some("world spawn"));
}

#[test]
fn integer_suggestions_keep_their_value() {
    let b = SuggestionsBuilder::new("give ", 5);
    let s = b.suggest_integer(64).suggest_integer(-3).suggest_integer(64).build();
    assert_eq!(s.entries.len(), 2);
    match s.entries[0].value {
        SuggestionValue::Integer(v) => assert_eq!(v, 64),
        _ => panic!("expected an integer suggestion"),
    }
    match s.entries[1].value {
        SuggestionValue::Integer(v) => assert_eq!(v, -3),
        _ => panic!("expected an integer suggestion"),
    }
}

#[test]
fn integer_suggestion_with_tooltip() {
    let b = SuggestionsBuilder::new("fill ", 5);
    let s = b
        .suggest_integer_with_tooltip(7, String::from("a lucky number"))
        .build();
    assert_eq!(s.entries.len(), 1);
    assert_eq!(s.entries[0].tooltip.as_deref(), Some("a lucky number"));
}

#[test]
fn add_merges_and_deduplicates() {
    let a = SuggestionsBuilder::new("cmd ", 4).suggest("alpha").suggest("beta");
    let b = SuggestionsBuilder::new("cmd ", 4).suggest("beta").suggest("gamma");
    let s = a.add(b).build();
    assert_eq!(s.entries.len(), 3);
    assert_eq!(entry_text(&s.entries[0]), "alpha");
    assert_eq!(entry_text(&s.entries[1]), "beta");
    assert_eq!(entry_text(&s.entries[2]), "gamma");
}

#[test]
fn build_range_encompasses_all_offsets() {
    let base = SuggestionsBuilder::new("abcde", 3);
    let shifted = base.create_offset(1).suggest("y");
    let merged = base.suggest("x").add(shifted);
    let s = merged.build();
    assert_eq!(s.entries.len(), 2);
    assert_eq!(s.range.start, 1);
    assert_eq!(s.range.end, 5);
}

#[test]
fn create_offset_and_restart_start_fresh() {
    let b = SuggestionsBuilder::new("teleport home", 9).suggest("home");
    let offset = b.create_offset(0);
    assert_eq!(offset.start(), 0);
    assert_eq!(offset.remaining(), "teleport home");
    assert_eq!(offset.build().entries.len(), 0);

    let restarted = b.restart();
    assert_eq!(restarted.start(), 9);
    assert_eq!(restarted.remaining(), "home");
    assert_eq!(restarted.build().entries.len(), 0);
}

#[test]
fn new_accepts_non_ascii_input() {
    let b = SuggestionsBuilder::new("Grüße", 0);
    assert_eq!(b.remaining(), "Grüße");
    assert_eq!(b.remaining_lowercase(), "grüße");

    let b2 = SuggestionsBuilder::new("Grüße", 2);
    assert_eq!(b2.remaining(), "üße");
    assert_eq!(b2.remaining_lowercase(), "üße");
}

#[test]
fn new_with_lowercase_takes_the_given_pair() {
    let b = SuggestionsBuilder::new_with_lowercase("ABC", "abc", 1);
    assert_eq!(b.remaining(), "BC");
    assert_eq!(b.remaining_lowercase(), "bc");
}
