use vaab_vm::outside::{bind_arguments, rows_value, Bound};
use vaab_vm::query::{
    count_from_rows, parse_whole, predicate_cells, predicates_hold, project_row, store_key, store_row, window, Compare,
    Predicate, Sorted,
};
use vaab_vm::store::{database_path, text_before, DiskWrite, Lookup, Opened, StoreOverlay, STORE_FLUSH_BATCH};
use vaab_vm::value::{insert_entry, Entry, Float, Value};

fn s(text: &str) -> String {
    text.to_string()
}

fn held(lookup: Lookup) -> Option<String> {
    match lookup {
        Lookup::Held(text) => Some(text),
        _ => None,
    }
}

#[test]
fn a_value_set_in_the_overlay_is_read_back() {
    let mut overlay = StoreOverlay::new();
    assert!(matches!(overlay.lookup(&s("user:1")), Lookup::OnDisk));
    assert!(!overlay.set(s("user:1"), s("ada")));
    assert_eq!(held(overlay.lookup(&s("user:1"))), Some(s("ada")));
    assert!(!overlay.set(s("user:1"), s("grace")));
    assert_eq!(held(overlay.lookup(&s("user:1"))), Some(s("grace")));
    assert!(matches!(overlay.lookup(&s("user:2")), Lookup::OnDisk));
}

#[test]
fn a_removed_key_reads_as_removed_until_it_is_set_again() {
    let mut overlay = StoreOverlay::new();
    overlay.set(s("k"), s("v"));
    assert!(overlay.forget(&s("k")));
    assert!(!overlay.forget(&s("k")));
    overlay.mark_removed(s("k"));
    assert!(matches!(overlay.lookup(&s("k")), Lookup::Removed));
    overlay.remember(s("k"), s("from disk"));
    assert!(matches!(overlay.lookup(&s("k")), Lookup::Removed));
    overlay.set(s("k"), s("again"));
    assert_eq!(held(overlay.lookup(&s("k"))), Some(s("again")));
}

#[test]
fn a_value_read_from_disk_is_remembered() {
    let mut overlay = StoreOverlay::new();
    overlay.remember(s("k"), s("on disk"));
    assert_eq!(held(overlay.lookup(&s("k"))), Some(s("on disk")));
}

#[test]
fn a_flush_writes_each_waiting_key_once_in_the_order_it_changed() {
    let mut overlay = StoreOverlay::new();
    overlay.set(s("b"), s("1"));
    overlay.set(s("a"), s("2"));
    overlay.set(s("b"), s("3"));
    overlay.forget(&s("a"));
    overlay.mark_removed(s("a"));
    let writes = overlay.take_dirty();
    assert_eq!(writes.len(), 2);
    assert!(matches!(&writes[0], DiskWrite::Put(k, v) if k == "b" && v == "3"));
    assert!(matches!(&writes[1], DiskWrite::Delete(k) if k == "a"));
    assert!(overlay.take_dirty().is_empty());
}

#[test]
fn the_overlay_asks_for_a_flush_once_enough_keys_wait() {
    let mut overlay = StoreOverlay::new();
    for n in 0..STORE_FLUSH_BATCH - 1 {
        assert!(!overlay.set(format!("key{n}"), s("v")));
    }
    assert!(!overlay.set(s("key0"), s("again")));
    assert!(overlay.set(s("last"), s("v")));
}

#[test]
fn listed_keys_are_sorted_once_each_and_leave_removed_ones_out() {
    let mut overlay = StoreOverlay::new();
    overlay.set(s("user:b"), s("1"));
    overlay.set(s("user:a"), s("2"));
    overlay.set(s("team:x"), s("3"));
    overlay.mark_removed(s("user:c"));
    let on_disk = vec![s("user:c"), s("user:a"), s("user:d"), s("other")];
    let keys = overlay.listed_keys(&s("user:"), &on_disk);
    assert_eq!(keys, vec![s("user:a"), s("user:b"), s("user:d")]);
}

#[test]
fn text_sorts_by_its_characters_then_by_length() {
    assert!(text_before(&s("abc"), &s("abd")));
    assert!(text_before(&s("ab"), &s("abc")));
    assert!(!text_before(&s("abc"), &s("abc")));
    assert!(!text_before(&s("b"), &s("abc")));
    assert!(text_before(&s("Z"), &s("a")));
}

#[test]
fn a_path_opened_twice_keeps_its_handle() {
    let mut opened = Opened::new();
    assert_eq!(opened.known(&s("a.db")), None);
    assert_eq!(opened.record(s("a.db")), Some(0));
    assert_eq!(opened.record(s("b.db")), Some(1));
    assert_eq!(opened.known(&s("b.db")), Some(1));
    assert_eq!(opened.known(&s("a.db")), Some(0));
}

#[test]
fn a_connection_string_names_a_sqlite_file() {
    assert_eq!(database_path(&s("sqlite:app.db")), Ok(s("app.db")));
    assert_eq!(database_path(&s("sqlite://app.db")), Ok(s("//app.db")));
    assert_eq!(database_path(&s("app.db")), Ok(s("app.db")));
    assert!(database_path(&s("postgres://localhost/app")).unwrap_err().contains("SQLite-only"));
    assert!(database_path(&s("PostgreSQL://x")).is_err());
}

#[test]
fn arguments_are_bound_as_text() {
    let args = vec![
        Value::text("ada"),
        Value::Int(-42),
        Value::Bool(true),
        Value::Bool(false),
        Value::Float(Float { bits: 1.5f64.to_bits(), shown: s("1.5") }),
    ];
    let bound = match bind_arguments(&args) {
        Ok(bound) => bound,
        Err(message) => panic!("{message}"),
    };
    assert!(matches!(&bound[0], Bound::Text(t) if t == "ada"));
    assert!(matches!(&bound[1], Bound::Text(t) if t == "-42"));
    assert!(matches!(&bound[2], Bound::Text(t) if t == "1"));
    assert!(matches!(&bound[3], Bound::Text(t) if t == "0"));
    assert!(matches!(&bound[4], Bound::FloatBits(b) if *b == 1.5f64.to_bits()));
    let refused = bind_arguments(&vec![Value::text("ok"), Value::Nothing]);
    assert!(matches!(refused, Err(m) if m == "database arguments must be text, numbers, or yes/no"));
}

fn cell(row: &Value, column: &str) -> Option<String> {
    match row {
        Value::Table(entries) => entries.iter().find_map(|entry| match (&entry.key, &entry.value) {
            (Value::Text(k), Value::Text(v)) if k == column => Some(v.clone()),
            _ => None,
        }),
        _ => None,
    }
}

#[test]
fn query_rows_become_maps_from_column_to_text() {
    let names = vec![s("id"), s("name")];
    let rows = vec![vec![s("1"), s("ada")], vec![s("2"), s("grace")]];
    let value = rows_value(&names, &rows);
    let Value::List(items) = value else { panic!("a list") };
    assert_eq!(items.len(), 2);
    assert_eq!(cell(&items[1], "name"), Some(s("grace")));
    assert_eq!(cell(&items[0], "id"), Some(s("1")));
}

fn row(pairs: &[(&str, &str)]) -> Vec<Entry> {
    let mut entries = Vec::new();
    for (k, v) in pairs {
        insert_entry(&mut entries, Value::text(k), Value::text(v));
    }
    entries
}

#[test]
fn a_row_is_cut_down_to_the_columns_asked_for() {
    let projected = project_row(row(&[("key", "u1"), ("name", "ada"), ("age", "36")]), &Some(vec![s("age"), s("missing"), s("key")]));
    let Value::Table(entries) = &projected else { panic!("a map") };
    assert_eq!(entries.len(), 2);
    assert!(matches!(&entries[0].key, Value::Text(k) if k == "age"));
    assert_eq!(cell(&projected, "key"), Some(s("u1")));
    let whole = project_row(row(&[("key", "u1")]), &None);
    assert_eq!(cell(&whole, "key"), Some(s("u1")));
}

#[test]
fn offset_and_limit_pick_a_window_of_rows() {
    let rows: Vec<Value> = (0..5).map(Value::Int).collect();
    let picked = window(rows.clone(), Some(1), Some(2));
    assert!(matches!(picked.as_slice(), [Value::Int(1), Value::Int(2)]));
    assert_eq!(window(rows.clone(), Some(9), None).len(), 0);
    assert_eq!(window(rows.clone(), Some(-3), Some(-1)).len(), 0);
    assert_eq!(window(rows, None, Some(10)).len(), 5);
}

#[test]
fn whole_numbers_are_read_as_str_parse_reads_them() {
    assert_eq!(parse_whole("42"), Some(42));
    assert_eq!(parse_whole("+7"), Some(7));
    assert_eq!(parse_whole("-9223372036854775808"), Some(i64::MIN));
    assert_eq!(parse_whole("9223372036854775807"), Some(i64::MAX));
    assert_eq!(parse_whole("9223372036854775808"), None);
    assert_eq!(parse_whole(""), None);
    assert_eq!(parse_whole("-"), None);
    assert_eq!(parse_whole(" 1"), None);
    assert_eq!(parse_whole("1.0"), None);
}

#[test]
fn a_count_is_the_first_whole_number_in_the_first_row() {
    let rows = Value::List(vec![Value::Table(row(&[("note", "many"), ("COUNT(*)", "12")]))]);
    assert_eq!(count_from_rows(&rows), Ok(12));
    assert_eq!(count_from_rows(&Value::List(Vec::new())), Ok(0));
    assert_eq!(count_from_rows(&Value::Int(3)), Err(s("count did not return a list")));
}

#[test]
fn predicates_compare_as_numbers_when_told_and_as_text_otherwise() {
    let the_row = row(&[("name", "ada"), ("age", "9")]);
    let predicates = vec![
        Predicate { column: s("age"), compare: Compare::Gt, value: s("10") },
        Predicate { column: s("name"), compare: Compare::Like, value: s("a%") },
    ];
    let cells = predicate_cells(&the_row, &predicates).expect("both columns hold text");
    assert_eq!(cells, vec![s("9"), s("ada")]);
    assert!(predicates_hold(&cells, &predicates, &vec![None, None]));
    assert!(!predicates_hold(&cells, &predicates, &vec![Some(Sorted::Before), None]));
    let missing = vec![Predicate { column: s("email"), compare: Compare::Eq, value: s("x") }];
    assert!(predicate_cells(&the_row, &missing).is_none());
}

#[test]
fn a_stored_json_object_spreads_into_columns() {
    let fields = vec![(s("name"), s("ada")), (s("key"), s("shadowed"))];
    let entries = store_row(&s("u1"), &s("{\"name\":\"ada\"}"), &fields);
    let as_value = Value::Table(entries);
    assert_eq!(cell(&as_value, "name"), Some(s("ada")));
    assert_eq!(cell(&as_value, "key"), Some(s("shadowed")));
    assert_eq!(cell(&as_value, "value"), Some(s("{\"name\":\"ada\"}")));
}

#[test]
fn a_row_key_gets_the_query_prefix_unless_it_has_it() {
    assert_eq!(store_key(&s("user:"), &s("1")), s("user:1"));
    assert_eq!(store_key(&s("user:"), &s("user:1")), s("user:1"));
    assert_eq!(store_key(&s(""), &s("1")), s("1"));
}
