use simpledb_rs::metadata::index_manager::{create_index_schema, IndexInfo};
use simpledb_rs::metadata::stat_manager::{calculate_table_stat, StatInfo, StatManager, StatRequest};
use simpledb_rs::record::field::Spec;
use simpledb_rs::record::schema::Schema;

#[test]
fn table_statistics_from_record_blocks() {
    let stat = calculate_table_stat(&vec![0, 0, 0, 1, 1, 2]);
    assert_eq!(stat.get_num_blocks(), 3);
    assert_eq!(stat.get_num_records(), 6);
    let empty = calculate_table_stat(&vec![]);
    assert_eq!(empty.get_num_blocks(), 0);
    assert_eq!(empty.get_num_records(), 0);
}

#[test]
fn statistics_are_cached_and_refreshed_periodically() {
    let mut manager = StatManager::new();
    assert_eq!(manager.lookup("t"), None);
    manager.remember("t", StatInfo::new(2, 10));
    manager.remember("u", StatInfo::new(1, 1));
    assert_eq!(manager.lookup("t"), Some(StatInfo::new(2, 10)));
    manager.remember("t", StatInfo::new(3, 30));
    assert_eq!(manager.lookup("t"), Some(StatInfo::new(3, 30)));
    assert_eq!(manager.lookup("u"), Some(StatInfo::new(1, 1)));
    let mut due = Vec::new();
    for _ in 0..250 {
        if manager.count_call() {
            due.push(true);
            manager.refresh_statistics(vec![
                ("t".to_string(), StatInfo::new(4, 40)),
                ("v".to_string(), StatInfo::new(5, 50)),
            ]);
        }
    }
    assert_eq!(due.len(), 2);
    assert_eq!(manager.lookup("t"), Some(StatInfo::new(4, 40)));
    assert_eq!(manager.lookup("u"), None);
    assert_eq!(manager.lookup("v"), Some(StatInfo::new(5, 50)));
}

fn table_schema() -> Schema {
    let mut schema = Schema::new();
    schema.add_i32_field("A");
    schema.add_string_field("B", 20);
    schema
}

#[test]
fn index_records_hold_position_then_value() {
    let on_b = create_index_schema(&table_schema(), "B");
    assert_eq!(on_b.get_fields(), vec!["block_slot", "record_slot", "data_value"]);
    assert_eq!(on_b.get_field_spec("block_slot"), Spec::I32);
    assert_eq!(on_b.get_field_spec("record_slot"), Spec::I32);
    assert_eq!(on_b.get_field_spec("data_value"), Spec::VarChar(20));
    let on_a = create_index_schema(&table_schema(), "A");
    assert_eq!(on_a.get_field_spec("data_value"), Spec::I32);
}

#[test]
fn index_statistics_follow_the_table() {
    let info = IndexInfo::new(
        "test_index".to_string(),
        "B".to_string(),
        &table_schema(),
        StatInfo::new(4, 50),
    );
    assert_eq!(info.get_index_name(), "test_index");
    assert_eq!(info.get_index_schema().get_field_spec("data_value"), Spec::VarChar(20));
    // 50 records, 1 + 50 / 3 = 17 distinct values each.
    assert_eq!(info.get_num_records(), 2);
    assert_eq!(info.get_distinct_values("B"), 1);
    assert_eq!(info.get_distinct_values("A"), 17);
    let small = IndexInfo::new("i".to_string(), "A".to_string(), &table_schema(), StatInfo::new(1, 2));
    assert_eq!(small.get_num_records(), 2);
    assert_eq!(small.get_distinct_values("A"), 1);
    assert_eq!(small.get_distinct_values("B"), 1);
}

/// Answers a request as the statistics lookup does, gathering with `gather`.
fn get_stat_info(manager: &mut StatManager, name: &str, gather: &dyn Fn(&str) -> StatInfo) -> StatInfo {
    let mut request = manager.request_stat(name);
    if request == StatRequest::RefreshAll {
        let all = ["t", "u"].iter().map(|n| (n.to_string(), gather(n))).collect();
        manager.refresh_statistics(all);
        request = match manager.lookup(name) {
            Some(s) => StatRequest::Found(s),
            None => StatRequest::Gather,
        };
    }
    match request {
        StatRequest::Found(s) => s,
        _ => {
            let s = gather(name);
            manager.remember(name, s);
            s
        }
    }
}

#[test]
fn statistics_are_cached_until_every_hundredth_request() {
    let mut manager = StatManager::new();
    let gathered = std::cell::Cell::new(0);
    let counting = |n: &str| {
        gathered.set(gathered.get() + 1);
        StatInfo::new(n.len(), gathered.get())
    };
    let first = get_stat_info(&mut manager, "t", &counting);
    assert_eq!(gathered.get(), 1);
    for _ in 1..99 {
        assert_eq!(get_stat_info(&mut manager, "t", &counting), first);
    }
    assert_eq!(gathered.get(), 1);
    // The hundredth request gathers every table again.
    assert_eq!(manager.request_stat("t"), StatRequest::RefreshAll);
    assert_eq!(manager.request_stat("t"), StatRequest::Found(first));
    assert_eq!(manager.request_stat("v"), StatRequest::Gather);
}
