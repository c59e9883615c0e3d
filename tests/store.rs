use shopee_logs_collector::models::{clear_db, Log, Statistics, UpdateKeywordStat, UpdateStat};
use shopee_logs_collector::store::StatsStore;

fn log(kind: &str, message: &str) -> Log {
    Log {
        kind: kind.to_string(),
        time: "2024-01-01 10:00:00 AM".to_string(),
        message: message.to_string(),
        meta: None,
    }
}

fn patch(id: u64) -> UpdateKeywordStat {
    UpdateKeywordStat {
        id,
        name: None,
        current_price: None,
        keyword: None,
        placement: None,
        running: None,
        error_counts: None,
        ads_running: None,
        ads_position: None,
        logs: None,
        is_max_price_reached: None,
        is_min_price_reached: None,
        max_expense_reached: None,
    }
}

fn now(s: &str) -> String {
    s.to_string()
}

#[test]
fn first_account_log_creates_account() {
    let mut store = StatsStore::new();
    store.add_logs_to_stats("bot1".to_string(), log("info", "hello"), &now("t1"));
    assert_eq!(store.list_accounts(), vec!["bot1".to_string()]);
    let m = store.get_main_stats(&"bot1".to_string()).unwrap();
    assert_eq!(m.log_counts, 1);
    assert_eq!(m.error_counts, 0);
    assert_eq!(m.logs.len(), 1);
    assert_eq!(m.started_at, "t1");
    assert_eq!(m.last_updated_at, "t1");
}

#[test]
fn keyword_error_log_counts_on_keyword_and_account() {
    let mut store = StatsStore::new();
    let mut p = patch(5);
    p.running = Some(true);
    store.set_keywords_to_stats("bot1".to_string(), vec![p], &now("t1"));
    store.add_logs_to_keyword("bot1".to_string(), 5, log("error", "boom"), &now("t2"));
    let k = &store.accounts[0].keyword_stats[0].stats;
    assert_eq!(k.id, 5);
    assert_eq!(k.running, Some(true));
    assert_eq!(k.error_counts, 1);
    assert_eq!(k.log_counts, 1);
    assert_eq!(k.last_updated_at, "t2");
    let m = store.get_main_stats(&"bot1".to_string()).unwrap();
    assert_eq!(m.error_counts, 1);
    assert_eq!(m.log_counts, 1);
    assert_eq!(store.get_keyword_logs(&"bot1".to_string(), 5), vec![log("error", "boom")]);
}

#[test]
fn sweep_keeps_newest_hundred_keyword_logs() {
    let mut store = StatsStore::new();
    store.set_keywords_to_stats("bot1".to_string(), vec![patch(7)], &now("t0"));
    for i in 0..150 {
        store.add_logs_to_keyword("bot1".to_string(), 7, log("info", &format!("m{}", i)), &now("t1"));
    }
    assert_eq!(store.sweep(100, &now("t2")), 50);
    let logs = store.get_keyword_logs(&"bot1".to_string(), 7);
    assert_eq!(logs.len(), 100);
    assert_eq!(logs[0].message, "m50");
    assert_eq!(logs[99].message, "m149");
    assert_eq!(store.accounts[0].keyword_stats[0].stats.log_counts, 150);
    assert_eq!(store.get_main_stats(&"bot1".to_string()).unwrap().log_counts, 150);
}

#[test]
fn account_log_count_matches_number_of_logs() {
    let mut store = StatsStore::new();
    for i in 0..7 {
        let kind = if i % 3 == 0 { "error" } else { "info" };
        store.add_logs_to_stats("bot2".to_string(), log(kind, "x"), &now("t"));
    }
    let m = store.get_main_stats(&"bot2".to_string()).unwrap();
    assert_eq!(m.log_counts, 7);
    assert_eq!(m.logs.len(), 7);
    assert_eq!(m.error_counts, 3);
}

#[test]
fn sweep_trims_account_logs_in_order() {
    let mut store = StatsStore::new();
    for i in 0..5 {
        store.add_logs_to_stats("a".to_string(), log("info", &format!("m{}", i)), &now("t"));
    }
    store.add_logs_to_stats("b".to_string(), log("info", "only"), &now("t"));
    assert_eq!(store.sweep(2, &now("t2")), 3);
    let a = store.get_main_stats(&"a".to_string()).unwrap();
    assert_eq!(a.logs.iter().map(|l| l.message.clone()).collect::<Vec<_>>(), vec!["m3", "m4"]);
    assert_eq!(a.log_counts, 5);
    let b = store.get_main_stats(&"b".to_string()).unwrap();
    assert_eq!(b.logs.len(), 1);
    assert_eq!(store.list_accounts(), vec!["a".to_string(), "b".to_string()]);
}

#[test]
fn deep_reset_zeroes_counters_and_logs() {
    let mut store = StatsStore::new();
    store.update_stats(
        "a".to_string(),
        &UpdateStat { error_counts: Some(4), running: Some(true), no_of_api_call_diff: Some(9) },
        &now("t0"),
    );
    store.set_keywords_to_stats("a".to_string(), vec![patch(1)], &now("t0"));
    store.add_logs_to_keyword("a".to_string(), 1, log("error", "e"), &now("t1"));
    store.add_logs_to_stats("a".to_string(), log("info", "i"), &now("t1"));
    assert_eq!(store.sweep(0, &now("t9")), 2);
    let m = store.get_main_stats(&"a".to_string()).unwrap();
    assert_eq!((m.error_counts, m.log_counts, m.no_api_calls, m.no_internal_api_calls), (0, 0, 0, 0));
    assert!(m.logs.is_empty());
    assert!(m.running);
    let k = &store.accounts[0].keyword_stats[0];
    assert_eq!((k.stats.error_counts, k.stats.log_counts), (0, 0));
    assert_eq!(k.stats.last_updated_at, "t9");
    assert!(k.keyword_logs.is_empty());
}

#[test]
fn upsert_twice_without_logs_changes_nothing_more() {
    let mut store = StatsStore::new();
    let mut p = patch(3);
    p.name = Some("shoes".to_string());
    p.ads_position = Some(2);
    p.current_price = Some(12.5f64.to_bits());
    store.set_keywords_to_stats("a".to_string(), vec![p.clone()], &now("t1"));
    let once = store.accounts[0].keyword_stats[0].stats.clone();
    store.set_keywords_to_stats("a".to_string(), vec![p], &now("t1"));
    assert_eq!(store.accounts[0].keyword_stats.len(), 1);
    assert_eq!(store.accounts[0].keyword_stats[0].stats, once);
    assert_eq!(f64::from_bits(once.current_price.unwrap()), 12.5);
}

#[test]
fn upsert_merges_present_fields_and_appends_logs() {
    let mut store = StatsStore::new();
    let mut first = patch(3);
    first.name = Some("shoes".to_string());
    first.placement = Some(4);
    first.logs = Some(vec![log("info", "a")]);
    let mut second = patch(3);
    second.placement = Some(8);
    second.running = Some(false);
    second.logs = Some(vec![log("info", "b"), log("error", "c")]);
    store.set_keywords_to_stats("a".to_string(), vec![first, second], &now("t1"));
    let k = &store.accounts[0].keyword_stats;
    assert_eq!(k.len(), 1);
    assert_eq!(k[0].stats.name, Some("shoes".to_string()));
    assert_eq!(k[0].stats.placement, Some(8));
    assert_eq!(k[0].stats.running, Some(false));
    assert_eq!(k[0].stats.log_counts, 3);
    assert_eq!(k[0].stats.error_counts, 0);
    assert_eq!(
        store.get_keyword_logs(&"a".to_string(), 3),
        vec![log("info", "a"), log("info", "b"), log("error", "c")]
    );
}

#[test]
fn log_to_unknown_keyword_is_no_op() {
    let mut store = StatsStore::new();
    store.set_keywords_to_stats("a".to_string(), vec![patch(1)], &now("t1"));
    store.add_logs_to_keyword("a".to_string(), 2, log("error", "lost"), &now("t2"));
    let m = store.get_main_stats(&"a".to_string()).unwrap();
    assert_eq!((m.error_counts, m.log_counts), (0, 0));
    assert_eq!(m.last_updated_at, "t1");
    assert_eq!(store.accounts[0].keyword_stats.len(), 1);
    assert_eq!(store.accounts[0].keyword_stats[0].stats.log_counts, 0);
}

#[test]
fn log_to_keyword_of_unknown_account_creates_account_only() {
    let mut store = StatsStore::new();
    store.add_logs_to_keyword("ghost".to_string(), 2, log("info", "x"), &now("t1"));
    assert_eq!(store.list_accounts(), vec!["ghost".to_string()]);
    assert!(store.accounts[0].keyword_stats.is_empty());
    assert_eq!(store.get_main_stats(&"ghost".to_string()).unwrap().log_counts, 0);
}

#[test]
fn empty_patch_only_refreshes_update_time() {
    let mut store = StatsStore::new();
    let mut p = patch(9);
    p.keyword = Some("bag".to_string());
    p.ads_running = Some(true);
    store.set_keywords_to_stats("a".to_string(), vec![p], &now("t1"));
    let before = store.accounts[0].keyword_stats[0].clone();
    store.update_keyword_stat(&"a".to_string(), &patch(9), &now("t2"));
    let after = &store.accounts[0].keyword_stats[0];
    let mut expected = before.stats.clone();
    expected.last_updated_at = "t2".to_string();
    assert_eq!(after.stats, expected);
    assert_eq!(after.keyword_logs, before.keyword_logs);
}

#[test]
fn update_keyword_stat_ignores_unknown_keyword_and_account() {
    let mut store = StatsStore::new();
    let mut p = patch(4);
    p.running = Some(true);
    store.update_keyword_stat(&"nobody".to_string(), &p, &now("t1"));
    assert!(store.list_accounts().is_empty());
    store.set_keywords_to_stats("a".to_string(), vec![patch(1)], &now("t1"));
    store.update_keyword_stat(&"a".to_string(), &p, &now("t2"));
    assert_eq!(store.accounts[0].keyword_stats.len(), 1);
    assert_eq!(store.get_main_stats(&"a".to_string()).unwrap().last_updated_at, "t1");
}

#[test]
fn update_keyword_stat_patches_existing_keyword() {
    let mut store = StatsStore::new();
    store.set_keywords_to_stats("a".to_string(), vec![patch(4)], &now("t1"));
    let mut p = patch(4);
    p.max_expense_reached = Some(true);
    p.ads_position = Some(1);
    store.update_keyword_stat(&"a".to_string(), &p, &now("t2"));
    let k = &store.accounts[0].keyword_stats[0].stats;
    assert_eq!(k.max_expense_reached, Some(true));
    assert_eq!(k.ads_position, Some(1));
    assert_eq!(k.last_updated_at, "t2");
}

#[test]
fn update_stats_applies_delta_and_creates_account() {
    let mut store = StatsStore::new();
    let r = store.update_stats(
        "a".to_string(),
        &UpdateStat { error_counts: Some(2), running: Some(true), no_of_api_call_diff: Some(5) },
        &now("t1"),
    );
    assert_eq!((r.error_counts, r.running, r.no_api_calls), (2, true, 5));
    let r = store.update_stats(
        "a".to_string(),
        &UpdateStat { error_counts: None, running: Some(false), no_of_api_call_diff: Some(1) },
        &now("t2"),
    );
    assert_eq!((r.error_counts, r.running, r.no_api_calls), (2, false, 6));
    assert_eq!(r.last_updated_at, "t2");
    assert_eq!(r.started_at, "t1");
}

#[test]
fn counters_saturate_instead_of_overflowing() {
    let mut store = StatsStore::new();
    store.update_stats(
        "a".to_string(),
        &UpdateStat { error_counts: Some(u64::MAX - 1), running: None, no_of_api_call_diff: None },
        &now("t1"),
    );
    store.add_logs_to_stats("a".to_string(), log("error", "e1"), &now("t1"));
    store.add_logs_to_stats("a".to_string(), log("error", "e2"), &now("t1"));
    assert_eq!(store.get_main_stats(&"a".to_string()).unwrap().error_counts, u64::MAX);
}

#[test]
fn reads_of_unknown_names_are_empty() {
    let mut store = StatsStore::new();
    assert!(store.get_main_stats(&"x".to_string()).is_none());
    assert!(store.get_keyword_logs(&"x".to_string(), 1).is_empty());
    store.add_logs_to_stats("x".to_string(), log("info", "i"), &now("t"));
    assert!(store.get_keyword_logs(&"x".to_string(), 1).is_empty());
    assert!(store.get_main_stats(&"y".to_string()).is_none());
    assert_eq!(store.list_accounts().len(), 1);
}

#[test]
fn clear_log_resets_account() {
    let mut store = StatsStore::new();
    store.add_logs_to_stats("a".to_string(), log("error", "e"), &now("t1"));
    store.set_keywords_to_stats("a".to_string(), vec![patch(1)], &now("t1"));
    store.add_logs_to_stats("b".to_string(), log("info", "i"), &now("t1"));
    store.clear_log("a".to_string(), &now("t5"));
    let m = store.get_main_stats(&"a".to_string()).unwrap();
    assert_eq!((m.error_counts, m.log_counts), (0, 0));
    assert!(m.logs.is_empty());
    assert_eq!(m.started_at, "t5");
    assert!(store.accounts[0].keyword_stats.is_empty());
    assert_eq!(store.get_main_stats(&"b".to_string()).unwrap().log_counts, 1);
    store.clear_log("c".to_string(), &now("t6"));
    assert_eq!(store.list_accounts().len(), 3);
}

#[test]
fn error_kind_is_exact() {
    assert!(log("error", "").is_error_log());
    assert!(!log("Error", "").is_error_log());
    assert!(!log("errors", "").is_error_log());
    assert!(!log("", "").is_error_log());
}

#[test]
fn clear_db_on_one_account() {
    let mut s = Statistics::new("a".to_string(), &now("t0"));
    for i in 0..4 {
        s.add_log(log("info", &format!("m{}", i)), &now("t1"));
    }
    assert_eq!(clear_db(&mut s, 3, &now("t2")), (1, 0));
    assert_eq!(s.main_stats.logs.len(), 3);
    assert_eq!(s.main_stats.logs[0].message, "m1");
    assert_eq!(s.main_stats.log_counts, 4);
    assert_eq!(clear_db(&mut s, 10, &now("t3")), (0, 0));
    assert_eq!(s.main_stats.logs.len(), 3);
}

#[test]
fn clear_db_counts_dropped_keyword_logs() {
    let mut s = Statistics::new("a".to_string(), &now("t0"));
    let mut one = patch(1);
    one.logs = Some(vec![log("info", "a"), log("info", "b"), log("info", "c")]);
    let mut two = patch(2);
    two.logs = Some(vec![log("info", "d"), log("info", "e")]);
    s.set_keywords(&vec![one, two], &now("t1"));
    s.add_log(log("info", "main"), &now("t1"));
    assert_eq!(clear_db(&mut s, 1, &now("t2")), (0, 3));
    assert_eq!(s.keyword_stats[0].keyword_logs, vec![log("info", "c")]);
    assert_eq!(s.keyword_stats[1].keyword_logs, vec![log("info", "e")]);
    assert_eq!(s.keyword_stats[0].stats.log_counts, 3);
}
