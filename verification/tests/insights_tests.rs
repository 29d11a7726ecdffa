use session_catalog::insights::get_session_insights;
use session_catalog::model::{Message, Role};
use session_catalog::resolve::resolve;
use session_catalog::store::Catalog;

fn msg(created: i64) -> Message {
    Message { role: Role::Assistant, content: "m".to_string(), created }
}

fn seed(
    catalog: &mut Catalog,
    id: &str,
    description: &str,
    working_dir: &str,
    accumulated_total_tokens: Option<i32>,
    modified: &str,
    messages: Vec<Message>,
) {
    let loc = resolve(id).expect("valid id");
    catalog.append_messages(&loc, messages, modified.to_string()).expect("append");
    let mut m = catalog.read_metadata(&loc).unwrap();
    m.description = description.to_string();
    m.working_dir = working_dir.to_string();
    m.accumulated_total_tokens = accumulated_total_tokens;
    catalog.update_metadata(&loc, m).unwrap();
}

#[test]
fn test_insights_zero_filtered_sessions() {
    let catalog = Catalog::new();
    let insights = get_session_insights(&catalog);
    assert_eq!(insights.total_sessions, 0);
    assert_eq!(insights.total_tokens, 0);
    assert_eq!(insights.total_duration_secs, 0);
    let avg_session_duration: f64 = if insights.total_sessions > 0 {
        insights.total_duration_secs as f64 / 60.0 / insights.total_sessions as f64
    } else {
        0.0
    };
    assert_eq!(avg_session_duration, 0.0);
    assert_eq!(insights.most_active_dirs.len(), 0);
    assert_eq!(insights.recent_activity.len(), 0);
}

#[test]
fn test_insights_ignores_sessions_without_description() {
    let mut catalog = Catalog::new();
    seed(&mut catalog, "undesc", "", "/x", Some(500), "2024-03-01 08:00:00 UTC", vec![msg(0)]);
    let insights = get_session_insights(&catalog);
    assert_eq!(insights.total_sessions, 0);
    assert_eq!(insights.total_tokens, 0);
    assert_eq!(insights.most_active_dirs.len(), 0);
}

#[test]
fn test_insights_three_sessions_scenario() {
    let mut catalog = Catalog::new();
    seed(&mut catalog, "s1", "one", "/a", Some(100), "2024-03-01 08:00:00 UTC", vec![msg(0)]);
    seed(&mut catalog, "s2", "two", "/a", Some(200), "2024-03-02 08:00:00 UTC", vec![msg(0)]);
    seed(&mut catalog, "s3", "three", "/b", Some(-50), "2024-03-03 08:00:00 UTC", vec![msg(0)]);

    let insights = get_session_insights(&catalog);
    assert_eq!(insights.total_sessions, 3);
    assert_eq!(insights.total_tokens, 300);
    assert_eq!(insights.most_active_dirs.len(), 2);
    assert_eq!(insights.most_active_dirs[0], ("/a".to_string(), 2));
    assert_eq!(insights.most_active_dirs[1], ("/b".to_string(), 1));
}

#[test]
fn test_token_sum_excludes_negative_never_subtracts() {
    let mut catalog = Catalog::new();
    seed(&mut catalog, "pos", "p", "/a", Some(100), "2024-03-01 08:00:00 UTC", vec![msg(0)]);
    let before = get_session_insights(&catalog).total_tokens;
    seed(&mut catalog, "neg", "n", "/a", Some(-999), "2024-03-02 08:00:00 UTC", vec![msg(0)]);
    let after = get_session_insights(&catalog).total_tokens;
    assert_eq!(before, 100);
    assert_eq!(after, 100);
    assert!(after >= before);
}

#[test]
fn test_insights_ranks_top_three_dirs() {
    let mut catalog = Catalog::new();
    for (i, dir) in ["/a", "/a", "/a", "/b", "/b", "/c", "/d"].iter().enumerate() {
        let id = format!("dir-{}", i);
        seed(&mut catalog, &id, "d", dir, None, "2024-03-01 08:00:00 UTC", vec![msg(0)]);
    }
    let insights = get_session_insights(&catalog);
    assert_eq!(insights.most_active_dirs.len(), 3);
    assert_eq!(insights.most_active_dirs[0], ("/a".to_string(), 3));
    assert_eq!(insights.most_active_dirs[1], ("/b".to_string(), 2));
    // tie between /c and /d broken lexicographically ascending
    assert_eq!(insights.most_active_dirs[2], ("/c".to_string(), 1));
}

#[test]
fn test_insights_duration_from_first_and_last_message() {
    let mut catalog = Catalog::new();
    // 300 seconds between first and last message
    seed(
        &mut catalog,
        "timed",
        "t",
        "/a",
        None,
        "2024-03-01 08:00:00 UTC",
        vec![msg(1000), msg(1100), msg(1300)],
    );
    // a single-message session contributes zero but still counts
    seed(&mut catalog, "single", "s", "/a", None, "2024-03-01 09:00:00 UTC", vec![msg(50)]);

    let insights = get_session_insights(&catalog);
    assert_eq!(insights.total_sessions, 2);
    assert_eq!(insights.total_duration_secs, 300);
    let avg_minutes = insights.total_duration_secs as f64 / 60.0 / insights.total_sessions as f64;
    assert_eq!(avg_minutes, 2.5);
}

#[test]
fn test_insights_recent_activity_last_seven_days() {
    let mut catalog = Catalog::new();
    let days = [
        "2024-03-01", "2024-03-02", "2024-03-03", "2024-03-04", "2024-03-05", "2024-03-06",
        "2024-03-07", "2024-03-08",
    ];
    let mut n = 0;
    for day in days.iter() {
        for k in 0..2 {
            let id = format!("act-{}-{}", n, k);
            let modified = format!("{} 10:00:00 UTC", day);
            seed(&mut catalog, &id, "a", "/a", None, &modified, vec![msg(0)]);
        }
        n += 1;
    }
    let insights = get_session_insights(&catalog);
    assert_eq!(insights.recent_activity.len(), 7);
    assert_eq!(insights.recent_activity[0], ("2024-03-08".to_string(), 2));
    assert_eq!(insights.recent_activity[6], ("2024-03-02".to_string(), 2));
}

#[test]
fn test_insights_unparseable_modified_excluded_from_activity_only() {
    let mut catalog = Catalog::new();
    seed(&mut catalog, "odd", "o", "/a", Some(5), "not a timestamp", vec![msg(0)]);
    let insights = get_session_insights(&catalog);
    assert_eq!(insights.total_sessions, 1);
    assert_eq!(insights.total_tokens, 5);
    assert_eq!(insights.recent_activity.len(), 0);
}
