use session_catalog::heatmap::get_activity_heatmap;
use session_catalog::model::{ActivityHeatmapCell, Message, Role};
use session_catalog::resolve::resolve;
use session_catalog::store::Catalog;

fn seed(catalog: &mut Catalog, id: &str, description: &str, modified: &str) {
    let loc = resolve(id).expect("valid id");
    let messages = vec![Message { role: Role::User, content: "m".to_string(), created: 0 }];
    catalog.append_messages(&loc, messages, modified.to_string()).expect("append");
    let mut m = catalog.read_metadata(&loc).unwrap();
    m.description = description.to_string();
    catalog.update_metadata(&loc, m).unwrap();
}

fn cell_for(cells: &[ActivityHeatmapCell], week: usize, day: usize) -> Option<ActivityHeatmapCell> {
    cells.iter().find(|c| c.week == week && c.day == day).copied()
}

#[test]
fn test_heatmap_empty_catalog() {
    let catalog = Catalog::new();
    assert_eq!(get_activity_heatmap(&catalog).len(), 0);
}

#[test]
fn test_heatmap_sunday_is_day_zero() {
    let mut catalog = Catalog::new();
    // 2024-01-07 is a Sunday inside ISO week 1 of 2024.
    seed(&mut catalog, "sun", "sunday session", "2024-01-07 10:00:00 UTC");
    let cells = get_activity_heatmap(&catalog);
    assert_eq!(cells.len(), 1);
    assert_eq!(cells[0].day, 0);
    assert_eq!(cells[0].week, 0);
    assert_eq!(cells[0].count, 1);
}

#[test]
fn test_heatmap_following_saturday_is_day_six() {
    let mut catalog = Catalog::new();
    // The Saturday after that Sunday: 2024-01-13, day index 6.  ISO weeks
    // start on Monday, so the Sunday closes week 1 and the following
    // Saturday already lies in week 2.
    seed(&mut catalog, "sun", "s", "2024-01-07 10:00:00 UTC");
    seed(&mut catalog, "sat", "s", "2024-01-13 10:00:00 UTC");
    let cells = get_activity_heatmap(&catalog);
    assert_eq!(cells.len(), 2);
    let sunday = cell_for(&cells, 0, 0).expect("sunday cell");
    let saturday = cell_for(&cells, 1, 6).expect("saturday cell");
    assert_eq!(sunday.count, 1);
    assert_eq!(saturday.count, 1);
}

#[test]
fn test_heatmap_same_iso_week_shares_week_index() {
    let mut catalog = Catalog::new();
    // Monday and the Saturday of the same ISO week (week 2 of 2024).
    seed(&mut catalog, "mon", "m", "2024-01-08 09:00:00 UTC");
    seed(&mut catalog, "sat", "s", "2024-01-13 21:00:00 UTC");
    let cells = get_activity_heatmap(&catalog);
    assert_eq!(cells.len(), 2);
    let monday = cell_for(&cells, 1, 1).expect("monday cell");
    let saturday = cell_for(&cells, 1, 6).expect("saturday cell");
    assert_eq!(monday.week, saturday.week);
}

#[test]
fn test_heatmap_counts_accumulate_per_bucket() {
    let mut catalog = Catalog::new();
    seed(&mut catalog, "a", "x", "2024-01-08 09:00:00 UTC");
    seed(&mut catalog, "b", "x", "2024-01-08 13:00:00 UTC");
    seed(&mut catalog, "c", "x", "2024-01-08 23:00:00 UTC");
    let cells = get_activity_heatmap(&catalog);
    assert_eq!(cells.len(), 1);
    assert_eq!(cells[0], ActivityHeatmapCell { week: 1, day: 1, count: 3 });
}

#[test]
fn test_heatmap_skips_undescribed_and_unparseable() {
    let mut catalog = Catalog::new();
    seed(&mut catalog, "nodesc", "", "2024-01-08 09:00:00 UTC");
    seed(&mut catalog, "badstamp", "x", "yesterday-ish");
    let cells = get_activity_heatmap(&catalog);
    assert_eq!(cells.len(), 0);
}
