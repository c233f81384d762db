use gjwidgets::layout::{shows_title, workspace_columns, SPECIAL_COLUMN};
use gjwidgets::workspace::Workspace;

fn ws(id: i32, name: &str, monitor: u32) -> Workspace {
    Workspace::new(id, name.to_string(), monitor, false)
}

#[test]
fn columns_group_by_monitor_and_sort_by_id() {
    let all = vec![
        ws(3, "3", 0),
        ws(-98, "special:magic", 0),
        ws(1, "1", 0),
        ws(5, "5", 1),
        ws(2, "web", 1),
    ];
    let columns = workspace_columns(&all);
    let keys: Vec<u64> = columns.iter().map(|c| c.key).collect();
    assert_eq!(keys, vec![SPECIAL_COLUMN, 1, 0]);
    let ids: Vec<Vec<i32>> = columns
        .iter()
        .map(|c| c.workspaces.iter().map(|w| w.id()).collect())
        .collect();
    assert_eq!(ids, vec![vec![-98], vec![2, 5], vec![1, 3]]);
}

#[test]
fn no_workspaces_no_columns() {
    assert!(workspace_columns(&Vec::new()).is_empty());
}

#[test]
fn title_only_when_name_differs_from_id() {
    assert!(!shows_title(&ws(3, "3", 0)));
    assert!(shows_title(&ws(3, "work", 0)));
    assert!(shows_title(&ws(3, "03", 0)));
    assert!(shows_title(&ws(3, "+3", 0)));
    assert!(!shows_title(&ws(-98, "-98", 0)));
    assert!(shows_title(&ws(-98, "98", 0)));
    assert!(!shows_title(&ws(0, "0", 0)));
    assert!(!shows_title(&ws(i32::MIN, "-2147483648", 0)));
    assert!(shows_title(&ws(7, "", 0)));
}
