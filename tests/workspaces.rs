use gjwidgets::workspace::{
    build_snapshot, mark_active, parse_workspace_listing, ActiveWorkspace, ActiveWorkspaceError,
    Workspace, WorkspaceParseError,
};

fn summary(ws: &[Workspace]) -> Vec<(i32, String, u32, bool)> {
    ws.iter()
        .map(|w| (w.id(), w.name().clone(), w.monitor_id(), w.active()))
        .collect()
}

#[test]
fn parses_known_block() {
    let block = "workspace ID 3 (work) on monitor DP-1:\n\tmonitorID: 1\n\tactive: 1\n";
    let w = Workspace::parse_block(block).unwrap();
    assert_eq!(w.id(), 3);
    assert_eq!(w.name(), "work");
    assert_eq!(w.monitor_id(), 1);
    assert!(w.active());
}

#[test]
fn bare_name_takes_the_id_text() {
    let block = "workspace ID 4 misc\n\tmonitorID: 0\n";
    let w = Workspace::parse_block(block).unwrap();
    assert_eq!(w.id(), 4);
    assert_eq!(w.name(), "4");
    assert!(!w.active());
}

#[test]
fn special_workspace_has_negative_id() {
    let block = "workspace ID -98 (special:magic) on monitor DP-1:\n\tmonitorID: 0\n";
    let w = Workspace::parse_block(block).unwrap();
    assert_eq!(w.id(), -98);
    assert_eq!(w.name(), "special:magic");
}

#[test]
fn block_errors() {
    assert_eq!(
        Workspace::parse_block("\tmonitorID: 1\n").unwrap_err(),
        WorkspaceParseError::MissingHeader
    );
    assert_eq!(
        Workspace::parse_block("workspace ID 2 (two) on monitor A:\n").unwrap_err(),
        WorkspaceParseError::MissingMonitor
    );
    assert_eq!(
        Workspace::parse_block("workspace ID x (two) on monitor A:\n\tmonitorID: 1\n").unwrap_err(),
        WorkspaceParseError::MissingHeader
    );
    assert_eq!(
        Workspace::parse_block("workspace ID 2 (two) on A:\n\tmonitorID: 4294967296\n")
            .unwrap_err(),
        WorkspaceParseError::MissingMonitor
    );
}

#[test]
fn monitor_id_bounds_and_signs() {
    let w = Workspace::parse_block("workspace ID +7 (s) on A:\n\tmonitorID:  4294967295 \r\n")
        .unwrap();
    assert_eq!(w.id(), 7);
    assert_eq!(w.monitor_id(), 4294967295);
    let w = Workspace::parse_block("workspace ID -2147483648 (m) on A:\n\tmonitorID: 2\n").unwrap();
    assert_eq!(w.id(), i32::MIN);
    assert!(Workspace::parse_block("workspace ID 2147483648 (m) on A:\n\tmonitorID: 2\n").is_err());
}

#[test]
fn malformed_block_does_not_abort_siblings() {
    let listing = "workspace ID 1 (one) on monitor A:\n\tmonitorID: 0\n\n\
                   workspace ID 2 (two) on monitor A:\n\twindows: 3\n\n\
                   workspace ID 3 (three) on monitor B:\n\tmonitorID: 1\n";
    let ws = parse_workspace_listing(listing);
    assert_eq!(
        summary(&ws),
        vec![(1, "one".to_string(), 0, false), (3, "three".to_string(), 1, false)]
    );
}

#[test]
fn listing_ids_are_unique() {
    let listing = "workspace ID 1 (one) on A:\n\tmonitorID: 0\n\n\
                   workspace ID 1 (again) on A:\n\tmonitorID: 2\n\n\
                   workspace ID 2 (two) on A:\n\tmonitorID: 0\n";
    let ws = parse_workspace_listing(listing);
    assert_eq!(
        summary(&ws),
        vec![(1, "one".to_string(), 0, false), (2, "two".to_string(), 0, false)]
    );
}

#[test]
fn empty_listing_gives_no_workspaces() {
    assert!(parse_workspace_listing("").is_empty());
    assert!(parse_workspace_listing("\n\n  \n").is_empty());
}

#[test]
fn active_report_parsing() {
    let report = "Window 55d0 -> kitty:\n\tmapped: 1\n\tworkspace: 5 (5)\n\tfloating: 0\n";
    assert_eq!(ActiveWorkspace::parse(report).unwrap().id(), 5);
    assert_eq!(
        ActiveWorkspace::parse("Invalid\n").unwrap_err(),
        ActiveWorkspaceError::NotFound
    );
    assert_eq!(
        ActiveWorkspace::parse("\tworkspace:   \n").unwrap_err(),
        ActiveWorkspaceError::MissingId
    );
    assert_eq!(
        ActiveWorkspace::parse("\tworkspace: five (5)\n").unwrap_err(),
        ActiveWorkspaceError::InvalidId
    );
    assert_eq!(ActiveWorkspace::parse("\tworkspace: -98 (special)\n").unwrap().id(), -98);
}

#[test]
fn snapshot_marks_only_the_active_workspace() {
    let listing = "workspace ID 1 (one) on A:\n\tmonitorID: 0\n\tactive: 1\n\n\
                   workspace ID 2 (two) on A:\n\tmonitorID: 0\n";
    let report = "Window 1 -> x:\n\tworkspace: 2 (two)\n";
    let ws = build_snapshot(listing, Some(report));
    assert_eq!(
        summary(&ws),
        vec![(1, "one".to_string(), 0, false), (2, "two".to_string(), 0, true)]
    );
    let ws = build_snapshot(listing, Some("garbage"));
    assert!(ws.iter().all(|w| !w.active()));
    let ws = build_snapshot(listing, None);
    assert!(ws.iter().all(|w| !w.active()));
}

#[test]
fn mark_active_sets_exactly_one() {
    let ws = vec![
        Workspace::new(1, "a".to_string(), 0, true),
        Workspace::new(2, "b".to_string(), 1, false),
    ];
    let ws = mark_active(ws, Some(2));
    assert_eq!(
        summary(&ws),
        vec![(1, "a".to_string(), 0, false), (2, "b".to_string(), 1, true)]
    );
}

#[test]
fn from_str_matches_the_parsers() {
    let w: Workspace = "workspace ID 3 (work) on monitor DP-1:\n\tmonitorID: 1\n\tactive: 1\n"
        .parse()
        .unwrap();
    assert_eq!((w.id(), w.name().as_str(), w.monitor_id(), w.active()), (3, "work", 1, true));
    let a: ActiveWorkspace = "\tworkspace: 5 (5)\n".parse().unwrap();
    assert_eq!(a.id(), 5);
}
