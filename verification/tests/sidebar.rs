use notion_tui::ui::sidebar::{NodeKind, SidebarState, TreeNode};

fn node(id: &str, title: &str, parent: Option<&str>, kind: NodeKind) -> TreeNode {
    TreeNode { id: id.into(), title: title.into(), parent_id: parent.map(Into::into), kind }
}

fn nodes() -> Vec<TreeNode> {
    vec![
        node("a", "Alpha", None, NodeKind::Page),
        node("a1", "Alpha child", Some("a"), NodeKind::Page),
        node("b", "Beta", None, NodeKind::Page),
        node("ds", "Tasks", None, NodeKind::DataSource),
    ]
}

#[test]
fn visible_nests_children_and_lists_data_sources_last() {
    let s = SidebarState::new(nodes());
    let v = s.visible();
    let titles: Vec<(&str, usize)> = v.iter().map(|n| (n.node.title.as_str(), n.depth)).collect();
    assert_eq!(titles, vec![("Alpha", 0), ("Alpha child", 1), ("Beta", 0), ("Tasks", 0)]);
}

#[test]
fn collapse_hides_children() {
    let mut s = SidebarState::new(nodes());
    s.cursor = 0; // Alpha
    s.toggle_collapse();
    let titles: Vec<&str> = s.visible().iter().map(|n| n.node.title.as_str()).collect();
    assert_eq!(titles, vec!["Alpha", "Beta", "Tasks"]);
    s.toggle_collapse();
    assert_eq!(s.visible().len(), 4);
}

#[test]
fn cursor_clamps() {
    let mut s = SidebarState::new(nodes());
    s.move_cursor(-5);
    assert_eq!(s.cursor, 0);
    s.move_cursor(100);
    assert_eq!(s.cursor, s.visible().len() - 1);
    assert_eq!(s.selected().map(|n| n.id.as_str()), Some("ds"));
}

#[test]
fn page_under_unknown_parent_is_a_root_and_cycles_show_nothing() {
    let s = SidebarState::new(vec![
        node("x", "Orphan", Some("gone"), NodeKind::Page),
        node("c1", "Cycle one", Some("c2"), NodeKind::Page),
        node("c2", "Cycle two", Some("c1"), NodeKind::Page),
    ]);
    let titles: Vec<&str> = s.visible().iter().map(|n| n.node.title.as_str()).collect();
    assert_eq!(titles, vec!["Orphan"]);
}
