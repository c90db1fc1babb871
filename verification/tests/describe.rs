use notion_tui::describe::{describe_op, op_lookups, short_id, snippet, OpFacts};
use notion_tui::json::Json;
use notion_tui::records::OpRec;

fn s(t: &str) -> Json {
    Json::Str(t.to_string())
}

fn obj(entries: Vec<(&str, Json)>) -> Json {
    let mut e: Vec<(String, Json)> = entries.into_iter().map(|(k, v)| (k.to_string(), v)).collect();
    e.sort_by(|a, b| a.0.cmp(&b.0));
    Json::Object(e)
}

fn op(op_type: &str, target: &str, payload: Json) -> OpRec {
    OpRec {
        seq: 1,
        op_type: op_type.into(),
        target_id: target.into(),
        payload,
        base_edited_time: None,
        state: "pending".into(),
        error: None,
    }
}

fn no_facts() -> OpFacts {
    OpFacts { page_title: None, block_text: None, data_source_title: None, row_properties: None }
}

fn title_props(title: &str) -> Json {
    obj(vec![
        ("Name", obj(vec![("type", s("title")), ("title", Json::Array(vec![obj(vec![("plain_text", s(title))])]))])),
        ("Status", obj(vec![("type", s("status")), ("status", obj(vec![("name", s("Todo"))]))])),
    ])
}

#[test]
fn update_block_op_names_page_and_snippets_block_text() {
    let o = op("update_block", "b1", obj(vec![("page_id", s("p1"))]));
    let keys = op_lookups(&o);
    assert_eq!(keys.page_id.as_deref(), Some("p1"));
    assert_eq!(keys.block_id.as_deref(), Some("b1"));
    let facts = OpFacts {
        page_title: Some("Meeting Notes".into()),
        block_text: Some("agenda item one v2".into()),
        ..no_facts()
    };
    let d = describe_op(&o, &facts);
    assert_eq!(d.summary, "edit ¶ in 'Meeting Notes'");
    assert_eq!(d.target_title.as_deref(), Some("Meeting Notes"));
    assert!(d.detail.as_deref().unwrap().starts_with("agenda item one"));
}

#[test]
fn update_row_op_names_property_and_row_title() {
    let payload = obj(vec![("properties", obj(vec![("Status", obj(vec![("type", s("status"))]))]))]);
    let o = op("update_row", "r1", payload);
    assert_eq!(op_lookups(&o).row_id.as_deref(), Some("r1"));
    let facts = OpFacts { row_properties: Some(title_props("Q3 Launch")), ..no_facts() };
    let d = describe_op(&o, &facts);
    assert_eq!(d.summary, "set Status on 'Q3 Launch'");
    assert_eq!(d.detail.as_deref(), Some("Status"));
}

#[test]
fn create_comment_op_names_the_parent_page() {
    let o = op("create_comment", "c1", obj(vec![("parent_id", s("p1")), ("body", s("looks good to me"))]));
    let keys = op_lookups(&o);
    assert_eq!(keys.page_id.as_deref(), Some("p1"));
    let facts = OpFacts { page_title: Some("Meeting Notes".into()), ..no_facts() };
    let d = describe_op(&o, &facts);
    assert_eq!(d.summary, "comment on 'Meeting Notes'");
    assert_eq!(d.detail.as_deref(), Some("looks good to me"));
}

#[test]
fn unknown_op_type_falls_back_to_short_id_never_full_uuid() {
    let o = op("rename_page", "0123456789abcdef0123", Json::Object(vec![]));
    let d = describe_op(&o, &no_facts());
    assert_eq!(d.summary, "rename page on '01234567…'");
    assert!(d.target_title.is_none());
}

#[test]
fn delete_row_op_resolves_title_of_archived_row() {
    let o = op("delete_row", "r1", Json::Object(vec![]));
    let facts = OpFacts { row_properties: Some(title_props("Q3 Launch")), ..no_facts() };
    let d = describe_op(&o, &facts);
    assert_eq!(d.summary, "delete row 'Q3 Launch'");
}

#[test]
fn create_row_without_title_is_untitled_in_short_data_source() {
    let o = op("create_row", "r9", obj(vec![("data_source_id", s("abcdefghijk"))]));
    assert_eq!(op_lookups(&o).data_source_id.as_deref(), Some("abcdefghijk"));
    let d = describe_op(&o, &no_facts());
    assert_eq!(d.summary, "add row 'untitled' to 'abcdefgh…'");
}

#[test]
fn short_id_and_snippet_cut_with_ellipsis() {
    assert_eq!(short_id("12345678"), "12345678");
    assert_eq!(short_id("123456789"), "12345678…");
    assert_eq!(snippet(""), None);
    assert_eq!(snippet("short"), Some("short".to_string()));
    assert_eq!(snippet("abcdefghijklmnopqrstuvwxyz"), Some("abcdefghijklmnopqrstuvwx…".to_string()));
}
