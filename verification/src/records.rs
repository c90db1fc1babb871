//! The records the local workspace copy holds, as the views read them.
//! JSON columns arrive parsed.
use vstd::prelude::*;
use crate::json::Json;

verus! {

/// A page.
pub struct PageRec {
    pub id: String,
    pub parent_type: String,
    pub parent_id: Option<String>,
    pub title: String,
    pub icon: Option<String>,
    pub archived: bool,
    pub last_edited_time: String,
}

/// A block of a page; `ordinal` orders siblings.
pub struct BlockRec {
    pub id: String,
    pub page_id: String,
    pub parent_block_id: Option<String>,
    pub ordinal: i64,
    pub block_type: String,
    pub payload: Json,
    pub plain_text: String,
    pub has_children: bool,
}

/// A database row; `properties` maps property names to Notion property values.
pub struct RowRec {
    pub id: String,
    pub data_source_id: String,
    pub properties: Json,
    pub last_edited_time: String,
    pub archived: bool,
}

/// A data source (database table) and its property schema.
pub struct DataSourceRec {
    pub id: String,
    pub database_id: String,
    pub title: String,
    pub schema_json: Json,
    pub last_edited_time: String,
}

/// A comment on a page or row.
pub struct CommentRec {
    pub id: String,
    pub parent_id: String,
    pub parent_kind: String,
    pub thread_id: Option<String>,
    pub author: String,
    pub body: String,
    pub created_time: String,
}

/// A queued local edit waiting to be pushed.
pub struct OpRec {
    pub seq: i64,
    pub op_type: String,
    pub target_id: String,
    pub payload: Json,
    pub base_edited_time: Option<String>,
    pub state: String,
    pub error: Option<String>,
}

/// A full-text search result.
pub struct SearchHit {
    pub page_id: String,
    pub title: String,
    pub snippet: String,
}

} // verus!
