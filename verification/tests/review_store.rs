use trunk_lib::git::review_store::{load_step, LoadStep};
use trunk_lib::git::review_store::{backfill_comment_ids, check_schema, migrate_session, session_filename, SchemaCheck};
use trunk_lib::git::types::{Comment, ReviewSession};

fn comment(id: &str, text: &str) -> Comment {
    Comment { id: id.to_string(), text: text.to_string(), anchor: None, cached_excerpt: None, commit_oid: None }
}

#[test]
fn same_repo_id_same_file() {
    let repo_id = "local:/home/user/repos/trunk";
    let other = "wsl:Ubuntu:/home/user/repos/trunk";

    assert_eq!(
        session_filename(repo_id),
        session_filename(repo_id),
        "the same repo id must map to the same filename (build-stable hash)",
    );
    assert_ne!(
        session_filename(repo_id),
        session_filename(other),
        "different repo ids must map to different filenames",
    );
}

#[test]
fn session_filename_is_fnv1a_hex() {
    assert_eq!(session_filename(""), "cbf29ce484222325.json");
    assert_eq!(session_filename("a"), "af63dc4c8601ec8c.json");
    let name = session_filename("../../etc/passwd");
    assert_eq!(name.len(), 21);
    assert!(!name.contains('/'));
}

#[test]
fn schema_check_refuses_newer_versions() {
    assert!(matches!(check_schema(Some(3)), SchemaCheck::Newer));
    assert!(matches!(check_schema(Some(2)), SchemaCheck::Readable(2)));
    assert!(matches!(check_schema(Some(1)), SchemaCheck::Readable(1)));
    assert!(matches!(check_schema(None), SchemaCheck::Readable(0)));
}

#[test]
fn migration_backfills_ids_and_asks_for_resave() {
    let mut comments = vec![comment("", "one"), comment("keep-me", "two")];
    assert!(backfill_comment_ids(&mut comments));
    assert_eq!(comments[0].id.len(), 36);
    assert_eq!(comments[0].text, "one");
    assert_eq!(comments[1].id, "keep-me");

    let mut session = ReviewSession {
        schema_version: 2,
        commits: vec![],
        comments: vec![comment("keep-me", "one")],
        draft_comment: None,
        working_tree_snapshot: None,
        index_snapshot: None,
    };
    assert!(!migrate_session(&mut session, 2));
    assert_eq!(session.comments[0].id, "keep-me");
    assert!(migrate_session(&mut session, 1));
    assert_eq!(session.schema_version, 2);
}

#[test]
fn load_step_gates_schema_before_reading() {
    assert!(matches!(load_step("not json {"), LoadStep::Quarantine));
    assert!(matches!(load_step("{\"schema_version\": 3, \"commits\": []}"), LoadStep::RefusedNewer));
    assert!(matches!(load_step("{\"schema_version\": 2}"), LoadStep::Parse(2)));
    assert!(matches!(load_step("{\"commits\": []}"), LoadStep::Parse(0)));
    assert!(matches!(load_step("{\"schema_version\": \"two\"}"), LoadStep::Parse(0)));
}

#[test]
fn migrated_session_loads_back_unchanged() {
    let mut session = ReviewSession {
        schema_version: 1,
        commits: vec!["abc".to_string()],
        comments: vec![comment("", "one"), comment("", "two")],
        draft_comment: None,
        working_tree_snapshot: None,
        index_snapshot: None,
    };
    assert!(migrate_session(&mut session, 1));
    let ids: Vec<String> = session.comments.iter().map(|c| c.id.clone()).collect();
    assert!(!migrate_session(&mut session, 2));
    let again: Vec<String> = session.comments.iter().map(|c| c.id.clone()).collect();
    assert_eq!(ids, again);
}
