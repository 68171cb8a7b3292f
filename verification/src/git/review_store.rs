//! Where review sessions are kept, and how a session file read back is
//! checked and brought up to the current schema.
//!
//! Reading, writing and renaming the files, and the JSON itself, are left to
//! the application; the names and the decisions are made here.
use vstd::prelude::*;

use crate::git::backend_fs::{path_join, BackendTempDir};
use crate::git::types::{Comment, ReviewSession};
use crate::text::{hex_char, hex_digits};
use vstd::string::StringSliceAdditionalSpecFns;

verus! {

/// The schema version this build writes.
pub const CURRENT_SCHEMA_VERSION: u32 = 2;

/// What loading a session gave.
pub enum LoadOutcome {
    /// A session of this schema or an older one was read.
    Loaded(ReviewSession),
    /// No session file exists for the repository.
    Missing,
    /// The file could not be read as a session and was set aside; a fresh
    /// session should start.
    RecoveredCorrupt,
    /// The file declares a newer schema than this build reads; it is left
    /// as it is and no fresh session may replace it.
    RefusedNewer,
}

/// FNV-1a, 64 bits, of a byte string.
pub open spec fn fnv1a(bytes: Seq<u8>) -> u64
    decreases bytes.len(),
{
    if bytes.len() == 0 {
        0xcbf2_9ce4_8422_2325u64
    } else {
        let h = fnv1a(bytes.drop_last());
        (((h ^ (bytes.last() as u64)) as nat * 0x0000_0100_0000_01b3nat) % 0x1_0000_0000_0000_0000nat) as u64
    }
}

/// The file name of a repository's session: the FNV-1a hash of its id in 16
/// lowercase hexadecimal digits, then `.json`.
pub open spec fn session_file_name(id: Seq<u8>) -> Seq<char> {
    hex_digits(fnv1a(id) as nat, 16) + ".json"@
}

/// The session file name for a stable repository id. The same id always
/// gives the same name, whatever the build.
pub fn session_filename(repo_id: &str) -> (r: String)
    ensures
        r@ == session_file_name(repo_id.spec_bytes()),
{
    let bytes = repo_id.as_bytes();
    let n = bytes.len();
    let mut hash: u64 = 0xcbf2_9ce4_8422_2325;
    for i in 0..n
        invariant
            n == bytes@.len(),
            bytes@ == repo_id.spec_bytes(),
            hash == fnv1a(bytes@.take(i as int)),
    {
        assert(bytes@.take(i + 1).drop_last() =~= bytes@.take(i as int));
        hash = (hash ^ (bytes[i] as u64)).wrapping_mul(0x0000_0100_0000_01b3);
    }
    assert(bytes@.take(n as int) =~= bytes@);
    let mut name = crate::text::hex_digits_of(hash, 16);
    crate::text::push_str(&mut name, ".json");
    crate::text::string_of(&name)
}

/// The file a repository's session is kept in: `sessions/<file name>` under
/// the application's data directory.
pub fn session_path(data_dir: &str, repo_id: &str) -> (r: String)
    ensures
        r@ == path_join(path_join(data_dir@, "sessions"@), session_file_name(repo_id.spec_bytes())),
{
    let dir = BackendTempDir::Local(String::from_str(data_dir)).join_display("sessions");
    let name = session_filename(repo_id);
    BackendTempDir::Local(dir).join_display(name.as_str())
}

pub proof fn lemma_hex_digits(n: nat, k: nat)
    ensures
        hex_digits(n, k).len() == k,
        forall|i: int| 0 <= i < k ==> {
            let c = #[trigger] hex_digits(n, k)[i];
            ('0' <= c <= '9') || ('a' <= c <= 'f')
        },
    decreases k,
{
    if k > 0 {
        lemma_hex_digits(n / 16, (k - 1) as nat);
        let d = n % 16;
        assert(('0' <= hex_char(d) <= '9') || ('a' <= hex_char(d) <= 'f'));
        assert forall|i: int| 0 <= i < k implies {
            let c = #[trigger] hex_digits(n, k)[i];
            ('0' <= c <= '9') || ('a' <= c <= 'f')
        } by {
            if i < k - 1 {
                assert(hex_digits(n, k)[i] == hex_digits(n / 16, (k - 1) as nat)[i]);
            }
        }
    }
}

/// A session file name is 16 hexadecimal digits and `.json`: it names a
/// file inside the sessions directory whatever the repository id, never a
/// path out of it.
pub proof fn lemma_session_file_name_safe(id: Seq<u8>)
    ensures
        session_file_name(id).len() == 21,
        session_file_name(id).skip(16) == ".json"@,
        forall|i: int| 0 <= i < 16 ==> {
            let c = #[trigger] session_file_name(id)[i];
            ('0' <= c <= '9') || ('a' <= c <= 'f')
        },
        !session_file_name(id).contains('/'),
        !session_file_name(id).contains('\\'),
{
    reveal_strlit(".json");
    let name = session_file_name(id);
    let h = hex_digits(fnv1a(id) as nat, 16);
    lemma_hex_digits(fnv1a(id) as nat, 16);
    assert(name.skip(16) =~= ".json"@);
    assert forall|i: int| 0 <= i < 16 implies {
        let c = #[trigger] name[i];
        ('0' <= c <= '9') || ('a' <= c <= 'f')
    } by {
        assert(name[i] == h[i]);
    }
    assert forall|i: int| 0 <= i < name.len() implies name[i] != '/' && name[i] != '\\' by {
        if i < 16 {
            assert(name[i] == h[i]);
        } else {
            assert(name[i] == ".json"@[i - 16]);
        }
    }
}

/// `Uuid::new_v4().to_string()`: a random version-4 id, written as 36
/// characters (hyphenated, lowercase).
#[verifier::external_body]
fn new_v4_id() -> (s: String)
    ensures
        s@.len() == 36,
{
    uuid::Uuid::new_v4().to_string()
}

/// Gives every comment without an id a fresh random one; other comments,
/// and everything else about each comment, are left as they are. Says
/// whether any id was given.
pub fn backfill_comment_ids(comments: &mut Vec<Comment>) -> (backfilled: bool)
    ensures
        final(comments)@.len() == old(comments)@.len(),
        forall|i: int| 0 <= i < old(comments)@.len() ==> {
            let (a, b) = (#[trigger] old(comments)@[i], final(comments)@[i]);
            &&& b.text == a.text
            &&& b.anchor == a.anchor
            &&& b.cached_excerpt == a.cached_excerpt
            &&& b.commit_oid == a.commit_oid
            &&& a.id@.len() > 0 ==> b.id == a.id
            &&& a.id@.len() == 0 ==> b.id@.len() == 36
        },
        backfilled == exists|i: int| 0 <= i < old(comments)@.len() && (#[trigger] old(comments)@[i]).id@.len() == 0,
{
    let mut any = false;
    let n = comments.len();
    for i in 0..n
        invariant
            n == comments@.len(),
            n == old(comments)@.len(),
            forall|k: int| i <= k < n ==> #[trigger] comments@[k] == old(comments)@[k],
            forall|k: int| 0 <= k < i ==> {
                let (a, b) = (#[trigger] old(comments)@[k], comments@[k]);
                &&& b.text == a.text
                &&& b.anchor == a.anchor
                &&& b.cached_excerpt == a.cached_excerpt
                &&& b.commit_oid == a.commit_oid
                &&& a.id@.len() > 0 ==> b.id == a.id
                &&& a.id@.len() == 0 ==> b.id@.len() == 36
            },
            any == exists|k: int| 0 <= k < i && (#[trigger] old(comments)@[k]).id@.len() == 0,
    {
        if comments[i].id.as_str().is_empty() {
            comments[i].id = new_v4_id();
            any = true;
        }
    }
    any
}

/// Brings a session read back under schema `version` to the current schema:
/// every comment gets an id and the session is marked current. Says whether
/// it must be written back (an id was given, or the schema was older), so
/// that given ids stay the same from one load to the next.
pub fn migrate_session(session: &mut ReviewSession, version: u32) -> (resave: bool)
    ensures
        final(session).schema_version == CURRENT_SCHEMA_VERSION,
        final(session).commits == old(session).commits,
        final(session).draft_comment == old(session).draft_comment,
        final(session).comments@.len() == old(session).comments@.len(),
        forall|i: int| 0 <= i < final(session).comments@.len() ==> (#[trigger] final(session).comments@[i]).id@.len() > 0,
        forall|i: int| 0 <= i < old(session).comments@.len() && (#[trigger] old(session).comments@[i]).id@.len() > 0 ==> final(session).comments@[i] == old(session).comments@[i],
        resave == (version < CURRENT_SCHEMA_VERSION || exists|i: int| 0 <= i < old(session).comments@.len() && (#[trigger] old(session).comments@[i]).id@.len() == 0),
        final(session).working_tree_snapshot == old(session).working_tree_snapshot,
        final(session).index_snapshot == old(session).index_snapshot,
        // A session saved by this build loads back as it was, with nothing to
        // rewrite: given ids stay the same from one load to the next.
        version == CURRENT_SCHEMA_VERSION && (forall|i: int| 0 <= i < old(session).comments@.len()
            ==> (#[trigger] old(session).comments@[i]).id@.len() > 0) ==> !resave
            && final(session).comments@ == old(session).comments@,
{
    let backfilled = backfill_comment_ids(&mut session.comments);
    session.schema_version = CURRENT_SCHEMA_VERSION;
    proof {
        assert forall|i: int| 0 <= i < session.comments@.len() implies (#[trigger] session.comments@[i]).id@.len() > 0 by {
            let a = old(session).comments@[i];
            if a.id@.len() > 0 {
            } else {
            }
        }
        assert forall|i: int| 0 <= i < old(session).comments@.len() && (#[trigger] old(session).comments@[i]).id@.len() > 0 implies session.comments@[i] == old(session).comments@[i] by {
            let a = old(session).comments@[i];
            let b = session.comments@[i];
            assert(b.id == a.id);
        }
    }
    backfilled || version < CURRENT_SCHEMA_VERSION
}

/// What the declared schema version of a session file allows.
pub enum SchemaCheck {
    /// Newer than this build reads: leave the file alone.
    Newer,
    /// Readable, with this version (0 when none is declared).
    Readable(u32),
}

/// The schema version declared by a session file (its `schema_version`
/// field as an unsigned integer, kept to 32 bits; 0 when absent), and whether
/// this build may read it.
pub fn check_schema(declared: Option<u64>) -> (r: SchemaCheck)
    ensures
        ({
            let v = match declared {
                Some(x) => (x % 0x1_0000_0000) as u32,
                None => 0u32,
            };
            &&& v > CURRENT_SCHEMA_VERSION ==> r is Newer
            &&& v <= CURRENT_SCHEMA_VERSION ==> r == SchemaCheck::Readable(v)
        }),
{
    let v: u32 = match declared {
        Some(x) => (x % 0x1_0000_0000) as u32,
        None => 0,
    };
    if v > CURRENT_SCHEMA_VERSION {
        SchemaCheck::Newer
    } else {
        SchemaCheck::Readable(v)
    }
}


/// What `serde_json` reads of a text: `None` when it is not JSON, else the
/// `schema_version` field of the value as an unsigned integer, when there is
/// one.
pub uninterp spec fn json_schema_version(raw: Seq<char>) -> Option<Option<u64>>;

/// `serde_json::from_str` into a `serde_json::Value`, then `Value::get` of
/// `schema_version` and `Value::as_u64`. The result is a function of the text
/// alone.
#[verifier::external_body]
fn peek_schema_version(raw: &str) -> (r: Option<Option<u64>>)
    ensures
        r == json_schema_version(raw@),
{
    match serde_json::from_str::<serde_json::Value>(raw) {
        Ok(v) => Some(v.get("schema_version").and_then(|x| x.as_u64())),
        Err(_) => None,
    }
}

/// The next step of loading a session file that exists.
#[derive(Debug)]
pub enum LoadStep {
    /// The text is not JSON: set the file aside as corrupt.
    Quarantine,
    /// The file declares a newer schema: leave it untouched.
    RefusedNewer,
    /// Read the text as a session of this schema version, and migrate it.
    Parse(u32),
}

/// Decides what to do with a session file, given what peeking at its JSON
/// gave: set aside what is not JSON, refuse a newer schema, read the rest.
pub fn load_step_for(peeked: Option<Option<u64>>) -> (r: LoadStep)
    ensures
        match peeked {
            None => r is Quarantine,
            Some(declared) => {
                let v = match declared {
                    Some(x) => (x % 0x1_0000_0000) as u32,
                    None => 0u32,
                };
                &&& v > CURRENT_SCHEMA_VERSION ==> r is RefusedNewer
                &&& v <= CURRENT_SCHEMA_VERSION ==> r == LoadStep::Parse(v)
            },
        },
{
    match peeked {
        None => LoadStep::Quarantine,
        Some(declared) => match check_schema(declared) {
            SchemaCheck::Newer => LoadStep::RefusedNewer,
            SchemaCheck::Readable(v) => LoadStep::Parse(v),
        },
    }
}

/// Decides what to do with the text of a session file: the schema gate runs
/// before the text is read as a session, so a newer file is never touched.
pub fn load_step(raw: &str) -> (r: LoadStep)
    ensures
        ({
            let peeked = json_schema_version(raw@);
            match peeked {
                None => r is Quarantine,
                Some(declared) => {
                    let v = match declared {
                        Some(x) => (x % 0x1_0000_0000) as u32,
                        None => 0u32,
                    };
                    &&& v > CURRENT_SCHEMA_VERSION ==> r is RefusedNewer
                    &&& v <= CURRENT_SCHEMA_VERSION ==> r == LoadStep::Parse(v)
                },
            }
        }),
{
    load_step_for(peek_schema_version(raw))
}

} // verus!
