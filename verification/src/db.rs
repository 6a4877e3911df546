//! The session database: where it lies and how its schema grows.
//!
//! The schema is versioned. A fresh database is first given the base schema and
//! then taken through every later stage in turn; each stage reads the version
//! again inside its own exclusive transaction, so that two processes that
//! migrate at once do not apply a stage twice.

use crate::error::joined_text;
use crate::number;
use crate::text;
use vstd::prelude::*;
use vstd::string::*;

verus! {

// ---------------------------------------------------------------------------
// Error type
// ---------------------------------------------------------------------------

/// What can go wrong with a database.
#[derive(Debug)]
pub enum DbError {
    Sqlite(String),
    Io(String),
    NoCacheDir,
    VersionMismatch { found: i32, expected: i32 },
}

/// The message of an error.
pub open spec fn db_message(e: DbError) -> Seq<char> {
    match e {
        DbError::Sqlite(m) => "sqlite: "@ + m@,
        DbError::Io(m) => "io: "@ + m@,
        DbError::NoCacheDir => "cache directory unavailable"@,
        DbError::VersionMismatch { found, expected } => "schema version mismatch: found "@
            + number::signed_decimal(found as int) + ", expected "@ + number::signed_decimal(
            expected as int,
        ),
    }
}

impl DbError {
    /// The message of the error.
    pub fn message(&self) -> (s: String)
        ensures
            s@ == db_message(*self),
    {
        match self {
            DbError::Sqlite(m) => joined_text("sqlite: ", m.as_str()),
            DbError::Io(m) => joined_text("io: ", m.as_str()),
            DbError::NoCacheDir => "cache directory unavailable".to_owned(),
            DbError::VersionMismatch { found, expected } => {
                let mut s = "schema version mismatch: found ".to_owned();
                number::push_signed(&mut s, *found as i64);
                s.append(", expected ");
                number::push_signed(&mut s, *expected as i64);
                s
            },
        }
    }
}

// ---------------------------------------------------------------------------
// Paths
// ---------------------------------------------------------------------------

/// The path `part` under `base`: `part` itself where it is absolute, and no
/// second separator where `base` ends in one or is empty.
pub open spec fn path_joined(base: Seq<char>, part: Seq<char>) -> Seq<char> {
    if part.len() > 0 && part[0] == '/' {
        part
    } else if base.len() == 0 || base.last() == '/' {
        base + part
    } else {
        base + "/"@ + part
    }
}

/// The path `part` under `base`.
pub fn join_path(base: &str, part: &str) -> (s: String)
    ensures
        s@ == path_joined(base@, part@),
{
    let b = text::chars_of(base);
    let p = text::chars_of(part);
    if p.len() > 0 && p[0] == '/' {
        part.to_owned()
    } else if b.len() == 0 || b[b.len() - 1] == '/' {
        joined_text(base, part)
    } else {
        let mut s = joined_text(base, "/");
        s.append(part);
        s
    }
}

/// The directory of a session: `{root}/ctxl/{session_id}`.
pub open spec fn session_path(root: Seq<char>, session_id: Seq<char>) -> Seq<char> {
    path_joined(path_joined(root, "ctxl"@), session_id)
}

/// Returns the session directory under an explicit `root`.
///
/// The resulting path is `{root}/ctxl/{session_id}`.
pub fn session_dir_at(root: &str, session_id: &str) -> (s: String)
    ensures
        s@ == session_path(root@, session_id@),
{
    let base = join_path(root, "ctxl");
    join_path(base.as_str(), session_id)
}

// ---------------------------------------------------------------------------
// Schema
// ---------------------------------------------------------------------------

/// Base schema version created from scratch before incremental migrations run.
/// It is only meaningful during the creation of a brand-new database.
pub const SCHEMA_VERSION: i32 = 2;

/// Highest schema version understood. Databases at any version up to and
/// including this value are accepted; versions above it are rejected.
pub const MAX_KNOWN_VERSION: i32 = 7;

/// What a stage does to a database.
#[derive(Debug, Clone, Copy, PartialEq, Eq, Structural)]
pub enum SchemaAction {
    /// Nothing: the database is past this stage.
    Skip,
    /// Apply the base schema to a fresh database.
    CreateBase,
    /// Turn the timestamps of the first version into integers.
    FixTimestamps,
    /// Apply the migration to this version.
    Migrate(i32),
}

/// What stage `stage` does to a database at version `current`. The base stage
/// has the number of the base schema version, a migration that of the version
/// it leads to.
pub open spec fn action_at(stage: int, current: int) -> SchemaAction {
    if stage == SCHEMA_VERSION {
        if current == 0 {
            SchemaAction::CreateBase
        } else if current == 1 {
            SchemaAction::FixTimestamps
        } else {
            SchemaAction::Skip
        }
    } else if current < stage {
        SchemaAction::Migrate(stage as i32)
    } else {
        SchemaAction::Skip
    }
}

/// The version of a database at version `current` after stage `stage`.
pub open spec fn version_after(stage: int, current: int) -> int {
    match action_at(stage, current) {
        SchemaAction::Skip => current,
        SchemaAction::CreateBase => SCHEMA_VERSION as int,
        SchemaAction::FixTimestamps => SCHEMA_VERSION as int,
        SchemaAction::Migrate(v) => v as int,
    }
}

/// The version of a database at version `current` after all stages from `stage`
/// on.
pub open spec fn version_from(stage: int, current: int) -> int
    decreases MAX_KNOWN_VERSION + 1 - stage,
{
    if stage > MAX_KNOWN_VERSION {
        current
    } else {
        version_from(stage + 1, version_after(stage, current))
    }
}

/// Decide what stage `stage` does to a database at version `current`.
pub fn schema_action(stage: i32, current: i32) -> (a: SchemaAction)
    ensures
        a == action_at(stage as int, current as int),
{
    if stage == SCHEMA_VERSION {
        if current == 0 {
            SchemaAction::CreateBase
        } else if current == 1 {
            SchemaAction::FixTimestamps
        } else {
            SchemaAction::Skip
        }
    } else if current < stage {
        SchemaAction::Migrate(stage)
    } else {
        SchemaAction::Skip
    }
}

/// Whether an action that was decided on still applies, given the version read
/// inside its transaction.
pub open spec fn action_applies(action: SchemaAction, inner: int) -> bool {
    match action {
        SchemaAction::Skip => false,
        SchemaAction::CreateBase => inner == 0,
        SchemaAction::FixTimestamps => inner == 1,
        SchemaAction::Migrate(v) => inner < v,
    }
}

/// Whether an action that was decided on still applies, given the version read
/// inside its transaction: another process may have applied it meanwhile.
pub fn still_applies(action: SchemaAction, inner: i32) -> (r: bool)
    ensures
        r == action_applies(action, inner as int),
{
    match action {
        SchemaAction::Skip => false,
        SchemaAction::CreateBase => inner == 0,
        SchemaAction::FixTimestamps => inner == 1,
        SchemaAction::Migrate(v) => inner < v,
    }
}

/// The version that an action leaves behind; that of the base schema where it
/// leaves the database alone.
pub fn version_set_by(action: SchemaAction) -> (v: i32)
    ensures
        action matches SchemaAction::Migrate(target) ==> v == target,
        !(action is Migrate) ==> v == SCHEMA_VERSION,
{
    match action {
        SchemaAction::Migrate(v) => v,
        _ => SCHEMA_VERSION,
    }
}

/// Check the version that a database has after all stages.
pub fn accept_version(current: i32) -> (r: Result<(), DbError>)
    ensures
        match r {
            Ok(_) => current <= MAX_KNOWN_VERSION,
            Err(e) => current > MAX_KNOWN_VERSION && e == (DbError::VersionMismatch {
                found: current,
                expected: MAX_KNOWN_VERSION,
            }),
        },
{
    if current > MAX_KNOWN_VERSION {
        return Err(DbError::VersionMismatch { found: current, expected: MAX_KNOWN_VERSION });
    }
    Ok(())
}

/// The actions of all stages from `stage` on, those that skip left out.
pub open spec fn actions_from(stage: int, current: int) -> Seq<SchemaAction>
    decreases MAX_KNOWN_VERSION + 1 - stage,
{
    if stage > MAX_KNOWN_VERSION {
        seq![]
    } else {
        let rest = actions_from(stage + 1, version_after(stage, current));
        if action_at(stage, current) == SchemaAction::Skip {
            rest
        } else {
            seq![action_at(stage, current)] + rest
        }
    }
}

/// All that [`schema_action`] asks for on the way of a database from version
/// `current` to the latest, or the error for one that is newer.
///
/// - Version 0 is a fresh database: the base schema, then every migration.
/// - Version 1: the timestamps, then every migration.
/// - A later version: the pending migrations alone, none for the latest.
/// - A version above the latest is rejected.
pub fn plan_schema(current: i32) -> (r: Result<Vec<SchemaAction>, DbError>)
    ensures
        match r {
            Ok(actions) => current <= MAX_KNOWN_VERSION && actions@ == actions_from(
                SCHEMA_VERSION as int,
                current as int,
            ),
            Err(e) => current > MAX_KNOWN_VERSION && e == (DbError::VersionMismatch {
                found: current,
                expected: MAX_KNOWN_VERSION,
            }),
        },
{
    let mut out: Vec<SchemaAction> = Vec::new();
    let mut version = current;
    let mut stage: i32 = SCHEMA_VERSION;
    let ghost all = actions_from(SCHEMA_VERSION as int, current as int);
    assert(out@ + all =~= all);
    proof {
        lemma_schema_reaches(SCHEMA_VERSION as int, current as int);
    }
    while stage <= MAX_KNOWN_VERSION
        invariant
            SCHEMA_VERSION <= stage <= MAX_KNOWN_VERSION + 1,
            out@ + actions_from(stage as int, version as int) == all,
            version_from(stage as int, version as int) == version_from(
                SCHEMA_VERSION as int,
                current as int,
            ),
        decreases MAX_KNOWN_VERSION + 1 - stage,
    {
        let action = schema_action(stage, version);
        let ghost before = out@;
        match action {
            SchemaAction::Skip => {},
            _ => {
                out.push(action);
                version = version_set_by(action);
                assert(out@ + actions_from(stage + 1, version as int) =~= before + (seq![action]
                    + actions_from(stage + 1, version as int)));
            },
        }
        stage += 1;
    }
    assert(out@ + actions_from(stage as int, version as int) =~= out@);
    match accept_version(version) {
        Ok(_) => Ok(out),
        Err(e) => Err(e),
    }
}

/// Every database that is not newer reaches exactly the latest version, and a
/// newer one is left as it is.
pub proof fn lemma_schema_reaches(stage: int, current: int)
    requires
        SCHEMA_VERSION <= stage <= MAX_KNOWN_VERSION,
    ensures
        version_from(stage, current) == if current <= MAX_KNOWN_VERSION {
            MAX_KNOWN_VERSION as int
        } else {
            current
        },
    decreases MAX_KNOWN_VERSION + 1 - stage,
{
    if stage == MAX_KNOWN_VERSION {
        assert(version_from(stage + 1, version_after(stage, current)) == version_after(
            stage,
            current,
        ));
    } else {
        lemma_schema_reaches(stage + 1, version_after(stage, current));
    }
}

/// A database that is current is left alone.
pub proof fn lemma_schema_idempotent(stage: int)
    requires
        SCHEMA_VERSION <= stage,
    ensures
        actions_from(stage, MAX_KNOWN_VERSION as int) == Seq::<SchemaAction>::empty(),
    decreases MAX_KNOWN_VERSION + 1 - stage,
{
    if stage <= MAX_KNOWN_VERSION {
        lemma_schema_idempotent(stage + 1);
    }
}

/// A stage that another process has applied meanwhile is not applied again.
pub proof fn lemma_stage_not_repeated(stage: int, current: int)
    requires
        SCHEMA_VERSION <= stage <= MAX_KNOWN_VERSION,
    ensures
        !action_applies(action_at(stage, current), version_after(stage, current)),
{
}

} // verus!
