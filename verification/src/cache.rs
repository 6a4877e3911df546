//! Cross-session cache logic.
//!
//! 1. The repository root is resolved once per session.
//! 2. `HEAD` and the state of the worktree are read afresh for every lookup; a
//!    dirty worktree skips the cache, for reading and for writing.
//! 3. The parameters of the call are normalized and hashed.
//! 4. The hash is looked up in the index of the global DB.
//!
//! Every failure falls through to session-only storage.

use crate::global_db::CacheLookup;
use crate::json;
use crate::json::{Json, JsonView};
use crate::number;
use crate::settings;
use crate::text;
use vstd::prelude::*;
use vstd::string::*;
use vstd::utf8::*;

verus! {

// ---------------------------------------------------------------------------
// Answers of git
// ---------------------------------------------------------------------------

/// What a git command answered.
#[derive(Debug)]
pub struct GitOutput {
    pub success: bool,
    pub stdout: Vec<u8>,
}

/// The text that `String::from_utf8_lossy` reads from bytes.
pub uninterp spec fn lossy(bytes: Seq<u8>) -> Seq<char>;

/// Calls `String::from_utf8_lossy`. Trusted: the text is a function of the
/// bytes, and of UTF-8 it is the text that they encode.
#[verifier::external_body]
pub(crate) fn lossy_text(bytes: &[u8]) -> (s: String)
    ensures
        s@ == lossy(bytes@),
        valid_utf8(bytes@) ==> encode_utf8(s@) == bytes@,
{
    String::from_utf8_lossy(bytes).into_owned()
}

/// The text of an answer of git, where it is a success.
pub open spec fn git_text(out: Option<GitOutput>) -> Option<Seq<char>> {
    match out {
        Some(o) => if o.success {
            Some(text::trimmed(lossy(o.stdout@)))
        } else {
            None
        },
        None => None,
    }
}

/// The text of an answer of git, where it is a success. `None` stands for git
/// that could not be run.
fn read_git_text(out: &Option<GitOutput>) -> (r: Option<String>)
    ensures
        match r {
            Some(s) => git_text(*out) == Some(s@),
            None => git_text(*out) is None,
        },
{
    match out {
        Some(o) => if o.success {
            let all = lossy_text(o.stdout.as_slice());
            let chars = text::chars_of(all.as_str());
            Some(text::string_of(text::trim(chars.as_slice())))
        } else {
            None
        },
        None => None,
    }
}

/// The worktree counts as dirty: git says so, or could not say.
pub open spec fn is_dirty_answer(out: Option<GitOutput>) -> bool {
    match out {
        Some(o) => !o.success || o.stdout@.len() > 0,
        None => true,
    }
}

// ---------------------------------------------------------------------------
// CacheContext
// ---------------------------------------------------------------------------

/// Per-session cache state.
///
/// `repo_root` is resolved once and kept. `HEAD` and the state of the worktree
/// are asked for afresh on every call.
#[derive(Debug)]
pub struct CacheContext {
    /// Absolute path to the git repository root. `None` when the session is
    /// not inside a git repository or `git` is not available.
    pub repo_root: Option<String>,
    /// Working directory of git commands. `None` uses the process's current
    /// directory.
    pub cwd: Option<String>,
}

impl CacheContext {
    /// Create a `CacheContext` from what `git rev-parse --show-toplevel`
    /// answered.
    ///
    /// On any error (not in a git repo, git unavailable) `repo_root` is `None`.
    pub fn new(toplevel: Option<GitOutput>) -> (c: Self)
        ensures
            c.cwd is None,
            match c.repo_root {
                Some(r) => git_text(toplevel) == Some(r@),
                None => git_text(toplevel) is None,
            },
    {
        Self::with_cwd(None, toplevel)
    }

    /// Create a `CacheContext` with an explicit working directory.
    pub fn with_cwd(cwd: Option<String>, toplevel: Option<GitOutput>) -> (c: Self)
        ensures
            c.cwd == cwd,
            match c.repo_root {
                Some(r) => git_text(toplevel) == Some(r@),
                None => git_text(toplevel) is None,
            },
    {
        let repo_root = read_git_text(&toplevel);
        CacheContext { repo_root, cwd }
    }

    /// The current `HEAD` SHA, from what `git rev-parse HEAD` answered. `None`
    /// on failure.
    pub fn git_head(&self, answer: Option<GitOutput>) -> (r: Option<String>)
        ensures
            match r {
                Some(s) => git_text(answer) == Some(s@),
                None => git_text(answer) is None,
            },
    {
        read_git_text(&answer)
    }

    /// Whether the working tree is dirty, from what
    /// `git status --porcelain=v2 --untracked-files=no` answered. `true` on any
    /// error, so that the cache is skipped.
    pub fn is_dirty(&self, answer: Option<GitOutput>) -> (r: bool)
        ensures
            r == is_dirty_answer(answer),
    {
        match answer {
            Some(o) => !o.success || o.stdout.len() > 0,
            None => true,
        }
    }
}

// ---------------------------------------------------------------------------
// Param normalization + hashing
// ---------------------------------------------------------------------------

/// The parameters without what belongs to one session.
pub open spec fn without_session(tree: JsonView) -> JsonView {
    match tree {
        JsonView::Object(members) => JsonView::Object(
            json::without_member(members, "session_id"@),
        ),
        _ => tree,
    }
}

/// The canonical form of parsed parameters.
pub open spec fn normal_tree(tree: JsonView) -> JsonView {
    json::sorted_keys(without_session(tree))
}

/// Bring parsed parameters into canonical form: `session_id` left out, keys
/// sorted on every level. The working directory stays: it affects the output of
/// a command.
pub fn normalize_tree(tree: &Json) -> (j: Json)
    ensures
        j@ == normal_tree(tree@),
{
    proof {
        json::lemma_view(*tree);
    }
    match tree {
        Json::Object(members) => {
            let kept = Json::Object(json::drop_member(members.as_slice(), "session_id"));
            proof {
                json::lemma_view(kept);
            }
            json::sort_json_keys(&kept)
        },
        _ => json::sort_json_keys(tree),
    }
}

/// What the canonical text of parsed parameters holds.
pub open spec fn canonical_params(tree: JsonView) -> JsonView {
    json::canonical(normal_tree(tree))
}

/// The canonical text of parameters.
pub open spec fn normalized(params: Seq<char>) -> Seq<char> {
    match json::parsed(params) {
        Some(tree) => json::compact(canonical_params(tree)),
        None => params,
    }
}

/// Normalize a JSON params string for stable hashing.
///
/// - Parses the JSON.
/// - Removes `session_id` (session-specific, must not affect cache key).
/// - Re-serializes with keys sorted alphabetically and no extra whitespace.
///
/// Falls back to the original string on parse failure: a bad payload will
/// simply always miss.
///
/// Where every number is whole, the result is JSON again, and normalizing it once
/// more leaves it as it is.
pub fn normalize_params(params_json: &str) -> (s: String)
    ensures
        s@ == normalized(params_json@),
        match json::parsed(params_json@) {
            Some(tree) => json::has_integers(tree) ==> json::parsed(s@) == Some(
                canonical_params(tree),
            ) && normalized(s@) == s@,
            None => normalized(s@) == s@,
        },
{
    match Json::parse(params_json) {
        Some(tree) => {
            let normal = normalize_tree(&tree);
            proof {
                if json::has_integers(tree@) {
                    let levels = choose|levels: nat| json::integral(tree@, levels);
                    json::lemma_integral_nests(tree@, levels, json::READ_LEVELS as nat);
                    lemma_normal_same(tree@, json::READ_LEVELS as nat);
                }
            }
            normal.to_text()
        },
        None => params_json.to_owned(),
    }
}

/// The 128-bit hash that xxh3 gives of bytes.
pub uninterp spec fn xxh3_of(data: Seq<u8>) -> u128;

/// Calls `xxhash_rust::xxh3::xxh3_128`. Trusted: the hash is a function of the
/// bytes.
#[verifier::external_body]
fn hash_bytes(data: &[u8]) -> (h: u128)
    ensures
        h == xxh3_of(data@),
{
    xxhash_rust::xxh3::xxh3_128(data)
}

/// A hash as 32 hex digits.
pub fn hash_hex(hash: u128) -> (s: String)
    ensures
        s@ == number::hex(hash as nat, 32),
        s@.len() == 32,
{
    let mut s = String::new();
    number::push_hex(&mut s, hash, 32);
    proof {
        number::lemma_hex_len(hash as nat, 32);
        assert(s@ =~= number::hex(hash as nat, 32));
    }
    s
}

/// The hash of a text as 32 hex digits.
pub open spec fn text_hash(data: Seq<char>) -> Seq<char> {
    number::hex(xxh3_of(encode_utf8(data)) as nat, 32)
}

/// Compute the xxh128 hash of `data` and return it as a lowercase hex string.
pub fn xxh128_hex(data: &str) -> (s: String)
    ensures
        s@ == text_hash(data@),
        s@.len() == 32,
{
    hash_hex(hash_bytes(data.as_bytes()))
}

// ---------------------------------------------------------------------------
// Cache check
// ---------------------------------------------------------------------------

/// Outcome of a cache check operation.
#[derive(Debug)]
pub enum CacheCheckResult {
    /// Cache hit: the blob is stored already.
    Hit { blob_id: i64, created_at: String },
    /// Cache miss: git HEAD changed since last store.
    MissHeadChanged,
    /// Cache miss: no entry found for these params.
    MissNoMatch,
    /// Cache is unavailable (dirty worktree, no git repo, DB error).
    Unavailable(String),
}

/// The text of an outcome.
pub open spec fn outcome_text(r: CacheCheckResult) -> Seq<char> {
    match r {
        CacheCheckResult::Hit { blob_id, created_at } => "cache hit: blob_id="@
            + number::signed_decimal(blob_id as int) + ", stored "@ + created_at@,
        CacheCheckResult::MissHeadChanged => "cache miss: git_head changed"@,
        CacheCheckResult::MissNoMatch => "cache miss: no match"@,
        CacheCheckResult::Unavailable(reason) => "cache unavailable: "@ + reason@,
    }
}

impl CacheCheckResult {
    /// The text of the outcome.
    pub fn to_text(&self) -> (s: String)
        ensures
            s@ == outcome_text(*self),
    {
        match self {
            CacheCheckResult::Hit { blob_id, created_at } => {
                let mut s = "cache hit: blob_id=".to_owned();
                number::push_signed(&mut s, *blob_id);
                s.append(", stored ");
                s.append(created_at.as_str());
                s
            },
            CacheCheckResult::MissHeadChanged => "cache miss: git_head changed".to_owned(),
            CacheCheckResult::MissNoMatch => "cache miss: no match".to_owned(),
            CacheCheckResult::Unavailable(reason) => {
                let mut s = "cache unavailable: ".to_owned();
                s.append(reason.as_str());
                s
            },
        }
    }
}

/// The key of a cache entry.
#[derive(Debug)]
pub struct CacheKey {
    pub repo_root: String,
    pub tool: String,
    /// `None` asks for an entry of any mode.
    pub output_mode: Option<String>,
    pub param_hash: String,
    pub git_head: String,
}

/// `key` is the key of a call in a repository at `head`.
pub open spec fn is_key_of(
    key: CacheKey,
    repo_root: Seq<char>,
    tool: Seq<char>,
    output_mode: Option<Seq<char>>,
    params: Seq<char>,
    head: Seq<char>,
) -> bool {
    &&& key.repo_root@ == repo_root
    &&& key.tool@ == tool
    &&& match key.output_mode {
        Some(m) => output_mode == Some(m@),
        None => output_mode is None,
    }
    &&& key.param_hash@ == text_hash(normalized(params))
    &&& key.git_head@ == head
}

/// What a cache check needs to know next.
#[derive(Debug)]
pub enum CacheQuestion {
    /// Whether the worktree is dirty.
    Dirty,
    /// The SHA of `HEAD`.
    Head,
    /// The entry under a key.
    Lookup(CacheKey),
    /// The number of entries under a key, whatever their `HEAD`.
    Count,
    /// Nothing: the check is done.
    Done(CacheCheckResult),
}

/// The cache is not available, for this reason.
pub open spec fn is_unavailable(q: CacheQuestion, reason: Seq<char>) -> bool {
    q matches CacheQuestion::Done(CacheCheckResult::Unavailable(r)) && r@ == reason
}

/// Start a cache check: outside a repository there is no cache.
pub fn check_start(ctx: &CacheContext) -> (q: CacheQuestion)
    ensures
        ctx.repo_root is None ==> is_unavailable(q, "not in a git repository"@),
        ctx.repo_root is Some ==> q is Dirty,
{
    match &ctx.repo_root {
        Some(_) => CacheQuestion::Dirty,
        None => CacheQuestion::Done(
            CacheCheckResult::Unavailable("not in a git repository".to_owned()),
        ),
    }
}

/// Go on with a cache check: a dirty worktree has no cache.
pub fn check_dirty(dirty: bool) -> (q: CacheQuestion)
    ensures
        dirty ==> is_unavailable(q, "dirty worktree"@),
        !dirty ==> q is Head,
{
    if dirty {
        CacheQuestion::Done(CacheCheckResult::Unavailable("dirty worktree".to_owned()))
    } else {
        CacheQuestion::Head
    }
}

/// Go on with a cache check: with the SHA of `HEAD`, ask for the entry of the
/// call.
pub fn check_head(
    repo_root: &str,
    tool: &str,
    output_mode: Option<&str>,
    params_json: &str,
    head: Option<String>,
) -> (q: CacheQuestion)
    ensures
        match head {
            Some(h) => q matches CacheQuestion::Lookup(key) && is_key_of(
                key,
                repo_root@,
                tool@,
                settings::env_view(output_mode),
                params_json@,
                h@,
            ),
            None => is_unavailable(q, "could not resolve HEAD"@),
        },
{
    match head {
        Some(h) => CacheQuestion::Lookup(cache_key(repo_root, tool, output_mode, params_json, h)),
        None => CacheQuestion::Done(
            CacheCheckResult::Unavailable("could not resolve HEAD".to_owned()),
        ),
    }
}

/// The key of a call in a repository at `head`.
pub fn cache_key(
    repo_root: &str,
    tool: &str,
    output_mode: Option<&str>,
    params_json: &str,
    head: String,
) -> (key: CacheKey)
    ensures
        is_key_of(
            key,
            repo_root@,
            tool@,
            settings::env_view(output_mode),
            params_json@,
            head@,
        ),
{
    let normal = normalize_params(params_json);
    let mode = match output_mode {
        Some(m) => Some(m.to_owned()),
        None => None,
    };
    CacheKey {
        repo_root: repo_root.to_owned(),
        tool: tool.to_owned(),
        output_mode: mode,
        param_hash: xxh128_hex(normal.as_str()),
        git_head: head,
    }
}

/// Go on with a cache check: a miss asks whether `HEAD` has changed.
pub fn check_lookup(found: Result<Option<CacheLookup>, String>) -> (q: CacheQuestion)
    ensures
        match found {
            Ok(Some(hit)) => q == CacheQuestion::Done(
                CacheCheckResult::Hit { blob_id: hit.blob_id, created_at: hit.created_at },
            ),
            Ok(None) => q is Count,
            Err(m) => is_unavailable(q, m@),
        },
{
    match found {
        Ok(Some(hit)) => CacheQuestion::Done(
            CacheCheckResult::Hit { blob_id: hit.blob_id, created_at: hit.created_at },
        ),
        Ok(None) => CacheQuestion::Count,
        Err(m) => CacheQuestion::Done(CacheCheckResult::Unavailable(m)),
    }
}

/// End a cache check: entries of another `HEAD` tell a change from a miss.
pub fn check_count(entries: i64) -> (r: CacheCheckResult)
    ensures
        r == if entries > 0 {
            CacheCheckResult::MissHeadChanged
        } else {
            CacheCheckResult::MissNoMatch
        },
{
    if entries > 0 {
        CacheCheckResult::MissHeadChanged
    } else {
        CacheCheckResult::MissNoMatch
    }
}

/// What every question of a cache check is answered.
#[derive(Debug)]
pub struct CacheAnswers {
    pub dirty: bool,
    pub head: Option<String>,
    pub found: Result<Option<CacheLookup>, String>,
    pub entries: i64,
}

/// The outcome of a cache check. Each answer counts only where all before it
/// let the check go on.
pub fn cache_check(ctx: &CacheContext, answers: CacheAnswers) -> (r: CacheCheckResult)
    ensures
        ctx.repo_root is None ==> (r matches CacheCheckResult::Unavailable(m) && m@
            == "not in a git repository"@),
        ctx.repo_root is Some && answers.dirty ==> (r matches CacheCheckResult::Unavailable(m)
            && m@ == "dirty worktree"@),
        ctx.repo_root is Some && !answers.dirty && answers.head is None ==> (r
            matches CacheCheckResult::Unavailable(m) && m@ == "could not resolve HEAD"@),
        ctx.repo_root is Some && !answers.dirty && answers.head is Some ==> match answers.found {
            Ok(Some(hit)) => r == (CacheCheckResult::Hit {
                blob_id: hit.blob_id,
                created_at: hit.created_at,
            }),
            Ok(None) => r == if answers.entries > 0 {
                CacheCheckResult::MissHeadChanged
            } else {
                CacheCheckResult::MissNoMatch
            },
            Err(m) => r == CacheCheckResult::Unavailable(m),
        },
{
    match &ctx.repo_root {
        None => CacheCheckResult::Unavailable("not in a git repository".to_owned()),
        Some(_) => if answers.dirty {
            CacheCheckResult::Unavailable("dirty worktree".to_owned())
        } else if answers.head.is_none() {
            CacheCheckResult::Unavailable("could not resolve HEAD".to_owned())
        } else {
            match answers.found {
                Ok(Some(hit)) => CacheCheckResult::Hit {
                    blob_id: hit.blob_id,
                    created_at: hit.created_at,
                },
                Ok(None) => check_count(answers.entries),
                Err(m) => CacheCheckResult::Unavailable(m),
            }
        },
    }
}

// ---------------------------------------------------------------------------
// Laws
// ---------------------------------------------------------------------------

/// The canonical form of parameters does not depend on the order in which the
/// members of their objects stand.
pub proof fn lemma_normal_ignores_order(a: JsonView, b: JsonView)
    requires
        json::same_up_to_order(a, b),
    ensures
        normal_tree(a) == normal_tree(b),
{
    match (a, b) {
        (JsonView::Object(x), JsonView::Object(y)) => {
            let key = "session_id"@;
            let s = json::without_member(x, key);
            let t = json::without_member(y, key);
            json::lemma_without_member(x, key);
            json::lemma_without_member(y, key);
            assert forall|i: int| 0 <= i < s.len() implies json::has_match(#[trigger] s[i], t) by {
                assert(s.contains(s[i]));
                let p = choose|p: int| 0 <= p < x.len() && x[p] == s[i];
                assert(json::has_match(x[p], y));
                let q = choose|q: int|
                    0 <= q < y.len() && x[p].0 == (#[trigger] y[q]).0 && json::same_up_to_order(
                        x[p].1,
                        y[q].1,
                    );
                assert(y.contains(y[q]));
                assert(t.contains(y[q]));
                let j = choose|j: int| 0 <= j < t.len() && t[j] == y[q];
                assert(s[i].0 == t[j].0);
            }
            assert forall|j: int| 0 <= j < t.len() implies json::is_matched(s, #[trigger] t[j]) by {
                assert(t.contains(t[j]));
                let q = choose|q: int| 0 <= q < y.len() && y[q] == t[j];
                assert(json::is_matched(x, y[q]));
                let p = choose|p: int|
                    0 <= p < x.len() && (#[trigger] x[p]).0 == y[q].0 && json::same_up_to_order(
                        x[p].1,
                        y[q].1,
                    );
                assert(x.contains(x[p]));
                assert(s.contains(x[p]));
                let i = choose|i: int| 0 <= i < s.len() && s[i] == x[p];
                assert(s[i].0 == t[j].0);
            }
            assert(json::same_up_to_order(JsonView::Object(s), JsonView::Object(t)));
            json::lemma_sorted_keys_canonical(JsonView::Object(s), JsonView::Object(t));
        },
        _ => {
            json::lemma_sorted_keys_canonical(a, b);
        },
    }
}

/// The session does not affect the canonical form of parameters: whatever
/// stands under `session_id`, or nothing, gives the same form.
pub proof fn lemma_normal_ignores_session(members: Seq<(Seq<char>, JsonView)>, session: JsonView)
    ensures
        normal_tree(JsonView::Object(members.push(("session_id"@, session)))) == normal_tree(
            JsonView::Object(members),
        ),
{
    assert(members.push(("session_id"@, session)).drop_last() =~= members);
}

/// Parameters that agree up to the order of members, `session_id` left aside, have
/// one normalized text, and so one hash.
pub proof fn lemma_one_hash(p: Seq<char>, q: Seq<char>, a: JsonView, b: JsonView)
    requires
        json::parsed(p) == Some(a),
        json::parsed(q) == Some(b),
        json::same_up_to_order(without_session(a), without_session(b)),
    ensures
        normalized(p) == normalized(q),
        text_hash(normalized(p)) == text_hash(normalized(q)),
{
    json::lemma_sorted_keys_canonical(without_session(a), without_session(b));
}

/// Canonical parameters stay as they are, and keep levels and whole numbers.
pub proof fn lemma_normal_same(tree: JsonView, levels: nat)
    requires
        json::integral(tree, levels),
    ensures
        json::integral(canonical_params(tree), levels),
        canonical_params(canonical_params(tree)) == canonical_params(tree),
{
    let kept = without_session(tree);
    let out = canonical_params(tree);
    match tree {
        JsonView::Object(members) => {
            let rest = json::without_member(members, "session_id"@);
            json::lemma_without_member(members, "session_id"@);
            assert forall|i: int| 0 <= i < rest.len() implies json::integral(
                (#[trigger] rest[i]).1,
                (levels - 1) as nat,
            ) && rest[i].0 != "session_id"@ by {
                assert(rest.contains(rest[i]));
                let k = choose|k: int| 0 <= k < members.len() && members[k] == rest[i];
                assert(json::integral(members[k].1, (levels - 1) as nat));
            }
            json::lemma_key_stays_out(rest, "session_id"@);
        },
        _ => {
            json::lemma_canonical(json::sorted_keys(tree));
        },
    }
    json::lemma_sorted_integral(kept, levels);
    json::lemma_canonical_ordered(json::sorted_keys(kept), levels);
    json::lemma_ordered_same(out, levels);
    assert(without_session(out) == out);
}

/// Canonical parameters have no `session_id`.
pub proof fn lemma_normal_has_no_session(members: Seq<(Seq<char>, JsonView)>)
    ensures
        canonical_params(JsonView::Object(members)) matches JsonView::Object(out) && (forall|i: int|
            0 <= i < out.len() ==> (#[trigger] out[i]).0 != "session_id"@),
{
    let rest = json::without_member(members, "session_id"@);
    json::lemma_without_member(members, "session_id"@);
    assert forall|i: int| 0 <= i < rest.len() implies (#[trigger] rest[i]).0 != "session_id"@ by {
        assert(rest.contains(rest[i]));
    }
    json::lemma_key_stays_out(rest, "session_id"@);
}

/// Canonical parameters keep every member but `session_id`: its key, and its
/// value in canonical form.
pub proof fn lemma_normal_keeps(members: Seq<(Seq<char>, JsonView)>, key: Seq<char>, value: JsonView)
    requires
        json::distinct_keys(members),
        members.contains((key, value)),
        key != "session_id"@,
    ensures
        canonical_params(JsonView::Object(members)) matches JsonView::Object(out) && out.contains(
            (key, json::canonical(json::sorted_keys(value))),
        ),
{
    let rest = json::without_member(members, "session_id"@);
    json::lemma_without_member(members, "session_id"@);
    assert(rest.contains((key, value)));
    json::lemma_member_kept(rest, key, value);
}

} // verus!
