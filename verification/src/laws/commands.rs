//! Laws of the commands: what they take and what they print.

use crate::cli::report;
use crate::cli::request;
use crate::cli::request::{SearchArgError, SearchArgs, SearchRequest};
use crate::cli::route;
use crate::cli::session;
use crate::compress::grep_dedup;
use crate::compress::grep_preview;
use crate::json;
use crate::json::JsonView;
use crate::laws::grep as grep_laws;
use crate::laws::text as text_laws;
use crate::number;
use crate::pieces;
use crate::preview;
use crate::retrieve::find;
use crate::retrieve::rows;
use crate::retrieve::rows::{CallRecord, HandleEntry, InspectResult};
use crate::search;
use crate::store;
use crate::store::HandleRow;
use crate::text;
use vstd::prelude::*;
use vstd::string::*;

verus! {

// ---------------------------------------------------------------------------
// Search results
// ---------------------------------------------------------------------------

/// Each line with a line break.
pub open spec fn each_ended(matches: Seq<(Seq<char>, Seq<char>, Seq<char>)>) -> Seq<char>
    decreases matches.len(),
{
    if matches.len() == 0 {
        seq![]
    } else {
        matches[0].2 + "\n"@ + each_ended(matches.skip(1))
    }
}

proof fn lemma_each_ended_push(
    matches: Seq<(Seq<char>, Seq<char>, Seq<char>)>,
    m: (Seq<char>, Seq<char>, Seq<char>),
)
    ensures
        each_ended(matches.push(m)) == each_ended(matches) + m.2 + "\n"@,
    decreases matches.len(),
{
    let longer = matches.push(m);
    if matches.len() == 0 {
        assert(longer.skip(1) =~= matches);
        assert(each_ended(longer) =~= each_ended(matches) + m.2 + "\n"@);
    } else {
        assert(longer.skip(1) =~= matches.skip(1).push(m));
        lemma_each_ended_push(matches.skip(1), m);
        assert(each_ended(longer) =~= each_ended(matches) + m.2 + "\n"@);
    }
}

/// The matches of one handle are printed under one header, each on a line of its
/// own.
pub proof fn lemma_one_group(matches: Seq<(Seq<char>, Seq<char>, Seq<char>)>)
    requires
        matches.len() > 0,
        forall|i: int| 0 <= i < matches.len() ==> (#[trigger] matches[i]).0 == matches[0].0,
    ensures
        find::grouped_text(matches) == "--- "@ + matches[0].0 + " ("@ + matches[0].1 + ") ---\n"@
            + each_ended(matches),
    decreases matches.len(),
{
    let head = matches.drop_last();
    let m = matches.last();
    let lead = "--- "@ + matches[0].0 + " ("@ + matches[0].1 + ") ---\n"@;
    assert(matches =~= head.push(m));
    lemma_each_ended_push(head, m);
    if matches.len() == 1 {
        assert(find::grouped_text(head) =~= seq![]);
        assert(each_ended(head) =~= seq![]);
        assert(find::grouped_text(matches) =~= lead + each_ended(matches));
    } else {
        assert(head[0] == matches[0]);
        assert forall|i: int| 0 <= i < head.len() implies (#[trigger] head[i]).0
            == head[0].0 by {
            assert(head[i] == matches[i]);
        }
        lemma_one_group(head);
        assert(matches[matches.len() - 2].0 == m.0) by {
            assert(matches[matches.len() - 1].0 == matches[0].0);
        }
        assert(find::grouped_text(matches) =~= lead + each_ended(matches));
    }
}

/// Matches of several handles are printed in groups, with an empty line between
/// them.
pub proof fn lemma_groups_apart(
    a: Seq<(Seq<char>, Seq<char>, Seq<char>)>,
    b: Seq<(Seq<char>, Seq<char>, Seq<char>)>,
)
    requires
        a.len() > 0,
        b.len() > 0,
        a.last().0 != b[0].0,
    ensures
        find::grouped_text(a + b) == find::grouped_text(a) + "\n"@ + find::grouped_text(b),
    decreases b.len(),
{
    let all = a + b;
    let head = b.drop_last();
    let m = b.last();
    assert(all.drop_last() =~= a + head);
    assert(all.last() == m);
    if b.len() == 1 {
        assert(a + head =~= a);
        assert(all[all.len() - 2] == a.last());
        assert(find::grouped_text(head) =~= seq![]);
        assert(find::grouped_text(all) =~= find::grouped_text(a) + "\n"@ + find::grouped_text(b));
    } else {
        assert(head[0] == b[0]);
        lemma_groups_apart(a, head);
        assert(all[all.len() - 2] == b[b.len() - 2]);
        assert(find::grouped_text(all) =~= find::grouped_text(a) + "\n"@ + find::grouped_text(b));
    }
}

/// Collapsed lines are printed each on a line of its own, with the number of
/// lines it stands for where that is more than one.
pub proof fn lemma_cluster_lines(
    a: Seq<(Seq<char>, nat)>,
    b: Seq<(Seq<char>, nat)>,
    line: Seq<char>,
    count: nat,
)
    ensures
        grep_dedup::cluster_text(a + b) == grep_dedup::cluster_text(a) + grep_dedup::cluster_text(
            b,
        ),
        count <= 1 ==> grep_dedup::cluster_text(seq![(line, count)]) == line + "\n"@,
        count > 1 ==> grep_dedup::cluster_text(seq![(line, count)]) == line + "  [×"@
            + number::decimal(count) + "]\n"@,
    decreases b.len(),
{
    let one = seq![(line, count)];
    assert(one.drop_last() =~= Seq::<(Seq<char>, nat)>::empty());
    assert(grep_dedup::cluster_text(one.drop_last()) =~= seq![]);
    assert(one.last() == (line, count));
    if count > 1 {
        assert(grep_dedup::cluster_text(one) =~= line + "  [×"@ + number::decimal(count)
            + "]\n"@);
    } else {
        assert(grep_dedup::cluster_text(one) =~= line + "\n"@);
    }
    if b.len() == 0 {
        assert(a + b =~= a);
        assert(grep_dedup::cluster_text(a) + grep_dedup::cluster_text(b)
            =~= grep_dedup::cluster_text(a));
    } else {
        assert((a + b).drop_last() =~= a + b.drop_last());
        lemma_cluster_lines(a, b.drop_last(), line, count);
        assert(grep_dedup::cluster_text(a + b) =~= grep_dedup::cluster_text(a)
            + grep_dedup::cluster_text(b));
    }
}

/// A group is headed by its file and the number of its matches.
pub proof fn lemma_group_header(file: Seq<char>, count: nat, clusters: Seq<(Seq<char>, nat)>)
    ensures
        grep_dedup::group_text(file, count, clusters) == "=== "@ + file + " ("@ + number::decimal(
            count,
        ) + (if count == 1 {
            " match) ===\n"@
        } else {
            " matches) ===\n"@
        }) + grep_dedup::cluster_text(clusters) + "\n"@,
{
    reveal_strlit(" ");
    reveal_strlit("match");
    reveal_strlit("matches");
    reveal_strlit(") ===\n");
    reveal_strlit(" match) ===\n");
    reveal_strlit(" matches) ===\n");
    let lead = "=== "@ + file + " ("@ + number::decimal(count);
    assert(lead + " "@ + "match"@ + ") ===\n"@ =~= lead + " match) ===\n"@);
    assert(lead + " "@ + "matches"@ + ") ===\n"@ =~= lead + " matches) ===\n"@);
}

/// The preview of count-mode output is a heading, then the files of the ranking
/// with their counts, at most twenty or as many as the threshold says, then how
/// many more there are.
pub proof fn lemma_count_preview(content: Seq<char>, threshold: nat)
    ensures
        ({
            let counts = grep_preview::count_file_counts(content);
            let cap: nat = if threshold > 20 {
                threshold
            } else {
                20
            };
            let shown: nat = if counts.len() <= cap {
                counts.len()
            } else {
                cap
            };
            let listed = Seq::new(
                shown,
                |i: int| "  "@ + counts[i].0 + ": "@ + number::decimal(counts[i].1),
            );
            let more = if counts.len() > cap {
                "  ... ["@ + number::decimal((counts.len() - cap) as nat) + " more files]\n"@
            } else {
                Seq::<char>::empty()
            };
            grep_preview::count_preview(content, threshold) == text::trimmed_end(
                "Files with match counts:\n"@ + grep_laws::ended(listed) + more,
            )
        }),
{
    let counts = grep_preview::count_file_counts(content);
    let cap: nat = if threshold > 20 {
        threshold
    } else {
        20
    };
    let shown: nat = if counts.len() <= cap {
        counts.len()
    } else {
        cap
    };
    let listed = Seq::new(
        shown,
        |i: int| "  "@ + counts[i].0 + ": "@ + number::decimal(counts[i].1),
    );
    lemma_count_lines(counts.take(shown as int));
    assert(listed =~= counts.take(shown as int).map_values(
        |e: (Seq<char>, nat)| "  "@ + e.0 + ": "@ + number::decimal(e.1),
    ));
}

proof fn lemma_count_lines(entries: Seq<(Seq<char>, nat)>)
    ensures
        grep_preview::count_lines(entries) == grep_laws::ended(
            entries.map_values(
                |e: (Seq<char>, nat)| "  "@ + e.0 + ": "@ + number::decimal(e.1),
            ),
        ),
    decreases entries.len(),
{
    let line = |e: (Seq<char>, nat)| "  "@ + e.0 + ": "@ + number::decimal(e.1);
    let lines = entries.map_values(line);
    if entries.len() > 0 {
        lemma_count_lines(entries.drop_last());
        assert(lines.drop_last() =~= entries.drop_last().map_values(line));
        assert(grep_preview::count_lines(entries) =~= grep_laws::ended(lines));
    }
}

/// The message on captured grep output starts with what was captured and ends
/// with how to see it, and holds the preview of its mode.
pub proof fn lemma_grep_message(
    content: Seq<char>,
    mode: Seq<char>,
    handle: Seq<char>,
    num_matches: nat,
    num_files: nat,
    note: Seq<char>,
)
    ensures
        ({
            let message = grep_preview::grep_message(
                content,
                mode,
                handle,
                num_matches,
                num_files,
                note,
            );
            &&& "[ctxl] Grep output captured ("@.is_prefix_of(message)
            &&& ("ctxl show "@ + handle).is_suffix_of(message)
            &&& mode == "content"@ ==> ("[ctxl] Grep output captured ("@ + number::decimal(
                num_matches,
            ) + " matches, "@ + number::decimal(num_files) + " files"@ + note + ") → "@ + handle
                + "\n"@ + grep_preview::content_preview(content, 10)).is_prefix_of(message)
            &&& mode == "count"@ ==> ("[ctxl] Grep output captured (count mode"@ + note + ") → "@
                + handle + "\n"@ + grep_preview::count_preview(content, 10)).is_prefix_of(message)
        }),
{
    let message = grep_preview::grep_message(content, mode, handle, num_matches, num_files, note);
    reveal_strlit("[ctxl] Grep output captured (");
    reveal_strlit("[ctxl] Grep output captured (count mode");
    reveal_strlit("[ctxl] Grep output captured (unknown mode");
    reveal_strlit("ctxl show ");
    reveal_strlit("  |  ctxl show ");
    reveal_strlit("\nRun: ctxl show ");
    reveal_strlit("content");
    reveal_strlit("count");
    reveal_strlit("files_with_matches");
    assert("content"@.len() == 7 && "count"@.len() == 5 && "files_with_matches"@.len() == 18);
    let open = "[ctxl] Grep output captured ("@;
    let run = "ctxl show "@ + handle;
    let n = message.len() as int;
    assert("[ctxl] Grep output captured (count mode"@.subrange(0, 29) =~= open);
    assert("[ctxl] Grep output captured (unknown mode"@.subrange(0, 29) =~= open);
    assert("  |  ctxl show "@.subrange(5, 15) =~= "ctxl show "@);
    assert("\nRun: ctxl show "@.subrange(6, 16) =~= "ctxl show "@);
    assert(message.subrange(0, 29) =~= open);
    assert(message.subrange(n - run.len(), n) =~= run);
    if mode == "content"@ {
        let front = open + number::decimal(num_matches) + " matches, "@ + number::decimal(
            num_files,
        ) + " files"@ + note + ") → "@ + handle + "\n"@ + grep_preview::content_preview(
            content,
            10,
        );
        assert(message.subrange(0, front.len() as int) =~= front);
    } else if mode == "count"@ {
        let front = "[ctxl] Grep output captured (count mode"@ + note + ") → "@ + handle + "\n"@
            + grep_preview::count_preview(content, 10);
        assert(message.subrange(0, front.len() as int) =~= front);
    }
}

// ---------------------------------------------------------------------------
// Arguments
// ---------------------------------------------------------------------------

/// A search with a handle and a query asks for just these, by name or by place;
/// one without a query, or without a handle, is an error, as is one in which only
/// the query looks like a handle.
pub proof fn lemma_requested(handle: String, query: String)
    ensures
        ({
            let by_name = SearchArgs {
                handle_flag: Some(handle),
                handle: None,
                query_flag: Some(query),
                query_pos: None,
                all: false,
            };
            let by_place = SearchArgs {
                handle_flag: None,
                handle: Some(handle),
                query_flag: None,
                query_pos: Some(query),
                all: false,
            };
            let reversed = session::is_handle(query@) && !session::is_handle(handle@);
            &&& request::requested(by_name) == request::requested(by_place)
            &&& !reversed ==> request::requested(by_name) == Ok::<_, SearchArgError>(
                SearchRequest::Handle { handle, query },
            )
            &&& reversed ==> request::requested(by_name) == Err::<SearchRequest, _>(
                SearchArgError::Reversed,
            )
        }),
{
}

/// A search of all handles takes its query by name or by place, and no handle.
pub proof fn lemma_requested_all(args: SearchArgs)
    requires
        args.all,
    ensures
        match request::requested(args) {
            Ok(r) => r matches SearchRequest::All { query } && (args.query_flag == Some(query) || (
            args.query_flag is None && args.handle == Some(query))),
            Err(e) => e == SearchArgError::NoQueryForAll && args.query_flag is None && args.handle
                is None,
        },
{
}

/// What is missing is named: without a handle, whatever the query, the handle;
/// with one but without a query, the query.
pub proof fn lemma_requested_missing(args: SearchArgs)
    requires
        !args.all,
    ensures
        args.handle_flag is None && args.handle is None ==> request::requested(args) == Err::<
            SearchRequest,
            _,
        >(SearchArgError::NoHandle),
        (args.handle_flag is Some || args.handle is Some) && args.query_flag is None
            && args.query_pos is None ==> request::requested(args) == Err::<SearchRequest, _>(
            SearchArgError::NoQuery,
        ),
        args.handle_flag is Some ==> (request::requested(args) matches Ok(
            SearchRequest::Handle { handle, query },
        ) ==> Some(handle) == args.handle_flag),
        args.query_flag is Some ==> (request::requested(args) matches Ok(
            SearchRequest::Handle { handle, query },
        ) ==> Some(query) == args.query_flag),
{
}

// ---------------------------------------------------------------------------
// Tools
// ---------------------------------------------------------------------------

/// The class of a tool, by its name.
pub proof fn lemma_tool_classes(name: Seq<char>)
    ensures
        route::class_of(name) is Command <==> name == "Bash"@,
        route::class_of(name) is Search <==> name == "Grep"@,
        route::class_of(name) is RecordOnly <==> name == "Read"@ || name == "Edit"@ || name
            == "Write"@ || name == "Glob"@,
{
    reveal_strlit("Bash");
    reveal_strlit("Grep");
    reveal_strlit("Read");
    reveal_strlit("Edit");
    reveal_strlit("Write");
    reveal_strlit("Glob");
    assert("Bash"@[0] == 'B' && "Grep"@[0] == 'G' && "Grep"@[1] == 'r' && "Read"@[0] == 'R');
    assert("Edit"@[0] == 'E' && "Write"@[0] == 'W' && "Glob"@[0] == 'G' && "Glob"@[1] == 'l');
}

/// A command is one of this program's own where it is its name, alone or with
/// arguments, in whatever directory; behind white space too.
pub proof fn lemma_own_command(lead: Seq<char>, dir: Seq<char>, args: Seq<char>)
    requires
        text_laws::is_blank(lead),
        dir.len() > 0 ==> text_laws::is_word(dir),
        args.len() > 0 ==> args[0] == ' ',
    ensures
        route::is_own_command(lead + "ctxl"@ + args, None),
        route::is_own_command(lead + dir + "/ctxl"@ + args, None),
{
    reveal_strlit("ctxl");
    reveal_strlit("ctxl ");
    reveal_strlit("/ctxl");
    reveal_strlit("/.");
    reveal_strlit(".");
    reveal_strlit("..");
    let line = "ctxl"@ + args;
    assert(lead + "ctxl"@ + args =~= lead + line);
    assert(line[0] == 'c');
    text_laws::lemma_trimmed_start(lead, line);
    if args.len() == 0 {
        assert(line =~= "ctxl"@);
    } else {
        assert(line.subrange(0, 5) =~= "ctxl "@);
    }
    let path = dir + "/ctxl"@;
    let other = path + args;
    assert(lead + dir + "/ctxl"@ + args =~= lead + other);
    assert(text_laws::is_word(path)) by {
        assert forall|i: int| 0 <= i < path.len() implies !text::is_white_space(
            #[trigger] path[i],
        ) by {
            if i < dir.len() {
                assert(path[i] == dir[i]);
            } else {
                assert(path[i] == "/ctxl"@[i - dir.len()]);
            }
        }
    }
    assert(other[0] == path[0]);
    text_laws::lemma_trimmed_start(lead, other);
    text_laws::lemma_first_word(path, args);
    assert(pieces::words_of(other)[0] == path);
    assert(!"ctxl"@.contains('/'));
    assert(path =~= dir.push('/') + "ctxl"@);
    text_laws::lemma_after_last(dir, '/', "ctxl"@);
    assert(path.last() == 'l');
    assert("/."@[1] == '.');
    if "/."@.is_suffix_of(path) {
        assert(path.subrange(path.len() - 2, path.len() as int)[1] == path.last());
    }
    assert("ctxl"@.len() == 4 && "."@.len() == 1 && ".."@.len() == 2);
    assert(preview::file_name(path) == Some("ctxl"@));
}

/// A command whose first word is another name without a directory is not one of
/// this program's own.
pub proof fn lemma_foreign_command(word: Seq<char>, args: Seq<char>)
    requires
        text_laws::is_word(word),
        !word.contains('/'),
        word != "ctxl"@,
        args.len() > 0 ==> args[0] == ' ',
    ensures
        !route::is_own_command(word + args, None),
{
    reveal_strlit("ctxl");
    reveal_strlit("ctxl ");
    reveal_strlit("/.");
    let line = word + args;
    let none = Seq::<char>::empty();
    assert(line[0] == word[0]);
    text_laws::lemma_trimmed_start(none, line);
    assert(none + line =~= line);
    text_laws::lemma_first_word(word, args);
    assert(pieces::words_of(line)[0] == word);
    text_laws::lemma_after_last(none, '/', word);
    assert(word.contains(word.last()));
    if "/."@.is_suffix_of(word) && word.len() >= 2 {
        assert(word.subrange(word.len() - 2, word.len() as int)[0] == word[word.len() - 2]);
        assert(word.contains(word[word.len() - 2]));
    }
    if line == "ctxl"@ {
        if args.len() > 0 {
            assert(line[word.len() as int] == ' ');
        }
        assert(word =~= line);
    }
    if "ctxl "@.is_prefix_of(line) {
        assert(line.subrange(0, 5)[4] == line[4]);
        assert(line[4] == ' ');
        if word.len() > 4 {
            assert(text::is_white_space(word[4]));
        }
        if word.len() < 4 {
            assert(line[word.len() as int] == ' ');
            assert(line.subrange(0, 5)[word.len() as int] == line[word.len() as int]);
        }
        assert(word =~= line.subrange(0, 5).subrange(0, 4));
        assert("ctxl "@.subrange(0, 4) =~= "ctxl"@);
    }
}

// ---------------------------------------------------------------------------
// Reports
// ---------------------------------------------------------------------------

/// A column holds its text and is as wide as it should be.
pub proof fn lemma_columns(s: Seq<char>, width: nat, fill: char)
    ensures
        s.is_suffix_of(number::aligned_right(s, width, fill)),
        s.is_prefix_of(number::aligned_left(s, width)),
        number::aligned_right(s, width, fill).len() == if s.len() >= width {
            s.len()
        } else {
            width
        },
        number::aligned_left(s, width).len() == if s.len() >= width {
            s.len()
        } else {
            width
        },
{
    let r = number::aligned_right(s, width, fill);
    let l = number::aligned_left(s, width);
    assert(r.subrange(r.len() - s.len(), r.len() as int) =~= s);
    assert(l.subrange(0, s.len() as int) =~= s);
}

/// A row of the table of handles starts with the ID.
pub proof fn lemma_handle_row(
    id: Seq<char>,
    tool: Seq<char>,
    lines: Seq<char>,
    tokens: Seq<char>,
    retrievals: Seq<char>,
    created: Seq<char>,
)
    ensures
        id.is_prefix_of(report::handle_row(id, tool, lines, tokens, retrievals, created)),
        created.is_suffix_of(report::handle_row(id, tool, lines, tokens, retrievals, created)),
{
    let row = report::handle_row(id, tool, lines, tokens, retrievals, created);
    assert(row.subrange(0, id.len() as int) =~= id);
    assert(row.subrange(row.len() - created.len(), row.len() as int) =~= created);
}

/// The table of handles has a head and one row for each handle, in order, with
/// its ID, its tool, its lines, its tokens, its retrievals and its time.
pub proof fn lemma_handles_table(handles: Seq<HandleEntry>)
    requires
        handles.len() > 0,
    ensures
        report::handles_table(handles).len() == handles.len() + 1,
        forall|i: int|
            0 <= i < handles.len() ==> report::handles_table(handles)[i + 1] == report::handle_row(
                (#[trigger] handles[i]).id@,
                handles[i].tool@,
                report::number_or_dash(""@, handles[i].line_count),
                report::number_or_dash(""@, handles[i].token_est),
                number::signed_decimal(handles[i].retrieval_count as int),
                crate::cli::epoch::shown_time(handles[i].created_at as int),
            ),
{
    let table = report::handles_table(handles);
    assert forall|i: int| 0 <= i < handles.len() implies table[i + 1] == report::handle_row(
        (#[trigger] handles[i]).id@,
        handles[i].tool@,
        report::number_or_dash(""@, handles[i].line_count),
        report::number_or_dash(""@, handles[i].token_est),
        number::signed_decimal(handles[i].retrieval_count as int),
        crate::cli::epoch::shown_time(handles[i].created_at as int),
    ) by {
        assert(table[i + 1] == report::entry_row(handles[i]));
    }
}

/// A handle as JSON has its ID, its tool and its counts.
pub proof fn lemma_entry_members(h: HandleEntry)
    ensures
        report::entry_tree(h) matches JsonView::Object(m) && m.contains(
            ("id"@, JsonView::Text(h.id@)),
        ) && m.contains(("tool"@, JsonView::Text(h.tool@))) && m.contains(
            ("line_count"@, json::optional_integer_tree(h.line_count)),
        ) && m.contains(("token_est"@, json::optional_integer_tree(h.token_est))) && m.contains(
            ("created_at"@, json::integer_tree(h.created_at as int)),
        ) && m.contains(("retrieval_count"@, json::integer_tree(h.retrieval_count as int)))
            && m.len() == 6,
{
    let m = report::entry_tree(h)->Object_0;
    assert(m.contains(m[0]) && m.contains(m[1]) && m.contains(m[2]));
    assert(m.contains(m[3]) && m.contains(m[4]) && m.contains(m[5]));
}

/// Handles and calls are listed as JSON one by one, in order.
pub proof fn lemma_listed_one_by_one(handles: Seq<HandleEntry>, calls: Seq<CallRecord>)
    ensures
        report::handles_tree(handles) matches JsonView::Array(items) && items.len()
            == handles.len() && forall|i: int|
            0 <= i < handles.len() ==> #[trigger] items[i] == report::entry_tree(handles[i]),
        rows::call_texts(calls).len() == calls.len(),
        forall|i: int|
            0 <= i < calls.len() ==> #[trigger] rows::call_texts(calls)[i] == json::compact(
                json::canonical(rows::call_tree(calls[i])),
            ),
{
}

/// A recorded call as JSON has all that is recorded of it.
pub proof fn lemma_call_members(c: CallRecord)
    ensures
        rows::call_tree(c) matches JsonView::Object(m) && m.len() == 12 && m.contains(
            ("id"@, json::integer_tree(c.id as int)),
        ) && m.contains(("tool"@, JsonView::Text(c.tool@))) && m.contains(
            ("tool_use_id"@, json::optional_text_tree(c.tool_use_id)),
        ) && m.contains(("params"@, json::optional_text_tree(c.params))) && m.contains(
            ("cwd"@, json::optional_text_tree(c.cwd)),
        ) && m.contains(("intercepted"@, JsonView::Bool(c.intercepted))) && m.contains(
            ("handle_id"@, json::optional_text_tree(c.handle_id)),
        ) && m.contains(("line_count"@, json::optional_integer_tree(c.line_count))) && m.contains(
            ("token_est"@, json::optional_integer_tree(c.token_est)),
        ) && m.contains(("duration_ms"@, json::optional_integer_tree(c.duration_ms)))
            && m.contains(("exit_code"@, json::optional_integer_tree(c.exit_code))) && m.contains(
            ("created_at"@, json::integer_tree(c.created_at as int)),
        ),
{
    let m = rows::call_tree(c)->Object_0;
    assert(m.contains(m[0]) && m.contains(m[1]) && m.contains(m[2]) && m.contains(m[3]));
    assert(m.contains(m[4]) && m.contains(m[5]) && m.contains(m[6]) && m.contains(m[7]));
    assert(m.contains(m[8]) && m.contains(m[9]) && m.contains(m[10]) && m.contains(m[11]));
}

/// What is told of a handle names it, its tool, its mode and its size, and ends
/// with commands that name it.
pub proof fn lemma_inspect(info: InspectResult)
    ensures
        ({
            let lines = report::inspect_lines(info);
            let id = info.id@;
            &&& lines.contains("handle:      "@ + id)
            &&& lines.contains("tool:        "@ + info.tool@)
            &&& lines.contains("mode:        "@ + info.output_mode@)
            &&& lines.contains("lines:       "@ + report::number_or_dash(""@, info.line_count))
            &&& lines.contains("tokens:      "@ + report::number_or_dash("~"@, info.token_est))
            &&& lines.contains(
                "retrievals:  "@ + number::signed_decimal(info.retrieval_count as int),
            )
            &&& lines.contains("  "@ + ("ctxl show "@ + id))
            &&& lines.contains("  "@ + ("ctxl search "@ + id + " \"query\""@))
            &&& info.tool@ == "Grep"@ ==> lines.contains("  "@ + ("ctxl files "@ + id))
        }),
{
    let lines = report::inspect_lines(info);
    let facts = report::inspect_facts(info);
    let given = report::suggestions(info.id@, info.tool@);
    let n = facts.len() as int;
    assert(lines[0] == "handle:      "@ + info.id@);
    assert(lines[1] == "tool:        "@ + info.tool@);
    assert(lines[2] == "mode:        "@ + info.output_mode@);
    assert(lines[3] == "lines:       "@ + report::number_or_dash(""@, info.line_count));
    assert(lines[4] == "tokens:      "@ + report::number_or_dash("~"@, info.token_est));
    let k: int = if info.tool_input is Some {
        10
    } else {
        9
    };
    assert(lines[k] == "retrievals:  "@ + number::signed_decimal(info.retrieval_count as int));
    assert(lines[n + 2] == "  "@ + given[0]);
    assert(lines[n + 3] == "  "@ + given[1]);
    if info.tool@ == "Grep"@ {
        assert(lines[n + 4] == "  "@ + given[2]);
    }
}

// ---------------------------------------------------------------------------
// Rows
// ---------------------------------------------------------------------------

/// The row of a payload holds its content and counts the lines of it; tool, mode
/// and directory come from the payload, or are the defaults.
pub proof fn lemma_row(row: HandleRow, payload: JsonView)
    requires
        store::is_row_of(row, payload),
    ensures
        row.content@ == store::content_of(payload),
        pieces::lines_of(row.content@).len() <= i64::MAX ==> row.line_count == pieces::lines_of(
            row.content@,
        ).len() || pieces::lines_of(row.content@).len() > usize::MAX,
        row.tool@ == match json::text_field(payload, "tool"@) {
            Some(t) => t,
            None => "Bash"@,
        },
        row.output_mode@ == match json::text_field(payload, "output_mode"@) {
            Some(m) => m,
            None => "stdout"@,
        },
        row.cwd@ == match json::text_field(payload, "cwd"@) {
            Some(d) => d,
            None => ""@,
        },
        row.tool_missing <==> json::text_field(payload, "tool"@) is None,
        row.truncated <==> json::field(payload, "truncated"@) == Some(JsonView::Bool(true)),
        row.tool_input is Some <==> json::field(payload, "tool_input"@) is Some,
{
}

} // verus!
