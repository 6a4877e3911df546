//! Laws of interception: what is captured, stored and said.

use crate::bytes;
use crate::compress;
use crate::index;
use crate::index::ContentType;
use crate::intercept;
use crate::intercept::{PassReason, ToolResponse};
use crate::intercept_grep;
use crate::json;
use crate::json::JsonView;
use crate::laws::find as find_laws;
use crate::laws::manifest as manifest_laws;
use crate::laws::text as text_laws;
use crate::number;
use crate::order;
use crate::pieces;
use crate::preview;
use crate::search;
use crate::store;
use crate::text;
use vstd::prelude::*;
use vstd::string::*;

verus! {

// ---------------------------------------------------------------------------
// What passes
// ---------------------------------------------------------------------------

/// The line breaks of a stream are its bytes that are one.
pub proof fn lemma_newlines(b: Seq<u8>)
    ensures
        intercept::newlines(b) == b.filter(|x: u8| x == 10).len(),
    decreases b.len(),
{
    reveal(Seq::filter);
    if b.len() > 0 {
        lemma_newlines(b.drop_last());
    }
}

/// Output is captured exactly where it is no image, more than the bytes or the
/// line breaks that are allowed, and, where the command was interrupted, at least
/// twice the bytes.
pub proof fn lemma_captured(
    resp: ToolResponse,
    out: Seq<u8>,
    err: Seq<u8>,
    threshold: nat,
    line_threshold: nat,
)
    ensures
        ({
            let reason = intercept::pass_reason(resp, out, err, threshold, line_threshold);
            let size = out.len() + err.len();
            let breaks = (out + err).filter(|x: u8| x == 10).len();
            let exceeds = size > threshold || breaks > line_threshold;
            &&& reason is None <==> resp.is_image != Some(true) && exceeds && (resp.interrupted
                == Some(true) ==> size >= 2 * threshold)
            &&& resp.is_image == Some(true) ==> reason == Some(PassReason::Image)
            &&& resp.is_image != Some(true) && !exceeds ==> reason == Some(
                PassReason::BelowThreshold,
            )
            &&& resp.is_image != Some(true) && exceeds && resp.interrupted == Some(true) && size < 2
                * threshold ==> reason == Some(PassReason::Interrupted)
        }),
{
    lemma_newlines(out);
    lemma_newlines(err);
    Seq::filter_distributes_over_add(out, err, |x: u8| x == 10);
}

/// The two streams are put on lines of their own: the lines of the one, then
/// those of the other.
pub proof fn lemma_streams(out: Seq<char>, err: Seq<char>)
    requires
        out.len() > 0 ==> out.last() != '\r',
    ensures
        pieces::lines_of(intercept::streams_joined(out, err)) == pieces::lines_of(out)
            + pieces::lines_of(err),
{
    reveal_strlit("\n");
    let none = Seq::<Seq<char>>::empty();
    if out.len() == 0 {
        assert(out + err =~= err);
        assert(pieces::lines_of(out) + pieces::lines_of(err) =~= pieces::lines_of(err));
    } else if err.len() == 0 {
        assert(out + err =~= out);
        assert(pieces::lines_of(out) + pieces::lines_of(err) =~= pieces::lines_of(out));
    } else if out.last() == '\n' {
        pieces::lemma_lines_concat(out, err);
    } else {
        text_laws::lemma_break_adds_no_line(out);
        pieces::lemma_lines_concat(out.push('\n'), err);
        assert(out + "\n"@ + err =~= out.push('\n') + err);
    }
}

/// A search result passes where it has no more lines than are allowed.
pub proof fn lemma_search_result_captured(content: Seq<char>, resp: intercept_grep::GrepToolResponse, threshold: nat)
    requires
        resp.content matches Some(c) && c@ == content,
    ensures
        intercept_grep::passes(resp, threshold) <==> pieces::lines_of(content).len() <= threshold,
{
    if content.len() == 0 {
        assert(pieces::lines_of(content).len() == 0);
    }
}

// ---------------------------------------------------------------------------
// What is stored
// ---------------------------------------------------------------------------

/// What is stored of a payload: its content; where it has none, the stream that
/// its mode names; of both streams both, on lines of their own.
pub proof fn lemma_content_by_mode(payload: JsonView, out: Seq<char>, err: Seq<char>)
    requires
        json::text_field(payload, "stdout"@) == Some(out),
        json::text_field(payload, "stderr"@) == Some(err),
    ensures
        json::text_field(payload, "content"@) matches Some(c) ==> store::content_of(payload) == c,
        json::text_field(payload, "content"@) is None ==> {
            let mode = json::text_field(payload, "output_mode"@);
            &&& mode is None ==> store::content_of(payload) == out
            &&& mode == Some("stdout"@) ==> store::content_of(payload) == out
            &&& mode == Some("stderr"@) ==> store::content_of(payload) == err
            &&& mode == Some("mixed"@) ==> store::content_of(payload) == intercept::streams_joined(
                out,
                err,
            )
        },
{
    reveal_strlit("stdout");
    reveal_strlit("stderr");
    reveal_strlit("mixed");
    assert("stdout"@[3] == 'o' && "stderr"@[3] == 'e');
    assert("mixed"@.len() == 5 && "stdout"@.len() == 6 && "stderr"@.len() == 6);
}

/// The members that describe a call are all but the streams, the content and the
/// input, in order.
pub proof fn lemma_param_members(members: Seq<(Seq<char>, JsonView)>)
    ensures
        store::param_members(members) == members.filter(
            |m: (Seq<char>, JsonView)|
                m.0 != "stdout"@ && m.0 != "stderr"@ && m.0 != "content"@ && m.0 != "tool_input"@,
        ),
    decreases members.len(),
{
    reveal(Seq::filter);
    if members.len() > 0 {
        lemma_param_members(members.drop_last());
    }
}

/// The first letter of a handle tells the tool that it comes from.
pub proof fn lemma_handle_letter(payload: JsonView)
    ensures
        store::handle_prefix(payload).len() == 2,
        store::handle_prefix(payload)[1] == '_',
        store::handle_prefix(payload)[0] == 'g' <==> json::text_field(payload, "tool"@) == Some(
            "Grep"@,
        ),
        store::handle_prefix(payload)[0] == 'i' <==> json::text_field(payload, "tool"@) == Some(
            "ctxl-index"@,
        ),
        store::handle_prefix(payload)[0] == 'b' <==> json::text_field(payload, "tool"@) != Some(
            "Grep"@,
        ) && json::text_field(payload, "tool"@) != Some("ctxl-index"@),
{
    reveal_strlit("g_");
    reveal_strlit("i_");
    reveal_strlit("b_");
    reveal_strlit("Grep");
    reveal_strlit("ctxl-index");
    assert("Grep"@.len() == 4 && "ctxl-index"@.len() == 10);
}

/// The hex digits of a handle are those of the bytes, two for each.
pub proof fn lemma_hex_text(bytes: Seq<u8>, i: int)
    requires
        0 <= i < bytes.len(),
    ensures
        store::hex_text(bytes, 2 * bytes.len() as int)[2 * i] == number::hex_digit(
            (bytes[i] / 16) as nat,
        ),
        store::hex_text(bytes, 2 * bytes.len() as int)[2 * i + 1] == number::hex_digit(
            (bytes[i] % 16) as nat,
        ),
{
    assert((2 * i) / 2 == i && (2 * i) % 2 == 0);
    assert((2 * i + 1) / 2 == i && (2 * i + 1) % 2 == 1);
}

/// The type of input is told by its first character behind white space.
pub proof fn lemma_detected_type(lead: Seq<char>, first: char, rest: Seq<char>)
    requires
        text_laws::is_blank(lead),
        !text::is_white_space(first),
    ensures
        index::detected_type(lead.push(first) + rest) == if first == '<' {
            ContentType::Html
        } else if first == '{' || first == '[' {
            ContentType::Json
        } else {
            ContentType::Text
        },
{
    let tail = seq![first] + rest;
    assert(lead.push(first) + rest =~= lead + tail);
    text_laws::lemma_trimmed_start(lead, tail);
}

// ---------------------------------------------------------------------------
// What is said
// ---------------------------------------------------------------------------

/// The message in place of captured output starts with the number of lines, ends
/// with how to see and search the handle, and holds the number of bytes and the
/// preview; and, of a diff or of grep-like output, the number of files and how to
/// list them.
pub proof fn lemma_message(
    handle: Seq<char>,
    line_count: nat,
    size: nat,
    content: Seq<char>,
    total: Option<usize>,
)
    ensures
        ({
            let message = intercept::block_message(handle, line_count, size, content, total);
            let shown = preview::preview_of(content);
            let files = intercept::file_total(content);
            &&& ("[ctxl] Output captured ("@ + number::decimal(line_count)
                + " lines, "@).is_prefix_of(message)
            &&& ("ctxl show "@ + handle + "  ·  ctxl search "@ + handle
                + " <query>"@).is_suffix_of(message)
            &&& find_laws::holds(message, ") → "@ + handle)
            &&& find_laws::holds(message, number::decimal(size) + " bytes"@)
            &&& shown.len() > 0 ==> find_laws::holds(message, "\n  → "@ + shown)
            &&& files matches Some(n) ==> find_laws::holds(
                message,
                number::decimal(n) + " files, "@,
            ) && find_laws::holds(message, "Run: ctxl files "@ + handle)
            &&& total matches Some(t) ==> (t > line_count ==> find_laws::holds(
                message,
                ", stored first "@ + number::decimal(line_count) + " of "@ + number::decimal(
                    t as nat,
                ) + " lines"@,
            ))
        }),
{
    let shown = preview::preview_of(content);
    let files = intercept::file_total(content);
    let note = intercept::truncation_note(line_count, total);
    let start = "[ctxl] Output captured ("@ + number::decimal(line_count) + " lines, "@;
    let middle = match files {
        Some(n) => number::decimal(n) + " files, "@,
        None => Seq::<char>::empty(),
    };
    let size_part = number::decimal(size) + " bytes"@;
    let seen = intercept::preview_line("\n  → "@, shown);
    let top = intercept::top_files_line(intercept::top_entries(content)) + "\n"@;
    let list = match files {
        Some(_) => "Run: ctxl files "@ + handle,
        None => Seq::<char>::empty(),
    };
    let gap = match files {
        Some(_) => "  ·  "@,
        None => "Run: "@,
    };
    let run = "ctxl show "@ + handle + "  ·  ctxl search "@ + handle + " <query>"@;
    lemma_message_parts(handle, line_count, size, content, total);
    lemma_parts(start, middle, size_part, note, ") → "@ + handle, seen, top, list, gap, run);
}

/// The parts of a message, in order.
proof fn lemma_message_parts(
    handle: Seq<char>,
    line_count: nat,
    size: nat,
    content: Seq<char>,
    total: Option<usize>,
)
    ensures
        ({
            let files = intercept::file_total(content);
            let start = "[ctxl] Output captured ("@ + number::decimal(line_count) + " lines, "@;
            let middle = match files {
                Some(n) => number::decimal(n) + " files, "@,
                None => Seq::<char>::empty(),
            };
            let size_part = number::decimal(size) + " bytes"@;
            let note = intercept::truncation_note(line_count, total);
            let seen = intercept::preview_line("\n  → "@, preview::preview_of(content));
            let top = intercept::top_files_line(intercept::top_entries(content)) + "\n"@;
            let list = match files {
                Some(_) => "Run: ctxl files "@ + handle,
                None => Seq::<char>::empty(),
            };
            let gap = match files {
                Some(_) => "  ·  "@,
                None => "Run: "@,
            };
            let run = "ctxl show "@ + handle + "  ·  ctxl search "@ + handle + " <query>"@;
            intercept::block_message(handle, line_count, size, content, total) == start + middle
                + size_part + note + (") → "@ + handle) + seen + top + list + gap + run
        }),
{
    let files = intercept::file_total(content);
    let open = "[ctxl] Output captured ("@;
    let note = intercept::truncation_note(line_count, total);
    let counts = intercept::stats(line_count, files, size, note);
    let seen = intercept::preview_line("\n  → "@, preview::preview_of(content));
    let top = intercept::top_files_line(intercept::top_entries(content));
    let run = "ctxl show "@ + handle + "  ·  ctxl search "@ + handle + " <query>"@;
    lemma_counts(open, line_count, files, size, note);
    lemma_hints(handle);
    match files {
        Some(n) => {
            let front = open + number::decimal(line_count) + " lines, "@ + (number::decimal(n)
                + " files, "@) + (number::decimal(size) + " bytes"@) + note;
            lemma_end(front, ") → "@, handle, seen, top, "\n"@, "Run: ctxl files "@ + handle, "  ·  "@, run);
        },
        None => {
            let front = open + number::decimal(line_count) + " lines, "@ + Seq::<char>::empty() + (
            number::decimal(size) + " bytes"@) + note;
            lemma_end(front, ") → "@, handle, seen, top, "\n"@, Seq::<char>::empty(), "Run: "@, run);
        },
    }
}

proof fn lemma_counts(
    open: Seq<char>,
    lines: nat,
    files: Option<nat>,
    size: nat,
    note: Seq<char>,
)
    ensures
        open + intercept::stats(lines, files, size, note) == open + number::decimal(lines)
            + " lines, "@ + (match files {
            Some(n) => number::decimal(n) + " files, "@,
            None => Seq::<char>::empty(),
        }) + (number::decimal(size) + " bytes"@) + note,
{
    let a = number::decimal(lines);
    let b = number::decimal(size);
    match files {
        Some(n) => {
            let c = number::decimal(n);
            assert(open + (a + " lines, "@ + c + " files, "@ + b + " bytes"@ + note) =~= open + a
                + " lines, "@ + (c + " files, "@) + (b + " bytes"@) + note);
        },
        None => {
            assert(open + (a + " lines, "@ + b + " bytes"@ + note) =~= open + a + " lines, "@
                + Seq::<char>::empty() + (b + " bytes"@) + note);
        },
    }
}

proof fn lemma_hints(handle: Seq<char>)
    ensures
        intercept::file_hints(handle) == ("Run: ctxl files "@ + handle) + "  ·  "@ + ("ctxl show "@
            + handle + "  ·  ctxl search "@ + handle + " <query>"@),
        intercept::plain_hints(handle) == Seq::<char>::empty() + "Run: "@ + ("ctxl show "@ + handle
            + "  ·  ctxl search "@ + handle + " <query>"@),
{
    reveal_strlit("  ·  ctxl show ");
    reveal_strlit("  ·  ");
    reveal_strlit("ctxl show ");
    reveal_strlit("Run: ctxl show ");
    reveal_strlit("Run: ");
    let search = "  ·  ctxl search "@;
    let end = " <query>"@;
    assert("  ·  ctxl show "@ =~= "  ·  "@ + "ctxl show "@);
    assert("Run: ctxl show "@ =~= "Run: "@ + "ctxl show "@);
    assert("Run: ctxl files "@ + handle + ("  ·  "@ + "ctxl show "@) + handle + search + handle
        + end =~= ("Run: ctxl files "@ + handle) + "  ·  "@ + ("ctxl show "@ + handle + search
        + handle + end));
    assert(("Run: "@ + "ctxl show "@) + handle + search + handle + end =~= Seq::<char>::empty()
        + "Run: "@ + ("ctxl show "@ + handle + search + handle + end));
}

proof fn lemma_end(
    front: Seq<char>,
    arrow: Seq<char>,
    handle: Seq<char>,
    seen: Seq<char>,
    top: Seq<char>,
    nl: Seq<char>,
    list: Seq<char>,
    gap: Seq<char>,
    run: Seq<char>,
)
    ensures
        front + arrow + handle + seen + top + nl + (list + gap + run) == front + (arrow + handle)
            + seen + (top + nl) + list + gap + run,
{
    assert(front + arrow + handle =~= front + (arrow + handle));
    let a = front + (arrow + handle) + seen;
    assert(a + top + nl =~= a + (top + nl));
    let b = a + (top + nl);
    assert(b + (list + gap + run) =~= b + list + gap + run);
}

/// The first of ten parts starts the whole, the last ends it, and the others
/// stand in it.
proof fn lemma_parts(
    a: Seq<char>,
    b: Seq<char>,
    c: Seq<char>,
    d: Seq<char>,
    e: Seq<char>,
    f: Seq<char>,
    g: Seq<char>,
    h: Seq<char>,
    i: Seq<char>,
    j: Seq<char>,
)
    ensures
        ({
            let s = a + b + c + d + e + f + g + h + i + j;
            &&& a.is_prefix_of(s)
            &&& j.is_suffix_of(s)
            &&& find_laws::holds(s, b)
            &&& find_laws::holds(s, c)
            &&& find_laws::holds(s, d)
            &&& find_laws::holds(s, e)
            &&& find_laws::holds(s, f)
            &&& find_laws::holds(s, h)
        }),
{
    let s = a + b + c + d + e + f + g + h + i + j;
    assert(s.subrange(0, a.len() as int) =~= a);
    assert(s.subrange(s.len() - j.len(), s.len() as int) =~= j);
    let kb = a.len() as int;
    assert(s.subrange(kb, kb + b.len()) =~= b);
    let kc = kb + b.len();
    assert(s.subrange(kc, kc + c.len()) =~= c);
    let kd = kc + c.len();
    assert(s.subrange(kd, kd + d.len()) =~= d);
    let ke = kd + d.len();
    assert(s.subrange(ke, ke + e.len()) =~= e);
    let kf = ke + e.len();
    assert(s.subrange(kf, kf + f.len()) =~= f);
    let kh = kf + f.len() + g.len();
    assert(s.subrange(kh, kh + h.len()) =~= h);
}

/// The message on the output of a failed command says that it failed, and with
/// which code.
pub proof fn lemma_failure_message(
    handle: Seq<char>,
    line_count: nat,
    size: nat,
    shown: Seq<char>,
    code: i64,
)
    ensures
        ({
            let message = intercept::capture_message(handle, line_count, size, shown, Some(code));
            &&& code != 0 ==> ("[ctxl] Command failed (exit "@ + number::signed_decimal(code as int)
                + "). Output captured ("@ + number::decimal(line_count) + " lines, "@
                + number::decimal(size) + " bytes) → "@ + handle).is_prefix_of(message)
            &&& code == 0 ==> message == intercept::block_message(
                handle,
                line_count,
                size,
                shown,
                None,
            )
        }),
{
    if code != 0 {
        let start = "[ctxl] Command failed (exit "@ + number::signed_decimal(code as int)
            + "). Output captured ("@ + number::decimal(line_count) + " lines, "@
            + number::decimal(size) + " bytes) → "@ + handle;
        let message = intercept::capture_message(handle, line_count, size, shown, Some(code));
        assert(message.subrange(0, start.len() as int) =~= start);
    }
}

/// A hint that found something is shown with the number of matches and each of
/// them on a line of its own.
pub proof fn lemma_appended_lines(lines: Seq<Seq<char>>)
    requires
        lines.len() > 0,
    ensures
        index::appended_lines(lines) == "\n"@ + pieces::joined(lines, "\n"@),
    decreases lines.len(),
{
    if lines.len() == 1 {
        assert(index::appended_lines(lines.drop_last()) =~= seq![]);
        assert(index::appended_lines(lines) =~= "\n"@ + lines[0]);
    } else {
        lemma_appended_lines(lines.drop_last());
        assert(index::appended_lines(lines) =~= "\n"@ + pieces::joined(lines, "\n"@));
    }
}

// ---------------------------------------------------------------------------
// Compression
// ---------------------------------------------------------------------------

/// A compressed body of source code, or of a search result, takes fewer bytes
/// than the content.
pub proof fn lemma_compression_shrinks(
    content: Seq<char>,
    command: Option<Seq<char>>,
    mode: Seq<char>,
    deduped: Seq<char>,
)
    ensures
        intercept::compression_of(content, command) matches Some(c) ==> (c.0 == "diff"@
            && preview::is_diff(content)) || (c.0 == "code"@ && !preview::is_diff(content)
            && bytes::byte_len(c.1) < bytes::byte_len(content)),
        intercept_grep::dedup_of(mode, content, deduped) matches Some(d) ==> d == deduped && mode
            == "content"@ && bytes::byte_len(d) < bytes::byte_len(content),
        mode == "content"@ && deduped.len() > 0 && bytes::byte_len(deduped) < bytes::byte_len(
            content,
        ) ==> intercept_grep::dedup_of(mode, content, deduped) == Some(deduped),
{
}

/// The language of a file that is shown with `cat` is told by its extension.
pub proof fn lemma_cat(path: Seq<char>)
    requires
        text_laws::is_word(path),
        path[0] != '-',
        path[0] != '#',
        !path.contains('|'),
        !path.contains('>'),
    ensures
        intercept::command_language("cat "@ + path) == compress::language_for(
            search::after_last(path, '.'),
        ),
{
    reveal_strlit("cat ");
    reveal_strlit(" #");
    let c = "cat "@ + path;
    assert(c[0] == 'c');
    assert(c.last() == path[path.len() - 1]);
    text_laws::lemma_trimmed_is(c);
    search::lemma_sub_index_from(c, " #"@, 0);
    match search::sub_index(c, " #"@) {
        Some(k) => {
            assert(c.subrange(k, k + 2)[0] == c[k]);
            assert(c.subrange(k, k + 2)[1] == c[k + 1]);
            assert(c[k] == ' ' && c[k + 1] == '#');
            if k >= 4 {
                assert(text::is_white_space(path[k - 4]));
            }
            assert(k == 3);
        },
        None => {},
    }
    assert(intercept::without_comment(c) == c);
    assert(c.subrange(0, 4) =~= "cat "@);
    assert(!c.contains('|') && !c.contains('>')) by {
        assert forall|x: char| c.contains(x) && x != 'c' && x != 'a' && x != 't' && x
            != ' ' implies path.contains(x) by {
            let k = c.index_of(x);
            assert(path[k - 4] == x);
        }
    }
    let cat = seq!['c', 'a', 't'];
    let gap = seq![' '];
    assert(c =~= cat + (gap + path));
    assert((gap + path)[0] == ' ');
    text_laws::lemma_first_word(cat, gap + path);
    text_laws::lemma_words_behind_blank(gap, path);
    let none = Seq::<char>::empty();
    text_laws::lemma_first_word(path, none);
    assert(path + none =~= path);
    assert(pieces::words_of(none) =~= seq![]);
    let words = pieces::words_of(c);
    assert(words =~= seq![cat, path]);
    assert(words.last() == path);
}

/// A command that pipes or redirects shows no file.
pub proof fn lemma_no_plain_cat(command: Seq<char>)
    requires
        intercept::without_comment(command).contains('|') || intercept::without_comment(
            command,
        ).contains('>') || !"cat "@.is_prefix_of(intercept::without_comment(command)),
    ensures
        intercept::command_language(command) is None,
{
}

/// A comment behind a command is no part of it, nor is the white space between.
pub proof fn lemma_comment_dropped(command: Seq<char>, gap: Seq<char>, comment: Seq<char>)
    requires
        command.len() > 0 && text_laws::is_tight(command) && !command.contains('#'),
        text_laws::is_blank(gap),
        comment.len() > 0 ==> !text::is_white_space(comment.last()),
    ensures
        intercept::without_comment(command + gap + " #"@ + comment) == command,
{
    reveal_strlit(" #");
    let t = command + gap + " #"@ + comment;
    let k = (command.len() + gap.len()) as int;
    assert(t[0] == command[0]);
    assert(t.last() == if comment.len() > 0 {
        comment.last()
    } else {
        '#'
    });
    text_laws::lemma_trimmed_is(t);
    lemma_comment_found(command, gap, comment);
    assert(t.take(k) =~= command + gap);
    text_laws::lemma_blank_end(command, gap);
}

proof fn lemma_comment_found(command: Seq<char>, gap: Seq<char>, comment: Seq<char>)
    requires
        !command.contains('#'),
        text_laws::is_blank(gap),
    ensures
        search::sub_index(command + gap + " #"@ + comment, " #"@) == Some(
            (command.len() + gap.len()) as int,
        ),
{
    reveal_strlit(" #");
    let mark = " #"@;
    let t = command + gap + mark + comment;
    let k = (command.len() + gap.len()) as int;
    assert(t.subrange(k, k + 2) =~= mark);
    assert(search::stands_at(t, mark, k));
    assert forall|j: int| 0 <= j < k implies !search::stands_at(t, mark, j) by {
        lemma_no_mark(command, gap, comment, j);
    }
    search::lemma_sub_index_from(t, mark, 0);
}

proof fn lemma_no_mark(command: Seq<char>, gap: Seq<char>, comment: Seq<char>, j: int)
    requires
        !command.contains('#'),
        text_laws::is_blank(gap),
        0 <= j < command.len() + gap.len(),
    ensures
        !search::stands_at(command + gap + " #"@ + comment, " #"@, j),
{
    reveal_strlit(" #");
    let mark = " #"@;
    let t = command + gap + mark + comment;
    if search::stands_at(t, mark, j) {
        assert(t.subrange(j, j + 2)[1] == t[j + 1]);
        assert(mark[1] == '#');
        if j + 1 < command.len() {
            assert(t[j + 1] == command[j + 1]);
            assert(command.contains(command[j + 1]));
        } else if j + 1 < command.len() + gap.len() {
            assert(t[j + 1] == gap[j + 1 - command.len()]);
            assert(text::is_white_space(gap[j + 1 - command.len()]));
        } else {
            assert(t[j + 1] == ' ');
        }
    }
}

/// What was stored in part says how much of how much, and what was stored whole
/// says nothing.
pub proof fn lemma_stored_in_part(lines: nat, total: usize)
    ensures
        lines < total ==> intercept::truncation_note(lines, Some(total)) == ", stored first "@
            + number::decimal(lines) + " of "@ + number::decimal(total as nat) + " lines"@,
        lines >= total ==> intercept::truncation_note(lines, Some(total)).len() == 0,
        intercept::truncation_note(lines, None).len() == 0,
{
}

/// A file of a diff as it is named in front: with its hunks, or as binary.
pub open spec fn named_in_diff(file: Seq<char>, hunks: nat, binary: bool) -> Seq<char> {
    file + if binary {
        " (binary)"@
    } else if hunks == 1 {
        " (1 hunk)"@
    } else {
        " ("@ + number::decimal(hunks) + " hunks)"@
    }
}

/// Of the files of a diff, the three with the most hunks are named, the most
/// first and each with its count.
pub proof fn lemma_top_of_diff(content: Seq<char>)
    requires
        preview::is_diff(content),
    ensures
        ({
            let files = preview::files_of_diff(content);
            let by_rank = order::flagged_ranked(files);
            let named = intercept::top_entries(content);
            &&& named.len() == if files.len() < 3 {
                files.len()
            } else {
                3
            }
            &&& by_rank.to_multiset() == files.to_multiset()
            &&& forall|i: int, j: int|
                0 <= i < j < by_rank.len() ==> (#[trigger] by_rank[i]).1 >= (
                #[trigger] by_rank[j]).1
            &&& forall|i: int|
                0 <= i < named.len() ==> #[trigger] named[i] == named_in_diff(
                    by_rank[i].0,
                    by_rank[i].1,
                    by_rank[i].2,
                )
        }),
{
    let files = preview::files_of_diff(content);
    let by_rank = order::flagged_ranked(files);
    let named = intercept::top_entries(content);
    let before = |a: (Seq<char>, nat, bool), b: (Seq<char>, nat, bool)| order::flagged_before(a, b);
    lemma_flagged_order();
    order::lemma_sorted_in_order(files, before);
    assert forall|i: int, j: int| 0 <= i < j < by_rank.len() implies (#[trigger] by_rank[i]).1 >= (
    #[trigger] by_rank[j]).1 by {
        assert(!before(by_rank[j], by_rank[i]));
    }
    assert forall|i: int| 0 <= i < named.len() implies #[trigger] named[i] == named_in_diff(
        by_rank[i].0,
        by_rank[i].1,
        by_rank[i].2,
    ) by {
        let f = by_rank[i];
        assert(named[i] == intercept::diff_entry(f));
        if !f.2 && f.1 != 1 {
            assert(named[i] =~= f.0 + (" ("@ + number::decimal(f.1) + " hunks)"@));
        }
    }
}

proof fn lemma_flagged_order()
    ensures
        order::is_order(
            |a: (Seq<char>, nat, bool), b: (Seq<char>, nat, bool)| order::flagged_before(a, b),
        ),
{
    let before = |a: (Seq<char>, nat, bool), b: (Seq<char>, nat, bool)| order::flagged_before(a, b);
    assert forall|a: (Seq<char>, nat, bool), b: (Seq<char>, nat, bool), c: (Seq<char>, nat, bool)|
        #[trigger] before(a, b) && #[trigger] before(b, c) implies before(a, c) by {
        order::lemma_rank_order((a.0, a.1), (b.0, b.1), (c.0, c.1));
    }
    assert forall|a: (Seq<char>, nat, bool), b: (Seq<char>, nat, bool), c: (Seq<char>, nat, bool)|
        !(#[trigger] before(a, b)) && (#[trigger] before(a, c)) implies before(b, c) by {
        order::lemma_rank_order((a.0, a.1), (b.0, b.1), (c.0, c.1));
    }
    assert forall|a: (Seq<char>, nat, bool)| !(#[trigger] before(a, a)) by {
        order::lemma_rank_order((a.0, a.1), (a.0, a.1), (a.0, a.1));
    }
}

/// Of the files of grep-like output, the three with the most matches are named,
/// the most first and each with its count.
pub proof fn lemma_top_of_matches(content: Seq<char>)
    requires
        !preview::is_diff(content),
    ensures
        ({
            let files = preview::files_of_grep(content);
            let by_rank = order::ranked(files);
            let named = intercept::top_entries(content);
            &&& named.len() == if files.len() < 3 {
                files.len()
            } else {
                3
            }
            &&& by_rank.to_multiset() == files.to_multiset()
            &&& forall|i: int, j: int|
                0 <= i < j < by_rank.len() ==> (#[trigger] by_rank[i]).1 >= (
                #[trigger] by_rank[j]).1
            &&& forall|i: int|
                0 <= i < named.len() ==> #[trigger] named[i] == by_rank[i].0 + " ("@
                    + number::decimal(by_rank[i].1) + ")"@
        }),
{
    let files = preview::files_of_grep(content);
    let by_rank = order::ranked(files);
    manifest_laws::lemma_ranked(files);
    assert forall|i: int, j: int| 0 <= i < j < by_rank.len() implies (#[trigger] by_rank[i]).1 >= (
    #[trigger] by_rank[j]).1 by {
        assert(manifest_laws::in_rank_order(by_rank[i], by_rank[j]));
    }
}

/// The entities that a diff changes are listed one a line: the file, the entity
/// and the change, with tabs between.
pub proof fn lemma_entity_lines(entries: Seq<(Seq<char>, Seq<char>, Seq<char>)>)
    ensures
        intercept::entity_lines(entries).len() == entries.len(),
        forall|i: int|
            0 <= i < entries.len() ==> #[trigger] intercept::entity_lines(entries)[i]
                == entries[i].0 + "\t"@ + entries[i].1 + "\t"@ + entries[i].2,
{
}

} // verus!
